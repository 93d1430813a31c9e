# openairplay1

A classic AirPlay (RAOP) audio receiver. The protocol itself is a library whose
behaviour is stated in contracts and proved by Verus; sockets, sound card, mDNS
and terminal are a thin program around it.

- `src/`: the verified library. RTSP framing, SDP, the session and the exclusive
  slot, password and Apple challenges, RTP, the jitter buffer and resend
  requests, the clock model, playout and progress, DMAP metadata, the dashboard
  protocol and the terminal screen's state.
- `app/`: the receiver program: threads, sockets, ALSA, Avahi, the terminal, the
  dashboard's WebSocket, the ALAC decoder and the software volume.
- `tests/`: tests of the library from outside.

Proof functions named `law_...` state what holds across several functions, such
as that a password never set is never asked for, that arrival order does not
matter to the jitter buffer, or that a session ends once.

The program reads the RSA key that answers the Apple challenge from the file
named by `AIRPORT_KEY`, or from `airport.pem`.
