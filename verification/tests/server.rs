//! Whole connections: the handshake, the password, and the common headers.

use std::sync::OnceLock;

use aes::cipher::{BlockEncryptMut, KeyIvInit};
use base64::engine::general_purpose::{STANDARD, STANDARD_NO_PAD};
use base64::Engine;
use openairplay1::audio::{AudioReceiver, Playable};
use openairplay1::config::Config;
use openairplay1::crypto;
use openairplay1::events::Event;
use openairplay1::net::IpAddr;
use openairplay1::rtsp::{read_request, ReadOutcome, Response};
use openairplay1::server::{
    check_credential, is_printable, Connection, Context, Reply, PUBLIC_METHODS, SERVER_ID,
};
use openairplay1::session::{BoundPorts, Effect, SessionSlot, StreamParams};
use rsa::pkcs1::EncodeRsaPrivateKey;
use rsa::{Oaep, Pkcs1v15Sign, RsaPrivateKey};

type Aes128CbcEnc = cbc::Encryptor<aes::Aes128>;

const MAC: [u8; 6] = [0xaa, 0xbb, 0xcc, 0xdd, 0xee, 0xff];
const LOCAL: IpAddr = IpAddr::V4([127, 0, 0, 1]);

const KEY: [u8; 16] = [
    0xa1, 0xb2, 0xc3, 0xd4, 0xe5, 0xf6, 0x07, 0x18, 0x29, 0x3a, 0x4b, 0x5c, 0x6d, 0x7e, 0x8f, 0x90,
];
const IV: [u8; 16] = [
    0x11, 0x22, 0x33, 0x44, 0x55, 0x66, 0x77, 0x88, 0x99, 0xaa, 0xbb, 0xcc, 0xdd, 0xee, 0xff, 0x00,
];

/// A minimal unencrypted ANNOUNCE body (no rsaaeskey/aesiv).
const SDP: &str = "v=0\r\n\
    o=iTunes 3413821438 0 IN IP4 192.168.1.2\r\n\
    s=iTunes\r\n\
    c=IN IP4 192.168.1.10\r\n\
    t=0 0\r\n\
    m=audio 0 RTP/AVP 96\r\n\
    a=rtpmap:96 AppleLossless\r\n\
    a=fmtp:96 352 0 16 40 10 14 2 255 0 0 44100\r\n";

const SETUP: &str = "SETUP rtsp://127.0.0.1/1 RTSP/1.0\r\nCSeq: 2\r\n\
    Transport: RTP/AVP/UDP;unicast;mode=record;control_port=6001;timing_port=6002\r\n\r\n";

/// A key of the tests' own, in place of the receiver's.
fn key() -> &'static RsaPrivateKey {
    static KEY: OnceLock<RsaPrivateKey> = OnceLock::new();
    KEY.get_or_init(|| RsaPrivateKey::new(&mut rand::thread_rng(), 1024).unwrap())
}

fn context_with(password: Option<&str>, key_pem: &str) -> Context {
    Context {
        config: Config {
            name: "Test".to_string(),
            port: 5000,
            mac: MAC,
            password: password.map(str::to_string),
        },
        key_pem: key_pem.to_string(),
    }
}

/// One client, with sockets that always bind.
struct Client {
    connection: Connection,
    context: Context,
    events: Vec<Event>,
    effect: Effect,
    params: Option<StreamParams>,
}

impl Client {
    fn new(password: Option<&str>) -> Client {
        Client::with_key(password, "")
    }

    fn keyed() -> Client {
        let pem = key().to_pkcs1_pem(rsa::pkcs1::LineEnding::LF).unwrap();
        Client::with_key(None, &pem)
    }

    fn with_key(password: Option<&str>, key_pem: &str) -> Client {
        Client {
            connection: Connection::open("127.0.0.1".to_string()).unwrap(),
            context: context_with(password, key_pem),
            events: Vec::new(),
            effect: Effect::Nothing,
            params: None,
        }
    }

    fn send_raw(&mut self, slot: &mut SessionSlot, raw: &[u8]) -> Response {
        let request = match read_request(raw, true) {
            ReadOutcome::Request { request, .. } => request,
            other => panic!("{other:?}"),
        };
        match self
            .connection
            .dispatch(&request, slot, LOCAL, &self.context)
        {
            Reply::Done(outcome) => {
                self.events = outcome.events;
                self.effect = outcome.effect;
                outcome.response
            }
            Reply::Bind(plan) => {
                let ports = BoundPorts {
                    audio: 7000,
                    control: 7001,
                    timing: 7002,
                };
                self.params = Some(plan.params);
                let (response, events) = self.connection.finish_setup(
                    &request,
                    &plan,
                    Some(ports),
                    LOCAL,
                    &self.context,
                );
                self.events = events;
                response
            }
        }
    }

    fn send(&mut self, slot: &mut SessionSlot, raw: &str) -> Response {
        self.send_raw(slot, raw.as_bytes())
    }

    fn announce(&mut self, slot: &mut SessionSlot, sdp: &str) -> Response {
        let raw = format!(
            "ANNOUNCE rtsp://127.0.0.1/1 RTSP/1.0\r\nCSeq: 1\r\n\
             Content-Type: application/sdp\r\nContent-Length: {}\r\n\r\n{sdp}",
            sdp.len()
        );
        self.send(slot, &raw)
    }

    fn set_parameter(&mut self, slot: &mut SessionSlot, ct: &str, body: &[u8]) -> Response {
        let mut raw = format!(
            "SET_PARAMETER rtsp://127.0.0.1/1 RTSP/1.0\r\n\
             CSeq: 9\r\nContent-Type: {ct}\r\nContent-Length: {}\r\n\r\n",
            body.len()
        )
        .into_bytes();
        raw.extend_from_slice(body);
        self.send_raw(slot, &raw)
    }
}

/// The status line of a response.
fn status(response: &Response) -> String {
    let text = String::from_utf8(response.to_bytes()).unwrap();
    text.split("\r\n").next().unwrap().to_string()
}

fn header(response: &Response, name: &str) -> Option<String> {
    response.get(name)
}

/// Encrypt like a real sender: RSA-OAEP-wrap the AES key with the public key
/// for the SDP.
fn wrap_key() -> String {
    let ct = key()
        .to_public_key()
        .encrypt(&mut rand::thread_rng(), Oaep::new::<sha1::Sha1>(), &KEY)
        .unwrap();
    STANDARD.encode(ct).trim_end_matches('=').to_string()
}

fn encrypt_audio(plaintext: &[u8]) -> Vec<u8> {
    let block_len = plaintext.len() & !0xf;
    let mut out = plaintext.to_vec();
    let mut cipher = Aes128CbcEnc::new(&KEY.into(), &IV.into());
    for block in out[..block_len].chunks_exact_mut(16) {
        let ga = aes::cipher::generic_array::GenericArray::from_mut_slice(block);
        cipher.encrypt_block_mut(ga);
    }
    out
}

/// Pull the `nonce="..."` out of a `WWW-Authenticate: Digest ...` value.
fn nonce_from_auth(auth: &str) -> String {
    let needle = "nonce=\"";
    let start = auth.find(needle).unwrap() + needle.len();
    let end = auth[start..].find('"').unwrap() + start;
    auth[start..end].to_string()
}

/// Build an `Authorization: Digest` header the way a Digest-speaking client
/// would, using the same RFC 2617 formula the receiver validates.
fn digest_auth(nonce: &str, username: &str, password: &str, method: &str, uri: &str) -> String {
    let response = crypto::digest_response(username, "raop", password, method, uri, nonce);
    format!(
        "Digest realm=\"raop\", username=\"{username}\", nonce=\"{nonce}\", uri=\"{uri}\", \
         response=\"{response}\""
    )
}

fn dmap_entry(tag: &[u8; 4], payload: &[u8]) -> Vec<u8> {
    let mut entry = tag.to_vec();
    entry.extend_from_slice(&(payload.len() as u32).to_be_bytes());
    entry.extend_from_slice(payload);
    entry
}

/// The shape a sender pushes on a track change: `mlit` around the fields,
/// with tags we don't care about interleaved.
fn dmap_track() -> Vec<u8> {
    let inner = [
        dmap_entry(b"mikd", &[2]),
        dmap_entry(b"minm", "Sonata No. 1".as_bytes()),
        dmap_entry(b"asar", "Some Artist".as_bytes()),
        dmap_entry(b"astm", &180_000u32.to_be_bytes()),
        dmap_entry(b"asal", "Some Album".as_bytes()),
    ]
    .concat();
    dmap_entry(b"mlit", &inner)
}

fn some_track() -> Event {
    Event::Metadata {
        title: Some("Sonata No. 1".into()),
        artist: Some("Some Artist".into()),
        album: Some("Some Album".into()),
    }
}

#[test]
fn full_handshake_and_audio_decrypt() {
    let mut slot = SessionSlot::new();
    let mut client = Client::keyed();

    // ANNOUNCE with a real RSA-encrypted key and a 16-byte IV.
    let sdp = format!(
        "v=0\r\no=iTunes 1 0 IN IP4 127.0.0.1\r\ns=iTunes\r\nc=IN IP4 127.0.0.1\r\nt=0 0\r\n\
         m=audio 0 RTP/AVP 96\r\na=rtpmap:96 AppleLossless\r\n\
         a=fmtp:96 352 0 16 40 10 14 2 255 0 0 44100\r\n\
         a=rsaaeskey:{}\r\na=aesiv:{}\r\n",
        wrap_key(),
        STANDARD.encode(IV).trim_end_matches('=') // unpadded, like a real sender
    );
    let response = client.announce(&mut slot, &sdp);
    assert_eq!(
        status(&response),
        "RTSP/1.0 200 OK",
        "ANNOUNCE should be accepted"
    );

    // SETUP: advertise fake client ports; capture our server_port.
    let response = client.send(&mut slot, SETUP);
    assert_eq!(status(&response), "RTSP/1.0 200 OK");
    assert_eq!(header(&response, "Session").as_deref(), Some("1"));
    assert!(header(&response, "Transport").unwrap().contains("server_port=7000"));

    // RECORD.
    let record = "RECORD rtsp://127.0.0.1/1 RTSP/1.0\r\nCSeq: 3\r\n\
                  RTP-Info: seq=100;rtptime=200\r\n\r\n";
    let response = client.send(&mut slot, record);
    assert_eq!(status(&response), "RTSP/1.0 200 OK");
    assert_eq!(header(&response, "Audio-Latency").as_deref(), Some("11025"));

    // An encrypted audio packet. Plaintext opens with a stereo channel-pair
    // element tag (top 3 bits 001) so the sanity check fires, plus a
    // non-block-multiple tail to exercise the cleartext copy.
    let mut plaintext = vec![0x20u8];
    plaintext.extend((0..36).map(|i| i as u8));
    let ciphertext = encrypt_audio(&plaintext);
    let mut packet = vec![0x80, 0x60, 0x00, 0x64]; // seq 100
    packet.extend_from_slice(&300u32.to_be_bytes()); // timestamp
    packet.extend_from_slice(&[0, 0, 0, 1]); // SSRC
    packet.extend_from_slice(&ciphertext);

    let mut receiver = AudioReceiver::new(client.params.unwrap());
    let played = receiver.on_datagram(&packet);
    let [Playable::Audio(decrypted)] = played.as_slice() else {
        panic!("audio packet should be received: {played:?}");
    };
    assert_eq!(decrypted.sequence, 100);
    assert_eq!(decrypted.timestamp, 300);
    assert!(decrypted.looks_like_alac, "sanity check should pass");
    assert_eq!(decrypted.frame, plaintext, "decrypt must recover plaintext");
}

#[test]
fn setup_before_announce_is_rejected() {
    let mut slot = SessionSlot::new();
    let mut client = Client::new(None);
    let setup = "SETUP rtsp://127.0.0.1/1 RTSP/1.0\r\nCSeq: 1\r\n\
                 Transport: RTP/AVP/UDP;control_port=6001;timing_port=6002\r\n\r\n";
    let response = client.send(&mut slot, setup);
    assert_eq!(
        status(&response),
        "RTSP/1.0 455 Method Not Valid in This State"
    );
}

#[test]
fn announce_with_only_iv_is_rejected() {
    let mut slot = SessionSlot::new();
    let mut client = Client::new(None);
    let sdp = format!(
        "v=0\r\na=fmtp:96 352 0 16 40 10 14 2 255 0 0 44100\r\na=aesiv:{}\r\n",
        STANDARD.encode(IV)
    );
    let response = client.announce(&mut slot, &sdp);
    assert_eq!(
        status(&response),
        "RTSP/1.0 456 Header Field Not Valid for Resource"
    );
}

#[test]
fn metadata_and_artwork_reach_the_host() {
    let mut slot = SessionSlot::new();
    let mut client = Client::new(None);
    assert_eq!(status(&client.announce(&mut slot, SDP)), "RTSP/1.0 200 OK");
    assert_eq!(status(&client.send(&mut slot, SETUP)), "RTSP/1.0 200 OK");
    assert!(matches!(
        client.events[0],
        Event::SessionStarted {
            rate: 44100,
            channels: 2,
            ..
        }
    ));

    let response = client.set_parameter(&mut slot, "application/x-dmap-tagged", &dmap_track());
    assert_eq!(status(&response), "RTSP/1.0 200 OK");
    assert_eq!(client.events, vec![some_track()]);

    // Artwork well over the size real senders send.
    let jpeg: Vec<u8> = std::iter::once(0xff)
        .chain(std::iter::once(0xd8))
        .chain((0..2 * 1024 * 1024).map(|i| (i % 251) as u8))
        .collect();
    let response = client.set_parameter(&mut slot, "image/jpeg", &jpeg);
    assert_eq!(
        status(&response),
        "RTSP/1.0 200 OK",
        "a 2 MB body must not be refused"
    );
    match client.events.as_slice() {
        [Event::Artwork { content_type, data }] => {
            assert_eq!(content_type, "image/jpeg");
            assert_eq!(data, &jpeg, "artwork is forwarded byte-for-byte");
        }
        other => panic!("expected Artwork, got {other:?}"),
    }

    // Mid-track clear: image/none with an empty body.
    let response = client.set_parameter(&mut slot, "image/none", b"");
    assert_eq!(status(&response), "RTSP/1.0 200 OK");
    assert_eq!(
        client.events,
        vec![Event::Artwork {
            content_type: "image/none".into(),
            data: Vec::new(),
        }]
    );

    // The volume path still works on the same connection, and a payload we
    // don't recognize is acknowledged without an event.
    let response = client.set_parameter(&mut slot, "text/parameters", b"volume: -20.000000");
    assert_eq!(status(&response), "RTSP/1.0 200 OK");
    assert_eq!(
        client.events,
        vec![Event::Volume {
            db: "-20.000000".into()
        }]
    );

    let response = client.set_parameter(&mut slot, "application/octet-stream", b"\x00\x01");
    assert_eq!(status(&response), "RTSP/1.0 200 OK");
    assert_eq!(client.events, vec![]);

    let teardown = "TEARDOWN rtsp://127.0.0.1/1 RTSP/1.0\r\nCSeq: 8\r\n\r\n";
    assert_eq!(status(&client.send(&mut slot, teardown)), "RTSP/1.0 200 OK");
    assert_eq!(client.events, vec![Event::SessionEnded]);
    assert_eq!(client.effect, Effect::Stop);
}

#[test]
fn metadata_sent_before_setup_arrives_inside_the_session() {
    // Whether a sender pushes metadata before or after SETUP is up to the
    // sender; the host's contract is that it lands inside the session either
    // way.
    let mut slot = SessionSlot::new();
    let mut client = Client::new(None);
    let response = client.set_parameter(&mut slot, "application/x-dmap-tagged", &dmap_track());
    assert_eq!(status(&response), "RTSP/1.0 200 OK");
    assert_eq!(client.events, vec![]);

    client.announce(&mut slot, SDP);
    client.send(&mut slot, SETUP);
    assert!(matches!(client.events[0], Event::SessionStarted { .. }));
    assert_eq!(client.events[1], some_track());
    assert_eq!(client.events.len(), 2);
}

#[test]
fn challenges_until_authorized_then_streams() {
    let mut slot = SessionSlot::new();
    let mut client = Client::new(Some("1234"));

    // First contact, no credentials -> 401 with a Digest challenge.
    let response = client.send(&mut slot, "OPTIONS * RTSP/1.0\r\nCSeq: 1\r\n\r\n");
    assert_eq!(status(&response), "RTSP/1.0 401 Unauthorized");
    let auth = header(&response, "WWW-Authenticate").expect("challenge");
    assert!(auth.starts_with("Digest realm=\"raop\""), "got {auth:?}");
    let nonce = nonce_from_auth(&auth);

    // Retry with the correct digest -> authorized.
    let auth_hdr = digest_auth(&nonce, "player", "1234", "OPTIONS", "*");
    let options_auth =
        format!("OPTIONS * RTSP/1.0\r\nCSeq: 2\r\nAuthorization: {auth_hdr}\r\n\r\n");
    let response = client.send(&mut slot, &options_auth);
    assert_eq!(status(&response), "RTSP/1.0 200 OK", "authorized OPTIONS");

    // The rest of the handshake now proceeds unchallenged.
    assert_eq!(status(&client.announce(&mut slot, SDP)), "RTSP/1.0 200 OK");
    assert_eq!(
        status(&client.send(&mut slot, SETUP)),
        "RTSP/1.0 200 OK",
        "streaming SETUP accepted"
    );
}

#[test]
fn wrong_pincode_is_refused_and_stays_locked() {
    let mut slot = SessionSlot::new();
    let mut client = Client::new(Some("1234"));

    let response = client.send(&mut slot, "OPTIONS * RTSP/1.0\r\nCSeq: 1\r\n\r\n");
    assert_eq!(status(&response), "RTSP/1.0 401 Unauthorized");
    let nonce = nonce_from_auth(&header(&response, "WWW-Authenticate").unwrap());

    // A wrong pincode computes a different response and is refused.
    let bad = digest_auth(&nonce, "player", "nope", "OPTIONS", "*");
    let req = format!("OPTIONS * RTSP/1.0\r\nCSeq: 2\r\nAuthorization: {bad}\r\n\r\n");
    let response = client.send(&mut slot, &req);
    assert_eq!(
        status(&response),
        "RTSP/1.0 401 Unauthorized",
        "wrong pincode refused"
    );
    // The nonce stays the connection's own.
    let again = nonce_from_auth(&header(&response, "WWW-Authenticate").unwrap());
    assert_eq!(again, nonce);

    // Still not authorized: a later method is challenged too.
    assert_eq!(
        status(&client.announce(&mut slot, SDP)),
        "RTSP/1.0 401 Unauthorized"
    );
}

#[test]
fn malformed_authorization_header_is_refused() {
    let mut slot = SessionSlot::new();
    let mut client = Client::new(Some("1234"));

    let response = client.send(&mut slot, "OPTIONS * RTSP/1.0\r\nCSeq: 1\r\n\r\n");
    assert_eq!(status(&response), "RTSP/1.0 401 Unauthorized");

    // Not a Digest auth at all.
    let basic = "OPTIONS * RTSP/1.0\r\nCSeq: 2\r\nAuthorization: Basic dXNlcjpwYXNz\r\n\r\n";
    assert_eq!(
        status(&client.send(&mut slot, basic)),
        "RTSP/1.0 401 Unauthorized"
    );

    // Digest auth missing one of realm/username/response/uri.
    let partial =
        "OPTIONS * RTSP/1.0\r\nCSeq: 3\r\nAuthorization: Digest realm=\"raop\", username=\"x\"\r\n\r\n";
    assert_eq!(
        status(&client.send(&mut slot, partial)),
        "RTSP/1.0 401 Unauthorized"
    );
}

#[test]
fn no_pincode_means_no_challenge() {
    let mut slot = SessionSlot::new();
    let mut client = Client::new(None);
    let response = client.send(&mut slot, "OPTIONS * RTSP/1.0\r\nCSeq: 1\r\n\r\n");
    assert_eq!(status(&response), "RTSP/1.0 200 OK");
    assert!(
        header(&response, "WWW-Authenticate").is_none(),
        "no pincode, no challenge"
    );
}

#[test]
fn options_answers_challenge() {
    let mut slot = SessionSlot::new();
    let mut client = Client::keyed();

    let challenge = [42u8; 16];
    let request = format!(
        "OPTIONS * RTSP/1.0\r\nCSeq: 3\r\nApple-Challenge: {}\r\n\r\n",
        STANDARD_NO_PAD.encode(challenge)
    );
    let response = client.send(&mut slot, &request);

    assert_eq!(status(&response), "RTSP/1.0 200 OK");
    assert_eq!(header(&response, "CSeq").as_deref(), Some("3"));
    assert_eq!(header(&response, "Server").as_deref(), Some(SERVER_ID));
    let public = header(&response, "Public").expect("Public header");
    for method in ["ANNOUNCE", "SETUP", "RECORD", "TEARDOWN", "OPTIONS"] {
        assert!(public.contains(method), "Public is missing {method}");
    }

    // Verify the signature the way a client would: over the challenge, the
    // server IP (127.0.0.1) and the server MAC, zero-padded to 32.
    let response_b64 = header(&response, "Apple-Response").expect("Apple-Response header");
    let signature = STANDARD_NO_PAD.decode(response_b64).unwrap();
    let mut message = Vec::new();
    message.extend_from_slice(&challenge);
    message.extend_from_slice(&[127, 0, 0, 1]);
    message.extend_from_slice(&MAC);
    message.resize(32, 0);
    key()
        .to_public_key()
        .verify(Pkcs1v15Sign::new_unprefixed(), &message, &signature)
        .expect("Apple-Response must be a valid signature");
}

#[test]
fn challenge_with_padding_is_accepted() {
    let mut slot = SessionSlot::new();
    let mut client = Client::keyed();
    let request = format!(
        "OPTIONS * RTSP/1.0\r\nCSeq: 1\r\nApple-Challenge: {}\r\n\r\n",
        STANDARD.encode([1u8; 16]) // '='-padded variant
    );
    let response = client.send(&mut slot, &request);
    assert_eq!(status(&response), "RTSP/1.0 200 OK");
    assert!(header(&response, "Apple-Response").is_some());
}

#[test]
fn multiple_requests_per_connection_and_501_for_unimplemented() {
    let mut slot = SessionSlot::new();
    let mut client = Client::new(None);

    let response = client.send(&mut slot, "OPTIONS * RTSP/1.0\r\nCSeq: 1\r\n\r\n");
    assert_eq!(status(&response), "RTSP/1.0 200 OK");
    assert_eq!(header(&response, "CSeq").as_deref(), Some("1"));

    // PAUSE is advertised but not implemented; it must still 501 cleanly.
    let pause = "PAUSE rtsp://127.0.0.1/1 RTSP/1.0\r\nCSeq: 2\r\n\r\n";
    let response = client.send(&mut slot, pause);
    assert_eq!(status(&response), "RTSP/1.0 501 Not Implemented");
    assert_eq!(header(&response, "CSeq").as_deref(), Some("2"));

    // The connection must survive the 501.
    let response = client.send(&mut slot, "OPTIONS * RTSP/1.0\r\nCSeq: 3\r\n\r\n");
    assert_eq!(status(&response), "RTSP/1.0 200 OK");
}

#[test]
fn second_client_is_refused() {
    let mut slot = SessionSlot::new();

    // Client A completes SETUP and holds the connection (and the slot) open.
    let mut a = Client::new(None);
    a.announce(&mut slot, SDP);
    assert_eq!(status(&a.send(&mut slot, SETUP)), "RTSP/1.0 200 OK");

    // Client B is refused at SETUP while A is active.
    let mut b = Client::new(None);
    b.announce(&mut slot, SDP);
    assert_eq!(
        status(&b.send(&mut slot, SETUP)),
        "RTSP/1.0 453 Not Enough Bandwidth"
    );

    // After A disconnects (drops the slot), a new client can SETUP.
    assert_eq!(a.connection.close(&mut slot), vec![Event::SessionEnded]);
    let mut c = Client::new(None);
    c.announce(&mut slot, SDP);
    assert_eq!(status(&c.send(&mut slot, SETUP)), "RTSP/1.0 200 OK");
}

#[test]
fn a_401_carries_the_common_headers_and_the_challenge_answer() {
    let mut slot = SessionSlot::new();
    let pem = key().to_pkcs1_pem(rsa::pkcs1::LineEnding::LF).unwrap();
    let mut client = Client::with_key(Some("1234"), &pem);
    let response = client.send(
        &mut slot,
        "OPTIONS * RTSP/1.0\r\nCSeq: 5\r\nApple-Challenge: AAEC\r\n\r\n",
    );
    assert_eq!(response.status(), 401);
    assert_eq!(header(&response, "CSeq").as_deref(), Some("5"));
    assert_eq!(
        header(&response, "Audio-Jack-Status").as_deref(),
        Some("connected; type=analog")
    );
    assert!(header(&response, "Apple-Response").is_some());
    // A challenge that cannot be answered is answered without one.
    let response = client.send(
        &mut slot,
        "OPTIONS * RTSP/1.0\r\nApple-Challenge: !\r\n\r\n",
    );
    assert!(header(&response, "Apple-Response").is_none());
    assert!(header(&response, "CSeq").is_none());
}

#[test]
fn an_options_response_in_full() {
    let mut slot = SessionSlot::new();
    let mut client = Client::new(None);
    let response = client.send(&mut slot, "OPTIONS * RTSP/1.0\r\nCSeq: 1\r\n\r\n");
    let expected = format!(
        "RTSP/1.0 200 OK\r\nPublic: {PUBLIC_METHODS}\r\nCSeq: 1\r\nServer: {SERVER_ID}\r\n\
         Audio-Jack-Status: connected; type=analog\r\n\r\n"
    );
    assert_eq!(response.to_bytes(), expected.as_bytes());
}

#[test]
fn a_refused_request_changes_nothing() {
    let mut slot = SessionSlot::new();
    let mut client = Client::new(Some("x"));
    client.announce(&mut slot, SDP);
    assert_eq!(client.send(&mut slot, SETUP).status(), 401);
    assert!(slot.try_acquire(), "the slot is still free");
    assert!(!client.connection.session().is_streaming());
}

#[test]
fn credentials_are_held_to_all_of_their_parts() {
    let nonce = "NjM4MDAwMDAx";
    let good = digest_auth(nonce, "dev", "1234", "SETUP", "rtsp://127.0.0.1/1");
    let check = |value: &str, password: &str, method: &str, nonce: &str| {
        check_credential(value, password, method, "rtsp://127.0.0.1/1", nonce)
    };
    assert!(check(&good, "1234", "SETUP", nonce));
    assert!(check(&good.replace("Digest", "DIGEST"), "1234", "SETUP", nonce));
    assert!(!check(&good, "1235", "SETUP", nonce));
    assert!(!check(&good, "1234", "RECORD", nonce));
    assert!(!check(&good, "1234", "SETUP", "other"));
    for part in ["realm=", "username=", "uri=", "response="] {
        assert!(!check(&good.replace(part, "x="), "1234", "SETUP", nonce), "{part}");
    }
    assert!(!check("Digest ", "1234", "SETUP", nonce));
}

#[test]
fn text_bodies_are_told_from_others() {
    assert!(is_printable("text/parameters"));
    assert!(is_printable("application/sdp"));
    assert!(is_printable("x-parameters"));
    assert!(!is_printable("image/png"));
    assert!(!is_printable(""));
}

#[test]
fn a_connection_needs_a_nonce() {
    let peer = "192.168.1.42".to_string();
    assert!(Connection::with_nonce(peer.clone(), None).is_none());
    let connection = Connection::with_nonce(peer, Some("AAECAwQFBgc=".to_string())).unwrap();
    assert!(!connection.session().is_streaming());
}
