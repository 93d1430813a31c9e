//! The session state machine: what each request answers and tells the host.

use openairplay1::audio::AudioReceiver;
use openairplay1::events::Event;
use openairplay1::player::{Action, Input, Player};
use openairplay1::rtsp::{read_request, ReadOutcome, Request};
use openairplay1::session::{
    transport_param, BoundPorts, Effect, Outcome, Session, SessionSlot, StreamParams, Track,
};
use openairplay1::time::Duration;

const DMAP_CONTENT_TYPE: &str = "application/x-dmap-tagged";

const SDP_BODY: &str = "v=0\r\n\
    o=iTunes 3413821438 0 IN IP4 192.168.1.2\r\n\
    s=iTunes\r\n\
    c=IN IP4 192.168.1.10\r\n\
    t=0 0\r\n\
    m=audio 0 RTP/AVP 96\r\n\
    a=rtpmap:96 AppleLossless\r\n\
    a=fmtp:96 352 0 16 40 10 14 2 255 0 0 44100\r\n";

const PORTS: BoundPorts = BoundPorts {
    audio: 7000,
    control: 7001,
    timing: 7002,
};

fn request(raw: &str) -> Request {
    match read_request(raw.as_bytes(), true) {
        ReadOutcome::Request { request, .. } => request,
        other => panic!("{other:?}"),
    }
}

fn announce() -> Request {
    request(&format!(
        "ANNOUNCE rtsp://192.168.1.10/1 RTSP/1.0\r\n\
         CSeq: 2\r\nContent-Length: {}\r\n\r\n{SDP_BODY}",
        SDP_BODY.len()
    ))
}

fn setup() -> Request {
    request(
        "SETUP rtsp://192.168.1.10/1 RTSP/1.0\r\n\
         CSeq: 3\r\n\
         Transport: RTP/AVP/UDP;unicast;mode=record;control_port=6001;timing_port=6002\r\n\
         \r\n",
    )
}

fn session() -> (Session, SessionSlot) {
    (Session::new("127.0.0.1".to_string()), SessionSlot::new())
}

fn started() -> Event {
    Event::SessionStarted {
        rate: 44100,
        channels: 2,
        peer: "127.0.0.1".to_string(),
    }
}

fn volume(db: &str) -> Event {
    Event::Volume { db: db.to_string() }
}

/// ANNOUNCE and SETUP, with sockets that bind; what the host is told of it.
fn start_session(session: &mut Session, slot: &mut SessionSlot) -> Vec<Event> {
    assert_eq!(session.handle_announce(&announce(), "").status(), 200);
    let plan = session.begin_setup(&setup(), slot).unwrap();
    let (response, events) = session.finish_setup(&plan, Some(PORTS));
    assert_eq!(response.status(), 200);
    assert_eq!(events[0], started());
    events
}

/// What the host is told of an outcome once it has done what the outcome asks
/// for, with the stream that it runs.
fn told(session: &mut Session, outcome: Outcome, params: StreamParams) -> Vec<Event> {
    let mut events = outcome.events;
    if let Effect::Flush(next) = outcome.effect {
        let mut receiver = AudioReceiver::new(params);
        let mut player = Player::new(&params.alac, 2);
        receiver.on_flush(next);
        let (action, report) = player.step(Input::Flush, None);
        assert_eq!(action, Action::FlushSink);
        events.extend(session.relay(report.unwrap()));
    }
    events
}

/// A one-track DMAP payload: `mlit` wrapping title/artist/album.
fn dmap_track(title: &str) -> Vec<u8> {
    fn entry(tag: &[u8; 4], payload: &[u8]) -> Vec<u8> {
        let mut e = tag.to_vec();
        e.extend_from_slice(&(payload.len() as u32).to_be_bytes());
        e.extend_from_slice(payload);
        e
    }
    let inner = [
        entry(b"minm", title.as_bytes()),
        entry(b"asar", b"The Artist"),
        entry(b"asal", b"The Album"),
    ]
    .concat();
    entry(b"mlit", &inner)
}

#[test]
fn session_lifecycle_emits_the_events() {
    let (mut session, mut slot) = session();

    assert_eq!(session.handle_announce(&announce(), "").status(), 200);

    let plan = session.begin_setup(&setup(), &mut slot).unwrap();
    assert_eq!((plan.control_port, plan.timing_port), (6001, 6002));
    let (response, events) = session.finish_setup(&plan, Some(PORTS));
    assert_eq!(response.status(), 200);
    assert_eq!(events, vec![started()]);

    let set_parameter = request(
        "SET_PARAMETER rtsp://192.168.1.10/1 RTSP/1.0\r\n\
         CSeq: 4\r\nContent-Type: text/parameters\r\nContent-Length: 18\r\n\
         \r\nvolume: -20.000000",
    );
    let outcome = session.handle_other(&set_parameter, &mut slot).unwrap();
    assert_eq!(outcome.response.status(), 200);
    assert_eq!(outcome.events, vec![volume("-20.000000")]);
    match &outcome.events[0] {
        Event::Volume { db } => assert_eq!(db.parse::<f32>(), Ok(-20.0)),
        other => panic!("{other:?}"),
    }

    let flush = request("FLUSH rtsp://192.168.1.10/1 RTSP/1.0\r\nCSeq: 5\r\n\r\n");
    let outcome = session.handle_other(&flush, &mut slot).unwrap();
    assert_eq!(outcome.response.status(), 200);
    assert_eq!(outcome.effect, Effect::Flush(None));
    assert_eq!(told(&mut session, outcome, plan.params), vec![Event::Flushed]);

    let teardown = request("TEARDOWN rtsp://192.168.1.10/1 RTSP/1.0\r\nCSeq: 6\r\n\r\n");
    let outcome = session.handle_other(&teardown, &mut slot).unwrap();
    assert_eq!(outcome.response.status(), 200);
    assert_eq!(outcome.events, vec![Event::SessionEnded]);
    assert_eq!(outcome.effect, Effect::Stop);

    // The end is reported exactly once: closing after TEARDOWN adds nothing.
    assert_eq!(session.close(&mut slot), vec![]);
}

#[test]
fn dropping_a_streaming_session_ends_it() {
    let (mut session, mut slot) = session();
    start_session(&mut session, &mut slot);
    assert!(session.is_streaming());

    // The client disconnected without TEARDOWN.
    assert_eq!(session.close(&mut slot), vec![Event::SessionEnded]);
    assert!(!session.is_streaming());
}

#[test]
fn set_parameter_dispatches_on_content_type() {
    let (mut session, mut slot) = session();
    start_session(&mut session, &mut slot);

    assert_eq!(
        session.set_parameter(Some(DMAP_CONTENT_TYPE), &dmap_track("Song")),
        vec![Event::Metadata {
            title: Some("Song".into()),
            artist: Some("The Artist".into()),
            album: Some("The Album".into()),
        }]
    );

    // Artwork is forwarded byte-for-byte, content type included.
    assert_eq!(
        session.set_parameter(Some("image/png"), b"\x89PNG"),
        vec![Event::Artwork {
            content_type: "image/png".into(),
            data: b"\x89PNG".to_vec(),
        }]
    );

    // image/none with an empty body is the sender clearing the art.
    assert_eq!(
        session.set_parameter(Some("image/none"), b""),
        vec![Event::Artwork {
            content_type: "image/none".into(),
            data: Vec::new(),
        }]
    );

    // The volume path is unchanged, with or without a charset parameter.
    assert_eq!(
        session.set_parameter(Some("text/parameters; charset=utf-8"), b"volume: -12.5\r\n"),
        vec![volume("-12.5")]
    );
    assert_eq!(
        session.set_parameter(None, b"volume: -6.0\r\n"),
        vec![volume("-6.0")]
    );

    // Anything else is acknowledged but produces no event.
    assert_eq!(
        session.set_parameter(Some("application/octet-stream"), b"\x00\x01"),
        vec![]
    );
}

#[test]
fn progress_is_reported_as_durations() {
    let (mut session, mut slot) = session();
    start_session(&mut session, &mut slot);

    // start/current/end as RTP timestamps at 44100 Hz: 10 s in, 180 s
    // long. Senders send this line on its own or next to the volume.
    let events = session.set_parameter(
        Some("text/parameters"),
        b"progress: 1000/442000/7939000\r\n",
    );
    let [Event::Progress { elapsed, duration }] = events.as_slice() else {
        panic!("expected a Progress event");
    };
    assert!(
        (elapsed.as_nanos() as f64 / 1e9 - 10.0).abs() < 0.01,
        "elapsed was {elapsed:?}"
    );
    assert!(
        (duration.as_nanos() as f64 / 1e9 - 180.0).abs() < 0.01,
        "duration was {duration:?}"
    );
    assert_eq!(
        session.track(),
        Some(Track {
            start: 1000,
            end: 7939000
        })
    );

    // A seek backwards past the anchor, and a stream with no known end,
    // must not produce a ~27-hour reading from a wrapped subtraction.
    assert_eq!(
        session.set_parameter(Some("text/parameters"), b"progress: 5000/1000/5000"),
        vec![Event::Progress {
            elapsed: Duration::zero(),
            duration: Duration::zero(),
        }]
    );

    // Malformed values are ignored, and the volume line in the same body
    // still works.
    for bad in [
        "progress: 1/2\r\n",
        "progress: 1/2/3/4\r\n",
        "progress: a/b/c\r\n",
        "progress:\r\n",
    ] {
        assert_eq!(
            session.set_parameter(Some("text/parameters"), bad.as_bytes()),
            vec![],
            "no event from bad progress"
        );
    }

    let events = session.set_parameter(
        Some("text/parameters"),
        b"volume: -8.0\r\nprogress: 1000/45100/7939000\r\n",
    );
    assert_eq!(events.len(), 2);
    assert_eq!(events[0], volume("-8.0"));
    assert!(matches!(events[1], Event::Progress { .. }));
}

#[test]
fn progress_outside_a_session_is_dropped() {
    // A position without a stream means nothing, and before ANNOUNCE
    // there is no sample rate to convert it with.
    let (mut session, _) = session();
    assert_eq!(
        session.set_parameter(Some("text/parameters"), b"progress: 1000/442000/7939000"),
        vec![]
    );
    session.handle_announce(&announce(), "");
    assert_eq!(
        session.set_parameter(Some("text/parameters"), b"progress: 1000/442000/7939000"),
        vec![]
    );
    assert_eq!(session.track(), None);
}

#[test]
fn session_started_carries_the_sender_address() {
    let (mut session, mut slot) = session();
    assert_eq!(start_session(&mut session, &mut slot), vec![started()]);
}

#[test]
fn metadata_before_setup_is_latched_until_session_start() {
    // Senders may push metadata during the handshake, but the host's
    // contract is that it only arrives inside a session - so the latest
    // of each is held and replayed after SessionStarted.
    let (mut session, mut slot) = session();
    for early in [
        session.set_parameter(Some(DMAP_CONTENT_TYPE), &dmap_track("First")),
        session.set_parameter(Some(DMAP_CONTENT_TYPE), &dmap_track("Second")),
        session.set_parameter(Some("image/jpeg"), b"JPEG"),
    ] {
        assert_eq!(early, vec![], "nothing before SessionStarted");
    }

    let events = start_session(&mut session, &mut slot);

    // Latest metadata wins, and each is replayed exactly once.
    assert_eq!(events.len(), 3);
    assert!(matches!(
        &events[1],
        Event::Metadata { title: Some(t), .. } if t == "Second"
    ));
    assert!(matches!(&events[2], Event::Artwork { .. }));
    let plan = session.begin_setup(&setup(), &mut slot).unwrap();
    let again = session.finish_setup(&plan, Some(PORTS)).1;
    assert_eq!(again, vec![Event::SessionEnded, started()]);
}

#[test]
fn malformed_metadata_is_ignored_and_never_ends_the_session() {
    let (mut session, mut slot) = session();
    start_session(&mut session, &mut slot);

    assert_eq!(session.set_parameter(Some(DMAP_CONTENT_TYPE), b""), vec![]);
    assert_eq!(
        session.set_parameter(Some(DMAP_CONTENT_TYPE), b"garbage, not dmap"),
        vec![]
    );
    // An mlit whose declared length runs off the end of the payload.
    assert_eq!(
        session.set_parameter(Some(DMAP_CONTENT_TYPE), b"mlit\x00\x00\xff\xff"),
        vec![],
        "no event from bad payloads"
    );

    // The session is still live and still handling parameters.
    assert_eq!(
        session.set_parameter(Some("text/parameters"), b"volume: -6.0\r\n"),
        vec![volume("-6.0")]
    );
}

#[test]
fn session_extracts_transport_ports() {
    let hdr = "RTP/AVP/UDP;unicast;mode=record;control_port=6001;timing_port=6002";
    assert_eq!(transport_param(hdr, "control_port"), Some(6001));
    assert_eq!(transport_param(hdr, "timing_port"), Some(6002));
    assert_eq!(transport_param(hdr, "server_port"), None);
}

#[test]
fn transport_parameters_may_be_spaced_and_must_fit() {
    assert_eq!(transport_param(" a= 7 ; b=65536", "a"), Some(7));
    assert_eq!(transport_param(" a= 7 ; b=65536", "b"), None);
    assert_eq!(transport_param("a=x;a=7", "a"), None, "the first one counts");
}

#[test]
fn the_media_type_of_parameters_is_not_case_sensitive() {
    let (mut session, mut slot) = session();
    start_session(&mut session, &mut slot);
    assert_eq!(
        session.set_parameter(Some(" IMAGE/PNG ; q=1"), b"x"),
        vec![Event::Artwork {
            content_type: "IMAGE/PNG".into(),
            data: b"x".to_vec(),
        }]
    );
    assert_eq!(
        session.set_parameter(Some("APPLICATION/X-DMAP-TAGGED"), &dmap_track("T")).len(),
        1
    );
}

#[test]
fn a_volume_that_is_no_number_is_ignored() {
    let (mut session, _) = session();
    for (text, told) in [
        ("volume: -144.0", true),
        ("volume:-1e1", true),
        ("volume: inf", true),
        ("volume: .5", true),
        ("volume: loud", false),
        ("volume:", false),
        ("volume: 1.2.3", false),
    ] {
        let events = session.set_parameter(None, text.as_bytes());
        assert_eq!(events.len() == 1, told, "{text}");
    }
}

#[test]
fn a_setup_in_the_wrong_place_is_refused() {
    let (mut session, mut slot) = session();
    let err = session.begin_setup(&setup(), &mut slot).err().unwrap();
    assert_eq!(err.status(), 455);
    session.handle_announce(&announce(), "");
    let bare = request("SETUP x RTSP/1.0\r\n\r\n");
    assert_eq!(session.begin_setup(&bare, &mut slot).err().unwrap().status(), 400);
    let half = request("SETUP x RTSP/1.0\r\nTransport: a;control_port=1\r\n\r\n");
    assert_eq!(session.begin_setup(&half, &mut slot).err().unwrap().status(), 400);
    // The slot was taken all the same, and stays this session's.
    assert!(!slot.try_acquire());
    assert!(session.begin_setup(&setup(), &mut slot).is_ok());
}

#[test]
fn sockets_that_do_not_bind_start_nothing() {
    let (mut session, mut slot) = session();
    session.handle_announce(&announce(), "");
    let plan = session.begin_setup(&setup(), &mut slot).unwrap();
    let (response, events) = session.finish_setup(&plan, None);
    assert_eq!(response.status(), 500);
    assert_eq!(events, vec![]);
    assert!(!session.is_streaming());
}

#[test]
fn a_setup_reports_the_bound_ports() {
    let (mut session, mut slot) = session();
    session.handle_announce(&announce(), "");
    let plan = session.begin_setup(&setup(), &mut slot).unwrap();
    let (response, _) = session.finish_setup(&plan, Some(PORTS));
    assert_eq!(
        response.get("Transport").as_deref(),
        Some(
            "RTP/AVP/UDP;unicast;interleaved=0-1;mode=record;\
             control_port=7001;timing_port=7002;server_port=7000"
        )
    );
    assert_eq!(response.get("Session").as_deref(), Some("1"));
    let record = request("RECORD x RTSP/1.0\r\n\r\n");
    assert_eq!(
        session.handle_record(&record).get("Audio-Latency").as_deref(),
        Some("11025")
    );
}

#[test]
fn an_announce_without_a_format_is_refused_and_changes_nothing() {
    let (mut session, mut slot) = session();
    assert_eq!(session.announce("v=0\r\n", "").status(), 400);
    assert_eq!(session.announce("a=fmtp:96 352\r\n", "").status(), 400);
    assert_eq!(session.begin_setup(&setup(), &mut slot).err().unwrap().status(), 455);
}

#[test]
fn other_methods_are_not_the_sessions() {
    let (mut session, mut slot) = session();
    let pause = request("PAUSE x RTSP/1.0\r\n\r\n");
    assert!(session.handle_other(&pause, &mut slot).is_none());
    let get = request("GET_PARAMETER x RTSP/1.0\r\n\r\n");
    let outcome = session.handle_other(&get, &mut slot).unwrap();
    assert_eq!(outcome.response.status(), 200);
    assert_eq!(outcome.events, vec![]);
    assert_eq!(outcome.effect, Effect::Nothing);
    // A flush of a session that does not stream touches no buffer.
    let flush = request("FLUSH x RTSP/1.0\r\nRTP-Info: seq=9\r\n\r\n");
    let outcome = session.handle_other(&flush, &mut slot).unwrap();
    assert_eq!(outcome.effect, Effect::Nothing);
    assert_eq!(outcome.events, vec![Event::Flushed]);
}

#[test]
fn an_ended_session_frees_the_slot() {
    let mut slot = SessionSlot::new();
    let mut a = Session::new("a".into());
    let mut b = Session::new("b".into());
    start_session_of(&mut a, &mut slot);
    b.handle_announce(&announce(), "");
    assert_eq!(b.begin_setup(&setup(), &mut slot).err().unwrap().status(), 453);
    assert_eq!(b.close(&mut slot), vec![], "closing the other frees nothing");
    assert_eq!(b.begin_setup(&setup(), &mut slot).err().unwrap().status(), 453);
    a.close(&mut slot);
    assert!(b.begin_setup(&setup(), &mut slot).is_ok());
}

fn start_session_of(session: &mut Session, slot: &mut SessionSlot) {
    session.handle_announce(&announce(), "");
    let plan = session.begin_setup(&setup(), slot).unwrap();
    session.finish_setup(&plan, Some(PORTS));
}

#[test]
fn extracts_transport_ports() {
    let hdr = "RTP/AVP/UDP;unicast;mode=record;control_port=6001;timing_port=6002";
    assert_eq!(transport_param(hdr, "control_port"), Some(6001));
    assert_eq!(transport_param(hdr, "timing_port"), Some(6002));
    assert_eq!(transport_param(hdr, "server_port"), None);
}

#[test]
fn a_second_setup_ends_the_session_before_it() {
    let (mut session, mut slot) = session();
    let mut events = start_session(&mut session, &mut slot);
    let plan = session.begin_setup(&setup(), &mut slot).unwrap();
    let (response, more) = session.finish_setup(&plan, Some(PORTS));
    assert_eq!(response.status(), 200);
    events.extend(more);
    // One that cannot bind leaves the session running.
    let plan = session.begin_setup(&setup(), &mut slot).unwrap();
    let (response, more) = session.finish_setup(&plan, None);
    assert_eq!(response.status(), 500);
    events.extend(more);
    events.extend(session.close(&mut slot));
    events.extend(session.close(&mut slot));
    assert_eq!(
        events,
        vec![started(), Event::SessionEnded, started(), Event::SessionEnded]
    );
}

#[test]
fn the_latest_track_and_artwork_are_told_once() {
    let (mut session, mut slot) = session();
    session.handle_announce(&announce(), "");
    for title in ["First", "Second"] {
        assert!(session.set_parameter(Some(DMAP_CONTENT_TYPE), &dmap_track(title)).is_empty());
    }
    for data in [[1u8], [2u8]] {
        assert!(session.set_parameter(Some("image/jpeg"), &data).is_empty());
    }
    let events = start_session(&mut session, &mut slot);
    assert_eq!(events.len(), 3);
    match &events[1] {
        Event::Metadata { title, .. } => assert_eq!(title.as_deref(), Some("Second")),
        other => panic!("{other:?}"),
    }
    assert_eq!(
        events[2],
        Event::Artwork { content_type: "image/jpeg".to_string(), data: vec![2] }
    );
    session.close(&mut slot);
    assert_eq!(start_session(&mut session, &mut slot), vec![started()]);
}

#[test]
fn every_flush_is_told_once() {
    let (mut session, mut slot) = session();
    let flush = request("FLUSH x RTSP/1.0\r\n\r\n");
    start_session(&mut session, &mut slot);
    for _ in 0..3 {
        let outcome = session.handle_other(&flush, &mut slot).unwrap();
        assert_eq!(outcome.events, vec![], "not before it is done");
        assert_eq!(outcome.effect, Effect::Flush(None));
    }
    assert_eq!(session.relay(Event::Flushed), vec![Event::Flushed]);

    // A second SETUP replaces the stream before it got round to the others.
    let plan = session.begin_setup(&setup(), &mut slot).unwrap();
    assert_eq!(
        session.finish_setup(&plan, Some(PORTS)).1,
        vec![Event::Flushed, Event::Flushed, Event::SessionEnded, started()]
    );
    assert_eq!(session.relay(Event::Flushed), vec![], "that stream is gone");

    // So does the end of the session.
    session.handle_other(&flush, &mut slot).unwrap();
    assert_eq!(session.close(&mut slot), vec![Event::Flushed, Event::SessionEnded]);
    assert_eq!(session.close(&mut slot), vec![]);
    assert_eq!(session.relay(Event::Flushed), vec![]);
}

#[test]
fn reports_are_relayed_while_a_stream_runs() {
    let (mut session, mut slot) = session();
    let position = Event::Progress {
        elapsed: Duration::from_secs(1),
        duration: Duration::from_secs(2),
    };
    assert_eq!(session.relay(position.clone()), vec![]);
    start_session(&mut session, &mut slot);
    assert_eq!(session.relay(position.clone()), vec![position.clone()]);
    assert_eq!(session.relay(Event::SessionEnded), vec![], "not the player's to tell");
    session.close(&mut slot);
    assert_eq!(session.relay(position), vec![]);
}

#[test]
fn session_events_are_told_inside_and_latched_outside() {
    let (mut session, mut slot) = session();
    let artwork = Event::Artwork { content_type: "image/png".to_string(), data: vec![7] };
    assert_eq!(session.send_session_event(artwork.clone()), vec![]);
    assert_eq!(start_session(&mut session, &mut slot), vec![started(), artwork.clone()]);
    assert_eq!(session.send_session_event(artwork.clone()), vec![artwork]);
}
