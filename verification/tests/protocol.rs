//! What a dashboard knows.

use openairplay1::events::Event;
use openairplay1::protocol::{message_of, Message, Progress, ReceiverInfo, Snapshot};
use openairplay1::time::Duration;

#[test]
fn applying_messages_builds_the_snapshot_a_late_client_gets() {
    let mut snapshot = Snapshot {
        receiver: ReceiverInfo {
            name: "Living Room".into(),
            version: "0.2.0".into(),
        },
        ..Snapshot::default()
    };
    snapshot.apply(&Message::SessionStarted {
        rate: 44100,
        channels: 2,
        peer: "192.168.1.42".into(),
    });
    snapshot.apply(&Message::Metadata {
        title: Some("Song".into()),
        artist: Some("Artist".into()),
        album: None,
    });
    snapshot.apply(&Message::Volume { db: "-6.0".into() });
    snapshot.apply(&Message::Progress {
        elapsed_ms: 1_000,
        duration_ms: 2_000,
    });
    snapshot.apply(&Message::Artwork {
        content_type: "image/jpeg".into(),
        data_base64: "AAEC".into(),
    });

    assert_eq!(snapshot.session.as_ref().unwrap().rate, 44100);
    assert_eq!(
        snapshot.track.as_ref().unwrap().title.as_deref(),
        Some("Song")
    );
    assert_eq!(snapshot.track.as_ref().unwrap().album, None);
    assert_eq!(snapshot.volume_db.as_deref(), Some("-6.0"));
    assert_eq!(snapshot.progress.unwrap().elapsed_ms, 1_000);
    assert!(snapshot.artwork.is_some());
}

#[test]
fn metadata_replaces_wholesale_and_empty_artwork_clears() {
    let mut snapshot = Snapshot::default();
    snapshot.apply(&Message::Metadata {
        title: Some("First".into()),
        artist: Some("Artist".into()),
        album: Some("Album".into()),
    });
    snapshot.apply(&Message::Metadata {
        title: Some("Second".into()),
        artist: None,
        album: None,
    });
    let track = snapshot.track.as_ref().unwrap();
    assert_eq!(track.title.as_deref(), Some("Second"));
    assert_eq!(track.artist, None, "a new statement replaces, not merges");

    snapshot.apply(&Message::Artwork {
        content_type: "image/jpeg".into(),
        data_base64: "AAEC".into(),
    });
    snapshot.apply(&Message::Artwork {
        content_type: "image/none".into(),
        data_base64: String::new(),
    });
    assert!(snapshot.artwork.is_none(), "empty data clears the art");
}

#[test]
fn a_flush_stales_the_position_and_session_end_clears_the_rest() {
    let mut snapshot = Snapshot {
        receiver: ReceiverInfo {
            name: "Living Room".into(),
            version: "0.2.0".into(),
        },
        ..Snapshot::default()
    };
    snapshot.apply(&Message::Progress {
        elapsed_ms: 1,
        duration_ms: 2,
    });
    snapshot.apply(&Message::Flushed);
    assert_eq!(snapshot.progress, None);

    snapshot.apply(&Message::SessionStarted {
        rate: 44100,
        channels: 2,
        peer: "::1".into(),
    });
    snapshot.apply(&Message::SessionEnded);
    assert_eq!(snapshot.session, None);
    assert_eq!(
        snapshot.receiver.name, "Living Room",
        "the receiver's identity outlives the session"
    );
}

#[test]
fn a_snapshot_replaces_everything() {
    let mut receiver = Snapshot::default();
    receiver.receiver.name = "Kitchen".into();
    receiver.apply(&Message::Volume { db: "-1".into() });
    let mut client = Snapshot::default();
    client.apply(&Message::Flushed);
    client.apply(&Message::Progress {
        elapsed_ms: 1,
        duration_ms: 2,
    });
    client.apply(&Message::Snapshot(receiver.clone()));
    assert_eq!(client, receiver);
    // The same changes from there on leave the same knowledge.
    for change in [
        Message::Progress {
            elapsed_ms: 5,
            duration_ms: 9,
        },
        Message::Metadata {
            title: Some("t".into()),
            artist: None,
            album: None,
        },
    ] {
        client.apply(&change);
        client.apply(&change);
        receiver.apply(&change);
    }
    assert_eq!(client, receiver);
    assert_eq!(
        client.progress,
        Some(Progress {
            elapsed_ms: 5,
            duration_ms: 9
        })
    );
}

#[test]
fn every_event_has_its_message() {
    assert_eq!(
        message_of(&Event::SessionStarted {
            rate: 44100,
            channels: 2,
            peer: "192.168.1.42".into(),
        }),
        Message::SessionStarted {
            rate: 44100,
            channels: 2,
            peer: "192.168.1.42".into(),
        }
    );
    assert_eq!(
        message_of(&Event::Metadata {
            title: Some("Song".into()),
            artist: None,
            album: None,
        }),
        Message::Metadata {
            title: Some("Song".into()),
            artist: None,
            album: None,
        }
    );
    let artwork = |data: &[u8]| {
        message_of(&Event::Artwork {
            content_type: "image/jpeg".into(),
            data: data.to_vec(),
        })
    };
    assert_eq!(
        artwork(&[0, 1, 2]),
        Message::Artwork {
            content_type: "image/jpeg".into(),
            data_base64: "AAEC".into(),
        }
    );
    assert_eq!(
        artwork(&[]),
        Message::Artwork {
            content_type: "image/jpeg".into(),
            data_base64: String::new(),
        }
    );
    assert_eq!(
        message_of(&Event::Volume { db: "-12.5".into() }),
        Message::Volume { db: "-12.5".into() }
    );
    assert_eq!(
        message_of(&Event::Progress {
            elapsed: Duration::from_nanos(83_000_999_999),
            duration: Duration::from_secs(u64::MAX),
        }),
        Message::Progress {
            elapsed_ms: 83_000,
            duration_ms: u64::MAX,
        }
    );
    assert_eq!(message_of(&Event::Flushed), Message::Flushed);
    assert_eq!(message_of(&Event::SessionEnded), Message::SessionEnded);
}
