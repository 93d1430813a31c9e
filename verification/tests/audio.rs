//! The audio side of a stream: order, resends, flushes and timing.

use openairplay1::audio::{
    derive_ts, on_control, on_timing, timing_interval_ns, AudioReceiver, ControlAction,
    DecryptedAudio, Playable, ResendTracker, RESEND_BACKOFF_NS,
};
use openairplay1::clock::{ns_to_ntp, ClockModel};
use openairplay1::rtp::timing_request;
use openairplay1::sdp::AlacConfig;
use openairplay1::session::StreamParams;

fn params() -> StreamParams {
    StreamParams {
        encrypted: false,
        key: [0; 16],
        iv: [0; 16],
        alac: AlacConfig::parse("96 352 0 16 40 10 14 2 255 0 0 44100").unwrap(),
    }
}

fn audio_packet(seq: u16, ts: u32, payload: &[u8]) -> Vec<u8> {
    let mut pkt = vec![0x80, 0x60];
    pkt.extend_from_slice(&seq.to_be_bytes());
    pkt.extend_from_slice(&ts.to_be_bytes());
    pkt.extend_from_slice(&[0, 0, 0, 1]);
    pkt.extend_from_slice(payload);
    pkt
}

fn resent(packet: &[u8]) -> Vec<u8> {
    let mut pkt = vec![0x80, 0xD6, 0x00, 0x01];
    pkt.extend_from_slice(packet);
    pkt
}

fn audio(played: &Playable) -> &DecryptedAudio {
    match played {
        Playable::Audio(audio) => audio,
        other => panic!("expected audio, got {other:?}"),
    }
}

#[test]
fn reorders_and_requests_resend() {
    let mut receiver = AudioReceiver::new(params());

    // Seq 100 (payload A) and seq 102 (payload C) arrive; 101 is missing.
    let payload_a = [0x20u8, 0xAA, 0xAA];
    let payload_b = [0x20u8, 0xBB, 0xBB];
    let payload_c = [0x20u8, 0xCC, 0xCC];
    let first = receiver.on_datagram(&audio_packet(100, 0, &payload_a));
    assert_eq!(first.len(), 1);
    assert_eq!(audio(&first[0]).sequence, 100);
    assert_eq!(audio(&first[0]).frame, payload_a);
    assert!(
        receiver
            .on_datagram(&audio_packet(102, 704, &payload_c))
            .is_empty(),
        "102 must not be delivered yet"
    );

    // A resend request for the missing seq 101: 80 D5, our-seq=1, first=101,
    // count=1.
    let (played, requests) = receiver.on_tick(0);
    assert!(played.is_empty());
    assert_eq!(requests, vec![[0x80, 0xD5, 0x00, 0x01, 0x00, 101, 0x00, 0x01]]);

    // Now the missing packet arrives; 101 then 102 come out in order.
    let rest = receiver.on_datagram(&audio_packet(101, 352, &payload_b));
    assert_eq!(rest.len(), 2);
    assert_eq!(
        (audio(&rest[0]).sequence, audio(&rest[0]).frame.as_slice()),
        (101, payload_b.as_slice())
    );
    assert_eq!(
        (audio(&rest[1]).sequence, audio(&rest[1]).frame.as_slice()),
        (102, payload_c.as_slice())
    );
    assert_eq!(audio(&rest[1]).timestamp, 704);
}

#[test]
fn flush_discards_buffered_audio() {
    let mut receiver = AudioReceiver::new(params());

    // Deliver seq 100, then FLUSH forward to seq 200.
    let first = receiver.on_datagram(&audio_packet(100, 0, &[0x20, 1]));
    assert_eq!(audio(&first[0]).sequence, 100);
    receiver.on_flush(Some(200));

    // A late pre-flush packet (seq 100) is dropped; seq 200 plays.
    assert!(receiver
        .on_datagram(&audio_packet(100, 0, &[0x20, 9]))
        .is_empty());
    let next = receiver.on_datagram(&audio_packet(200, 0, &[0x20, 2]));
    assert_eq!(
        audio(&next[0]).sequence,
        200,
        "post-flush packet, not the stale seq 100"
    );
    assert_eq!(audio(&next[0]).frame, [0x20, 2]);
}

#[test]
fn receiver_runs_the_timing_exchange_and_takes_sync() {
    let mut clock = ClockModel::new(44100);
    let request = timing_request();
    assert_eq!(request.len(), 32);
    assert_eq!(request[0], 0x80);
    assert_eq!(request[1], 0xD2, "must be a timing request");

    // Reply: client receive at 5.0 s, transmit at 5.001 s (its clock).
    let mut reply = [0u8; 32];
    reply[0] = 0x80;
    reply[1] = 0xD3;
    let (rs, rf) = ns_to_ntp(5_000_000_000);
    let (ts, tf) = ns_to_ntp(5_001_000_000);
    reply[16..20].copy_from_slice(&rs.to_be_bytes());
    reply[20..24].copy_from_slice(&rf.to_be_bytes());
    reply[24..28].copy_from_slice(&ts.to_be_bytes());
    reply[28..32].copy_from_slice(&tf.to_be_bytes());
    on_timing(&reply, 1_000_000_000, 1_003_000_000, &mut clock);
    let offset = clock.offset_ns().unwrap();
    assert!((offset - 3_999_000_000).abs() <= 2, "offset {offset}");
    assert!(!clock.is_ready());

    // A sync packet on the control channel: at client time 5.0 s, RTP 100
    // is at the DAC.
    let mut sync = [0u8; 20];
    sync[0] = 0x80;
    sync[1] = 0xD4;
    sync[4..8].copy_from_slice(&100u32.to_be_bytes()); // rtp at DAC
    let (ss, sf) = ns_to_ntp(5_000_000_000);
    sync[8..12].copy_from_slice(&ss.to_be_bytes());
    sync[12..16].copy_from_slice(&sf.to_be_bytes());
    sync[16..20].copy_from_slice(&11125u32.to_be_bytes()); // rtp current
    assert_eq!(on_control(&sync, &mut clock), ControlAction::Synced);
    assert!(clock.is_ready());
    let play = clock.play_time(100).unwrap();
    assert!(play.abs_diff(1_001_000_000) <= 2, "play time {play}");

    // Audio still flows in order regardless of the timing machinery.
    let mut receiver = AudioReceiver::new(params());
    let delivered = receiver.on_datagram(&audio_packet(100, 0, &[0x20, 0x11, 0x22]));
    assert_eq!(audio(&delivered[0]).sequence, 100);
    assert_eq!(audio(&delivered[0]).frame, [0x20, 0x11, 0x22]);
}

#[test]
fn a_resent_packet_fills_the_gap() {
    let mut receiver = AudioReceiver::new(params());
    receiver.on_datagram(&audio_packet(10, 1000, &[1]));
    receiver.on_datagram(&audio_packet(12, 1704, &[3]));
    let mut clock = ClockModel::new(44100);
    let reply = resent(&audio_packet(11, 1352, &[2]));
    assert_eq!(on_control(&reply, &mut clock), ControlAction::Forward);
    let played = receiver.on_resend(&reply);
    let seqs: Vec<u16> = played.iter().map(|p| audio(p).sequence).collect();
    assert_eq!(seqs, vec![11, 12]);
    assert_eq!(audio(&played[0]).timestamp, 1352);
    assert!(receiver.on_tick(0).1.is_empty(), "nothing is missing now");
}

#[test]
fn datagrams_of_no_interest_change_nothing() {
    let mut receiver = AudioReceiver::new(params());
    assert!(receiver.on_datagram(&[1, 2, 3]).is_empty());
    assert!(receiver.on_resend(&[1, 2, 3]).is_empty());
    let mut clock = ClockModel::new(44100);
    assert_eq!(on_control(&[0x80, 0xd2], &mut clock), ControlAction::Ignore);
    assert_eq!(on_control(&[], &mut clock), ControlAction::Ignore);
    on_timing(&[0; 40], 0, 1, &mut clock);
    assert_eq!(clock.offset_ns(), None);
}

#[test]
fn a_packet_lost_for_good_becomes_silence() {
    let mut receiver = AudioReceiver::new(params());
    receiver.on_datagram(&audio_packet(0, 0, &[9]));
    let mut played = Vec::new();
    for seq in 2..=129u16 {
        played.extend(receiver.on_datagram(&audio_packet(seq, 0, &[9])));
    }
    assert!(matches!(
        played[0],
        Playable::Silence {
            sequence: 1,
            timestamp: 352
        }
    ));
    assert_eq!(played.len(), 129);
}

#[test]
fn resend_requests_keep_their_distance() {
    let mut tracker = ResendTracker::default();
    assert_eq!(tracker.due(&[5, 6], 0), vec![5, 6]);
    assert_eq!(tracker.due(&[5, 6, 7], 1), vec![7]);
    assert_eq!(tracker.due(&[5, 6], RESEND_BACKOFF_NS - 1), vec![]);
    assert_eq!(tracker.due(&[5, 6], RESEND_BACKOFF_NS), vec![5, 6]);
    // One that was not missing for a while starts over.
    assert_eq!(tracker.due(&[6], RESEND_BACKOFF_NS + 1), vec![]);
    assert_eq!(tracker.due(&[5, 6], RESEND_BACKOFF_NS + 2), vec![5]);
    tracker.clear();
    assert_eq!(tracker.due(&[6], RESEND_BACKOFF_NS + 3), vec![6]);
}

#[test]
fn timestamps_are_counted_from_the_first_packet() {
    assert_eq!(derive_ts(12, Some((10, 1000)), 352), 1704);
    assert_eq!(derive_ts(9, Some((10, 1000)), 352), 1000, "never before it");
    assert_eq!(derive_ts(1, Some((0xFFFF, u32::MAX)), 352), 703);
    assert_eq!(derive_ts(12, None, 352), 0);
    // Half the circle away is still ahead; only what a jitter buffer can hold
    // just before the anchor counts as before it.
    assert_eq!(derive_ts(40000, Some((0, 0)), 352), 14_080_000);
    assert_eq!(derive_ts(0xFDFF, Some((0, 0)), 352), 0xFDFF * 352);
    assert_eq!(derive_ts(0xFE00, Some((0, 0)), 352), 0);
}

#[test]
fn timestamps_advance_over_a_stream_of_any_length() {
    let mut receiver = AudioReceiver::new(params());
    let first: u32 = 0xFFF0_0000;
    for i in 0..200_000u32 {
        let seq = (60_000 + i) as u16;
        let ts = first.wrapping_add(i.wrapping_mul(352));
        let out = receiver.on_datagram(&audio_packet(seq, ts, &[0x20]));
        assert_eq!(out.len(), 1);
        assert_eq!((audio(&out[0]).sequence, audio(&out[0]).timestamp), (seq, ts));
    }
}

#[test]
fn packets_before_the_first_share_its_timestamp() {
    let mut receiver = AudioReceiver::new(params());
    receiver.on_flush(Some(10));
    assert!(receiver.on_datagram(&audio_packet(12, 704, &[0x20])).is_empty());
    let out = receiver.on_datagram(&audio_packet(10, 0, &[0x20]));
    assert_eq!(audio(&out[0]).timestamp, 704);
    let out = receiver.on_datagram(&audio_packet(11, 352, &[0x20]));
    let stamps: Vec<u32> = out.iter().map(|p| audio(p).timestamp).collect();
    assert_eq!(stamps, vec![704, 704]);
    let out = receiver.on_datagram(&audio_packet(13, 1056, &[0x20]));
    assert_eq!(audio(&out[0]).timestamp, 1056);
}

#[test]
fn timing_requests_start_with_a_burst() {
    assert_eq!(timing_interval_ns(1), 300_000_000);
    assert_eq!(timing_interval_ns(3), 300_000_000);
    assert_eq!(timing_interval_ns(4), 3_000_000_000);
}
