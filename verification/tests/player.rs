//! Playback: the prebuffer, the start instant, and the reported position.

use openairplay1::clock::ClockModel;
use openairplay1::events::Event;
use openairplay1::player::{
    await_start_instant, extent, prebuffer_packets, start_wait_ns, Action, Input, Playback, Player,
    Playout, Position, Prebuffer,
};
use openairplay1::sdp::AlacConfig;
use openairplay1::session::Track;
use openairplay1::sink::{AudioSink, NullSink};

/// A stream with long packets: 4096 frames, about eleven a second.
fn config() -> AlacConfig {
    AlacConfig::parse("96 4096 0 16 40 10 14 2 0 16388 1411200 44100").unwrap()
}

fn packet(tag: i16) -> Vec<i16> {
    vec![tag; 4096 * 2]
}

/// Records every delivered chunk and every flush.
#[derive(Default)]
struct Recorder {
    writes: Vec<Vec<i16>>,
    flushes: usize,
}

impl AudioSink for Recorder {
    fn write(&mut self, pcm: &[i16]) {
        self.writes.push(pcm.to_vec());
    }
    fn flush(&mut self) {
        self.flushes += 1;
    }
}

/// A player with a sink, run as the playback thread runs it.
struct Rig {
    player: Player,
    sink: Recorder,
    track: Option<Track>,
    events: Vec<Event>,
}

impl Rig {
    fn new(track: Option<Track>) -> Rig {
        Rig {
            player: Player::new(&config(), 2),
            sink: Recorder::default(),
            track,
            events: Vec::new(),
        }
    }

    fn send(&mut self, input: Input) {
        let (action, event) = self.player.step(input, self.track);
        match action {
            Action::Play(Playback::Start { chunk, .. }) => self.sink.write(&chunk),
            Action::Play(Playback::Write { chunk }) => self.sink.write(&chunk),
            Action::FlushSink => self.sink.flush(),
            Action::Play(Playback::Hold) | Action::Skip | Action::Quit => {}
        }
        self.events.extend(event);
    }

    fn frame(&mut self, ts: u32, pcm: Vec<i16>) {
        self.send(Input::Decoded { ts, pcm });
    }
}

/// The position reports that playback produced for `packets` packets of a track
/// anchored at `start`..`end`.
fn positions(track: Option<Track>, packets: u32) -> Vec<(f64, f64)> {
    let mut rig = Rig::new(track);
    for i in 0..packets {
        rig.frame(i * 4096, packet(1));
    }
    rig.events
        .iter()
        .map(|event| match event {
            Event::Progress { elapsed, duration } => (
                elapsed.as_nanos() as f64 / 1e9,
                duration.as_nanos() as f64 / 1e9,
            ),
            other => panic!("{other:?}"),
        })
        .collect()
}

#[test]
fn playback_reports_its_position_once_a_second() {
    // A five-minute track starting at RTP 0. A packet is 4096 frames, so ~11
    // packets per second at 44.1 kHz.
    let track = Track {
        start: 0,
        end: 300 * 44100,
    };
    let reports = positions(Some(track), 40);
    assert!(!reports.is_empty(), "playback should report where it is");
    assert!(
        reports
            .iter()
            .all(|(_, total)| (*total - 300.0).abs() < 0.01),
        "the track length comes from the sender's anchor: {reports:?}"
    );
    // One report per second of audio, not one per packet.
    assert!(
        reports.len() <= 5,
        "40 packets is under 4 seconds of audio: {reports:?}"
    );
    // And the position advances with the audio.
    let elapsed: Vec<f64> = reports.iter().map(|(e, _)| *e).collect();
    assert!(
        elapsed.windows(2).all(|w| w[1] > w[0]),
        "position must advance: {elapsed:?}"
    );
}

#[test]
fn no_anchor_means_no_position_reports() {
    // Before the sender's first `progress:` we have no idea where in the
    // track the audio is, and saying nothing beats guessing.
    assert!(positions(None, 40).is_empty());
}

#[test]
fn audio_outside_the_anchored_track_is_not_reported() {
    // Right after a track change the audio has moved past the old track's
    // end, and the sender's new anchor hasn't arrived yet.
    let stale = Track {
        start: 0,
        end: 4096, // one packet long
    };
    let reports = positions(Some(stale), 40);
    assert!(
        reports.iter().all(|(elapsed, total)| elapsed <= total),
        "never report a position past the end of the track: {reports:?}"
    );
}

#[test]
fn position_stops_when_the_audio_does() {
    // The pause case, which needs no pause detection at all: no packets,
    // no reports, so whatever the host last heard stands.
    let track = Track {
        start: 0,
        end: 300 * 44100,
    };
    let mut rig = Rig::new(Some(track));
    for i in 0..40 {
        rig.frame(i * 4096, packet(1));
    }
    rig.events.clear();

    // The sender pauses: nothing arrives. And resuming picks up again.
    rig.frame(60 * 4096, packet(1));
    assert_eq!(rig.events.len(), 1);
    assert!(matches!(rig.events[0], Event::Progress { .. }));
}

#[test]
fn player_prebuffer_holds_until_threshold_then_releases() {
    let mut pb = Prebuffer::new(3);
    assert_eq!(pb.push(&[1, 2]), None); // packet 1
    assert_eq!(pb.push(&[3, 4]), None); // packet 2

    // Packet 3 hits the threshold and releases the whole accumulation.
    assert_eq!(pb.push(&[5, 6]), Some(vec![1, 2, 3, 4, 5, 6]));
    // Subsequent packets pass straight through.
    assert_eq!(pb.push(&[7, 8]), Some(vec![7, 8]));
}

#[test]
fn player_reset_rearms_prebuffer() {
    let mut pb = Prebuffer::new(2);
    assert_eq!(pb.push(&[1]), None);
    assert_eq!(pb.push(&[2]), Some(vec![1, 2]));
    pb.reset();
    assert_eq!(pb.push(&[9]), None, "after reset it prebuffers again");
    assert_eq!(pb.push(&[10]), Some(vec![9, 10]));
}

#[test]
fn player_threshold_of_one_releases_immediately() {
    let mut pb = Prebuffer::new(1);
    assert_eq!(pb.push(&[42, 43]), Some(vec![42, 43]));
}

#[test]
fn player_prebuffer_packet_count_from_config() {
    let config = AlacConfig::parse("96 352 0 16 40 10 14 2 255 0 0 44100").unwrap();
    // 200 ms = 8820 frames / 352 per packet = 25 packets.
    assert_eq!(prebuffer_packets(&config), 25);
}

#[test]
fn a_prebuffer_has_at_least_one_packet() {
    let odd = AlacConfig::parse("96 0 0 16 40 10 14 2 255 0 0 4").unwrap();
    assert_eq!(prebuffer_packets(&odd), 1);
    let mut pb = Prebuffer::new(0);
    assert_eq!(pb.push(&[1]), Some(vec![1]));
}

#[test]
fn prebuffered_pcm_reaches_the_sink_as_one_chunk() {
    let prebuffer = prebuffer_packets(&config());
    let mut rig = Rig::new(None);
    for i in 0..prebuffer {
        rig.frame(i as u32 * 4096, packet(i as i16));
    }
    assert_eq!(rig.sink.writes.len(), 1, "the prebuffer releases as one chunk");
    assert_eq!(rig.sink.writes[0].len(), prebuffer * packet(0).len());
    assert_eq!(rig.sink.writes[0][..4096 * 2], packet(0)[..]);
}

#[test]
fn flush_drops_prebuffered_audio_and_flushes_the_sink() {
    let prebuffer = prebuffer_packets(&config());
    let mut rig = Rig::new(None);

    // Below the prebuffer threshold: nothing can have played yet.
    for i in 0..prebuffer - 1 {
        rig.frame(i as u32 * 4096, packet(7));
    }
    rig.send(Input::Flush);
    assert_eq!(rig.sink.flushes, 1);
    assert_eq!(rig.events, vec![Event::Flushed], "told once the sink is flushed");

    // After the flush the prebuffer is re-armed: a full threshold of new
    // audio plays, and none of the pre-flush audio.
    for i in 0..prebuffer {
        rig.frame((1000 + i as u32) * 4096, packet(8));
    }
    assert_eq!(rig.sink.writes.len(), 1);
    assert_eq!(
        rig.sink.writes[0].len(),
        prebuffer * packet(0).len(),
        "only post-flush audio reaches the sink"
    );
    assert!(rig.sink.writes[0].iter().all(|&s| s == 8));
}

#[test]
fn lost_packets_are_concealed_with_silence() {
    let prebuffer = prebuffer_packets(&config());
    let pcm_len = packet(0).len();
    let mut rig = Rig::new(None);
    for i in 0..prebuffer - 1 {
        rig.frame(i as u32 * 4096, packet(5));
    }
    rig.send(Input::Silence {
        ts: (prebuffer - 1) as u32 * 4096,
    });
    assert_eq!(rig.sink.writes.len(), 1);
    let chunk = &rig.sink.writes[0];
    assert_eq!(chunk.len(), prebuffer * pcm_len);
    assert!(
        chunk[chunk.len() - pcm_len..].iter().all(|&s| s == 0),
        "the lost packet arrives as a silent frame"
    );
}

#[test]
fn the_first_chunk_starts_at_the_first_timestamp() {
    let mut playout = Playout::new(2);
    assert_eq!(playout.feed(100, &[1]), Playback::Hold);
    assert_eq!(
        playout.feed(452, &[2]),
        Playback::Start {
            first_ts: 100,
            chunk: vec![1, 2]
        }
    );
    assert_eq!(playout.feed(804, &[3]), Playback::Write { chunk: vec![3] });
    playout.reset();
    assert_eq!(playout.feed(9000, &[4]), Playback::Hold);
    assert_eq!(
        playout.feed(9352, &[5]),
        Playback::Start {
            first_ts: 9000,
            chunk: vec![4, 5]
        }
    );
}

#[test]
fn the_start_waits_for_its_instant_but_not_forever() {
    assert_eq!(start_wait_ns(None, 5), 0);
    assert_eq!(start_wait_ns(Some(5), 5), 0);
    assert_eq!(start_wait_ns(Some(4), 5), 0);
    assert_eq!(start_wait_ns(Some(1_000), 400), 600);
    assert_eq!(start_wait_ns(Some(9_000_000_000), 0), 2_000_000_000);
    let mut model = ClockModel::new(44100);
    assert_eq!(await_start_instant(&model, 0, 0), 0, "no clock yet");
    model.add_timing(0, 0, 0, 0);
    model.set_anchor(1_000_000, 0);
    assert_eq!(await_start_instant(&model, 0, 400_000), 600_000);
}

#[test]
fn a_position_is_where_the_audio_is_in_the_track() {
    let track = Track {
        start: u32::MAX - 44_099,
        end: 44_100 * 9,
    };
    let (elapsed, duration) = extent(track, 44_100, 44_100).unwrap();
    assert_eq!(elapsed.as_nanos(), 2_000_000_000);
    assert_eq!(duration.as_nanos(), 10_000_000_000);
    assert_eq!(extent(track, 44_100 * 9 + 1, 44_100), None);
    assert_eq!(extent(track, 0, 0), None, "no rate, no position");
}

#[test]
fn a_second_is_reported_once() {
    let track = Some(Track { start: 0, end: 44100 * 5 });
    let mut position = Position::new(44100);
    assert!(position.played(track, 0).is_some());
    assert!(position.played(track, 44099).is_none());
    assert!(position.played(track, 44100).is_some());
    assert!(position.played(track, 0).is_some(), "a seek back is news");
    assert!(position.played(None, 44100).is_none());
}

#[test]
fn what_does_not_decode_is_skipped_and_stop_quits() {
    let mut player = Player::new(&config(), 2);
    assert_eq!(player.step(Input::Undecodable, None), (Action::Skip, None));
    assert_eq!(player.step(Input::Stop, None), (Action::Quit, None));
    NullSink.write(&[1]);
    NullSink.flush();
}

#[test]
fn prebuffer_holds_until_threshold_then_releases() {
    let mut pb = Prebuffer::new(3);
    assert_eq!(pb.push(&[1, 2]), None); // packet 1
    assert_eq!(pb.push(&[3, 4]), None); // packet 2

    // Packet 3 hits the threshold and releases the whole accumulation.
    assert_eq!(pb.push(&[5, 6]), Some(vec![1, 2, 3, 4, 5, 6]));
    // Subsequent packets pass straight through.
    assert_eq!(pb.push(&[7, 8]), Some(vec![7, 8]));
}

#[test]
fn reset_rearms_prebuffer() {
    let mut pb = Prebuffer::new(2);
    assert_eq!(pb.push(&[1]), None);
    assert_eq!(pb.push(&[2]), Some(vec![1, 2]));
    pb.reset();
    assert_eq!(pb.push(&[9]), None, "after reset it prebuffers again");
    assert_eq!(pb.push(&[10]), Some(vec![9, 10]));
}

#[test]
fn threshold_of_one_releases_immediately() {
    let mut pb = Prebuffer::new(1);
    assert_eq!(pb.push(&[42, 43]), Some(vec![42, 43]));
}

#[test]
fn prebuffer_packet_count_from_config() {
    let config = AlacConfig::parse("96 352 0 16 40 10 14 2 255 0 0 44100").unwrap();
    // 200 ms = 8820 frames / 352 per packet = 25 packets.
    assert_eq!(prebuffer_packets(&config), 25);
}
