//! Playback: the prebuffer, the latency-correct start, and the position that
//! the audio itself tells.
//!
//! A playback thread of the host owns the ALAC decoder and the sink. It hands
//! each decoded packet in and does what it is told: hold, wait and write, or
//! write. Blocking writes pace playback afterwards.

use vstd::prelude::*;

use crate::audio::AudioState;
use crate::clock::ClockModel;
use crate::events::{Event, EventContent};
use crate::sdp::AlacConfig;
use crate::rtsp::RequestContent;
use crate::session;
use crate::session::{Effect, SessionState, Track};
use crate::time;
use crate::time::{frames_to_duration, Duration};

verus! {

/// The longest wait for the start instant, in nanoseconds.
pub const MAX_START_WAIT_NS: u64 = 2_000_000_000;

/// Target of about 200 ms of prebuffer before the first write, expressed in
/// packets (at least one).
pub open spec fn prebuffer_target(config: AlacConfig) -> int {
    let frames = if config.frames_per_packet == 0 {
        1
    } else {
        config.frames_per_packet as int
    };
    let packets = config.sample_rate as int / 5 / frames;
    if packets < 1 {
        1
    } else {
        packets
    }
}

/// How many packets to prebuffer.
pub fn prebuffer_packets(config: &AlacConfig) -> (packets: usize)
    ensures
        packets == prebuffer_target(*config),
        packets >= 1,
{
    let frames: u32 = if config.frames_per_packet == 0 {
        1
    } else {
        config.frames_per_packet
    };
    let target: u32 = config.sample_rate / 5;
    let packets: u32 = target / frames;
    if packets < 1 {
        1
    } else {
        packets as usize
    }
}

/// A prebuffer, as a mathematical value.
pub struct PrebufferState {
    /// How many packets it holds back.
    pub threshold: nat,
    /// How many it has taken since it was armed.
    pub packets: nat,
    /// What it holds back.
    pub buffer: Seq<i16>,
    /// Whether it has let go.
    pub released: bool,
}

impl PrebufferState {
    /// It lets go as soon as the threshold is reached, and holds nothing then.
    pub open spec fn wf(self) -> bool {
        if self.released {
            self.buffer.len() == 0
        } else {
            self.packets == 0 || self.packets < self.threshold
        }
    }

    /// What comes out when a packet goes in.
    pub open spec fn output(self, pcm: Seq<i16>) -> Option<Seq<i16>> {
        if self.released {
            Some(pcm)
        } else if self.packets + 1 >= self.threshold {
            Some(self.buffer + pcm)
        } else {
            None
        }
    }

    /// The prebuffer after a packet went in.
    pub open spec fn pushed(self, pcm: Seq<i16>) -> PrebufferState {
        if self.released {
            self
        } else if self.packets + 1 >= self.threshold {
            PrebufferState {
                packets: self.packets + 1,
                buffer: Seq::empty(),
                released: true,
                ..self
            }
        } else {
            PrebufferState {
                packets: self.packets + 1,
                buffer: self.buffer + pcm,
                ..self
            }
        }
    }

    /// The prebuffer armed anew.
    pub open spec fn rearmed(self) -> PrebufferState {
        PrebufferState { packets: 0, buffer: Seq::empty(), released: false, ..self }
    }

    /// The prebuffer after some packets.
    pub open spec fn pushed_all(self, packets: Seq<Seq<i16>>) -> PrebufferState
        decreases packets.len(),
    {
        if packets.len() == 0 {
            self
        } else {
            self.pushed_all(packets.drop_last()).pushed(packets.last())
        }
    }

    /// All that came out for some packets.
    pub open spec fn output_all(self, packets: Seq<Seq<i16>>) -> Seq<i16>
        decreases packets.len(),
    {
        if packets.len() == 0 {
            Seq::empty()
        } else {
            self.output_all(packets.drop_last()) + (match self.pushed_all(
                packets.drop_last(),
            ).output(packets.last()) {
                Some(chunk) => chunk,
                None => Seq::empty(),
            })
        }
    }
}

/// Some packets as one run of samples.
pub open spec fn flattened(packets: Seq<Seq<i16>>) -> Seq<i16>
    decreases packets.len(),
{
    if packets.len() == 0 {
        Seq::empty()
    } else {
        flattened(packets.drop_last()) + packets.last()
    }
}

/// A prebuffer loses nothing, adds nothing and reorders nothing: what came out
/// and what it still holds is what went in.
pub proof fn law_a_prebuffer_keeps_every_sample(s: PrebufferState, packets: Seq<Seq<i16>>)
    requires
        s.wf(),
    ensures
        s.pushed_all(packets).wf(),
        s.output_all(packets) + s.pushed_all(packets).buffer == s.buffer + flattened(packets),
    decreases packets.len(),
{
    if packets.len() == 0 {
        assert(s.output_all(packets) + s.buffer =~= s.buffer + flattened(packets));
    } else {
        law_a_prebuffer_keeps_every_sample(s, packets.drop_last());
        let before = s.pushed_all(packets.drop_last());
        let out = s.output_all(packets.drop_last());
        assert(out + before.buffer == s.buffer + flattened(packets.drop_last()));
        let after = s.pushed_all(packets);
        assert(s.output_all(packets) + after.buffer =~= out + before.buffer + packets.last());
        assert(s.buffer + flattened(packets) =~= s.buffer + flattened(packets.drop_last())
            + packets.last());
    }
}

/// After a flush, only what came after it is played: nothing that was held back
/// before comes out.
pub proof fn law_a_flush_drops_what_was_held_back(s: PrebufferState, packets: Seq<Seq<i16>>)
    requires
        s.wf(),
    ensures
        s.rearmed().output_all(packets) + s.rearmed().pushed_all(packets).buffer == flattened(
            packets,
        ),
{
    law_a_prebuffer_keeps_every_sample(s.rearmed(), packets);
    assert(s.rearmed().buffer + flattened(packets) =~= flattened(packets));
}

/// Accumulates decoded PCM until a packet threshold is reached, then releases
/// it and passes subsequent packets straight through. `reset` re-arms it.
pub struct Prebuffer {
    threshold_packets: usize,
    packets: usize,
    buffer: Vec<i16>,
    released: bool,
}

impl View for Prebuffer {
    type V = PrebufferState;

    closed spec fn view(&self) -> PrebufferState {
        PrebufferState {
            threshold: self.threshold_packets as nat,
            packets: self.packets as nat,
            buffer: self.buffer@,
            released: self.released,
        }
    }
}

impl Prebuffer {
    /// The representation is sound.
    pub closed spec fn wf(&self) -> bool {
        self@.wf()
    }

    /// What a sound representation stands for is sound.
    pub proof fn lemma_wf(&self)
        requires
            self.wf(),
        ensures
            self@.wf(),
    {
    }

    /// A prebuffer that holds back until `threshold_packets` have come.
    pub fn new(threshold_packets: usize) -> (prebuffer: Prebuffer)
        ensures
            prebuffer.wf(),
            prebuffer@ == (PrebufferState {
                threshold: threshold_packets as nat,
                packets: 0,
                buffer: Seq::empty(),
                released: false,
            }),
    {
        Prebuffer { threshold_packets, packets: 0, buffer: Vec::new(), released: false }
    }

    /// Feed decoded PCM. Returns the samples to write now, or `None` while
    /// still prebuffering.
    pub fn push(&mut self, pcm: &[i16]) -> (chunk: Option<Vec<i16>>)
        requires
            old(self).wf(),
        ensures
            final(self).wf(),
            final(self)@ == old(self)@.pushed(pcm@),
            chunk is Some <==> old(self)@.output(pcm@) is Some,
            chunk is Some ==> chunk->0@ == old(self)@.output(pcm@)->0,
    {
        if self.released {
            return Some(vstd::slice::slice_to_vec(pcm));
        }
        self.buffer.extend_from_slice(pcm);
        assert(self.buffer@ =~= old(self).buffer@ + pcm@);
        self.packets = self.packets + 1;
        if self.packets >= self.threshold_packets {
            self.released = true;
            let mut chunk: Vec<i16> = Vec::new();
            core::mem::swap(&mut chunk, &mut self.buffer);
            Some(chunk)
        } else {
            None
        }
    }

    /// Drop what is held back and arm the prebuffer anew.
    pub fn reset(&mut self)
        requires
            old(self).wf(),
        ensures
            final(self).wf(),
            final(self)@ == old(self)@.rearmed(),
    {
        self.packets = 0;
        self.buffer.clear();
        self.released = false;
        assert(self.buffer@ =~= Seq::<i16>::empty());
    }
}

/// What to do with the audio that was fed.
#[derive(Debug, PartialEq, Eq)]
pub enum Playback {
    /// Nothing yet: it is held back.
    Hold,
    /// The stream starts: wait for the start instant of this RTP timestamp,
    /// then write.
    Start { first_ts: u32, chunk: Vec<i16> },
    /// Write.
    Write { chunk: Vec<i16> },
}

/// What to do with the audio that was fed, as a mathematical value.
pub enum PlaybackContent {
    Hold,
    Start { first_ts: u32, chunk: Seq<i16> },
    Write { chunk: Seq<i16> },
}

impl View for Playback {
    type V = PlaybackContent;

    open spec fn view(&self) -> PlaybackContent {
        match *self {
            Playback::Hold => PlaybackContent::Hold,
            Playback::Start { first_ts, chunk } => PlaybackContent::Start {
                first_ts,
                chunk: chunk@,
            },
            Playback::Write { chunk } => PlaybackContent::Write { chunk: chunk@ },
        }
    }
}

/// The start of a stream, as a mathematical value.
pub struct PlayoutState {
    pub prebuffer: PrebufferState,
    pub started: bool,
    pub first_ts: Option<u32>,
}

impl PlayoutState {
    /// Playback starts when the prebuffer lets go, not before; the first
    /// timestamp is noted with the first packet.
    pub open spec fn wf(self) -> bool {
        &&& self.prebuffer.wf()
        &&& self.started == self.prebuffer.released
        &&& self.prebuffer.packets > 0 ==> self.first_ts is Some
    }

    /// The timestamp that playback starts at, with the packet at `ts`.
    pub open spec fn first(self, ts: u32) -> u32 {
        match self.first_ts {
            Some(first) => first,
            None => ts,
        }
    }

    /// What to do with the packet at `ts`.
    pub open spec fn action(self, ts: u32, pcm: Seq<i16>) -> PlaybackContent {
        match self.prebuffer.output(pcm) {
            None => PlaybackContent::Hold,
            Some(chunk) => if self.started {
                PlaybackContent::Write { chunk }
            } else {
                PlaybackContent::Start { first_ts: self.first(ts), chunk }
            },
        }
    }

    /// The stream after that packet.
    pub open spec fn fed(self, ts: u32, pcm: Seq<i16>) -> PlayoutState {
        PlayoutState {
            prebuffer: self.prebuffer.pushed(pcm),
            started: self.started || self.prebuffer.output(pcm) is Some,
            first_ts: if self.started {
                self.first_ts
            } else {
                Some(self.first(ts))
            },
        }
    }

    /// The stream after a flush.
    pub open spec fn rearmed(self) -> PlayoutState {
        PlayoutState { prebuffer: self.prebuffer.rearmed(), started: false, first_ts: None }
    }
}

/// Drives the transition from prebuffering to steady playback.
pub struct Playout {
    prebuffer: Prebuffer,
    started: bool,
    first_ts: Option<u32>,
}

impl View for Playout {
    type V = PlayoutState;

    closed spec fn view(&self) -> PlayoutState {
        PlayoutState {
            prebuffer: self.prebuffer@,
            started: self.started,
            first_ts: self.first_ts,
        }
    }
}

impl Playout {
    /// The representation is sound.
    pub closed spec fn wf(&self) -> bool {
        self.prebuffer.wf() && self@.wf()
    }

    /// What a sound representation stands for is sound.
    pub proof fn lemma_wf(&self)
        requires
            self.wf(),
        ensures
            self@.wf(),
    {
    }

    /// A stream that has not started.
    pub fn new(prebuffer_packets: usize) -> (playout: Playout)
        ensures
            playout.wf(),
            playout@.prebuffer == (PrebufferState {
                threshold: prebuffer_packets as nat,
                packets: 0,
                buffer: Seq::empty(),
                released: false,
            }),
            !playout@.started,
            playout@.first_ts is None,
    {
        Playout { prebuffer: Prebuffer::new(prebuffer_packets), started: false, first_ts: None }
    }

    /// Feed the decoded packet at `ts`.
    pub fn feed(&mut self, ts: u32, pcm: &[i16]) -> (action: Playback)
        requires
            old(self).wf(),
        ensures
            final(self).wf(),
            action@ == old(self)@.action(ts, pcm@),
            final(self)@ == old(self)@.fed(ts, pcm@),
    {
        let first_ts: u32 = match self.first_ts {
            Some(first) => first,
            None => ts,
        };
        if !self.started {
            self.first_ts = Some(first_ts);
        }
        let chunk = match self.prebuffer.push(pcm) {
            Some(chunk) => chunk,
            None => {
                return Playback::Hold;
            },
        };
        if self.started {
            Playback::Write { chunk }
        } else {
            self.started = true;
            Playback::Start { first_ts, chunk }
        }
    }

    /// Drop what is held back and start anew.
    pub fn reset(&mut self)
        requires
            old(self).wf(),
        ensures
            final(self).wf(),
            final(self)@ == old(self)@.rearmed(),
    {
        self.prebuffer.reset();
        self.started = false;
        self.first_ts = None;
    }
}

/// How long to hold the first chunk so that its frame plays when it is due: not
/// at all before the clock model is ready or once it is past, and never more
/// than two seconds.
pub open spec fn wait_for(target: Option<u64>, now: u64) -> int {
    match target {
        Some(target) => if target <= now {
            0
        } else if target - now > MAX_START_WAIT_NS {
            MAX_START_WAIT_NS as int
        } else {
            target - now
        },
        None => 0,
    }
}

/// How long to wait for an instant, in nanoseconds.
pub fn start_wait_ns(target: Option<u64>, now: u64) -> (wait: u64)
    ensures
        wait == wait_for(target, now),
{
    match target {
        Some(target) => if target <= now {
            0
        } else if target - now > MAX_START_WAIT_NS {
            MAX_START_WAIT_NS
        } else {
            target - now
        },
        None => 0,
    }
}

/// Hold the first chunk until its frame's `play_time`, so that audio starts at
/// the instant that the client intends: how long, in nanoseconds.
pub fn await_start_instant(model: &ClockModel, first_ts: u32, now: u64) -> (wait: u64)
    requires
        model.wf(),
        model@.ready() ==> model@.sample_rate != 0,
    ensures
        !model@.ready() || model@.due(first_ts) < 0 ==> wait == 0,
        model@.ready() && model@.due(first_ts) >= 0 ==> wait == wait_for(
            Some((model@.due(first_ts) % 0x1_0000_0000_0000_0000) as u64),
            now,
        ),
{
    start_wait_ns(model.play_time(first_ts), now)
}

/// The distance from `b` on to `a` on the 32-bit circle.
pub open spec fn rtp_ahead(a: u32, b: u32) -> u32 {
    if a >= b {
        (a - b) as u32
    } else {
        (a - b + 0x1_0000_0000) as u32
    }
}

/// Where `ts` sits within `track` (elapsed and whole, in nanoseconds), or
/// `None` if it sits outside, which happens between a track change and the
/// sender's next `progress:`.
pub open spec fn extent_of(track: Track, ts: u32, rate: u32) -> Option<(int, int)> {
    let played = rtp_ahead(ts, track.start);
    let total = rtp_ahead(track.end, track.start);
    if rate == 0 || played > total {
        None
    } else {
        Some((time::frames_nanos(played, rate), time::frames_nanos(total, rate)))
    }
}

/// Where `ts` sits within `track`.
pub fn extent(track: Track, ts: u32, rate: u32) -> (span: Option<(Duration, Duration)>)
    ensures
        span is Some <==> extent_of(track, ts, rate) is Some,
        span matches Some((elapsed, duration)) ==> {
            &&& (elapsed@, duration@) == extent_of(track, ts, rate)->0
            &&& elapsed@ <= duration@
        },
{
    if rate == 0 {
        return None;
    }
    let played: u32 = ts.wrapping_sub(track.start);
    let total: u32 = track.end.wrapping_sub(track.start);
    if played > total {
        return None;
    }
    proof {
        time::law_more_frames_take_longer(played, total, rate);
    }
    Some((frames_to_duration(played, rate), frames_to_duration(total, rate)))
}

/// Reports where playback is, from the audio itself: once for every second
/// that the displayed clock changes to. A paused sender freezes the clock, as
/// no audio means nothing to report.
pub struct Position {
    rate: u32,
    reported: Option<u64>,
}

/// A position reporter, as a mathematical value.
pub struct PositionState {
    pub rate: u32,
    /// Whole seconds last reported.
    pub reported: Option<int>,
}

impl View for Position {
    type V = PositionState;

    closed spec fn view(&self) -> PositionState {
        PositionState {
            rate: self.rate,
            reported: match self.reported {
                Some(second) => Some(second as int),
                None => None,
            },
        }
    }
}

impl PositionState {
    /// What to report when the audio at `ts` plays.
    pub open spec fn report(self, track: Option<Track>, ts: u32) -> Option<(int, int)> {
        match track {
            None => None,
            Some(track) => match extent_of(track, ts, self.rate) {
                None => None,
                Some(span) => if self.reported == Some(span.0 / 1_000_000_000) {
                    None
                } else {
                    Some(span)
                },
            },
        }
    }

    /// The reporter after that.
    pub open spec fn after(self, track: Option<Track>, ts: u32) -> PositionState {
        match self.report(track, ts) {
            Some(span) => PositionState { reported: Some(span.0 / 1_000_000_000), ..self },
            None => self,
        }
    }
}

impl Position {
    /// A reporter that has reported nothing.
    pub fn new(rate: u32) -> (position: Position)
        ensures
            position@ == (PositionState { rate, reported: None }),
    {
        Position { rate, reported: None }
    }

    /// Note that the audio at `ts` is playing, and report the position when the
    /// displayed second changes. Nothing is reported before the sender has said
    /// where the track is, nor of audio outside it.
    pub fn played(&mut self, track: Option<Track>, ts: u32) -> (event: Option<Event>)
        ensures
            final(self)@ == old(self)@.after(track, ts),
            event is Some <==> old(self)@.report(track, ts) is Some,
            event matches Some(e) ==> e@ == (EventContent::Progress {
                elapsed: (old(self)@.report(track, ts)->0).0,
                duration: (old(self)@.report(track, ts)->0).1,
            }),
    {
        let track: Track = match track {
            Some(track) => track,
            None => {
                return None;
            },
        };
        let (elapsed, duration) = match extent(track, ts, self.rate) {
            Some(span) => span,
            None => {
                return None;
            },
        };
        let second: u64 = elapsed.as_secs();
        if let Some(reported) = self.reported {
            if reported == second {
                return None;
            }
        }
        self.reported = Some(second);
        Some(Event::Progress { elapsed, duration })
    }
}

/// A position is reported at most once per second of the track: audio in the
/// second that was reported last is not reported again.
pub proof fn law_one_report_per_second(
    p: PositionState,
    track: Option<Track>,
    ts: u32,
    later: u32,
)
    requires
        p.report(track, ts) is Some,
        extent_of(track->0, later, p.rate) is Some,
        (extent_of(track->0, later, p.rate)->0).0 / 1_000_000_000 == (extent_of(
            track->0,
            ts,
            p.rate,
        )->0).0 / 1_000_000_000,
    ensures
        p.after(track, ts).report(track, later) is None,
{
}

/// What the playback thread gets to do.
#[derive(Debug)]
pub enum Input {
    /// The packet at this RTP timestamp, decoded.
    Decoded { ts: u32, pcm: Vec<i16> },
    /// A packet that did not decode.
    Undecodable,
    /// A lost packet at this RTP timestamp.
    Silence { ts: u32 },
    /// Drop buffered audio and re-arm the prebuffer.
    Flush,
    /// Stop playing.
    Stop,
}

/// What the playback thread does next.
#[derive(Debug, PartialEq, Eq)]
pub enum Action {
    /// Play, or hold, what was fed.
    Play(Playback),
    /// Flush the sink.
    FlushSink,
    /// Nothing.
    Skip,
    /// End.
    Quit,
}

/// A player, as a mathematical value.
pub struct PlayerState {
    /// How many samples a silent packet has.
    pub silence: nat,
    pub playout: PlayoutState,
    pub position: PositionState,
}

impl PlayerState {
    /// The samples of a silent packet.
    pub open spec fn silent(self) -> Seq<i16> {
        Seq::new(self.silence, |i: int| 0i16)
    }

    /// The player after the audio at `ts`.
    pub open spec fn fed(self, ts: u32, pcm: Seq<i16>, track: Option<Track>) -> PlayerState {
        PlayerState {
            playout: self.playout.fed(ts, pcm),
            position: self.position.after(track, ts),
            ..self
        }
    }
}

impl PlayerState {
    /// The player after a flush: nothing is held back, and playback starts anew.
    pub open spec fn flushed(self) -> PlayerState {
        PlayerState { playout: self.playout.rearmed(), ..self }
    }
}

/// The playback thread's state machine.
pub struct Player {
    silence: Vec<i16>,
    playout: Playout,
    position: Position,
}

impl View for Player {
    type V = PlayerState;

    closed spec fn view(&self) -> PlayerState {
        PlayerState {
            silence: self.silence@.len(),
            playout: self.playout@,
            position: self.position@,
        }
    }
}

impl Player {
    /// The representation is sound.
    pub closed spec fn wf(&self) -> bool {
        &&& self.playout.wf()
        &&& self.silence@ == Seq::new(self.silence@.len(), |i: int| 0i16)
    }

    /// What a sound representation stands for is sound.
    pub proof fn lemma_wf(&self)
        requires
            self.wf(),
        ensures
            self@.playout.wf(),
    {
        self.playout.lemma_wf();
    }

    /// A player for a stream of this format and channel count.
    pub fn new(config: &AlacConfig, channels: usize) -> (player: Player)
        requires
            config.frames_per_packet * channels <= usize::MAX,
        ensures
            player.wf(),
            player@.silence == config.frames_per_packet * channels,
            player@.playout.prebuffer == (PrebufferState {
                threshold: prebuffer_target(*config) as nat,
                packets: 0,
                buffer: Seq::empty(),
                released: false,
            }),
            !player@.playout.started,
            player@.playout.first_ts is None,
            player@.position == (PositionState { rate: config.sample_rate, reported: None }),
    {
        let samples: usize = config.frames_per_packet as usize * channels;
        let mut silence: Vec<i16> = Vec::new();
        while silence.len() < samples
            invariant
                silence@.len() <= samples,
                silence@ == Seq::new(silence@.len(), |i: int| 0i16),
            decreases samples - silence@.len(),
        {
            silence.push(0);
            assert(silence@ =~= Seq::new(silence@.len(), |i: int| 0i16));
        }
        Player {
            silence,
            playout: Playout::new(prebuffer_packets(config)),
            position: Position::new(config.sample_rate),
        }
    }

    /// One step of the playback thread: what to do with an input, and what to
    /// report to the session once that is done, if anything: a position, or that
    /// the stream was flushed.
    pub fn step(&mut self, input: Input, track: Option<Track>) -> (done: (Action, Option<Event>))
        requires
            old(self).wf(),
        ensures
            final(self).wf(),
            match input {
                Input::Decoded { ts, pcm } => {
                    &&& done.0 matches Action::Play(p) && p@ == old(self)@.playout.action(ts, pcm@)
                    &&& reports(done.1, old(self)@.position.report(track, ts))
                    &&& final(self)@ == old(self)@.fed(ts, pcm@, track)
                },
                Input::Silence { ts } => {
                    &&& done.0 matches Action::Play(p) && p@ == old(self)@.playout.action(
                        ts,
                        old(self)@.silent(),
                    )
                    &&& reports(done.1, old(self)@.position.report(track, ts))
                    &&& final(self)@ == old(self)@.fed(ts, old(self)@.silent(), track)
                },
                Input::Flush => {
                    &&& done.0 is FlushSink
                    &&& done.1 matches Some(event) && event@ == flush_report()
                    &&& final(self)@ == old(self)@.flushed()
                },
                Input::Undecodable => {
                    &&& done.0 is Skip
                    &&& done.1 is None
                    &&& final(self)@ == old(self)@
                },
                Input::Stop => {
                    &&& done.0 is Quit
                    &&& done.1 is None
                    &&& final(self)@ == old(self)@
                },
            },
    {
        match input {
            Input::Decoded { ts, pcm } => {
                let action = self.playout.feed(ts, pcm.as_slice());
                let event = self.position.played(track, ts);
                (Action::Play(action), event)
            },
            Input::Silence { ts } => {
                let action = self.playout.feed(ts, self.silence.as_slice());
                let event = self.position.played(track, ts);
                (Action::Play(action), event)
            },
            Input::Flush => {
                self.playout.reset();
                (Action::FlushSink, Some(Event::Flushed))
            },
            Input::Undecodable => (Action::Skip, None),
            Input::Stop => (Action::Quit, None),
        }
    }
}

/// What is reported once a stream has been flushed.
pub open spec fn flush_report() -> EventContent {
    EventContent::Flushed
}

/// A FLUSH is told of once. Where a stream runs, the request itself tells
/// nothing: the jitter buffer goes to where the request says, with nothing held,
/// the player drops what it held back and flushes the sink, and its report that
/// this is done is what the host is told. If the session ends before that, its
/// end tells of the flush. Where no stream runs, there is nothing to flush, and
/// it is told at once.
pub proof fn law_a_flush_is_told_once_it_is_done(
    s: SessionState,
    request: RequestContent,
    audio: AudioState,
    player: PlayerState,
)
    ensures
        s.streaming ==> {
            &&& s.flush_events() == Seq::<EventContent>::empty()
            &&& session::flush_effect(s.streaming, request) matches Effect::Flush(next)
            &&& audio.flushed(next).jitter.next == next
            &&& audio.flushed(next).jitter.held == Map::<u16, Seq<u8>>::empty()
            &&& player.flushed().playout.prebuffer.buffer == Seq::<i16>::empty()
            &&& !player.flushed().playout.started
            &&& s.after_flush().relayed(flush_report()) == seq![EventContent::Flushed]
            &&& s.after_flush().after_relay(flush_report()) == s
            &&& s.after_flush().end_events() == session::flushed_times(s.owed + 1).push(
                EventContent::SessionEnded,
            )
        },
        !s.streaming ==> {
            &&& s.flush_events() == seq![EventContent::Flushed]
            &&& session::flush_effect(s.streaming, request) == Effect::Nothing
            &&& s.after_flush() == s
        },
{
}

/// Whether an event, if any, reports this position, if any.
pub open spec fn reports(event: Option<Event>, span: Option<(int, int)>) -> bool {
    match span {
        None => event is None,
        Some((elapsed, duration)) => event is Some && event->0@ == (EventContent::Progress {
            elapsed,
            duration,
        }),
    }
}

/// A stream starts with a fifth of a second in hand, to the packet: as many whole
/// packets as fit in it, or one where a packet is longer.
pub proof fn law_a_fifth_of_a_second_is_held_back(config: AlacConfig)
    ensures
        ({
            let held = prebuffer_target(config);
            let frames = if config.frames_per_packet == 0 {
                1
            } else {
                config.frames_per_packet as int
            };
            &&& held >= 1
            &&& held > 1 ==> 5 * (held * frames) <= config.sample_rate
            &&& config.sample_rate < 5 * ((held + 1) * frames)
        }),
{
    let frames = if config.frames_per_packet == 0 {
        1
    } else {
        config.frames_per_packet as int
    };
    let fifth = config.sample_rate as int / 5;
    let packets = fifth / frames;
    vstd::arithmetic::div_mod::lemma_fundamental_div_mod(fifth, frames);
    vstd::arithmetic::div_mod::lemma_mod_bound(fifth, frames);
    assert(packets * frames == frames * packets) by (nonlinear_arith);
    assert((packets + 1) * frames == frames * packets + frames) by (nonlinear_arith);
    if packets < 1 {
        assert((1 + 1) * frames >= (packets + 1) * frames) by (nonlinear_arith)
            requires
                packets < 1,
                frames >= 1,
        ;
    }
}

/// Packets laid end to end: none is nothing, and one more is put behind.
pub proof fn law_packets_are_laid_end_to_end(packets: Seq<Seq<i16>>, pcm: Seq<i16>)
    ensures
        flattened(Seq::empty()) == Seq::<i16>::empty(),
        flattened(packets.push(pcm)) == flattened(packets) + pcm,
{
    assert(packets.push(pcm).drop_last() =~= packets);
}

/// A fresh prebuffer lets nothing out while it has had fewer packets than its
/// threshold, and everything that came, in order, from then on.
pub proof fn law_a_prebuffer_opens_at_its_threshold(s: PrebufferState, packets: Seq<Seq<i16>>)
    requires
        s.packets == 0,
        s.buffer.len() == 0,
        !s.released,
    ensures
        packets.len() < s.threshold ==> s.output_all(packets).len() == 0,
        packets.len() >= s.threshold ==> s.output_all(packets) == flattened(packets),
{
    lemma_opening(s, packets);
    law_a_prebuffer_keeps_every_sample(s, packets);
    assert(s.buffer + flattened(packets) =~= flattened(packets));
    if packets.len() >= s.threshold {
        assert(s.output_all(packets) + s.pushed_all(packets).buffer =~= s.output_all(packets));
    }
}

proof fn lemma_opening(s: PrebufferState, packets: Seq<Seq<i16>>)
    requires
        s.packets == 0,
        s.buffer.len() == 0,
        !s.released,
    ensures
        s.pushed_all(packets).threshold == s.threshold,
        packets.len() == 0 || packets.len() < s.threshold ==> {
            &&& s.output_all(packets).len() == 0
            &&& !s.pushed_all(packets).released
            &&& s.pushed_all(packets).packets == packets.len()
        },
        packets.len() > 0 && packets.len() >= s.threshold ==> s.pushed_all(packets).released
            && s.pushed_all(packets).buffer.len() == 0,
    decreases packets.len(),
{
    if packets.len() > 0 {
        lemma_opening(s, packets.drop_last());
    }
}

/// A reset prebuffer is as good as a fresh one of its threshold.
pub proof fn law_a_reset_prebuffer_is_fresh(s: PrebufferState)
    ensures
        s.rearmed().threshold == s.threshold,
        s.rearmed().packets == 0,
        s.rearmed().buffer.len() == 0,
        !s.rearmed().released,
{
}

/// Playback starts at the timestamp of the first packet that came, whatever came
/// after it until it starts, and is started once.
pub proof fn law_playback_starts_at_the_first_packet(s: PlayoutState, ts: u32, pcm: Seq<i16>)
    requires
        s.wf(),
    ensures
        !s.started && s.first_ts is None ==> s.fed(ts, pcm).first_ts == Some(ts),
        !s.started && s.first_ts is Some ==> s.fed(ts, pcm).first_ts == s.first_ts,
        s.action(ts, pcm) matches PlaybackContent::Start { first_ts, chunk } ==> {
            &&& !s.started
            &&& s.fed(ts, pcm).started
            &&& s.first_ts is None ==> first_ts == ts
            &&& s.first_ts is Some ==> first_ts == s.first_ts->0
            &&& chunk == s.prebuffer.buffer + pcm
        },
        s.started ==> s.action(ts, pcm) == (PlaybackContent::Write { chunk: pcm }) && s.fed(
            ts,
            pcm,
        ).started,
        !s.started && s.prebuffer.packets + 1 >= s.prebuffer.threshold ==> s.action(ts, pcm)
            is Start,
        !s.started && s.prebuffer.packets + 1 < s.prebuffer.threshold ==> s.action(ts, pcm) is Hold
            && !s.fed(ts, pcm).started && s.fed(ts, pcm).prebuffer.buffer == s.prebuffer.buffer
            + pcm,
{
}

/// A reset playout waits again for a first packet, and holds nothing.
pub proof fn law_a_reset_playout_starts_over(s: PlayoutState)
    ensures
        !s.rearmed().started,
        s.rearmed().first_ts is None,
        s.rearmed().prebuffer.buffer.len() == 0,
        s.rearmed().prebuffer.packets == 0,
        s.rearmed().prebuffer.threshold == s.prebuffer.threshold,
{
}

/// The wait ends at the start instant, or after two seconds where that is
/// further off; for one that has passed, or none, there is none.
pub proof fn law_the_wait_ends_at_the_start(target: u64, now: u64)
    ensures
        now <= target <= now + 2_000_000_000 ==> now + wait_for(Some(target), now) == target,
        target > now + 2_000_000_000 ==> wait_for(Some(target), now) == 2_000_000_000,
        target <= now ==> wait_for(Some(target), now) == 0,
        wait_for(None, now) == 0,
{
}

/// A position is told as the time played since the track's start, of the time
/// from its start to its end, also where the timestamps go round; past the end, or
/// without a rate, there is none.
pub proof fn law_a_position_is_of_its_track(
    track: Track,
    ts: u32,
    played: u32,
    total: u32,
    rate: u32,
)
    requires
        ts == track.start + played || ts + 0x1_0000_0000 == track.start + played,
        track.end == track.start + total || track.end + 0x1_0000_0000 == track.start + total,
    ensures
        rate != 0 && played <= total ==> extent_of(track, ts, rate) == Some(
            (time::frames_nanos(played, rate), time::frames_nanos(total, rate)),
        ),
        played > total || rate == 0 ==> extent_of(track, ts, rate) is None,
{
}

/// Every new second of a track is told, once; a second that was told is not told
/// again, and outside a track there is nothing to tell.
pub proof fn law_every_new_second_is_told(p: PositionState, track: Track, ts: u32, span: (int, int))
    requires
        extent_of(track, ts, p.rate) == Some(span),
    ensures
        p.reported != Some(span.0 / 1_000_000_000) ==> p.report(Some(track), ts) == Some(span)
            && p.after(Some(track), ts).reported == Some(span.0 / 1_000_000_000),
        p.reported == Some(span.0 / 1_000_000_000) ==> p.report(Some(track), ts) is None,
        p.report(None, ts) is None,
        p.after(None, ts) == p,
        p.after(Some(track), ts).rate == p.rate,
{
}

/// Silence is as many samples as a packet has, each nothing.
pub proof fn law_silence_is_silent(s: PlayerState)
    ensures
        s.silent().len() == s.silence,
        forall|i: int| 0 <= i < s.silence ==> #[trigger] s.silent()[i] == 0,
{
}

/// A flush throws away what was held back and makes the stream start over; it
/// does not forget what was told of the position. It is told as a flush.
pub proof fn law_a_flushed_player_starts_over(s: PlayerState)
    ensures
        !s.flushed().playout.started,
        s.flushed().playout.first_ts is None,
        s.flushed().playout.prebuffer.buffer.len() == 0,
        s.flushed().playout.prebuffer.packets == 0,
        s.flushed().playout.prebuffer.threshold == s.playout.prebuffer.threshold,
        s.flushed().silence == s.silence,
        s.flushed().position == s.position,
        flush_report() is Flushed,
{
}

/// A span is reported by an event of that position, and no span by none.
pub proof fn law_a_report_is_of_its_span(event: Option<Event>, elapsed: int, duration: int)
    ensures
        reports(event, Some((elapsed, duration))) ==> event is Some && event->0@
            == (EventContent::Progress { elapsed, duration }),
        reports(event, None) ==> event is None,
{
}

} // verus!
