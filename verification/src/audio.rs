//! The audio side of a stream: what arrives on the audio and control channels,
//! through decryption and the jitter buffer, to what the player gets.
//!
//! The host owns the sockets and the clock; it hands in datagrams, ticks and
//! flushes, and sends on what comes back.

use std::collections::HashMap;
use vstd::prelude::*;

use crate::clock::ClockModel;
use crate::jitter;
use crate::jitter::{seq_next, Delivery, JitterBuffer, JitterState, CAPACITY};
use crate::rtp;
use crate::rtp::{
    classify_control, decrypt_audio, looks_like_alac_stereo, parse_sync, parse_timing_reply,
    resend_request, AudioContent, AudioPacket, ControlKind,
};
use crate::session::StreamParams;

verus! {

/// How often the audio task services retransmit requests and forced skips, in
/// nanoseconds.
pub const SERVICE_INTERVAL_NS: u64 = 20_000_000;

/// Minimum spacing between resend requests for the same sequence number, in
/// nanoseconds.
pub const RESEND_BACKOFF_NS: u64 = 80_000_000;

/// A decrypted audio packet, on its way to the player (and to an observer).
#[derive(Debug, Clone)]
pub struct DecryptedAudio {
    /// RTP sequence number of the packet.
    pub sequence: u16,
    /// RTP timestamp (derived from the anchor).
    pub timestamp: u32,
    /// Whether the plaintext passes a basic ALAC stereo sanity check.
    pub looks_like_alac: bool,
    /// The decrypted ALAC frame, exactly as carried in the RTP payload.
    pub frame: Vec<u8>,
}

/// What the player gets next.
#[derive(Debug)]
pub enum Playable {
    /// A frame to decode and play.
    Audio(DecryptedAudio),
    /// A lost packet at this RTP timestamp: silence, to keep timing.
    Silence { sequence: u16, timestamp: u32 },
}

/// How many packets `seq` is after `first` on the 16-bit circle. The numbers
/// just before `first`, as far as a jitter buffer holds them, count as none.
pub open spec fn steps(seq: u16, first: u16) -> int {
    let ahead = if seq >= first {
        seq - first
    } else {
        seq - first + 0x1_0000
    };
    if ahead >= 0x1_0000 - jitter::CAPACITY {
        0
    } else {
        ahead
    }
}

/// The RTP timestamp of a delivered sequence number: timestamps advance by
/// `frames_per_packet` per sequence number from the anchor's.
pub open spec fn derived_ts(
    seq: u16,
    anchor: Option<(u16, u32)>,
    frames_per_packet: u32,
) -> u32 {
    match anchor {
        None => 0,
        Some((first, ts)) => ((ts + steps(seq, first) * frames_per_packet)
            % 0x1_0000_0000) as u32,
    }
}

fn steps_after(seq: u16, first: u16) -> (ahead: u64)
    ensures
        ahead == steps(seq, first),
{
    let ahead: u64 = if seq >= first {
        (seq - first) as u64
    } else {
        0x1_0000 - (first - seq) as u64
    };
    if ahead >= 0x1_0000 - CAPACITY as u64 {
        0
    } else {
        ahead
    }
}

/// The RTP timestamp of a delivered sequence number.
pub fn derive_ts(seq: u16, anchor: Option<(u16, u32)>, frames_per_packet: u32) -> (ts: u32)
    ensures
        ts == derived_ts(seq, anchor, frames_per_packet),
{
    match anchor {
        None => 0,
        Some((first, first_ts)) => {
            let ahead: u64 = steps_after(seq, first);
            assert(0 <= ahead * frames_per_packet <= 0x1_0000 * 0xffff_ffff) by (nonlinear_arith)
                requires
                    0 <= ahead <= 0x1_0000,
                    0 <= frames_per_packet <= 0xffff_ffff,
            ;
            ((first_ts as u64 + ahead * frames_per_packet as u64) % 0x1_0000_0000) as u32
        },
    }
}

/// The anchor once everything before `front` has been played: it moves along to
/// `front`, with the timestamp that `front` has, so that it never falls half a
/// circle behind. It waits where `front` has not reached it yet.
pub open spec fn moved_anchor(
    anchor: Option<(u16, u32)>,
    front: u16,
    frames_per_packet: u32,
) -> Option<(u16, u32)> {
    match anchor {
        Some((first, ts)) => if steps(front, first) > 0 {
            Some((front, derived_ts(front, anchor, frames_per_packet)))
        } else {
            anchor
        },
        None => None,
    }
}

fn move_anchor(anchor: Option<(u16, u32)>, front: u16, frames_per_packet: u32) -> (moved: Option<
    (u16, u32),
>)
    ensures
        moved == moved_anchor(anchor, front, frames_per_packet),
{
    match anchor {
        Some((first, ts)) => if steps_after(front, first) > 0 {
            Some((front, derive_ts(front, anchor, frames_per_packet)))
        } else {
            anchor
        },
        None => None,
    }
}

/// Whether enough time has passed since this sequence number was asked for, if
/// it was.
pub open spec fn may_ask(asked: Map<u16, u64>, seq: u16, now: u64) -> bool {
    !asked.dom().contains(seq) || now - asked[seq] >= RESEND_BACKOFF_NS
}

/// Those of the missing that may be asked for now, each once, in order.
pub open spec fn due_now(asked: Map<u16, u64>, missing: Seq<u16>, now: u64) -> Seq<u16>
    decreases missing.len(),
{
    if missing.len() == 0 {
        Seq::empty()
    } else {
        let before = due_now(asked, missing.drop_last(), now);
        if may_ask(asked, missing.last(), now) && !missing.drop_last().contains(missing.last()) {
            before.push(missing.last())
        } else {
            before
        }
    }
}

/// When each was last asked for, once those due now have been: nothing is kept
/// of what is no longer missing.
pub open spec fn asked_after(asked: Map<u16, u64>, missing: Seq<u16>, now: u64) -> Map<u16, u64> {
    Map::new(
        |s: u16| missing.contains(s),
        |s: u16|
            if may_ask(asked, s, now) {
                now
            } else {
                asked[s]
            },
    )
}

/// Rate-limits resend requests so that each missing sequence is asked for at
/// most once per [`RESEND_BACKOFF_NS`].
pub struct ResendTracker {
    last: HashMap<u16, u64>,
}

impl View for ResendTracker {
    type V = Map<u16, u64>;

    /// When each sequence number was last asked for.
    closed spec fn view(&self) -> Map<u16, u64> {
        self.last@
    }
}

impl Default for ResendTracker {
    fn default() -> (tracker: ResendTracker)
        ensures
            tracker@ == Map::<u16, u64>::empty(),
    {
        ResendTracker { last: HashMap::new() }
    }
}

impl ResendTracker {
    /// The subset of `missing` due for a (re)request now, recording the request
    /// time. Entries no longer missing are pruned.
    pub fn due(&mut self, missing: &[u16], now: u64) -> (due: Vec<u16>)
        ensures
            due@ == due_now(old(self)@, missing@, now),
            final(self)@ == asked_after(old(self)@, missing@, now),
    {
        broadcast use vstd::std_specs::hash::group_hash_axioms;

        let mut next: HashMap<u16, u64> = HashMap::new();
        let mut due: Vec<u16> = Vec::new();
        let mut i: usize = 0;
        assert(next@ =~= asked_after(self@, missing@.take(0), now));
        while i < missing.len()
            invariant
                i <= missing@.len(),
                self@ == old(self)@,
                next@ == asked_after(self@, missing@.take(i as int), now),
                due@ == due_now(self@, missing@.take(i as int), now),
            decreases missing@.len() - i,
        {
            let seq: u16 = missing[i];
            let ghost before = missing@.take(i as int);
            let ghost upto = missing@.take(i + 1);
            proof {
                assert(upto.drop_last() =~= before);
                assert(upto.last() == seq);
                assert forall|s: u16| #[trigger]
                    upto.contains(s) <==> before.contains(s) || s == seq by {
                    if before.contains(s) {
                        let k = choose|k: int| 0 <= k < before.len() && before[k] == s;
                        assert(upto[k] == s);
                    }
                    if s == seq {
                        assert(upto[i as int] == s);
                    }
                    if upto.contains(s) && s != seq {
                        let k = choose|k: int| 0 <= k < upto.len() && upto[k] == s;
                        assert(before[k] == s);
                    }
                }
            }
            if !next.contains_key(&seq) {
                match self.last.get(&seq) {
                    Some(t) => {
                        if now >= *t && now - *t >= RESEND_BACKOFF_NS {
                            next.insert(seq, now);
                            due.push(seq);
                        } else {
                            next.insert(seq, *t);
                        }
                    },
                    None => {
                        next.insert(seq, now);
                        due.push(seq);
                    },
                }
            }
            assert(next@ =~= asked_after(self@, upto, now));
            i += 1;
        }
        assert(missing@.take(i as int) =~= missing@);
        self.last = next;
        due
    }

    /// Forget every request.
    pub fn clear(&mut self)
        ensures
            final(self)@ == Map::<u16, u64>::empty(),
    {
        self.last.clear();
    }
}

/// Every missing packet is asked for: one that was never asked for, or last
/// 80 ms or more ago, is among those asked for now, whatever its number.
pub proof fn law_every_missing_packet_is_asked_for(
    asked: Map<u16, u64>,
    missing: Seq<u16>,
    now: u64,
    seq: u16,
)
    requires
        missing.contains(seq),
        !asked.dom().contains(seq) || now - asked[seq] >= 80_000_000,
    ensures
        due_now(asked, missing, now).contains(seq),
        asked_after(asked, missing, now).dom().contains(seq),
        asked_after(asked, missing, now)[seq] == now,
    decreases missing.len(),
{
    let before = missing.drop_last();
    let due = due_now(asked, before, now);
    if before.contains(seq) {
        law_every_missing_packet_is_asked_for(asked, before, now, seq);
        let k = choose|k: int| 0 <= k < due.len() && due[k] == seq;
        assert(due_now(asked, missing, now)[k] == seq);
    } else {
        let k = choose|k: int| 0 <= k < missing.len() && missing[k] == seq;
        if k < before.len() {
            assert(before[k] == seq);
        }
        assert(due_now(asked, missing, now)[due.len() as int] == seq);
    }
}

/// Nothing else is asked for: only what is missing, and was never asked for or
/// last 80 ms or more ago; and each packet once.
pub proof fn law_only_missing_packets_are_asked_for(
    asked: Map<u16, u64>,
    missing: Seq<u16>,
    now: u64,
    i: int,
    j: int,
)
    requires
        0 <= i < due_now(asked, missing, now).len(),
        0 <= j < due_now(asked, missing, now).len(),
    ensures
        ({
            let due = due_now(asked, missing, now);
            &&& missing.contains(due[i])
            &&& !asked.dom().contains(due[i]) || now - asked[due[i]] >= 80_000_000
            &&& i != j ==> due[i] != due[j]
        }),
    decreases missing.len(),
{
    let due = due_now(asked, missing, now);
    lemma_due_is_missing_and_ready(asked, missing, now, due[i]);
    let before = due_now(asked, missing.drop_last(), now);
    if i < before.len() && j < before.len() {
        law_only_missing_packets_are_asked_for(asked, missing.drop_last(), now, i, j);
    } else if i < before.len() {
        lemma_due_is_missing_and_ready(asked, missing.drop_last(), now, before[i]);
    } else if j < before.len() {
        lemma_due_is_missing_and_ready(asked, missing.drop_last(), now, before[j]);
    }
}

/// What a request remembers: of what is missing, when it was last asked for;
/// nothing of what is not.
pub proof fn law_requests_are_remembered(
    asked: Map<u16, u64>,
    missing: Seq<u16>,
    now: u64,
    seq: u16,
)
    ensures
        asked_after(asked, missing, now).dom().contains(seq) <==> missing.contains(seq),
        missing.contains(seq) ==> asked_after(asked, missing, now)[seq] == (if asked.dom().contains(
            seq,
        ) && now - asked[seq] < 80_000_000 {
            asked[seq]
        } else {
            now
        }),
{
}

/// A sequence number that was asked for is not asked for again before the
/// backoff has passed.
pub proof fn law_resend_requests_are_spaced(
    asked: Map<u16, u64>,
    missing: Seq<u16>,
    now: u64,
    later_missing: Seq<u16>,
    later: u64,
    seq: u16,
)
    requires
        due_now(asked, missing, now).contains(seq),
        now <= later < now + RESEND_BACKOFF_NS,
    ensures
        !due_now(asked_after(asked, missing, now), later_missing, later).contains(seq),
{
    lemma_due_is_missing_and_ready(asked, missing, now, seq);
    let after = asked_after(asked, missing, now);
    if due_now(after, later_missing, later).contains(seq) {
        lemma_due_is_missing_and_ready(after, later_missing, later, seq);
    }
}

proof fn lemma_due_is_missing_and_ready(
    asked: Map<u16, u64>,
    missing: Seq<u16>,
    now: u64,
    seq: u16,
)
    requires
        due_now(asked, missing, now).contains(seq),
    ensures
        missing.contains(seq),
        may_ask(asked, seq, now),
    decreases missing.len(),
{
    if missing.len() > 0 {
        let before = due_now(asked, missing.drop_last(), now);
        if before.contains(seq) {
            lemma_due_is_missing_and_ready(asked, missing.drop_last(), now, seq);
            let k = choose|k: int|
                0 <= k < missing.drop_last().len() && missing.drop_last()[k] == seq;
            assert(missing[k] == seq);
        } else {
            let due = due_now(asked, missing, now);
            let k = choose|k: int| 0 <= k < due.len() && due[k] == seq;
            if k < before.len() {
                assert(before[k] == seq);
            }
            assert(missing[missing.len() - 1] == seq);
        }
    }
}

/// What the audio side of a stream knows, as a mathematical value.
pub struct AudioState {
    pub params: StreamParams,
    pub jitter: JitterState,
    /// The sequence number and timestamp that the others are derived from: the
    /// first packet's, and then those of the next to play.
    pub anchor: Option<(u16, u32)>,
    /// When each missing packet was last asked for.
    pub asked: Map<u16, u64>,
}

impl AudioState {
    /// The frame that a payload carries: decrypted, if the stream is encrypted.
    pub open spec fn frame_of(self, payload: Seq<u8>) -> Seq<u8> {
        if self.params.encrypted {
            rtp::decrypted_audio(payload, self.params.key@, self.params.iv@)
        } else {
            payload
        }
    }

    /// The stream after a packet went into the jitter buffer.
    pub open spec fn received(self, content: AudioContent) -> AudioState {
        AudioState {
            jitter: self.jitter.inserted(content.sequence, self.frame_of(content.payload)),
            ..self
        }
    }

    /// The stream with its first packet noted.
    pub open spec fn anchored(self, content: AudioContent) -> AudioState {
        AudioState {
            anchor: if self.anchor is None {
                Some((content.sequence, content.timestamp))
            } else {
                self.anchor
            },
            ..self
        }
    }

    /// Whether `out` is what is ready to play, in order.
    pub open spec fn plays(self, out: Seq<Playable>) -> bool {
        &&& self.jitter.ready_count(out.len() as int)
        &&& forall|i: int| 0 <= i < out.len() ==> self.plays_at(i, #[trigger] out[i])
    }

    /// Whether `p` is what the packet `i` places after the front plays as.
    pub open spec fn plays_at(self, i: int, p: Playable) -> bool {
        let s = jitter::seq_plus(self.jitter.next->0, i);
        let ts = derived_ts(s, self.anchor, self.params.alac.frames_per_packet);
        match p {
            Playable::Audio(audio) => {
                &&& self.jitter.held.dom().contains(s)
                &&& audio.sequence == s
                &&& audio.timestamp == ts
                &&& audio.frame@ == self.jitter.held[s]
                &&& audio.looks_like_alac == (audio.frame@.len() > 0 && audio.frame@[0] as int
                    / 0x20 == 1)
            },
            Playable::Silence { sequence, timestamp } => {
                &&& !self.jitter.held.dom().contains(s)
                &&& sequence == s
                &&& timestamp == ts
            },
        }
    }

    /// The stream once `n` packets have gone to the player.
    pub open spec fn played(self, n: int) -> AudioState {
        AudioState {
            jitter: self.jitter.advanced(n),
            anchor: if n == 0 {
                self.anchor
            } else {
                moved_anchor(
                    self.anchor,
                    jitter::seq_plus(self.jitter.next->0, n),
                    self.params.alac.frames_per_packet,
                )
            },
            ..self
        }
    }

    /// The missing packets to ask for now.
    pub open spec fn due(self, now: u64) -> Seq<u16> {
        due_now(self.asked, self.jitter.gaps(), now)
    }

    /// The stream once they have been asked for.
    pub open spec fn serviced(self, now: u64) -> AudioState {
        if self.jitter.gaps().len() == 0 {
            self
        } else {
            AudioState { asked: asked_after(self.asked, self.jitter.gaps(), now), ..self }
        }
    }

    /// The stream after a flush to `next`.
    pub open spec fn flushed(self, next: Option<u16>) -> AudioState {
        AudioState {
            jitter: self.jitter.reset_to(next),
            anchor: None,
            asked: Map::empty(),
            ..self
        }
    }
}

/// What happens to the audio side of a stream.
pub enum AudioInput {
    /// A packet arrived on the audio channel.
    Packet(AudioContent),
    /// A packet that was asked for arrived on the control channel.
    Resend(AudioContent),
    /// The service tick at this time.
    Tick(u64),
}

impl AudioState {
    /// The stream with this input taken in, before anything is played.
    pub open spec fn heard(self, input: AudioInput) -> AudioState {
        match input {
            AudioInput::Packet(content) => self.anchored(content).received(content),
            AudioInput::Resend(content) => self.received(content),
            AudioInput::Tick(_) => self,
        }
    }

    /// The stream once `n` packets have been played for this input.
    pub open spec fn after(self, input: AudioInput, n: int) -> AudioState {
        match input {
            AudioInput::Tick(now) => self.heard(input).played(n).serviced(now),
            _ => self.heard(input).played(n),
        }
    }

    /// Whether the next packet to play is the one that timestamps are derived
    /// from.
    pub open spec fn in_step(self) -> bool {
        &&& self.jitter.wf()
        &&& self.anchor is Some
        &&& self.jitter.next == Some((self.anchor->0).0)
    }
}

/// The stream after some inputs, each with what was played for it.
pub open spec fn after_all(s: AudioState, inputs: Seq<AudioInput>, outs: Seq<Seq<Playable>>) -> AudioState
    decreases inputs.len(),
{
    if inputs.len() == 0 {
        s
    } else {
        after_all(s, inputs.drop_last(), outs.drop_last()).after(
            inputs.last(),
            outs.last().len() as int,
        )
    }
}

/// Whether `outs` is what was played for these inputs, one after another.
pub open spec fn plays_all(s: AudioState, inputs: Seq<AudioInput>, outs: Seq<Seq<Playable>>) -> bool
    decreases inputs.len(),
{
    if inputs.len() == 0 {
        outs.len() == 0
    } else {
        &&& outs.len() == inputs.len()
        &&& plays_all(s, inputs.drop_last(), outs.drop_last())
        &&& after_all(s, inputs.drop_last(), outs.drop_last()).heard(inputs.last()).plays(
            outs.last(),
        )
    }
}

/// Some runs of what is played as one.
pub open spec fn all_played(outs: Seq<Seq<Playable>>) -> Seq<Playable>
    decreases outs.len(),
{
    if outs.len() == 0 {
        Seq::empty()
    } else {
        all_played(outs.drop_last()) + outs.last()
    }
}

/// The sequence number and timestamp of the packet `n` after `from`.
pub open spec fn place_after(from: (u16, u32), n: int, frames_per_packet: u32) -> (u16, u32) {
    (
        jitter::seq_plus(from.0, n),
        ((from.1 + n * frames_per_packet) % 0x1_0000_0000) as u32,
    )
}

/// The sequence number and timestamp of what is played.
pub open spec fn place_of(p: Playable) -> (u16, u32) {
    match p {
        Playable::Audio(audio) => (audio.sequence, audio.timestamp),
        Playable::Silence { sequence, timestamp } => (sequence, timestamp),
    }
}

/// Whether `out` goes on packet by packet from `from`: sequence numbers advance
/// by one, timestamps by the frames of a packet.
pub open spec fn paced(out: Seq<Playable>, from: (u16, u32), frames_per_packet: u32) -> bool {
    forall|i: int|
        0 <= i < out.len() ==> place_of(#[trigger] out[i]) == place_after(
            from,
            i,
            frames_per_packet,
        )
}

/// Timestamps advance by `frames_per_packet` per sequence number from the
/// anchor's, across the wrap of either; only the 512 numbers just before the
/// anchor have its own.
pub proof fn law_a_timestamp_is_counted_from_the_anchor(
    first: u16,
    ts: u32,
    frames: u32,
    ahead: int,
)
    requires
        0 <= ahead < 0x1_0000,
    ensures
        ahead < 0xFE00 ==> derived_ts(
            ((first + ahead) % 0x1_0000) as u16,
            Some((first, ts)),
            frames,
        ) == (ts + ahead * frames) % 0x1_0000_0000,
        ahead >= 0xFE00 ==> derived_ts(
            ((first + ahead) % 0x1_0000) as u16,
            Some((first, ts)),
            frames,
        ) == ts,
{
    assert(0 * frames == 0);
    assert(steps(((first + ahead) % 0x1_0000) as u16, first) == if ahead < 0xFE00 {
        ahead
    } else {
        0
    });
}

/// What is held plays as the frame that is held, with its number; what is not
/// plays as silence, to keep the time.
pub proof fn law_losses_play_as_silence(s: AudioState, n: u16, out: Seq<Playable>, i: int)
    requires
        s.jitter.next == Some(n),
        s.plays(out),
        0 <= i < out.len(),
    ensures
        ({
            let seq = ((n + i) % 0x1_0000) as u16;
            match out[i] {
                Playable::Audio(audio) => {
                    &&& s.jitter.held.dom().contains(seq)
                    &&& audio.sequence == seq
                    &&& audio.frame@ == s.jitter.held[seq]
                    &&& audio.looks_like_alac == (audio.frame@.len() > 0 && 0x20 <= audio.frame@[0]
                        < 0x40)
                },
                Playable::Silence { sequence, .. } => {
                    &&& !s.jitter.held.dom().contains(seq)
                    &&& sequence == seq
                },
            }
        }),
{
    assert(s.plays_at(i, out[i]));
}

/// The first packet of a stream plays at once, alone, as what it carries: its
/// payload as it is where the stream is not encrypted, and decrypted where it
/// is.
pub proof fn law_the_first_packet_plays_at_once(
    s: AudioState,
    content: AudioContent,
    out: Seq<Playable>,
)
    requires
        s.jitter.wf(),
        s.jitter.max_lead > 0,
        s.anchor is None,
        s.jitter.next is None,
        s.heard(AudioInput::Packet(content)).plays(out),
    ensures
        out.len() == 1,
        out[0] matches Playable::Audio(audio) && {
            &&& audio.sequence == content.sequence
            &&& audio.timestamp == content.timestamp
            &&& !s.params.encrypted ==> audio.frame@ == content.payload
            &&& s.params.encrypted ==> audio.frame@ == rtp::decrypted_audio(
                content.payload,
                s.params.key@,
                s.params.iv@,
            )
        },
{
    let h = s.heard(AudioInput::Packet(content));
    let n = content.sequence;
    let k = out.len() as int;
    jitter::lemma_inserted_wf(s.jitter, n, s.frame_of(content.payload));
    assert(h.jitter.held =~= map![n => s.frame_of(content.payload)]);
    assert(jitter::seq_plus(n, 0) == n);
    assert(h.jitter.ready(0));
    assert(!h.jitter.ready(1)) by {
        assert(jitter::seq_plus(n, 1) != n);
    }
    if k == 0 {
        assert(!h.jitter.ready(0));
    }
    if k > 1 {
        assert(h.jitter.ready(1));
    }
    assert(h.plays_at(0, out[0]));
    assert(0 * s.params.alac.frames_per_packet == 0);
}

/// A flush forgets what was buffered, where timestamps were counted from and
/// what was asked for, and goes on where it is told.
pub proof fn law_a_flush_forgets_the_stream(s: AudioState, next: Option<u16>, seq: u16)
    ensures
        s.flushed(next).jitter.next == next,
        s.flushed(next).jitter.highest is None,
        !s.flushed(next).jitter.held.dom().contains(seq),
        s.flushed(next).jitter.max_lead == s.jitter.max_lead,
        s.flushed(next).anchor is None,
        !s.flushed(next).asked.dom().contains(seq),
        s.flushed(next).params == s.params,
{
}

/// After a flush to a packet, nothing from before it plays: what is stored and
/// played from then on starts at that packet.
pub proof fn law_nothing_stale_plays_after_a_flush(
    s: AudioState,
    next: u16,
    behind: int,
    content: AudioContent,
)
    requires
        1 <= behind <= 0x8000,
        content.sequence == (next - behind + 0x1_0000) % 0x1_0000,
    ensures
        s.flushed(Some(next)).heard(AudioInput::Packet(content)).jitter == s.flushed(
            Some(next),
        ).jitter,
{
}

/// A request is for a retransmission, and names the packet that it asks for, high
/// byte first, and that it asks for one.
pub proof fn law_a_request_names_the_packet(request: [u8; 8], seq: u16)
    requires
        asks_for(request, seq),
    ensures
        request@ == seq![
            0x80u8,
            0xD5,
            0,
            1,
            (seq / 256) as u8,
            (seq % 256) as u8,
            0,
            1,
        ],
{
    assert(request@.take(4)[0] == request@[0]);
    assert(request@.take(4)[1] == request@[1]);
    assert(request@.take(4)[2] == request@[2]);
    assert(request@.take(4)[3] == request@[3]);
    assert(request@ =~= seq![
        0x80u8,
        0xD5,
        0,
        1,
        (seq / 256) as u8,
        (seq % 256) as u8,
        0,
        1,
    ]);
}

/// The first packet of a stream, or the first after a flush that is the one that
/// the flush asked for, sets the pace of what follows.
pub proof fn law_the_first_packet_sets_the_pace(s: AudioState, content: AudioContent)
    requires
        s.jitter.wf(),
        s.anchor is None,
        s.jitter.next is None || s.jitter.next == Some(content.sequence),
    ensures
        s.heard(AudioInput::Packet(content)).in_step(),
        s.heard(AudioInput::Packet(content)).anchor == Some((content.sequence, content.timestamp)),
{
    jitter::lemma_inserted_wf(s.jitter, content.sequence, s.frame_of(content.payload));
}

proof fn lemma_pace(s: AudioState, input: AudioInput, out: Seq<Playable>)
    requires
        s.in_step(),
        s.heard(input).plays(out),
    ensures
        paced(out, s.anchor->0, s.params.alac.frames_per_packet),
        s.after(input, out.len() as int).in_step(),
        s.after(input, out.len() as int).params == s.params,
        s.after(input, out.len() as int).anchor == Some(
            place_after(s.anchor->0, out.len() as int, s.params.alac.frames_per_packet),
        ),
{
    let h = s.heard(input);
    let n = out.len() as int;
    let frames = s.params.alac.frames_per_packet;
    let (first, ts) = s.anchor->0;
    match input {
        AudioInput::Packet(c) => {
            jitter::lemma_inserted_wf(s.jitter, c.sequence, s.frame_of(c.payload));
        },
        AudioInput::Resend(c) => {
            jitter::lemma_inserted_wf(s.jitter, c.sequence, s.frame_of(c.payload));
        },
        AudioInput::Tick(_) => {},
    }
    assert(h.in_step() && h.anchor == s.anchor);
    jitter::lemma_advanced_wf(h.jitter, n);
    assert forall|i: int| 0 <= i < out.len() implies place_of(#[trigger] out[i]) == place_after(
        s.anchor->0,
        i,
        frames,
    ) by {
        assert(h.plays_at(i, out[i]));
        assert(steps(jitter::seq_plus(first, i), first) == i);
    }
    if n > 0 {
        assert(steps(jitter::seq_plus(first, n), first) == n);
    } else {
        lemma_no_steps(s.anchor->0, frames);
    }
}

proof fn lemma_no_steps(from: (u16, u32), frames: u32)
    ensures
        place_after(from, 0, frames) == from,
{
    assert(0 * frames == 0);
}

proof fn lemma_steps_add(from: (u16, u32), a: int, b: int, frames: u32)
    ensures
        place_after(place_after(from, a, frames), b, frames) == place_after(from, a + b, frames),
{
    assert((a + b) * frames == a * frames + b * frames) by (nonlinear_arith);
    vstd::arithmetic::div_mod::lemma_add_mod_noop_right(b, from.0 + a, 0x1_0000);
    vstd::arithmetic::div_mod::lemma_add_mod_noop_right(
        b * frames,
        from.1 + a * frames,
        0x1_0000_0000,
    );
}

proof fn lemma_paces_join(a: Seq<Playable>, b: Seq<Playable>, from: (u16, u32), frames: u32)
    requires
        paced(a, from, frames),
        paced(b, place_after(from, a.len() as int, frames), frames),
    ensures
        paced(a + b, from, frames),
{
    let n = a.len() as int;
    assert forall|i: int| 0 <= i < (a + b).len() implies place_of(#[trigger] (a + b)[i])
        == place_after(from, i, frames) by {
        if i < n {
            assert((a + b)[i] == a[i]);
        } else {
            assert((a + b)[i] == b[i - n]);
            lemma_steps_add(from, n, i - n, frames);
        }
    }
}

/// Where a stream that was in step is after some more has been played.
pub open spec fn reaches(s: AudioState, later: AudioState, played: Seq<Playable>) -> bool {
    let frames = s.params.alac.frames_per_packet;
    &&& later.in_step()
    &&& later.params == s.params
    &&& later.anchor == Some(place_after(s.anchor->0, played.len() as int, frames))
    &&& paced(played, s.anchor->0, frames)
}

proof fn lemma_reaches_join(
    s: AudioState,
    mid: AudioState,
    played: Seq<Playable>,
    input: AudioInput,
    out: Seq<Playable>,
)
    requires
        reaches(s, mid, played),
        mid.heard(input).plays(out),
    ensures
        reaches(s, mid.after(input, out.len() as int), played + out),
{
    let frames = s.params.alac.frames_per_packet;
    lemma_pace(mid, input, out);
    lemma_paces_join(played, out, s.anchor->0, frames);
    lemma_steps_add(s.anchor->0, played.len() as int, out.len() as int, frames);
}

/// On a stream of any length, whatever arrives and in whatever order, what is
/// played goes on packet by packet from where the stream is in step: sequence
/// numbers advance by one and timestamps by the frames of a packet, across
/// losses and across the wrap of either.
pub proof fn law_timestamps_advance_by_the_packet(
    s: AudioState,
    inputs: Seq<AudioInput>,
    outs: Seq<Seq<Playable>>,
)
    requires
        s.in_step(),
        plays_all(s, inputs, outs),
    ensures
        paced(all_played(outs), s.anchor->0, s.params.alac.frames_per_packet),
        reaches(s, after_all(s, inputs, outs), all_played(outs)),
    decreases inputs.len(),
{
    if inputs.len() == 0 {
        lemma_no_steps(s.anchor->0, s.params.alac.frames_per_packet);
    } else {
        law_timestamps_advance_by_the_packet(s, inputs.drop_last(), outs.drop_last());
        lemma_reaches_join(
            s,
            after_all(s, inputs.drop_last(), outs.drop_last()),
            all_played(outs.drop_last()),
            inputs.last(),
            outs.last(),
        );
    }
}

/// The audio side of one stream.
pub struct AudioReceiver {
    params: StreamParams,
    jitter: JitterBuffer,
    resend: ResendTracker,
    anchor: Option<(u16, u32)>,
}

impl View for AudioReceiver {
    type V = AudioState;

    closed spec fn view(&self) -> AudioState {
        AudioState {
            params: self.params,
            jitter: self.jitter@,
            anchor: self.anchor,
            asked: self.resend@,
        }
    }
}

impl AudioReceiver {
    /// The jitter buffer is sound.
    pub closed spec fn wf(&self) -> bool {
        self.jitter.wf()
    }

    /// What a sound representation stands for is sound.
    pub proof fn lemma_wf(&self)
        requires
            self.wf(),
        ensures
            self@.jitter.wf(),
    {
        self.jitter.lemma_wf();
    }

    /// The audio side of a stream that starts now.
    pub fn new(params: StreamParams) -> (receiver: AudioReceiver)
        ensures
            receiver.wf(),
            receiver@.params == params,
            receiver@.jitter.next is None,
            receiver@.jitter.highest is None,
            receiver@.jitter.held == Map::<u16, Seq<u8>>::empty(),
            receiver@.jitter.max_lead == jitter::MAX_LEAD,
            receiver@.jitter.max_lead == 128,
            receiver@.anchor is None,
            receiver@.asked == Map::<u16, u64>::empty(),
    {
        AudioReceiver {
            params,
            jitter: JitterBuffer::default(),
            resend: ResendTracker::default(),
            anchor: None,
        }
    }

    fn frame(&self, payload: &[u8]) -> (frame: Vec<u8>)
        ensures
            frame@ == self@.frame_of(payload@),
    {
        if self.params.encrypted {
            decrypt_audio(payload, &self.params.key, &self.params.iv)
        } else {
            vstd::slice::slice_to_vec(payload)
        }
    }

    /// A datagram arrived on the audio channel: what can play now. A datagram
    /// that is no audio changes nothing.
    pub fn on_datagram(&mut self, datagram: &[u8]) -> (out: Vec<Playable>)
        requires
            old(self).wf(),
        ensures
            final(self).wf(),
            match rtp::audio_content(datagram@) {
                Some(content) => {
                    let state = old(self)@.anchored(content).received(content);
                    state.plays(out@) && final(self)@ == state.played(out@.len() as int)
                },
                None => out@.len() == 0 && final(self)@ == old(self)@,
            },
    {
        match AudioPacket::parse(datagram) {
            None => Vec::new(),
            Some(packet) => {
                if self.anchor.is_none() {
                    self.anchor = Some((packet.sequence, packet.timestamp));
                }
                let frame = self.frame(packet.payload);
                self.jitter.insert(packet.sequence, frame);
                self.drain_deliveries()
            },
        }
    }

    /// A packet that was asked for arrived on the control channel: what can play
    /// now. It never serves as the first packet of the stream.
    pub fn on_resend(&mut self, datagram: &[u8]) -> (out: Vec<Playable>)
        requires
            old(self).wf(),
        ensures
            final(self).wf(),
            match rtp::audio_content(datagram@) {
                Some(content) => {
                    let state = old(self)@.received(content);
                    state.plays(out@) && final(self)@ == state.played(out@.len() as int)
                },
                None => out@.len() == 0 && final(self)@ == old(self)@,
            },
    {
        match AudioPacket::parse(datagram) {
            None => Vec::new(),
            Some(packet) => {
                let frame = self.frame(packet.payload);
                self.jitter.insert(packet.sequence, frame);
                self.drain_deliveries()
            },
        }
    }

    /// The service tick: what can play now, and the resend requests to send to
    /// the client, one for each missing packet that is due.
    pub fn on_tick(&mut self, now: u64) -> (out: (Vec<Playable>, Vec<[u8; 8]>))
        requires
            old(self).wf(),
        ensures
            final(self).wf(),
            old(self)@.plays(out.0@),
            final(self)@ == old(self)@.played(out.0@.len() as int).serviced(now),
            ask_for(out.1@, old(self)@.played(out.0@.len() as int).due(now)),
    {
        let playable = self.drain_deliveries();
        let missing = self.jitter.missing();
        let mut requests: Vec<[u8; 8]> = Vec::new();
        if missing.len() == 0 {
            return (playable, requests);
        }
        let due = self.resend.due(missing.as_slice(), now);
        let mut i: usize = 0;
        while i < due.len()
            invariant
                i <= due@.len(),
                requests@.len() == i,
                ask_for(requests@, due@.take(i as int)),
            decreases due@.len() - i,
        {
            requests.push(resend_request(due[i], 1));
            i += 1;
        }
        assert(due@.take(i as int) =~= due@);
        (playable, requests)
    }

    /// A flush: buffered audio goes, and the stream goes on at `next` (or at
    /// whatever comes next).
    pub fn on_flush(&mut self, next: Option<u16>)
        requires
            old(self).wf(),
        ensures
            final(self).wf(),
            final(self)@ == old(self)@.flushed(next),
    {
        self.jitter.reset(next);
        self.resend.clear();
        self.anchor = None;
    }

    /// Release ready packets from the jitter buffer to the player, concealing
    /// losses with silence.
    fn drain_deliveries(&mut self) -> (out: Vec<Playable>)
        requires
            old(self).wf(),
        ensures
            final(self).wf(),
            old(self)@.plays(out@),
            final(self)@ == old(self)@.played(out@.len() as int),
    {
        let frames_per_packet: u32 = self.params.alac.frames_per_packet;
        let anchor: Option<(u16, u32)> = self.anchor;
        let ghost start = self@;
        let deliveries = self.jitter.pop_ready();
        let ghost all = deliveries@;
        let mut out: Vec<Playable> = Vec::new();
        let mut front: Option<u16> = None;
        for delivery in it: deliveries
            invariant
                it.seq() == all,
                out@.len() == it.index(),
                front == (if it.index() == 0 {
                    None
                } else {
                    Some(jitter::seq_plus(start.jitter.next->0, it.index()))
                }),
                start.anchor == anchor,
                start.params.alac.frames_per_packet == frames_per_packet,
                forall|i: int| 0 <= i < all.len() ==> start.jitter.delivers(i, #[trigger] all[i]),
                forall|i: int| 0 <= i < out@.len() ==> start.plays_at(i, #[trigger] out@[i]),
        {
            assert(start.jitter.delivers(it.index(), all[it.index()]));
            match delivery {
                Delivery::Packet { seq, frame } => {
                    front = Some(seq_next(seq));
                    let timestamp: u32 = derive_ts(seq, anchor, frames_per_packet);
                    let looks_like_alac = looks_like_alac_stereo(frame.as_slice());
                    out.push(
                        Playable::Audio(
                            DecryptedAudio { sequence: seq, timestamp, looks_like_alac, frame },
                        ),
                    );
                },
                Delivery::Lost { seq } => {
                    front = Some(seq_next(seq));
                    let timestamp: u32 = derive_ts(seq, anchor, frames_per_packet);
                    out.push(Playable::Silence { sequence: seq, timestamp });
                },
            }
        }
        if let Some(front) = front {
            self.anchor = move_anchor(anchor, front, frames_per_packet);
        }
        out
    }
}

/// A stream that has begun makes of a retransmitted packet what it would have
/// made of the packet itself.
pub proof fn law_a_resend_fills_the_gap(s: AudioState, header: Seq<u8>, packet: Seq<u8>)
    requires
        s.anchor is Some,
        header.len() == 4,
        rtp::payload_type(header) == rtp::PT_RESEND,
        packet.len() >= 12,
        rtp::payload_type(packet) == rtp::PT_AUDIO,
        rtp::audio_content(packet) is Some,
    ensures
        rtp::audio_content(header + packet) is Some,
        s.received(rtp::audio_content(header + packet)->0) == s.anchored(
            rtp::audio_content(packet)->0,
        ).received(rtp::audio_content(packet)->0),
{
    rtp::law_a_resend_carries_the_packet(header, packet);
}

/// Whether a datagram asks for one packet, `seq`.
pub open spec fn asks_for(request: [u8; 8], seq: u16) -> bool {
    &&& request@.take(4) == seq![0x80u8, 0xD5, 0x00, 0x01]
    &&& rtp::be16(request@, 4) == seq
    &&& rtp::be16(request@, 6) == 1
}

/// Whether some datagrams ask for these packets, one each, in order.
pub open spec fn ask_for(requests: Seq<[u8; 8]>, packets: Seq<u16>) -> bool {
    &&& requests.len() == packets.len()
    &&& forall|i: int| 0 <= i < packets.len() ==> asks_for(#[trigger] requests[i], packets[i])
}

/// What to do with a datagram that arrived on the control channel.
#[derive(Debug, Clone, Copy, PartialEq, Eq, Structural)]
pub enum ControlAction {
    /// It was a sync packet; the clock model has its anchor.
    Synced,
    /// It is a retransmitted packet: hand it to the audio task, which owns the
    /// session key and the jitter buffer.
    Forward,
    /// It is of no interest.
    Ignore,
}

/// Read the control channel: a sync packet anchors the clock model; a sender
/// answers resend requests here, so a retransmitted packet goes to the audio
/// task.
pub fn on_control(datagram: &[u8], clock: &mut ClockModel) -> (action: ControlAction)
    requires
        old(clock).wf(),
    ensures
        final(clock).wf(),
        action == (if rtp::is_sync(datagram@) {
            ControlAction::Synced
        } else if datagram@.len() >= 2 && rtp::payload_type(datagram@) == 0x56 {
            ControlAction::Forward
        } else {
            ControlAction::Ignore
        }),
        final(clock)@ == (if rtp::is_sync(datagram@) {
            crate::clock::ClockState {
                anchor: Some(
                    (
                        rtp::sync_info(datagram@).remote_time_ns,
                        rtp::sync_info(datagram@).rtp_at_dac,
                    ),
                ),
                ..old(clock)@
            }
        } else {
            old(clock)@
        }),
{
    if let Some(sync) = parse_sync(datagram) {
        clock.set_anchor(sync.remote_time_ns, sync.rtp_at_dac);
        return ControlAction::Synced;
    }
    match classify_control(datagram) {
        Some(ControlKind::RetransmitResponse) => ControlAction::Forward,
        _ => ControlAction::Ignore,
    }
}

/// How long to wait after the `n`th timing request before the next, in
/// nanoseconds: an initial fast burst converges quickly, then it settles to
/// every 3 s.
pub fn timing_interval_ns(n: u64) -> (interval: u64)
    ensures
        interval == (if n <= 3 {
            300_000_000u64
        } else {
            3_000_000_000u64
        }),
{
    if n <= 3 {
        300_000_000
    } else {
        3_000_000_000
    }
}

/// Read the timing channel: fold a reply to the request that left at
/// `departure_ns` into the clock model. Anything else is ignored.
pub fn on_timing(datagram: &[u8], departure_ns: u64, arrival_ns: u64, clock: &mut ClockModel)
    requires
        old(clock).wf(),
    ensures
        final(clock).wf(),
        final(clock)@.sample_rate == old(clock)@.sample_rate,
        final(clock)@.anchor == old(clock)@.anchor,
        final(clock)@.samples == (if datagram@.len() >= 32 && rtp::payload_type(datagram@) == 0x53
            && crate::clock::exchange_ok(
            departure_ns,
            rtp::ntp_at(datagram@, 16) as u64,
            rtp::ntp_at(datagram@, 24) as u64,
            arrival_ns,
        ) {
            crate::clock::windowed(
                old(clock)@.samples,
                crate::clock::measured(
                    departure_ns,
                    rtp::ntp_at(datagram@, 16) as u64,
                    rtp::ntp_at(datagram@, 24) as u64,
                    arrival_ns,
                ),
            )
        } else {
            old(clock)@.samples
        }),
{
    if let Some(reply) = parse_timing_reply(datagram) {
        clock.add_timing(departure_ns, reply.receive_ns, reply.transmit_ns, arrival_ns);
    }
}

/// A tick asks for every packet that is missing between the front of the stream
/// and the highest stored packet, unless it was asked for less than 80 ms ago, and
/// remembers that it did.
pub proof fn law_a_tick_asks_for_the_missing(
    s: AudioState,
    n: u16,
    h: u16,
    seq: u16,
    now: u64,
)
    requires
        s.jitter.wf(),
        s.jitter.next == Some(n),
        s.jitter.highest == Some(h),
        0 <= jitter::seq_distance(seq, n) <= jitter::seq_distance(h, n),
        !s.jitter.held.dom().contains(seq),
        !s.asked.dom().contains(seq) || now - s.asked[seq] >= 80_000_000,
    ensures
        s.due(now).contains(seq),
        s.serviced(now).asked.dom().contains(seq),
        s.serviced(now).asked[seq] == now,
        s.serviced(now).jitter == s.jitter,
        s.serviced(now).anchor == s.anchor,
        s.serviced(now).params == s.params,
{
    jitter::law_the_missing_are_those_not_held(s.jitter, n, h, seq);
    law_every_missing_packet_is_asked_for(s.asked, s.jitter.gaps(), now, seq);
}

/// A tick asks for nothing that is held, that lies behind the front, or that lies
/// beyond the highest stored packet.
pub proof fn law_a_tick_asks_for_nothing_else(s: AudioState, n: u16, h: u16, now: u64, i: int)
    requires
        s.jitter.wf(),
        s.jitter.next == Some(n),
        s.jitter.highest == Some(h),
        0 <= i < s.due(now).len(),
    ensures
        !s.jitter.held.dom().contains(s.due(now)[i]),
        0 <= jitter::seq_distance(s.due(now)[i], n) <= jitter::seq_distance(h, n),
        !s.asked.dom().contains(s.due(now)[i]) || now - s.asked[s.due(now)[i]] >= 80_000_000,
{
    law_only_missing_packets_are_asked_for(s.asked, s.jitter.gaps(), now, i, i);
    jitter::law_the_missing_are_those_not_held(s.jitter, n, h, s.due(now)[i]);
}

/// A stream that is encrypted is decrypted with its own key and IV, and one that
/// is not is played as it comes.
pub proof fn law_frames_are_decrypted_where_the_stream_is(
    s: AudioState,
    blocks: Seq<u8>,
    rest: Seq<u8>,
    n: nat,
)
    requires
        blocks.len() == 16 * n,
        n > 0,
        rest.len() < 16,
    ensures
        s.params.encrypted ==> s.frame_of(blocks + rest) == rtp::aes_cbc_decrypt(
            s.params.key@,
            s.params.iv@,
            blocks,
        ) + rest,
        !s.params.encrypted ==> s.frame_of(blocks + rest) == blocks + rest,
{
    rtp::law_every_whole_block_is_decrypted(blocks, rest, n, s.params.key@, s.params.iv@);
}

/// A packet is kept under its own number, as its frame; the first packet of a
/// stream anchors its timestamps, and no later one and no retransmission does.
pub proof fn law_a_packet_is_kept_under_its_number(
    s: AudioState,
    n: u16,
    ahead: int,
    content: AudioContent,
)
    requires
        s.jitter.wf(),
        s.jitter.next == Some(n),
        0 <= ahead < 512,
        content.sequence == (n + ahead) % 0x1_0000,
    ensures
        ({
            let live = s.heard(AudioInput::Packet(content));
            let resent = s.heard(AudioInput::Resend(content));
            &&& live.jitter.held.dom().contains(content.sequence)
            &&& live.jitter.held[content.sequence] == s.frame_of(content.payload)
            &&& live.jitter.next == Some(n)
            &&& live.jitter == resent.jitter
            &&& resent.anchor == s.anchor
            &&& s.anchor is Some ==> live.anchor == s.anchor
            &&& s.anchor is None ==> live.anchor == Some((content.sequence, content.timestamp))
            &&& live.asked == s.asked
            &&& resent.asked == s.asked
            &&& live.params == s.params
            &&& resent.params == s.params
        }),
        forall|now: u64| #[trigger] s.heard(AudioInput::Tick(now)) == s,
{
    jitter::law_a_packet_in_reach_is_kept(s.jitter, n, ahead, s.frame_of(content.payload));
}

/// What comes out is dated from the anchor at the front of the stream: each packet
/// a packet's length after the one before it, round the 32-bit circle, also where
/// packets were lost between.
pub proof fn law_deliveries_are_dated_from_the_front(
    s: AudioState,
    n: u16,
    ts: u32,
    out: Seq<Playable>,
    i: int,
)
    requires
        s.jitter.next == Some(n),
        s.anchor == Some((n, ts)),
        s.plays(out),
        0 <= i < out.len(),
        i < 0xFE00,
    ensures
        ({
            let due = ((ts + i * s.params.alac.frames_per_packet) % 0x1_0000_0000) as u32;
            match out[i] {
                Playable::Audio(audio) => audio.timestamp == due,
                Playable::Silence { timestamp, .. } => timestamp == due,
            }
        }),
{
    assert(s.plays_at(i, out[i]));
    law_a_timestamp_is_counted_from_the_anchor(n, ts, s.params.alac.frames_per_packet, i);
    assert(jitter::seq_plus(n, i) == ((n + i) % 0x1_0000) as u16);
}

/// After `k` packets have come out, the front of the stream and its anchor have
/// both moved on by `k` packets.
pub proof fn law_the_anchor_keeps_up_with_the_front(s: AudioState, n: u16, ts: u32, k: int)
    requires
        s.jitter.wf(),
        s.jitter.next == Some(n),
        s.anchor == Some((n, ts)),
        s.jitter.ready_count(k),
        0 < k < 0xFE00,
    ensures
        ({
            let next = ((n + k) % 0x1_0000) as u16;
            &&& s.played(k).jitter.next == Some(next)
            &&& s.played(k).anchor == Some(
                (
                    next,
                    ((ts + k * s.params.alac.frames_per_packet) % 0x1_0000_0000) as u32,
                ),
            )
            &&& s.played(k).params == s.params
            &&& s.played(k).asked == s.asked
        }),
        s.played(0).anchor == s.anchor,
{
    law_a_timestamp_is_counted_from_the_anchor(n, ts, s.params.alac.frames_per_packet, k);
    jitter::law_a_release_keeps_the_rest(s.jitter, n, k, n);
    assert(jitter::seq_plus(n, k) == ((n + k) % 0x1_0000) as u16);
}

/// Each packet that is asked for has a request of its own, in order, that names
/// it.
pub proof fn law_each_missing_packet_has_its_request(
    requests: Seq<[u8; 8]>,
    packets: Seq<u16>,
    i: int,
)
    requires
        ask_for(requests, packets),
        0 <= i < packets.len(),
    ensures
        requests.len() == packets.len(),
        requests[i]@ == seq![
            0x80u8,
            0xD5,
            0,
            1,
            (packets[i] / 256) as u8,
            (packets[i] % 256) as u8,
            0,
            1,
        ],
{
    law_a_request_names_the_packet(requests[i], packets[i]);
}

/// The anchor moves forward with the front of the stream, and never back: a front
/// at the anchor or within 512 packets behind it leaves it where it is.
pub proof fn law_the_anchor_never_moves_back(first: u16, ts: u32, frames: u32, ahead: int)
    requires
        0 <= ahead < 0x1_0000,
    ensures
        ({
            let front = ((first + ahead) % 0x1_0000) as u16;
            let moved = moved_anchor(Some((first, ts)), front, frames);
            &&& ahead == 0 || ahead >= 0xFE00 ==> moved == Some((first, ts))
            &&& 0 < ahead < 0xFE00 ==> moved == Some(
                (front, ((ts + ahead * frames) % 0x1_0000_0000) as u32),
            )
            &&& moved_anchor(None, front, frames) is None
        }),
{
    law_a_timestamp_is_counted_from_the_anchor(first, ts, frames, ahead);
}

} // verus!
