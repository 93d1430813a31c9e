//! Drift correction for a paced audio output.
//!
//! The sender's clock and the sound card's drift apart. The depth of the
//! device queue shows it; now and then a chunk gets one frame more or less, to
//! steer the queue back to its target.

use vstd::prelude::*;

verus! {

/// How many writes there are between two looks at the queue.
pub const CHECK_EVERY: u32 = 50;

/// The correction for a queue depth: `1` insert a frame (too shallow, risking
/// an underrun), `-1` drop a frame (too deep), `0` hold.
pub open spec fn steer(depth: int, target: int, threshold: int) -> int {
    if depth < target - threshold {
        1
    } else if depth > target + threshold {
        -1
    } else {
        0
    }
}

/// Drift correction decision from the current queue depth.
pub fn drift_action(depth: i64, target: i64, threshold: i64) -> (action: i32)
    ensures
        action == steer(depth as int, target as int, threshold as int),
{
    let depth: i128 = depth as i128;
    let target: i128 = target as i128;
    let threshold: i128 = threshold as i128;
    if depth < target - threshold {
        1
    } else if depth > target + threshold {
        -1
    } else {
        0
    }
}

/// Keeps an output's queue near its target depth.
pub struct DriftCorrector {
    channels: usize,
    target_depth: i64,
    drift_threshold: i64,
    since_check: u32,
    started: bool,
}

/// A corrector, as a mathematical value.
pub struct DriftState {
    pub channels: nat,
    /// The depth to steer for, in frames.
    pub target: int,
    /// How far the queue may stray, in frames.
    pub threshold: int,
    /// Writes since the last look.
    pub since_check: nat,
    /// Whether anything was written since the last flush.
    pub started: bool,
}

impl View for DriftCorrector {
    type V = DriftState;

    closed spec fn view(&self) -> DriftState {
        DriftState {
            channels: self.channels as nat,
            target: self.target_depth as int,
            threshold: self.drift_threshold as int,
            since_check: self.since_check as nat,
            started: self.started,
        }
    }
}

impl DriftState {
    /// Whether the next write is one to look at the queue for: never the first,
    /// which is the released prebuffer, and then every fiftieth.
    pub open spec fn due(self) -> bool {
        self.started && self.since_check + 1 >= CHECK_EVERY
    }

    /// The corrector after a write.
    pub open spec fn written(self) -> DriftState {
        DriftState {
            since_check: if !self.started {
                self.since_check
            } else if self.due() {
                0
            } else {
                self.since_check + 1
            },
            started: true,
            ..self
        }
    }

    /// A chunk, corrected for a queue depth: the last frame twice, or not at
    /// all. A chunk without a whole frame stays as it is.
    pub open spec fn corrected(self, chunk: Seq<i16>, depth: int) -> Seq<i16> {
        let action = steer(depth, self.target, self.threshold);
        if chunk.len() < self.channels {
            chunk
        } else if action == 1 {
            chunk + chunk.skip(chunk.len() - self.channels)
        } else if action == -1 {
            chunk.take(chunk.len() - self.channels)
        } else {
            chunk
        }
    }
}

impl DriftCorrector {
    /// The counter stays below the interval.
    pub closed spec fn wf(&self) -> bool {
        self.since_check < CHECK_EVERY
    }

    /// A corrector for a stream at `rate` Hz: it steers for 200 ms, and lets
    /// the queue stray by 10 ms.
    pub fn new(rate: u32, channels: u8) -> (corrector: DriftCorrector)
        ensures
            corrector.wf(),
            corrector@ == (DriftState {
                channels: channels as nat,
                target: rate as int / 5,
                threshold: rate as int / 100,
                since_check: 0,
                started: false,
            }),
    {
        DriftCorrector {
            channels: channels as usize,
            target_depth: (rate / 5) as i64,
            drift_threshold: (rate / 100) as i64,
            since_check: 0,
            started: false,
        }
    }

    /// Note a write; says whether to look at the queue before it.
    pub fn on_write(&mut self) -> (due: bool)
        requires
            old(self).wf(),
        ensures
            final(self).wf(),
            due == old(self)@.due(),
            final(self)@ == old(self)@.written(),
    {
        if !self.started {
            self.started = true;
            return false;
        }
        self.since_check = self.since_check + 1;
        if self.since_check < CHECK_EVERY {
            return false;
        }
        self.since_check = 0;
        true
    }

    /// Nudge a chunk by one frame to steer the queue back toward the target.
    pub fn correct(&self, chunk: &mut Vec<i16>, depth: i64)
        ensures
            final(chunk)@ == self@.corrected(old(chunk)@, depth as int),
    {
        let action: i32 = drift_action(depth, self.target_depth, self.drift_threshold);
        if chunk.len() < self.channels {
            return;
        }
        let kept: usize = chunk.len() - self.channels;
        if action == 1 {
            let tail = vstd::slice::slice_to_vec(
                vstd::slice::slice_subrange(chunk.as_slice(), kept, chunk.len()),
            );
            assert(tail@ =~= chunk@.skip(kept as int));
            chunk.extend_from_slice(tail.as_slice());
            assert(chunk@ =~= old(chunk)@ + tail@);
        } else if action == -1 {
            chunk.truncate(kept);
            assert(chunk@ =~= old(chunk)@.take(kept as int));
        }
    }

    /// The queue was flushed: the next write is a first one again.
    pub fn on_flush(&mut self)
        requires
            old(self).wf(),
        ensures
            final(self).wf(),
            final(self)@ == (DriftState { since_check: 0, started: false, ..old(self)@ }),
    {
        self.started = false;
        self.since_check = 0;
    }
}

/// A correction changes a chunk by at most one frame, at its end.
pub proof fn law_a_correction_is_one_frame(s: DriftState, chunk: Seq<i16>, depth: int)
    ensures
        chunk.len() - s.channels <= s.corrected(chunk, depth).len() <= chunk.len() + s.channels,
        forall|i: int|
            0 <= i < chunk.len() - s.channels ==> #[trigger] s.corrected(chunk, depth)[i]
                == chunk[i],
{
}

/// A queue that runs low is lengthened by playing the last frame twice, one that
/// grows is shortened by leaving it out, and one that is near enough is left
/// alone, as is a chunk that has no whole frame.
pub proof fn law_a_low_queue_is_lengthened(s: DriftState, chunk: Seq<i16>, depth: int)
    requires
        s.threshold >= 0,
    ensures
        s.channels <= chunk.len() && depth < s.target - s.threshold ==> s.corrected(chunk, depth)
            == chunk + chunk.subrange(chunk.len() - s.channels, chunk.len() as int),
        s.channels <= chunk.len() && depth > s.target + s.threshold ==> s.corrected(chunk, depth)
            == chunk.subrange(0, chunk.len() - s.channels),
        s.target - s.threshold <= depth <= s.target + s.threshold ==> s.corrected(chunk, depth)
            == chunk,
        chunk.len() < s.channels ==> s.corrected(chunk, depth) == chunk,
{
}

/// The queue is looked at on every fiftieth write after the first one since a
/// flush, and on no other.
pub proof fn law_the_queue_is_checked_every_fifty_writes(s: DriftState)
    requires
        s.since_check < 50,
    ensures
        s.due() <==> s.started && s.since_check == 49,
        s.written().started,
        !s.started ==> s.written().since_check == s.since_check,
        s.started && s.since_check < 49 ==> s.written().since_check == s.since_check + 1,
        s.started && s.since_check == 49 ==> s.written().since_check == 0,
        s.written().channels == s.channels,
        s.written().target == s.target,
        s.written().threshold == s.threshold,
{
}

} // verus!
