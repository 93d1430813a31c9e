//! Clock synchronisation model for latency-correct playback.
//!
//! Two independent measurements combine to tell *when*, on the local monotonic
//! clock, a given audio frame should reach the DAC:
//!
//! 1. The **NTP timing exchange** gives the offset between the client's clock
//!    and the local one. From the four timestamps of an exchange come its
//!    round-trip time and the offset; the estimate of the recent exchange with
//!    the shortest round trip is kept.
//! 2. The **sync packet** anchors an RTP timestamp to a client-clock instant.
//!
//! Together: `play_time(rtp)` is the local instant at which that frame plays.

use vstd::prelude::*;

verus! {

/// Nanoseconds in a second.
pub const NANOS: u64 = 1_000_000_000;

/// The nanoseconds of a 32.32 fixed-point NTP timestamp, rounded down.
pub open spec fn ntp_nanos(seconds: u32, fraction: u32) -> int {
    seconds * NANOS + fraction * NANOS / 0x1_0000_0000
}

/// Convert a 32.32 fixed-point NTP timestamp to nanoseconds.
pub fn ntp_to_ns(seconds: u32, fraction: u32) -> (ns: u64)
    ensures
        ns == ntp_nanos(seconds, fraction),
{
    let scaled: u64 = fraction as u64 * NANOS;
    seconds as u64 * NANOS + scaled / 0x1_0000_0000
}

/// Convert nanoseconds to a 32.32 NTP `(seconds, fraction)` pair. The seconds
/// wrap at 2^32, as NTP's do.
pub fn ns_to_ntp(ns: u64) -> (ntp: (u32, u32))
    ensures
        ntp.0 == (ns / NANOS) % 0x1_0000_0000,
        ntp.1 == (ns % NANOS) * 0x1_0000_0000 / NANOS as int,
{
    let seconds: u64 = (ns / NANOS) % 0x1_0000_0000;
    let within: u64 = ns % NANOS;
    let fraction: u64 = within * 0x1_0000_0000 / NANOS;
    (seconds as u32, fraction as u32)
}

/// The two conversions undo each other to within a nanosecond, for every time
/// whose seconds fit the NTP field: the fixed-point fraction only ever rounds
/// down, by less than a nanosecond each way.
pub proof fn law_ntp_round_trip(ns: u64, seconds: u32, fraction: u32)
    requires
        ns / NANOS < 0x1_0000_0000,
        seconds == (ns / NANOS) % 0x1_0000_0000,
        fraction == (ns % NANOS) * 0x1_0000_0000 / NANOS as int,
    ensures
        ns - 1 <= ntp_nanos(seconds, fraction) <= ns,
{
    let r = ns as int % NANOS as int;
    assert(fraction == r * 0x1_0000_0000 / 1_000_000_000);
    assert(fraction * 1_000_000_000 <= r * 0x1_0000_0000);
    assert(fraction * 1_000_000_000 > r * 0x1_0000_0000 - 1_000_000_000);
    let back = fraction * 1_000_000_000 / 0x1_0000_0000;
    assert(r - 1 <= back <= r);
}

/// How many recent timing samples are kept.
pub const WINDOW: usize = 8;

/// One measured exchange: its round-trip time, and the remote clock minus the
/// local one, both in nanoseconds.
#[derive(Clone, Copy)]
pub struct Sample {
    pub rtt: u64,
    pub offset: i128,
}

/// A timing exchange that makes sense: neither end measured a negative time,
/// and the client did not hold the request for longer than it was away.
pub open spec fn exchange_ok(t1: u64, t2: u64, t3: u64, t4: u64) -> bool {
    t1 <= t4 && t2 <= t3 && t3 - t2 <= t4 - t1
}

/// What an exchange measures: the time spent on the network, and the offset of
/// the client's clock at our arrival instant (the client's transmit time plus
/// half of that, minus our arrival time).
pub open spec fn measured(t1: u64, t2: u64, t3: u64, t4: u64) -> Sample {
    let rtt = ((t4 - t1) - (t3 - t2)) as u64;
    Sample { rtt, offset: (t3 + rtt / 2 - t4) as i128 }
}

/// The window after `sample` was added: the oldest goes once it is full.
pub open spec fn windowed(samples: Seq<Sample>, sample: Sample) -> Seq<Sample> {
    if samples.len() >= WINDOW {
        samples.drop_first().push(sample)
    } else {
        samples.push(sample)
    }
}

/// Whether `i` is the first of the samples with the shortest round trip.
pub open spec fn is_best(samples: Seq<Sample>, i: int) -> bool {
    &&& 0 <= i < samples.len()
    &&& forall|j: int| 0 <= j < samples.len() ==> samples[i].rtt <= #[trigger] samples[j].rtt
    &&& forall|j: int| 0 <= j < i ==> samples[i].rtt < #[trigger] samples[j].rtt
}

/// The signed distance from `b` to `a` on the 32-bit circle.
pub open spec fn rtp_distance(a: u32, b: u32) -> int {
    if a - b >= 0x8000_0000 {
        a - b - 0x1_0000_0000
    } else if a - b < -0x8000_0000 {
        a - b + 0x1_0000_0000
    } else {
        a - b
    }
}

/// Division that rounds toward zero.
pub open spec fn div_toward_zero(a: int, b: int) -> int {
    if a >= 0 {
        a / b
    } else {
        -((-a) / b)
    }
}

/// The clock model as a mathematical value.
pub struct ClockState {
    /// Frames per second.
    pub sample_rate: u32,
    /// The recent exchanges, oldest first.
    pub samples: Seq<Sample>,
    /// (client-clock instant in ns, RTP timestamp at the DAC then).
    pub anchor: Option<(u64, u32)>,
}

impl ClockState {
    /// Offsets stay within what two 64-bit clocks can be apart.
    pub open spec fn wf(self) -> bool {
        &&& self.samples.len() <= WINDOW
        &&& forall|i: int|
            0 <= i < self.samples.len() ==> -0x1_0000_0000_0000_0000 <= (
            #[trigger] self.samples[i]).offset <= 0x1_8000_0000_0000_0000
    }

    /// The offset of the client's clock: that of the recent exchange with the
    /// shortest round trip (the earliest of them, where several are as short).
    pub open spec fn offset(self) -> Option<i128> {
        if self.samples.len() == 0 {
            None
        } else {
            Some(self.samples[choose|i: int| is_best(self.samples, i)].offset)
        }
    }

    /// Both an offset and an anchor are known.
    pub open spec fn ready(self) -> bool {
        self.offset() is Some && self.anchor is Some
    }

    /// The instant at which frame `rtp` is due: the anchor's instant on the
    /// local clock, plus the time that the frames between the two take.
    pub open spec fn due(self, rtp: u32) -> int {
        let (remote, anchored) = self.anchor->0;
        remote - self.offset()->0 + div_toward_zero(
            rtp_distance(rtp, anchored) * NANOS,
            self.sample_rate as int,
        )
    }
}

/// A window that is not empty has a best sample, and only one.
proof fn lemma_best_is_unique(samples: Seq<Sample>, i: int)
    requires
        is_best(samples, i),
    ensures
        (choose|j: int| is_best(samples, j)) == i,
{
    let j = choose|j: int| is_best(samples, j);
    assert(is_best(samples, j));
    assert(samples[i].rtt <= samples[j].rtt);
    assert(samples[j].rtt <= samples[i].rtt);
}

/// The clock model of one stream.
pub struct ClockModel {
    sample_rate: u32,
    samples: Vec<Sample>,
    offset: Option<i128>,
    anchor: Option<(u64, u32)>,
}

impl View for ClockModel {
    type V = ClockState;

    closed spec fn view(&self) -> ClockState {
        ClockState {
            sample_rate: self.sample_rate,
            samples: self.samples@,
            anchor: self.anchor,
        }
    }
}

impl ClockModel {
    /// The stored offset is that of the best sample.
    pub closed spec fn wf(&self) -> bool {
        &&& self@.wf()
        &&& self.offset == self@.offset()
        &&& self.offset matches Some(offset) ==> -0x1_0000_0000_0000_0000 <= offset
            <= 0x1_8000_0000_0000_0000
    }

    /// What a sound representation stands for is sound.
    pub proof fn lemma_wf(&self)
        requires
            self.wf(),
        ensures
            self@.wf(),
    {
    }

    /// A model that knows nothing yet.
    pub fn new(sample_rate: u32) -> (model: ClockModel)
        ensures
            model.wf(),
            model@.sample_rate == sample_rate,
            model@.samples == Seq::<Sample>::empty(),
            model@.anchor is None,
    {
        ClockModel { sample_rate, samples: Vec::new(), offset: None, anchor: None }
    }

    /// Feed one completed timing exchange. `t1`/`t4` are our local send and
    /// arrival times; `t2`/`t3` are the client's receive and transmit times on
    /// its own clock, all in ns. Ill-formed exchanges are ignored.
    pub fn add_timing(&mut self, t1: u64, t2: u64, t3: u64, t4: u64)
        requires
            old(self).wf(),
        ensures
            final(self).wf(),
            final(self)@.sample_rate == old(self)@.sample_rate,
            final(self)@.anchor == old(self)@.anchor,
            final(self)@.samples == (if exchange_ok(t1, t2, t3, t4) {
                windowed(old(self)@.samples, measured(t1, t2, t3, t4))
            } else {
                old(self)@.samples
            }),
    {
        if t4 < t1 || t3 < t2 {
            return;
        }
        let round_trip: u64 = t4 - t1;
        let remote_processing: u64 = t3 - t2;
        if round_trip < remote_processing {
            return;
        }
        let rtt: u64 = round_trip - remote_processing;
        let remote_at_t4: i128 = t3 as i128 + (rtt / 2) as i128;
        let offset: i128 = remote_at_t4 - t4 as i128;
        if self.samples.len() == WINDOW {
            let oldest = self.samples.remove(0);
        }
        self.samples.push(Sample { rtt, offset });
        assert(self.samples@ =~= windowed(old(self)@.samples, measured(t1, t2, t3, t4)));
        let mut best: usize = 0;
        let mut i: usize = 1;
        while i < self.samples.len()
            invariant
                self.samples@.len() > 0,
                best < i <= self.samples@.len(),
                forall|j: int|
                    0 <= j < i ==> self.samples@[best as int].rtt <= #[trigger] self.samples@[j].rtt,
                forall|j: int|
                    0 <= j < best ==> self.samples@[best as int].rtt
                        < #[trigger] self.samples@[j].rtt,
            decreases self.samples@.len() - i,
        {
            if self.samples[i].rtt < self.samples[best].rtt {
                best = i;
            }
            i += 1;
        }
        assert(is_best(self.samples@, best as int));
        proof {
            lemma_best_is_unique(self.samples@, best as int);
        }
        self.offset = Some(self.samples[best].offset);
    }

    /// Record a sync anchor: at client-clock instant `remote_time_ns`, the
    /// frame with RTP timestamp `rtp_at_dac` is at the DAC.
    pub fn set_anchor(&mut self, remote_time_ns: u64, rtp_at_dac: u32)
        requires
            old(self).wf(),
        ensures
            final(self).wf(),
            final(self)@ == (ClockState {
                anchor: Some((remote_time_ns, rtp_at_dac)),
                ..old(self)@
            }),
    {
        self.anchor = Some((remote_time_ns, rtp_at_dac));
    }

    /// Both an offset and an anchor are needed before playback can be timed.
    pub fn is_ready(&self) -> (ready: bool)
        requires
            self.wf(),
        ensures
            ready == self@.ready(),
    {
        self.offset.is_some() && self.anchor.is_some()
    }

    /// The local monotonic instant (ns) at which frame `rtp` should reach the
    /// DAC, or `None` until the model is ready, or when the instant lies before
    /// the local clock's zero. An instant past 2^64 ns wraps.
    pub fn play_time(&self, rtp: u32) -> (instant: Option<u64>)
        requires
            self.wf(),
            self@.ready() ==> self@.sample_rate != 0,
        ensures
            instant is Some <==> self@.ready() && self@.due(rtp) >= 0,
            instant is Some ==> instant->0 == self@.due(rtp) % 0x1_0000_0000_0000_0000,
    {
        let offset: i128 = match self.offset {
            Some(o) => o,
            None => {
                return None;
            },
        };
        let (remote, anchored): (u64, u32) = match self.anchor {
            Some(a) => a,
            None => {
                return None;
            },
        };
        let local_anchor: i128 = remote as i128 - offset;
        let ahead: i128 = rtp as i128 - anchored as i128;
        let delta_frames: i128 = if ahead >= 0x8000_0000 {
            ahead - 0x1_0000_0000
        } else if ahead < -0x8000_0000 {
            ahead + 0x1_0000_0000
        } else {
            ahead
        };
        let nanos: i128 = delta_frames * 1_000_000_000;
        let rate: i128 = self.sample_rate as i128;
        assert(0 <= nanos ==> 0 <= nanos / rate <= nanos) by (nonlinear_arith)
            requires
                rate >= 1,
        ;
        assert(nanos < 0 ==> 0 <= (-nanos) / (rate as int) <= -nanos) by (nonlinear_arith)
            requires
                rate >= 1,
        ;
        let delta_ns: i128 = if nanos >= 0 {
            nanos / rate
        } else {
            -((-nanos) / rate)
        };
        let play: i128 = local_anchor + delta_ns;
        if play >= 0 {
            let wrapped: i128 = play % 0x1_0000_0000_0000_0000;
            Some(wrapped as u64)
        } else {
            None
        }
    }

    /// Current best offset (remote minus local, ns), for diagnostics.
    pub fn offset_ns(&self) -> (offset: Option<i128>)
        requires
            self.wf(),
        ensures
            offset == self@.offset(),
    {
        self.offset
    }
}

/// An exchange that takes as long each way measures the offset exactly: with
/// the client's clock `ahead` of ours, `way` on the network in each direction
/// and `held` at the client, the measured offset is `ahead` and the round trip
/// twice `way`.
pub proof fn law_a_symmetric_exchange_measures_the_offset(
    t1: u64,
    t2: u64,
    t3: u64,
    t4: u64,
    ahead: i128,
    way: u64,
    held: u64,
)
    requires
        t2 == t1 + ahead + way,
        t3 == t2 + held,
        t4 == t1 + way + held + way,
    ensures
        exchange_ok(t1, t2, t3, t4),
        measured(t1, t2, t3, t4).offset == ahead,
        measured(t1, t2, t3, t4).rtt == 2 * way,
{
}

/// The frame a second's worth of frames later is due a second later.
pub proof fn law_a_second_of_frames_takes_a_second(m: ClockState, rtp: u32, later: u32)
    requires
        m.ready(),
        m.sample_rate != 0,
        rtp_distance(rtp, (m.anchor->0).1) >= 0,
        rtp_distance(later, (m.anchor->0).1) == rtp_distance(rtp, (m.anchor->0).1) + m.sample_rate,
    ensures
        m.due(later) == m.due(rtp) + NANOS,
{
    let r = rtp_distance(rtp, (m.anchor->0).1);
    let rate = m.sample_rate as int;
    assert((r + rate) * 1_000_000_000 == rate * 1_000_000_000 + r * 1_000_000_000)
        by (nonlinear_arith);
    vstd::arithmetic::div_mod::lemma_hoist_over_denominator(
        r * 1_000_000_000,
        1_000_000_000,
        rate as nat,
    );
    assert(1_000_000_000 * rate == rate * 1_000_000_000) by (nonlinear_arith);
    assert((r + rate) * 1_000_000_000 >= 0) by (nonlinear_arith)
        requires
            r >= 0,
            rate >= 0,
    ;
}

/// NTP seconds are seconds, and the fraction is in units of 2^-32 of one, rounded
/// down to a nanosecond.
pub proof fn law_ntp_fractions_are_of_a_second(seconds: u32, fraction: u32)
    ensures
        ntp_nanos(seconds, 0) == seconds * 1_000_000_000,
        (ntp_nanos(seconds, fraction) - seconds * 1_000_000_000) * 0x1_0000_0000 <= fraction
            * 1_000_000_000,
        fraction * 1_000_000_000 < (ntp_nanos(seconds, fraction) - seconds * 1_000_000_000 + 1)
            * 0x1_0000_0000,
{
}

/// An exchange counts unless it says that an answer arrived before it was asked
/// for, left before it had come, or was held longer than it was waited for.
pub proof fn law_impossible_exchanges_do_not_count(t1: u64, t2: u64, t3: u64, t4: u64)
    ensures
        t4 < t1 ==> !exchange_ok(t1, t2, t3, t4),
        t3 < t2 ==> !exchange_ok(t1, t2, t3, t4),
        t4 - t1 < t3 - t2 ==> !exchange_ok(t1, t2, t3, t4),
        t1 <= t4 && t2 <= t3 && t3 - t2 <= t4 - t1 ==> exchange_ok(t1, t2, t3, t4),
{
}

/// The round trip is the time waited less the time held, and the offset is the
/// mean of what the way there and the way back show, to within half a
/// nanosecond.
pub proof fn law_an_exchange_shows_the_mean_offset(t1: u64, t2: u64, t3: u64, t4: u64)
    requires
        t1 <= t4,
        t2 <= t3,
        t3 - t2 <= t4 - t1,
    ensures
        measured(t1, t2, t3, t4).rtt == (t4 - t1) - (t3 - t2),
        2 * measured(t1, t2, t3, t4).offset <= (t2 - t1) + (t3 - t4) <= 2 * measured(
            t1,
            t2,
            t3,
            t4,
        ).offset + 1,
{
}

/// The last eight exchanges count, and the newest is one of them.
pub proof fn law_the_last_eight_exchanges_count(samples: Seq<Sample>, sample: Sample)
    requires
        samples.len() <= 8,
    ensures
        windowed(samples, sample).last() == sample,
        samples.len() < 8 ==> windowed(samples, sample) == samples.push(sample),
        samples.len() == 8 ==> windowed(samples, sample).len() == 8 && forall|i: int|
            0 <= i < 7 ==> #[trigger] windowed(samples, sample)[i] == samples[i + 1],
{
}

/// The offset is that of the exchange with the shortest round trip: no exchange
/// that counts was quicker. Without any there is none.
pub proof fn law_the_quickest_exchange_decides(m: ClockState)
    ensures
        m.samples.len() == 0 ==> m.offset() is None,
        m.samples.len() > 0 ==> m.offset() is Some && exists|i: int|
            {
                &&& 0 <= i < m.samples.len()
                &&& m.offset() == Some((#[trigger] m.samples[i]).offset)
                &&& forall|j: int|
                    0 <= j < m.samples.len() ==> m.samples[i].rtt <= #[trigger] m.samples[j].rtt
            },
{
    if m.samples.len() > 0 {
        lemma_best_exists(m.samples);
        let i = choose|i: int| is_best(m.samples, i);
        assert(m.offset() == Some(m.samples[i].offset));
    }
}

proof fn lemma_best_exists(samples: Seq<Sample>)
    requires
        samples.len() > 0,
    ensures
        exists|i: int| is_best(samples, i),
    decreases samples.len(),
{
    if samples.len() == 1 {
        assert(is_best(samples, 0));
    } else {
        let rest = samples.drop_last();
        lemma_best_exists(rest);
        let i = choose|i: int| is_best(rest, i);
        assert(forall|j: int| 0 <= j < rest.len() ==> rest[j] == #[trigger] samples[j]);
        if samples.last().rtt < samples[i].rtt {
            assert(is_best(samples, samples.len() - 1));
        } else {
            assert(is_best(samples, i));
        }
    }
}

/// Timestamps go round a circle of 2^32, and the distance between two is the
/// short way.
pub proof fn law_timestamps_go_round_a_circle(a: u32, b: u32, d: int)
    requires
        -0x8000_0000 <= d < 0x8000_0000,
        a == b + d || a == b + d + 0x1_0000_0000 || a == b + d - 0x1_0000_0000,
    ensures
        rtp_distance(a, b) == d,
{
}

/// The anchored frame is due at the anchored time, put into local time by the
/// offset; every other a frame's length later for each frame after it, or earlier
/// for each before it, to within a nanosecond.
pub proof fn law_frames_are_due_by_their_distance(m: ClockState, remote: u64, anchored: u32, rtp: u32)
    requires
        m.samples.len() > 0,
        m.anchor == Some((remote, anchored)),
        m.sample_rate != 0,
    ensures
        m.ready(),
        m.due(anchored) == remote - m.offset()->0,
        ({
            let late = m.due(rtp) - m.due(anchored);
            let exact = rtp_distance(rtp, anchored) * 1_000_000_000;
            -m.sample_rate < late * m.sample_rate - exact < m.sample_rate
        }),
{
    let rate = m.sample_rate as int;
    let d = rtp_distance(rtp, anchored);
    let n = d * 1_000_000_000;
    assert(rtp_distance(anchored, anchored) == 0);
    assert(0int / rate == 0) by (nonlinear_arith)
        requires
            rate > 0,
    ;
    assert(m.due(anchored) == remote - m.offset()->0);
    let q = div_toward_zero(n, rate);
    if n >= 0 {
        vstd::arithmetic::div_mod::lemma_fundamental_div_mod(n, rate);
        assert(q * rate == rate * (n / rate)) by (nonlinear_arith)
            requires
                q == n / rate,
        ;
    } else {
        vstd::arithmetic::div_mod::lemma_fundamental_div_mod(-n, rate);
        assert(q * rate == -(rate * ((-n) / rate))) by (nonlinear_arith)
            requires
                q == -((-n) / rate),
        ;
    }
    vstd::arithmetic::div_mod::lemma_mod_bound(n, rate);
    vstd::arithmetic::div_mod::lemma_mod_bound(-n, rate);
}

/// Of exchanges that were as quick as each other the earliest that counts
/// decides.
pub proof fn law_the_earliest_of_the_quickest_decides(m: ClockState, i: int)
    requires
        0 <= i < m.samples.len(),
        forall|j: int| 0 <= j < m.samples.len() ==> m.samples[i].rtt <= #[trigger] m.samples[j].rtt,
        forall|j: int| 0 <= j < i ==> m.samples[i].rtt < #[trigger] m.samples[j].rtt,
    ensures
        m.offset() == Some(m.samples[i].offset),
{
    assert(is_best(m.samples, i));
    let k = choose|k: int| is_best(m.samples, k);
    assert(is_best(m.samples, k));
    assert(m.samples[i].rtt <= m.samples[k].rtt && m.samples[k].rtt <= m.samples[i].rtt);
    if i < k {
        assert(m.samples[k].rtt < m.samples[i].rtt);
    }
    if k < i {
        assert(m.samples[i].rtt < m.samples[k].rtt);
    }
}

/// Frames can be timed once an exchange counts and a frame is anchored, and not
/// before.
pub proof fn law_timing_needs_offset_and_anchor(m: ClockState)
    ensures
        m.samples.len() > 0 && m.anchor is Some ==> m.ready(),
        m.samples.len() == 0 ==> !m.ready(),
        m.anchor is None ==> !m.ready(),
{
}

} // verus!
