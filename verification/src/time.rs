//! Spans of time, to the nanosecond.

use vstd::prelude::*;

verus! {

/// A span of time: whole seconds, and nanoseconds below a second.
#[derive(Debug, Clone, Copy, PartialEq, Eq, Structural)]
pub struct Duration {
    secs: u64,
    nanos: u32,
}

impl View for Duration {
    type V = int;

    /// The span in nanoseconds.
    closed spec fn view(&self) -> int {
        self.secs * 1_000_000_000 + self.nanos
    }
}

/// The whole milliseconds of a span in nanoseconds, or as many as a number holds.
pub open spec fn whole_millis(nanos: int) -> int {
    if nanos / 1_000_000 > u64::MAX {
        u64::MAX as int
    } else {
        nanos / 1_000_000
    }
}

impl Duration {
    /// The nanoseconds stay below a second.
    #[verifier::type_invariant]
    spec fn below_a_second(self) -> bool {
        self.nanos < 1_000_000_000
    }

    /// No time at all.
    pub fn zero() -> (d: Duration)
        ensures
            d@ == 0,
    {
        Duration { secs: 0, nanos: 0 }
    }

    /// A span of whole seconds.
    pub fn from_secs(secs: u64) -> (d: Duration)
        ensures
            d@ == secs * 1_000_000_000,
    {
        Duration { secs, nanos: 0 }
    }

    /// A span of nanoseconds.
    pub fn from_nanos(nanos: u64) -> (d: Duration)
        ensures
            d@ == nanos,
    {
        Duration { secs: nanos / 1_000_000_000, nanos: (nanos % 1_000_000_000) as u32 }
    }

    /// A span of nanoseconds.
    pub fn from_nanos_wide(nanos: u128) -> (d: Duration)
        requires
            nanos < 0x1_0000_0000_0000_0000 * 1_000_000_000,
        ensures
            d@ == nanos,
    {
        Duration {
            secs: (nanos / 1_000_000_000) as u64,
            nanos: (nanos % 1_000_000_000) as u32,
        }
    }

    /// Its whole seconds.
    pub fn as_secs(&self) -> (secs: u64)
        ensures
            secs == self@ / 1_000_000_000,
    {
        proof {
            use_type_invariant(self);
        }
        self.secs
    }

    /// Its whole milliseconds, or as many as a number holds.
    pub fn as_millis(&self) -> (millis: u64)
        ensures
            millis == whole_millis(self@),
    {
        let millis: u128 = self.as_nanos() / 1_000_000;
        if millis > u64::MAX as u128 {
            u64::MAX
        } else {
            millis as u64
        }
    }

    /// The whole span in nanoseconds.
    pub fn as_nanos(&self) -> (nanos: u128)
        ensures
            nanos == self@,
            nanos < 0x1_0000_0000_0000_0000 * 1_000_000_000,
    {
        proof {
            use_type_invariant(self);
        }
        self.secs as u128 * 1_000_000_000 + self.nanos as u128
    }

    /// Whether it is no time at all.
    pub fn is_zero(&self) -> (zero: bool)
        ensures
            zero == (self@ == 0),
    {
        proof {
            use_type_invariant(self);
        }
        self.secs == 0 && self.nanos == 0
    }
}

/// The time that some frames take at a sample rate, to the nearest nanosecond;
/// none at all at a rate of zero.
pub open spec fn frames_nanos(frames: u32, rate: u32) -> int {
    if rate == 0 {
        0
    } else {
        (frames * 1_000_000_000 + rate as int / 2) / rate as int
    }
}

/// Convert a frame count at `rate` Hz to a span of time.
pub fn frames_to_duration(frames: u32, rate: u32) -> (d: Duration)
    ensures
        d@ == frames_nanos(frames, rate),
{
    if rate == 0 {
        return Duration::zero();
    }
    let nanos: u64 = (frames as u64 * 1_000_000_000 + rate as u64 / 2) / rate as u64;
    Duration::from_nanos(nanos)
}

/// More frames never take less time.
pub proof fn law_more_frames_take_longer(a: u32, b: u32, rate: u32)
    requires
        a <= b,
    ensures
        frames_nanos(a, rate) <= frames_nanos(b, rate),
{
    if rate != 0 {
        vstd::arithmetic::div_mod::lemma_div_is_ordered(
            a * 1_000_000_000 + rate as int / 2,
            b * 1_000_000_000 + rate as int / 2,
            rate as int,
        );
    }
}

/// As many frames as the sample rate take a second.
pub proof fn law_a_rate_of_frames_takes_a_second(seconds: u32, frames: u32, rate: u32)
    requires
        rate != 0,
        frames == seconds * rate,
    ensures
        frames_nanos(frames, rate) == seconds * 1_000_000_000,
{
    let r = rate as int;
    let n = seconds * 1_000_000_000;
    assert(frames * 1_000_000_000 == r * n) by (nonlinear_arith)
        requires
            frames == seconds * r,
            n == seconds * 1_000_000_000,
    ;
    vstd::arithmetic::div_mod::lemma_fundamental_div_mod_converse(r * n + r / 2, r, n, r / 2);
}

/// The time that frames take is the nearest nanosecond to their number over the
/// rate; at no rate it is none.
pub proof fn law_frames_take_the_nearest_nanosecond(frames: u32, rate: u32)
    ensures
        rate == 0 ==> frames_nanos(frames, rate) == 0,
        rate != 0 ==> -(rate as int) <= 2 * (frames_nanos(frames, rate) * rate - frames
            * 1_000_000_000) <= rate,
        frames_nanos(0, rate) == 0,
{
    if rate != 0 {
        let n = frames * 1_000_000_000 + rate as int / 2;
        vstd::arithmetic::div_mod::lemma_fundamental_div_mod(n, rate as int);
        vstd::arithmetic::div_mod::lemma_mod_bound(n, rate as int);
        assert((n / rate as int) * rate == rate * (n / rate as int)) by (nonlinear_arith);
        vstd::arithmetic::div_mod::lemma_basic_div(rate as int / 2, rate as int);
    }
}

/// Whole milliseconds are a million nanoseconds each, rounded down.
pub proof fn law_a_millisecond_is_a_million_nanoseconds(nanos: int, millis: u64)
    requires
        millis * 1_000_000 <= nanos < (millis + 1) * 1_000_000,
    ensures
        whole_millis(nanos) == millis,
{
}

/// Durations are built and read in whole units: a second is a thousand
/// milliseconds, a millisecond a million nanoseconds, and what is more than the
/// milliseconds can count is as many as they can.
pub proof fn law_seconds_and_milliseconds_agree(seconds: u64, rest: int)
    requires
        0 <= rest < 1_000_000,
        seconds <= 18_446_744_073_709_551,
    ensures
        whole_millis(seconds * 1_000_000_000 + rest) == seconds * 1000,
{
}

/// A span of more milliseconds than can be counted counts as the most that can.
pub proof fn law_milliseconds_stop_at_the_most(nanos: int)
    requires
        nanos >= 0x1_0000_0000_0000_0000 * 1_000_000,
    ensures
        whole_millis(nanos) == 0xffff_ffff_ffff_ffff,
{
}

} // verus!
