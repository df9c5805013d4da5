//! Wall-clock instants and non-negative spans, held as plain integers.
use vstd::prelude::*;

verus! {

/// Nanoseconds in one second.
pub const NANOS_PER_SEC: u64 = 1_000_000_000;

/// A wall-clock instant: nanoseconds since the Unix epoch (negative before it).
#[derive(Clone, Copy, Debug, PartialEq, Eq, Structural)]
pub struct Timestamp {
    pub nanos: i128,
}

/// A non-negative span of time: whole seconds and the nanoseconds beyond them,
/// laid out as `std::time::Duration` is.
#[derive(Clone, Copy, Debug, PartialEq, Eq, Structural)]
pub struct Delay {
    pub secs: u64,
    pub subsec_nanos: u32,
}

impl Delay {
    /// The length of the span in nanoseconds.
    pub open spec fn total_nanos(self) -> int {
        self.secs * NANOS_PER_SEC + self.subsec_nanos
    }

    /// The span of `n` nanoseconds, or the longest span this type holds with
    /// sub-second part below one second when `n` is longer than that.
    pub open spec fn spec_from_nanos(n: nat) -> Delay {
        if n / (NANOS_PER_SEC as nat) <= u64::MAX {
            Delay { secs: (n / (NANOS_PER_SEC as nat)) as u64, subsec_nanos: (n % (NANOS_PER_SEC as nat)) as u32 }
        } else {
            Delay { secs: u64::MAX, subsec_nanos: (NANOS_PER_SEC - 1) as u32 }
        }
    }

    /// The span of `n` nanoseconds, saturating as `spec_from_nanos` says.
    pub fn from_nanos(n: u128) -> (r: Delay)
        ensures
            r == Delay::spec_from_nanos(n as nat),
    {
        let secs = n / (NANOS_PER_SEC as u128);
        if secs <= u64::MAX as u128 {
            Delay { secs: secs as u64, subsec_nanos: (n % (NANOS_PER_SEC as u128)) as u32 }
        } else {
            Delay { secs: u64::MAX, subsec_nanos: (NANOS_PER_SEC - 1) as u32 }
        }
    }
}

/// A span built from a count of nanoseconds is never longer than that count,
/// and is exactly that long unless the count exceeds what a `Delay` holds.
pub proof fn lemma_delay_from_nanos(n: nat)
    ensures
        Delay::spec_from_nanos(n).total_nanos() <= n,
        n / (NANOS_PER_SEC as nat) <= u64::MAX ==> Delay::spec_from_nanos(n).total_nanos() == n,
{
    vstd::arithmetic::div_mod::lemma_fundamental_div_mod(n as int, NANOS_PER_SEC as int);
    if n / (NANOS_PER_SEC as nat) > u64::MAX {
        assert(n >= (u64::MAX + 1) * NANOS_PER_SEC) by (nonlinear_arith)
            requires
                n / 1_000_000_000 > u64::MAX,
                n == 1_000_000_000 * (n / 1_000_000_000) + n % 1_000_000_000,
                n % 1_000_000_000 >= 0,
        ;
    }
}

impl Timestamp {
    /// The instant `secs` seconds and `subsec_nanos` nanoseconds after the
    /// epoch: a clock reading split into whole seconds and the rest.
    pub fn from_parts(secs: i64, subsec_nanos: u32) -> (r: Timestamp)
        ensures
            r.nanos == secs * NANOS_PER_SEC + subsec_nanos,
    {
        assert(i64::MIN * 1_000_000_000 <= secs * 1_000_000_000 <= i64::MAX * 1_000_000_000)
            by (nonlinear_arith)
            requires
                i64::MIN <= secs <= i64::MAX,
        ;
        Timestamp { nanos: secs as i128 * (NANOS_PER_SEC as i128) + subsec_nanos as i128 }
    }

    /// The instant `delay` after this one; `None` where it lies beyond what a
    /// `Timestamp` holds.
    pub fn after(self, delay: Delay) -> (r: Option<Timestamp>)
        ensures
            self.nanos + delay.total_nanos() <= i128::MAX ==> r == Some(
                Timestamp { nanos: (self.nanos + delay.total_nanos()) as i128 },
            ),
            self.nanos + delay.total_nanos() > i128::MAX ==> r is None,
    {
        assert(0 <= delay.secs * 1_000_000_000 <= u64::MAX * 1_000_000_000) by (nonlinear_arith)
            requires
                0 <= delay.secs <= u64::MAX,
        ;
        let d: i128 = delay.secs as i128 * (NANOS_PER_SEC as i128) + delay.subsec_nanos as i128;
        if self.nanos > i128::MAX - d {
            None
        } else {
            Some(Timestamp { nanos: self.nanos + d })
        }
    }

    /// How long from `now` until this instant, in nanoseconds: zero where it
    /// has already come.
    pub fn nanos_until(self, now: Timestamp) -> (r: u128)
        ensures
            self.nanos <= now.nanos ==> r == 0,
            self.nanos > now.nanos ==> r == self.nanos - now.nanos,
    {
        if self.nanos <= now.nanos {
            0
        } else if now.nanos >= 0 || self.nanos < 0 {
            (self.nanos - now.nanos) as u128
        } else {
            self.nanos as u128 + (-(now.nanos + 1)) as u128 + 1
        }
    }

    /// How long from `now` until this instant: nothing where it has already come.
    pub open spec fn spec_delay_until(self, now: Timestamp) -> Delay {
        if self.nanos <= now.nanos {
            Delay::spec_from_nanos(0)
        } else {
            Delay::spec_from_nanos((self.nanos - now.nanos) as nat)
        }
    }

    /// How long from `now` until this instant, saturating as `Delay::from_nanos` does.
    pub fn delay_until(self, now: Timestamp) -> (r: Delay)
        ensures
            r == self.spec_delay_until(now),
    {
        Delay::from_nanos(self.nanos_until(now))
    }
}

} // verus!
