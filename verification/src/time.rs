//! Points in time and spans of time, to the nanosecond.
use vstd::prelude::*;

verus! {

/// The number of nanoseconds in a second.
pub const NANOS_PER_SEC: u32 = 1_000_000_000;

/// The largest span of time, in nanoseconds.
pub open spec fn max_duration() -> nat {
    (u64::MAX * NANOS_PER_SEC + (NANOS_PER_SEC - 1)) as nat
}

/// The earliest point in time, in nanoseconds from the clock's origin.
pub open spec fn min_instant() -> int {
    i64::MIN * NANOS_PER_SEC
}

/// The time from `from` to `to`, zero where `from` is the later of the two.
pub open spec fn elapsed(from: int, to: int) -> nat {
    if to >= from {
        (to - from) as nat
    } else {
        0
    }
}

/// A span of time. Its view is its length in nanoseconds.
#[derive(Clone, Copy, Debug, PartialEq, Eq, Structural)]
pub struct Duration {
    secs: u64,
    nanos: u32,
}

impl View for Duration {
    type V = nat;

    closed spec fn view(&self) -> nat {
        (self.secs * NANOS_PER_SEC + self.nanos) as nat
    }
}

impl Duration {
    #[verifier::type_invariant]
    spec fn in_range(self) -> bool {
        self.nanos < NANOS_PER_SEC
    }

    /// The span of `secs` seconds and `nanos` nanoseconds.
    pub fn new(secs: u64, nanos: u32) -> (res: Self)
        requires
            secs + nanos / NANOS_PER_SEC <= u64::MAX,
        ensures
            res@ == secs * NANOS_PER_SEC + nanos,
    {
        Duration { secs: secs + (nanos / NANOS_PER_SEC) as u64, nanos: nanos % NANOS_PER_SEC }
    }

    /// The span of `secs` seconds.
    pub fn from_secs(secs: u64) -> (res: Self)
        ensures
            res@ == secs * NANOS_PER_SEC,
    {
        Duration { secs, nanos: 0 }
    }

    /// The number of whole seconds.
    pub fn as_secs(&self) -> (res: u64)
        ensures
            res == self@ / NANOS_PER_SEC as nat,
    {
        proof {
            use_type_invariant(self);
        }
        self.secs
    }

    /// The nanoseconds past the whole seconds.
    pub fn subsec_nanos(&self) -> (res: u32)
        ensures
            res == self@ % NANOS_PER_SEC as nat,
    {
        proof {
            use_type_invariant(self);
        }
        self.nanos
    }

    /// The number of whole milliseconds.
    pub fn as_millis(&self) -> (res: u128)
        ensures
            res == self@ / 1_000_000,
    {
        proof {
            use_type_invariant(self);
        }
        self.secs as u128 * 1000 + (self.nanos / 1_000_000) as u128
    }

    /// The sum of both spans, if it can be represented.
    pub fn checked_add(self, other: Duration) -> (res: Option<Duration>)
        ensures
            res is Some <==> self@ + other@ <= max_duration(),
            res is Some ==> res.unwrap()@ == self@ + other@,
    {
        proof {
            use_type_invariant(&self);
            use_type_invariant(&other);
        }
        let sum: u32 = self.nanos + other.nanos;
        let (carry, nanos): (u64, u32) = if sum >= NANOS_PER_SEC {
            (1, sum - NANOS_PER_SEC)
        } else {
            (0, sum)
        };
        match self.secs.checked_add(other.secs) {
            None => None,
            Some(secs) => match secs.checked_add(carry) {
                None => None,
                Some(total) => Some(Duration { secs: total, nanos }),
            },
        }
    }

    /// The span divided by `divisor`, rounded down to the nanosecond; nothing for zero.
    pub fn checked_div(self, divisor: u32) -> (res: Option<Duration>)
        ensures
            res is Some <==> divisor != 0,
            res is Some ==> res.unwrap()@ == self@ / divisor as nat,
    {
        proof {
            use_type_invariant(&self);
        }
        if divisor == 0 {
            return None;
        }
        let d: u64 = divisor as u64;
        let secs: u64 = self.secs / d;
        let left: u64 = self.secs % d;
        assert(left * 1_000_000_000 + self.nanos <= u64::MAX);
        let sub: u64 = left * 1_000_000_000 + self.nanos as u64;
        let nanos: u64 = sub / d;
        proof {
            let q = self@ as int;
            let k = d as int;
            assert(nanos < 1_000_000_000) by (nonlinear_arith)
                requires
                    sub == left * 1_000_000_000 + self.nanos,
                    left < d,
                    self.nanos < 1_000_000_000,
                    nanos == sub / d,
                    d > 0,
            ;
            assert(q == k * (secs * 1_000_000_000 + nanos) + sub % d) by (nonlinear_arith)
                requires
                    q == self.secs * 1_000_000_000 + self.nanos,
                    k == d,
                    d > 0,
                    secs == self.secs / d,
                    left == self.secs % d,
                    sub == left * 1_000_000_000 + self.nanos,
                    nanos == sub / d,
            ;
            vstd::arithmetic::div_mod::lemma_fundamental_div_mod_converse(
                q,
                k,
                secs * 1_000_000_000 + nanos,
                (sub % d) as int,
            );
        }
        Some(Duration { secs, nanos: nanos as u32 })
    }

    /// Whether this span is at least as long as `other`.
    pub fn is_at_least(self, other: Duration) -> (res: bool)
        ensures
            res == (self@ >= other@),
    {
        proof {
            use_type_invariant(&self);
            use_type_invariant(&other);
        }
        self.secs > other.secs || (self.secs == other.secs && self.nanos >= other.nanos)
    }
}

/// A point in time on a clock that never runs backwards. Its view is its distance in
/// nanoseconds from the clock's origin.
#[derive(Clone, Copy, Debug, PartialEq, Eq, Structural)]
pub struct Instant {
    secs: i64,
    nanos: u32,
}

impl View for Instant {
    type V = int;

    closed spec fn view(&self) -> int {
        self.secs * NANOS_PER_SEC + self.nanos
    }
}

impl Instant {
    #[verifier::type_invariant]
    spec fn in_range(self) -> bool {
        self.nanos < NANOS_PER_SEC
    }

    /// The point `secs` seconds and `nanos` nanoseconds after the clock's origin.
    pub fn new(secs: i64, nanos: u32) -> (res: Self)
        requires
            nanos < NANOS_PER_SEC,
        ensures
            res@ == secs * NANOS_PER_SEC + nanos,
    {
        Instant { secs, nanos }
    }

    /// Whether this point comes after `other`.
    pub fn is_after(self, other: Instant) -> (res: bool)
        ensures
            res == (self@ > other@),
    {
        proof {
            use_type_invariant(&self);
            use_type_invariant(&other);
        }
        self.secs > other.secs || (self.secs == other.secs && self.nanos > other.nanos)
    }

    /// The time from `earlier` to this point, zero where `earlier` is the later of the two.
    pub fn duration_since(self, earlier: Instant) -> (res: Duration)
        ensures
            res@ == elapsed(earlier@, self@),
    {
        proof {
            use_type_invariant(&self);
            use_type_invariant(&earlier);
        }
        if earlier.is_after(self) {
            return Duration { secs: 0, nanos: 0 };
        }
        let secs: i128 = self.secs as i128 - earlier.secs as i128;
        if self.nanos >= earlier.nanos {
            Duration { secs: secs as u64, nanos: self.nanos - earlier.nanos }
        } else {
            Duration {
                secs: (secs - 1) as u64,
                nanos: NANOS_PER_SEC - earlier.nanos + self.nanos,
            }
        }
    }

    /// The point that lies `span` before this one, if it can be represented.
    pub fn checked_sub(self, span: Duration) -> (res: Option<Instant>)
        ensures
            res is Some <==> self@ - span@ >= min_instant(),
            res is Some ==> res.unwrap()@ == self@ - span@,
    {
        proof {
            use_type_invariant(&self);
            use_type_invariant(&span);
        }
        let (borrow, nanos): (i128, u32) = if self.nanos >= span.nanos {
            (0, self.nanos - span.nanos)
        } else {
            (1, NANOS_PER_SEC - span.nanos + self.nanos)
        };
        let secs: i128 = self.secs as i128 - span.secs as i128 - borrow;
        if secs >= i64::MIN as i128 {
            Some(Instant { secs: secs as i64, nanos })
        } else {
            None
        }
    }
}

/// The time between two points leads from the one to the other; it is never negative.
pub proof fn law_elapsed_leads_there(from: int, to: int)
    ensures
        from <= to ==> from + elapsed(from, to) == to,
        to <= from ==> elapsed(from, to) == 0,
{
}

/// The longest span is the largest number of seconds and a nanosecond short of another; the
/// earliest point lies at the smallest number of seconds.
pub proof fn law_limits_of_time()
    ensures
        max_duration() + 1 == 0x1_0000_0000_0000_0000 * 1_000_000_000,
        min_instant() == -0x8000_0000_0000_0000 * 1_000_000_000,
{
}

} // verus!
