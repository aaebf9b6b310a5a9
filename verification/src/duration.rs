//! Time intervals in whole nanoseconds, and the conversion from scheduler ticks.

use crate::count::Count;
use vstd::prelude::*;

verus! {

/// Nanoseconds in one second.
pub const NANOS_PER_SEC: u128 = 1_000_000_000;

/// The quotient `n / d` rounded to the nearest integer; a quotient that lies
/// exactly halfway between two integers goes to the even one.
pub open spec fn div_round(n: nat, d: nat) -> nat
    recommends
        d > 0,
{
    let q = n / d;
    let r = n % d;
    if 2 * r > d || (2 * r == d && q % 2 == 1) {
        q + 1
    } else {
        q
    }
}

/// The length in nanoseconds of `ticks` scheduler ticks on a machine that
/// counts `ticks_per_second` of them in a second.
pub open spec fn ticks_to_nanos(ticks: nat, ticks_per_second: nat) -> nat
    recommends
        ticks_per_second > 0,
{
    div_round(ticks * (NANOS_PER_SEC as nat), ticks_per_second)
}

/// Rounding never exceeds the dividend: `div_round(n, d) <= n`.
pub proof fn lemma_div_round_bound(n: nat, d: nat)
    requires
        d > 0,
    ensures
        div_round(n, d) <= n,
{
    let q = n / d;
    let r = n % d;
    assert(n == q * d + r && 0 <= r < d) by {
        vstd::arithmetic::div_mod::lemma_fundamental_div_mod(n as int, d as int);
        vstd::arithmetic::div_mod::lemma_mod_bound(n as int, d as int);
        assert(d * q == q * d) by (nonlinear_arith);
    }
    assert(q * d >= q) by (nonlinear_arith)
        requires
            d >= 1,
            q >= 0,
    ;
    if 2 * r > d || (2 * r == d && q % 2 == 1) {
        // Rounding up needs a remainder, hence a divisor of at least two.
        assert(d >= 2);
        assert(q * d >= 2 * q) by (nonlinear_arith)
            requires
                d >= 2,
                q >= 0,
        ;
    }
}

/// A span of time, counted in whole nanoseconds.
#[derive(Clone, Copy, Debug, PartialEq, Eq, Structural, PartialOrd, Ord, Hash)]
pub struct Duration {
    nanos: u128,
}

impl View for Duration {
    type V = nat;

    /// The interval's length in nanoseconds.
    closed spec fn view(&self) -> nat {
        self.nanos as nat
    }
}

impl Default for Duration {
    /// The interval of no length.
    fn default() -> (d: Duration)
        ensures
            d@ == 0,
    {
        Duration { nanos: 0 }
    }
}

impl Duration {
    /// Two intervals of the same length are the same interval.
    pub proof fn lemma_view_injective(a: Duration, b: Duration)
        requires
            a@ == b@,
        ensures
            a == b,
    {
    }

    /// The interval of `nanos` nanoseconds.
    pub fn from_nanos(nanos: u128) -> (d: Duration)
        ensures
            d@ == nanos,
    {
        Duration { nanos }
    }

    /// The interval that `ticks` scheduler ticks last at `ticks_per_second`
    /// ticks to the second, to the nearest nanosecond.
    pub fn from_ticks(ticks: Count, ticks_per_second: u64) -> (d: Duration)
        requires
            ticks_per_second > 0,
        ensures
            d@ == ticks_to_nanos(ticks as nat, ticks_per_second as nat),
    {
        let n: u128 = (ticks as u128) * NANOS_PER_SEC;
        let d: u128 = ticks_per_second as u128;
        let q: u128 = n / d;
        let r: u128 = n % d;
        if 2 * r > d || (2 * r == d && q % 2 == 1) {
            Duration { nanos: q + 1 }
        } else {
            Duration { nanos: q }
        }
    }

    /// The whole length in nanoseconds.
    pub fn as_nanos(&self) -> (n: u128)
        ensures
            n == self@,
    {
        self.nanos
    }

    /// The number of whole seconds in the interval.
    pub fn as_secs(&self) -> (s: u128)
        ensures
            s == self@ / (NANOS_PER_SEC as nat),
    {
        self.nanos / NANOS_PER_SEC
    }

    /// What is left of the interval beyond its whole seconds, in nanoseconds.
    pub fn subsec_nanos(&self) -> (n: u32)
        ensures
            n == self@ % (NANOS_PER_SEC as nat),
    {
        (self.nanos % NANOS_PER_SEC) as u32
    }
}

} // verus!
