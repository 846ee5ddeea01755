//! The vesting schedule record and the linear vesting calculator's
//! mathematical model.

use vstd::arithmetic::div_mod::{
    lemma_div_is_ordered, lemma_div_pos_is_pos, lemma_fundamental_div_mod,
    lemma_hoist_over_denominator, lemma_mod_pos_bound, lemma_multiply_divide_le,
};
use vstd::arithmetic::mul::{lemma_mul_inequality, lemma_mul_nonnegative, lemma_mul_upper_bound};
use vstd::prelude::*;

verus! {

/// One beneficiary's linear release schedule: `total_amount` vests linearly
/// between `start_time` and `end_time`; `released_amount` has already been
/// paid out.
#[derive(Clone, Copy, Debug, PartialEq, Eq, Structural)]
pub struct VestingSchedule {
    pub total_amount: u128,
    pub released_amount: u128,
    pub start_time: u64,
    pub end_time: u64,
}

impl VestingSchedule {
    /// Data-model invariant: a positive total, a well-ordered time window,
    /// and a released amount that never exceeds the total.
    pub open spec fn wf(self) -> bool {
        &&& self.total_amount > 0
        &&& self.end_time > self.start_time
        &&& self.released_amount <= self.total_amount
    }
}

/// The amount of `s` vested at time `now`: `0` before the window, the whole
/// total after it, and in between the linear interpolation
/// `floor(total_amount * elapsed / duration)`.
pub open spec fn vested(s: VestingSchedule, now: u64) -> int {
    if now >= s.end_time {
        s.total_amount as int
    } else if now <= s.start_time {
        0
    } else {
        (s.total_amount as int) * ((now - s.start_time) as int) / ((s.end_time
            - s.start_time) as int)
    }
}

/// The vested amount always lies between `0` and `total_amount`.
pub proof fn lemma_vested_bounds(s: VestingSchedule, now: u64)
    requires
        s.wf(),
    ensures
        0 <= vested(s, now) <= s.total_amount,
{
    if s.start_time < now < s.end_time {
        let t = s.total_amount as int;
        let e = (now - s.start_time) as int;
        let d = (s.end_time - s.start_time) as int;
        lemma_mul_nonnegative(t, e);
        lemma_div_pos_is_pos(t * e, d);
        assert(t * e <= d * t) by (nonlinear_arith)
            requires
                0 <= t,
                0 < e <= d,
        ;
        lemma_multiply_divide_le(t * e, d, t);
    }
}

/// Nothing has vested at the window's start, and everything has at its end.
pub proof fn lemma_vested_boundaries(s: VestingSchedule)
    requires
        s.wf(),
    ensures
        vested(s, s.start_time) == 0,
        vested(s, s.end_time) == s.total_amount as int,
{
}

/// Vesting is monotone: the vested amount never decreases as time advances.
pub proof fn lemma_vested_monotonic(s: VestingSchedule, t1: u64, t2: u64)
    requires
        s.wf(),
        t1 <= t2,
    ensures
        vested(s, t1) <= vested(s, t2),
{
    lemma_vested_bounds(s, t1);
    lemma_vested_bounds(s, t2);
    if s.start_time < t1 < s.end_time && s.start_time < t2 < s.end_time {
        let t = s.total_amount as int;
        let e1 = (t1 - s.start_time) as int;
        let e2 = (t2 - s.start_time) as int;
        let d = (s.end_time - s.start_time) as int;
        lemma_mul_inequality(e1, e2, t);
        assert(t * e1 == e1 * t && t * e2 == e2 * t) by (nonlinear_arith);
        lemma_div_is_ordered(t * e1, t * e2, d);
    }
}

/// `floor(t * e / d)` computed without a wider intermediate: split `t` into
/// `d * (t / d) + t % d`; both factors of the remaining product `(t % d) * e`
/// then stay below `d`, so it fits in 128 bits whenever `d` fits in 64.
pub(crate) proof fn lemma_vested_split(t: int, e: int, d: int)
    requires
        0 <= t,
        0 < e < d,
        d <= 0xffff_ffff_ffff_ffff,
    ensures
        t * e / d == (t / d) * e + (t % d) * e / d,
        0 <= (t / d) * e,
        0 <= (t % d) * e < 0x1_0000_0000_0000_0000_0000_0000_0000_0000,
        0 <= (t % d) * e / d,
        (t / d) * e + (t % d) * e / d <= t,
{
    let q = t / d;
    let r = t % d;
    lemma_fundamental_div_mod(t, d);
    lemma_mod_pos_bound(t, d);
    lemma_div_pos_is_pos(t, d);
    assert(t * e == r * e + (q * e) * d) by (nonlinear_arith)
        requires
            t == d * q + r,
    ;
    lemma_hoist_over_denominator(r * e, q * e, d as nat);
    lemma_mul_nonnegative(q, e);
    lemma_mul_nonnegative(r, e);
    lemma_div_pos_is_pos(r * e, d);
    lemma_mul_upper_bound(r, d - 1, e, d - 1);
    assert((d - 1) * (d - 1) < 0x1_0000_0000_0000_0000_0000_0000_0000_0000) by (nonlinear_arith)
        requires
            0 < d <= 0xffff_ffff_ffff_ffff,
    ;
    assert(t * e <= d * t) by (nonlinear_arith)
        requires
            0 <= t,
            0 < e < d,
    ;
    lemma_multiply_divide_le(t * e, d, t);
}

} // verus!
