//! Rounding up to "nice" numbers, on whole numbers.

use crate::float::{
    decade_gives, double_from_count_gives, power_of_ten_gives, wide_over_gives, wide_times_gives,
    Double, FloatUnit,
};
use crate::tui::chart::{
    nice_gives, nice_step, DOUBLE_FIVE, DOUBLE_ONE, DOUBLE_TEN, DOUBLE_TWO,
};
use vstd::prelude::*;

verus! {

pub open spec fn ten_to(k: nat) -> nat
    decreases k,
{
    if k == 0 {
        1
    } else {
        10 * ten_to((k - 1) as nat)
    }
}

/// The decimal logarithm of a positive whole number, rounded down.
pub open spec fn whole_decade(v: nat) -> nat
    decreases v,
{
    if v < 10 {
        0
    } else {
        1 + whole_decade(v / 10)
    }
}

/// `n` is 1, 2 or 5 times ten to the power of `k`.
pub open spec fn nice_form(n: nat, k: nat) -> bool {
    n == ten_to(k) || n == 2 * ten_to(k) || n == 5 * ten_to(k)
}

/// `n` is 1, 2 or 5 times a power of ten.
pub open spec fn nice_number(n: nat) -> bool {
    exists|k: nat| #[trigger] nice_form(n, k)
}

/// The first of 1, 2, 5 and 10 that takes `unit` to `v` or above.
pub open spec fn whole_step(v: nat, unit: nat) -> nat {
    if v <= unit {
        1
    } else if v <= 2 * unit {
        2
    } else if v <= 5 * unit {
        5
    } else {
        10
    }
}

/// A positive whole number rounded up within its decade.
pub open spec fn nice_whole(v: nat) -> nat {
    let unit = ten_to(whole_decade(v));
    whole_step(v, unit) * unit
}

proof fn lemma_decade(v: nat)
    requires
        v >= 1,
    ensures
        ten_to(whole_decade(v)) <= v < ten_to(whole_decade(v) + 1),
        ten_to(whole_decade(v) + 1) == 10 * ten_to(whole_decade(v)),
    decreases v,
{
    if v >= 10 {
        lemma_decade(v / 10);
    } else {
        assert(ten_to(0) == 1);
        assert(ten_to(1) == 10 * ten_to(0));
    }
}

proof fn lemma_powers_ascend(j: nat, k: nat)
    requires
        j < k,
    ensures
        1 <= ten_to(j),
        10 * ten_to(j) <= ten_to(k),
    decreases k,
{
    if j > 0 {
        lemma_powers_ascend((j - 1) as nat, j);
    }
    if j + 1 < k {
        lemma_powers_ascend(j, (k - 1) as nat);
    }
}

/// Rounding a whole number up gives the least number of the form 1, 2 or 5 times a
/// power of ten that is not below it.
pub proof fn law_nice_whole_is_the_least(v: nat)
    requires
        v >= 1,
    ensures
        nice_number(nice_whole(v)),
        v <= nice_whole(v),
        forall|n: nat| #[trigger] nice_number(n) && v <= n ==> nice_whole(v) <= n,
{
    let e = whole_decade(v);
    let unit = ten_to(e);
    lemma_decade(v);
    if v <= 5 * unit {
        assert(nice_form(nice_whole(v), e));
    } else {
        assert(nice_form(nice_whole(v), e + 1));
    }
    assert forall|n: nat| #[trigger] nice_number(n) && v <= n implies nice_whole(v) <= n by {
        let k = choose|k: nat| #[trigger] nice_form(n, k);
        if k < e {
            lemma_powers_ascend(k, e);
        } else if k > e {
            lemma_powers_ascend(e, k);
        }
    }
}

/// What is nice already stays as it is.
pub proof fn law_nice_numbers_stay(v: nat)
    requires
        v >= 1,
    ensures
        nice_whole(nice_whole(v)) == nice_whole(v),
{
    law_nice_whole_is_the_least(v);
    law_nice_whole_is_the_least(nice_whole(v));
}

/// A larger number is never rounded to a smaller one.
pub proof fn law_nice_numbers_ascend(v: nat, w: nat)
    requires
        1 <= v <= w,
    ensures
        nice_whole(v) <= nice_whole(w),
{
    law_nice_whole_is_the_least(v);
    law_nice_whole_is_the_least(w);
}

/// `d` is the whole number `n`.
pub open spec fn is_whole<F: FloatUnit>(fpu: &F, d: Double, n: nat) -> bool {
    double_from_count_gives(fpu, n as u64, d)
}

/// A quotient is on the right side of 1, 2 and 5.
pub open spec fn quotient_compares(fraction: Double, v: nat, unit: nat) -> bool {
    &&& fraction.not_above(Double { bits: DOUBLE_ONE }) <==> v <= unit
    &&& fraction.not_above(Double { bits: DOUBLE_TWO }) <==> v <= 2 * unit
    &&& fraction.not_above(Double { bits: DOUBLE_FIVE }) <==> v <= 5 * unit
}

/// `step` is one of 1, 2, 5 and 10, and `factor` is its value.
pub open spec fn step_value(step: Double, factor: nat) -> bool {
    ||| step == Double { bits: DOUBLE_ONE } && factor == 1
    ||| step == Double { bits: DOUBLE_TWO } && factor == 2
    ||| step == Double { bits: DOUBLE_FIVE } && factor == 5
    ||| step == Double { bits: DOUBLE_TEN } && factor == 10
}

/// The unit makes no error on what rounding the whole number `v` up asks of it: the
/// decade and its power of ten are right, the quotient is on the right side of each
/// step, and the product is the whole number that it should be.
pub open spec fn exact_on<F: FloatUnit>(fpu: &F, value: Double, v: nat) -> bool {
    let e = whole_decade(v);
    let unit = ten_to(e);
    &&& !value.not_above(Double::zero())
    &&& forall|k: i32| #[trigger] decade_gives(fpu, value, k) ==> k == e
    &&& forall|m: Double| #[trigger] power_of_ten_gives(fpu, e as i32, m) ==> is_whole(fpu, m, unit)
    &&& forall|m: Double, fraction: Double|
        is_whole(fpu, m, unit) && #[trigger] wide_over_gives(fpu, value, m, fraction)
            ==> quotient_compares(fraction, v, unit)
    &&& forall|step: Double, factor: nat, m: Double, r: Double|
        #[trigger] step_value(step, factor) && is_whole(fpu, m, unit)
            && #[trigger] wide_times_gives(fpu, step, m, r) ==> is_whole(fpu, r, factor * unit)
}

/// Where the floating-point unit makes no error on the whole number, the end of an
/// axis for it is the least of 1, 2 or 5 times a power of ten that is not below it.
pub proof fn law_nice_ceil_of_a_whole_number<F: FloatUnit>(
    fpu: &F,
    value: Double,
    v: nat,
    r: Double,
)
    requires
        1 <= v <= 1_000_000_000,
        exact_on(fpu, value, v),
        nice_gives(fpu, value, r),
    ensures
        is_whole(fpu, r, nice_whole(v)),
{
    let unit = ten_to(whole_decade(v));
    let (exponent, magnitude, fraction) = choose|
        exponent: i32,
        magnitude: Double,
        fraction: Double,
    | #[trigger]
        decade_gives(fpu, value, exponent) && #[trigger] power_of_ten_gives(
            fpu,
            exponent,
            magnitude,
        ) && #[trigger] wide_over_gives(fpu, value, magnitude, fraction) && wide_times_gives(
            fpu,
            nice_step(fraction),
            magnitude,
            r,
        );
    assert(exponent == whole_decade(v) as i32);
    assert(is_whole(fpu, magnitude, unit));
    assert(quotient_compares(fraction, v, unit));
    assert(step_value(nice_step(fraction), whole_step(v, unit)));
}

} // verus!
