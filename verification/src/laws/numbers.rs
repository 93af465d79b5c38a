//! Laws on numbers: the order of floating-point values by their bits, the extremes of
//! a run, and the operations that the relations stand for.

use crate::float::{
    add_to_total, average, ceiling_gives, decade_gives, double_from_count_gives, fixed_gives,
    greatest, law_greatest_bounds_the_run, law_least_bounds_the_run, least, minus_gives,
    narrow_gives, over_gives, parse_gives, parse_refuses, plus_gives, power_of_ten_gives,
    run_total_gives, single_from_count_gives, times_gives, total_gives, totals_pass,
    wide_fixed_gives, wide_minus_gives, wide_over_gives, wide_plus_gives, wide_times_gives,
    widen_gives, Double, FloatUnit, Single,
};
use crate::tui::chart::{greatest_magnitude, greatest_of, least_of, magnitudes};
use vstd::prelude::*;

verus! {

/// The value is a number: the bits below the sign are at most those of infinity.
pub open spec fn number(v: Single) -> bool {
    v.bits as int % 0x8000_0000 <= 0x7F80_0000
}

/// `a` is a smaller number than `b`. Without a sign bit more bits mean more, with one
/// they mean less, and a number with a sign bit is below one without, except that both
/// zeros are one number.
pub open spec fn smaller_number(a: Single, b: Single) -> bool {
    &&& number(a)
    &&& number(b)
    &&& if a.bits < 0x8000_0000 {
        b.bits < 0x8000_0000 && a.bits < b.bits
    } else if b.bits >= 0x8000_0000 {
        a.bits > b.bits
    } else {
        a.bits > 0x8000_0000 || b.bits > 0
    }
}

/// The same for double precision.
pub open spec fn wide_number(v: Double) -> bool {
    v.bits as int % 0x8000_0000_0000_0000 <= 0x7FF0_0000_0000_0000
}

pub open spec fn smaller_wide_number(a: Double, b: Double) -> bool {
    &&& wide_number(a)
    &&& wide_number(b)
    &&& if a.bits < 0x8000_0000_0000_0000 {
        b.bits < 0x8000_0000_0000_0000 && a.bits < b.bits
    } else if b.bits >= 0x8000_0000_0000_0000 {
        a.bits > b.bits
    } else {
        a.bits > 0x8000_0000_0000_0000 || b.bits > 0
    }
}

/// `r` is the higher of two numbers; what is no number gives way to the other.
pub open spec fn higher_single(a: Single, b: Single, r: Single) -> bool {
    &&& r == a || r == b
    &&& !number(a) ==> r == b
    &&& number(a) && !number(b) ==> r == a
    &&& !smaller_number(r, a)
    &&& !smaller_number(r, b)
}

/// The same for double precision.
pub open spec fn higher_of(a: Double, b: Double, r: Double) -> bool {
    &&& r == a || r == b
    &&& !wide_number(a) ==> r == b
    &&& wide_number(a) && !wide_number(b) ==> r == a
    &&& !smaller_wide_number(r, a)
    &&& !smaller_wide_number(r, b)
}

/// `r` is the lower of two numbers; what is no number gives way to the other.
pub open spec fn lower_of(a: Double, b: Double, r: Double) -> bool {
    &&& r == a || r == b
    &&& !wide_number(a) ==> r == b
    &&& wide_number(a) && !wide_number(b) ==> r == a
    &&& !smaller_wide_number(a, r)
    &&& !smaller_wide_number(b, r)
}

/// The value is a number, and not infinite.
pub open spec fn bounded(v: Single) -> bool {
    v.bits as int % 0x8000_0000 < 0x7F80_0000
}

/// Values are compared and classified as numbers.
pub proof fn law_values_are_compared_as_numbers(
    a: Single,
    b: Single,
    less: bool,
    nan: bool,
    finite: bool,
    magnitude: Single,
)
    requires
        call_ensures(Single::less_than, (a, b), less),
        call_ensures(Single::is_nan, (a,), nan),
        call_ensures(Single::is_finite, (a,), finite),
        call_ensures(Single::abs, (a,), magnitude),
    ensures
        less <==> smaller_number(a, b),
        nan <==> !number(a),
        finite <==> a.bits as int % 0x8000_0000 < 0x7F80_0000,
        magnitude.bits == a.bits as int % 0x8000_0000,
{
}

/// The larger and the smaller of two values are one of them, and beyond neither; what
/// is no number gives way to what is one.
pub proof fn law_the_larger_and_the_smaller_of_two(
    a: Single,
    b: Single,
    max: Single,
    min: Single,
)
    requires
        call_ensures(Single::max, (a, b), max),
        call_ensures(Single::min, (a, b), min),
    ensures
        !number(a) ==> max == b && min == b,
        number(a) && !number(b) ==> max == a && min == a,
        max == a || max == b,
        min == a || min == b,
        !smaller_number(max, a) && !smaller_number(max, b),
        !smaller_number(a, min) && !smaller_number(b, min),
{
}

/// The same for double precision, with negation and `<=`.
pub proof fn law_wide_values_are_compared_as_numbers(
    a: Double,
    b: Double,
    less: bool,
    at_most: bool,
    nan: bool,
    negated: Double,
    max: Double,
    min: Double,
)
    requires
        call_ensures(Double::less_than, (a, b), less),
        call_ensures(Double::at_most, (a, b), at_most),
        call_ensures(Double::is_nan, (a,), nan),
        call_ensures(Double::negated, (a,), negated),
        call_ensures(Double::max, (a, b), max),
        call_ensures(Double::min, (a, b), min),
    ensures
        less <==> smaller_wide_number(a, b),
        at_most <==> wide_number(a) && wide_number(b) && !smaller_wide_number(b, a),
        nan <==> !wide_number(a),
        negated.bits as int % 0x8000_0000_0000_0000 == a.bits as int % 0x8000_0000_0000_0000,
        negated.bits != a.bits,
        !wide_number(a) ==> max == b && min == b,
        wide_number(a) && !wide_number(b) ==> max == a && min == a,
        max == a || max == b,
        min == a || min == b,
        !smaller_wide_number(max, a) && !smaller_wide_number(max, b),
        !smaller_wide_number(a, min) && !smaller_wide_number(b, min),
{
}

/// `m` is the least number of a run: infinity or one of the run, with no number of the
/// run below it.
pub open spec fn least_of_run(run: Seq<Single>, m: Single) -> bool {
    &&& number(m)
    &&& m.bits == 0x7F80_0000 || run.contains(m)
    &&& forall|k: int| 0 <= k < run.len() ==> !smaller_number(#[trigger] run[k], m)
}

/// `m` is the greatest number of a run: the given floor or one of the run, with no
/// number of the run, nor the floor, above it.
pub open spec fn greatest_of_run(floor: Single, run: Seq<Single>, m: Single) -> bool {
    &&& number(m)
    &&& m == floor || run.contains(m)
    &&& !smaller_number(m, floor)
    &&& forall|k: int| 0 <= k < run.len() ==> !smaller_number(m, #[trigger] run[k])
}

pub proof fn lemma_least_of_run(run: Seq<Single>)
    ensures
        least_of_run(run, least(Single::infinity(), run)),
{
    let m = least(Single::infinity(), run);
    law_least_bounds_the_run(Single::infinity(), run);
    assert forall|k: int| 0 <= k < run.len() implies !smaller_number(#[trigger] run[k], m) by {
        assert(!run[k].nan() ==> run[k].ordinal() >= m.ordinal());
    }
}

pub proof fn lemma_greatest_of_run(floor: Single, run: Seq<Single>)
    requires
        number(floor),
    ensures
        greatest_of_run(floor, run, greatest(floor, run)),
{
    let m = greatest(floor, run);
    law_greatest_bounds_the_run(floor, run);
    assert forall|k: int| 0 <= k < run.len() implies !smaller_number(m, #[trigger] run[k]) by {
        assert(!run[k].nan() ==> run[k].ordinal() <= m.ordinal());
    }
}

/// The extremes of a run are its own, and bound all of it.
pub proof fn law_extremes_bound_their_run(
    floor: Single,
    samples: &[Single],
    from: usize,
    to: usize,
    max: Single,
    min: Single,
)
    requires
        number(floor),
        from <= to <= samples@.len(),
        call_ensures(greatest_of, (floor, samples, from, to), max),
        call_ensures(least_of, (Single { bits: 0x7F80_0000 }, samples), min),
    ensures
        greatest_of_run(floor, samples@.subrange(from as int, to as int), max),
        least_of_run(samples@, min),
{
    lemma_greatest_of_run(floor, samples@.subrange(from as int, to as int));
    lemma_least_of_run(samples@);
}

/// `m` is the greatest magnitude in a run: zero, or that of one of the run, and no
/// number of the run is greater in magnitude.
pub open spec fn greatest_magnitude_of_run(run: Seq<Single>, m: Single) -> bool {
    &&& m.bits <= 0x7F80_0000
    &&& m.bits == 0 || exists|k: int|
        0 <= k < run.len() && m.bits == (#[trigger] run[k]).bits as int % 0x8000_0000
    &&& forall|k: int|
        0 <= k < run.len() && number(#[trigger] run[k]) ==> run[k].bits as int % 0x8000_0000
            <= m.bits
}

pub proof fn lemma_greatest_magnitude(run: Seq<Single>)
    ensures
        greatest_magnitude_of_run(run, greatest(Single::zero(), magnitudes(run))),
{
    let all = magnitudes(run);
    let m = greatest(Single::zero(), all);
    lemma_greatest_of_run(Single::zero(), all);
    assert forall|k: int| 0 <= k < run.len() && number(#[trigger] run[k]) implies run[k].bits as int
        % 0x8000_0000 <= m.bits by {
        assert(!smaller_number(m, all[k]));
    }
    if m != Single::zero() {
        let k = choose|k: int| 0 <= k < all.len() && all[k] == m;
        assert(run[k].bits as int % 0x8000_0000 == m.bits);
    }
    assert(m.bits < 0x8000_0000) by {
        if m != Single::zero() {
            let k = choose|k: int| 0 <= k < all.len() && all[k] == m;
            assert(all[k] == run[k].absolute());
        }
    }
}

/// The greatest magnitude counts negative samples like positive ones.
pub proof fn law_the_greatest_magnitude_bounds_the_run(
    samples: &[Single],
    from: usize,
    m: Single,
)
    requires
        from <= samples@.len(),
        call_ensures(greatest_magnitude, (samples, from), m),
    ensures
        greatest_magnitude_of_run(samples@.skip(from as int), m),
{
    lemma_greatest_magnitude(samples@.skip(from as int));
}

/// `r` is a total with a sample added to it, in double precision.
pub open spec fn added<F: FloatUnit>(fpu: &F, total: Double, ua: Single, r: Double) -> bool {
    exists|wide: Double|
        #[trigger] call_ensures(F::widen, (fpu, ua), wide) && call_ensures(
            F::wide_plus,
            (fpu, total, wide),
            r,
        )
}

/// `totals` are what a run of samples adds up to, one after the other from zero on.
pub open spec fn totals_of<F: FloatUnit>(
    fpu: &F,
    run: Seq<Single>,
    totals: Seq<Double>,
) -> bool {
    &&& totals.len() == run.len() + 1
    &&& totals[0].bits == 0
    &&& forall|k: int|
        0 <= k < run.len() ==> added(fpu, totals[k], #[trigger] run[k], totals[k + 1])
}

pub proof fn lemma_totals<F: FloatUnit>(fpu: &F, run: Seq<Single>, r: Double) -> (totals: Seq<
    Double,
>)
    requires
        run_total_gives(fpu, run, r),
    ensures
        totals_of(fpu, run, totals),
        r == totals[run.len() as int],
{
    let totals = choose|totals: Seq<Double>| #[trigger]
        totals_pass(fpu, run, totals) && r == totals.last();
    assert forall|k: int| 0 <= k < run.len() implies added(
        fpu,
        totals[k],
        #[trigger] run[k],
        totals[k + 1],
    ) by {
        assert(total_gives(fpu, totals[k], run[k], totals[k + 1]));
        let wide = choose|wide: Double| #[trigger]
            widen_gives(fpu, run[k], wide) && wide_plus_gives(fpu, totals[k], wide, totals[k + 1]);
        assert(call_ensures(F::widen, (fpu, run[k]), wide));
    }
    totals
}

/// Adding to a total adds the sample; averaging divides by the count, as it is.
pub proof fn law_totals_are_added_and_divided<F: FloatUnit>(
    fpu: &F,
    total: Double,
    ua: Single,
    n: u64,
    sum: Double,
    mean: Double,
)
    requires
        call_ensures(add_to_total::<F>, (fpu, total, ua), sum),
        call_ensures(average::<F>, (fpu, total, n), mean),
    ensures
        added(fpu, total, ua, sum),
        exists|count: Double|
            #[trigger] call_ensures(F::double_from_count, (fpu, n), count) && call_ensures(
                F::wide_over,
                (fpu, total, count),
                mean,
            ),
{
    let wide = choose|wide: Double| #[trigger]
        widen_gives(fpu, ua, wide) && wide_plus_gives(fpu, total, wide, sum);
    assert(call_ensures(F::widen, (fpu, ua), wide));
    let count = choose|count: Double| #[trigger]
        double_from_count_gives(fpu, n, count) && wide_over_gives(fpu, total, count, mean);
    assert(call_ensures(F::double_from_count, (fpu, n), count));
}

/// Each relation stands for the operation that it is named after, on its operands in
/// their order.
pub proof fn law_relations_stand_for_their_operations<F: FloatUnit>(
    fpu: &F,
    n: u64,
    a: Single,
    b: Single,
    r: Single,
    x: Double,
    y: Double,
    z: Double,
    e: i32,
    u: usize,
)
    ensures
        single_from_count_gives(fpu, n, r) == call_ensures(F::single_from_count, (fpu, n), r),
        plus_gives(fpu, a, b, r) == call_ensures(F::plus, (fpu, a, b), r),
        minus_gives(fpu, a, b, r) == call_ensures(F::minus, (fpu, a, b), r),
        times_gives(fpu, a, b, r) == call_ensures(F::times, (fpu, a, b), r),
        over_gives(fpu, a, b, r) == call_ensures(F::over, (fpu, a, b), r),
        widen_gives(fpu, a, z) == call_ensures(F::widen, (fpu, a), z),
        narrow_gives(fpu, x, r) == call_ensures(F::narrow, (fpu, x), r),
        double_from_count_gives(fpu, n, z) == call_ensures(F::double_from_count, (fpu, n), z),
        wide_plus_gives(fpu, x, y, z) == call_ensures(F::wide_plus, (fpu, x, y), z),
        wide_minus_gives(fpu, x, y, z) == call_ensures(F::wide_minus, (fpu, x, y), z),
        wide_times_gives(fpu, x, y, z) == call_ensures(F::wide_times, (fpu, x, y), z),
        wide_over_gives(fpu, x, y, z) == call_ensures(F::wide_over, (fpu, x, y), z),
        decade_gives(fpu, x, e) == call_ensures(F::decade, (fpu, x), e),
        power_of_ten_gives(fpu, e, z) == call_ensures(F::power_of_ten, (fpu, e), z),
        ceiling_gives(fpu, x, u) == call_ensures(F::ceiling, (fpu, x), u),
{
}

/// Printed digits are those that the unit prints for the value and the places, and
/// parsed values those that it parses from the text.
pub proof fn law_texts_are_those_of_the_unit<F: FloatUnit>(
    fpu: &F,
    v: Single,
    x: Double,
    places: u8,
    text: Seq<char>,
    why: Seq<char>,
)
    ensures
        fixed_gives(fpu, v, places, text) ==> exists|s: String| #[trigger]
            call_ensures(F::fixed, (fpu, v, places), s) && s@ == text,
        wide_fixed_gives(fpu, x, places, text) ==> exists|s: String| #[trigger]
            call_ensures(F::wide_fixed, (fpu, x, places), s) && s@ == text,
        parse_gives(fpu, text, v) ==> exists|t: &str, r: Result<Single, String>|
            #[trigger] call_ensures(F::parse, (fpu, t), r) && t@ == text && r == Ok::<
                Single,
                String,
            >(v),
        parse_refuses(fpu, text, why) ==> exists|t: &str, r: Result<Single, String>|
            #[trigger] call_ensures(F::parse, (fpu, t), r) && t@ == text && r is Err && r->Err_0@
                == why,
{
}

} // verus!
