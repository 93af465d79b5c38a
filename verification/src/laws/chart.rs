//! Laws on the chart: where its points lie, and how high they reach.

use crate::float::{
    ceiling_gives, decade_gives, double_from_count_gives, over_gives, plus_gives,
    power_of_ten_gives, single_from_count_gives, times_gives, wide_minus_gives, wide_over_gives,
    wide_times_gives, widen_gives, Double, FloatUnit, Single,
};
use crate::laws::numbers::{
    bounded, higher_single, lemma_greatest_of_run, lower_of, number, smaller_number,
    smaller_wide_number, wide_number,
};
use crate::tui::chart::{
    bucket_end, bucket_from, bucket_gives, bucket_peak, bucket_samples, bucket_to, chart_points,
    column_gives, column_rows_give, columns_give, joined, law_age_decides_the_column, lemma_grid,
    mean, mean_gives, missing, newest_from, nice_ceil, nice_gives, nice_step, points_give,
    reach_gives, round_up_fraction, row_height_gives, sum_gives, sum_passes, time_gives, top_gives,
    Point,
};
use vstd::prelude::*;

verus! {

/// The mean of a run: its sum, from negative zero on, over how many there are; zero for
/// none.
pub open spec fn mean_of_run<F: FloatUnit>(fpu: &F, run: Seq<Single>, r: Single) -> bool {
    if run.len() == 0 {
        r.bits == 0
    } else {
        exists|sums: Seq<Single>, count: Single|
            #[trigger] sums_of(fpu, run, sums) && #[trigger] call_ensures(
                F::single_from_count,
                (fpu, run.len() as u64),
                count,
            ) && call_ensures(F::over, (fpu, sums[run.len() as int], count), r)
    }
}

/// `sums` are what ever more of a run add up to.
pub open spec fn sums_of<F: FloatUnit>(fpu: &F, run: Seq<Single>, sums: Seq<Single>) -> bool {
    &&& sums.len() == run.len() + 1
    &&& sums[0].bits == 0x8000_0000
    &&& forall|k: int|
        0 <= k < run.len() ==> call_ensures(
            F::plus,
            (fpu, sums[k], #[trigger] run[k]),
            sums[k + 1],
        )
}

pub proof fn lemma_mean<F: FloatUnit>(fpu: &F, run: Seq<Single>, r: Single)
    requires
        mean_gives(fpu, run, r),
    ensures
        mean_of_run(fpu, run, r),
{
    if run.len() > 0 {
        let (sum, count) = choose|sum: Single, count: Single|
            #[trigger] sum_gives(fpu, run, sum) && #[trigger] single_from_count_gives(
                fpu,
                run.len() as u64,
                count,
            ) && over_gives(fpu, sum, count, r);
        let sums = choose|sums: Seq<Single>| #[trigger]
            sum_passes(fpu, run, sums) && sum == sums.last();
        assert forall|k: int| 0 <= k < run.len() implies call_ensures(
            F::plus,
            (fpu, sums[k], #[trigger] run[k]),
            sums[k + 1],
        ) by {
            assert(plus_gives(fpu, sums[k], run[k], sums[k + 1]));
        }
        assert(sums_of(fpu, run, sums));
        assert(call_ensures(F::single_from_count, (fpu, run.len() as u64), count));
    }
}

/// The mean of what follows a position is its sum over its length.
pub proof fn law_means_are_sums_over_counts<F: FloatUnit>(
    fpu: &F,
    samples: &[Single],
    from: usize,
    r: Single,
)
    requires
        from <= samples@.len(),
        call_ensures(mean::<F>, (fpu, samples, from), r),
    ensures
        mean_of_run(fpu, samples@.skip(from as int), r),
{
    lemma_mean(fpu, samples@.skip(from as int), r);
}

/// The last `n` samples begin `n` before the end, or at the start.
pub proof fn law_the_last_samples_begin_that_many_before_the_end(
    samples: &[Single],
    n: u64,
    from: usize,
)
    requires
        call_ensures(newest_from, (samples, n), from),
    ensures
        samples@.len() <= n ==> from == 0,
        samples@.len() > n ==> from + n == samples@.len(),
{
}

/// `step` is the first of 1, 2, 5 and 10 that is not below the fraction; 10 where none
/// is.
pub open spec fn first_step(fraction: Double, step: Double) -> bool {
    let one = Double { bits: 0x3FF0_0000_0000_0000 };
    let two = Double { bits: 0x4000_0000_0000_0000 };
    let five = Double { bits: 0x4014_0000_0000_0000 };
    let ten = Double { bits: 0x4024_0000_0000_0000 };
    let reaches_one = wide_number(fraction) && !smaller_wide_number(one, fraction);
    let reaches_two = wide_number(fraction) && !smaller_wide_number(two, fraction);
    let reaches_five = wide_number(fraction) && !smaller_wide_number(five, fraction);
    &&& reaches_one ==> step == one
    &&& !reaches_one && reaches_two ==> step == two
    &&& !reaches_two && reaches_five ==> step == five
    &&& !reaches_five ==> step == ten
}

/// What rounding up goes through.
pub struct RoundedParts {
    pub exponent: i32,
    pub magnitude: Double,
    pub fraction: Double,
    pub step: Double,
}

pub open spec fn rounding_steps<F: FloatUnit>(
    fpu: &F,
    value: Double,
    parts: RoundedParts,
    r: Double,
) -> bool {
    &&& call_ensures(F::decade, (fpu, value), parts.exponent)
    &&& call_ensures(F::power_of_ten, (fpu, parts.exponent), parts.magnitude)
    &&& call_ensures(F::wide_over, (fpu, value, parts.magnitude), parts.fraction)
    &&& first_step(parts.fraction, parts.step)
    &&& call_ensures(F::wide_times, (fpu, parts.step, parts.magnitude), r)
}

/// `r` is a value rounded up: 1 for a number that is not positive; otherwise the first
/// of 1, 2, 5 and 10 times the value's power of ten that reaches it.
pub open spec fn rounded_up<F: FloatUnit>(fpu: &F, value: Double, r: Double) -> bool {
    let zero = Double { bits: 0 };
    if wide_number(value) && !smaller_wide_number(zero, value) {
        r.bits == 0x3FF0_0000_0000_0000
    } else {
        exists|parts: RoundedParts| #[trigger] rounding_steps(fpu, value, parts, r)
    }
}

pub proof fn lemma_rounded_up<F: FloatUnit>(fpu: &F, value: Double, r: Double)
    requires
        nice_gives(fpu, value, r),
    ensures
        rounded_up(fpu, value, r),
{
    if !value.not_above(Double::zero()) {
        let (exponent, magnitude, fraction) = choose|
            exponent: i32,
            magnitude: Double,
            fraction: Double,
        |
            #[trigger] decade_gives(fpu, value, exponent) && #[trigger] power_of_ten_gives(
                fpu,
                exponent,
                magnitude,
            ) && #[trigger] wide_over_gives(fpu, value, magnitude, fraction) && wide_times_gives(
                fpu,
                nice_step(fraction),
                magnitude,
                r,
            );
        let parts = RoundedParts { exponent, magnitude, fraction, step: nice_step(fraction) };
        assert(rounding_steps(fpu, value, parts, r));
    }
}

/// Rounding up goes to 1, 2, 5 or 10 times the power of ten.
pub proof fn law_rounding_up_goes_to_the_first_step<F: FloatUnit>(
    fpu: &F,
    value: Double,
    r: Double,
    fraction: Double,
    step: Double,
)
    requires
        call_ensures(nice_ceil::<F>, (fpu, value), r),
        call_ensures(round_up_fraction, (fraction,), step),
    ensures
        rounded_up(fpu, value, r),
        first_step(fraction, step),
{
    lemma_rounded_up(fpu, value, r);
}

/// Which of the 500 slots of a window of `secs` seconds the sample `k` of `n` visible
/// ones falls in: a slot holds 200 samples per second of the window, and the newest
/// sample is the last of the last slot.
pub open spec fn slot_of(secs: u16, n: nat, k: int) -> int {
    (100_000 * secs - n + k) / (200 * secs)
}

/// `peak` is the greatest number among the samples of a slot; negative infinity where
/// there is none.
pub open spec fn slot_peak(secs: u16, visible: Seq<Single>, i: int, peak: Single) -> bool {
    &&& number(peak)
    &&& peak.bits == 0xFF80_0000 || exists|k: int|
        0 <= k < visible.len() && slot_of(secs, visible.len(), k) == i && #[trigger] visible[k]
            == peak
    &&& forall|k: int|
        0 <= k < visible.len() && slot_of(secs, visible.len(), k) == i ==> !smaller_number(
            peak,
            #[trigger] visible[k],
        )
}

/// What a column is made of.
pub struct ColumnParts {
    pub end: Double,
    pub window: Double,
    pub late: Double,
    pub t: Double,
    pub lifted: Single,
    pub scaled: Single,
    pub top: Double,
    pub ratio: Double,
    pub needed: usize,
}

/// A point of the column stands at each row, as high as the row but not above the top.
pub open spec fn row_stands<F: FloatUnit>(
    fpu: &F,
    row: int,
    y_step: Double,
    parts: ColumnParts,
    point: Point,
) -> bool {
    &&& point.x == parts.t
    &&& exists|count: Double, height: Double|
        #[trigger] call_ensures(F::double_from_count, (fpu, row as u64), count)
            && #[trigger] call_ensures(F::wide_times, (fpu, count, y_step), height) && lower_of(
            height,
            parts.top,
            point.y,
        )
}

pub open spec fn column_steps<F: FloatUnit>(
    fpu: &F,
    secs: u16,
    factor: Single,
    y_step: Double,
    rows: int,
    i: int,
    peak: Single,
    parts: ColumnParts,
    column: Seq<Point>,
) -> bool {
    &&& call_ensures(F::double_from_count, (fpu, (200 * secs * (i + 1)) as u64), parts.end)
    &&& call_ensures(F::double_from_count, (fpu, (100_000 * secs) as u64), parts.window)
    &&& call_ensures(F::wide_minus, (fpu, parts.end, parts.window), parts.late)
    &&& call_ensures(
        F::wide_over,
        (fpu, parts.late, Double { bits: 0x40F8_6A00_0000_0000 }),
        parts.t,
    )
    &&& higher_single(peak, Single { bits: 0 }, parts.lifted)
    &&& call_ensures(F::times, (fpu, parts.lifted, factor), parts.scaled)
    &&& call_ensures(F::widen, (fpu, parts.scaled), parts.top)
    &&& call_ensures(F::wide_over, (fpu, parts.top, y_step), parts.ratio)
    &&& call_ensures(F::ceiling, (fpu, parts.ratio), parts.needed)
    &&& column.len() == 1 + if parts.needed <= rows {
        parts.needed as int
    } else {
        rows
    }
    &&& forall|row: int|
        0 <= row < column.len() ==> row_stands(fpu, row, y_step, parts, #[trigger] column[row])
}

/// The column of a slot with the given peak. It stands where the slot ends, in seconds
/// before now. Its top is the peak, or zero where that is higher, times the factor. It
/// has a point for each row up to its top, and for all rows where the top is beyond.
pub open spec fn column_stands<F: FloatUnit>(
    fpu: &F,
    secs: u16,
    factor: Single,
    y_step: Double,
    rows: int,
    i: int,
    peak: Single,
    column: Seq<Point>,
) -> bool {
    exists|parts: ColumnParts| #[trigger]
        column_steps(fpu, secs, factor, y_step, rows, i, peak, parts, column)
}

/// The points from `a` to `b` are those of one slot: a column where its peak is a
/// number and not infinite, and none otherwise.
pub open spec fn slot_drawn<F: FloatUnit>(
    fpu: &F,
    secs: u16,
    factor: Single,
    visible: Seq<Single>,
    y_step: Double,
    rows: int,
    points: Seq<Point>,
    i: int,
    peak: Single,
    a: int,
    b: int,
) -> bool {
    &&& 0 <= a <= b <= points.len()
    &&& slot_peak(secs, visible, i, peak)
    &&& bounded(peak) ==> column_stands(
        fpu,
        secs,
        factor,
        y_step,
        rows,
        i,
        peak,
        points.subrange(a, b),
    )
    &&& !bounded(peak) ==> a == b
}

/// The points are those of the 500 slots, one after the other.
pub open spec fn slots_drawn<F: FloatUnit>(
    fpu: &F,
    secs: u16,
    factor: Single,
    visible: Seq<Single>,
    y_step: Double,
    rows: int,
    points: Seq<Point>,
    cuts: Seq<int>,
    peaks: Seq<Single>,
) -> bool {
    &&& cuts.len() == 501
    &&& peaks.len() == 500
    &&& cuts[0] == 0
    &&& cuts[500] == points.len()
    &&& forall|i: int|
        0 <= i < 500 ==> slot_drawn(
            fpu,
            secs,
            factor,
            visible,
            y_step,
            rows,
            points,
            i,
            #[trigger] peaks[i],
            cuts[i],
            cuts[i + 1],
        )
}

pub open spec fn chart_drawn<F: FloatUnit>(
    fpu: &F,
    secs: u16,
    factor: Single,
    visible: Seq<Single>,
    y_step: Double,
    rows: int,
    points: Seq<Point>,
) -> bool {
    if secs == 0 {
        points.len() == 0
    } else {
        exists|cuts: Seq<int>, peaks: Seq<Single>| #[trigger]
            slots_drawn(fpu, secs, factor, visible, y_step, rows, points, cuts, peaks)
    }
}

/// `cuts` are where the columns of a joined row of points begin and end.
spec fn cuts_fit(columns: Seq<Seq<Point>>, cuts: Seq<int>) -> bool {
    &&& cuts.len() == columns.len() + 1
    &&& cuts[0] == 0
    &&& cuts[columns.len() as int] == joined(columns).len()
    &&& forall|i: int|
        0 <= i < columns.len() ==> cut_fits(
            joined(columns),
            cuts[i],
            cuts[i + 1],
            #[trigger] columns[i],
        )
}

/// The column is what lies between two cuts.
spec fn cut_fits(all: Seq<Point>, a: int, b: int, column: Seq<Point>) -> bool {
    0 <= a <= b <= all.len() && all.subrange(a, b) == column
}

proof fn lemma_cuts(columns: Seq<Seq<Point>>) -> (cuts: Seq<int>)
    ensures
        cuts_fit(columns, cuts),
    decreases columns.len(),
{
    if columns.len() == 0 {
        let cuts = seq![0int];
        assert(joined(columns).len() == 0);
        assert(cuts_fit(columns, cuts));
        cuts
    } else {
        let had = columns.drop_last();
        let before = lemma_cuts(had);
        let all = joined(columns);
        let cuts = before.push(all.len() as int);
        assert forall|i: int| 0 <= i < columns.len() implies cut_fits(
            all,
            cuts[i],
            cuts[i + 1],
            #[trigger] columns[i],
        ) by {
            if i < had.len() {
                assert(had[i] == columns[i]);
                assert(cut_fits(joined(had), before[i], before[i + 1], had[i]));
                assert(all.subrange(cuts[i], cuts[i + 1]) =~= joined(had).subrange(
                    before[i],
                    before[i + 1],
                ));
            } else {
                assert(all.subrange(cuts[i], cuts[i + 1]) =~= columns.last());
            }
        }
        assert(cuts[0] == before[0]);
        cuts
    }
}

proof fn lemma_slot_peak(secs: u16, visible: Seq<Single>, i: int)
    requires
        secs > 0,
        visible.len() <= 100_000 * secs,
        0 <= i < 500,
    ensures
        slot_peak(secs, visible, i, bucket_peak(secs, visible, i)),
        bucket_end(secs, i) <= missing(secs, visible.len()) ==> !bounded(
            bucket_peak(secs, visible, i),
        ),
{
    let n = visible.len();
    let peak = bucket_peak(secs, visible, i);
    let run = bucket_samples(secs, visible, i);
    let from = bucket_from(secs, n, i);
    let to = bucket_to(secs, n, i);
    let floor = Single { bits: 0xFF80_0000 };
    lemma_grid(secs, n, i);
    let b = 200 * secs;
    assert((i + 1) * b == i * b + b) by (nonlinear_arith);
    lemma_greatest_of_run(floor, run);
    assert(0 <= from <= to <= n);
    assert forall|k: int| 0 <= k < n implies (slot_of(secs, n, k) == i <==> from <= k < to) by {
        law_age_decides_the_column(secs, n, k, i);
        assert(100_000 * secs - 1 - (n - 1 - k) == 100_000 * secs - n + k);
    }
    assert forall|k: int| 0 <= k < n && slot_of(secs, n, k) == i implies !smaller_number(
        peak,
        #[trigger] visible[k],
    ) by {
        assert(run[k - from] == visible[k]);
    }
    if peak != floor {
        let j = choose|j: int| 0 <= j < run.len() && run[j] == peak;
        assert(visible[j + from] == peak);
        assert(slot_of(secs, n, j + from) == i);
    }
    if bucket_end(secs, i) <= missing(secs, n) {
        assert(run.len() == 0);
        assert(!run.contains(peak));
    }
}

proof fn lemma_column<F: FloatUnit>(
    fpu: &F,
    secs: u16,
    factor: Single,
    visible: Seq<Single>,
    y_step: Double,
    rows: int,
    i: int,
    column: Seq<Point>,
)
    requires
        secs > 0,
        visible.len() <= 100_000 * secs,
        0 <= i < 500,
        rows >= 0,
        bucket_gives(fpu, secs, factor, visible, y_step, rows, i, column),
    ensures
        ({
            let peak = bucket_peak(secs, visible, i);
            &&& bounded(peak) ==> column_stands(fpu, secs, factor, y_step, rows, i, peak, column)
            &&& !bounded(peak) ==> column.len() == 0
        }),
{
    let peak = bucket_peak(secs, visible, i);
    lemma_slot_peak(secs, visible, i);
    lemma_grid(secs, visible.len(), i);
    if bounded(peak) {
        let (t, top) = choose|t: Double, top: Double|
            #[trigger] time_gives(fpu, secs, i, t) && #[trigger] top_gives(fpu, peak, factor, top)
                && column_gives(fpu, t, top, y_step, rows, column);
        let (end, window, late) = choose|end: Double, window: Double, late: Double|
            #[trigger] double_from_count_gives(fpu, bucket_end(secs, i) as u64, end)
                && #[trigger] double_from_count_gives(
                fpu,
                crate::ring::window_len(secs) as u64,
                window,
            ) && #[trigger] wide_minus_gives(fpu, end, window, late) && wide_over_gives(
                fpu,
                late,
                Double { bits: 0x40F8_6A00_0000_0000 },
                t,
            );
        let lifted = peak.larger(Single::zero());
        let scaled = choose|scaled: Single| #[trigger]
            times_gives(fpu, lifted, factor, scaled) && widen_gives(fpu, scaled, top);
        let reach = choose|reach: int| #[trigger]
            reach_gives(fpu, top, y_step, rows, reach) && column_rows_give(
                fpu,
                t,
                top,
                y_step,
                reach,
                column,
            );
        let (ratio, needed) = choose|ratio: Double, needed: usize|
            #[trigger] wide_over_gives(fpu, top, y_step, ratio) && #[trigger] ceiling_gives(
                fpu,
                ratio,
                needed,
            ) && reach == if needed < rows {
                needed as int
            } else {
                rows
            };
        let parts = ColumnParts { end, window, late, t, lifted, scaled, top, ratio, needed };
        assert(bucket_end(secs, i) == 200 * secs * (i + 1)) by {
            assert((i + 1) * (200 * secs) == 200 * secs * (i + 1)) by (nonlinear_arith);
        }
        assert forall|row: int| 0 <= row < column.len() implies row_stands(
            fpu,
            row,
            y_step,
            parts,
            #[trigger] column[row],
        ) by {
            let y = column[row].y;
            assert(row_height_gives(fpu, row, y_step, top, y));
            let (count, height) = choose|count: Double, height: Double|
                #[trigger] double_from_count_gives(fpu, row as u64, count)
                    && #[trigger] wide_times_gives(fpu, count, y_step, height) && y
                    == height.smaller(top);
            assert(call_ensures(F::double_from_count, (fpu, row as u64), count));
            assert(call_ensures(F::wide_times, (fpu, count, y_step), height));
            assert(lower_of(height, top, y));
        }
        assert(column_steps(fpu, secs, factor, y_step, rows, i, peak, parts, column));
    }
}

pub proof fn lemma_chart_drawn<F: FloatUnit>(
    fpu: &F,
    secs: u16,
    factor: Single,
    visible: Seq<Single>,
    y_step: Double,
    rows: int,
    points: Seq<Point>,
)
    requires
        visible.len() <= 100_000 * secs,
        rows >= 0,
        points_give(fpu, secs, factor, visible, y_step, rows, points),
    ensures
        chart_drawn(fpu, secs, factor, visible, y_step, rows, points),
{
    let columns = choose|columns: Seq<Seq<Point>>| #[trigger]
        columns_give(fpu, secs, factor, visible, y_step, rows, columns) && columns.len() == 500
            && points == joined(columns);
    if secs == 0 {
        lemma_no_columns(fpu, factor, visible, y_step, rows, columns);
    } else {
        let cuts = lemma_cuts(columns);
        let peaks = Seq::new(500, |i: int| bucket_peak(secs, visible, i));
        assert forall|i: int| 0 <= i < 500 implies slot_drawn(
            fpu,
            secs,
            factor,
            visible,
            y_step,
            rows,
            points,
            i,
            #[trigger] peaks[i],
            cuts[i],
            cuts[i + 1],
        ) by {
            lemma_column(fpu, secs, factor, visible, y_step, rows, i, columns[i]);
            lemma_slot_peak(secs, visible, i);
            assert(cut_fits(points, cuts[i], cuts[i + 1], columns[i]));
        }
        assert(slots_drawn(fpu, secs, factor, visible, y_step, rows, points, cuts, peaks));
    }
}

proof fn lemma_no_columns<F: FloatUnit>(
    fpu: &F,
    factor: Single,
    visible: Seq<Single>,
    y_step: Double,
    rows: int,
    columns: Seq<Seq<Point>>,
)
    requires
        visible.len() == 0,
        columns.len() <= 500,
        columns_give(fpu, 0, factor, visible, y_step, rows, columns),
    ensures
        joined(columns).len() == 0,
    decreases columns.len(),
{
    if columns.len() > 0 {
        let had = columns.drop_last();
        assert forall|i: int| 0 <= i < had.len() implies bucket_gives(
            fpu,
            0,
            factor,
            visible,
            y_step,
            rows,
            i,
            #[trigger] had[i],
        ) by {
            assert(had[i] == columns[i]);
        }
        lemma_no_columns(fpu, factor, visible, y_step, rows, had);
        let i = columns.len() - 1;
        lemma_grid(0, 0, i);
        assert(bucket_gives(fpu, 0, factor, visible, y_step, rows, i, columns[i]));
    }
}

/// The points of a chart are those of its slots, from left to right: for each slot with
/// a number in it a column as high as its greatest sample, times the factor.
pub proof fn law_columns_reach_their_peaks_times_the_factor<F: FloatUnit>(
    fpu: &F,
    secs: u16,
    factor: Single,
    visible: &[Single],
    y_step: Double,
    rows: usize,
    points: Vec<Point>,
)
    requires
        visible@.len() <= 100_000 * secs,
        call_ensures(chart_points::<F>, (fpu, secs, factor, visible, y_step, rows), points),
    ensures
        chart_drawn(fpu, secs, factor, visible@, y_step, rows as int, points@),
{
    lemma_chart_drawn(fpu, secs, factor, visible@, y_step, rows as int, points@);
}

/// Every sample falls in one of the slots, the newest in the last one.
pub proof fn law_every_visible_sample_has_a_slot(secs: u16, n: nat, k: int)
    requires
        secs > 0,
        n <= 100_000 * secs,
        0 <= k < n,
    ensures
        0 <= slot_of(secs, n, k) < 500,
        slot_of(secs, n, n - 1) == 499,
{
    let b = 200 * secs;
    let position = 100_000 * secs - n + k;
    vstd::arithmetic::div_mod::lemma_fundamental_div_mod(position, b);
    let i = position / b;
    assert(0 <= i < 500) by (nonlinear_arith)
        requires
            position == b * i + position % b,
            0 <= position % b < b,
            0 <= position < 500 * b,
            b > 0,
    ;
    assert(100_000 * secs - 1 == 499 * b + (b - 1));
    vstd::arithmetic::div_mod::lemma_fundamental_div_mod_converse(
        100_000 * secs - 1,
        b,
        499,
        b - 1,
    );
}

/// `visible[k]` is the greatest of the visible samples: positive, not infinite, and no
/// number among them is above it.
pub open spec fn greatest_at(visible: Seq<Single>, k: int) -> bool {
    &&& 0 <= k < visible.len()
    &&& bounded(visible[k])
    &&& smaller_number(Single { bits: 0 }, visible[k])
    &&& forall|j: int|
        0 <= j < visible.len() ==> !smaller_number(visible[k], #[trigger] visible[j])
}

/// Among the points is the column of a slot whose peak is `ua`, with the given parts.
pub open spec fn column_among<F: FloatUnit>(
    fpu: &F,
    secs: u16,
    factor: Single,
    y_step: Double,
    rows: int,
    i: int,
    ua: Single,
    parts: ColumnParts,
    points: Seq<Point>,
) -> bool {
    exists|a: int, b: int|
        0 <= a <= b <= points.len() && #[trigger] column_steps(
            fpu,
            secs,
            factor,
            y_step,
            rows,
            i,
            ua,
            parts,
            points.subrange(a, b),
        )
}

pub proof fn lemma_greatest_drawn<F: FloatUnit>(
    fpu: &F,
    secs: u16,
    factor: Single,
    visible: Seq<Single>,
    y_step: Double,
    rows: int,
    points: Seq<Point>,
    k: int,
) -> (parts: ColumnParts)
    requires
        visible.len() <= 100_000 * secs,
        chart_drawn(fpu, secs, factor, visible, y_step, rows, points),
        greatest_at(visible, k),
    ensures
        parts.lifted == visible[k],
        column_among(
            fpu,
            secs,
            factor,
            y_step,
            rows,
            slot_of(secs, visible.len(), k),
            visible[k],
            parts,
            points,
        ),
{
    let n = visible.len();
    let i = slot_of(secs, n, k);
    law_every_visible_sample_has_a_slot(secs, n, k);
    let (cuts, peaks) = choose|cuts: Seq<int>, peaks: Seq<Single>| #[trigger]
        slots_drawn(fpu, secs, factor, visible, y_step, rows, points, cuts, peaks);
    let peak = peaks[i];
    assert(slot_drawn(
        fpu,
        secs,
        factor,
        visible,
        y_step,
        rows,
        points,
        i,
        peak,
        cuts[i],
        cuts[i + 1],
    ));
    assert(!smaller_number(peak, visible[k]));
    if peak.bits != 0xFF80_0000 {
        let j = choose|j: int|
            0 <= j < visible.len() && slot_of(secs, n, j) == i && #[trigger] visible[j] == peak;
        assert(!smaller_number(visible[k], visible[j]));
    }
    assert(peak == visible[k]);
    let column = points.subrange(cuts[i], cuts[i + 1]);
    let parts = choose|parts: ColumnParts| #[trigger]
        column_steps(fpu, secs, factor, y_step, rows, i, peak, parts, column);
    assert(parts.lifted == peak);
    parts
}

/// The greatest visible sample is seen at its full height: the column of its slot has
/// that sample for its peak, and so the sample times the factor for its top.
pub proof fn law_the_greatest_sample_is_drawn_at_its_height<F: FloatUnit>(
    fpu: &F,
    secs: u16,
    factor: Single,
    visible: &[Single],
    y_step: Double,
    rows: usize,
    points: Vec<Point>,
    k: int,
)
    requires
        visible@.len() <= 100_000 * secs,
        call_ensures(chart_points::<F>, (fpu, secs, factor, visible, y_step, rows), points),
        greatest_at(visible@, k),
    ensures
        exists|parts: ColumnParts|
            #[trigger] column_among(
                fpu,
                secs,
                factor,
                y_step,
                rows as int,
                slot_of(secs, visible@.len(), k),
                visible@[k],
                parts,
                points@,
            ) && call_ensures(F::times, (fpu, visible@[k], factor), parts.scaled)
                && call_ensures(F::widen, (fpu, parts.scaled), parts.top),
{
    lemma_chart_drawn(fpu, secs, factor, visible@, y_step, rows as int, points@);
    let parts = lemma_greatest_drawn(
        fpu,
        secs,
        factor,
        visible@,
        y_step,
        rows as int,
        points@,
        k,
    );
}

/// The points follow the factor: drawn with two factors, the greatest sample stands in
/// the same slot of both charts, once times the one and once times the other.
pub proof fn law_the_height_follows_the_factor<F: FloatUnit>(
    fpu: &F,
    secs: u16,
    visible: &[Single],
    y_step: Double,
    rows: usize,
    one: Single,
    points: Vec<Point>,
    other: Single,
    others: Vec<Point>,
    k: int,
)
    requires
        visible@.len() <= 100_000 * secs,
        call_ensures(chart_points::<F>, (fpu, secs, one, visible, y_step, rows), points),
        call_ensures(chart_points::<F>, (fpu, secs, other, visible, y_step, rows), others),
        greatest_at(visible@, k),
    ensures
        exists|p: ColumnParts, q: ColumnParts|
            #[trigger] column_among(
                fpu,
                secs,
                one,
                y_step,
                rows as int,
                slot_of(secs, visible@.len(), k),
                visible@[k],
                p,
                points@,
            ) && #[trigger] column_among(
                fpu,
                secs,
                other,
                y_step,
                rows as int,
                slot_of(secs, visible@.len(), k),
                visible@[k],
                q,
                others@,
            ) && call_ensures(F::times, (fpu, visible@[k], one), p.scaled) && call_ensures(
                F::widen,
                (fpu, p.scaled),
                p.top,
            ) && call_ensures(F::times, (fpu, visible@[k], other), q.scaled) && call_ensures(
                F::widen,
                (fpu, q.scaled),
                q.top,
            ),
{
    lemma_chart_drawn(fpu, secs, one, visible@, y_step, rows as int, points@);
    lemma_chart_drawn(fpu, secs, other, visible@, y_step, rows as int, others@);
    let p = lemma_greatest_drawn(
        fpu,
        secs,
        one,
        visible@,
        y_step,
        rows as int,
        points@,
        k,
    );
    let q = lemma_greatest_drawn(
        fpu,
        secs,
        other,
        visible@,
        y_step,
        rows as int,
        others@,
        k,
    );
}

/// A column is never higher than its top, and where the heights of its rows reach the
/// top it is exactly as high.
pub proof fn law_columns_end_at_their_top<F: FloatUnit>(
    fpu: &F,
    row: int,
    y_step: Double,
    parts: ColumnParts,
    point: Point,
)
    requires
        row_stands(fpu, row, y_step, parts, point),
        wide_number(parts.top),
    ensures
        !smaller_wide_number(parts.top, point.y),
        exists|count: Double, height: Double|
            #[trigger] call_ensures(F::double_from_count, (fpu, row as u64), count)
                && #[trigger] call_ensures(F::wide_times, (fpu, count, y_step), height) && (
            smaller_wide_number(parts.top, height) ==> point.y == parts.top),
{
}

} // verus!
