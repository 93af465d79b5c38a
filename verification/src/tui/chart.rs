//! Statistics over recent samples, and the chart that is drawn of them.

use crate::float::{
    ceiling_gives, decade_gives, double_from_count_gives, greatest, law_greatest_bounds_the_run,
    least, over_gives, plus_gives, power_of_ten_gives, single_from_count_gives, times_gives,
    wide_minus_gives, wide_over_gives, wide_times_gives, widen_gives, Double, FloatUnit, Single,
};
use crate::ring::{newest, window_len, SAMPLES_PER_SECOND, STATS_WINDOW};
use vstd::arithmetic::div_mod::{lemma_fundamental_div_mod, lemma_fundamental_div_mod_converse};
use vstd::prelude::*;

verus! {

/// Negative zero in single precision, from which a sum starts.
pub const SINGLE_NEGATIVE_ZERO: u32 = 0x8000_0000;

/// 1.0 in double precision.
pub const DOUBLE_ONE: u64 = 0x3FF0_0000_0000_0000;

/// 2.0 in double precision.
pub const DOUBLE_TWO: u64 = 0x4000_0000_0000_0000;

/// 5.0 in double precision.
pub const DOUBLE_FIVE: u64 = 0x4014_0000_0000_0000;

/// 10.0 in double precision.
pub const DOUBLE_TEN: u64 = 0x4024_0000_0000_0000;

/// 100000.0 in double precision.
pub const DOUBLE_SAMPLE_RATE: u64 = 0x40F8_6A00_0000_0000;

/// The distance from 1.0 to the next double-precision value.
pub const DOUBLE_EPSILON: u64 = 0x3CB0_0000_0000_0000;

/// Columns of the chart.
pub const MAX_POINTS: usize = 500;

/// The magnitudes of a run of samples.
pub open spec fn magnitudes(samples: Seq<Single>) -> Seq<Single> {
    Seq::new(samples.len(), |k: int| samples[k].absolute())
}

/// The greatest of `samples[from..to]`, starting from `start`.
pub fn greatest_of(start: Single, samples: &[Single], from: usize, to: usize) -> (r: Single)
    requires
        from <= to <= samples@.len(),
    ensures
        r == greatest(start, samples@.subrange(from as int, to as int)),
{
    let mut r = start;
    let mut i: usize = from;
    while i < to
        invariant
            from <= i <= to <= samples@.len(),
            r == greatest(start, samples@.subrange(from as int, i as int)),
        decreases to - i,
    {
        r = r.max(samples[i]);
        i += 1;
        let ghost run = samples@.subrange(from as int, i as int);
        assert(run.drop_last() =~= samples@.subrange(from as int, i - 1));
        assert(run.last() == samples@[i - 1]);
    }
    r
}

/// The least of a run of samples, starting from `start`.
pub fn least_of(start: Single, samples: &[Single]) -> (r: Single)
    ensures
        r == least(start, samples@),
{
    let mut r = start;
    let mut i: usize = 0;
    while i < samples.len()
        invariant
            0 <= i <= samples@.len(),
            r == least(start, samples@.take(i as int)),
        decreases samples.len() - i,
    {
        r = r.min(samples[i]);
        i += 1;
        let ghost run = samples@.take(i as int);
        assert(run.drop_last() =~= samples@.take(i - 1));
        assert(run.last() == samples@[i - 1]);
    }
    assert(samples@.take(i as int) =~= samples@);
    r
}

/// The greatest magnitude in `samples[from..]`.
pub fn greatest_magnitude(samples: &[Single], from: usize) -> (r: Single)
    requires
        from <= samples@.len(),
    ensures
        r == greatest(Single::zero(), magnitudes(samples@.skip(from as int))),
{
    let mut r = Single::zero();
    let mut i: usize = from;
    let ghost all = magnitudes(samples@.skip(from as int));
    while i < samples.len()
        invariant
            from <= i <= samples@.len(),
            all == magnitudes(samples@.skip(from as int)),
            r == greatest(Single::zero(), all.take(i - from)),
        decreases samples.len() - i,
    {
        r = r.max(samples[i].abs());
        i += 1;
        let ghost run = all.take(i - from);
        assert(run.drop_last() =~= all.take(i - 1 - from));
        assert(run.last() == samples@[i - 1].absolute());
    }
    assert(all.take(i - from) =~= all);
    r
}

/// Where the last `n` samples begin.
pub fn newest_from(samples: &[Single], n: u64) -> (from: usize)
    ensures
        from <= samples@.len(),
        newest(samples@, n as int) == samples@.skip(from as int),
        samples@.len() - from == newest(samples@, n as int).len(),
{
    let len: usize = samples.len();
    let from: usize = if len as u64 <= n {
        0
    } else {
        len - n as usize
    };
    assert(newest(samples@, n as int) =~= samples@.skip(from as int));
    from
}

/// `totals` are the sums of ever more samples.
pub open spec fn sum_passes<F: FloatUnit>(
    fpu: &F,
    samples: Seq<Single>,
    totals: Seq<Single>,
) -> bool {
    &&& totals.len() == samples.len() + 1
    &&& totals[0] == Single { bits: SINGLE_NEGATIVE_ZERO }
    &&& forall|k: int|
        #![trigger samples[k]]
        0 <= k < samples.len() ==> plus_gives(fpu, totals[k], samples[k], totals[k + 1])
}

/// `r` is the sum of a run of samples.
pub open spec fn sum_gives<F: FloatUnit>(fpu: &F, samples: Seq<Single>, r: Single) -> bool {
    exists|totals: Seq<Single>| #[trigger]
        sum_passes(fpu, samples, totals) && r == totals.last()
}

/// `r` is the mean of a run of samples; zero for none.
pub open spec fn mean_gives<F: FloatUnit>(fpu: &F, samples: Seq<Single>, r: Single) -> bool {
    if samples.len() == 0 {
        r == Single::zero()
    } else {
        exists|sum: Single, count: Single| #[trigger]
            sum_gives(fpu, samples, sum) && #[trigger] single_from_count_gives(
                fpu,
                samples.len() as u64,
                count,
            ) && over_gives(fpu, sum, count, r)
    }
}

/// The mean of `samples[from..]`.
pub fn mean<F: FloatUnit>(fpu: &F, samples: &[Single], from: usize) -> (r: Single)
    requires
        from <= samples@.len(),
    ensures
        mean_gives(fpu, samples@.skip(from as int), r),
{
    let ghost run = samples@.skip(from as int);
    if from == samples.len() {
        return Single::zero();
    }
    let mut sum = Single::from_bits(SINGLE_NEGATIVE_ZERO);
    let ghost mut totals: Seq<Single> = seq![sum];
    let mut i: usize = from;
    while i < samples.len()
        invariant
            from <= i <= samples@.len(),
            run == samples@.skip(from as int),
            sum_passes(fpu, run.take(i - from), totals),
            totals.last() == sum,
        decreases samples.len() - i,
    {
        let ghost passed = totals;
        let ghost before = sum;
        sum = fpu.plus(sum, samples[i]);
        proof {
            totals = passed.push(sum);
            let done = run.take(i + 1 - from);
            assert forall|k: int| #![trigger done[k]] 0 <= k < done.len() implies plus_gives(
                fpu,
                totals[k],
                done[k],
                totals[k + 1],
            ) by {
                if k < i - from {
                    assert(run.take(i - from)[k] == done[k]);
                }
            }
        }
        i += 1;
    }
    assert(run.take(i - from) =~= run);
    assert(sum_gives(fpu, run, sum));
    let n: u64 = (samples.len() - from) as u64;
    let count = fpu.single_from_count(n);
    assert(single_from_count_gives(fpu, run.len() as u64, count));
    fpu.over(sum, count)
}

/// Statistics over recent samples.
#[derive(Clone, Copy, Debug)]
pub struct Stats {
    /// The last sample.
    pub inst: Single,
    /// The mean over the last second.
    pub avg1: Single,
    /// The mean over the last ten seconds.
    pub avg10: Single,
    pub min: Single,
    pub max: Single,
}

/// `stats` are the statistics over a run of samples; all zero for none.
pub open spec fn stats_give<F: FloatUnit>(fpu: &F, samples: Seq<Single>, stats: Stats) -> bool {
    if samples.len() == 0 {
        stats == (Stats {
            inst: Single::zero(),
            avg1: Single::zero(),
            avg10: Single::zero(),
            min: Single::zero(),
            max: Single::zero(),
        })
    } else {
        &&& stats.inst == samples.last()
        &&& mean_gives(fpu, newest(samples, SAMPLES_PER_SECOND as int), stats.avg1)
        &&& mean_gives(fpu, newest(samples, STATS_WINDOW as int), stats.avg10)
        &&& stats.min == least(Single::infinity(), samples)
        &&& stats.max == greatest(Single::negative_infinity(), samples)
    }
}

pub fn compute_stats<F: FloatUnit>(fpu: &F, samples: &[Single]) -> (stats: Stats)
    ensures
        stats_give(fpu, samples@, stats),
{
    let len: usize = samples.len();
    if len == 0 {
        let zero = Single::zero();
        return Stats { inst: zero, avg1: zero, avg10: zero, min: zero, max: zero };
    }
    let second: usize = newest_from(samples, SAMPLES_PER_SECOND as u64);
    let ten_seconds: usize = newest_from(samples, STATS_WINDOW as u64);
    let inst = samples[len - 1];
    let avg1 = mean(fpu, samples, second);
    let avg10 = mean(fpu, samples, ten_seconds);
    let min = least_of(Single::infinity(), samples);
    let max = greatest_of(Single::negative_infinity(), samples, 0, len);
    assert(samples@.subrange(0, len as int) =~= samples@);
    Stats { inst, avg1, avg10, min, max }
}

/// The smallest of 1, 2, 5 and 10 that is at least `fraction`; 10 for what is
/// above.
pub open spec fn nice_step(fraction: Double) -> Double {
    if fraction.not_above(Double { bits: DOUBLE_ONE }) {
        Double { bits: DOUBLE_ONE }
    } else if fraction.not_above(Double { bits: DOUBLE_TWO }) {
        Double { bits: DOUBLE_TWO }
    } else if fraction.not_above(Double { bits: DOUBLE_FIVE }) {
        Double { bits: DOUBLE_FIVE }
    } else {
        Double { bits: DOUBLE_TEN }
    }
}

pub fn round_up_fraction(fraction: Double) -> (r: Double)
    ensures
        r == nice_step(fraction),
{
    if fraction.at_most(Double::from_bits(DOUBLE_ONE)) {
        Double::from_bits(DOUBLE_ONE)
    } else if fraction.at_most(Double::from_bits(DOUBLE_TWO)) {
        Double::from_bits(DOUBLE_TWO)
    } else if fraction.at_most(Double::from_bits(DOUBLE_FIVE)) {
        Double::from_bits(DOUBLE_FIVE)
    } else {
        Double::from_bits(DOUBLE_TEN)
    }
}

/// `r` is a value rounded up to 1, 2, 5 or 10 times its decade; 1 for a value that
/// is not positive.
pub open spec fn nice_gives<F: FloatUnit>(fpu: &F, value: Double, r: Double) -> bool {
    if value.not_above(Double::zero()) {
        r == Double { bits: DOUBLE_ONE }
    } else {
        exists|exponent: i32, magnitude: Double, fraction: Double| #[trigger]
            decade_gives(fpu, value, exponent) && #[trigger] power_of_ten_gives(
                fpu,
                exponent,
                magnitude,
            ) && #[trigger] wide_over_gives(fpu, value, magnitude, fraction) && wide_times_gives(
                fpu,
                nice_step(fraction),
                magnitude,
                r,
            )
    }
}

/// Rounds a value up to the nearest "nice" number: 1, 2 or 5 times a power of ten.
pub fn nice_ceil<F: FloatUnit>(fpu: &F, value: Double) -> (r: Double)
    ensures
        nice_gives(fpu, value, r),
{
    if value.at_most(Double::zero()) {
        return Double::from_bits(DOUBLE_ONE);
    }
    let exponent: i32 = fpu.decade(value);
    assert(decade_gives(fpu, value, exponent));
    let magnitude = fpu.power_of_ten(exponent);
    assert(power_of_ten_gives(fpu, exponent, magnitude));
    let fraction = fpu.wide_over(value, magnitude);
    assert(wide_over_gives(fpu, value, magnitude, fraction));
    fpu.wide_times(round_up_fraction(fraction), magnitude)
}

/// Rounding a fraction of a decade never goes down, and goes to the first of 1, 2,
/// 5 and 10 that is large enough.
pub proof fn law_nice_steps_round_up(fraction: Double)
    ensures
        ({
            let step = nice_step(fraction);
            let nice = seq![
                Double { bits: DOUBLE_ONE },
                Double { bits: DOUBLE_TWO },
                Double { bits: DOUBLE_FIVE },
                Double { bits: DOUBLE_TEN },
            ];
            &&& nice.contains(step)
            &&& fraction.not_above(Double { bits: DOUBLE_TEN }) ==> fraction.not_above(step)
            &&& forall|k: int|
                0 <= k < nice.len() && fraction.not_above(#[trigger] nice[k]) ==> step.not_above(
                    nice[k],
                )
        }),
{
    let nice = seq![
        Double { bits: DOUBLE_ONE },
        Double { bits: DOUBLE_TWO },
        Double { bits: DOUBLE_FIVE },
        Double { bits: DOUBLE_TEN },
    ];
    assert(nice[0].bits == DOUBLE_ONE && nice[1].bits == DOUBLE_TWO && nice[2].bits == DOUBLE_FIVE
        && nice[3].bits == DOUBLE_TEN);
}

/// Samples in a bucket, of which one column of the chart is drawn.
pub open spec fn bucket_len(secs: u16) -> int {
    if window_len(secs) / 500 < 1 {
        1
    } else {
        window_len(secs) / 500
    }
}

/// Where a bucket ends, as a position in the full window.
pub open spec fn bucket_end(secs: u16, i: int) -> int {
    if (i + 1) * bucket_len(secs) < window_len(secs) {
        (i + 1) * bucket_len(secs)
    } else {
        window_len(secs)
    }
}

/// Samples that are missing at the left edge while fewer than a window are there.
pub open spec fn missing(secs: u16, n: nat) -> int {
    window_len(secs) - n
}

/// A position in the window as an index among the visible samples.
pub open spec fn visible_index(secs: u16, n: nat, position: int) -> int {
    if position < missing(secs, n) {
        0
    } else {
        position - missing(secs, n)
    }
}

/// Where a bucket begins among the visible samples.
pub open spec fn bucket_from(secs: u16, n: nat, i: int) -> int {
    visible_index(secs, n, i * bucket_len(secs))
}

/// Where a bucket ends among the visible samples.
pub open spec fn bucket_to(secs: u16, n: nat, i: int) -> int {
    visible_index(secs, n, bucket_end(secs, i))
}

/// The visible samples in a bucket. The grid is anchored to the window: where a
/// bucket lies in it does not depend on how many samples there are.
pub open spec fn bucket_samples(secs: u16, visible: Seq<Single>, i: int) -> Seq<Single> {
    visible.subrange(bucket_from(secs, visible.len(), i), bucket_to(secs, visible.len(), i))
}

/// The greatest sample in a bucket.
pub open spec fn bucket_peak(secs: u16, visible: Seq<Single>, i: int) -> Single {
    greatest(Single::negative_infinity(), bucket_samples(secs, visible, i))
}

/// The bucket has samples, and a column is drawn for it.
pub open spec fn has_column(secs: u16, visible: Seq<Single>, i: int) -> bool {
    bucket_end(secs, i) > missing(secs, visible.len()) && bucket_peak(secs, visible, i).finite()
}

/// A point of the chart.
#[derive(Clone, Copy, Debug, PartialEq, Eq, Structural)]
pub struct Point {
    pub x: Double,
    pub y: Double,
}

/// `t` is when a bucket ends, in seconds before now.
pub open spec fn time_gives<F: FloatUnit>(fpu: &F, secs: u16, i: int, t: Double) -> bool {
    exists|end: Double, window: Double, late: Double| #[trigger]
        double_from_count_gives(fpu, bucket_end(secs, i) as u64, end) && #[trigger]
        double_from_count_gives(fpu, window_len(secs) as u64, window) && #[trigger]
        wide_minus_gives(fpu, end, window, late) && wide_over_gives(
            fpu,
            late,
            Double { bits: DOUBLE_SAMPLE_RATE },
            t,
        )
}

/// `top` is a peak in display units; a negative peak counts as zero.
pub open spec fn top_gives<F: FloatUnit>(
    fpu: &F,
    peak: Single,
    factor: Single,
    top: Double,
) -> bool {
    exists|scaled: Single| #[trigger]
        times_gives(fpu, peak.larger(Single::zero()), factor, scaled) && widen_gives(
            fpu,
            scaled,
            top,
        )
}

/// `y` is the height of a row, cut off at the top of the column.
pub open spec fn row_height_gives<F: FloatUnit>(
    fpu: &F,
    row: int,
    y_step: Double,
    top: Double,
    y: Double,
) -> bool {
    exists|count: Double, height: Double| #[trigger]
        double_from_count_gives(fpu, row as u64, count) && #[trigger] wide_times_gives(
            fpu,
            count,
            y_step,
            height,
        ) && y == height.smaller(top)
}

/// `rows` is how many rows a column reaches up.
pub open spec fn reach_gives<F: FloatUnit>(
    fpu: &F,
    top: Double,
    y_step: Double,
    chart_rows: int,
    rows: int,
) -> bool {
    exists|ratio: Double, needed: usize| #[trigger]
        wide_over_gives(fpu, top, y_step, ratio) && #[trigger] ceiling_gives(fpu, ratio, needed)
            && rows == if needed < chart_rows {
            needed as int
        } else {
            chart_rows
        }
}

/// The column has a point at each of `rows` rows above the bottom one.
pub open spec fn column_rows_give<F: FloatUnit>(
    fpu: &F,
    t: Double,
    top: Double,
    y_step: Double,
    rows: int,
    column: Seq<Point>,
) -> bool {
    &&& column.len() == rows + 1
    &&& forall|row: int|
        0 <= row <= rows ==> (#[trigger] column[row]).x == t && row_height_gives(
            fpu,
            row,
            y_step,
            top,
            column[row].y,
        )
}

/// The column has one point for each row from the bottom up to its top.
pub open spec fn column_gives<F: FloatUnit>(
    fpu: &F,
    t: Double,
    top: Double,
    y_step: Double,
    chart_rows: int,
    column: Seq<Point>,
) -> bool {
    exists|rows: int| #[trigger]
        reach_gives(fpu, top, y_step, chart_rows, rows) && column_rows_give(
            fpu,
            t,
            top,
            y_step,
            rows,
            column,
        )
}

/// `column` holds the points of one bucket.
pub open spec fn bucket_gives<F: FloatUnit>(
    fpu: &F,
    secs: u16,
    factor: Single,
    visible: Seq<Single>,
    y_step: Double,
    chart_rows: int,
    i: int,
    column: Seq<Point>,
) -> bool {
    if has_column(secs, visible, i) {
        exists|t: Double, top: Double| #[trigger]
            time_gives(fpu, secs, i, t) && #[trigger] top_gives(
                fpu,
                bucket_peak(secs, visible, i),
                factor,
                top,
            ) && column_gives(fpu, t, top, y_step, chart_rows, column)
    } else {
        column.len() == 0
    }
}

/// `columns` hold the points of the first buckets.
pub open spec fn columns_give<F: FloatUnit>(
    fpu: &F,
    secs: u16,
    factor: Single,
    visible: Seq<Single>,
    y_step: Double,
    chart_rows: int,
    columns: Seq<Seq<Point>>,
) -> bool {
    forall|i: int|
        0 <= i < columns.len() ==> bucket_gives(
            fpu,
            secs,
            factor,
            visible,
            y_step,
            chart_rows,
            i,
            #[trigger] columns[i],
        )
}

/// Columns one after the other.
pub open spec fn joined(columns: Seq<Seq<Point>>) -> Seq<Point>
    decreases columns.len(),
{
    if columns.len() == 0 {
        Seq::empty()
    } else {
        joined(columns.drop_last()) + columns.last()
    }
}

/// `points` are those of all columns of the chart, from left to right.
pub open spec fn points_give<F: FloatUnit>(
    fpu: &F,
    secs: u16,
    factor: Single,
    visible: Seq<Single>,
    y_step: Double,
    chart_rows: int,
    points: Seq<Point>,
) -> bool {
    exists|columns: Seq<Seq<Point>>| #[trigger]
        columns_give(fpu, secs, factor, visible, y_step, chart_rows, columns) && columns.len()
            == MAX_POINTS && points == joined(columns)
}

pub proof fn lemma_grid(secs: u16, n: nat, i: int)
    requires
        n <= window_len(secs),
        0 <= i < 500,
    ensures
        secs > 0 ==> bucket_len(secs) == 200 * secs,
        secs > 0 ==> bucket_end(secs, i) == (i + 1) * bucket_len(secs),
        secs == 0 ==> bucket_end(secs, i) == 0,
        bucket_end(secs, i) > missing(secs, n) ==> 0 <= bucket_from(secs, n, i) < bucket_to(
            secs,
            n,
            i,
        ) <= n,
        0 <= bucket_end(secs, i) <= window_len(secs),
        0 <= i * bucket_len(secs) <= 500 * bucket_len(secs),
        i * bucket_len(secs) <= 500 * 200 * 65535,
{
    let w = window_len(secs);
    let b = bucket_len(secs);
    assert(w == 100_000 * secs);
    if secs > 0 {
        assert(w / 500 == 200 * secs);
        assert((i + 1) * b <= 500 * b) by (nonlinear_arith)
            requires
                0 <= i < 500,
                b > 0,
        ;
        assert((i + 1) * b == i * b + b) by (nonlinear_arith);
        assert(0 <= i * b) by (nonlinear_arith)
            requires
                0 <= i,
                b > 0,
        ;
    } else {
        assert(b == 1);
        assert(i * b == i && (i + 1) * b == i + 1);
    }
}

fn push_column<F: FloatUnit>(
    fpu: &F,
    t: Double,
    top: Double,
    y_step: Double,
    chart_rows: usize,
    points: &mut Vec<Point>,
)
    requires
        chart_rows <= u16::MAX,
    ensures
        final(points)@.len() >= old(points)@.len(),
        final(points)@.take(old(points)@.len() as int) == old(points)@,
        column_gives(
            fpu,
            t,
            top,
            y_step,
            chart_rows as int,
            final(points)@.skip(old(points)@.len() as int),
        ),
{
    let ratio = fpu.wide_over(top, y_step);
    assert(wide_over_gives(fpu, top, y_step, ratio));
    let needed: usize = fpu.ceiling(ratio);
    assert(ceiling_gives(fpu, ratio, needed));
    let rows: usize = if needed < chart_rows {
        needed
    } else {
        chart_rows
    };
    assert(reach_gives(fpu, top, y_step, chart_rows as int, rows as int));
    let ghost before = points@;
    let mut row: usize = 0;
    while row <= rows
        invariant
            0 <= row <= rows + 1,
            rows <= chart_rows <= u16::MAX,
            points@.len() == before.len() + row,
            points@.take(before.len() as int) == before,
            forall|r: int|
                0 <= r < row ==> (#[trigger] points@.skip(before.len() as int)[r]).x == t
                    && row_height_gives(
                    fpu,
                    r,
                    y_step,
                    top,
                    points@.skip(before.len() as int)[r].y,
                ),
        decreases rows + 1 - row,
    {
        let count = fpu.double_from_count(row as u64);
        assert(double_from_count_gives(fpu, row as int as u64, count));
        let height = fpu.wide_times(count, y_step);
        assert(wide_times_gives(fpu, count, y_step, height));
        let y = height.min(top);
        assert(row_height_gives(fpu, row as int, y_step, top, y));
        let ghost column = points@.skip(before.len() as int);
        points.push(Point { x: t, y });
        let ghost grown = points@.skip(before.len() as int);
        assert(grown =~= column.push(Point { x: t, y }));
        assert(points@.take(before.len() as int) =~= before);
        assert forall|r: int| 0 <= r < row + 1 implies (#[trigger] grown[r]).x == t
            && row_height_gives(fpu, r, y_step, top, grown[r].y) by {
            if r < row {
                assert(grown[r] == column[r]);
            }
        }
        row += 1;
    }
    assert(column_rows_give(
        fpu,
        t,
        top,
        y_step,
        rows as int,
        points@.skip(before.len() as int),
    ));
}

/// The points of the chart: for each bucket one point per row from zero up to the
/// peak, which fills the column solid.
pub fn chart_points<F: FloatUnit>(
    fpu: &F,
    secs: u16,
    factor: Single,
    visible: &[Single],
    y_step: Double,
    chart_rows: usize,
) -> (points: Vec<Point>)
    requires
        visible@.len() <= window_len(secs),
        chart_rows <= u16::MAX,
    ensures
        points_give(fpu, secs, factor, visible@, y_step, chart_rows as int, points@),
{
    let mut points: Vec<Point> = Vec::new();
    let ghost mut columns: Seq<Seq<Point>> = Seq::empty();
    let window: u64 = secs as u64 * SAMPLES_PER_SECOND as u64;
    let bucket_size: u64 = if window / 500 < 1 {
        1
    } else {
        window / 500
    };
    let n: usize = visible.len();
    let offset: u64 = window - n as u64;
    let mut i: usize = 0;
    while i < MAX_POINTS
        invariant
            0 <= i <= MAX_POINTS,
            n == visible@.len(),
            visible@.len() <= window_len(secs),
            chart_rows <= u16::MAX,
            window == window_len(secs),
            bucket_size == bucket_len(secs),
            offset == missing(secs, visible@.len()),
            columns.len() == i,
            columns_give(fpu, secs, factor, visible@, y_step, chart_rows as int, columns),
            points@ == joined(columns),
        decreases MAX_POINTS - i,
    {
        proof {
            lemma_grid(secs, visible@.len(), i as int);
            assert((i + 1) * bucket_size == i * bucket_size + bucket_size) by (nonlinear_arith);
        }
        let start: u64 = i as u64 * bucket_size;
        let end: u64 = if start + bucket_size < window {
            start + bucket_size
        } else {
            window
        };
        let ghost had = columns;
        let ghost before = points@;
        let ghost mut column: Seq<Point> = Seq::empty();
        if end > offset {
            let from: usize = if start < offset {
                0
            } else {
                (start - offset) as usize
            };
            let to: usize = (end - offset) as usize;
            assert(from == bucket_from(secs, visible@.len(), i as int));
            assert(to == bucket_to(secs, visible@.len(), i as int));
            let peak = greatest_of(Single::negative_infinity(), visible, from, to);
            assert(peak == bucket_peak(secs, visible@, i as int));
            if peak.is_finite() {
                let wide_end = fpu.double_from_count(end);
                let wide_window = fpu.double_from_count(window);
                let late = fpu.wide_minus(wide_end, wide_window);
                let t = fpu.wide_over(late, Double::from_bits(DOUBLE_SAMPLE_RATE));
                let scaled = fpu.times(peak.max(Single::zero()), factor);
                let top = fpu.widen(scaled);
                assert(double_from_count_gives(fpu, bucket_end(secs, i as int) as u64, wide_end));
                assert(double_from_count_gives(fpu, window_len(secs) as u64, wide_window));
                assert(wide_minus_gives(fpu, wide_end, wide_window, late));
                assert(time_gives(fpu, secs, i as int, t));
                assert(times_gives(fpu, peak.larger(Single::zero()), factor, scaled));
                assert(top_gives(fpu, bucket_peak(secs, visible@, i as int), factor, top));
                push_column(fpu, t, top, y_step, chart_rows, &mut points);
                proof {
                    column = points@.skip(before.len() as int);
                }
            }
        }
        proof {
            columns = had.push(column);
            assert(columns.drop_last() =~= had);
            assert(points@ =~= before + column);
            assert(bucket_gives(
                fpu,
                secs,
                factor,
                visible@,
                y_step,
                chart_rows as int,
                i as int,
                column,
            ));
            assert forall|k: int| 0 <= k < columns.len() implies bucket_gives(
                fpu,
                secs,
                factor,
                visible@,
                y_step,
                chart_rows as int,
                k,
                #[trigger] columns[k],
            ) by {
                if k < i {
                    assert(columns[k] == had[k]);
                }
            }
        }
        i += 1;
    }
    points
}

/// The buckets partition the visible samples: each begins where the one before
/// ends, the first begins with the first sample and the last ends with the last.
pub proof fn law_buckets_partition_the_visible_samples(secs: u16, n: nat, i: int)
    requires
        secs > 0,
        n <= window_len(secs),
        0 <= i < MAX_POINTS - 1,
    ensures
        bucket_from(secs, n, 0) == 0,
        bucket_to(secs, n, i) == bucket_from(secs, n, i + 1),
        bucket_to(secs, n, MAX_POINTS - 1) == n,
{
    lemma_grid(secs, n, i);
    lemma_grid(secs, n, i + 1);
    lemma_grid(secs, n, 499);
    assert(0 * bucket_len(secs) == 0);
}

/// The grid does not drift: which column a sample is drawn in depends on its age
/// alone, and not on how many samples there are.
pub proof fn law_age_decides_the_column(secs: u16, n: nat, k: int, i: int)
    requires
        secs > 0,
        n <= window_len(secs),
        0 <= k < n,
        0 <= i < MAX_POINTS,
    ensures
        ({
            let age = n - 1 - k;
            bucket_from(secs, n, i) <= k < bucket_to(secs, n, i) <==> i == (window_len(secs) - 1
                - age) / bucket_len(secs)
        }),
{
    lemma_grid(secs, n, i);
    let b = bucket_len(secs);
    let position = k + missing(secs, n);
    assert(position == window_len(secs) - 1 - (n - 1 - k));
    assert((i + 1) * b == i * b + b) by (nonlinear_arith);
    lemma_fundamental_div_mod(position, b);
    let q = position / b;
    if i * b <= position < i * b + b {
        lemma_fundamental_div_mod_converse(position, b, i, position - i * b);
    }
    if i == q {
        assert(b * q == q * b) by (nonlinear_arith);
    }
}

/// No column is higher than the scale was chosen for: the scale is anchored to all
/// visible samples, and no bucket's peak is above their greatest.
pub proof fn law_scale_covers_every_column(secs: u16, visible: Seq<Single>, i: int)
    requires
        visible.len() <= window_len(secs),
        0 <= i < MAX_POINTS,
        has_column(secs, visible, i),
    ensures
        bucket_peak(secs, visible, i).ordinal() <= greatest(Single::zero(), visible).ordinal(),
{
    lemma_grid(secs, visible.len(), i);
    let run = bucket_samples(secs, visible, i);
    let start = Single::negative_infinity();
    law_greatest_bounds_the_run(start, run);
    law_greatest_bounds_the_run(Single::zero(), visible);
    let peak = bucket_peak(secs, visible, i);
    assert(run.contains(peak));
    let k = choose|k: int| 0 <= k < run.len() && run[k] == peak;
    assert(visible[k + bucket_from(secs, visible.len(), i)] == peak);
}

/// No sample is lost by drawing buckets: every visible sample falls in one of the
/// buckets, whose peak is at least as high.
pub proof fn law_every_sample_is_below_its_peak(secs: u16, visible: Seq<Single>, k: int)
    requires
        secs > 0,
        visible.len() <= window_len(secs),
        0 <= k < visible.len(),
        !visible[k].nan(),
    ensures
        ({
            let i = (missing(secs, visible.len()) + k) / bucket_len(secs);
            &&& 0 <= i < MAX_POINTS
            &&& bucket_from(secs, visible.len(), i) <= k < bucket_to(secs, visible.len(), i)
            &&& visible[k].ordinal() <= bucket_peak(secs, visible, i).ordinal()
        }),
{
    let n = visible.len();
    let b = bucket_len(secs);
    let position = missing(secs, n) + k;
    let i = position / b;
    lemma_grid(secs, n, 0);
    lemma_fundamental_div_mod(position, b);
    assert(0 <= i < 500) by (nonlinear_arith)
        requires
            position == b * i + position % b,
            0 <= position % b < b,
            0 <= position < 500 * b,
            b > 0,
    ;
    law_age_decides_the_column(secs, n, k, i);
    lemma_grid(secs, n, i);
    let run = bucket_samples(secs, visible, i);
    law_greatest_bounds_the_run(Single::negative_infinity(), run);
    assert(run[k - bucket_from(secs, n, i)] == visible[k]);
}

} // verus!
