//! Laws on the log and on session statistics: what the samples of a run come to.

use crate::float::{
    average_gives, double_from_count_gives, fixed_gives, narrow_gives, wide_fixed_gives,
    wide_over_gives, Double, FloatUnit, Single,
};
use crate::laws::numbers::{
    greatest_of_run, least_of_run, lemma_greatest_of_run, lemma_least_of_run, lemma_totals,
    totals_of,
};
use crate::laws::text::{lemma_decimal_is_a_numeral, numeral_of};
use crate::logging::{
    bucket_holds, finish_gives, format_row, law_batches_do_not_show,
    law_finished_log_counts_every_sample, law_log_of_a_stream, log_gives, log_passes, optional_text,
    row_describes, row_gives, row_text, rows_of, samples_per_bucket, texts, BucketLogger,
    BucketState,
};
use crate::text::decimal;
use crate::tui::{
    avg_gives, law_session_covers_its_samples, law_session_ignores_batches, no_session,
    session_gives, session_passes, SessionStats,
};
use vstd::prelude::*;

verus! {

/// What goes into a row.
pub struct RowParts {
    pub totals: Seq<Double>,
    pub count: Double,
    pub mean: Double,
    pub least: Single,
    pub greatest: Single,
    pub elapsed_text: Seq<char>,
    pub avg_text: Seq<char>,
    pub min_text: Seq<char>,
    pub max_text: Seq<char>,
    pub count_text: Seq<char>,
}

/// The parts are those of a row of `samples[from..to]`: the time at which the first of
/// them was taken, ten microseconds for each before it; their total over how many they
/// are, all of them; the least and the greatest of them; and how many they are. The
/// currents have three decimal places.
pub open spec fn parts_of<F: FloatUnit>(
    fpu: &F,
    samples: Seq<Single>,
    from: int,
    to: int,
    parts: RowParts,
) -> bool {
    let run = samples.subrange(from, to);
    &&& 0 <= from < to <= samples.len()
    &&& totals_of(fpu, run, parts.totals)
    &&& double_from_count_gives(fpu, (to - from) as u64, parts.count)
    &&& wide_over_gives(fpu, parts.totals[to - from], parts.count, parts.mean)
    &&& least_of_run(run, parts.least)
    &&& greatest_of_run(Single { bits: 0xFF80_0000 }, run, parts.greatest)
    &&& numeral_of(parts.elapsed_text, (10 * from) as nat)
    &&& wide_fixed_gives(fpu, parts.mean, 3, parts.avg_text)
    &&& fixed_gives(fpu, parts.least, 3, parts.min_text)
    &&& fixed_gives(fpu, parts.greatest, 3, parts.max_text)
    &&& numeral_of(parts.count_text, (to - from) as nat)
}

/// The fields in the order of the header, with commas between them, on one line.
pub open spec fn line_of(parts: RowParts) -> Seq<char> {
    parts.elapsed_text + seq![','] + parts.avg_text + seq![','] + parts.min_text + seq![',']
        + parts.max_text + seq![','] + parts.count_text + seq!['\n']
}

/// The row is that of `samples[from..to]`.
pub open spec fn row_is<F: FloatUnit>(
    fpu: &F,
    row: Seq<char>,
    samples: Seq<Single>,
    from: int,
    to: int,
) -> bool {
    exists|parts: RowParts| #[trigger]
        parts_of(fpu, samples, from, to, parts) && row == line_of(parts)
}

proof fn lemma_separators()
    ensures
        ","@ == seq![','],
        "\n"@ == seq!['\n'],
{
    reveal_strlit(",");
    reveal_strlit("\n");
    assert(","@ =~= seq![',']);
    assert("\n"@ =~= seq!['\n']);
}

#[verifier::rlimit(30)]
proof fn lemma_row<F: FloatUnit>(
    fpu: &F,
    row: Seq<char>,
    samples: Seq<Single>,
    from: int,
    to: int,
)
    requires
        row_describes(fpu, row, samples, from, to),
        from < to,
        to - from <= u64::MAX,
    ensures
        row_is(fpu, row, samples, from, to),
{
    let run = samples.subrange(from, to);
    let bucket = choose|bucket: BucketState| #[trigger]
        row_gives(fpu, bucket, row) && bucket_holds(fpu, bucket, samples, from, to);
    let (mean, avg, min, max) = choose|
        mean: Double,
        avg: Seq<char>,
        min: Seq<char>,
        max: Seq<char>,
    |
        #[trigger] average_gives(fpu, bucket.sum, (to - from) as u64, mean)
            && #[trigger] wide_fixed_gives(fpu, mean, 3, avg) && #[trigger] fixed_gives(
            fpu,
            bucket.min,
            3,
            min,
        ) && #[trigger] fixed_gives(fpu, bucket.max, 3, max) && row == row_text(
            bucket.elapsed_us(),
            avg,
            min,
            max,
            bucket.n,
        );
    let count = choose|count: Double| #[trigger]
        double_from_count_gives(fpu, (to - from) as u64, count) && wide_over_gives(
            fpu,
            bucket.sum,
            count,
            mean,
        );
    let totals = lemma_totals(fpu, run, bucket.sum);
    lemma_least_of_run(run);
    lemma_greatest_of_run(Single { bits: 0xFF80_0000 }, run);
    lemma_decimal_is_a_numeral((10 * from) as nat);
    lemma_decimal_is_a_numeral((to - from) as nat);
    lemma_separators();
    let parts = RowParts {
        totals,
        count,
        mean,
        least: bucket.min,
        greatest: bucket.max,
        elapsed_text: decimal((10 * from) as nat),
        avg_text: avg,
        min_text: min,
        max_text: max,
        count_text: decimal((to - from) as nat),
    };
    assert(parts_of(fpu, samples, from, to, parts));
    assert(row =~= line_of(parts));
}

/// What a list of strings says.
pub open spec fn written(strings: Seq<String>) -> Seq<Seq<char>> {
    Seq::new(strings.len(), |k: int| strings[k]@)
}

pub proof fn lemma_written(strings: Seq<String>)
    ensures
        texts(strings) == written(strings),
{
    assert(texts(strings) =~= written(strings));
}

/// The log of a stream in buckets of `p` samples: a row for each `p` samples in turn,
/// and at the end a row for those left over, if there are any. Every row is that of its
/// own samples.
pub open spec fn log_reads<F: FloatUnit>(
    fpu: &F,
    p: int,
    samples: Seq<Single>,
    rows: Seq<Seq<char>>,
    last: Option<String>,
) -> bool {
    let n = samples.len() as int;
    &&& rows.len() == n / p
    &&& forall|j: int|
        0 <= j < rows.len() ==> row_is(fpu, #[trigger] rows[j], samples, p * j, p * j + p)
    &&& last is Some <==> n % p != 0
    &&& last matches Some(row) ==> row_is(fpu, row@, samples, n - n % p, n)
}

pub proof fn lemma_log<F: FloatUnit>(
    fpu: &F,
    p: nat,
    samples: Seq<Single>,
    pushed: BucketState,
    rows: Seq<Seq<char>>,
    finished: BucketState,
    last: Option<String>,
)
    requires
        p >= 1,
        samples.len() <= u64::MAX,
        log_gives(fpu, BucketState::empty(p, 0), samples, pushed, rows),
        finish_gives(fpu, pushed, finished, optional_text(last)),
    ensures
        log_reads(fpu, p as int, samples, rows, last),
{
    let n = samples.len() as int;
    law_log_of_a_stream(fpu, p, samples, pushed, rows);
    vstd::arithmetic::div_mod::lemma_fundamental_div_mod(n, p as int);
    let q = n / p as int;
    assert(p * q == q * p) by (nonlinear_arith);
    assert forall|j: int| 0 <= j < rows.len() implies row_is(
        fpu,
        #[trigger] rows[j],
        samples,
        p * j,
        p * j + p,
    ) by {
        assert(row_describes(fpu, rows[j], samples, j * p, (j + 1) * p));
        assert(j * p == p * j && (j + 1) * p == p * j + p) by (nonlinear_arith);
        lemma_row(fpu, rows[j], samples, p * j, p * j + p);
    }
    if let Some(row) = last {
        assert(rows.len() * p as int == n - n % p as int);
        assert(row_gives(fpu, pushed, row@));
        assert(row_describes(fpu, row@, samples, n - n % p as int, n));
        lemma_row(fpu, row@, samples, n - n % p as int, n);
    }
}

/// The log of a stream, from the start to the finish. With buckets of `p` samples, at
/// least one, there is the header, a row for each `p` samples in turn, and at the end
/// a row for those left over, if there are any. Every row is that of its own samples:
/// when the first was taken, their total over their number, the least, the greatest,
/// and their number. Finishing again adds nothing.
pub proof fn law_a_log_has_a_row_for_each_run_of_samples<F: FloatUnit>(
    fpu: &F,
    per_bucket: u64,
    fresh: (BucketLogger, String),
    log: &mut BucketLogger,
    samples: &[Single],
    rows: Vec<String>,
    pushed: &mut BucketLogger,
    last: Option<String>,
    finished: &mut BucketLogger,
    again: Option<String>,
)
    requires
        call_ensures(BucketLogger::new, (per_bucket,), fresh),
        *old(log) == fresh.0,
        call_ensures(BucketLogger::push_all::<F>, (log, fpu, samples), rows),
        *old(pushed) == *final(log),
        call_ensures(BucketLogger::finish::<F>, (pushed, fpu), last),
        *old(finished) == *final(pushed),
        call_ensures(BucketLogger::finish::<F>, (finished, fpu), again),
        samples@.len() <= u64::MAX,
    ensures
        fresh.1@ == "elapsed_us,avg_ua,min_ua,max_ua,n_samples\n"@,
        per_bucket == 0 ==> log_reads(fpu, 1, samples@, written(rows@), last),
        per_bucket > 0 ==> log_reads(
            fpu,
            per_bucket as int,
            samples@,
            written(rows@),
            last,
        ),
        again is None,
{
    let p: nat = if per_bucket == 0 {
        1
    } else {
        per_bucket as nat
    };
    assert(fresh.0@ == BucketState::empty(p, 0));
    lemma_written(rows@);
    lemma_log(fpu, p, samples@, final(log)@, written(rows@), final(pushed)@, last);
    law_finished_log_counts_every_sample(
        fpu,
        p,
        samples@,
        final(log)@,
        texts(rows@),
        final(pushed)@,
        optional_text(last),
        final(finished)@,
        optional_text(again),
    );
}

/// In a row the average is the total of all its samples over the double of their
/// number, and that number is the row's last field, whatever the size of the bucket.
pub proof fn law_averages_divide_by_the_count_in_the_row<F: FloatUnit>(
    fpu: &F,
    per_bucket: u64,
    fresh: (BucketLogger, String),
    log: &mut BucketLogger,
    samples: &[Single],
    rows: Vec<String>,
    j: int,
    from: int,
    to: int,
)
    requires
        call_ensures(BucketLogger::new, (per_bucket,), fresh),
        *old(log) == fresh.0,
        call_ensures(BucketLogger::push_all::<F>, (log, fpu, samples), rows),
        samples@.len() <= u64::MAX,
        per_bucket > 0,
        0 <= j < rows@.len(),
        from == per_bucket * j,
        to == from + per_bucket,
    ensures
        to <= samples@.len(),
        exists|
            totals: Seq<Double>,
            count: Double,
            mean: Double,
            before: Seq<char>,
            avg: Seq<char>,
            between: Seq<char>,
            number: Seq<char>,
        |
            #[trigger] totals_of(fpu, samples@.subrange(from, to), totals)
                && #[trigger] call_ensures(
                F::double_from_count,
                (fpu, (to - from) as u64),
                count,
            ) && #[trigger] call_ensures(F::wide_over, (fpu, totals[to - from], count), mean)
                && #[trigger] wide_fixed_gives(fpu, mean, 3, avg) && #[trigger] numeral_of(
                number,
                (to - from) as nat,
            ) && rows@[j]@ == #[trigger] (before + seq![','] + avg) + seq![','] + #[trigger] (
            between + seq![',']) + number + seq!['\n'],
{
    let p = per_bucket as nat;
    let n = samples@.len() as int;
    let all = texts(rows@);
    assert(fresh.0@ == BucketState::empty(p, 0));
    law_log_of_a_stream(fpu, p, samples@, final(log)@, all);
    vstd::arithmetic::div_mod::lemma_fundamental_div_mod(n, p as int);
    let q = n / p as int;
    assert(all[j] == rows@[j]@);
    assert(row_describes(fpu, all[j], samples@, j * p, (j + 1) * p));
    assert(j * p == p * j && (j + 1) * p == p * j + p) by (nonlinear_arith);
    assert(p * j + p <= p * q) by (nonlinear_arith)
        requires
            0 <= j < q,
            p > 0,
    ;
    lemma_row(fpu, all[j], samples@, from, to);
    let parts = choose|parts: RowParts| #[trigger]
        parts_of(fpu, samples@, from, to, parts) && all[j] == line_of(parts);
    let between = parts.min_text + seq![','] + parts.max_text;
    assert(rows@[j]@ =~= (parts.elapsed_text + seq![','] + parts.avg_text) + seq![','] + (between
        + seq![',']) + parts.count_text + seq!['\n']);
    assert(call_ensures(F::double_from_count, (fpu, (to - from) as u64), parts.count));
    assert(call_ensures(
        F::wide_over,
        (fpu, parts.totals[to - from], parts.count),
        parts.mean,
    ));
}

/// A log in buckets of `p` samples has taken `stream` in, and `rows` have come of it.
pub open spec fn logged<F: FloatUnit>(
    fpu: &F,
    p: int,
    stream: Seq<Single>,
    log: BucketLogger,
    rows: Seq<Seq<char>>,
) -> bool {
    p >= 1 && log_gives(fpu, BucketState::empty(p as nat, 0), stream, log@, rows)
}

pub proof fn lemma_logged_more<F: FloatUnit>(
    fpu: &F,
    p: int,
    stream: Seq<Single>,
    log: BucketLogger,
    rows: Seq<Seq<char>>,
    samples: Seq<Single>,
    after: BucketLogger,
    more: Seq<Seq<char>>,
)
    requires
        logged(fpu, p, stream, log, rows),
        log_gives(fpu, log@, samples, after@, more),
    ensures
        logged(fpu, p, stream + samples, after, rows + more),
{
    law_batches_do_not_show(
        fpu,
        BucketState::empty(p as nat, 0),
        stream,
        log@,
        rows,
        samples,
        after@,
        more,
    );
}

/// A new log has taken nothing in. What it then takes, sample by sample or run by run,
/// goes on where the stream stood.
pub proof fn law_a_log_goes_on_with_its_stream<F: FloatUnit>(
    fpu: &F,
    per_bucket: u64,
    fresh: (BucketLogger, String),
    p: int,
    stream: Seq<Single>,
    rows: Seq<Seq<char>>,
    log: &mut BucketLogger,
    samples: &[Single],
    more: Vec<String>,
    other: &mut BucketLogger,
    ua: Single,
    row: Option<String>,
)
    requires
        call_ensures(BucketLogger::new, (per_bucket,), fresh),
        logged(fpu, p, stream, *old(log), rows),
        call_ensures(BucketLogger::push_all::<F>, (log, fpu, samples), more),
        *old(other) == *old(log),
        call_ensures(BucketLogger::push::<F>, (other, fpu, ua), row),
    ensures
        per_bucket > 0 ==> logged(fpu, per_bucket as int, Seq::empty(), fresh.0, Seq::empty()),
        per_bucket == 0 ==> logged(fpu, 1, Seq::empty(), fresh.0, Seq::empty()),
        logged(fpu, p, stream + samples@, *final(log), rows + written(more@)),
        row matches Some(text) ==> logged(
            fpu,
            p,
            stream + seq![ua],
            *final(other),
            rows + seq![text@],
        ),
        row is None ==> logged(fpu, p, stream + seq![ua], *final(other), rows),
{
    let none = Seq::<Single>::empty();
    let given = Seq::<Option<Seq<char>>>::empty();
    assert(log_passes(fpu, seq![fresh.0@], none, given));
    assert(rows_of(given) =~= Seq::<Seq<char>>::empty());
    lemma_written(more@);
    lemma_logged_more(fpu, p, stream, *old(log), rows, samples@, *final(log), written(more@));
    law_one_sample_is_a_run_of_one(other, fpu, ua, row);
    let one = match row {
        Some(text) => seq![text@],
        None => Seq::empty(),
    };
    lemma_logged_more(fpu, p, stream, *old(other), rows, seq![ua], *final(other), one);
    assert(rows + Seq::<Seq<char>>::empty() =~= rows);
}

/// Whatever a log has taken in, and however, its rows are those of its samples, each
/// `p` in turn, and finishing adds the row of those left over.
pub proof fn law_logged_rows_are_those_of_their_samples<F: FloatUnit>(
    fpu: &F,
    p: int,
    stream: Seq<Single>,
    rows: Seq<Seq<char>>,
    log: &mut BucketLogger,
    last: Option<String>,
)
    requires
        logged(fpu, p, stream, *old(log), rows),
        stream.len() <= u64::MAX,
        call_ensures(BucketLogger::finish::<F>, (log, fpu), last),
    ensures
        log_reads(fpu, p, stream, rows, last),
{
    lemma_log(fpu, p as nat, stream, old(log)@, rows, final(log)@, last);
}

/// A log has room for more as long as the time of the sample after the last of them, ten
/// microseconds for each before it, fits its field.
pub proof fn law_room_is_left_while_times_fit<F: FloatUnit>(
    fpu: &F,
    p: int,
    stream: Seq<Single>,
    log: &BucketLogger,
    rows: Seq<Seq<char>>,
    extra: u64,
    r: bool,
)
    requires
        logged(fpu, p, stream, *log, rows),
        call_ensures(BucketLogger::has_room, (log, extra), r),
    ensures
        r <==> 10 * (stream.len() + extra) <= 0xFFFF_FFFF_FFFF_FFFF,
{
    law_log_of_a_stream(fpu, p as nat, stream, log@, rows);
    assert(log@.start + log@.n == stream.len());
}

/// Taking one sample is taking a run of one: it gives the row that the run gives, if
/// it gives one.
pub proof fn law_one_sample_is_a_run_of_one<F: FloatUnit>(
    log: &mut BucketLogger,
    fpu: &F,
    ua: Single,
    row: Option<String>,
)
    requires
        call_ensures(BucketLogger::push::<F>, (log, fpu, ua), row),
    ensures
        log_gives(
            fpu,
            old(log)@,
            seq![ua],
            final(log)@,
            match row {
                Some(text) => seq![text@],
                None => Seq::empty(),
            },
        ),
{
    let states = seq![old(log)@, final(log)@];
    let given = seq![optional_text(row)];
    assert(given.drop_last() =~= Seq::<Option<Seq<char>>>::empty());
    assert(rows_of(given.drop_last()) =~= Seq::<Seq<char>>::empty());
    assert(log_passes(fpu, states, seq![ua], given));
    assert(rows_of(given) =~= match row {
        Some(text) => seq![text@],
        None => Seq::<Seq<char>>::empty(),
    });
}

/// A row is its five fields with commas between them, on one line.
pub proof fn law_rows_are_their_fields_with_commas(
    elapsed_us: u64,
    avg: &str,
    min: &str,
    max: &str,
    n: u64,
    row: String,
)
    requires
        call_ensures(format_row, (elapsed_us, avg, min, max, n), row),
    ensures
        exists|e: Seq<char>, c: Seq<char>|
            #[trigger] numeral_of(e, elapsed_us as nat) && #[trigger] numeral_of(c, n as nat)
                && row@ == e + seq![','] + avg@ + seq![','] + min@ + seq![','] + max@ + seq![',']
                + c + seq!['\n'],
{
    lemma_separators();
    lemma_decimal_is_a_numeral(elapsed_us as nat);
    lemma_decimal_is_a_numeral(n as nat);
    assert(numeral_of(decimal(elapsed_us as nat), elapsed_us as nat));
    assert(numeral_of(decimal(n as nat), n as nat));
}

/// A bucket lasts as long as asked for, to the sample: the interval holds its samples
/// and not one more, except that a bucket is never empty.
pub proof fn law_buckets_last_as_long_as_asked_for(interval_us: u64, n: u64)
    requires
        call_ensures(samples_per_bucket, (interval_us,), n),
    ensures
        n >= 1,
        interval_us >= 10 ==> 10 * n <= interval_us < 10 * n + 10,
        interval_us < 10 ==> n == 1,
{
}

/// The summary is that of the samples: the average, the least, the greatest, and how
/// many they are.
pub open spec fn summary_reads<F: FloatUnit>(
    fpu: &F,
    samples: Seq<Single>,
    summary: (Single, Single, Single, u64),
) -> bool {
    &&& summary.3 == samples.len()
    &&& least_of_run(samples, summary.1)
    &&& greatest_of_run(Single { bits: 0xFF80_0000 }, samples, summary.2)
    &&& samples.len() == 0 ==> summary.0.bits == 0
    &&& samples.len() > 0 ==> exists|totals: Seq<Double>, count: Double, mean: Double|
        #[trigger] totals_of(fpu, samples, totals) && #[trigger] double_from_count_gives(
            fpu,
            samples.len() as u64,
            count,
        ) && #[trigger] wide_over_gives(fpu, totals[samples.len() as int], count, mean)
            && narrow_gives(fpu, mean, summary.0)
}

/// The statistics are as after a reset: no samples, a total of zero, and extremes that
/// any number moves.
pub open spec fn nothing_counted(stats: SessionStats) -> bool {
    stats.count == 0 && stats.sum.bits == 0 && stats.min.bits == 0x7F80_0000 && stats.max.bits
        == 0xFF80_0000
}

pub proof fn lemma_summary<F: FloatUnit>(
    fpu: &F,
    before: SessionStats,
    samples: Seq<Single>,
    after: SessionStats,
    summary: (Single, Single, Single, u64),
)
    requires
        nothing_counted(before),
        session_gives(fpu, before, samples, after),
        avg_gives(fpu, after, summary.0),
        summary.1 == after.min,
        summary.2 == after.max,
        summary.3 == after.count,
    ensures
        summary_reads(fpu, samples, summary),
{
    assert(before == no_session());
    law_session_covers_its_samples(fpu, samples, after);
    lemma_least_of_run(samples);
    lemma_greatest_of_run(Single { bits: 0xFF80_0000 }, samples);
    let total = after.sum;
    let totals = lemma_totals(fpu, samples, total);
    if samples.len() > 0 {
        let n = samples.len() as u64;
        assert(avg_gives(fpu, after, summary.0));
        let mean = choose|mean: Double| #[trigger]
            average_gives(fpu, total, n, mean) && narrow_gives(fpu, mean, summary.0);
        let count = choose|count: Double| #[trigger]
            double_from_count_gives(fpu, n, count) && wide_over_gives(fpu, total, count, mean);
        assert(wide_over_gives(fpu, totals[samples.len() as int], count, mean));
    }
}

/// Session statistics, from a reset on: they count every sample, add up all of them
/// from zero, and hold the least and the greatest; the average is the total over the
/// count, or zero where nothing was counted.
pub proof fn law_session_statistics_are_those_of_its_samples<F: FloatUnit>(
    fpu: &F,
    reset: &mut SessionStats,
    stats: &mut SessionStats,
    samples: &[Single],
    summary: (Single, Single, Single, u64),
)
    requires
        call_ensures(SessionStats::reset, (reset,), ()),
        *old(stats) == *final(reset),
        call_ensures(SessionStats::update_all::<F>, (stats, fpu, samples), ()),
        call_ensures(SessionStats::summary::<F>, (&*final(stats), fpu), summary),
    ensures
        nothing_counted(*final(reset)),
        summary_reads(fpu, samples@, summary),
{
    lemma_summary(fpu, *final(reset), samples@, *final(stats), summary);
}

/// The statistics are those of `stream`, from a reset on.
pub open spec fn counted_so_far<F: FloatUnit>(
    fpu: &F,
    stream: Seq<Single>,
    stats: SessionStats,
) -> bool {
    exists|reset: SessionStats| #[trigger]
        nothing_counted(reset) && session_gives(fpu, reset, stream, stats)
}

pub proof fn lemma_counted_more<F: FloatUnit>(
    fpu: &F,
    stream: Seq<Single>,
    stats: SessionStats,
    samples: Seq<Single>,
    after: SessionStats,
)
    requires
        counted_so_far(fpu, stream, stats),
        session_gives(fpu, stats, samples, after),
    ensures
        counted_so_far(fpu, stream + samples, after),
{
    let reset = choose|reset: SessionStats| #[trigger]
        nothing_counted(reset) && session_gives(fpu, reset, stream, stats);
    law_session_ignores_batches(fpu, reset, stream, stats, samples, after);
}

/// Statistics go on with the samples, one by one or run by run, from none at all after a
/// reset; and the summary is that of all of them.
pub proof fn law_statistics_go_on_with_the_samples<F: FloatUnit>(
    fpu: &F,
    fresh: SessionStats,
    stream: Seq<Single>,
    stats: &mut SessionStats,
    samples: &[Single],
    other: &mut SessionStats,
    ua: Single,
    summary: (Single, Single, Single, u64),
    avg: Single,
)
    requires
        call_ensures(SessionStats::new, (), fresh),
        counted_so_far(fpu, stream, *old(stats)),
        call_ensures(SessionStats::update_all::<F>, (stats, fpu, samples), ()),
        *old(other) == *old(stats),
        call_ensures(SessionStats::update::<F>, (other, fpu, ua), ()),
        call_ensures(SessionStats::summary::<F>, (&*old(stats), fpu), summary),
        call_ensures(SessionStats::avg::<F>, (&*old(stats), fpu), avg),
    ensures
        counted_so_far(fpu, Seq::empty(), fresh),
        counted_so_far(fpu, stream + samples@, *final(stats)),
        counted_so_far(fpu, stream + seq![ua], *final(other)),
        summary_reads(fpu, stream, summary),
        summary_reads(fpu, stream, (avg, summary.1, summary.2, summary.3)),
{
    let none = Seq::<Single>::empty();
    assert(session_passes(fpu, seq![fresh], none));
    assert(nothing_counted(fresh));
    assert(session_gives(fpu, fresh, none, fresh));
    lemma_counted_more(fpu, stream, *old(stats), samples@, *final(stats));
    assert(session_passes(fpu, seq![*old(other), *final(other)], seq![ua]));
    lemma_counted_more(fpu, stream, *old(other), seq![ua], *final(other));
    let reset = choose|reset: SessionStats| #[trigger]
        nothing_counted(reset) && session_gives(fpu, reset, stream, *old(stats));
    lemma_summary(fpu, reset, stream, *old(stats), summary);
    lemma_summary(
        fpu,
        reset,
        stream,
        *old(stats),
        (avg, summary.1, summary.2, summary.3),
    );
}

/// A new session is a reset one, and adding one sample is adding a run of one.
pub proof fn law_sessions_start_empty<F: FloatUnit>(
    fpu: &F,
    fresh: SessionStats,
    reset: &mut SessionStats,
    stats: &mut SessionStats,
    ua: Single,
)
    requires
        call_ensures(SessionStats::new, (), fresh),
        call_ensures(SessionStats::reset, (reset,), ()),
        call_ensures(SessionStats::update::<F>, (stats, fpu, ua), ()),
    ensures
        fresh == *final(reset),
        session_gives(fpu, *old(stats), seq![ua], *final(stats)),
{
    let states = seq![*old(stats), *final(stats)];
    assert(session_passes(fpu, states, seq![ua]));
}

} // verus!
