//! Sample logging, bucketed by sample count.
//!
//! Bucketing on the sample index rather than the wall clock keeps rows aligned
//! to exact sample boundaries: the instrument streams at a fixed rate but
//! delivers samples in large USB batches, so elapsed-time bucketing produces
//! uneven rows and timestamps that drift from the samples they describe.

use crate::float::{
    add_to_total, average, average_gives, fixed_gives, greatest, least, lemma_empty_total,
    lemma_total_grows, run_total_gives, total_gives, wide_fixed_gives, Double, FloatUnit, Single,
};
use crate::text::{decimal, push_decimal};
use vstd::arithmetic::div_mod::{lemma_fundamental_div_mod, lemma_fundamental_div_mod_converse};
use vstd::prelude::*;

verus! {

/// The instrument streams at a fixed 100 kSps.
pub const SAMPLE_RATE_HZ: u64 = 100_000;

/// Microseconds per sample (10 at 100 kSps).
pub const SAMPLE_PERIOD_US: u64 = 10;

/// Converts a requested bucket duration into a sample count.
///
/// Clamped to at least one sample, so an interval below the sample period
/// yields per-sample (raw) logging rather than an empty bucket.
pub fn samples_per_bucket(interval_us: u64) -> (n: u64)
    ensures
        n == if interval_us < SAMPLE_PERIOD_US {
            1
        } else {
            interval_us as int / SAMPLE_PERIOD_US as int
        },
{
    let n: u64 = interval_us / SAMPLE_PERIOD_US;
    if n < 1 {
        1
    } else {
        n
    }
}

/// Decimal places of the currents in a row.
pub const ROW_PLACES: u8 = 3;

/// What a logger remembers: the bucket currently being filled.
pub struct BucketState {
    /// Samples in a full bucket.
    pub per_bucket: nat,
    pub sum: Double,
    pub min: Single,
    pub max: Single,
    /// Samples in the bucket.
    pub n: nat,
    /// Index of the first sample in the bucket.
    pub start: nat,
}

impl BucketState {
    pub open spec fn valid(self) -> bool {
        self.n < self.per_bucket
    }

    /// An empty bucket that starts at sample `start`.
    pub open spec fn empty(per_bucket: nat, start: nat) -> BucketState {
        BucketState {
            per_bucket,
            sum: Double::zero(),
            min: Single::infinity(),
            max: Single::negative_infinity(),
            n: 0,
            start,
        }
    }

    /// The bucket with one more sample, where `sum` has it counted.
    pub open spec fn grown(self, ua: Single, sum: Double) -> BucketState {
        BucketState {
            per_bucket: self.per_bucket,
            sum,
            min: self.min.smaller(ua),
            max: self.max.larger(ua),
            n: self.n + 1,
            start: self.start,
        }
    }

    /// The bucket is due to be written.
    pub open spec fn full(self) -> bool {
        self.n >= self.per_bucket
    }

    /// The bucket after this one.
    pub open spec fn successor(self) -> BucketState {
        BucketState::empty(self.per_bucket, self.start + self.n)
    }

    /// When the first sample of the bucket was taken.
    pub open spec fn elapsed_us(self) -> nat {
        self.start * SAMPLE_PERIOD_US as nat
    }

    /// Neither the sample count nor the timestamps overflow for `extra` more
    /// samples.
    pub open spec fn room_for(self, extra: nat) -> bool {
        (self.start + self.n + extra) * SAMPLE_PERIOD_US <= u64::MAX
    }

    /// The bucket after one more sample, where `sum` has it counted.
    pub open spec fn pushed(self, ua: Single, sum: Double) -> BucketState {
        let grown = self.grown(ua, sum);
        if grown.full() {
            grown.successor()
        } else {
            grown
        }
    }
}

/// The text of a row.
pub open spec fn row_text(
    elapsed_us: nat,
    avg: Seq<char>,
    min: Seq<char>,
    max: Seq<char>,
    n: nat,
) -> Seq<char> {
    decimal(elapsed_us) + ","@ + avg + ","@ + min + ","@ + max + ","@ + decimal(n) + "\n"@
}

/// `text` is the row for a bucket: when it began, and the average, least and
/// greatest current and number of its samples.
pub open spec fn row_gives<F: FloatUnit>(fpu: &F, bucket: BucketState, text: Seq<char>) -> bool {
    exists|mean: Double, avg: Seq<char>, min: Seq<char>, max: Seq<char>|
        #[trigger] average_gives(fpu, bucket.sum, bucket.n as u64, mean)
            && #[trigger] wide_fixed_gives(fpu, mean, ROW_PLACES, avg) && #[trigger] fixed_gives(
            fpu,
            bucket.min,
            ROW_PLACES,
            min,
        ) && #[trigger] fixed_gives(fpu, bucket.max, ROW_PLACES, max) && text == row_text(
            bucket.elapsed_us(),
            avg,
            min,
            max,
            bucket.n,
        )
}

/// The text of a string that may be there.
pub open spec fn optional_text(string: Option<String>) -> Option<Seq<char>> {
    match string {
        Some(text) => Some(text@),
        None => None,
    }
}

/// Puts a row together.
pub fn format_row(elapsed_us: u64, avg: &str, min: &str, max: &str, n: u64) -> (row: String)
    ensures
        row@ == row_text(elapsed_us as nat, avg@, min@, max@, n as nat),
{
    let mut row = String::new();
    push_decimal(&mut row, elapsed_us);
    row.append(",");
    row.append(avg);
    row.append(",");
    row.append(min);
    row.append(",");
    row.append(max);
    row.append(",");
    push_decimal(&mut row, n);
    row.append("\n");
    assert(row@ =~= row_text(elapsed_us as nat, avg@, min@, max@, n as nat));
    row
}

/// Accumulates samples into fixed-size buckets and gives one row for each.
pub struct BucketLogger {
    per_bucket: u64,
    sum: Double,
    min: Single,
    max: Single,
    n: u64,
    bucket_start: u64,
}

impl View for BucketLogger {
    type V = BucketState;

    closed spec fn view(&self) -> BucketState {
        BucketState {
            per_bucket: self.per_bucket as nat,
            sum: self.sum,
            min: self.min,
            max: self.max,
            n: self.n as nat,
            start: self.bucket_start as nat,
        }
    }
}

impl BucketLogger {
    #[verifier::type_invariant]
    closed spec fn never_full(self) -> bool {
        self@.valid()
    }

    /// Creates a logger, and gives the header line that goes before its rows. A
    /// bucket holds at least one sample.
    pub fn new(per_bucket: u64) -> (r: (BucketLogger, String))
        ensures
            r.0@ == BucketState::empty(
                if per_bucket < 1 {
                    1
                } else {
                    per_bucket as nat
                },
                0,
            ),
            r.0@.valid(),
            r.1@ == "elapsed_us,avg_ua,min_ua,max_ua,n_samples\n"@,
    {
        let logger = BucketLogger {
            per_bucket: if per_bucket < 1 {
                1
            } else {
                per_bucket
            },
            sum: Double::zero(),
            min: Single::infinity(),
            max: Single::negative_infinity(),
            n: 0,
            bucket_start: 0,
        };
        (logger, "elapsed_us,avg_ua,min_ua,max_ua,n_samples\n".to_owned())
    }

    /// Whether neither the sample count nor the timestamps overflow for `extra`
    /// more samples.
    pub fn has_room(&self, extra: u64) -> (r: bool)
        ensures
            r == self@.room_for(extra as nat),
    {
        match self.bucket_start.checked_add(self.n) {
            Some(position) => match position.checked_add(extra) {
                Some(end) => end <= u64::MAX / SAMPLE_PERIOD_US,
                None => false,
            },
            None => false,
        }
    }

    /// Adds one sample. Gives a row once the bucket is full.
    pub fn push<F: FloatUnit>(&mut self, fpu: &F, ua: Single) -> (row: Option<String>)
        requires
            old(self)@.start + old(self)@.n < u64::MAX,
            old(self)@.n + 1 >= old(self)@.per_bucket ==> old(self)@.elapsed_us() <= u64::MAX,
        ensures
            old(self)@.valid(),
            final(self)@.valid(),
            push_gives(fpu, old(self)@, ua, final(self)@, optional_text(row)),
    {
        proof {
            use_type_invariant(&*self);
        }
        let ghost before = self@;
        let sum = add_to_total(fpu, self.sum, ua);
        let min = self.min.min(ua);
        let max = self.max.max(ua);
        let n: u64 = self.n + 1;
        assert(total_gives(fpu, before.sum, ua, sum));
        if n >= self.per_bucket {
            let row = Self::render(fpu, self.per_bucket, sum, min, max, n, self.bucket_start);
            *self = BucketLogger {
                per_bucket: self.per_bucket,
                sum: Double::zero(),
                min: Single::infinity(),
                max: Single::negative_infinity(),
                n: 0,
                bucket_start: self.bucket_start + n,
            };
            Some(row)
        } else {
            *self = BucketLogger {
                per_bucket: self.per_bucket,
                sum,
                min,
                max,
                n,
                bucket_start: self.bucket_start,
            };
            None
        }
    }

    /// Adds samples one after the other. Gives the rows of the buckets that they
    /// fill.
    pub fn push_all<F: FloatUnit>(&mut self, fpu: &F, samples: &[Single]) -> (rows: Vec<String>)
        requires
            old(self)@.room_for(samples@.len()),
        ensures
            final(self)@.valid(),
            final(self)@.start + final(self)@.n == old(self)@.start + old(self)@.n + samples@.len(),
            log_gives(fpu, old(self)@, samples@, final(self)@, texts(rows@)),
    {
        let mut rows: Vec<String> = Vec::new();
        let ghost mut states: Seq<BucketState> = seq![self@];
        let ghost mut given: Seq<Option<Seq<char>>> = Seq::empty();
        proof {
            use_type_invariant(&*self);
        }
        let mut i: usize = 0;
        while i < samples.len()
            invariant
                0 <= i <= samples@.len(),
                self@.valid(),
                self@.start + self@.n == old(self)@.start + old(self)@.n + i,
                old(self)@.room_for(samples@.len()),
                log_passes(fpu, states, samples@.take(i as int), given),
                states.first() == old(self)@,
                states.last() == self@,
                texts(rows@) == rows_of(given),
            decreases samples.len() - i,
        {
            let ghost passed = states;
            let ghost had = given;
            let ghost rows_before = rows@;
            let ghost bucket = self@;
            let row = self.push(fpu, samples[i]);
            let ghost text = optional_text(row);
            proof {
                states = passed.push(self@);
                given = had.push(text);
                let done = samples@.take(i + 1);
                assert forall|k: int| #![trigger given[k]] 0 <= k < done.len() implies push_gives(
                    fpu,
                    states[k],
                    done[k],
                    states[k + 1],
                    given[k],
                ) by {
                    if k < i {
                        assert(given[k] == had[k]);
                        assert(samples@.take(i as int)[k] == done[k]);
                    }
                }
                assert(given.drop_last() =~= had);
            }
            if let Some(text) = row {
                rows.push(text);
                assert(texts(rows@) =~= texts(rows_before).push(text@));
            }
            i += 1;
        }
        assert(samples@.take(i as int) =~= samples@);
        rows
    }

    /// Gives the row for a partially filled bucket, if there is one.
    pub fn finish<F: FloatUnit>(&mut self, fpu: &F) -> (row: Option<String>)
        requires
            old(self)@.start + old(self)@.n <= u64::MAX,
            old(self)@.n > 0 ==> old(self)@.elapsed_us() <= u64::MAX,
        ensures
            final(self)@.valid(),
            finish_gives(fpu, old(self)@, final(self)@, optional_text(row)),
    {
        proof {
            use_type_invariant(&*self);
        }
        if self.n == 0 {
            return None;
        }
        let row = Self::render(
            fpu,
            self.per_bucket,
            self.sum,
            self.min,
            self.max,
            self.n,
            self.bucket_start,
        );
        *self = BucketLogger {
            per_bucket: self.per_bucket,
            sum: Double::zero(),
            min: Single::infinity(),
            max: Single::negative_infinity(),
            n: 0,
            bucket_start: self.bucket_start + self.n,
        };
        Some(row)
    }

    fn render<F: FloatUnit>(
        fpu: &F,
        per_bucket: u64,
        sum: Double,
        min: Single,
        max: Single,
        n: u64,
        start: u64,
    ) -> (row: String)
        requires
            start * SAMPLE_PERIOD_US <= u64::MAX,
        ensures
            row_gives(
                fpu,
                (BucketState {
                    per_bucket: per_bucket as nat,
                    sum,
                    min,
                    max,
                    n: n as nat,
                    start: start as nat,
                }),
                row@,
            ),
    {
        let elapsed_us: u64 = start * SAMPLE_PERIOD_US;
        let mean = average(fpu, sum, n);
        let avg_text = fpu.wide_fixed(mean, ROW_PLACES);
        let min_text = fpu.fixed(min, ROW_PLACES);
        let max_text = fpu.fixed(max, ROW_PLACES);
        let row = format_row(
            elapsed_us,
            avg_text.as_str(),
            min_text.as_str(),
            max_text.as_str(),
            n,
        );
        let ghost bucket = BucketState {
            per_bucket: per_bucket as nat,
            sum,
            min,
            max,
            n: n as nat,
            start: start as nat,
        };
        assert(bucket.elapsed_us() == elapsed_us);
        assert(wide_fixed_gives(fpu, mean, ROW_PLACES, avg_text@));
        assert(average_gives(fpu, bucket.sum, bucket.n as u64, mean));
        assert(fixed_gives(fpu, bucket.min, ROW_PLACES, min_text@));
        assert(fixed_gives(fpu, bucket.max, ROW_PLACES, max_text@));
        row
    }
}

/// Adding a sample leads from one bucket to another, and gives a row if it fills
/// the bucket.
pub open spec fn push_gives<F: FloatUnit>(
    fpu: &F,
    before: BucketState,
    ua: Single,
    after: BucketState,
    row: Option<Seq<char>>,
) -> bool {
    exists|sum: Double| #[trigger]
        total_gives(fpu, before.sum, ua, sum) && after == before.pushed(ua, sum) && match row {
            Some(text) => before.grown(ua, sum).full() && row_gives(
                fpu,
                before.grown(ua, sum),
                text,
            ),
            None => !before.grown(ua, sum).full(),
        }
}

/// Finishing leads from one bucket to another, and gives a row if the bucket holds
/// samples.
pub open spec fn finish_gives<F: FloatUnit>(
    fpu: &F,
    before: BucketState,
    after: BucketState,
    row: Option<Seq<char>>,
) -> bool {
    match row {
        Some(text) => before.n > 0 && row_gives(fpu, before, text) && after == before.successor(),
        None => before.n == 0 && after == before,
    }
}

/// What a run of samples does to a logger: `states` are its buckets before,
/// between and after the samples, and `given` holds the row that each one gives.
pub open spec fn log_passes<F: FloatUnit>(
    fpu: &F,
    states: Seq<BucketState>,
    samples: Seq<Single>,
    given: Seq<Option<Seq<char>>>,
) -> bool {
    &&& states.len() == samples.len() + 1
    &&& given.len() == samples.len()
    &&& forall|k: int|
        #![trigger given[k]]
        0 <= k < samples.len() ==> push_gives(fpu, states[k], samples[k], states[k + 1], given[k])
}

/// The rows among what a run of samples gives.
pub open spec fn rows_of(given: Seq<Option<Seq<char>>>) -> Seq<Seq<char>>
    decreases given.len(),
{
    if given.len() == 0 {
        Seq::empty()
    } else {
        match given.last() {
            Some(row) => rows_of(given.drop_last()).push(row),
            None => rows_of(given.drop_last()),
        }
    }
}

/// The texts of a list of strings.
pub open spec fn texts(strings: Seq<String>) -> Seq<Seq<char>> {
    Seq::new(strings.len(), |k: int| strings[k]@)
}

/// A run of samples leads from one bucket to another and gives rows.
pub open spec fn log_gives<F: FloatUnit>(
    fpu: &F,
    before: BucketState,
    samples: Seq<Single>,
    after: BucketState,
    rows: Seq<Seq<char>>,
) -> bool {
    exists|states: Seq<BucketState>, given: Seq<Option<Seq<char>>>| #[trigger]
        log_passes(fpu, states, samples, given) && states.first() == before && states.last()
            == after && rows == rows_of(given)
}

/// How the bucket and the place in it follow from one sample to the next.
proof fn lemma_next_position(k: int, p: int)
    requires
        k >= 0,
        p >= 1,
    ensures
        0 <= k % p < p,
        k == k / p * p + k % p,
        k % p + 1 == p ==> (k + 1) / p == k / p + 1 && (k + 1) % p == 0 && (k + 1) / p * p == k / p
            * p + p,
        k % p + 1 < p ==> (k + 1) / p == k / p && (k + 1) % p == k % p + 1,
{
    let q = k / p;
    let r = k % p;
    lemma_fundamental_div_mod(k, p);
    assert(p * q == q * p) by (nonlinear_arith);
    assert((q + 1) * p == q * p + p) by (nonlinear_arith);
    if r + 1 == p {
        lemma_fundamental_div_mod_converse(k + 1, p, q + 1, 0);
    } else {
        lemma_fundamental_div_mod_converse(k + 1, p, q, r + 1);
    }
}

proof fn lemma_position<F: FloatUnit>(
    fpu: &F,
    states: Seq<BucketState>,
    samples: Seq<Single>,
    given: Seq<Option<Seq<char>>>,
    k: int,
)
    requires
        log_passes(fpu, states, samples, given),
        states.first().per_bucket >= 1,
        states.first() == BucketState::empty(states.first().per_bucket, 0),
        0 <= k < states.len(),
    ensures
        ({
            let p = states.first().per_bucket as int;
            &&& states[k].per_bucket == p
            &&& states[k].n == k % p
            &&& states[k].start == k / p * p
            &&& states[k].start + states[k].n == k
        }),
    decreases k,
{
    let p = states.first().per_bucket as int;
    if k == 0 {
        lemma_next_position(0, p);
        lemma_fundamental_div_mod_converse(0, p, 0, 0);
    } else {
        lemma_position(fpu, states, samples, given, k - 1);
        assert(push_gives(fpu, states[k - 1], samples[k - 1], states[k - 1 + 1], given[k - 1]));
        lemma_next_position(k - 1, p);
    }
}

/// The bucket holds exactly `samples[from..to]`: it counts them, their total is
/// added up from zero, their least and greatest are its extremes, and it is dated by
/// the first of them, at exactly ten microseconds for each sample before it.
pub open spec fn bucket_holds<F: FloatUnit>(
    fpu: &F,
    bucket: BucketState,
    samples: Seq<Single>,
    from: int,
    to: int,
) -> bool {
    let run = samples.subrange(from, to);
    &&& 0 <= from <= to <= samples.len()
    &&& bucket.start == from
    &&& bucket.n == to - from
    &&& bucket.elapsed_us() == 10 * from
    &&& run_total_gives(fpu, run, bucket.sum)
    &&& bucket.min == least(Single::infinity(), run)
    &&& bucket.max == greatest(Single::negative_infinity(), run)
}

/// The row is that of a bucket which holds exactly `samples[from..to]`.
pub open spec fn row_describes<F: FloatUnit>(
    fpu: &F,
    row: Seq<char>,
    samples: Seq<Single>,
    from: int,
    to: int,
) -> bool {
    exists|bucket: BucketState| #[trigger]
        row_gives(fpu, bucket, row) && bucket_holds(fpu, bucket, samples, from, to)
}

proof fn lemma_empty_bucket<F: FloatUnit>(
    fpu: &F,
    per_bucket: nat,
    samples: Seq<Single>,
    start: int,
)
    requires
        0 <= start <= samples.len(),
    ensures
        bucket_holds(
            fpu,
            BucketState::empty(per_bucket, start as nat),
            samples,
            start,
            start,
        ),
{
    lemma_empty_total(fpu);
    assert(samples.subrange(start, start) =~= Seq::<Single>::empty());
}

proof fn lemma_bucket_grows<F: FloatUnit>(
    fpu: &F,
    bucket: BucketState,
    samples: Seq<Single>,
    from: int,
    k: int,
    sum: Double,
)
    requires
        bucket_holds(fpu, bucket, samples, from, k),
        k < samples.len(),
        total_gives(fpu, bucket.sum, samples[k], sum),
    ensures
        bucket_holds(fpu, bucket.grown(samples[k], sum), samples, from, k + 1),
{
    let run = samples.subrange(from, k);
    let grown = samples.subrange(from, k + 1);
    lemma_total_grows(fpu, run, bucket.sum, samples[k], sum);
    assert(grown =~= run.push(samples[k]));
    assert(grown.drop_last() =~= run);
}

/// The total that a push leads to.
proof fn lemma_push<F: FloatUnit>(
    fpu: &F,
    before: BucketState,
    ua: Single,
    after: BucketState,
    row: Option<Seq<char>>,
) -> (sum: Double)
    requires
        push_gives(fpu, before, ua, after, row),
    ensures
        total_gives(fpu, before.sum, ua, sum),
        after == before.pushed(ua, sum),
        row is Some <==> before.grown(ua, sum).full(),
        row matches Some(text) ==> row_gives(fpu, before.grown(ua, sum), text),
{
    choose|sum: Double| #[trigger]
        total_gives(fpu, before.sum, ua, sum) && after == before.pushed(ua, sum) && match row {
            Some(text) => before.grown(ua, sum).full() && row_gives(
                fpu,
                before.grown(ua, sum),
                text,
            ),
            None => !before.grown(ua, sum).full(),
        }
}

proof fn lemma_buckets_hold<F: FloatUnit>(
    fpu: &F,
    states: Seq<BucketState>,
    samples: Seq<Single>,
    given: Seq<Option<Seq<char>>>,
    k: int,
)
    requires
        log_passes(fpu, states, samples, given),
        states.first().per_bucket >= 1,
        states.first() == BucketState::empty(states.first().per_bucket, 0),
        0 <= k < states.len(),
    ensures
        bucket_holds(fpu, states[k], samples, states[k].start as int, k),
    decreases k,
{
    lemma_position(fpu, states, samples, given, k);
    if k == 0 {
        lemma_empty_bucket(fpu, states[0].per_bucket, samples, 0);
    } else {
        lemma_buckets_hold(fpu, states, samples, given, k - 1);
        assert(push_gives(fpu, states[k - 1], samples[k - 1], states[k - 1 + 1], given[k - 1]));
        let sum = lemma_push(fpu, states[k - 1], samples[k - 1], states[k], given[k - 1]);
        lemma_bucket_grows(
            fpu,
            states[k - 1],
            samples,
            states[k - 1].start as int,
            k - 1,
            sum,
        );
        lemma_empty_bucket(fpu, states[k].per_bucket, samples, k);
    }
}

/// Rows tile the stream. Every sample that completes a bucket gives a row, and no
/// other does. The row is that of exactly the samples of its bucket: it dates them,
/// averages them, and keeps their extremes, so that a spike survives in the maximum
/// however large the bucket is.
pub proof fn law_rows_tile_the_stream<F: FloatUnit>(
    fpu: &F,
    states: Seq<BucketState>,
    samples: Seq<Single>,
    given: Seq<Option<Seq<char>>>,
    k: int,
)
    requires
        log_passes(fpu, states, samples, given),
        states.first().per_bucket >= 1,
        states.first() == BucketState::empty(states.first().per_bucket, 0),
        0 <= k < samples.len(),
    ensures
        ({
            let p = states.first().per_bucket as int;
            &&& given[k] is Some <==> (k + 1) % p == 0
            &&& given[k] matches Some(row) ==> row_describes(fpu, row, samples, k + 1 - p, k + 1)
        }),
{
    let p = states.first().per_bucket as int;
    lemma_position(fpu, states, samples, given, k);
    lemma_buckets_hold(fpu, states, samples, given, k);
    lemma_next_position(k, p);
    assert(push_gives(fpu, states[k], samples[k], states[k + 1], given[k]));
    let sum = lemma_push(fpu, states[k], samples[k], states[k + 1], given[k]);
    let bucket = states[k].grown(samples[k], sum);
    lemma_bucket_grows(fpu, states[k], samples, states[k].start as int, k, sum);
    if bucket.full() {
        assert(states[k].start == k + 1 - p);
        assert(row_gives(fpu, bucket, given[k]->0));
    }
}

proof fn lemma_rows_join(a: Seq<Option<Seq<char>>>, b: Seq<Option<Seq<char>>>)
    ensures
        rows_of(a + b) == rows_of(a) + rows_of(b),
    decreases b.len(),
{
    if b.len() == 0 {
        assert(a + b =~= a);
        assert(rows_of(a) + rows_of(b) =~= rows_of(a));
    } else {
        lemma_rows_join(a, b.drop_last());
        assert((a + b).drop_last() =~= a + b.drop_last());
        assert((a + b).last() == b.last());
        assert(rows_of(a + b) =~= rows_of(a) + rows_of(b));
    }
}

/// The log does not depend on how the samples were batched: logging one run after
/// another gives what logging them as one run gives.
pub proof fn law_batches_do_not_show<F: FloatUnit>(
    fpu: &F,
    before: BucketState,
    first: Seq<Single>,
    between: BucketState,
    first_rows: Seq<Seq<char>>,
    second: Seq<Single>,
    after: BucketState,
    second_rows: Seq<Seq<char>>,
)
    requires
        log_gives(fpu, before, first, between, first_rows),
        log_gives(fpu, between, second, after, second_rows),
    ensures
        log_gives(fpu, before, first + second, after, first_rows + second_rows),
{
    let (s1, g1) = choose|states: Seq<BucketState>, given: Seq<Option<Seq<char>>>| #[trigger]
        log_passes(fpu, states, first, given) && states.first() == before && states.last()
            == between && first_rows == rows_of(given);
    let (s2, g2) = choose|states: Seq<BucketState>, given: Seq<Option<Seq<char>>>| #[trigger]
        log_passes(fpu, states, second, given) && states.first() == between && states.last()
            == after && second_rows == rows_of(given);
    let states = s1.drop_last() + s2;
    let given = g1 + g2;
    let samples = first + second;
    assert forall|k: int| #![trigger given[k]] 0 <= k < samples.len() implies push_gives(
        fpu,
        states[k],
        samples[k],
        states[k + 1],
        given[k],
    ) by {
        if k < first.len() {
            assert(given[k] == g1[k]);
            assert(push_gives(fpu, s1[k], first[k], s1[k + 1], g1[k]));
        } else {
            let j = k - first.len();
            assert(given[k] == g2[j]);
            assert(push_gives(fpu, s2[j], second[j], s2[j + 1], g2[j]));
        }
    }
    lemma_rows_join(g1, g2);
    assert(log_passes(fpu, states, samples, given));
    assert(states.last() == s2.last());
    assert(states.first() == before);
}

proof fn lemma_rows<F: FloatUnit>(
    fpu: &F,
    states: Seq<BucketState>,
    samples: Seq<Single>,
    given: Seq<Option<Seq<char>>>,
    k: int,
)
    requires
        log_passes(fpu, states, samples, given),
        states.first().per_bucket >= 1,
        states.first() == BucketState::empty(states.first().per_bucket, 0),
        0 <= k <= samples.len(),
    ensures
        ({
            let p = states.first().per_bucket as int;
            let rows = rows_of(given.take(k));
            &&& rows.len() == k / p
            &&& forall|j: int|
                0 <= j < rows.len() ==> row_describes(
                    fpu,
                    #[trigger] rows[j],
                    samples,
                    j * p,
                    (j + 1) * p,
                )
        }),
    decreases k,
{
    let p = states.first().per_bucket as int;
    if k == 0 {
        lemma_next_position(0, p);
        lemma_fundamental_div_mod_converse(0, p, 0, 0);
    } else {
        lemma_rows(fpu, states, samples, given, k - 1);
        law_rows_tile_the_stream(fpu, states, samples, given, k - 1);
        assert(given.take(k).drop_last() =~= given.take(k - 1));
        assert(given.take(k).last() == given[k - 1]);
        lemma_next_position(k - 1, p);
        lemma_next_position(k, p);
        let before = rows_of(given.take(k - 1));
        let rows = rows_of(given.take(k));
        assert forall|j: int| 0 <= j < rows.len() implies row_describes(
            fpu,
            #[trigger] rows[j],
            samples,
            j * p,
            (j + 1) * p,
        ) by {
            if j < before.len() {
                assert(rows[j] == before[j]);
            } else {
                assert((j + 1) * p == j * p + p) by (nonlinear_arith);
            }
        }
    }
}

/// The log of a stream. It has one row for every full bucket and no other; row `j`
/// is that of exactly the samples from `j` times the bucket size on; and the samples
/// after the last full bucket, and they alone, wait for the next row.
pub proof fn law_log_of_a_stream<F: FloatUnit>(
    fpu: &F,
    per_bucket: nat,
    samples: Seq<Single>,
    after: BucketState,
    rows: Seq<Seq<char>>,
)
    requires
        per_bucket >= 1,
        log_gives(fpu, BucketState::empty(per_bucket, 0), samples, after, rows),
    ensures
        rows.len() == samples.len() / per_bucket,
        forall|j: int|
            0 <= j < rows.len() ==> row_describes(
                fpu,
                #[trigger] rows[j],
                samples,
                j * per_bucket,
                (j + 1) * per_bucket,
            ),
        after.n == samples.len() % per_bucket,
        bucket_holds(
            fpu,
            after,
            samples,
            rows.len() * per_bucket as int,
            samples.len() as int,
        ),
{
    let before = BucketState::empty(per_bucket, 0);
    let n = samples.len() as int;
    let (states, given) = choose|states: Seq<BucketState>, given: Seq<Option<Seq<char>>>| #[trigger]
        log_passes(fpu, states, samples, given) && states.first() == before && states.last()
            == after && rows == rows_of(given);
    lemma_rows(fpu, states, samples, given, n);
    lemma_position(fpu, states, samples, given, n);
    lemma_buckets_hold(fpu, states, samples, given, n);
    assert(given.take(n) =~= given);
}

/// Finishing a log accounts for every sample. A last row is added if and only if the
/// last bucket was partly filled, and is that of the samples which were left; the
/// rows together then count every sample once. Finishing again adds nothing.
pub proof fn law_finished_log_counts_every_sample<F: FloatUnit>(
    fpu: &F,
    per_bucket: nat,
    samples: Seq<Single>,
    pushed: BucketState,
    rows: Seq<Seq<char>>,
    finished: BucketState,
    last: Option<Seq<char>>,
    again: BucketState,
    second: Option<Seq<char>>,
)
    requires
        per_bucket >= 1,
        log_gives(fpu, BucketState::empty(per_bucket, 0), samples, pushed, rows),
        finish_gives(fpu, pushed, finished, last),
        finish_gives(fpu, finished, again, second),
    ensures
        last is Some <==> samples.len() % per_bucket != 0,
        last matches Some(row) ==> row_describes(
            fpu,
            row,
            samples,
            rows.len() * per_bucket as int,
            samples.len() as int,
        ),
        rows.len() * per_bucket + (if last is Some {
            pushed.n
        } else {
            0
        }) == samples.len(),
        second is None,
        again == finished,
{
    law_log_of_a_stream(fpu, per_bucket, samples, pushed, rows);
    lemma_next_position(samples.len() as int, per_bucket as int);
    if last is Some {
        assert(row_gives(fpu, pushed, last->0));
    }
}

} // verus!
