//! Floating-point values by their IEEE 754 bit patterns.
//!
//! Comparing, selecting and classifying floating-point values needs only their
//! bits, and is verified here. Arithmetic, parsing and printing are done by a
//! [`FloatUnit`], of whose results nothing is claimed: a contract elsewhere in
//! the crate only says which operation is applied to which operands.

use vstd::prelude::*;

verus! {

/// Sign bit of a single-precision pattern.
pub const SINGLE_SIGN: u32 = 0x8000_0000;

/// Magnitude of single-precision infinity; every larger magnitude is a NaN.
pub const SINGLE_INFINITY: u32 = 0x7F80_0000;

/// Sign bit of a double-precision pattern.
pub const DOUBLE_SIGN: u64 = 0x8000_0000_0000_0000;

/// Magnitude of double-precision infinity; every larger magnitude is a NaN.
pub const DOUBLE_INFINITY: u64 = 0x7FF0_0000_0000_0000;

/// 1.0 in single precision.
pub const SINGLE_ONE: u32 = 0x3F80_0000;

/// 1000.0 in single precision.
pub const SINGLE_THOUSAND: u32 = 0x447A_0000;

/// A single-precision value.
#[derive(Clone, Copy, Debug, PartialEq, Eq, Structural)]
pub struct Single {
    pub bits: u32,
}

/// A double-precision value.
#[derive(Clone, Copy, Debug, PartialEq, Eq, Structural)]
pub struct Double {
    pub bits: u64,
}

impl Single {
    /// The pattern without its sign bit.
    pub open spec fn magnitude(self) -> int {
        if self.bits >= SINGLE_SIGN {
            self.bits - SINGLE_SIGN
        } else {
            self.bits as int
        }
    }

    /// The sign bit is set.
    pub open spec fn negative(self) -> bool {
        self.bits >= SINGLE_SIGN
    }

    pub open spec fn nan(self) -> bool {
        self.magnitude() > SINGLE_INFINITY
    }

    pub open spec fn finite(self) -> bool {
        self.magnitude() < SINGLE_INFINITY
    }

    /// Position in the numeric order. IEEE 754 patterns are sign and magnitude,
    /// and the magnitude grows with the value; both zeros are at 0.
    pub open spec fn ordinal(self) -> int {
        if self.negative() {
            -self.magnitude()
        } else {
            self.magnitude()
        }
    }

    /// Numerically smaller: false whenever a NaN is involved.
    pub open spec fn below(self, other: Single) -> bool {
        !self.nan() && !other.nan() && self.ordinal() < other.ordinal()
    }

    /// The larger of the two numbers, the first of two zeros; a NaN gives way to the
    /// other operand.
    pub open spec fn larger(self, other: Single) -> Single {
        if self.nan() || self.below(other) {
            other
        } else {
            self
        }
    }

    /// The smaller of the two numbers, the first of two zeros; a NaN gives way to the
    /// other operand.
    pub open spec fn smaller(self, other: Single) -> Single {
        if self.nan() || other.below(self) {
            other
        } else {
            self
        }
    }

    /// The value with its sign bit cleared.
    pub open spec fn absolute(self) -> Single {
        Single { bits: self.magnitude() as u32 }
    }

    #[verifier::allow_in_spec]
    pub fn from_bits(bits: u32) -> Single
        returns
            (Single { bits }),
    {
        Single { bits }
    }

    #[verifier::allow_in_spec]
    pub fn zero() -> Single
        returns
            (Single { bits: 0 }),
    {
        Single { bits: 0 }
    }

    #[verifier::allow_in_spec]
    pub fn infinity() -> Single
        returns
            (Single { bits: SINGLE_INFINITY }),
    {
        Single { bits: SINGLE_INFINITY }
    }

    #[verifier::allow_in_spec]
    pub fn negative_infinity() -> Single
        returns
            (Single { bits: 0xFF80_0000 }),
    {
        Single { bits: 0xFF80_0000 }
    }

    pub fn is_nan(self) -> (r: bool)
        ensures
            r == self.nan(),
    {
        if self.bits >= SINGLE_SIGN {
            self.bits - SINGLE_SIGN > SINGLE_INFINITY
        } else {
            self.bits > SINGLE_INFINITY
        }
    }

    pub fn is_finite(self) -> (r: bool)
        ensures
            r == self.finite(),
    {
        if self.bits >= SINGLE_SIGN {
            self.bits - SINGLE_SIGN < SINGLE_INFINITY
        } else {
            self.bits < SINGLE_INFINITY
        }
    }

    pub fn abs(self) -> (r: Single)
        ensures
            r == self.absolute(),
    {
        if self.bits >= SINGLE_SIGN {
            Single { bits: self.bits - SINGLE_SIGN }
        } else {
            self
        }
    }

    pub fn less_than(self, other: Single) -> (r: bool)
        ensures
            r == self.below(other),
    {
        if self.is_nan() || other.is_nan() {
            false
        } else if self.bits >= SINGLE_SIGN {
            if other.bits >= SINGLE_SIGN {
                self.bits > other.bits
            } else {
                self.bits > SINGLE_SIGN || other.bits > 0
            }
        } else {
            other.bits < SINGLE_SIGN && self.bits < other.bits
        }
    }

    pub fn max(self, other: Single) -> (r: Single)
        ensures
            r == self.larger(other),
    {
        if self.is_nan() || self.less_than(other) {
            other
        } else {
            self
        }
    }

    pub fn min(self, other: Single) -> (r: Single)
        ensures
            r == self.smaller(other),
    {
        if self.is_nan() || other.less_than(self) {
            other
        } else {
            self
        }
    }
}

impl Double {
    /// The pattern without its sign bit.
    pub open spec fn magnitude(self) -> int {
        if self.bits >= DOUBLE_SIGN {
            self.bits - DOUBLE_SIGN
        } else {
            self.bits as int
        }
    }

    pub open spec fn nan(self) -> bool {
        self.magnitude() > DOUBLE_INFINITY
    }

    /// Position in the numeric order, as for [`Single`].
    pub open spec fn ordinal(self) -> int {
        if self.bits >= DOUBLE_SIGN {
            -self.magnitude()
        } else {
            self.magnitude()
        }
    }

    /// Numerically smaller: false whenever a NaN is involved.
    pub open spec fn below(self, other: Double) -> bool {
        !self.nan() && !other.nan() && self.ordinal() < other.ordinal()
    }

    /// Numerically smaller or equal: false whenever a NaN is involved.
    pub open spec fn not_above(self, other: Double) -> bool {
        !self.nan() && !other.nan() && self.ordinal() <= other.ordinal()
    }

    /// The larger of the two numbers, as for [`Single`].
    pub open spec fn larger(self, other: Double) -> Double {
        if self.nan() || self.below(other) {
            other
        } else {
            self
        }
    }

    /// The smaller of the two numbers, as for [`Single`].
    pub open spec fn smaller(self, other: Double) -> Double {
        if self.nan() || other.below(self) {
            other
        } else {
            self
        }
    }

    #[verifier::allow_in_spec]
    pub fn from_bits(bits: u64) -> Double
        returns
            (Double { bits }),
    {
        Double { bits }
    }

    #[verifier::allow_in_spec]
    pub fn zero() -> Double
        returns
            (Double { bits: 0 }),
    {
        Double { bits: 0 }
    }

    /// The value with its sign bit flipped.
    pub open spec fn opposite(self) -> Double {
        if self.bits >= DOUBLE_SIGN {
            Double { bits: (self.bits - DOUBLE_SIGN) as u64 }
        } else {
            Double { bits: (self.bits + DOUBLE_SIGN) as u64 }
        }
    }

    pub fn negated(self) -> (r: Double)
        ensures
            r == self.opposite(),
    {
        if self.bits >= DOUBLE_SIGN {
            Double { bits: self.bits - DOUBLE_SIGN }
        } else {
            Double { bits: self.bits + DOUBLE_SIGN }
        }
    }

    pub fn is_nan(self) -> (r: bool)
        ensures
            r == self.nan(),
    {
        if self.bits >= DOUBLE_SIGN {
            self.bits - DOUBLE_SIGN > DOUBLE_INFINITY
        } else {
            self.bits > DOUBLE_INFINITY
        }
    }

    pub fn less_than(self, other: Double) -> (r: bool)
        ensures
            r == self.below(other),
    {
        if self.is_nan() || other.is_nan() {
            false
        } else if self.bits >= DOUBLE_SIGN {
            if other.bits >= DOUBLE_SIGN {
                self.bits > other.bits
            } else {
                self.bits > DOUBLE_SIGN || other.bits > 0
            }
        } else {
            other.bits < DOUBLE_SIGN && self.bits < other.bits
        }
    }

    pub fn at_most(self, other: Double) -> (r: bool)
        ensures
            r == self.not_above(other),
    {
        !self.is_nan() && !other.is_nan() && !other.less_than(self)
    }

    pub fn max(self, other: Double) -> (r: Double)
        ensures
            r == self.larger(other),
    {
        if self.is_nan() || self.less_than(other) {
            other
        } else {
            self
        }
    }

    pub fn min(self, other: Double) -> (r: Double)
        ensures
            r == self.smaller(other),
    {
        if self.is_nan() || other.less_than(self) {
            other
        } else {
            self
        }
    }
}

/// What the crate asks of the host's floating-point arithmetic.
///
/// No method carries a contract. The `*_gives` relations below hold between the
/// operands and the result of one call.
pub trait FloatUnit {
    /// The integer in single precision, rounded to nearest.
    fn single_from_count(&self, n: u64) -> Single;

    fn plus(&self, a: Single, b: Single) -> Single;

    fn minus(&self, a: Single, b: Single) -> Single;

    fn times(&self, a: Single, b: Single) -> Single;

    fn over(&self, a: Single, b: Single) -> Single;

    /// Reads a decimal number, or says why the text is none.
    fn parse(&self, text: &str) -> Result<Single, String>;

    /// Prints with a fixed number of decimal places.
    fn fixed(&self, value: Single, places: u8) -> String;

    fn widen(&self, value: Single) -> Double;

    fn narrow(&self, value: Double) -> Single;

    /// The integer in double precision, rounded to nearest.
    fn double_from_count(&self, n: u64) -> Double;

    fn wide_plus(&self, a: Double, b: Double) -> Double;

    fn wide_minus(&self, a: Double, b: Double) -> Double;

    fn wide_times(&self, a: Double, b: Double) -> Double;

    fn wide_over(&self, a: Double, b: Double) -> Double;

    /// The decimal logarithm, rounded down.
    fn decade(&self, value: Double) -> i32;

    /// Ten to an integer power.
    fn power_of_ten(&self, exponent: i32) -> Double;

    /// Rounded up to an integer; zero for what is negative or no number.
    fn ceiling(&self, value: Double) -> usize;

    /// Prints with a fixed number of decimal places.
    fn wide_fixed(&self, value: Double, places: u8) -> String;
}

pub open spec fn single_from_count_gives<F: FloatUnit>(fpu: &F, n: u64, r: Single) -> bool {
    call_ensures(F::single_from_count, (fpu, n), r)
}

pub open spec fn plus_gives<F: FloatUnit>(fpu: &F, a: Single, b: Single, r: Single) -> bool {
    call_ensures(F::plus, (fpu, a, b), r)
}

pub open spec fn minus_gives<F: FloatUnit>(fpu: &F, a: Single, b: Single, r: Single) -> bool {
    call_ensures(F::minus, (fpu, a, b), r)
}

pub open spec fn times_gives<F: FloatUnit>(fpu: &F, a: Single, b: Single, r: Single) -> bool {
    call_ensures(F::times, (fpu, a, b), r)
}

pub open spec fn over_gives<F: FloatUnit>(fpu: &F, a: Single, b: Single, r: Single) -> bool {
    call_ensures(F::over, (fpu, a, b), r)
}

/// Some text with these characters parses to `value`.
pub open spec fn parse_gives<F: FloatUnit>(fpu: &F, chars: Seq<char>, value: Single) -> bool {
    exists|text: &str, r: Result<Single, String>|
        text@ == chars && #[trigger] call_ensures(F::parse, (fpu, text), r) && r == Ok::<
            Single,
            String,
        >(value)
}

/// Some text with these characters is refused for `reason`.
pub open spec fn parse_refuses<F: FloatUnit>(
    fpu: &F,
    chars: Seq<char>,
    reason: Seq<char>,
) -> bool {
    exists|text: &str, r: Result<Single, String>|
        text@ == chars && #[trigger] call_ensures(F::parse, (fpu, text), r) && (r matches Err(why)
            && why@ == reason)
}

pub open spec fn fixed_gives<F: FloatUnit>(
    fpu: &F,
    value: Single,
    places: u8,
    text: Seq<char>,
) -> bool {
    exists|s: String| #[trigger] call_ensures(F::fixed, (fpu, value, places), s) && s@ == text
}

pub open spec fn widen_gives<F: FloatUnit>(fpu: &F, value: Single, r: Double) -> bool {
    call_ensures(F::widen, (fpu, value), r)
}

pub open spec fn narrow_gives<F: FloatUnit>(fpu: &F, value: Double, r: Single) -> bool {
    call_ensures(F::narrow, (fpu, value), r)
}

pub open spec fn double_from_count_gives<F: FloatUnit>(fpu: &F, n: u64, r: Double) -> bool {
    call_ensures(F::double_from_count, (fpu, n), r)
}

pub open spec fn wide_plus_gives<F: FloatUnit>(fpu: &F, a: Double, b: Double, r: Double) -> bool {
    call_ensures(F::wide_plus, (fpu, a, b), r)
}

pub open spec fn wide_minus_gives<F: FloatUnit>(fpu: &F, a: Double, b: Double, r: Double) -> bool {
    call_ensures(F::wide_minus, (fpu, a, b), r)
}

pub open spec fn wide_times_gives<F: FloatUnit>(fpu: &F, a: Double, b: Double, r: Double) -> bool {
    call_ensures(F::wide_times, (fpu, a, b), r)
}

pub open spec fn wide_over_gives<F: FloatUnit>(fpu: &F, a: Double, b: Double, r: Double) -> bool {
    call_ensures(F::wide_over, (fpu, a, b), r)
}

pub open spec fn decade_gives<F: FloatUnit>(fpu: &F, value: Double, r: i32) -> bool {
    call_ensures(F::decade, (fpu, value), r)
}

pub open spec fn power_of_ten_gives<F: FloatUnit>(fpu: &F, exponent: i32, r: Double) -> bool {
    call_ensures(F::power_of_ten, (fpu, exponent), r)
}

pub open spec fn ceiling_gives<F: FloatUnit>(fpu: &F, value: Double, r: usize) -> bool {
    call_ensures(F::ceiling, (fpu, value), r)
}

pub open spec fn wide_fixed_gives<F: FloatUnit>(
    fpu: &F,
    value: Double,
    places: u8,
    text: Seq<char>,
) -> bool {
    exists|s: String| #[trigger] call_ensures(F::wide_fixed, (fpu, value, places), s) && s@ == text
}

/// `r` is a running total with a sample added to it.
pub open spec fn total_gives<F: FloatUnit>(fpu: &F, total: Double, ua: Single, r: Double) -> bool {
    exists|wide: Double| #[trigger]
        widen_gives(fpu, ua, wide) && wide_plus_gives(fpu, total, wide, r)
}

/// Adds a sample to a running total.
pub fn add_to_total<F: FloatUnit>(fpu: &F, total: Double, ua: Single) -> (r: Double)
    ensures
        total_gives(fpu, total, ua, r),
{
    let wide = fpu.widen(ua);
    assert(widen_gives(fpu, ua, wide));
    fpu.wide_plus(total, wide)
}

/// `totals` are the running totals of ever more samples, from zero on.
pub open spec fn totals_pass<F: FloatUnit>(
    fpu: &F,
    samples: Seq<Single>,
    totals: Seq<Double>,
) -> bool {
    &&& totals.len() == samples.len() + 1
    &&& totals[0] == Double::zero()
    &&& forall|k: int|
        #![trigger samples[k]]
        0 <= k < samples.len() ==> total_gives(fpu, totals[k], samples[k], totals[k + 1])
}

/// `r` is the total of exactly these samples, added up in order from zero on.
pub open spec fn run_total_gives<F: FloatUnit>(fpu: &F, samples: Seq<Single>, r: Double) -> bool {
    exists|totals: Seq<Double>| #[trigger]
        totals_pass(fpu, samples, totals) && r == totals.last()
}

pub proof fn lemma_empty_total<F: FloatUnit>(fpu: &F)
    ensures
        run_total_gives(fpu, Seq::<Single>::empty(), Double::zero()),
{
    let totals = seq![Double::zero()];
    assert(totals_pass(fpu, Seq::<Single>::empty(), totals));
    assert(totals.last() == Double::zero());
}

pub proof fn lemma_total_grows<F: FloatUnit>(
    fpu: &F,
    samples: Seq<Single>,
    total: Double,
    ua: Single,
    r: Double,
)
    requires
        run_total_gives(fpu, samples, total),
        total_gives(fpu, total, ua, r),
    ensures
        run_total_gives(fpu, samples.push(ua), r),
{
    let before = choose|totals: Seq<Double>| #[trigger]
        totals_pass(fpu, samples, totals) && total == totals.last();
    let totals = before.push(r);
    let grown = samples.push(ua);
    assert forall|k: int| #![trigger grown[k]] 0 <= k < grown.len() implies total_gives(
        fpu,
        totals[k],
        grown[k],
        totals[k + 1],
    ) by {
        if k < samples.len() {
            assert(samples[k] == grown[k]);
        }
    }
    assert(totals_pass(fpu, grown, totals));
    assert(totals.last() == r);
}

/// `r` is a total divided by a count.
pub open spec fn average_gives<F: FloatUnit>(fpu: &F, total: Double, n: u64, r: Double) -> bool {
    exists|count: Double| #[trigger]
        double_from_count_gives(fpu, n, count) && wide_over_gives(fpu, total, count, r)
}

/// Divides a total by a count.
pub fn average<F: FloatUnit>(fpu: &F, total: Double, n: u64) -> (r: Double)
    ensures
        average_gives(fpu, total, n, r),
{
    let count = fpu.double_from_count(n);
    assert(double_from_count_gives(fpu, n, count));
    fpu.wide_over(total, count)
}

/// The greatest of a run of samples, starting from `start`.
pub open spec fn greatest(start: Single, samples: Seq<Single>) -> Single
    decreases samples.len(),
{
    if samples.len() == 0 {
        start
    } else {
        greatest(start, samples.drop_last()).larger(samples.last())
    }
}

/// The least of a run of samples, starting from `start`.
pub open spec fn least(start: Single, samples: Seq<Single>) -> Single
    decreases samples.len(),
{
    if samples.len() == 0 {
        start
    } else {
        least(start, samples.drop_last()).smaller(samples.last())
    }
}

/// The greatest of a run is a number where it starts from one, lies at or above
/// the start and every number in the run, and is one of these.
pub proof fn law_greatest_bounds_the_run(start: Single, samples: Seq<Single>)
    requires
        !start.nan(),
    ensures
        !greatest(start, samples).nan(),
        start.ordinal() <= greatest(start, samples).ordinal(),
        forall|k: int|
            0 <= k < samples.len() && !samples[k].nan() ==> (#[trigger] samples[k]).ordinal()
                <= greatest(start, samples).ordinal(),
        greatest(start, samples) == start || samples.contains(greatest(start, samples)),
    decreases samples.len(),
{
    if samples.len() > 0 {
        let init = samples.drop_last();
        law_greatest_bounds_the_run(start, init);
        let g = greatest(start, samples);
        assert forall|k: int| 0 <= k < samples.len() && !samples[k].nan() implies (
        #[trigger] samples[k]).ordinal() <= g.ordinal() by {
            if k < init.len() {
                assert(init[k] == samples[k]);
            }
        }
        if init.contains(greatest(start, init)) {
            let k = choose|k: int| 0 <= k < init.len() && init[k] == greatest(start, init);
            assert(samples[k] == greatest(start, init));
        }
        assert(samples[samples.len() - 1] == samples.last());
    }
}

/// The least of a run is a number where it starts from one, lies at or below
/// the start and every number in the run, and is one of these.
pub proof fn law_least_bounds_the_run(start: Single, samples: Seq<Single>)
    requires
        !start.nan(),
    ensures
        !least(start, samples).nan(),
        start.ordinal() >= least(start, samples).ordinal(),
        forall|k: int|
            0 <= k < samples.len() && !samples[k].nan() ==> (#[trigger] samples[k]).ordinal()
                >= least(start, samples).ordinal(),
        least(start, samples) == start || samples.contains(least(start, samples)),
    decreases samples.len(),
{
    if samples.len() > 0 {
        let init = samples.drop_last();
        law_least_bounds_the_run(start, init);
        let g = least(start, samples);
        assert forall|k: int| 0 <= k < samples.len() && !samples[k].nan() implies (
        #[trigger] samples[k]).ordinal() >= g.ordinal() by {
            if k < init.len() {
                assert(init[k] == samples[k]);
            }
        }
        if init.contains(least(start, init)) {
            let k = choose|k: int| 0 <= k < init.len() && init[k] == least(start, init);
            assert(samples[k] == least(start, init));
        }
        assert(samples[samples.len() - 1] == samples.last());
    }
}

} // verus!
