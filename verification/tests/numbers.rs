use ppk2tui::float::{Double, Single, SINGLE_ONE, SINGLE_THOUSAND};
use ppk2tui::ppk2::calibration::{ADC_MULTIPLIER, MICRO};
use ppk2tui::tui::chart::{
    greatest_magnitude, greatest_of, least_of, DOUBLE_EPSILON, DOUBLE_FIVE, DOUBLE_ONE,
    DOUBLE_SAMPLE_RATE, DOUBLE_TEN, DOUBLE_TWO, SINGLE_NEGATIVE_ZERO,
};
use ppk2tui::tui::ui::SINGLE_THOUSANDTH;

const SINGLES: [f32; 13] = [
    0.0,
    -0.0,
    1.0,
    -1.0,
    0.5,
    1e-40,
    -1e-40,
    3.4e38,
    -3.4e38,
    f32::INFINITY,
    f32::NEG_INFINITY,
    f32::NAN,
    -f32::NAN,
];

fn single(v: f32) -> Single {
    Single { bits: v.to_bits() }
}

fn value(v: Single) -> f32 {
    f32::from_bits(v.bits)
}

#[test]
fn constants_are_the_values_that_they_name() {
    assert_eq!(f32::from_bits(SINGLE_ONE), 1.0);
    assert_eq!(f32::from_bits(SINGLE_THOUSAND), 1000.0);
    assert_eq!(f32::from_bits(SINGLE_THOUSANDTH), 0.001);
    assert_eq!(SINGLE_NEGATIVE_ZERO, (-0.0f32).to_bits());
    assert_eq!(f32::from_bits(ADC_MULTIPLIER), 1.8 / 163840.0);
    assert_eq!(f32::from_bits(MICRO), 1_000_000.0);
    assert_eq!(f64::from_bits(DOUBLE_ONE), 1.0);
    assert_eq!(f64::from_bits(DOUBLE_TWO), 2.0);
    assert_eq!(f64::from_bits(DOUBLE_FIVE), 5.0);
    assert_eq!(f64::from_bits(DOUBLE_TEN), 10.0);
    assert_eq!(f64::from_bits(DOUBLE_SAMPLE_RATE), 100_000.0);
    assert_eq!(f64::from_bits(DOUBLE_EPSILON), f64::EPSILON);
    assert_eq!(Single::infinity(), single(f32::INFINITY));
    assert_eq!(Single::negative_infinity(), single(f32::NEG_INFINITY));
    assert_eq!(Single::zero(), single(0.0));
    assert_eq!(Double::zero().bits, 0.0f64.to_bits());
}

#[test]
fn single_comparisons_are_those_of_the_host() {
    for a in SINGLES {
        assert_eq!(single(a).is_nan(), a.is_nan());
        assert_eq!(single(a).is_finite(), a.is_finite());
        assert_eq!(single(a).abs(), single(a.abs()));
        for b in SINGLES {
            assert_eq!(single(a).less_than(single(b)), a < b, "{a} < {b}");
            let (max, min) = (value(single(a).max(single(b))), value(single(a).min(single(b))));
            if a.is_nan() && b.is_nan() {
                assert!(max.is_nan() && min.is_nan());
            } else {
                assert_eq!(max, a.max(b), "{a} max {b}");
                assert_eq!(min, a.min(b), "{a} min {b}");
            }
        }
    }
}

#[test]
fn double_comparisons_are_those_of_the_host() {
    let double = |v: f64| Double::from_bits(v.to_bits());
    let values: Vec<f64> = SINGLES.iter().map(|v| *v as f64).collect();
    for &a in &values {
        assert_eq!(double(a).is_nan(), a.is_nan());
        assert_eq!(double(a).negated().bits, (-a).to_bits());
        for &b in &values {
            assert_eq!(double(a).less_than(double(b)), a < b);
            assert_eq!(double(a).at_most(double(b)), a <= b);
            if !(a.is_nan() && b.is_nan()) {
                assert_eq!(f64::from_bits(double(a).max(double(b)).bits), a.max(b));
                assert_eq!(f64::from_bits(double(a).min(double(b)).bits), a.min(b));
            }
        }
    }
}

#[test]
fn extremes_of_a_run_bound_it() {
    let run: Vec<Single> = [3.0f32, f32::NAN, -7.0, 2.0].iter().map(|v| single(*v)).collect();
    assert_eq!(greatest_of(Single::negative_infinity(), &run, 0, 4), single(3.0));
    assert_eq!(greatest_of(Single::negative_infinity(), &run, 2, 4), single(2.0));
    assert_eq!(greatest_of(single(9.0), &run, 0, 4), single(9.0));
    assert_eq!(greatest_of(single(1.0), &run, 1, 1), single(1.0));
    assert_eq!(least_of(Single::infinity(), &run), single(-7.0));
    assert_eq!(least_of(Single::infinity(), &[]), Single::infinity());
    assert_eq!(greatest_magnitude(&run, 0), single(7.0));
    assert_eq!(greatest_magnitude(&run, 3), single(2.0));
    assert_eq!(greatest_magnitude(&run, 4), single(0.0));
}
