use ppk2tui::float::{Double, FloatUnit, Single};
use ppk2tui::ppk2::spike::{
    Averages, SpikeFilter, SPIKE_ALPHA, SPIKE_ALPHA_RANGE4, SPIKE_ALPHA_RANGE4_REST,
    SPIKE_ALPHA_REST,
};

struct Native;

fn single(v: f32) -> Single {
    Single { bits: v.to_bits() }
}

fn value(v: Single) -> f32 {
    f32::from_bits(v.bits)
}

fn double(v: f64) -> Double {
    Double { bits: v.to_bits() }
}

fn wide(v: Double) -> f64 {
    f64::from_bits(v.bits)
}

impl FloatUnit for Native {
    fn single_from_count(&self, n: u64) -> Single {
        single(n as f32)
    }
    fn plus(&self, a: Single, b: Single) -> Single {
        single(value(a) + value(b))
    }
    fn minus(&self, a: Single, b: Single) -> Single {
        single(value(a) - value(b))
    }
    fn times(&self, a: Single, b: Single) -> Single {
        single(value(a) * value(b))
    }
    fn over(&self, a: Single, b: Single) -> Single {
        single(value(a) / value(b))
    }
    fn parse(&self, text: &str) -> Result<Single, String> {
        match text.parse::<f32>() {
            Ok(v) => Ok(single(v)),
            Err(e) => Err(e.to_string()),
        }
    }
    fn fixed(&self, v: Single, places: u8) -> String {
        format!("{:.*}", places as usize, value(v))
    }
    fn widen(&self, v: Single) -> Double {
        double(value(v) as f64)
    }
    fn narrow(&self, v: Double) -> Single {
        single(wide(v) as f32)
    }
    fn double_from_count(&self, n: u64) -> Double {
        double(n as f64)
    }
    fn wide_plus(&self, a: Double, b: Double) -> Double {
        double(wide(a) + wide(b))
    }
    fn wide_minus(&self, a: Double, b: Double) -> Double {
        double(wide(a) - wide(b))
    }
    fn wide_times(&self, a: Double, b: Double) -> Double {
        double(wide(a) * wide(b))
    }
    fn wide_over(&self, a: Double, b: Double) -> Double {
        double(wide(a) / wide(b))
    }
    fn decade(&self, v: Double) -> i32 {
        wide(v).log10().floor() as i32
    }
    fn power_of_ten(&self, exponent: i32) -> Double {
        double(10f64.powi(exponent))
    }
    fn ceiling(&self, v: Double) -> usize {
        wide(v).ceil() as usize
    }
    fn wide_fixed(&self, v: Double, places: u8) -> String {
        format!("{:.*}", places as usize, wide(v))
    }
}

const EPSILON: f32 = 1e-3;

fn approx_eq(a: f32, b: f32, eps: f32) -> bool {
    (a - b).abs() < eps
}

fn apply(f: &mut SpikeFilter, ua: f32, range: u8) -> f32 {
    value(f.apply(&Native, single(ua), range))
}

#[test]
fn spike_filter_steady_state_returns_raw() {
    let mut f = SpikeFilter::new();
    assert!(approx_eq(apply(&mut f, 100.0, 0), 100.0, EPSILON));
    // No range change, so samples must pass through untouched rather than
    // being low-passed by the rolling average.
    let v1 = apply(&mut f, 200.0, 0);
    let v2 = apply(&mut f, 300.0, 0);
    assert!(
        approx_eq(v1, 200.0, EPSILON),
        "expected raw 200.0, got {v1}"
    );
    assert!(
        approx_eq(v2, 300.0, EPSILON),
        "expected raw 300.0, got {v2}"
    );
}

#[test]
fn spike_filter_smooths_exactly_three_samples_after_range_change() {
    let mut f = SpikeFilter::new();
    apply(&mut f, 100.0, 0);
    apply(&mut f, 100.0, 0);

    // Switch to range 2: three smoothed samples at α=0.18, then raw.
    let v1 = apply(&mut f, 1100.0, 2);
    let v2 = apply(&mut f, 1100.0, 2);
    let v3 = apply(&mut f, 1100.0, 2);
    let v4 = apply(&mut f, 1100.0, 2);

    assert!(approx_eq(v1, 280.0, EPSILON), "expected 280.0, got {v1}");
    assert!(approx_eq(v2, 427.6, EPSILON), "expected 427.6, got {v2}");
    assert!(
        approx_eq(v3, 548.632, EPSILON),
        "expected 548.632, got {v3}"
    );
    assert!(
        approx_eq(v4, 1100.0, EPSILON),
        "spike window should be over: expected raw 1100.0, got {v4}"
    );
}

#[test]
fn spike_filter_dither_does_not_suppress_high_range_samples() {
    // Alternating ranges must not discard the high-range samples: they reach the
    // output via the rolling average.
    let mut f = SpikeFilter::new();
    apply(&mut f, 10.0, 0);

    let v1 = apply(&mut f, 1010.0, 2);
    let v2 = apply(&mut f, 10.0, 0);
    let v3 = apply(&mut f, 1010.0, 2);
    assert!(approx_eq(v1, 190.0, EPSILON), "expected 190.0, got {v1}");
    assert!(approx_eq(v2, 157.6, EPSILON), "expected 157.6, got {v2}");
    assert!(
        approx_eq(v3, 311.032, EPSILON),
        "expected 311.032, got {v3}"
    );

    let mut last = v3;
    for _ in 0..5 {
        apply(&mut f, 10.0, 0);
        last = apply(&mut f, 1010.0, 2);
    }
    assert!(
        last > 100.0,
        "dithered high-range samples must reach the output, got {last}"
    );
}

#[test]
fn spike_filter_rolls_back_average_entering_range4() {
    let mut f = SpikeFilter::new();
    apply(&mut f, 100.0, 0);
    apply(&mut f, 100.0, 0);

    // Switching into range 4 discards the first two samples' contribution,
    // so the output holds at the pre-transition average.
    let v1 = apply(&mut f, 5000.0, 4);
    let v2 = apply(&mut f, 5000.0, 4);
    // Third sample is kept: 0.06 * 5000 + 0.94 * 100 = 394.0
    let v3 = apply(&mut f, 5000.0, 4);
    let v4 = apply(&mut f, 5000.0, 4);

    assert!(approx_eq(v1, 100.0, EPSILON), "expected 100.0, got {v1}");
    assert!(approx_eq(v2, 100.0, EPSILON), "expected 100.0, got {v2}");
    assert!(approx_eq(v3, 394.0, EPSILON), "expected 394.0, got {v3}");
    assert!(
        approx_eq(v4, 5000.0, EPSILON),
        "spike window should be over: expected raw 5000.0, got {v4}"
    );
}

#[test]
fn filter_weights_are_the_nearest_singles() {
    assert_eq!(f32::from_bits(SPIKE_ALPHA), 0.18);
    assert_eq!(f32::from_bits(SPIKE_ALPHA_REST), 1.0 - 0.18f32);
    assert_eq!(f32::from_bits(SPIKE_ALPHA_RANGE4), 0.06);
    assert_eq!(f32::from_bits(SPIKE_ALPHA_RANGE4_REST), 1.0 - 0.06f32);
}

#[test]
fn the_first_sample_seeds_both_averages() {
    let mut f = SpikeFilter::default();
    assert!(f.averages().is_none());
    assert_eq!(apply(&mut f, 42.0, 3), 42.0);
    assert_eq!(
        f.averages(),
        Some(Averages { avg: single(42.0), avg4: single(42.0) })
    );
}

#[test]
fn every_low_range_sample_counts() {
    let mut f = SpikeFilter::new();
    apply(&mut f, 0.0, 0);
    let mut avg: f32 = 0.0;
    let mut avg4: f32 = 0.0;
    for k in 0..50u8 {
        let ua = k as f32 * 3.5;
        apply(&mut f, ua, k % 4);
        avg = 0.18 * ua + (1.0 - 0.18f32) * avg;
        avg4 = 0.06 * ua + (1.0 - 0.06f32) * avg4;
        assert_eq!(
            f.averages(),
            Some(Averages { avg: single(avg), avg4: single(avg4) })
        );
    }
}

#[test]
fn ranges_above_four_count_as_four() {
    let mut a = SpikeFilter::new();
    let mut b = SpikeFilter::new();
    for f in [&mut a, &mut b] {
        apply(f, 100.0, 0);
    }
    for ua in [5000.0, 5000.0, 5000.0, 5000.0] {
        assert_eq!(apply(&mut a, ua, 4), apply(&mut b, ua, 7));
    }
}

#[test]
fn a_step_takes_the_averages_as_given() {
    let mut f = SpikeFilter::new();
    let next = Averages { avg: single(7.0), avg4: single(8.0) };
    assert_eq!(f.step(single(1.0), 0, next), single(1.0));
    assert_eq!(f.step(single(2.0), 1, next), single(7.0));
    assert_eq!(f.averages(), Some(next));
    let later = Averages { avg: single(9.0), avg4: single(10.0) };
    // Entering range 4: the sample does not count.
    assert_eq!(f.step(single(3.0), 4, later), single(8.0));
    assert_eq!(f.averages(), Some(next));
}
