use ppk2tui::float::{Double, FloatUnit, Single};
use ppk2tui::ppk2::calibration::{
    adc_to_microamps, fill_array, parse_modifiers, usable_current, Modifiers,
};

struct Native;

fn single(v: f32) -> Single {
    Single { bits: v.to_bits() }
}

fn value(v: Single) -> f32 {
    f32::from_bits(v.bits)
}

fn double(v: f64) -> Double {
    Double { bits: v.to_bits() }
}

fn wide(v: Double) -> f64 {
    f64::from_bits(v.bits)
}

impl FloatUnit for Native {
    fn single_from_count(&self, n: u64) -> Single {
        single(n as f32)
    }
    fn plus(&self, a: Single, b: Single) -> Single {
        single(value(a) + value(b))
    }
    fn minus(&self, a: Single, b: Single) -> Single {
        single(value(a) - value(b))
    }
    fn times(&self, a: Single, b: Single) -> Single {
        single(value(a) * value(b))
    }
    fn over(&self, a: Single, b: Single) -> Single {
        single(value(a) / value(b))
    }
    fn parse(&self, text: &str) -> Result<Single, String> {
        match text.parse::<f32>() {
            Ok(v) => Ok(single(v)),
            Err(e) => Err(e.to_string()),
        }
    }
    fn fixed(&self, v: Single, places: u8) -> String {
        format!("{:.*}", places as usize, value(v))
    }
    fn widen(&self, v: Single) -> Double {
        double(value(v) as f64)
    }
    fn narrow(&self, v: Double) -> Single {
        single(wide(v) as f32)
    }
    fn double_from_count(&self, n: u64) -> Double {
        double(n as f64)
    }
    fn wide_plus(&self, a: Double, b: Double) -> Double {
        double(wide(a) + wide(b))
    }
    fn wide_minus(&self, a: Double, b: Double) -> Double {
        double(wide(a) - wide(b))
    }
    fn wide_times(&self, a: Double, b: Double) -> Double {
        double(wide(a) * wide(b))
    }
    fn wide_over(&self, a: Double, b: Double) -> Double {
        double(wide(a) / wide(b))
    }
    fn decade(&self, v: Double) -> i32 {
        wide(v).log10().floor() as i32
    }
    fn power_of_ten(&self, exponent: i32) -> Double {
        double(10f64.powi(exponent))
    }
    fn ceiling(&self, v: Double) -> usize {
        wide(v).ceil() as usize
    }
    fn wide_fixed(&self, v: Double, places: u8) -> String {
        format!("{:.*}", places as usize, wide(v))
    }
}

const EPSILON: f32 = 1e-3;

fn approx_eq(a: f32, b: f32, eps: f32) -> bool {
    (a - b).abs() < eps
}

fn values(row: &[Single; 5]) -> Vec<f32> {
    row.iter().map(|v| value(*v)).collect()
}

#[test]
fn parse_modifiers_basic() {
    let text = "R=100.0,200.0,300.0,400.0,500.0\n\
                O=1.0,2.0,3.0,4.0,5.0\n\
                GS=0.1,0.2,0.3,0.4,0.5\n\
                GI=0.01,0.02,0.03,0.04,0.05\n\
                S=0.0,0.0,0.0,0.0,0.0\n\
                I=0.0,0.0,0.0,0.0,0.0\n\
                UG=1.0,1.0,1.0,1.0,1.0\n\
                END\n";
    let m = parse_modifiers(&Native, text).unwrap();
    assert!(approx_eq(value(m.r[0]), 100.0, EPSILON));
    assert!(approx_eq(value(m.r[4]), 500.0, EPSILON));
    assert!(approx_eq(value(m.o[2]), 3.0, EPSILON));
    assert!(approx_eq(value(m.gs[1]), 0.2, EPSILON));
}

#[test]
fn parse_modifiers_stops_at_end() {
    let text = "R=1.0,2.0,3.0,4.0,5.0\nEND\nR=9.0,9.0,9.0,9.0,9.0\n";
    let m = parse_modifiers(&Native, text).unwrap();
    assert!(approx_eq(value(m.r[0]), 1.0, EPSILON));
}

#[test]
fn parse_modifiers_ignores_unknown_keys() {
    let text = "HW=1\nCALIBRATED=true\nR=1.0,2.0,3.0,4.0,5.0\nEND\n";
    let m = parse_modifiers(&Native, text).unwrap();
    assert!(approx_eq(value(m.r[0]), 1.0, EPSILON));
}

#[test]
fn adc_to_microamps_zero_adc_default_mods() {
    let mods = Modifiers::default();
    // With default mods: o[0]=0, gs[0]=1, gi[0]=0, s[0]=0, i[0]=0, ug[0]=1
    // result = 0 * ADC_MULT / R[0]; tiny value; * 1e6 should be near 0
    let ua = value(adc_to_microamps(&Native, 0, 0, 3300, &mods));
    assert!(ua.abs() < 1.0, "expected near zero, got {ua}");
}

#[test]
fn adc_to_microamps_nonzero() {
    let mods = Modifiers::default();
    let ua = value(adc_to_microamps(&Native, 8192, 0, 3300, &mods));
    // Should produce a positive value
    assert!(ua > 0.0, "expected positive µA, got {ua}");
}

#[test]
fn defaults_are_the_nominal_shunts() {
    let m = Modifiers::default();
    assert_eq!(values(&m.r), vec![1031.64, 101.65, 10.15, 0.94, 0.043]);
    assert_eq!(values(&m.o), vec![0.0; 5]);
    assert_eq!(values(&m.gs), vec![1.0; 5]);
    assert_eq!(values(&m.gi), vec![0.0; 5]);
    assert_eq!(values(&m.s), vec![0.0; 5]);
    assert_eq!(values(&m.i), vec![0.0; 5]);
    assert_eq!(values(&m.ug), vec![1.0; 5]);
}

/// The conversion in ordinary arithmetic.
fn expected_current(adc: u16, range: u8, vdd_mv: u16, m: &Modifiers) -> f32 {
    let multiplier: f32 = 1.8 / 163840.0;
    let r = range.min(4) as usize;
    let result = (adc as f32 - value(m.o[r])) * multiplier / value(m.r[r]);
    let ua = value(m.ug[r])
        * (result * (value(m.gs[r]) * result + value(m.gi[r]))
            + value(m.s[r]) * (vdd_mv as f32 / 1000.0)
            + value(m.i[r]))
        * 1_000_000.0;
    if ua.is_finite() {
        ua
    } else {
        0.0
    }
}

#[test]
fn conversion_is_exact_in_every_range() {
    let text = "R=1003.0,102.5,10.2,0.95,0.05\n\
                O=112.0,90.5,80.25,70.0,60.0\n\
                GS=1.1,0.9,1.05,0.97,1.2\n\
                GI=0.9,1.1,1.0,1.02,0.98\n\
                S=0.0001,0.0002,0.0003,0.0004,0.0005\n\
                I=-0.0001,0.0,0.0001,0.0002,0.0003\n\
                UG=1.0,1.01,1.02,1.03,1.04\nEND\n";
    let m = parse_modifiers(&Native, text).unwrap();
    for range in 0..=7u8 {
        for adc in [0u16, 4, 400, 8192, 65532] {
            for vdd in [800u16, 3300, 5000] {
                let got = adc_to_microamps(&Native, adc, range, vdd, &m);
                assert_eq!(got, single(expected_current(adc, range, vdd, &m)));
            }
        }
    }
}

#[test]
fn unusable_currents_become_zero() {
    let m = parse_modifiers(&Native, "R=0,0,0,0,0\nEND\n").unwrap();
    assert_eq!(value(adc_to_microamps(&Native, 400, 0, 3300, &m)), 0.0);
    assert_eq!(usable_current(single(f32::NAN)), single(0.0));
    assert_eq!(usable_current(single(f32::NEG_INFINITY)), single(0.0));
    assert_eq!(usable_current(single(-2.5)), single(-2.5));
}

#[test]
fn a_bad_numeral_is_refused() {
    let e = parse_modifiers(&Native, "R=1.0, x ,3.0\nEND\n").unwrap_err();
    assert_eq!(e.numeral, "x");
    assert_eq!(e.message(), "parse float 'x': invalid float literal");
    let e = parse_modifiers(&Native, "UG=\nEND\n").unwrap_err();
    assert_eq!(e.message(), "parse float '': cannot parse float from empty string");
}

#[test]
fn a_bad_numeral_after_the_end_is_not_read() {
    assert!(parse_modifiers(&Native, "R=1\n--END--\nR=x\n").is_ok());
}

#[test]
fn a_bad_numeral_under_an_unknown_key_is_not_read() {
    assert!(parse_modifiers(&Native, "r=x\nRR=y\nno equals sign\nEND").is_ok());
}

#[test]
fn unset_coefficients_keep_their_values() {
    let m = parse_modifiers(&Native, " GS = 2.0 , 3.0 \r\nI=7,7,7,7,7,7,7").unwrap();
    assert_eq!(values(&m.gs), vec![2.0, 3.0, 1.0, 1.0, 1.0]);
    assert_eq!(values(&m.i), vec![7.0; 5]);
    assert_eq!(values(&m.r), values(&Modifiers::default().r));
}

#[test]
fn a_value_may_hold_an_equals_sign() {
    // The key ends at the first one.
    let e = parse_modifiers(&Native, "S=1=2\n").unwrap_err();
    assert_eq!(e.numeral, "1=2");
}

#[test]
fn the_last_assignment_counts() {
    let m = parse_modifiers(&Native, "O=1,2,3,4,5\nO=9\n").unwrap();
    assert_eq!(values(&m.o), vec![9.0, 2.0, 3.0, 4.0, 5.0]);
}

#[test]
fn filling_stops_at_the_shorter_one() {
    let mut dest = [single(0.0); 5];
    fill_array(&mut dest, &vec![single(1.0), single(2.0)]);
    assert_eq!(values(&dest), vec![1.0, 2.0, 0.0, 0.0, 0.0]);
    fill_array(&mut dest, &(3..10).map(|k| single(k as f32)).collect());
    assert_eq!(values(&dest), vec![3.0, 4.0, 5.0, 6.0, 7.0]);
}
