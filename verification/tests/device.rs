use ppk2tui::float::{Double, FloatUnit, Single};
use ppk2tui::ppk2::calibration::adc_to_microamps;
use ppk2tui::ppk2::device::{MetadataReader, PPK2Device, VoltageOutOfRange};
use ppk2tui::ppk2::protocol::{
    CMD_AVERAGE_START, CMD_AVERAGE_STOP, CMD_REGULATOR_SET, CMD_SET_POWER_MODE, MODE_SOURCE,
};
use ppk2tui::ppk2::spike::SpikeFilter;

struct Native;

fn single(v: f32) -> Single {
    Single { bits: v.to_bits() }
}

fn value(v: Single) -> f32 {
    f32::from_bits(v.bits)
}

fn double(v: f64) -> Double {
    Double { bits: v.to_bits() }
}

fn wide(v: Double) -> f64 {
    f64::from_bits(v.bits)
}

impl FloatUnit for Native {
    fn single_from_count(&self, n: u64) -> Single {
        single(n as f32)
    }
    fn plus(&self, a: Single, b: Single) -> Single {
        single(value(a) + value(b))
    }
    fn minus(&self, a: Single, b: Single) -> Single {
        single(value(a) - value(b))
    }
    fn times(&self, a: Single, b: Single) -> Single {
        single(value(a) * value(b))
    }
    fn over(&self, a: Single, b: Single) -> Single {
        single(value(a) / value(b))
    }
    fn parse(&self, text: &str) -> Result<Single, String> {
        match text.parse::<f32>() {
            Ok(v) => Ok(single(v)),
            Err(e) => Err(e.to_string()),
        }
    }
    fn fixed(&self, v: Single, places: u8) -> String {
        format!("{:.*}", places as usize, value(v))
    }
    fn widen(&self, v: Single) -> Double {
        double(value(v) as f64)
    }
    fn narrow(&self, v: Double) -> Single {
        single(wide(v) as f32)
    }
    fn double_from_count(&self, n: u64) -> Double {
        double(n as f64)
    }
    fn wide_plus(&self, a: Double, b: Double) -> Double {
        double(wide(a) + wide(b))
    }
    fn wide_minus(&self, a: Double, b: Double) -> Double {
        double(wide(a) - wide(b))
    }
    fn wide_times(&self, a: Double, b: Double) -> Double {
        double(wide(a) * wide(b))
    }
    fn wide_over(&self, a: Double, b: Double) -> Double {
        double(wide(a) / wide(b))
    }
    fn decade(&self, v: Double) -> i32 {
        wide(v).log10().floor() as i32
    }
    fn power_of_ten(&self, exponent: i32) -> Double {
        double(10f64.powi(exponent))
    }
    fn ceiling(&self, v: Double) -> usize {
        wide(v).ceil() as usize
    }
    fn wide_fixed(&self, v: Double, places: u8) -> String {
        format!("{:.*}", places as usize, wide(v))
    }
}

fn encode_sample(adc_raw: u16, range: u8, digital: u8) -> [u8; 4] {
    // adc field is bits 0-13 (raw value = adc/4), range bits 14-16, digital bits 17-24
    let word: u32 = (adc_raw as u32 / 4) | ((range as u32) << 14) | ((digital as u32) << 17);
    word.to_le_bytes()
}

#[test]
fn get_modifiers_parses_metadata() {
    let metadata = "R=1031.64,101.65,10.15,0.94,0.043\n\
                    O=0.0,0.0,0.0,0.0,0.0\n\
                    GS=1.0,1.0,1.0,1.0,1.0\n\
                    GI=0.0,0.0,0.0,0.0,0.0\n\
                    S=0.0,0.0,0.0,0.0,0.0\n\
                    I=0.0,0.0,0.0,0.0,0.0\n\
                    UG=1.0,1.0,1.0,1.0,1.0\n\
                    END\n";
    let mut dev = PPK2Device::new();
    let mut reader = MetadataReader::new();
    let mut lines = metadata.split_inclusive('\n');
    while !reader.push_line(lines.next().unwrap()) {}
    assert!(lines.next().is_none());
    dev.get_modifiers(&Native, &reader.text).unwrap();
    assert!((value(dev.modifiers.r[0]) - 1031.64).abs() < 1e-2);
    assert!((value(dev.modifiers.r[4]) - 0.043).abs() < 1e-4);
}

#[test]
fn read_samples_returns_three_values() {
    let s0 = encode_sample(400, 0, 0);
    let s1 = encode_sample(400, 0, 0);
    let s2 = encode_sample(400, 0, 0);
    let mut data = Vec::new();
    data.extend_from_slice(&s0);
    data.extend_from_slice(&s1);
    data.extend_from_slice(&s2);
    let mut dev = PPK2Device::new();
    let samples = dev.read_samples(&Native, &data);
    assert_eq!(samples.len(), 3);
}

#[test]
fn read_samples_handles_partial_trailing_bytes() {
    let s0 = encode_sample(200, 0, 0);
    let mut data = s0.to_vec();
    data.push(0xAB); // trailing incomplete sample
    let mut dev = PPK2Device::new();
    let samples = dev.read_samples(&Native, &data);
    assert_eq!(samples.len(), 1);
    assert_eq!(dev.remainder.len(), 1); // leftover byte kept
}

#[test]
fn set_mode_source_writes_correct_bytes() {
    let mut dev = PPK2Device::new();
    let frames = dev.set_mode_source(3300).unwrap();
    // Expected: encode_voltage(3300) = [0x0d, 12, 228], then [0x11, 0x02]
    assert_eq!(&frames.regulator[..], &[CMD_REGULATOR_SET, 12, 228]);
    assert_eq!(&frames.mode[..], &[CMD_SET_POWER_MODE, MODE_SOURCE]);
}

#[test]
fn set_mode_source_rejects_out_of_range() {
    let mut dev = PPK2Device::new();
    assert!(dev.set_mode_source(799).is_err());
    assert!(dev.set_mode_source(5001).is_err());
}

#[test]
fn start_stop_measuring_writes_correct_bytes() {
    let dev = PPK2Device::new();
    let mut written = dev.start_measuring().to_vec();
    written.extend_from_slice(&dev.stop_measuring());
    assert_eq!(written[0], CMD_AVERAGE_START);
    assert_eq!(written[1], CMD_AVERAGE_STOP);
}

#[test]
fn frames_have_their_documented_bytes() {
    let dev = PPK2Device::new();
    assert_eq!(dev.request_metadata(), [0x19]);
    assert_eq!(dev.set_mode_ampere(), [0x11, 0x01]);
    assert_eq!(dev.set_dut_power(true), [0x0c, 0x06]);
    assert_eq!(dev.set_dut_power(false), [0x0c, 0x00]);
    assert_eq!(dev.start_measuring(), [0x06]);
    assert_eq!(dev.stop_measuring(), [0x07]);
    assert_eq!(dev.reset(), [0x20]);
}

#[test]
fn a_refused_voltage_changes_nothing() {
    let mut dev = PPK2Device::new();
    assert_eq!(dev.vdd_mv, 3300);
    let e = dev.set_mode_source(5001).unwrap_err();
    assert_eq!(e, VoltageOutOfRange { mv: 5001 });
    assert_eq!(e.message(), "voltage 5001 mV out of range 800–5000");
    assert_eq!(dev.vdd_mv, 3300);
    assert!(dev.set_mode_source(800).is_ok());
    assert_eq!(dev.vdd_mv, 800);
    assert!(dev.set_mode_source(5000).is_ok());
    assert_eq!(dev.vdd_mv, 5000);
}

#[test]
fn a_refused_calibration_changes_nothing() {
    let mut dev = PPK2Device::new();
    dev.get_modifiers(&Native, "R=5\nEND\n").unwrap();
    let e = dev.get_modifiers(&Native, "R=7\nO=?\nEND\n").unwrap_err();
    assert_eq!(e.numeral, "?");
    assert_eq!(value(dev.modifiers.r[0]), 5.0);
}

#[test]
fn metadata_ends_with_the_line_that_says_so() {
    let mut reader = MetadataReader::new();
    assert!(!reader.push_line("R=1\n"));
    assert!(!reader.push_line(""));
    assert!(!reader.push_line("E N D\n"));
    assert!(reader.push_line("xENDx\n"));
    assert_eq!(reader.text, "R=1\nE N D\nxENDx\n");
}

/// The stream of a few samples in changing ranges, and one byte more.
fn stream() -> Vec<u8> {
    let mut data = Vec::new();
    for k in 0..12u16 {
        data.extend_from_slice(&encode_sample(400 + 40 * k, (k / 3) as u8, k as u8));
    }
    data.push(0x55);
    data
}

#[test]
fn samples_are_calibrated_and_filtered_in_order() {
    let mut dev = PPK2Device::new();
    let got = dev.read_samples(&Native, &stream());
    let mut filter = SpikeFilter::new();
    let fresh = PPK2Device::new();
    assert_eq!(got.len(), 12);
    for k in 0..12u16 {
        let range = (k / 3) as u8;
        let ua = adc_to_microamps(&Native, 400 + 40 * k, range, 3300, &fresh.modifiers);
        assert_eq!(got[k as usize], filter.apply(&Native, ua, range));
    }
}

#[test]
fn reads_may_cut_the_stream_anywhere() {
    let data = stream();
    let mut dev = PPK2Device::new();
    let expected = dev.read_samples(&Native, &data);
    for cut in 0..=data.len() {
        let mut dev = PPK2Device::new();
        let mut got = dev.read_samples(&Native, &data[..cut]);
        got.extend(dev.read_samples(&Native, &data[cut..]));
        assert_eq!(got, expected);
        assert_eq!(dev.remainder, vec![0x55]);
    }
}

#[test]
fn nothing_received_gives_no_samples() {
    let mut dev = PPK2Device::new();
    dev.read_samples(&Native, &[1, 2, 3]);
    assert!(dev.read_samples(&Native, &[]).is_empty());
    assert_eq!(dev.remainder, vec![1, 2, 3]);
}
