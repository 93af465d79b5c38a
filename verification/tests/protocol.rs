use ppk2tui::ppk2::protocol::{encode_voltage, parse_sample_raw, CMD_REGULATOR_SET};

#[test]
fn encode_voltage_min() {
    let b = encode_voltage(800);
    assert_eq!(b[0], CMD_REGULATOR_SET);
    // diff = 0 + 32 = 32; b1 = 3 + 0 = 3; b2 = 32
    assert_eq!(b[1], 3);
    assert_eq!(b[2], 32);
}

#[test]
fn encode_voltage_3300() {
    let b = encode_voltage(3300);
    // diff = 2500 + 32 = 2532; b1 = 3 + (2532>>8) = 3 + 9 = 12; b2 = 2532 & 0xFF = 228
    assert_eq!(b[0], CMD_REGULATOR_SET);
    assert_eq!(b[1], 12);
    assert_eq!(b[2], 228);
}

#[test]
fn encode_voltage_max() {
    let b = encode_voltage(5000);
    // diff = 4200 + 32 = 4232; b1 = 3 + (4232>>8) = 3 + 16 = 19; b2 = 4232 & 0xFF = 136
    assert_eq!(b[0], CMD_REGULATOR_SET);
    assert_eq!(b[1], 19);
    assert_eq!(b[2], 136);
}

#[test]
fn parse_sample_adc_only() {
    // adc=100 (raw 25 in bits 0-13), range=0, digital=0
    let word: u32 = 25u32; // 25 * 4 = 100
    let (adc, range, digital) = parse_sample_raw(word.to_le_bytes());
    assert_eq!(adc, 100);
    assert_eq!(range, 0);
    assert_eq!(digital, 0);
}

#[test]
fn parse_sample_with_range() {
    // range = 3, adc = 0, digital = 0
    let word: u32 = 3u32 << 14;
    let (adc, range, digital) = parse_sample_raw(word.to_le_bytes());
    assert_eq!(adc, 0);
    assert_eq!(range, 3);
    assert_eq!(digital, 0);
}

#[test]
fn parse_sample_with_digital() {
    // digital = 0b10101010, range = 1, adc = 0
    let word: u32 = (1u32 << 14) | (0b10101010u32 << 17);
    let (adc, range, digital) = parse_sample_raw(word.to_le_bytes());
    assert_eq!(adc, 0);
    assert_eq!(range, 1);
    assert_eq!(digital, 0b10101010);
}

#[test]
fn parse_sample_all_fields() {
    // adc raw = 200 -> adc = 800, range = 2, digital = 0xFF
    let word: u32 = 200u32 | (2u32 << 14) | (0xFFu32 << 17);
    let (adc, range, digital) = parse_sample_raw(word.to_le_bytes());
    assert_eq!(adc, 800);
    assert_eq!(range, 2);
    assert_eq!(digital, 0xFF);
}

#[test]
fn voltages_outside_the_valid_range() {
    // Below the lowest voltage the lowest is encoded; above the highest the
    // setting keeps counting up.
    assert_eq!(encode_voltage(0), encode_voltage(800));
    assert_eq!(encode_voltage(u16::MAX), [CMD_REGULATOR_SET, 255, 255]);
}

#[test]
fn packed_fields_come_back_below_any_upper_bits() {
    let word: u32 = 0x3FFF | (7 << 14) | (0x5A << 17) | (0x7F << 25);
    assert_eq!(parse_sample_raw(word.to_le_bytes()), (65532, 7, 0x5A));
}

#[test]
fn setting_bytes_tell_the_voltage() {
    for mv in 800u16..=5000 {
        let b = encode_voltage(mv);
        let setting = 256 * u32::from(b[1]) + u32::from(b[2]);
        assert_eq!(setting, u32::from(mv));
    }
}
