//! Command bytes and the sample word format.

use vstd::prelude::*;

verus! {

pub const CMD_NO_OP: u8 = 0x00;

pub const CMD_AVERAGE_START: u8 = 0x06;

pub const CMD_AVERAGE_STOP: u8 = 0x07;

pub const CMD_RANGE_SET: u8 = 0x08;

pub const CMD_DEVICE_RUNNING: u8 = 0x0c;

pub const CMD_REGULATOR_SET: u8 = 0x0d;

pub const CMD_SET_POWER_MODE: u8 = 0x11;

pub const CMD_GET_META_DATA: u8 = 0x19;

pub const CMD_RESET: u8 = 0x20;

pub const MODE_AMPERE: u8 = 0x01;

pub const MODE_SOURCE: u8 = 0x02;

/// Lowest source voltage, in mV.
pub const MIN_SOURCE_MV: u16 = 800;

/// Highest source voltage, in mV.
pub const MAX_SOURCE_MV: u16 = 5000;

/// The regulator setting for a source voltage: the voltage itself, in mV, but
/// never less than the lowest.
pub open spec fn regulator_setting(mv: u16) -> int {
    if mv < MIN_SOURCE_MV {
        MIN_SOURCE_MV as int
    } else {
        mv as int
    }
}

/// Encodes a source voltage (mV) into the 3-byte REGULATOR_SET payload: the
/// command and the regulator setting, high byte first.
///
/// Valid range: 800 to 5000 mV. Lower voltages are encoded as the lowest.
pub fn encode_voltage(mv: u16) -> (b: [u8; 3])
    ensures
        b[0] == CMD_REGULATOR_SET,
        b[1] == regulator_setting(mv) / 256,
        b[2] == regulator_setting(mv) % 256,
{
    let diff: u32 = (mv as u32).saturating_sub(800) + 32;
    assert(diff < 0x1_0000 ==> (diff >> 8) == diff / 256 && (diff & 0xFF) == diff % 256)
        by (bit_vector);
    let b1: u8 = (3 + (diff >> 8)) as u8;
    let b2: u8 = (diff & 0xFF) as u8;
    [CMD_REGULATOR_SET, b1, b2]
}

/// The word that four bytes denote, least significant byte first.
pub open spec fn little_endian(bytes: Seq<u8>) -> int {
    bytes[0] + 0x100 * bytes[1] + 0x1_0000 * bytes[2] + 0x100_0000 * bytes[3]
}

/// One sample as the device measured it.
#[derive(Clone, Copy, Debug, PartialEq, Eq, Structural)]
pub struct RawSample {
    /// Converter reading, at full scale.
    pub adc: u16,
    /// Measurement range.
    pub range: u8,
    /// Digital channels.
    pub digital: u8,
}

/// The sample that a word holds: 14 bits of converter reading to be multiplied
/// by 4, 3 bits of range, 8 digital channel bits.
pub open spec fn word_sample(word: int) -> RawSample {
    RawSample {
        adc: ((word % 0x4000) * 4) as u16,
        range: ((word / 0x4000) % 8) as u8,
        digital: ((word / 0x2_0000) % 0x100) as u8,
    }
}

/// Parses a 4-byte raw sample into (adc_value, range_index, digital_channels).
///
/// Layout (little-endian u32):
///   bits  0-13: 14-bit ADC (must multiply by 4 to get full-scale equivalent)
///   bits 14-16: range index 0-4
///   bits 17-24: 8 digital channel bits
pub fn parse_sample_raw(bytes: [u8; 4]) -> (r: (u16, u8, u8))
    ensures
        r.0 == (little_endian(bytes@) % 0x4000) * 4,
        r.1 == (little_endian(bytes@) / 0x4000) % 8,
        r.2 == (little_endian(bytes@) / 0x2_0000) % 0x100,
        (RawSample { adc: r.0, range: r.1, digital: r.2 }) == word_sample(little_endian(bytes@)),
{
    let word: u32 = bytes[0] as u32 + 0x100 * bytes[1] as u32 + 0x1_0000 * bytes[2] as u32
        + 0x100_0000 * bytes[3] as u32;
    assert(word == little_endian(bytes@));
    assert((word & 0x3FFF) == word % 0x4000 && ((word >> 14) & 0x07) == (word / 0x4000) % 8 && ((
    word >> 17) & 0xFF) == (word / 0x2_0000) % 0x100) by (bit_vector);
    let adc: u16 = ((word & 0x3FFF) as u16) * 4;
    let range: u8 = ((word >> 14) & 0x07) as u8;
    let digital: u8 = ((word >> 17) & 0xFF) as u8;
    (adc, range, digital)
}

/// The two setting bytes of a voltage in the valid range tell the voltage.
pub proof fn law_setting_bytes_tell_the_voltage(mv: u16)
    requires
        MIN_SOURCE_MV <= mv <= MAX_SOURCE_MV,
    ensures
        256 * (regulator_setting(mv) / 256) + regulator_setting(mv) % 256 == mv,
{
}

/// Whatever reading, range and channels are packed into a word, with anything
/// in the seven bits above them, come back out.
pub proof fn law_packed_fields_come_back(reading: int, range: int, digital: int, upper: int)
    requires
        0 <= reading < 0x4000,
        0 <= range < 8,
        0 <= digital < 0x100,
        0 <= upper < 0x80,
    ensures
        word_sample(reading + 0x4000 * range + 0x2_0000 * digital + 0x200_0000 * upper) == (
        RawSample { adc: (reading * 4) as u16, range: range as u8, digital: digital as u8 }),
{
}

} // verus!
