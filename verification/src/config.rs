//! Serial parameters (baud rate, parity, data bits, stop bits) and their
//! CDC-ACM line coding.

use vstd::prelude::*;

verus! {

/// Parity checking mode.
#[derive(Clone, Copy, Debug, PartialEq, Eq, Structural)]
pub enum Parity {
    NoParity,
    Odd,
    Even,
}

/// Number of bits per character.
#[derive(Clone, Copy, Debug, PartialEq, Eq, Structural)]
pub enum DataBits {
    Five,
    Six,
    Seven,
    Eight,
}

/// Number of stop bits.
#[derive(Clone, Copy, Debug, PartialEq, Eq, Structural)]
pub enum StopBits {
    One,
    Two,
}

/// Serial parameters including baudrate, parity check mode, data bits and stop bits.
#[derive(Clone, Copy, Debug, PartialEq, Eq, Structural)]
pub struct SerialConfig {
    pub baud_rate: u32,
    pub parity: Parity,
    pub data_bits: DataBits,
    pub stop_bits: StopBits,
}

/// The parameters used where none were set: 9600 baud, no parity, 8 data bits, 1 stop bit.
pub open spec fn default_config() -> SerialConfig {
    SerialConfig {
        baud_rate: 9600,
        parity: Parity::NoParity,
        data_bits: DataBits::Eight,
        stop_bits: StopBits::One,
    }
}

impl Default for SerialConfig {
    fn default() -> (c: Self)
        ensures
            c == default_config(),
    {
        SerialConfig {
            baud_rate: 9600,
            parity: Parity::NoParity,
            data_bits: DataBits::Eight,
            stop_bits: StopBits::One,
        }
    }
}

/// `bStopBits` of the CDC line coding: 0 for one stop bit, 2 for two.
pub open spec fn stop_bits_code(s: StopBits) -> u8 {
    match s {
        StopBits::One => 0,
        StopBits::Two => 2,
    }
}

/// `bParityType` of the CDC line coding: 0 none, 1 odd, 2 even.
pub open spec fn parity_code(p: Parity) -> u8 {
    match p {
        Parity::NoParity => 0,
        Parity::Odd => 1,
        Parity::Even => 2,
    }
}

/// `bDataBits` of the CDC line coding: the number of data bits.
pub open spec fn data_bits_count(d: DataBits) -> u8 {
    match d {
        DataBits::Five => 5,
        DataBits::Six => 6,
        DataBits::Seven => 7,
        DataBits::Eight => 8,
    }
}

/// Byte `i` (0 = least significant) of a 32-bit value.
pub open spec fn le_byte(v: u32, i: int) -> u8 {
    ((v as int / pow256(i)) % 256) as u8
}

pub open spec fn pow256(i: int) -> int
    decreases i,
{
    if i <= 0 {
        1
    } else {
        256 * pow256(i - 1)
    }
}

/// The 7-byte `SET_LINE_CODING` data block: `dwDTERate` (little endian),
/// `bCharFormat`, `bParityType`, `bDataBits`.
pub open spec fn line_coding(c: SerialConfig) -> Seq<u8> {
    seq![
        le_byte(c.baud_rate, 0),
        le_byte(c.baud_rate, 1),
        le_byte(c.baud_rate, 2),
        le_byte(c.baud_rate, 3),
        stop_bits_code(c.stop_bits),
        parity_code(c.parity),
        data_bits_count(c.data_bits),
    ]
}

impl SerialConfig {
    /// The CDC line coding structure for these parameters.
    pub fn line_coding_bytes(&self) -> (bytes: [u8; 7])
        ensures
            bytes@ == line_coding(*self),
            bytes[0] + 256 * bytes[1] + 65536 * bytes[2] + 16777216 * bytes[3] == self.baud_rate,
            self.data_bits == DataBits::Five ==> bytes[6] == 5,
            self.data_bits == DataBits::Six ==> bytes[6] == 6,
            self.data_bits == DataBits::Seven ==> bytes[6] == 7,
            self.data_bits == DataBits::Eight ==> bytes[6] == 8,
    {
        let b = self.baud_rate;
        let b0 = (b % 256) as u8;
        let b1 = ((b / 256) % 256) as u8;
        let b2 = ((b / 65536) % 256) as u8;
        let b3 = ((b / 16777216) % 256) as u8;
        let stop: u8 = match self.stop_bits {
            StopBits::One => 0u8,
            StopBits::Two => 2u8,
        };
        let par: u8 = match self.parity {
            Parity::NoParity => 0u8,
            Parity::Odd => 1u8,
            Parity::Even => 2u8,
        };
        let data: u8 = match self.data_bits {
            DataBits::Five => 5,
            DataBits::Six => 6,
            DataBits::Seven => 7,
            DataBits::Eight => 8,
        };
        proof {
            reveal_with_fuel(pow256, 4);
        }
        let bytes = [b0, b1, b2, b3, stop, par, data];
        assert(bytes@ =~= line_coding(*self));
        proof {
            lemma_line_coding_fields(*self);
        }
        bytes
    }
}

/// Two different parameter sets never share a line coding: the device
/// receives exactly the parameters that were set.
pub proof fn lemma_line_coding_injective(a: SerialConfig, b: SerialConfig)
    requires
        line_coding(a) == line_coding(b),
    ensures
        a == b,
{
    reveal_with_fuel(pow256, 4);
    assert(line_coding(a)[0] == line_coding(b)[0]);
    assert(line_coding(a)[1] == line_coding(b)[1]);
    assert(line_coding(a)[2] == line_coding(b)[2]);
    assert(line_coding(a)[3] == line_coding(b)[3]);
    assert(line_coding(a)[4] == line_coding(b)[4]);
    assert(line_coding(a)[5] == line_coding(b)[5]);
    assert(line_coding(a)[6] == line_coding(b)[6]);
    let x = a.baud_rate as int;
    let y = b.baud_rate as int;
    assert(x == (x % 256) + 256 * ((x / 256) % 256) + 65536 * ((x / 65536) % 256) + 16777216 * ((x / 16777216) % 256)) by (nonlinear_arith)
        requires 0 <= x < 0x1_0000_0000;
    assert(y == (y % 256) + 256 * ((y / 256) % 256) + 65536 * ((y / 65536) % 256) + 16777216 * ((y / 16777216) % 256)) by (nonlinear_arith)
        requires 0 <= y < 0x1_0000_0000;
}

/// The fields of the line coding: bytes 0 to 3 hold the baud rate, least
/// significant byte first; byte 4 is 0 for one stop bit and 2 for two; byte 5
/// is 0 for no parity, 1 for odd and 2 for even; byte 6 is the number of data
/// bits, 5 to 8.
pub proof fn lemma_line_coding_fields(c: SerialConfig)
    ensures
        line_coding(c).len() == 7,
        line_coding(c)[0] + 256 * line_coding(c)[1] + 65536 * line_coding(c)[2] + 16777216
            * line_coding(c)[3] == c.baud_rate,
        c.stop_bits == StopBits::One ==> line_coding(c)[4] == 0,
        c.stop_bits == StopBits::Two ==> line_coding(c)[4] == 2,
        c.parity == Parity::NoParity ==> line_coding(c)[5] == 0,
        c.parity == Parity::Odd ==> line_coding(c)[5] == 1,
        c.parity == Parity::Even ==> line_coding(c)[5] == 2,
        c.data_bits == DataBits::Five ==> line_coding(c)[6] == 5,
        c.data_bits == DataBits::Six ==> line_coding(c)[6] == 6,
        c.data_bits == DataBits::Seven ==> line_coding(c)[6] == 7,
        c.data_bits == DataBits::Eight ==> line_coding(c)[6] == 8,
{
    reveal_with_fuel(pow256, 4);
    let x = c.baud_rate as int;
    assert(x == (x % 256) + 256 * ((x / 256) % 256) + 65536 * ((x / 65536) % 256) + 16777216 * ((x / 16777216) % 256)) by (nonlinear_arith)
        requires 0 <= x < 0x1_0000_0000;
}

} // verus!
