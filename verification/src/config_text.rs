//! The text form of serial parameters, `"<baud>,<parity>,<data bits>,<stop bits>"`,
//! as in `"115200,N,8,1"`: writing it and reading it back.

use vstd::prelude::*;
use crate::config::{DataBits, Parity, SerialConfig, StopBits};
use crate::error::{Error, ErrorKind};
use crate::digits::pow10;
use crate::float_text::{
    decimal_fraction, digit_run, exponent_suffix, float_decimal, float_stop_bits,
    stop_bits_from_float_text, unsigned_part,
};
use vstd::arithmetic::power2::{lemma2_to64, lemma2_to64_rest};
use crate::text::{
    all_digits, capped_decimal, chars_of, decimal_text, decimal_value, field_end, find_sep,
    is_white_space, lemma_decimal_text, lemma_field_end_unique, lemma_trim_trimmed, parse_u32,
    push_decimal,
    strip_plus, trim, trim_end, trim_start, trimmed,
};

verus! {

pub open spec fn parity_char(p: Parity) -> char {
    match p {
        Parity::NoParity => 'N',
        Parity::Odd => 'O',
        Parity::Even => 'E',
    }
}

pub open spec fn data_bits_char(d: DataBits) -> char {
    match d {
        DataBits::Five => '5',
        DataBits::Six => '6',
        DataBits::Seven => '7',
        DataBits::Eight => '8',
    }
}

pub open spec fn stop_bits_char(s: StopBits) -> char {
    match s {
        StopBits::One => '1',
        StopBits::Two => '2',
    }
}

/// The text form of `c`, such as `"9600,N,8,1"`.
pub open spec fn config_text(c: SerialConfig) -> Seq<char> {
    decimal_text(c.baud_rate as nat) + seq![
        ',',
        parity_char(c.parity),
        ',',
        data_bits_char(c.data_bits),
        ',',
        stop_bits_char(c.stop_bits),
    ]
}

/// The first four comma separated fields of `s`; `None` if it has fewer than four.
/// Text after a fourth comma is ignored.
pub open spec fn four_fields(s: Seq<char>) -> Option<(Seq<char>, Seq<char>, Seq<char>, Seq<char>)> {
    let e1 = field_end(s, ',');
    let r1 = s.skip(e1 + 1int);
    let e2 = field_end(r1, ',');
    let r2 = r1.skip(e2 + 1int);
    let e3 = field_end(r2, ',');
    let r3 = r2.skip(e3 + 1int);
    let e4 = field_end(r3, ',');
    if e1 < s.len() && e2 < r1.len() && e3 < r2.len() {
        Some((s.take(e1 as int), r1.take(e2 as int), r2.take(e3 as int), r3.take(e4 as int)))
    } else {
        None
    }
}

/// The parity named by the first character of the trimmed field: `N`, `O` or `E`.
pub open spec fn parse_parity(f: Seq<char>) -> Option<Parity> {
    let g = trim(f);
    if g.len() == 0 {
        None
    } else if g[0] == 'N' {
        Some(Parity::NoParity)
    } else if g[0] == 'O' {
        Some(Parity::Odd)
    } else if g[0] == 'E' {
        Some(Parity::Even)
    } else {
        None
    }
}

/// The data bits of a trimmed field that reads as the integer 5, 6, 7 or 8
/// (an optional `+`, then digits).
pub open spec fn parse_data_bits(f: Seq<char>) -> Option<DataBits> {
    let d = strip_plus(trim(f));
    if d.len() > 0 && all_digits(d) {
        let v = decimal_value(d);
        if v == 5 {
            Some(DataBits::Five)
        } else if v == 6 {
            Some(DataBits::Six)
        } else if v == 7 {
            Some(DataBits::Seven)
        } else if v == 8 {
            Some(DataBits::Eight)
        } else {
            None
        }
    } else {
        None
    }
}

/// The serial parameters that a text denotes, if any.
pub open spec fn parse_config(s: Seq<char>) -> Option<SerialConfig> {
    match four_fields(s) {
        Some((f1, f2, f3, f4)) => match (
            parse_u32(trim(f1)),
            parse_parity(f2),
            parse_data_bits(f3),
            float_stop_bits(trim(f4)),
        ) {
            (Some(b), Some(p), Some(d), Some(st)) => Some(
                SerialConfig { baud_rate: b, parity: p, data_bits: d, stop_bits: st },
            ),
            _ => None,
        },
        None => None,
    }
}

fn parity_of(f: &Vec<char>) -> (r: Option<Parity>)
    requires
        f@ == trim(f@),
    ensures
        r == parse_parity(f@),
{
    if f.len() == 0 {
        None
    } else if f[0] == 'N' {
        Some(Parity::NoParity)
    } else if f[0] == 'O' {
        Some(Parity::Odd)
    } else if f[0] == 'E' {
        Some(Parity::Even)
    } else {
        None
    }
}

fn baud_of(f: &Vec<char>) -> (r: Option<u32>)
    ensures
        r == parse_u32(f@),
{
    let start: usize = if f.len() > 0 && f[0] == '+' {
        1
    } else {
        0
    };
    assert(strip_plus(f@) =~= f@.subrange(start as int, f.len() as int));
    if start == f.len() {
        return None;
    }
    match capped_decimal(f, start, f.len(), 0x1_0000_0000u128) {
        Some(v) => {
            if v < 0x1_0000_0000u128 {
                Some(v as u32)
            } else {
                None
            }
        },
        None => None,
    }
}

fn data_bits_of(f: &Vec<char>) -> (r: Option<DataBits>)
    requires
        f@ == trim(f@),
    ensures
        r == parse_data_bits(f@),
{
    let start: usize = if f.len() > 0 && f[0] == '+' {
        1
    } else {
        0
    };
    assert(strip_plus(f@) =~= f@.subrange(start as int, f.len() as int));
    if start == f.len() {
        return None;
    }
    match capped_decimal(f, start, f.len(), 16u128) {
        Some(v) => {
            if v == 5 {
                Some(DataBits::Five)
            } else if v == 6 {
                Some(DataBits::Six)
            } else if v == 7 {
                Some(DataBits::Seven)
            } else if v == 8 {
                Some(DataBits::Eight)
            } else {
                None
            }
        },
        None => None,
    }
}


impl SerialConfig {
    /// Reads serial parameters from their text form, such as `"115200,N,8,1"`:
    /// a baud rate, a parity (`N`, `O` or `E`), 5 to 8 data bits and 1 or 2
    /// stop bits, separated by commas, each field with or without surrounding
    /// white space. Any other text is an `InvalidInput` error whose message is
    /// the text.
    pub fn from_str(s: &str) -> (r: Result<SerialConfig, Error>)
        ensures
            match parse_config(s@) {
                Some(c) => r == Ok::<SerialConfig, Error>(c),
                None => r matches Err(e) && e.kind == ErrorKind::InvalidInput && (e.message matches Some(
                m,
            ) && m@ == s@),
            },
    {
        let t = chars_of(s);
        let len = t.len();
        let e1 = find_sep(&t, 0, ',');
        assert(t@.skip(0) =~= t@);
        if e1 >= len {
            return Err(Error { kind: ErrorKind::InvalidInput, message: Some(String::from_str(s)) });
        }
        let e2 = find_sep(&t, e1 + 1, ',');
        assert(field_end(t@.skip(e1 + 1int), ',') == e2 - e1 - 1);
        if e2 >= len {
            return Err(Error { kind: ErrorKind::InvalidInput, message: Some(String::from_str(s)) });
        }
        let e3 = find_sep(&t, e2 + 1, ',');
        assert(t@.skip(e1 + 1int).skip(e2 - e1) =~= t@.skip(e2 + 1int));
        assert(field_end(t@.skip(e2 + 1int), ',') == e3 - e2 - 1);
        if e3 >= len {
            return Err(Error { kind: ErrorKind::InvalidInput, message: Some(String::from_str(s)) });
        }
        let e4 = find_sep(&t, e3 + 1, ',');
        proof {
            let r1 = t@.skip(e1 + 1int);
            assert(field_end(t@, ',') == e1);
            assert(field_end(r1, ',') == e2 - e1 - 1);
            let r2 = r1.skip(field_end(r1, ',') + 1int);
            assert(r2 =~= t@.skip(e2 + 1int));
            assert(field_end(r2, ',') == e3 - e2 - 1);
            let r3 = r2.skip(field_end(r2, ',') + 1int);
            assert(r3 =~= t@.skip(e3 + 1int));
            assert(field_end(r3, ',') == e4 - e3 - 1);
            assert(t@.take(e1 as int) =~= t@.subrange(0, e1 as int));
            assert(r1.take(field_end(r1, ',') as int) =~= t@.subrange(e1 + 1int, e2 as int));
            assert(r2.take(field_end(r2, ',') as int) =~= t@.subrange(e2 + 1int, e3 as int));
            assert(r3.take(field_end(r3, ',') as int) =~= t@.subrange(e3 + 1int, e4 as int));
        }
        let f1 = trimmed(&t, 0, e1);
        let f2 = trimmed(&t, e1 + 1, e2);
        let f3 = trimmed(&t, e2 + 1, e3);
        let f4 = trimmed(&t, e3 + 1, e4);
        proof {
            lemma_trim_trimmed(t@.subrange(e1 + 1int, e2 as int));
            lemma_trim_trimmed(t@.subrange(e2 + 1int, e3 as int));
        }
        let baud = baud_of(&f1);
        let parity = parity_of(&f2);
        let data_bits = data_bits_of(&f3);
        let stop_bits = stop_bits_from_float_text(&f4);
        match (baud, parity, data_bits, stop_bits) {
            (Some(b), Some(p), Some(d), Some(st)) => Ok(
                SerialConfig { baud_rate: b, parity: p, data_bits: d, stop_bits: st },
            ),
            _ => Err(Error { kind: ErrorKind::InvalidInput, message: Some(String::from_str(s)) }),
        }
    }

    /// The text form of the parameters, such as `"9600,N,8,1"`.
    pub fn to_string(&self) -> (s: String)
        ensures
            s@ == config_text(*self),
    {
        let mut s = String::new();
        push_decimal(&mut s, self.baud_rate);
        let comma = ",";
        proof {
            reveal_strlit(",");
        }
        s.append(comma);
        let p = match self.parity {
            Parity::NoParity => {
                proof {
                    reveal_strlit("N");
                }
                "N"
            },
            Parity::Odd => {
                proof {
                    reveal_strlit("O");
                }
                "O"
            },
            Parity::Even => {
                proof {
                    reveal_strlit("E");
                }
                "E"
            },
        };
        s.append(p);
        s.append(comma);
        let d = match self.data_bits {
            DataBits::Five => {
                proof {
                    reveal_strlit("5");
                }
                "5"
            },
            DataBits::Six => {
                proof {
                    reveal_strlit("6");
                }
                "6"
            },
            DataBits::Seven => {
                proof {
                    reveal_strlit("7");
                }
                "7"
            },
            DataBits::Eight => {
                proof {
                    reveal_strlit("8");
                }
                "8"
            },
        };
        s.append(d);
        s.append(comma);
        let st = match self.stop_bits {
            StopBits::One => {
                proof {
                    reveal_strlit("1");
                }
                "1"
            },
            StopBits::Two => {
                proof {
                    reveal_strlit("2");
                }
                "2"
            },
        };
        s.append(st);
        assert(s@ =~= config_text(*self));
        s
    }
}

/// A text of digits has nothing to trim.
proof fn lemma_trim_digits(d: Seq<char>)
    requires
        d.len() > 0,
        all_digits(d),
    ensures
        trim(d) == d,
{
    assert(crate::text::is_digit(d[0]));
    assert(crate::text::is_digit(d[d.len() - 1]));
    assert(trim_start(d) == d);
    assert(trim_end(d) == d);
}

proof fn lemma_trim_single(c: char)
    requires
        !is_white_space(c),
    ensures
        trim(seq![c]) == seq![c],
{
    assert(seq![c][0] == c);
    assert(seq![c].last() == c);
    assert(trim_start(seq![c]) == seq![c]);
    assert(trim_end(seq![c]) == seq![c]);
}

proof fn lemma_stop_bits_text(st: StopBits)
    ensures
        float_stop_bits(seq![stop_bits_char(st)]) == Some(st),
{
    let t = seq![stop_bits_char(st)];
    assert(t.drop_first() =~= Seq::<char>::empty());
    assert(unsigned_part(t) == t);
    assert(digit_run(t.drop_first()) == 0);
    assert(digit_run(t) == 1);
    assert(t.skip(1) =~= Seq::<char>::empty());
    assert(t.take(1) =~= t);
    assert(Seq::<char>::empty().skip(0) =~= Seq::<char>::empty());
    assert(Seq::<char>::empty().take(0) =~= Seq::<char>::empty());
    assert(t + Seq::<char>::empty() =~= t);
    assert(exponent_suffix(Seq::<char>::empty()) == Some(0int));
    assert(float_decimal(t) == Some((false, t, 0int)));
    assert(t.drop_last() =~= Seq::<char>::empty());
    assert(decimal_value(Seq::<char>::empty()) == 0);
    lemma2_to64();
    lemma2_to64_rest();
    assert(pow10(0) == 1);
    match st {
        StopBits::One => {
            assert(decimal_value(t) == 1);
            assert(decimal_fraction(1, 0) == (1nat, 1nat));
        },
        StopBits::Two => {
            assert(decimal_value(t) == 2);
            assert(decimal_fraction(2, 0) == (2nat, 1nat));
        },
    }
}

/// Reading the text form of any parameters gives the same parameters back.
pub proof fn lemma_text_roundtrip(c: SerialConfig)
    ensures
        parse_config(config_text(c)) == Some(c),
{
    let d = decimal_text(c.baud_rate as nat);
    lemma_decimal_text(c.baud_rate as nat);
    let t = config_text(c);
    let n = d.len();
    assert(t[n as int] == ',');
    assert forall|j: int| 0 <= j < n implies t[j] != ',' by {
        assert(t[j] == d[j]);
        assert(crate::text::is_digit(d[j]));
    }
    lemma_field_end_unique(t, ',', n as int);
    let r1 = t.skip(n + 1int);
    assert(r1 =~= seq![parity_char(c.parity), ',', data_bits_char(c.data_bits), ',', stop_bits_char(c.stop_bits)]);
    lemma_field_end_unique(r1, ',', 1);
    let r2 = r1.skip(2);
    assert(r2 =~= seq![data_bits_char(c.data_bits), ',', stop_bits_char(c.stop_bits)]);
    lemma_field_end_unique(r2, ',', 1);
    let r3 = r2.skip(2);
    assert(r3 =~= seq![stop_bits_char(c.stop_bits)]);
    lemma_field_end_unique(r3, ',', 1);
    assert(t.take(n as int) =~= d);
    assert(r1.take(1) =~= seq![parity_char(c.parity)]);
    assert(r2.take(1) =~= seq![data_bits_char(c.data_bits)]);
    assert(r3.take(1) =~= seq![stop_bits_char(c.stop_bits)]);
    lemma_trim_digits(d);
    lemma_trim_single(parity_char(c.parity));
    lemma_trim_single(data_bits_char(c.data_bits));
    lemma_trim_single(stop_bits_char(c.stop_bits));
    let dd = seq![data_bits_char(c.data_bits)];
    assert(dd.drop_last() =~= Seq::<char>::empty());
    assert(decimal_value(Seq::<char>::empty()) == 0);
    assert(strip_plus(dd) == dd);
    assert(all_digits(dd));
    lemma_stop_bits_text(c.stop_bits);
}

impl std::str::FromStr for SerialConfig {
    type Err = Error;

    fn from_str(s: &str) -> (r: Result<SerialConfig, Error>)
        ensures
            match parse_config(s@) {
                Some(c) => r == Ok::<SerialConfig, Error>(c),
                None => r matches Err(e) && e.kind == ErrorKind::InvalidInput && (e.message matches Some(
                    m,
                ) && m@ == s@),
            },
    {
        SerialConfig::from_str(s)
    }
}

} // verus!
