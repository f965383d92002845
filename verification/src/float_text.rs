//! Stop bits written as a decimal floating-point number.
//!
//! The stop-bits field of the text form is read the way `f64::from_str`
//! reads a number and is accepted when that number is 1.0 or 2.0.
//! `f64::from_str` returns the representable value nearest to the decimal
//! number written (ties to even), so a finite decimal text denotes 1.0 exactly
//! when its value lies within [1 - 2^-54, 1 + 2^-53], and 2.0 when it lies
//! within [2 - 2^-53, 2 + 2^-52]. This module decides that on the text itself.

use vstd::prelude::*;
use vstd::arithmetic::power2::{pow2, lemma2_to64, lemma2_to64_rest};
use vstd::arithmetic::div_mod::lemma_fundamental_div_mod;
use vstd::math::abs;
use crate::config::StopBits;
use crate::digits::{
    lemma_all_digits_split, lemma_leading_zeros, lemma_pow10_add, lemma_pow10_lt, lemma_pow10_pos,
    lemma_value_bound, lemma_value_concat, lemma_value_lower, pow10,
};
use crate::text::{all_digits, capped_decimal, decimal_value, digit_value, is_digit};

verus! {

/// Length of the run of decimal digits at the start of `t`.
pub open spec fn digit_run(t: Seq<char>) -> nat
    decreases t.len(),
{
    if t.len() > 0 && is_digit(t[0]) {
        1 + digit_run(t.drop_first())
    } else {
        0
    }
}

/// The text after one leading sign character, if there is one.
pub open spec fn unsigned_part(t: Seq<char>) -> Seq<char> {
    if t.len() > 0 && (t[0] == '+' || t[0] == '-') {
        t.drop_first()
    } else {
        t
    }
}

/// A finite decimal number in the grammar of `f64::from_str`:
/// `[+-]? (digits | digits '.' digits? | digits? '.' digits) ([eE] [+-]? digits)?`.
/// Gives (negative, mantissa digits, exponent k): the number is `±mantissa·10^k`.
/// The forms `inf`, `infinity` and `nan` are not finite numbers and give `None`.
pub open spec fn float_decimal(t: Seq<char>) -> Option<(bool, Seq<char>, int)> {
    let negative = t.len() > 0 && t[0] == '-';
    let body = unsigned_part(t);
    let ni = digit_run(body);
    let after_int = body.skip(ni as int);
    let has_point = after_int.len() > 0 && after_int[0] == '.';
    let frac_start = if has_point {
        after_int.drop_first()
    } else {
        after_int
    };
    let nf = if has_point {
        digit_run(frac_start)
    } else {
        0
    };
    let rest = frac_start.skip(nf as int);
    let mantissa = body.take(ni as int) + frac_start.take(nf as int);
    if ni + nf == 0 {
        None
    } else {
        match exponent_suffix(rest) {
            Some(e) => Some((negative, mantissa, e - nf)),
            None => None,
        }
    }
}

/// The exponent written after the mantissa: nothing (0), or `[eE] [+-]? digits`.
pub open spec fn exponent_suffix(rest: Seq<char>) -> Option<int> {
    if rest.len() == 0 {
        Some(0)
    } else if rest[0] == 'e' || rest[0] == 'E' {
        let ebody = rest.drop_first();
        let eneg = ebody.len() > 0 && ebody[0] == '-';
        let edigits = unsigned_part(ebody);
        if edigits.len() > 0 && all_digits(edigits) {
            let e = decimal_value(edigits) as int;
            Some(
                if eneg {
                    -e
                } else {
                    e
                },
            )
        } else {
            None
        }
    } else {
        None
    }
}

/// `m·10^k` as a fraction (numerator, denominator).
pub open spec fn decimal_fraction(m: nat, k: int) -> (nat, nat) {
    if k >= 0 {
        (m * pow10(k as nat), 1)
    } else {
        (m, pow10((-k) as nat))
    }
}

/// `lo / 2^54 <= m·10^k <= hi / 2^54`.
pub open spec fn within(m: nat, k: int, lo: nat, hi: nat) -> bool {
    let (p, q) = decimal_fraction(m, k);
    &&& lo * q <= p * pow2(54)
    &&& p * pow2(54) <= hi * q
}

/// The stop bits that a text denotes when read as an `f64`: one for a number
/// that rounds to 1.0, two for one that rounds to 2.0, `None` for any other
/// text.
pub open spec fn float_stop_bits(t: Seq<char>) -> Option<StopBits> {
    match float_decimal(t) {
        Some((negative, mantissa, k)) => {
            if negative {
                None
            } else {
                stop_bits_of_value(decimal_value(mantissa), k)
            }
        },
        None => None,
    }
}

/// The stop bits that the non-negative number `m·10^k` denotes as an `f64`.
pub open spec fn stop_bits_of_value(m: nat, k: int) -> Option<StopBits> {
    if within(m, k, (pow2(54) - 1) as nat, pow2(54) + 2) {
        Some(StopBits::One)
    } else if within(m, k, (pow2(55) - 2) as nat, pow2(55) + 4) {
        Some(StopBits::Two)
    } else {
        None
    }
}

proof fn lemma_digit_run_unique(t: Seq<char>, i: int)
    requires
        0 <= i <= t.len(),
        i < t.len() ==> !is_digit(t[i]),
        forall|j: int| 0 <= j < i ==> is_digit(#[trigger] t[j]),
    ensures
        digit_run(t) == i,
    decreases t.len(),
{
    if t.len() > 0 && i > 0 {
        assert forall|j: int| 0 <= j < i - 1 implies is_digit(#[trigger] t.drop_first()[j]) by {
            assert(t.drop_first()[j] == t[j + 1]);
        }
        lemma_digit_run_unique(t.drop_first(), i - 1);
    }
}

/// End of the run of digits in `t` that starts at `from`.
fn digit_end(t: &Vec<char>, from: usize) -> (i: usize)
    requires
        from <= t.len(),
    ensures
        from <= i <= t.len(),
        i == from + digit_run(t@.skip(from as int)),
        all_digits(t@.subrange(from as int, i as int)),
{
    let mut i = from;
    while i < t.len() && '0' <= t[i] && t[i] <= '9'
        invariant
            from <= i <= t.len(),
            forall|j: int| from <= j < i ==> is_digit(#[trigger] t@[j]),
        decreases t.len() - i,
    {
        i = i + 1;
    }
    proof {
        let u = t@.skip(from as int);
        assert forall|j: int| 0 <= j < i - from implies is_digit(#[trigger] u[j]) by {
            assert(u[j] == t@[j + from]);
        }
        lemma_digit_run_unique(u, i - from);
        assert forall|j: int| 0 <= j < i - from implies is_digit(
            #[trigger] t@.subrange(from as int, i as int)[j],
        ) by {
            assert(t@.subrange(from as int, i as int)[j] == t@[j + from]);
        }
    }
    i
}


/// `val(x.take(i+1))` from `val(x.take(i))` and the digit `x[i]`.
proof fn lemma_take_next(x: Seq<char>, i: int)
    requires
        0 <= i < x.len(),
    ensures
        decimal_value(x.take(i + 1)) == decimal_value(x.take(i)) * 10 + digit_value(x[i]),
{
    assert(x.take(i + 1).drop_last() =~= x.take(i));
}

/// `val(x) = val(x.take(j))·10^(len-j) + val(x.skip(j))` with the tail below `10^(len-j)`.
proof fn lemma_split_value(x: Seq<char>, j: int)
    requires
        all_digits(x),
        0 <= j <= x.len(),
    ensures
        decimal_value(x) == decimal_value(x.take(j)) * pow10((x.len() - j) as nat) + decimal_value(
            x.skip(j),
        ),
        decimal_value(x.skip(j)) < pow10((x.len() - j) as nat),
{
    assert(x =~= x.take(j) + x.skip(j));
    lemma_value_concat(x.take(j), x.skip(j));
    lemma_all_digits_split(x, j);
    lemma_value_bound(x.skip(j));
}

/// Compares the fraction `0.x`, for `x = a[from..]`, with `num / den`:
/// the sign of `val(x)·den - num·10^len(x)`.
fn compare_with_fraction(a: &Vec<char>, from: usize, num: u128, den: u128) -> (r: i8)
    requires
        from <= a.len(),
        all_digits(a@),
        0 < den <= 0x1_0000_0000_0000_0000,
        num < den,
    ensures
        ({
            let x = a@.skip(from as int);
            let lhs = decimal_value(x) * den;
            let rhs = num * pow10(x.len());
            &&& (r == -1 <==> lhs < rhs)
            &&& (r == 0 <==> lhs == rhs)
            &&& (r == 1 <==> lhs > rhs)
        }),
{
    let ghost x = a@.skip(from as int);
    proof {
        lemma_all_digits_split(a@, from as int);
    }
    let len = a.len() - from;
    let mut rem: u128 = num;
    let mut i: usize = 0;
    assert(x.take(0) =~= Seq::<char>::empty());
    assert(decimal_value(Seq::<char>::empty()) == 0);
    assert(pow10(0) == 1);
    while i < len
        invariant
            x == a@.skip(from as int),
            all_digits(x),
            from <= a.len(),
            len == x.len(),
            i <= len,
            0 < den <= 0x1_0000_0000_0000_0000,
            rem < den,
            num * pow10(i as nat) == den * decimal_value(x.take(i as int)) + rem,
        decreases len - i,
    {
        let c = a[from + i];
        assert(c == x[i as int]);
        assert(is_digit(x[i as int]));
        let dv = (c as u32 - '0' as u32) as u128;
        assert(dv == digit_value(x[i as int]));
        let t10 = rem * 10;
        let f = t10 / den;
        let rem2 = t10 % den;
        let ghost p = decimal_value(x.take(i as int));
        let ghost rest = (len - i - 1) as nat;
        proof {
            lemma_take_next(x, i as int);
            lemma_split_value(x, i + 1);
            assert(pow10((i + 1) as nat) == 10 * pow10(i as nat));
            assert(num * pow10((i + 1) as nat) == 10 * (num * pow10(i as nat))) by (nonlinear_arith)
                requires
                    pow10((i + 1) as nat) == 10 * pow10(i as nat),
            ;
            lemma_fundamental_div_mod(t10 as int, den as int);
            assert(t10 == den * f + rem2);
            assert(t10 == f * den + rem2) by (nonlinear_arith)
                requires
                    t10 == den * f + rem2,
            ;
            assert(num * pow10((i + 1) as nat) == den * (10 * p + f) + rem2) by (nonlinear_arith)
                requires
                    num * pow10((i + 1) as nat) == 10 * (num * pow10(i as nat)),
                    num * pow10(i as nat) == den * p + rem,
                    t10 == rem * 10,
                    t10 == f * den + rem2,
            ;
            lemma_pow10_add((i + 1) as nat, rest);
            assert((i + 1) as nat + rest == len);
        }
        if dv < f {
            proof {
                let q = pow10(rest);
                let vt = decimal_value(x.take(i + 1));
                let tail = decimal_value(x.skip(i + 1));
                let big = num * pow10((i + 1) as nat);
                assert(decimal_value(x) * den < num * pow10(len as nat)) by (nonlinear_arith)
                    requires
                        decimal_value(x) == vt * q + tail,
                        tail < q,
                        vt == p * 10 + dv,
                        dv + 1 <= f,
                        big == den * (10 * p + f) + rem2,
                        pow10(len as nat) == pow10((i + 1) as nat) * q,
                        big == num * pow10((i + 1) as nat),
                        den > 0,
                        q > 0,
                ;
            }
            return -1;
        }
        if dv > f {
            proof {
                let q = pow10(rest);
                lemma_pow10_pos(rest);
                let vt = decimal_value(x.take(i + 1));
                let tail = decimal_value(x.skip(i + 1));
                let big = num * pow10((i + 1) as nat);
                assert(decimal_value(x) * den > num * pow10(len as nat)) by (nonlinear_arith)
                    requires
                        decimal_value(x) == vt * q + tail,
                        tail >= 0,
                        vt == p * 10 + dv,
                        dv >= f + 1,
                        big == den * (10 * p + f) + rem2,
                        rem2 < den,
                        pow10(len as nat) == pow10((i + 1) as nat) * q,
                        big == num * pow10((i + 1) as nat),
                        den > 0,
                        q > 0,
                ;
            }
            return 1;
        }
        rem = rem2;
        i = i + 1;
    }
    assert(x.take(len as int) =~= x);
    assert(num * pow10(len as nat) == den * decimal_value(x) + rem);
    assert(decimal_value(x) * den == den * decimal_value(x)) by (nonlinear_arith);
    if rem == 0 {
        0
    } else {
        -1
    }
}


/// Where `m·10^k` lies, for `m` written with `a.len()` digits and no leading zero:
/// in `[10^(e-1), 10^e)` with `e = a.len() + k`.
proof fn lemma_fraction_shape(a: Seq<char>, k: int)
    requires
        all_digits(a),
        a.len() > 0,
        a[0] != '0',
    ensures
        ({
            let m = decimal_value(a);
            let (p, q) = decimal_fraction(m, k);
            let e = a.len() + k;
            &&& q >= 1
            &&& (e >= 2 ==> p >= 10 * q)
            &&& (e <= -1 ==> 10 * p < q)
            &&& (e == 0 ==> p == m && q == pow10(a.len()) && p < q)
            &&& (e == 1 ==> p == m && q == pow10((a.len() - 1) as nat) && p >= q)
        }),
{
    let n = a.len();
    let m = decimal_value(a);
    let e = n + k;
    lemma_value_lower(a);
    lemma_value_bound(a);
    let lowp = pow10((n - 1) as nat);
    if k >= 0 {
        lemma_pow10_pos(k as nat);
        if e >= 2 {
            lemma_pow10_add((n - 1) as nat, k as nat);
            lemma_pow10_lt(0, (n - 1 + k) as nat);
            assert(pow10(0) == 1);
            assert(m * pow10(k as nat) >= lowp * pow10(k as nat)) by (nonlinear_arith)
                requires
                    m >= lowp,
            ;
        }
        if e == 1 {
            assert(k == 0 && n == 1);
            assert(pow10(0) == 1);
        }
    } else {
        let mk = (-k) as nat;
        lemma_pow10_pos(mk);
        if e >= 2 {
            lemma_pow10_lt(mk, (n - 1) as nat);
        }
        if e <= -1 {
            lemma_pow10_lt(n, mk);
        }
        if e == 1 {
            assert(mk == n - 1);
        }
    }
}

pub const EXP_CAP: u128 = 0x4_0000_0000_0000_0000u128;

/// The stop bits that the number `digits·10^(±exp - nf)` denotes, where
/// `exp_cap` is `exp` capped at `EXP_CAP`.
fn decimal_class(d: &Vec<char>, nf: usize, exp_neg: bool, exp_cap: u128, Ghost(exp): Ghost<nat>) -> (r:
    Option<StopBits>)
    requires
        all_digits(d@),
        exp_cap == if exp < EXP_CAP {
            exp
        } else {
            EXP_CAP as nat
        },
    ensures
        r == stop_bits_of_value(
            decimal_value(d@),
            (if exp_neg {
                -(exp as int)
            } else {
                exp as int
            }) - nf,
        ),
{
    let ghost k: int = (if exp_neg {
        -(exp as int)
    } else {
        exp as int
    }) - nf;
    let ghost m = decimal_value(d@);
    let len = d.len();
    let mut z: usize = 0;
    while z < len && d[z] == '0'
        invariant
            z <= len == d@.len(),
            forall|j: int| 0 <= j < z ==> d@[j] == '0',
        decreases len - z,
    {
        z = z + 1;
    }
    proof {
        lemma_leading_zeros(d@, z as int);
        lemma2_to64();
        lemma2_to64_rest();
    }
    if z == len {
        proof {
            assert(d@.skip(z as int) =~= Seq::<char>::empty());
            assert(m == 0);
            let (p, q) = decimal_fraction(m, k);
            assert(p == 0) by (nonlinear_arith)
                requires
                    k >= 0 ==> p == m * pow10(k as nat),
                    k < 0 ==> p == m,
                    m == 0,
            ;
            if k >= 0 {
                assert(q == 1);
            } else {
                lemma_pow10_pos((-k) as nat);
            }
            let t54 = pow2(54);
            let t55 = pow2(55);
            assert(((t54 - 1) as nat) * q > p * t54 && ((t55 - 2) as nat) * q > p * t54) by (nonlinear_arith)
                requires
                    p == 0,
                    q >= 1,
                    t54 == 0x40000000000000,
                    t55 == 0x80000000000000,
            ;
        }
        return None;
    }
    let ghost a = d@.skip(z as int);
    proof {
        lemma_all_digits_split(d@, z as int);
        assert(a[0] == d@[z as int]);
        lemma_fraction_shape(a, k);
    }
    let ghost n = a.len();
    let e_signed: i128 = if exp_neg {
        -(exp_cap as i128)
    } else {
        exp_cap as i128
    };
    let big_e: i128 = (len - z) as i128 + e_signed - nf as i128;
    let ghost (p, q) = decimal_fraction(m, k);
    let ghost two54 = pow2(54);
    assert(two54 == 0x40000000000000);
    if big_e >= 2 {
        proof {
            assert(n + k >= 2);
            assert(p >= 10 * q);
            assert(p * two54 > (two54 + 2) * q) by (nonlinear_arith)
                requires
                    p >= 10 * q,
                    q >= 1,
                    two54 == 0x40000000000000,
            ;
            assert(p * two54 > (2 * two54 + 4) * q) by (nonlinear_arith)
                requires
                    p >= 10 * q,
                    q >= 1,
                    two54 == 0x40000000000000,
            ;
        }
        return None;
    }
    if big_e <= -1 {
        proof {
            assert(n + k <= -1);
            assert(10 * p < q);
            assert((two54 - 1) * q > p * two54) by (nonlinear_arith)
                requires
                    10 * p < q,
                    two54 == 0x40000000000000,
            ;
            assert((2 * two54 - 2) * q > p * two54) by (nonlinear_arith)
                requires
                    10 * p < q,
                    two54 == 0x40000000000000,
            ;
        }
        return None;
    }
    assert(exp_cap == exp);
    assert(big_e == n + k);
    if big_e == 0 {
        let c = compare_with_fraction(d, z, 0x3f_ffff_ffff_ffffu128, 0x40_0000_0000_0000u128);
        proof {
            assert(p == m && q == pow10(n) && p < q);
            assert((two54 + 2) * q > p * two54) by (nonlinear_arith)
                requires
                    p < q,
                    two54 == 0x40000000000000,
            ;
            assert((2 * two54 - 2) * q > p * two54) by (nonlinear_arith)
                requires
                    p < q,
                    two54 == 0x40000000000000,
            ;
            assert(m * two54 == decimal_value(a) * 0x40_0000_0000_0000u128);
        }
        if c >= 0 {
            Some(StopBits::One)
        } else {
            None
        }
    } else {
        proof {
            assert(big_e == 1);
            assert(p == m && q == pow10((n - 1) as nat) && p >= q);
            assert(pow10(n) == 10 * q);
            assert((two54 - 1) * q <= p * two54) by (nonlinear_arith)
                requires
                    p >= q,
                    two54 == 0x40000000000000,
            ;
        }
        let den: u128 = 0x280_0000_0000_0000u128;
        let c_one = compare_with_fraction(d, z, 0x40_0000_0000_0002u128, den);
        proof {
            let hi = 0x40_0000_0000_0002u128 as nat;
            assert((m * two54 <= hi * q) <==> (decimal_value(a) * den <= hi * pow10(n)))
                by (nonlinear_arith)
                requires
                    pow10(n) == 10 * q,
                    den == 10 * two54,
                    m == decimal_value(a),
            ;
        }
        if c_one <= 0 {
            return Some(StopBits::One);
        }
        let c_lo = compare_with_fraction(d, z, 0x7f_ffff_ffff_fffeu128, den);
        let c_hi = compare_with_fraction(d, z, 0x80_0000_0000_0004u128, den);
        proof {
            let lo = 0x7f_ffff_ffff_fffeu128 as nat;
            let hi = 0x80_0000_0000_0004u128 as nat;
            assert((lo * q <= m * two54) <==> (lo * pow10(n) <= decimal_value(a) * den))
                by (nonlinear_arith)
                requires
                    pow10(n) == 10 * q,
                    den == 10 * two54,
                    m == decimal_value(a),
            ;
            assert((m * two54 <= hi * q) <==> (decimal_value(a) * den <= hi * pow10(n)))
                by (nonlinear_arith)
                requires
                    pow10(n) == 10 * q,
                    den == 10 * two54,
                    m == decimal_value(a),
            ;
        }
        if c_lo >= 0 && c_hi <= 0 {
            Some(StopBits::Two)
        } else {
            None
        }
    }
}


/// Reads the exponent suffix at `t[from..]`: its sign and its magnitude capped at `EXP_CAP`.
fn exponent_at(t: &Vec<char>, from: usize) -> (r: Option<(bool, u128)>)
    requires
        from <= t.len(),
    ensures
        match exponent_suffix(t@.skip(from as int)) {
            None => r is None,
            Some(e) => r matches Some((neg, cap)) && (neg ==> e <= 0) && (!neg ==> e >= 0) && cap == (
            if abs(e) < EXP_CAP {
                abs(e) as int
            } else {
                EXP_CAP as int
            }),
        },
{
    let len = t.len();
    let ghost rest = t@.skip(from as int);
    if from == len {
        return Some((false, 0));
    }
    assert(rest[0] == t@[from as int]);
    if !(t[from] == 'e' || t[from] == 'E') {
        return None;
    }
    let es = from + 1;
    assert(rest.drop_first() =~= t@.skip(es as int));
    let neg = es < len && t[es] == '-';
    let xs = if es < len && (t[es] == '+' || t[es] == '-') {
        es + 1
    } else {
        es
    };
    assert(unsigned_part(t@.skip(es as int)) =~= t@.skip(xs as int));
    assert(t@.skip(xs as int) =~= t@.subrange(xs as int, len as int));
    if xs == len {
        return None;
    }
    match capped_decimal(t, xs, len, EXP_CAP) {
        None => None,
        Some(v) => Some((neg, v)),
    }
}

/// `t[p..ie]` followed by `t[fs..fe]`.
fn two_ranges(t: &Vec<char>, p: usize, ie: usize, fs: usize, fe: usize) -> (digits: Vec<char>)
    requires
        p <= ie <= fs <= fe <= t.len(),
    ensures
        digits@ =~= t@.subrange(p as int, ie as int) + t@.subrange(fs as int, fe as int),
{
    let mut digits: Vec<char> = Vec::new();
    let mut i = p;
    while i < ie
        invariant
            p <= i <= ie <= t@.len(),
            digits@ =~= t@.subrange(p as int, i as int),
        decreases ie - i,
    {
        digits.push(t[i]);
        i = i + 1;
    }
    let mut j = fs;
    while j < fe
        invariant
            p <= ie <= fs <= j <= fe <= t@.len(),
            digits@ =~= t@.subrange(p as int, ie as int) + t@.subrange(fs as int, j as int),
        decreases fe - j,
    {
        digits.push(t[j]);
        j = j + 1;
    }
    digits
}

/// `float_decimal` in terms of the positions where its parts end.
proof fn lemma_float_decimal_parts(t: Seq<char>, p: int, ie: int, has_point: bool, fs: int, fe: int)
    requires
        p == (if t.len() > 0 && (t[0] == '+' || t[0] == '-') {
            1int
        } else {
            0int
        }),
        ie == p + digit_run(t.skip(p)),
        ie <= t.len(),
        has_point == (ie < t.len() && t[ie] == '.'),
        fs == (if has_point {
            ie + 1
        } else {
            ie
        }),
        fe == (if has_point {
            fs + digit_run(t.skip(fs))
        } else {
            fs
        }),
        fe <= t.len(),
    ensures
        float_decimal(t) == (if (ie - p) + (fe - fs) == 0 {
            None
        } else {
            match exponent_suffix(t.skip(fe)) {
                Some(e) => Some(
                    (
                        t.len() > 0 && t[0] == '-',
                        t.subrange(p, ie) + t.subrange(fs, fe),
                        e - (fe - fs),
                    ),
                ),
                None => None,
            }
        }),
{
    let body = unsigned_part(t);
    assert(body =~= t.skip(p));
    let ni = digit_run(body);
    assert(ni == ie - p);
    let after_int = body.skip(ni as int);
    assert(after_int =~= t.skip(ie));
    if ie < t.len() {
        assert(after_int[0] == t[ie]);
    }
    let frac_start = if has_point {
        after_int.drop_first()
    } else {
        after_int
    };
    assert(frac_start =~= t.skip(fs));
    let nf = if has_point {
        digit_run(frac_start)
    } else {
        0
    };
    assert(nf == fe - fs);
    assert(frac_start.skip(nf as int) =~= t.skip(fe));
    assert(body.take(ni as int) =~= t.subrange(p, ie));
    assert(frac_start.take(nf as int) =~= t.subrange(fs, fe));
}

/// Reads `t` as `f64::from_str` does and gives the stop bits for 1.0 and 2.0.
pub fn stop_bits_from_float_text(t: &Vec<char>) -> (r: Option<StopBits>)
    ensures
        r == float_stop_bits(t@),
{
    let len = t.len();
    let negative = len > 0 && t[0] == '-';
    let p: usize = if len > 0 && (t[0] == '+' || t[0] == '-') {
        1
    } else {
        0
    };
    let ie = digit_end(t, p);
    let has_point = ie < len && t[ie] == '.';
    let fs = if has_point {
        ie + 1
    } else {
        ie
    };
    let fe = if has_point {
        digit_end(t, fs)
    } else {
        fs
    };
    proof {
        lemma_float_decimal_parts(t@, p as int, ie as int, has_point, fs as int, fe as int);
    }
    if (ie - p) + (fe - fs) == 0 {
        return None;
    }
    let (exp_neg, exp_cap) = match exponent_at(t, fe) {
        None => {
            return None;
        },
        Some(x) => x,
    };
    let ghost e = exponent_suffix(t@.skip(fe as int))->0;
    let ghost exp = abs(e) as nat;
    if negative {
        return None;
    }
    let digits = two_ranges(t, p, ie, fs, fe);
    assert(all_digits(digits@)) by {
        assert(all_digits(t@.subrange(p as int, ie as int)));
        if has_point {
            assert(all_digits(t@.subrange(fs as int, fe as int)));
        } else {
            assert(t@.subrange(fs as int, fe as int) =~= Seq::<char>::empty());
        }
        assert forall|k: int| 0 <= k < digits@.len() implies is_digit(#[trigger] digits@[k]) by {
            if k < ie - p {
                assert(digits@[k] == t@.subrange(p as int, ie as int)[k]);
            } else {
                assert(digits@[k] == t@.subrange(fs as int, fe as int)[k - (ie - p)]);
            }
        }
    }
    assert((if exp_neg {
        -(exp as int)
    } else {
        exp as int
    }) == e);
    decimal_class(&digits, fe - fs, exp_neg, exp_cap, Ghost(exp))
}

} // verus!
