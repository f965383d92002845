//! Arithmetic facts about decimal digit sequences: powers of ten, the value
//! of a concatenation, bounds and leading zeros.

use vstd::prelude::*;
use crate::text::{all_digits, decimal_value, digit_value, is_digit};

verus! {

pub open spec fn pow10(e: nat) -> nat
    decreases e,
{
    if e == 0 {
        1
    } else {
        10 * pow10((e - 1) as nat)
    }
}

/// `n` zero digits.
pub open spec fn zeros(n: nat) -> Seq<char> {
    Seq::new(n, |i: int| '0')
}

pub proof fn lemma_pow10_pos(e: nat)
    ensures
        pow10(e) >= 1,
    decreases e,
{
    if e > 0 {
        lemma_pow10_pos((e - 1) as nat);
    }
}

pub proof fn lemma_pow10_add(a: nat, b: nat)
    ensures
        pow10(a + b) == pow10(a) * pow10(b),
    decreases b,
{
    if b == 0 {
        assert(pow10(0) == 1);
        assert(a + b == a);
    } else {
        lemma_pow10_add(a, (b - 1) as nat);
        assert(pow10(a + b) == 10 * pow10((a + b - 1) as nat));
        assert(pow10(a) * pow10(b) == pow10(a) * (10 * pow10((b - 1) as nat)));
        assert(pow10(a) * (10 * pow10((b - 1) as nat)) == 10 * (pow10(a) * pow10(
            (b - 1) as nat,
        ))) by (nonlinear_arith);
    }
}

pub proof fn lemma_pow10_lt(a: nat, b: nat)
    requires
        a < b,
    ensures
        10 * pow10(a) <= pow10(b),
    decreases b,
{
    lemma_pow10_pos(a);
    if b > a + 1 {
        lemma_pow10_lt(a, (b - 1) as nat);
    }
}

pub proof fn lemma_value_concat(x: Seq<char>, y: Seq<char>)
    ensures
        decimal_value(x + y) == decimal_value(x) * pow10(y.len()) + decimal_value(y),
    decreases y.len(),
{
    if y.len() == 0 {
        assert(x + y =~= x);
        assert(pow10(0) == 1);
        assert(decimal_value(y) == 0);
    } else {
        lemma_value_concat(x, y.drop_last());
        assert((x + y).drop_last() =~= x + y.drop_last());
        assert((x + y).last() == y.last());
        let a = decimal_value(x);
        let p = pow10(y.drop_last().len());
        let v = decimal_value(y.drop_last());
        let d = digit_value(y.last());
        assert(pow10(y.len()) == 10 * p);
        assert((a * p + v) * 10 + d == a * (10 * p) + (v * 10 + d)) by (nonlinear_arith);
    }
}

pub proof fn lemma_value_bound(x: Seq<char>)
    requires
        all_digits(x),
    ensures
        decimal_value(x) < pow10(x.len()),
    decreases x.len(),
{
    if x.len() > 0 {
        let y = x.drop_last();
        assert(all_digits(y)) by {
            assert forall|i: int| 0 <= i < y.len() implies is_digit(#[trigger] y[i]) by {
                assert(y[i] == x[i]);
            }
        }
        lemma_value_bound(y);
        assert(is_digit(x[x.len() - 1]));
        assert(digit_value(x.last()) <= 9);
        let v = decimal_value(y);
        let p = pow10(y.len());
        assert(v + 1 <= p);
        assert(v * 10 + 9 < 10 * p) by (nonlinear_arith)
            requires
                v + 1 <= p,
        ;
    }
}

pub proof fn lemma_zeros_value(n: nat)
    ensures
        decimal_value(zeros(n)) == 0,
    decreases n,
{
    if n > 0 {
        assert(zeros(n).drop_last() =~= zeros((n - 1) as nat));
        lemma_zeros_value((n - 1) as nat);
    }
}

pub proof fn lemma_all_digits_split(x: Seq<char>, i: int)
    requires
        all_digits(x),
        0 <= i <= x.len(),
    ensures
        all_digits(x.take(i)),
        all_digits(x.skip(i)),
{
    assert forall|j: int| 0 <= j < x.take(i).len() implies is_digit(#[trigger] x.take(i)[j]) by {
        assert(x.take(i)[j] == x[j]);
    }
    assert forall|j: int| 0 <= j < x.skip(i).len() implies is_digit(#[trigger] x.skip(i)[j]) by {
        assert(x.skip(i)[j] == x[j + i]);
    }
}

/// Leading zeros do not change the value.
pub proof fn lemma_leading_zeros(x: Seq<char>, z: int)
    requires
        0 <= z <= x.len(),
        forall|j: int| 0 <= j < z ==> x[j] == '0',
    ensures
        decimal_value(x) == decimal_value(x.skip(z)),
{
    assert(x.take(z) =~= zeros(z as nat));
    assert(x =~= x.take(z) + x.skip(z));
    lemma_value_concat(x.take(z), x.skip(z));
    lemma_zeros_value(z as nat);
}

/// A number written with `n` digits and no leading zero is at least `10^(n-1)`.
pub proof fn lemma_value_lower(x: Seq<char>)
    requires
        all_digits(x),
        x.len() > 0,
        x[0] != '0',
    ensures
        pow10((x.len() - 1) as nat) <= decimal_value(x),
{
    let h = x.take(1);
    let r = x.skip(1);
    assert(x =~= h + r);
    lemma_value_concat(h, r);
    assert(h.drop_last() =~= Seq::<char>::empty());
    assert(decimal_value(Seq::<char>::empty()) == 0);
    assert(h.last() == x[0]);
    assert(decimal_value(h) == digit_value(x[0]));
    assert(is_digit(x[0]));
    assert(decimal_value(h) >= 1);
    lemma_pow10_pos(r.len());
    let p = pow10(r.len());
    assert(decimal_value(h) * p >= p) by (nonlinear_arith)
        requires
            decimal_value(h) >= 1,
    ;
}

} // verus!
