//! Character-level helpers for the text forms of serial parameters:
//! Unicode white space, trimming, comma separated fields and decimal numbers.

use vstd::prelude::*;

verus! {

/// The characters of a string slice, in order.
pub fn chars_of(s: &str) -> (v: Vec<char>)
    ensures
        v@ == s@,
{
    let mut v: Vec<char> = Vec::new();
    for c in it: s.chars()
        invariant
            v@ == it.seq().take(it.index() as int),
            it.seq() == s@,
    {
        v.push(c);
        assert(v@ =~= it.seq().take(it.index() + 1));
    }
    v
}


/// Unicode `White_Space`, the set that `char::is_whitespace` and `str::trim` use.
pub open spec fn is_white_space(c: char) -> bool {
    ||| ('\u{9}' <= c && c <= '\u{d}')
    ||| c == ' '
    ||| c == '\u{85}'
    ||| c == '\u{a0}'
    ||| c == '\u{1680}'
    ||| ('\u{2000}' <= c && c <= '\u{200a}')
    ||| c == '\u{2028}'
    ||| c == '\u{2029}'
    ||| c == '\u{202f}'
    ||| c == '\u{205f}'
    ||| c == '\u{3000}'
}

pub fn white_space(c: char) -> (b: bool)
    ensures
        b == is_white_space(c),
{
    ('\u{9}' <= c && c <= '\u{d}') || c == ' ' || c == '\u{85}' || c == '\u{a0}' || c
        == '\u{1680}' || ('\u{2000}' <= c && c <= '\u{200a}') || c == '\u{2028}' || c
        == '\u{2029}' || c == '\u{202f}' || c == '\u{205f}' || c == '\u{3000}'
}

/// The text without its leading white space.
pub open spec fn trim_start(t: Seq<char>) -> Seq<char>
    decreases t.len(),
{
    if t.len() > 0 && is_white_space(t[0]) {
        trim_start(t.drop_first())
    } else {
        t
    }
}

/// The text without its trailing white space.
pub open spec fn trim_end(t: Seq<char>) -> Seq<char>
    decreases t.len(),
{
    if t.len() > 0 && is_white_space(t.last()) {
        trim_end(t.drop_last())
    } else {
        t
    }
}

/// The text without leading and trailing white space, as `str::trim` gives it.
pub open spec fn trim(t: Seq<char>) -> Seq<char> {
    trim_end(trim_start(t))
}

pub proof fn lemma_trim_start_skip(t: Seq<char>, i: int)
    requires
        0 <= i <= t.len(),
        forall|j: int| 0 <= j < i ==> is_white_space(#[trigger] t[j]),
    ensures
        trim_start(t) == trim_start(t.skip(i)),
    decreases i,
{
    if i == 0 {
        assert(t.skip(0) =~= t);
    } else {
        assert(is_white_space(t[0]));
        assert(t.drop_first().skip(i - 1) =~= t.skip(i));
        assert forall|j: int| 0 <= j < i - 1 implies is_white_space(#[trigger] t.drop_first()[j]) by {
            assert(t.drop_first()[j] == t[j + 1]);
        }
        lemma_trim_start_skip(t.drop_first(), i - 1);
    }
}

proof fn lemma_trim_end_take(t: Seq<char>, i: int)
    requires
        0 <= i <= t.len(),
        forall|j: int| i <= j < t.len() ==> is_white_space(#[trigger] t[j]),
    ensures
        trim_end(t) == trim_end(t.take(i)),
    decreases t.len() - i,
{
    if i == t.len() {
        assert(t.take(i) =~= t);
    } else {
        assert(is_white_space(t[t.len() - 1]));
        assert(t.drop_last().take(i) =~= t.take(i));
        assert forall|j: int| i <= j < t.drop_last().len() implies is_white_space(
            #[trigger] t.drop_last()[j],
        ) by {
            assert(t.drop_last()[j] == t[j]);
        }
        lemma_trim_end_take(t.drop_last(), i);
    }
}

proof fn lemma_trim_start_end(t: Seq<char>)
    ensures
        trim_start(trim_end(t)) == trim_end(trim_start(t)),
        trim_start(trim_start(t)) == trim_start(t),
        trim_end(trim_end(t)) == trim_end(t),
        trim_end(t).len() > 0 ==> !is_white_space(trim_end(t).last()),
        trim_start(t).len() > 0 ==> !is_white_space(trim_start(t)[0]),
    decreases t.len(),
{
    if t.len() > 0 {
        if is_white_space(t[0]) {
            lemma_trim_start_end(t.drop_first());
            if t.len() > 1 && !is_white_space(t.last()) {
                assert(trim_end(t) == t);
                assert(trim_end(t.drop_first()) == t.drop_first());
            } else if is_white_space(t.last()) {
                assert(trim_end(t) == trim_end(t.drop_last()));
                lemma_trim_start_end(t.drop_last());
                if t.len() > 1 {
                    assert(t.drop_first().drop_last() =~= t.drop_last().drop_first());
                    lemma_trim_start_end(t.drop_first().drop_last());
                    assert(trim_end(t.drop_first()) == trim_end(t.drop_first().drop_last()));
                    assert(t.drop_last()[0] == t[0]);
                } else {
                    assert(t.drop_last() =~= Seq::<char>::empty());
                    assert(t.drop_first() =~= Seq::<char>::empty());
                }
            } else {
                assert(t.len() == 1);
                assert(t.drop_first() =~= Seq::<char>::empty());
            }
        } else {
            lemma_trim_start_end(t.drop_last());
            if is_white_space(t.last()) {
                assert(t.drop_last().len() > 0 ==> t.drop_last()[0] == t[0]);
            }
        }
    }
}

/// Trimming a trimmed text changes nothing.
pub proof fn lemma_trim_trimmed(t: Seq<char>)
    ensures
        trim(trim(t)) == trim(t),
{
    lemma_trim_start_end(t);
    lemma_trim_start_end(trim_start(t));
    lemma_trim_start_end(trim_end(trim_start(t)));
}

/// `t[from..to]` with white space removed at both ends.
pub fn trimmed(t: &Vec<char>, from: usize, to: usize) -> (r: Vec<char>)
    requires
        from <= to <= t.len(),
    ensures
        r@ == trim(t@.subrange(from as int, to as int)),
{
    let ghost f = t@.subrange(from as int, to as int);
    let mut a = from;
    while a < to && white_space(t[a])
        invariant
            from <= a <= to <= t.len(),
            f == t@.subrange(from as int, to as int),
            forall|j: int| from <= j < a ==> is_white_space(#[trigger] t@[j]),
        decreases to - a,
    {
        a = a + 1;
    }
    proof {
        assert forall|j: int| 0 <= j < a - from implies is_white_space(#[trigger] f[j]) by {
            assert(f[j] == t@[j + from]);
        }
        lemma_trim_start_skip(f, a - from);
        assert(f.skip(a - from) =~= t@.subrange(a as int, to as int));
        if a < to {
            assert(!is_white_space(t@.subrange(a as int, to as int)[0]));
        }
    }
    let ghost g = t@.subrange(a as int, to as int);
    assert(trim_start(f) == g);
    let mut b = to;
    while b > a && white_space(t[b - 1])
        invariant
            from <= a <= b <= to <= t.len(),
            g == t@.subrange(a as int, to as int),
            forall|j: int| b <= j < to ==> is_white_space(#[trigger] t@[j]),
        decreases b - a,
    {
        b = b - 1;
    }
    proof {
        assert forall|j: int| b - a <= j < g.len() implies is_white_space(#[trigger] g[j]) by {
            assert(g[j] == t@[j + a]);
        }
        lemma_trim_end_take(g, b - a);
        assert(g.take(b - a) =~= t@.subrange(a as int, b as int));
    }
    let mut r: Vec<char> = Vec::new();
    let mut i = a;
    while i < b
        invariant
            a <= i <= b <= t.len(),
            r@ =~= t@.subrange(a as int, i as int),
        decreases b - i,
    {
        r.push(t[i]);
        i = i + 1;
    }
    r
}

/// Index of the first `sep` in `t`, or the length of `t` if there is none.
pub open spec fn field_end(t: Seq<char>, sep: char) -> nat
    decreases t.len(),
{
    if t.len() == 0 {
        0
    } else if t[0] == sep {
        0
    } else {
        1 + field_end(t.drop_first(), sep)
    }
}

pub proof fn lemma_field_end(t: Seq<char>, sep: char)
    ensures
        field_end(t, sep) <= t.len(),
        field_end(t, sep) < t.len() ==> t[field_end(t, sep) as int] == sep,
        forall|j: int| 0 <= j < field_end(t, sep) ==> t[j] != sep,
    decreases t.len(),
{
    if t.len() > 0 && t[0] != sep {
        lemma_field_end(t.drop_first(), sep);
        assert forall|j: int| 0 <= j < field_end(t, sep) implies t[j] != sep by {
            if j > 0 {
                assert(t[j] == t.drop_first()[j - 1]);
            }
        }
    }
}

pub proof fn lemma_field_end_unique(t: Seq<char>, sep: char, i: int)
    requires
        0 <= i <= t.len(),
        i < t.len() ==> t[i] == sep,
        forall|j: int| 0 <= j < i ==> t[j] != sep,
    ensures
        field_end(t, sep) == i,
    decreases t.len(),
{
    if t.len() > 0 && i > 0 {
        assert forall|j: int| 0 <= j < i - 1 implies t.drop_first()[j] != sep by {
            assert(t.drop_first()[j] == t[j + 1]);
        }
        lemma_field_end_unique(t.drop_first(), sep, i - 1);
    }
}

/// Index of the first `sep` in `t[from..]` (counted from 0 of `t`), or `t.len()`.
pub fn find_sep(t: &Vec<char>, from: usize, sep: char) -> (i: usize)
    requires
        from <= t.len(),
    ensures
        from <= i <= t.len(),
        i == from + field_end(t@.skip(from as int), sep),
{
    let mut i = from;
    while i < t.len() && t[i] != sep
        invariant
            from <= i <= t.len(),
            forall|j: int| from <= j < i ==> t@[j] != sep,
        decreases t.len() - i,
    {
        i = i + 1;
    }
    proof {
        let u = t@.skip(from as int);
        assert forall|j: int| 0 <= j < i - from implies u[j] != sep by {
            assert(u[j] == t@[j + from]);
        }
        lemma_field_end_unique(u, sep, i - from);
    }
    i
}

pub open spec fn is_digit(c: char) -> bool {
    '0' <= c && c <= '9'
}

pub open spec fn digit_value(c: char) -> nat {
    (c as int - '0' as int) as nat
}

pub open spec fn all_digits(d: Seq<char>) -> bool {
    forall|i: int| 0 <= i < d.len() ==> is_digit(#[trigger] d[i])
}

/// The number written by a sequence of decimal digits (0 for the empty sequence).
pub open spec fn decimal_value(d: Seq<char>) -> nat
    decreases d.len(),
{
    if d.len() == 0 {
        0
    } else {
        decimal_value(d.drop_last()) * 10 + digit_value(d.last())
    }
}

/// The text without one leading `+`.
pub open spec fn strip_plus(t: Seq<char>) -> Seq<char> {
    if t.len() > 0 && t[0] == '+' {
        t.drop_first()
    } else {
        t
    }
}

/// `u32::from_str`: an optional `+`, then at least one decimal digit, of a value
/// that fits in 32 bits.
pub open spec fn parse_u32(t: Seq<char>) -> Option<u32> {
    let d = strip_plus(t);
    if d.len() > 0 && all_digits(d) && decimal_value(d) <= u32::MAX {
        Some(decimal_value(d) as u32)
    } else {
        None
    }
}

/// The decimal value of the digits `t[from..to]`, capped at `cap`;
/// `None` if some character there is not a digit.
pub fn capped_decimal(t: &Vec<char>, from: usize, to: usize, cap: u128) -> (r: Option<u128>)
    requires
        from <= to <= t.len(),
        cap <= u128::MAX / 16,
    ensures
        match r {
            Some(v) => all_digits(t@.subrange(from as int, to as int)) && v == if decimal_value(
                t@.subrange(from as int, to as int),
            ) < cap {
                decimal_value(t@.subrange(from as int, to as int))
            } else {
                cap as nat
            },
            None => !all_digits(t@.subrange(from as int, to as int)),
        },
{
    let mut acc: u128 = 0;
    let mut i = from;
    while i < to
        invariant
            from <= i <= to <= t.len(),
            cap <= u128::MAX / 16,
            all_digits(t@.subrange(from as int, i as int)),
            acc == if decimal_value(t@.subrange(from as int, i as int)) < cap {
                decimal_value(t@.subrange(from as int, i as int))
            } else {
                cap as nat
            },
        decreases to - i,
    {
        let c = t[i];
        if !('0' <= c && c <= '9') {
            assert(!is_digit(t@.subrange(from as int, to as int)[i - from]));
            return None;
        }
        let ghost p = t@.subrange(from as int, i as int);
        let ghost q = t@.subrange(from as int, i + 1);
        assert(q.drop_last() =~= p);
        assert(q.last() == c);
        let dv = (c as u32 - '0' as u32) as u128;
        assert(dv == digit_value(c));
        let next = acc * 10 + dv;
        if next < cap {
            acc = next;
        } else {
            acc = cap;
        }
        i = i + 1;
        assert(all_digits(q)) by {
            assert forall|j: int| 0 <= j < q.len() implies is_digit(#[trigger] q[j]) by {
                if j < p.len() {
                    assert(q[j] == p[j]);
                }
            }
        }
    }
    Some(acc)
}


/// The digit character for `d < 10`.
pub open spec fn digit_char(d: nat) -> char {
    ('0' as int + d) as char
}

/// The decimal form of `n`, without sign or leading zeros, as `Display` writes it.
pub open spec fn decimal_text(n: nat) -> Seq<char>
    decreases n,
{
    if n < 10 {
        seq![digit_char(n)]
    } else {
        decimal_text(n / 10).push(digit_char(n % 10))
    }
}

pub proof fn lemma_decimal_text(n: nat)
    ensures
        decimal_text(n).len() > 0,
        all_digits(decimal_text(n)),
        decimal_value(decimal_text(n)) == n,
        decimal_text(n)[0] != '+',
    decreases n,
{
    if n < 10 {
        assert(decimal_text(n).drop_last() =~= Seq::<char>::empty());
        assert(digit_value(digit_char(n)) == n);
        assert(decimal_value(Seq::<char>::empty()) == 0);
        assert(decimal_text(n).last() == digit_char(n));
    } else {
        assert(digit_value(digit_char(n % 10)) == n % 10);
        let t0 = decimal_text(n);
        assert(t0.last() == digit_char(n % 10));
        assert(t0.drop_last() =~= decimal_text(n / 10));
        assert(decimal_value(t0) == decimal_value(decimal_text(n / 10)) * 10 + n % 10);
        assert(n == (n / 10) * 10 + n % 10);
        lemma_decimal_text(n / 10);
        let t = decimal_text(n);
        assert(t.drop_last() =~= decimal_text(n / 10));
        assert forall|i: int| 0 <= i < t.len() implies is_digit(#[trigger] t[i]) by {
            if i < t.len() - 1 {
                assert(t[i] == decimal_text(n / 10)[i]);
            }
        }
        assert(t[0] == decimal_text(n / 10)[0]);
    }
}

/// The one-character string of a decimal digit.
fn digit_str(d: u32) -> (r: &'static str)
    requires
        d < 10,
    ensures
        r@ == seq![digit_char(d as nat)],
{
    match d {
        0 => {
            proof { reveal_strlit("0"); }
            "0"
        },
        1 => {
            proof { reveal_strlit("1"); }
            "1"
        },
        2 => {
            proof { reveal_strlit("2"); }
            "2"
        },
        3 => {
            proof { reveal_strlit("3"); }
            "3"
        },
        4 => {
            proof { reveal_strlit("4"); }
            "4"
        },
        5 => {
            proof { reveal_strlit("5"); }
            "5"
        },
        6 => {
            proof { reveal_strlit("6"); }
            "6"
        },
        7 => {
            proof { reveal_strlit("7"); }
            "7"
        },
        8 => {
            proof { reveal_strlit("8"); }
            "8"
        },
        _ => {
            proof { reveal_strlit("9"); }
            "9"
        },
    }
}

/// Appends the decimal form of `n` to `out`.
pub fn push_decimal(out: &mut String, n: u32)
    ensures
        final(out)@ == old(out)@ + decimal_text(n as nat),
    decreases n,
{
    if n >= 10 {
        push_decimal(out, n / 10);
    }
    out.append(digit_str(n % 10));
    assert(out@ =~= old(out)@ + decimal_text(n as nat));
}

} // verus!
