//! Text of an elapsed time.
//!
//! A duration is written in the largest of seconds, milliseconds,
//! microseconds and nanoseconds that it reaches, as a whole number of that
//! unit followed, when the remainder is not zero, by a point and every
//! significant fractional digit (no trailing zeros). The text therefore gives
//! the number of nanoseconds exactly: `999ns`, `1µs`, `1.5µs`, `12.000034ms`,
//! `2s`, `3.1s`.
use vstd::prelude::*;

use vstd::arithmetic::div_mod::{lemma_div_by_multiple, lemma_fundamental_div_mod};

use crate::scan::{
    digit_run,
    digit_value,
    digits_value,
    fraction_len,
    has_point,
    is_digit,
    lemma_digit_run_exact,
    lemma_split_quotient,
    scan_quantity,
    significant_len,
    suffix_start,
    unit_scale,
};
use crate::text::{decimal, digit_char, padded, push_char, push_decimal, push_padded};

verus! {

pub open spec fn pow10(e: nat) -> nat
    decreases e,
{
    if e == 0 {
        1
    } else {
        10 * pow10((e - 1) as nat)
    }
}

/// The power of ten, in nanoseconds, of the unit chosen for `n` nanoseconds.
pub open spec fn unit_exponent(n: nat) -> nat {
    if n >= 1_000_000_000 {
        9
    } else if n >= 1_000_000 {
        6
    } else if n >= 1_000 {
        3
    } else {
        0
    }
}

pub open spec fn unit_suffix(e: nat) -> Seq<char> {
    if e == 9 {
        seq!['s']
    } else if e == 6 {
        seq!['m', 's']
    } else if e == 3 {
        seq!['\u{b5}', 's']
    } else {
        seq!['n', 's']
    }
}

/// `r` written with `k` fractional digits, after dropping trailing zeros:
/// the remaining digits and their count.
pub open spec fn trimmed(r: nat, k: nat) -> (nat, nat)
    decreases k,
{
    if k > 0 && r % 10 == 0 {
        trimmed(r / 10, (k - 1) as nat)
    } else {
        (r, k)
    }
}

/// The fractional part `.ddd` of a remainder `r` below `10^e`; empty when `r` is zero.
pub open spec fn fraction_text(r: nat, e: nat) -> Seq<char> {
    if r == 0 {
        Seq::empty()
    } else {
        seq!['.'] + padded(trimmed(r, e).0, trimmed(r, e).1)
    }
}

/// The text of a duration of `n` nanoseconds.
pub open spec fn duration_text(n: nat) -> Seq<char> {
    let e = unit_exponent(n);
    decimal(n / pow10(e)) + fraction_text(n % pow10(e), e) + unit_suffix(e)
}

pub proof fn lemma_pow10_positive(e: nat)
    ensures
        pow10(e) >= 1,
    decreases e,
{
    if e > 0 {
        lemma_pow10_positive((e - 1) as nat);
    }
}

pub proof fn lemma_pow10_add(a: nat, b: nat)
    ensures
        pow10(a + b) == pow10(a) * pow10(b),
    decreases a,
{
    if a > 0 {
        let c = (a - 1) as nat;
        lemma_pow10_add(c, b);
        let x = pow10(c);
        let y = pow10(b);
        assert(pow10(c + b) == x * y);
        assert((a + b - 1) as nat == c + b);
        assert(pow10(a + b) == 10 * pow10(c + b));
        assert(pow10(a) == 10 * x);
        assert(pow10(a + b) == pow10(a) * pow10(b)) by (nonlinear_arith)
            requires
                pow10(a + b) == 10 * (x * y),
                pow10(a) == 10 * x,
                pow10(b) == y,
        ;
    } else {
        assert(pow10(a) == 1);
        assert(pow10(a + b) == pow10(b));
        assert(pow10(a + b) == pow10(a) * pow10(b)) by (nonlinear_arith)
            requires
                pow10(a) == 1,
                pow10(a + b) == pow10(b),
        ;
    }
}

proof fn lemma_digit_char(d: nat)
    requires
        d < 10,
    ensures
        is_digit(digit_char(d)),
        digit_value(digit_char(d)) == d,
{
}

/// The decimal text is made of digits and writes `n`.
pub proof fn lemma_decimal(n: nat)
    ensures
        decimal(n).len() >= 1,
        forall|i: int| 0 <= i < decimal(n).len() ==> is_digit(#[trigger] decimal(n)[i]),
        digits_value(decimal(n)) == n,
    decreases n,
{
    lemma_digit_char(n % 10);
    if n >= 10 {
        lemma_decimal(n / 10);
        assert(decimal(n).drop_last() =~= decimal(n / 10));
        assert(decimal(n).last() == digit_char(n % 10));
        lemma_fundamental_div_mod(n as int, 10);
        assert(digits_value(decimal(n)) == digits_value(decimal(n / 10)) * 10 + digit_value(
            digit_char(n % 10),
        ));
    } else {
        assert(decimal(n).drop_last() =~= Seq::<char>::empty());
        assert(decimal(n).last() == digit_char(n % 10));
        assert(n % 10 == n);
        assert(digits_value(decimal(n)) == digits_value(Seq::<char>::empty()) * 10 + digit_value(
            digit_char(n % 10),
        ));
    }
}

/// The padded text has `w` digits and writes `n` modulo `10^w`.
pub proof fn lemma_padded(n: nat, w: nat)
    ensures
        padded(n, w).len() == w,
        forall|i: int| 0 <= i < w ==> is_digit(#[trigger] padded(n, w)[i]),
        digits_value(padded(n, w)) == n % pow10(w),
    decreases w,
{
    if w > 0 {
        let m = (w - 1) as nat;
        lemma_padded(n / 10, m);
        lemma_digit_char(n % 10);
        assert(padded(n, w).drop_last() =~= padded(n / 10, m));
        lemma_pow10_positive(m);
        let p = pow10(m);
        assert(((n / 10) % p) * 10 + n % 10 == n % (10 * p)) by {
            lemma_fundamental_div_mod(n as int, 10);
            lemma_fundamental_div_mod((n / 10) as int, p as int);
            lemma_fundamental_div_mod(n as int, (10 * p) as int);
            vstd::arithmetic::div_mod::lemma_mod_breakdown(n as int, 10, p as int);
            vstd::arithmetic::mul::lemma_mul_is_commutative(10, p as int);
        }
    }
}

/// Dropping trailing zeros keeps the value: `r == f * 10^(e - k)`; a nonzero
/// remainder below `10^e` keeps at least one digit, and fewer than `10^k`.
pub proof fn lemma_trimmed(r: nat, e: nat)
    ensures
        trimmed(r, e).1 <= e,
        trimmed(r, e).0 * pow10((e - trimmed(r, e).1) as nat) == r,
        0 < r < pow10(e) ==> trimmed(r, e).1 >= 1 && trimmed(r, e).0 < pow10(trimmed(r, e).1),
    decreases e,
{
    let (f, k) = trimmed(r, e);
    if e > 0 && r % 10 == 0 {
        lemma_trimmed(r / 10, (e - 1) as nat);
        lemma_fundamental_div_mod(r as int, 10);
        let m = (e - 1 - k) as nat;
        assert(pow10((e - k) as nat) == 10 * pow10(m));
        assert(f * (10 * pow10(m)) == 10 * (f * pow10(m))) by (nonlinear_arith);
        assert(trimmed(r, e) == trimmed(r / 10, (e - 1) as nat));
        assert(f * pow10(m) == r / 10);
        assert(f * pow10((e - k) as nat) == r);
        if 0 < r < pow10(e) {
            assert(r / 10 < pow10((e - 1) as nat));
        }
    } else {
        assert(pow10(0) == 1);
        assert(trimmed(r, e) == (r, e));
        assert(pow10((e - e) as nat) == 1);
        assert(r * pow10((e - e) as nat) == r) by (nonlinear_arith)
            requires
                pow10((e - e) as nat) == 1,
        ;
        if 0 < r < pow10(e) {
            assert(e != 0);
        }
    }
}

proof fn lemma_unit_suffix(n: nat)
    ensures
        unit_suffix(unit_exponent(n)).len() >= 1,
        !is_digit(unit_suffix(unit_exponent(n))[0]),
        unit_suffix(unit_exponent(n))[0] != '.',
        forall|i: int|
            0 <= i < unit_suffix(unit_exponent(n)).len() ==> duration_char(
                #[trigger] unit_suffix(unit_exponent(n))[i],
            ),
        unit_scale(unit_suffix(unit_exponent(n))) == pow10(unit_exponent(n)),
        unit_exponent(n) <= 9,
{
    reveal_with_fuel(pow10, 10);
}

/// A character that the text of a duration is written with.
pub open spec fn duration_char(c: char) -> bool {
    is_digit(c) || c == '.' || c == 's' || c == 'm' || c == '\u{b5}' || c == 'n'
}

/// The text of a duration holds digits, the point and unit letters only.
pub proof fn lemma_duration_text_chars(n: nat)
    ensures
        forall|i: int| 0 <= i < duration_text(n).len() ==> duration_char(#[trigger] duration_text(n)[i]),
{
    let e = unit_exponent(n);
    let p = pow10(e);
    lemma_pow10_positive(e);
    let dec = decimal(n / p);
    let frac = fraction_text(n % p, e);
    let unit = unit_suffix(e);
    lemma_decimal(n / p);
    lemma_unit_suffix(n);
    if n % p != 0 {
        let t = trimmed(n % p, e);
        lemma_padded(t.0, t.1);
        assert(forall|i: int| 0 <= i < frac.len() ==> duration_char(#[trigger] frac[i])) by {
            assert forall|i: int| 0 <= i < frac.len() implies duration_char(#[trigger] frac[i]) by {
                if i > 0 {
                    assert(frac[i] == padded(t.0, t.1)[i - 1]);
                }
            }
        }
    }
    let d = duration_text(n);
    assert(d == dec + frac + unit);
    assert forall|i: int| 0 <= i < d.len() implies duration_char(#[trigger] d[i]) by {
        if i < dec.len() {
            assert(d[i] == dec[i]);
        } else if i < dec.len() + frac.len() {
            assert(d[i] == frac[i - dec.len()]);
        } else {
            assert(d[i] == unit[i - dec.len() - frac.len()]);
        }
    }
}

/// The scanning rule reads back exactly the nanoseconds that the text of a
/// duration writes.
pub proof fn lemma_scan_duration_text(n: nat)
    ensures
        scan_quantity(duration_text(n)) == Some(n),
{
    let e = unit_exponent(n);
    let p = pow10(e);
    lemma_pow10_positive(e);
    let q = n / p;
    let r = n % p;
    let dec = decimal(q);
    let frac = fraction_text(r, e);
    let unit = unit_suffix(e);
    let d = duration_text(n);
    lemma_decimal(q);
    lemma_unit_suffix(n);
    lemma_fundamental_div_mod(n as int, p as int);
    assert(d == dec + frac + unit);
    let m = dec.len() as int;
    assert forall|i: int| 0 <= i < m implies is_digit(#[trigger] d[i]) by {
        assert(d[i] == dec[i]);
    }
    assert(d.take(m) =~= dec);
    if r == 0 {
        assert(d =~= dec + unit);
        assert(d[m] == unit[0]);
        lemma_digit_run_exact(d, 0, m);
        assert(!has_point(d, m));
        assert(fraction_len(d, m) == 0);
        assert(significant_len(d, m) == 0);
        assert(d.skip(suffix_start(d, m)) =~= unit);
        assert(pow10(0) == 1);
        assert(((q * 1 + 0) * p) / 1 == n) by (nonlinear_arith)
            requires
                n == p * q + 0,
        ;
    } else {
        let t = trimmed(r, e);
        let f = t.0;
        let k = t.1;
        lemma_trimmed(r, e);
        let pad = padded(f, k);
        lemma_padded(f, k);
        lemma_pow10_positive(k);
        vstd::arithmetic::div_mod::lemma_small_mod(f, pow10(k));
        assert(d =~= dec + seq!['.'] + pad + unit);
        assert(d[m] == '.');
        lemma_digit_run_exact(d, 0, m);
        assert(has_point(d, m));
        assert forall|i: int| m + 1 <= i < m + 1 + k implies is_digit(#[trigger] d[i]) by {
            assert(d[i] == pad[i - m - 1]);
        }
        assert(d[m + 1 + k] == unit[0]);
        lemma_digit_run_exact(d, m + 1, m + 1 + k);
        assert(fraction_len(d, m) == k);
        assert(significant_len(d, m) == k);
        assert(d.subrange(m + 1, m + 1 + k) =~= pad);
        assert(d.skip(suffix_start(d, m)) =~= unit);
        let pk = pow10(k);
        let rest = pow10((e - k) as nat);
        lemma_pow10_add(k, (e - k) as nat);
        lemma_split_quotient(q, f, p, pk);
        assert(f * p == (f * rest) * pk) by (nonlinear_arith)
            requires
                p == pk * rest,
        ;
        lemma_div_by_multiple((f * rest) as int, pk as int);
        assert(((q * pk + f) * p) / pk == n);
    }
}

/// Appends the text of a duration of `nanos` nanoseconds.
pub fn push_duration(s: &mut String, nanos: u128)
    ensures
        final(s)@ == old(s)@ + duration_text(nanos as nat),
{
    let ghost n = nanos as nat;
    let e: u32;
    let p: u128;
    if nanos >= 1_000_000_000 {
        e = 9;
        p = 1_000_000_000;
    } else if nanos >= 1_000_000 {
        e = 6;
        p = 1_000_000;
    } else if nanos >= 1_000 {
        e = 3;
        p = 1_000;
    } else {
        e = 0;
        p = 1;
    }
    assert(e == unit_exponent(n));
    assert(p == pow10(e as nat)) by {
        reveal_with_fuel(pow10, 10);
    }
    push_decimal(s, nanos / p);
    let ghost mid = s@;
    let r = nanos % p;
    if r != 0 {
        let mut f: u128 = r;
        let mut k: u32 = e;
        while k > 0 && f % 10 == 0
            invariant
                trimmed(f as nat, k as nat) == trimmed(r as nat, e as nat),
                k <= e,
            decreases k,
        {
            f = f / 10;
            k = k - 1;
        }
        push_char(s, '.');
        push_padded(s, f, k);
        assert(s@ =~= mid + fraction_text(r as nat, e as nat));
    } else {
        assert(s@ =~= mid + fraction_text(r as nat, e as nat));
    }
    let ghost before_unit = s@;
    if e == 9 {
        push_char(s, 's');
    } else {
        if e == 6 {
            push_char(s, 'm');
        } else if e == 3 {
            push_char(s, '\u{b5}');
        } else {
            push_char(s, 'n');
        }
        push_char(s, 's');
    }
    assert(s@ =~= before_unit + unit_suffix(e as nat));
    assert(s@ =~= old(s)@ + duration_text(n));
}

/// The text of a duration of `nanos` nanoseconds.
pub fn format_duration(nanos: u128) -> (r: String)
    ensures
        r@ == duration_text(nanos as nat),
{
    let mut s = String::new();
    push_duration(&mut s, nanos);
    assert(s@ =~= duration_text(nanos as nat));
    s
}

} // verus!
