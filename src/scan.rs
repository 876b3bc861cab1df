//! Reading the elapsed time back out of a log record.
//!
//! The rule: find the last `execution time=` marker in the line; after it
//! read a whole number, then optionally a point and fractional digits (only
//! the first nine are significant), then a unit suffix: `ns`, `us` or `µs`,
//! `ms`, `s`; any other suffix counts as microseconds. The quantity is
//! normalised to nanoseconds, rounding down.
use vstd::prelude::*;

use vstd::arithmetic::div_mod::lemma_hoist_over_denominator;

use crate::duration::{lemma_pow10_positive, pow10};

verus! {

pub open spec fn time_marker() -> Seq<char> {
    seq!['e', 'x', 'e', 'c', 'u', 't', 'i', 'o', 'n', ' ', 't', 'i', 'm', 'e', '=']
}

pub open spec fn is_digit(c: char) -> bool {
    '0' <= c && c <= '9'
}

pub open spec fn digit_value(c: char) -> nat {
    if is_digit(c) {
        (c as nat - '0' as nat) as nat
    } else {
        0
    }
}

/// The number that a run of decimal digits writes.
pub open spec fn digits_value(s: Seq<char>) -> nat
    decreases s.len(),
{
    if s.len() == 0 {
        0
    } else {
        digits_value(s.drop_last()) * 10 + digit_value(s.last())
    }
}

/// How many decimal digits follow one another in `s` from index `i` on.
pub open spec fn digit_run(s: Seq<char>, i: int) -> nat
    decreases s.len() - i,
{
    if 0 <= i < s.len() && is_digit(s[i]) {
        1 + digit_run(s, i + 1)
    } else {
        0
    }
}

/// The end of the last `execution time=` marker that ends at or before `j`.
pub open spec fn last_marker_end(s: Seq<char>, j: int) -> Option<int>
    decreases j,
{
    if j < time_marker().len() || j > s.len() {
        None
    } else if s.subrange(j - time_marker().len(), j) == time_marker() {
        Some(j)
    } else {
        last_marker_end(s, j - 1)
    }
}

/// Nanoseconds in one unit named by the text that follows a number.
pub open spec fn unit_scale(t: Seq<char>) -> nat {
    if t.len() >= 2 && t[0] == 'n' && t[1] == 's' {
        1
    } else if t.len() >= 2 && (t[0] == 'u' || t[0] == '\u{b5}') && t[1] == 's' {
        1_000
    } else if t.len() >= 2 && t[0] == 'm' && t[1] == 's' {
        1_000_000
    } else if t.len() >= 1 && t[0] == 's' {
        1_000_000_000
    } else {
        1_000
    }
}

/// Whether a point follows the `n` leading digits of `t`.
pub open spec fn has_point(t: Seq<char>, n: int) -> bool {
    n < t.len() && t[n] == '.'
}

/// The number of fractional digits after the point, if there is one.
pub open spec fn fraction_len(t: Seq<char>, n: int) -> nat {
    if has_point(t, n) {
        digit_run(t, n + 1)
    } else {
        0
    }
}

/// The significant fractional digits: at most nine.
pub open spec fn significant_len(t: Seq<char>, n: int) -> nat {
    if fraction_len(t, n) > 9 {
        9
    } else {
        fraction_len(t, n)
    }
}

/// Where the unit suffix begins.
pub open spec fn suffix_start(t: Seq<char>, n: int) -> int {
    if has_point(t, n) {
        n + 1 + fraction_len(t, n)
    } else {
        n
    }
}

/// The quantity at the start of `t`, in nanoseconds.
pub open spec fn scan_quantity(t: Seq<char>) -> Option<nat> {
    let n = digit_run(t, 0) as int;
    if n == 0 {
        None
    } else {
        let whole = digits_value(t.take(n));
        let k = significant_len(t, n);
        let sig = if has_point(t, n) {
            digits_value(t.subrange(n + 1, n + 1 + k))
        } else {
            0
        };
        Some(((whole * pow10(k) + sig) * unit_scale(t.skip(suffix_start(t, n)))) / pow10(k))
    }
}

/// The elapsed time of a log record, in nanoseconds, by the scanning rule.
pub open spec fn scanned_nanos(line: Seq<char>) -> Option<nat> {
    match last_marker_end(line, line.len() as int) {
        None => None,
        Some(j) => scan_quantity(line.skip(j)),
    }
}

proof fn lemma_last_marker_end_range(s: Seq<char>, j: int)
    ensures
        match last_marker_end(s, j) {
            Some(x) => time_marker().len() <= x <= j && x <= s.len(),
            None => true,
        },
    decreases j,
{
    if j >= time_marker().len() && j <= s.len() && s.subrange(j - time_marker().len(), j)
        != time_marker() {
        lemma_last_marker_end_range(s, j - 1);
    }
}

/// No marker ends where the text holds no `=`: the search passes over it.
pub(crate) proof fn lemma_last_marker_skips(s: Seq<char>, lo: int, j: int)
    requires
        time_marker().len() <= lo <= j <= s.len(),
        forall|q: int| lo <= q < j ==> s[q] != '=',
    ensures
        last_marker_end(s, j) == last_marker_end(s, lo),
    decreases j - lo,
{
    if j > lo {
        let w = s.subrange(j - time_marker().len(), j);
        assert(w[w.len() - 1] == s[j - 1]);
        assert(time_marker()[time_marker().len() - 1] == '=');
        assert(w != time_marker());
        lemma_last_marker_skips(s, lo, j - 1);
    }
}

pub(crate) proof fn lemma_digit_run_exact(s: Seq<char>, i: int, n: int)
    requires
        0 <= i <= n <= s.len(),
        forall|k: int| i <= k < n ==> is_digit(#[trigger] s[k]),
        n == s.len() || !is_digit(s[n]),
    ensures
        digit_run(s, i) == n - i,
    decreases n - i,
{
    if i < n {
        lemma_digit_run_exact(s, i + 1, n);
    }
}

proof fn lemma_digit_run_at_least(s: Seq<char>, i: int, n: int)
    requires
        0 <= i <= n <= s.len(),
        forall|k: int| i <= k < n ==> is_digit(#[trigger] s[k]),
    ensures
        digit_run(s, i) >= n - i,
    decreases n - i,
{
    if i < n {
        lemma_digit_run_at_least(s, i + 1, n);
    }
}

proof fn lemma_digit_run_bounded(s: Seq<char>, i: int)
    requires
        0 <= i <= s.len(),
    ensures
        i + digit_run(s, i) <= s.len(),
        forall|k: int| i <= k < i + digit_run(s, i) ==> is_digit(#[trigger] s[k]),
    decreases s.len() - i,
{
    if i < s.len() {
        lemma_digit_run_bounded(s, i + 1);
    }
}

proof fn lemma_digits_value_step(s: Seq<char>, i: int)
    requires
        0 <= i < s.len(),
    ensures
        digits_value(s.take(i + 1)) == digits_value(s.take(i)) * 10 + digit_value(s[i]),
{
    assert(s.take(i + 1).drop_last() =~= s.take(i));
}

proof fn lemma_digits_value_prefix(s: Seq<char>, a: int, b: int)
    requires
        0 <= a <= b <= s.len(),
    ensures
        digits_value(s.take(a)) <= digits_value(s.take(b)),
    decreases b - a,
{
    if a < b {
        lemma_digits_value_prefix(s, a, b - 1);
        lemma_digits_value_step(s, b - 1);
    }
}

proof fn lemma_digits_value_below(s: Seq<char>)
    ensures
        digits_value(s) < pow10(s.len()),
    decreases s.len(),
{
    if s.len() > 0 {
        lemma_digits_value_below(s.drop_last());
        let v = digits_value(s.drop_last());
        let p = pow10(s.drop_last().len());
        assert(v * 10 + digit_value(s.last()) < 10 * p) by (nonlinear_arith)
            requires
                v < p,
                digit_value(s.last()) < 10,
        ;
    }
}

proof fn lemma_pow10_monotone(a: nat, b: nat)
    requires
        a <= b,
    ensures
        pow10(a) <= pow10(b),
    decreases b - a,
{
    if a < b {
        lemma_pow10_monotone(a, (b - 1) as nat);
        lemma_pow10_positive((b - 1) as nat);
    }
}

/// Dividing out the scale of the fraction leaves the whole part intact.
pub(crate) proof fn lemma_split_quotient(w: nat, s: nat, u: nat, p: nat)
    requires
        p > 0,
    ensures
        ((w * p + s) * u) / p == w * u + (s * u) / p,
{
    assert((w * p + s) * u == s * u + (w * u) * p) by (nonlinear_arith);
    lemma_hoist_over_denominator((s * u) as int, (w * u) as int, p);
}

fn is_digit_char(c: char) -> (b: bool)
    ensures
        b == is_digit(c),
{
    '0' <= c && c <= '9'
}

fn digit_of(c: char) -> (d: u128)
    requires
        is_digit(c),
    ensures
        d == digit_value(c),
        d < 10,
{
    (c as u32 - '0' as u32) as u128
}

fn pow10_of(k: u32) -> (p: u128)
    requires
        k <= 9,
    ensures
        p == pow10(k as nat),
        1 <= p <= 1_000_000_000,
{
    proof {
        reveal_with_fuel(pow10, 10);
    }
    match k {
        0 => 1,
        1 => 10,
        2 => 100,
        3 => 1_000,
        4 => 10_000,
        5 => 100_000,
        6 => 1_000_000,
        7 => 10_000_000,
        8 => 100_000_000,
        _ => 1_000_000_000,
    }
}

/// Whether the marker ends just before index `j` of `line`.
fn marker_ends_at(line: &str, j: usize) -> (b: bool)
    requires
        time_marker().len() <= j <= line@.len(),
    ensures
        b == (line@.subrange(j - time_marker().len(), j as int) == time_marker()),
{
    let marker = "execution time=";
    proof {
        reveal_strlit("execution time=");
    }
    assert(marker@ =~= time_marker());
    let start = j - 15;
    let mut i: usize = 0;
    while i < 15
        invariant
            i <= 15,
            start + 15 == j,
            j <= line@.len(),
            marker@ == time_marker(),
            forall|k: int| 0 <= k < i ==> line@[start + k] == time_marker()[k],
        decreases 15 - i,
    {
        if line.get_char(start + i) != marker.get_char(i) {
            assert(line@.subrange(start as int, j as int)[i as int] != time_marker()[i as int]);
            return false;
        }
        i += 1;
    }
    assert(line@.subrange(start as int, j as int) =~= time_marker());
    true
}

/// The end of the last marker in `line`.
fn find_last_marker(line: &str, len: usize) -> (r: Option<usize>)
    requires
        len == line@.len(),
    ensures
        match r {
            None => last_marker_end(line@, len as int) is None,
            Some(j) => last_marker_end(line@, len as int) == Some(j as int) && j <= len,
        },
{
    proof {
        lemma_last_marker_end_range(line@, len as int);
    }
    let mut j: usize = len;
    while j >= 15
        invariant
            j <= len,
            len == line@.len(),
            last_marker_end(line@, len as int) == last_marker_end(line@, j as int),
        decreases j,
    {
        if marker_ends_at(line, j) {
            return Some(j);
        }
        j -= 1;
    }
    None
}

/// Nanoseconds in the unit named from index `e` of `line` on.
fn unit_at(line: &str, e: usize, len: usize) -> (u: u128)
    requires
        len == line@.len(),
        e <= len,
    ensures
        u == unit_scale(line@.skip(e as int)),
{
    let ghost t = line@.skip(e as int);
    if e < len && len - e >= 2 {
        let a = line.get_char(e);
        let b = line.get_char(e + 1);
        assert(t[0] == a && t[1] == b);
        if a == 'n' && b == 's' {
            return 1;
        } else if (a == 'u' || a == '\u{b5}') && b == 's' {
            return 1_000;
        } else if a == 'm' && b == 's' {
            return 1_000_000;
        }
    }
    if e < len && line.get_char(e) == 's' {
        return 1_000_000_000;
    }
    1_000
}

/// The elapsed time of a log record in nanoseconds, read by the scanning
/// rule; `None` where the rule finds no quantity, or where it does not fit in
/// a `u128`.
pub fn parse_execution_time(line: &str) -> (r: Option<u128>)
    ensures
        match scanned_nanos(line@) {
            None => r is None,
            Some(v) => if v <= u128::MAX {
                r == Some(v as u128)
            } else {
                r is None
            },
        },
{
    let len = line.unicode_len();
    let j = match find_last_marker(line, len) {
        None => return None,
        Some(j) => j,
    };
    let ghost t = line@.skip(j as int);
    assert(t.len() == len - j);
    assert(scanned_nanos(line@) == scan_quantity(t));
    let mut i: usize = j;
    let mut whole: u128 = 0;
    while i < len && is_digit_char(line.get_char(i))
        invariant
            j <= i <= len,
            len == line@.len(),
            t == line@.skip(j as int),
            scanned_nanos(line@) == scan_quantity(t),
            forall|k: int| 0 <= k < i - j ==> is_digit(#[trigger] t[k]),
            whole == digits_value(t.take(i - j)),
        decreases len - i,
    {
        let c = line.get_char(i);
        assert(t[i - j] == c);
        let d = digit_of(c);
        proof {
            lemma_digits_value_step(t, i - j);
        }
        if whole > (u128::MAX - d) / 10 {
            proof {
                assert(is_digit(t[i - j]));
                lemma_digit_run_at_least(t, 0, i - j + 1);
                assert(whole * 10 + d > u128::MAX) by (nonlinear_arith)
                    requires
                        whole > (u128::MAX - d) / 10,
                        d < 10,
                ;
                let n = digit_run(t, 0) as int;
                lemma_digit_run_bounded(t, 0);
                lemma_digits_value_prefix(t, i - j + 1, n);
                let w = digits_value(t.take(n));
                let k = significant_len(t, n);
                if has_point(t, n) {
                    lemma_digit_run_bounded(t, n + 1);
                }
                let sig: nat = if has_point(t, n) {
                    digits_value(t.subrange(n + 1, n + 1 + k))
                } else {
                    0
                };
                let u = unit_scale(t.skip(suffix_start(t, n)));
                lemma_pow10_positive(k);
                lemma_split_quotient(w, sig, u, pow10(k));
                assert(w * u >= w) by (nonlinear_arith)
                    requires
                        u >= 1,
                ;
                assert(w > u128::MAX);
                assert(scan_quantity(t) == Some(((w * pow10(k) + sig) * u) / pow10(k)));
            }
            return None;
        }
        whole = whole * 10 + d;
        i += 1;
    }
    let n: usize = i - j;
    proof {
        lemma_digit_run_exact(t, 0, n as int);
    }
    if n == 0 {
        return None;
    }
    assert(t.take(n as int) == t.take(i - j));
    let point = i < len && line.get_char(i) == '.';
    assert(point == has_point(t, n as int));
    let mut e: usize = i;
    let mut k: u32 = 0;
    let mut sig: u128 = 0;
    if point {
        e = i + 1;
        while e < len && is_digit_char(line.get_char(e))
            invariant
                i + 1 <= e <= len,
                n == i - j,
                len == line@.len(),
                t == line@.skip(j as int),
                forall|q: int| n + 1 <= q < e - j ==> is_digit(#[trigger] t[q]),
                k <= 9,
                k == (if e - i - 1 > 9 { 9 } else { e - i - 1 }),
                sig == digits_value(t.subrange(n + 1, n + 1 + k)),
            decreases len - e,
        {
            let c = line.get_char(e);
            assert(t[e - j] == c);
            if k < 9 {
                let d = digit_of(c);
                let ghost f = t.subrange(n + 1, e - j + 1);
                proof {
                    lemma_digits_value_step(f, k as int);
                    assert(f.take(k as int) =~= t.subrange(n + 1, n + 1 + k));
                    assert(f.take(k + 1) =~= t.subrange(n + 1, n + 1 + k + 1));
                    lemma_digits_value_below(t.subrange(n + 1, n + 1 + k));
                    lemma_pow10_monotone(k as nat, 8);
                    reveal_with_fuel(pow10, 9);
                }
                sig = sig * 10 + d;
                k += 1;
            }
            e += 1;
        }
        proof {
            lemma_digit_run_exact(t, n + 1, e - j);
        }
    }
    assert(k == significant_len(t, n as int));
    assert(n + 1 + k <= t.len() || !point);
    assert(e - j == suffix_start(t, n as int));
    let u = unit_at(line, e, len);
    assert(line@.skip(e as int) =~= t.skip(e - j));
    let p = pow10_of(k);
    proof {
        lemma_split_quotient(whole as nat, sig as nat, u as nat, p as nat);
        if !point {
            assert(sig == 0);
        }
    }
    if whole > u128::MAX / u {
        assert(whole * u > u128::MAX) by (nonlinear_arith)
            requires
                whole > u128::MAX / u,
                u > 0,
        ;
        return None;
    }
    assert(whole * u <= u128::MAX) by (nonlinear_arith)
        requires
            whole <= u128::MAX / u,
            u > 0,
    ;
    let a = whole * u;
    proof {
        lemma_digits_value_below(t.subrange(n + 1, n + 1 + k));
        assert(sig * u <= 1_000_000_000 * 1_000_000_000) by (nonlinear_arith)
            requires
                sig <= 1_000_000_000,
                u <= 1_000_000_000,
        ;
    }
    let b = sig * u / p;
    if a > u128::MAX - b {
        return None;
    }
    Some(a + b)
}

} // verus!
