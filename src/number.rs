//! Reading numerals out of sampler text as fixed-point integers.
//!
//! A decimal figure `v` read "at scale `k`" is `floor(v * 10^k)`: a percent at
//! scale 2 is in hundredths of a percent, a rate at scale 3 in thousandths.

use vstd::prelude::*;
use crate::text::{in_class, is_digit, lemma_run_end, run_end, skip_run, CharClass};

verus! {

pub open spec fn digit_value(c: char) -> nat {
    ((c as u32) - ('0' as u32)) as nat
}

/// The value of a string of decimal digits.
pub open spec fn digits_value(t: Seq<char>) -> nat
    decreases t.len(),
{
    if t.len() == 0 {
        0
    } else {
        digits_value(t.drop_last()) * 10 + digit_value(t.last())
    }
}

pub open spec fn all_digits(t: Seq<char>) -> bool {
    forall|j: int| 0 <= j < t.len() ==> is_digit(#[trigger] t[j])
}

/// Where the leading digits of `t` end.
pub open spec fn point_pos(t: Seq<char>) -> int {
    run_end(t, 0, CharClass::Digit)
}

/// `t` is an unsigned decimal numeral: digits with at most one point, and
/// at least one digit (`12`, `12.5`, `12.`, `.5`).
pub open spec fn is_decimal(t: Seq<char>) -> bool {
    let p = point_pos(t);
    ||| (p == t.len() && p > 0)
    ||| (p < t.len() && t[p] == '.' && run_end(t, p + 1, CharClass::Digit) == t.len() && t.len()
        >= 2)
}

pub open spec fn int_digits(t: Seq<char>) -> Seq<char> {
    t.take(point_pos(t))
}

pub open spec fn frac_digits(t: Seq<char>) -> Seq<char> {
    if point_pos(t) < t.len() {
        t.skip(point_pos(t) + 1)
    } else {
        Seq::empty()
    }
}

/// The first `k` digits of `f`, with zeros after its end.
pub open spec fn padded(f: Seq<char>, k: nat) -> Seq<char> {
    Seq::new(k, |j: int| if j < f.len() { f[j] } else { '0' })
}

/// `floor(v * 10^k)` for the decimal numeral `t` of value `v`.
pub open spec fn scaled_value(t: Seq<char>, k: nat) -> nat {
    digits_value(int_digits(t) + padded(frac_digits(t), k))
}

pub open spec fn min_nat(a: nat, b: nat) -> nat {
    if a <= b {
        a
    } else {
        b
    }
}

/// What reading `t` at scale `k` gives: its scaled value, held to `u64::MAX`,
/// or `None` when `t` is no decimal numeral.
pub open spec fn read_scaled(t: Seq<char>, k: nat) -> Option<u64> {
    if is_decimal(t) {
        Some(min_nat(scaled_value(t, k), u64::MAX as nat) as u64)
    } else {
        None
    }
}

proof fn lemma_saturate_step(x: nat, d: nat, m: nat)
    requires
        d <= 9,
    ensures
        min_nat(min_nat(x, m) * 10 + d, m) == min_nat(x * 10 + d, m),
{
}

proof fn lemma_digits_push(t: Seq<char>, c: char)
    ensures
        digits_value(t.push(c)) == digits_value(t) * 10 + digit_value(c),
{
    assert(t.push(c).drop_last() =~= t);
}

/// One more digit on a saturated accumulator.
pub(crate) fn push_digit(acc: u64, c: char) -> (r: u64)
    requires
        is_digit(c),
    ensures
        r as nat == min_nat(acc as nat * 10 + digit_value(c), u64::MAX as nat),
{
    let d = (c as u32 - '0' as u32) as u128;
    let v: u128 = acc as u128 * 10 + d;
    if v > u64::MAX as u128 {
        u64::MAX
    } else {
        v as u64
    }
}

/// Reads `s[a..b]` as a decimal numeral at scale `k`.
pub fn scaled_decimal(s: &Vec<char>, a: usize, b: usize, k: usize) -> (r: Option<u64>)
    requires
        a <= b <= s.len(),
    ensures
        r == read_scaled(s@.subrange(a as int, b as int), k as nat),
{
    let ghost t = s@.subrange(a as int, b as int);
    let p = skip_run(s, a, CharClass::Digit);
    proof {
        lemma_run_end(s@, a as int, CharClass::Digit);
        lemma_run_end(t, 0, CharClass::Digit);
        lemma_run_end_sub(s@, a as int, b as int, a as int, CharClass::Digit);
    }
    let ghost pp = point_pos(t);
    let pe: usize = if p < b { p } else { b };
    assert(pp == pe - a);
    let mut frac_start: usize = b;
    if pe < b {
        if s[pe] != '.' || b - a < 2 {
            return None;
        }
        let q = skip_run(s, pe + 1, CharClass::Digit);
        proof {
            lemma_run_end(s@, pe + 1, CharClass::Digit);
            lemma_run_end(t, pp + 1, CharClass::Digit);
            lemma_run_end_sub(s@, a as int, b as int, pe + 1, CharClass::Digit);
        }
        if q < b {
            return None;
        }
        frac_start = pe + 1;
    } else if pe == a {
        return None;
    }
    assert(is_decimal(t));
    let ghost whole = int_digits(t) + padded(frac_digits(t), k as nat);
    assert(int_digits(t) =~= s@.subrange(a as int, pe as int));
    assert(frac_digits(t) =~= s@.subrange(frac_start as int, b as int));
    let mut acc: u64 = 0;
    let mut i: usize = a;
    while i < pe
        invariant
            a <= i <= pe <= b <= s.len(),
            pe == a + pp,
            int_digits(t) =~= s@.subrange(a as int, pe as int),
            whole == int_digits(t) + padded(frac_digits(t), k as nat),
            forall|j: int| a <= j < pe ==> is_digit(#[trigger] s@[j]),
            acc as nat == min_nat(digits_value(whole.take(i - a)), u64::MAX as nat),
        decreases pe - i,
    {
        assert(whole.take(i - a + 1) =~= whole.take(i - a).push(s@[i as int]));
        proof {
            lemma_digits_push(whole.take(i - a), s@[i as int]);
            lemma_saturate_step(digits_value(whole.take(i - a)), digit_value(s@[i as int]), u64::MAX as nat);
        }
        acc = push_digit(acc, s[i]);
        i = i + 1;
    }
    let mut j: usize = 0;
    while j < k
        invariant
            j <= k,
            a <= pe <= b <= s.len(),
            pe <= frac_start <= b,
            pe == a + pp,
            int_digits(t).len() == pe - a,
            frac_digits(t) =~= s@.subrange(frac_start as int, b as int),
            forall|q: int| frac_start <= q < b ==> is_digit(#[trigger] s@[q]),
            whole == int_digits(t) + padded(frac_digits(t), k as nat),
            acc as nat == min_nat(digits_value(whole.take(pe - a + j)), u64::MAX as nat),
        decreases k - j,
    {
        let c = if j < b - frac_start { s[frac_start + j] } else { '0' };
        assert(whole[pe - a + j] == c);
        assert(whole.take(pe - a + j + 1) =~= whole.take(pe - a + j).push(c));
        proof {
            lemma_digits_push(whole.take(pe - a + j), c);
            lemma_saturate_step(digits_value(whole.take(pe - a + j)), digit_value(c), u64::MAX as nat);
        }
        acc = push_digit(acc, c);
        j = j + 1;
    }
    assert(whole.take(pe - a + k) =~= whole);
    Some(acc)
}

/// A run computed within `s[a..b]` is the run computed within `s`, cut at `b`.
pub proof fn lemma_run_end_sub(s: Seq<char>, a: int, b: int, i: int, k: CharClass)
    requires
        0 <= a <= i <= b <= s.len(),
    ensures
        run_end(s.subrange(a, b), i - a, k) + a == if run_end(s, i, k) < b {
            run_end(s, i, k)
        } else {
            b
        },
    decreases b - i,
{
    lemma_run_end(s, i, k);
    if i < b {
        assert(s.subrange(a, b)[i - a] == s[i]);
        if in_class(s[i], k) {
            lemma_run_end_sub(s, a, b, i + 1, k);
        }
    }
}

} // verus!

verus! {

/// A whole percent as the record holds it: the figure rounded down and held
/// to `i32::MAX`; 0 when it could not be read.
pub open spec fn whole_percent(r: Option<u64>) -> i32 {
    match r {
        Some(v) => if v <= i32::MAX {
            v as i32
        } else {
            i32::MAX
        },
        None => 0,
    }
}

/// A frequency in MHz as the record holds it: 0 when it could not be read
/// or does not fit an `i32`.
pub open spec fn whole_mhz(r: Option<u64>) -> i32 {
    match r {
        Some(v) => if v <= i32::MAX {
            v as i32
        } else {
            0
        },
        None => 0,
    }
}

/// A figure read at some scale, 0 when it could not be read.
pub open spec fn or_zero(r: Option<u64>) -> u64 {
    match r {
        Some(v) => v,
        None => 0,
    }
}

pub fn to_whole_percent(r: Option<u64>) -> (p: i32)
    ensures
        p == whole_percent(r),
{
    match r {
        Some(v) => if v <= i32::MAX as u64 {
            v as i32
        } else {
            i32::MAX
        },
        None => 0,
    }
}

pub fn to_whole_mhz(r: Option<u64>) -> (p: i32)
    ensures
        p == whole_mhz(r),
{
    match r {
        Some(v) => if v <= i32::MAX as u64 {
            v as i32
        } else {
            0
        },
        None => 0,
    }
}

pub fn to_or_zero(r: Option<u64>) -> (p: u64)
    ensures
        p == or_zero(r),
{
    match r {
        Some(v) => v,
        None => 0,
    }
}

} // verus!
