//! Exact reading of floating-point numerals, as `str::parse::<f64>` writes
//! them, into unsigned integers: the value times a multiplier, rounded down
//! and held to `u64::MAX`, without any rounding of the digits on the way.

use vstd::arithmetic::div_mod::{
    lemma_div_denominator, lemma_div_is_ordered, lemma_fundamental_div_mod,
    lemma_fundamental_div_mod_converse,
};
use vstd::prelude::*;
use crate::number::{
    all_digits, digit_value, digits_value, frac_digits, int_digits, is_decimal,
    lemma_run_end_sub, min_nat, point_pos, push_digit, scaled_decimal,
};
use crate::text::{
    is_digit, is_in_class, lemma_run_end, run_end, skip_run, slice_chars, CharClass,
};

verus! {

pub open spec fn pow10(n: nat) -> nat
    decreases n,
{
    if n == 0 {
        1
    } else {
        10 * pow10((n - 1) as nat)
    }
}

/// `x`, held to `u64::MAX`.
pub open spec fn cap(x: nat) -> u64 {
    if x > u64::MAX {
        u64::MAX
    } else {
        x as u64
    }
}

/// `floor(x * 10^e)`.
pub open spec fn shifted(x: nat, e: int) -> nat {
    if e >= 0 {
        x * pow10(e as nat)
    } else {
        x / pow10((-e) as nat)
    }
}

pub proof fn lemma_pow10(n: nat, k: nat)
    ensures
        pow10(n) > 0,
        n <= k ==> pow10(n) <= pow10(k),
        pow10(n + 1) == pow10(n) * 10,
    decreases k,
{
    lemma_pow10_pos(n);
    if k > 0 && n < k {
        lemma_pow10(n, (k - 1) as nat);
        lemma_pow10_pos((k - 1) as nat);
    }
}

proof fn lemma_pow10_pos(n: nat)
    ensures
        pow10(n) > 0,
    decreases n,
{
    if n > 0 {
        lemma_pow10_pos((n - 1) as nat);
    }
}

pub proof fn lemma_digits_concat(a: Seq<char>, b: Seq<char>)
    ensures
        digits_value(a + b) == digits_value(a) * pow10(b.len()) + digits_value(b),
    decreases b.len(),
{
    if b.len() == 0 {
        assert(a + b =~= a);
        assert(pow10(0) == 1);
        assert(digits_value(b) == 0);
    } else {
        let b1 = b.drop_last();
        assert((a + b).drop_last() =~= a + b1);
        assert((a + b).last() == b.last());
        lemma_digits_concat(a, b1);
        lemma_pow10(b1.len(), 0);
        let x = digits_value(a);
        let p = pow10(b1.len());
        let y = digits_value(b1);
        assert(digits_value(a + b) == digits_value(a + b1) * 10 + digit_value(b.last()));
        assert(digits_value(b) == y * 10 + digit_value(b.last()));
        assert(pow10(b.len()) == p * 10);
        assert((x * p + y) * 10 + digit_value(b.last()) == x * (p * 10) + (y * 10 + digit_value(
            b.last(),
        ))) by (nonlinear_arith);
    }
}

pub proof fn lemma_digits_bound(t: Seq<char>)
    requires
        all_digits(t),
    ensures
        digits_value(t) < pow10(t.len()),
    decreases t.len(),
{
    if t.len() > 0 {
        let t1 = t.drop_last();
        assert(all_digits(t1)) by {
            assert forall|j: int| 0 <= j < t1.len() implies is_digit(#[trigger] t1[j]) by {
                assert(t1[j] == t[j]);
            }
        }
        lemma_digits_bound(t1);
        lemma_pow10(t1.len(), 0);
        assert(is_digit(t[t.len() - 1]));
        let v = digits_value(t1);
        let p = pow10(t1.len());
        assert(v * 10 + digit_value(t.last()) < p * 10) by (nonlinear_arith)
            requires
                v < p,
                digit_value(t.last()) <= 9,
        ;
    }
}

/// Dividing `h * 10^s + t` (with `t < 10^s`) times `m` by `10^s`.
proof fn lemma_split_div(h: nat, t: nat, m: nat, p: nat)
    requires
        p > 0,
        t < p,
    ensures
        (h * p + t) * m / p == h * m + t * m / p,
{
    let c = t * m / p;
    let r = t * m % p;
    lemma_fundamental_div_mod((t * m) as int, p as int);
    assert((h * p + t) * m == (h * m + c) * p + r) by (nonlinear_arith)
        requires
            t * m == p * c + r,
    ;
    lemma_fundamental_div_mod_converse(((h * p + t) * m) as int, p as int, (h * m + c) as int, r as int);
}

/// One step of multiplying a digit string by `m` from its right end: the
/// carry past `d` followed by `n` digits worth `t`.
proof fn lemma_carry_step(d: nat, t: nat, m: nat, n: nat)
    requires
        t < pow10(n),
    ensures
        (d * pow10(n) + t) * m / pow10(n + 1) == (d * m + t * m / pow10(n)) / 10,
{
    lemma_pow10(n, 0);
    let p = pow10(n);
    lemma_split_div(d, t, m, p);
    let x = (d * p + t) * m;
    lemma_div_denominator(x as int, p as int, 10);
}

proof fn lemma_cap_mul(x: nat, m: nat)
    requires
        m >= 1,
    ensures
        cap(min_nat(x, u64::MAX as nat) * m) == cap(x * m),
{
    if x > u64::MAX {
        assert(x * m >= x) by (nonlinear_arith)
            requires
                m >= 1,
        ;
        assert((u64::MAX as nat) * m >= u64::MAX) by (nonlinear_arith)
            requires
                m >= 1,
        ;
    }
}

proof fn lemma_cap_mul_add(x: nat, m: nat, c: nat)
    requires
        m >= 1,
    ensures
        cap(min_nat(x, u64::MAX as nat) * m + c) == cap(x * m + c),
{
    lemma_cap_mul(x, m);
    if x > u64::MAX {
        assert(x * m >= x) by (nonlinear_arith)
            requires
                m >= 1,
        ;
        assert((u64::MAX as nat) * m >= u64::MAX) by (nonlinear_arith)
            requires
                m >= 1,
        ;
    }
}

/// `min(digits_value(d), u64::MAX)`, for a string of digits.
fn saturated_digits(d: &Vec<char>, from: usize, to: usize) -> (r: u64)
    requires
        from <= to <= d.len(),
        all_digits(d@),
    ensures
        r as nat == min_nat(digits_value(d@.subrange(from as int, to as int)), u64::MAX as nat),
{
    let mut acc: u64 = 0;
    let mut i = from;
    while i < to
        invariant
            from <= i <= to <= d.len(),
            all_digits(d@),
            acc as nat == min_nat(digits_value(d@.subrange(from as int, i as int)), u64::MAX as nat),
        decreases to - i,
    {
        let ghost pre = d@.subrange(from as int, i as int);
        assert(d@.subrange(from as int, i + 1) =~= pre.push(d@[i as int]));
        assert(pre.push(d@[i as int]).drop_last() =~= pre);
        assert(is_digit(d@[i as int]));
        let ghost x = digits_value(pre);
        assert(min_nat(min_nat(x, u64::MAX as nat) * 10 + digit_value(d@[i as int]), u64::MAX as nat)
            == min_nat(x * 10 + digit_value(d@[i as int]), u64::MAX as nat));
        acc = push_digit(acc, d[i]);
        i = i + 1;
    }
    acc
}

/// `floor(digits_value(d) * m * 10^e)`, held to `u64::MAX`.
fn shifted_floor(d: &Vec<char>, m: u64, e: i128) -> (r: u64)
    requires
        e > i128::MIN,
        all_digits(d@),
        1 <= m <= 0x4000_0000,
    ensures
        r == cap(shifted(digits_value(d@) * (m as nat), e as int)),
{
    if e >= 0 {
        scale_up(d, m, e)
    } else {
        scale_down(d, m, (0 - e) as u128)
    }
}

fn scale_up(d: &Vec<char>, m: u64, e: i128) -> (r: u64)
    requires
        e >= 0,
        all_digits(d@),
        1 <= m <= 0x4000_0000,
    ensures
        r == cap(digits_value(d@) * (m as nat) * pow10(e as nat)),
{
    let ghost n = digits_value(d@);
    assert(d@.subrange(0, d@.len() as int) =~= d@);
    let h = saturated_digits(d, 0, d.len());
    assert(h as u128 * m as u128 <= 0xffff_ffff_ffff_ffff * 0x4000_0000) by (nonlinear_arith)
        requires
            h <= 0xffff_ffff_ffff_ffff,
            m <= 0x4000_0000,
    ;
    let v: u128 = h as u128 * m as u128;
    let mut acc: u64 = if v > u64::MAX as u128 {
        u64::MAX
    } else {
        v as u64
    };
    proof {
        lemma_cap_mul(n, m as nat);
        assert(pow10(0) == 1);
        assert(n * (m as nat) * pow10(0) == n * (m as nat));
    }
    let mut j: i128 = 0;
    while j < e
        invariant
            0 <= j <= e,
            n == digits_value(d@),
            acc == cap(n * (m as nat) * pow10(j as nat)),
        decreases e - j,
    {
        proof {
            lemma_pow10(j as nat, 0);
        }
        let ghost x = n * (m as nat) * pow10(j as nat);
        assert(n * (m as nat) * pow10((j + 1) as nat) == x * 10) by (nonlinear_arith)
            requires
                pow10((j + 1) as nat) == pow10(j as nat) * 10,
                x == n * (m as nat) * pow10(j as nat),
        ;
        if acc == 0 {
            assert(x == 0);
            assert(n * (m as nat) * pow10(e as nat) == 0) by (nonlinear_arith)
                requires
                    n * (m as nat) * pow10(j as nat) == 0,
                    pow10(j as nat) > 0,
            ;
            return 0;
        }
        if acc == u64::MAX {
            proof {
                lemma_pow10(j as nat, e as nat);
            }
            assert(n * (m as nat) * pow10(e as nat) >= x) by (nonlinear_arith)
                requires
                    pow10(j as nat) <= pow10(e as nat),
                    x == n * (m as nat) * pow10(j as nat),
            ;
            return u64::MAX;
        }
        acc = if acc > u64::MAX / 10 {
            u64::MAX
        } else {
            acc * 10
        };
        j = j + 1;
    }
    acc
}

/// `floor(digits_value(d[h..]) * m / 10^(d.len() - h))`: the carry out of
/// multiplying the digits from `h` on by `m`, from their right end.
fn tail_carry(d: &Vec<char>, h: usize, m: u64) -> (c: u64)
    requires
        h <= d.len(),
        all_digits(d@),
        1 <= m <= 0x4000_0000,
    ensures
        c < m,
        c == digits_value(d@.subrange(h as int, d.len() as int)) * (m as nat) / pow10(
            (d.len() - h) as nat,
        ),
{
    let len = d.len();
    let mut c: u64 = 0;
    let mut j: usize = len;
    assert(d@.subrange(len as int, len as int) =~= Seq::<char>::empty());
    assert(digits_value(Seq::<char>::empty()) == 0);
    assert(pow10(0) == 1);
    while j > h
        invariant
            h <= j <= len == d.len(),
            all_digits(d@),
            1 <= m <= 0x4000_0000,
            c < m,
            c == digits_value(d@.subrange(j as int, len as int)) * (m as nat) / pow10((len - j) as nat),
        decreases j,
    {
        let ghost rest = d@.subrange(j as int, len as int);
        let ghost dj = d@[j - 1];
        assert(d@.subrange(j - 1, len as int) =~= seq![dj] + rest);
        proof {
            lemma_digits_concat(seq![dj], rest);
            assert(seq![dj].drop_last() =~= Seq::<char>::empty());
            assert(digits_value(Seq::<char>::empty()) == 0);
            assert(seq![dj].last() == dj);
            assert(digits_value(seq![dj]) == digit_value(dj));
            assert(all_digits(rest)) by {
                assert forall|q: int| 0 <= q < rest.len() implies is_digit(#[trigger] rest[q]) by {
                    assert(rest[q] == d@[j + q]);
                }
            }
            lemma_digits_bound(rest);
            lemma_carry_step(digit_value(dj), digits_value(rest), m as nat, rest.len());
            assert(is_digit(dj));
        }
        let dv = (d[j - 1] as u32 - '0' as u32) as u64;
        assert(dv * m + c < 10 * m) by (nonlinear_arith)
            requires
                dv <= 9,
                c < m,
        ;
        c = (dv * m + c) / 10;
        j = j - 1;
    }
    c
}

/// `floor(x / 10^s)` from `c == floor(x / 10^z)`, for `z <= s`.
fn divide_further(c: u64, z: u128, s: u128, x: Ghost<nat>) -> (r: u64)
    requires
        z <= s,
        c == x@ / pow10(z as nat),
    ensures
        r == x@ / pow10(s as nat),
{
    let mut c = c;
    let mut z = z;
    while z < s
        invariant
            z <= s,
            c == x@ / pow10(z as nat),
        decreases s - z,
    {
        proof {
            lemma_pow10(z as nat, 0);
            lemma_div_denominator(x@ as int, pow10(z as nat) as int, 10);
        }
        if c == 0 {
            proof {
                lemma_pow10(z as nat, s as nat);
                lemma_zero_stays(x@, pow10(z as nat), pow10(s as nat));
            }
            return 0;
        }
        c = c / 10;
        z = z + 1;
    }
    c
}

/// `floor(digits_value(d) * m / 10^s)`, held to `u64::MAX`.
fn scale_down(d: &Vec<char>, m: u64, s: u128) -> (r: u64)
    requires
        all_digits(d@),
        1 <= m <= 0x4000_0000,
    ensures
        r == cap(digits_value(d@) * (m as nat) / pow10(s as nat)),
{
    let len = d.len();
    let h: usize = if (len as u128) > s {
        len - s as usize
    } else {
        0
    };
    let ghost head = d@.subrange(0, h as int);
    let ghost tail = d@.subrange(h as int, len as int);
    assert(d@ =~= head + tail);
    proof {
        lemma_digits_concat(head, tail);
        assert(all_digits(tail)) by {
            assert forall|q: int| 0 <= q < tail.len() implies is_digit(#[trigger] tail[q]) by {
                assert(tail[q] == d@[h + q]);
            }
        }
        lemma_digits_bound(tail);
    }
    let c0 = tail_carry(d, h, m);
    let c = divide_further(c0, (len - h) as u128, s, Ghost(digits_value(tail) * (m as nat)));
    let hv = saturated_digits(d, 0, h);
    assert(hv as u128 * m as u128 <= 0xffff_ffff_ffff_ffff * 0x4000_0000) by (nonlinear_arith)
        requires
            hv <= 0xffff_ffff_ffff_ffff,
            m <= 0x4000_0000,
    ;
    let total: u128 = hv as u128 * m as u128 + c as u128;
    proof {
        assert(hv as nat == min_nat(digits_value(head), u64::MAX as nat));
        assert(c as nat == digits_value(tail) * (m as nat) / pow10(s as nat));
        assert(digits_value(d@) == digits_value(head) * pow10(tail.len()) + digits_value(tail));
        if h > 0 {
            assert(tail.len() == s);
            lemma_split_div(digits_value(head), digits_value(tail), m as nat, pow10(s as nat));
            assert(digits_value(d@) * (m as nat) / pow10(s as nat) == digits_value(head) * (m as nat) + c);
        } else {
            assert(head =~= Seq::<char>::empty());
            assert(digits_value(Seq::<char>::empty()) == 0);
            assert(head + tail =~= tail);
            assert(head == Seq::<char>::empty());
            assert(digits_value(head) == 0);
            assert(digits_value(head) * (m as nat) == 0) by (nonlinear_arith)
                requires
                    digits_value(head) == 0,
            ;
            assert(digits_value(d@) * (m as nat) / pow10(s as nat) == digits_value(head) * (m as nat) + c);
        }
        lemma_cap_mul_add(digits_value(head), m as nat, c as nat);
        assert(total == (hv as nat) * (m as nat) + c);
        assert(cap(digits_value(d@) * (m as nat) / pow10(s as nat)) == cap((hv as nat) * (m as nat) + (c as nat)));
    }
    if total > u64::MAX as u128 {
        u64::MAX
    } else {
        total as u64
    }
}

/// Once `x / p` is 0, so is `x / q` for every `q >= p`.
proof fn lemma_zero_stays(x: nat, p: nat, q: nat)
    requires
        0 < p <= q,
        x / p == 0,
    ensures
        x / q == 0,
{
    lemma_fundamental_div_mod(x as int, p as int);
    lemma_fundamental_div_mod_converse(x as int, q as int, 0, x as int);
}

/// How many sign characters `t` starts with: one `+` or `-`, or none.
pub open spec fn sign_len(t: Seq<char>) -> int {
    if t.len() > 0 && (t[0] == '+' || t[0] == '-') {
        1
    } else {
        0
    }
}

/// Where the mantissa of `t` (its digits and points after the sign) ends.
pub open spec fn mantissa_end(t: Seq<char>) -> int {
    run_end(t, sign_len(t), CharClass::DigitOrPoint)
}

/// The mantissa of `t`.
pub open spec fn mantissa(t: Seq<char>) -> Seq<char> {
    t.subrange(sign_len(t), mantissa_end(t))
}

/// The exponent of `t`: 0 when nothing follows the mantissa; the signed
/// digits after an `e` or `E`, their magnitude held to `u64::MAX`; `None`
/// when anything else follows.
pub open spec fn exponent_of(t: Seq<char>) -> Option<int> {
    let me = mantissa_end(t);
    if me == t.len() {
        Some(0)
    } else if t[me] == 'e' || t[me] == 'E' {
        let x = t.subrange(me + 1, t.len() as int);
        let xd = x.skip(sign_len(x));
        let v = min_nat(digits_value(xd), u64::MAX as nat) as int;
        if xd.len() > 0 && all_digits(xd) {
            Some(
                if sign_len(x) == 1 && x[0] == '-' {
                    -v
                } else {
                    v
                },
            )
        } else {
            None
        }
    } else {
        None
    }
}

/// `t` read as `str::parse::<f64>` reads a numeral
/// (`[+-]? (D+ | D+.D* | .D+) ([eE][+-]?D+)?`), times `m`: the exact value
/// rounded down and held to `u64::MAX`, 0 when it is negative; `None` when
/// `t` is no such numeral.
pub open spec fn float_times(t: Seq<char>, m: nat) -> Option<u64> {
    let mant = mantissa(t);
    match exponent_of(t) {
        Some(ex) => if is_decimal(mant) {
            Some(
                if sign_len(t) == 1 && t[0] == '-' {
                    0
                } else {
                    cap(
                        shifted(
                            digits_value(int_digits(mant) + frac_digits(mant)) * m,
                            ex - frac_digits(mant).len(),
                        ),
                    )
                },
            )
        } else {
            None
        },
        None => None,
    }
}

fn all_digit_chars(v: &Vec<char>) -> (r: bool)
    ensures
        r == all_digits(v@),
{
    let mut i: usize = 0;
    while i < v.len()
        invariant
            i <= v.len(),
            forall|q: int| 0 <= q < i ==> is_digit(#[trigger] v@[q]),
        decreases v.len() - i,
    {
        if !is_in_class(v[i], CharClass::Digit) {
            return false;
        }
        i = i + 1;
    }
    true
}

/// The exponent of `t` (see `exponent_of`), from where its mantissa ends.
fn read_exponent(t: &Vec<char>, me: usize) -> (r: Option<i128>)
    requires
        me == mantissa_end(t@),
        me <= t.len(),
    ensures
        r matches Some(x) ==> exponent_of(t@) == Some(x as int) && -0xffff_ffff_ffff_ffff <= x
            <= 0xffff_ffff_ffff_ffff,
        r is None ==> exponent_of(t@) is None,
{
    let n = t.len();
    if me == n {
        return Some(0);
    }
    if t[me] != 'e' && t[me] != 'E' {
        return None;
    }
    let x0 = me + 1;
    let ghost x = t@.subrange(x0 as int, n as int);
    let xs: usize = if x0 < n && (t[x0] == '+' || t[x0] == '-') {
        1
    } else {
        0
    };
    assert(x.len() > 0 ==> x[0] == t@[x0 as int]);
    assert(xs == sign_len(x));
    let xneg = xs == 1 && t[x0] == '-';
    let xd = slice_chars(t, x0 + xs, n);
    assert(xd@ =~= x.skip(xs as int));
    if xd.len() == 0 || !all_digit_chars(&xd) {
        return None;
    }
    let v = saturated_digits(&xd, 0, xd.len());
    assert(xd@.subrange(0, xd@.len() as int) =~= xd@);
    if xneg {
        Some(0 - v as i128)
    } else {
        Some(v as i128)
    }
}

/// Reads `s[a..b]` as a floating-point numeral times `m` (see `float_times`).
pub fn read_float(s: &Vec<char>, a: usize, b: usize, m: u64) -> (r: Option<u64>)
    requires
        a <= b <= s.len(),
        m <= 0x4000_0000,
    ensures
        r == float_times(s@.subrange(a as int, b as int), m as nat),
{
    let t = slice_chars(s, a, b);
    let n = t.len();
    let sl: usize = if n > 0 && (t[0] == '+' || t[0] == '-') {
        1
    } else {
        0
    };
    let neg = sl == 1 && t[0] == '-';
    let me = skip_run(&t, sl, CharClass::DigitOrPoint);
    let ex = match read_exponent(&t, me) {
        Some(x) => x,
        None => return None,
    };
    let ghost mant = mantissa(t@);
    if scaled_decimal(&t, sl, me, 0).is_none() {
        return None;
    }
    assert(is_decimal(mant));
    let p = skip_run(&t, sl, CharClass::Digit);
    proof {
        lemma_run_end(t@, sl as int, CharClass::Digit);
        lemma_run_end(t@, sl as int, CharClass::DigitOrPoint);
        lemma_run_end_sub(t@, sl as int, me as int, sl as int, CharClass::Digit);
    }
    let pe: usize = if p < me {
        p
    } else {
        me
    };
    assert(point_pos(mant) == pe - sl);
    let fs: usize = if pe < me {
        pe + 1
    } else {
        me
    };
    let mut d = slice_chars(&t, sl, pe);
    let mut f = slice_chars(&t, fs, me);
    assert(int_digits(mant) =~= d@);
    assert(frac_digits(mant) =~= f@);
    let k = f.len();
    proof {
        if pe < me {
            lemma_run_end(mant, point_pos(mant) + 1, CharClass::Digit);
            assert forall|q: int| 0 <= q < f@.len() implies is_digit(#[trigger] f@[q]) by {
                assert(f@[q] == mant[point_pos(mant) + 1 + q]);
            }
        }
        assert forall|q: int| 0 <= q < d@.len() implies is_digit(#[trigger] d@[q]) by {
            assert(d@[q] == t@[sl + q]);
        }
    }
    d.append(&mut f);
    assert(d@ == int_digits(mant) + frac_digits(mant));
    assert(all_digits(d@)) by {
        assert forall|q: int| 0 <= q < d@.len() implies is_digit(#[trigger] d@[q]) by {
            if q < int_digits(mant).len() {
                assert(d@[q] == int_digits(mant)[q]);
            } else {
                assert(d@[q] == frac_digits(mant)[q - int_digits(mant).len()]);
            }
        }
    }
    assert(t@.len() > 0 ==> t@[0] == t[0]);
    if neg {
        return Some(0);
    }
    if m == 0 {
        proof {
            let e = ex - k;
            let z = digits_value(d@) * (m as nat);
            assert(z == 0);
            if e >= 0 {
                assert(z * pow10(e as nat) == 0);
            } else {
                lemma_pow10_pos((-e) as nat);
                assert(z / pow10((-e) as nat) == 0);
            }
        }
        return Some(0);
    }
    Some(shifted_floor(&d, m, ex - k as i128))
}

} // verus!
