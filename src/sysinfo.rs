//! Reading the one-shot system queries: `sysctl` values, swap usage, the
//! GPU core count, and the hardware summary with its defaults.

use vstd::prelude::*;
use crate::number::{
    all_digits, digits_value, min_nat, push_digit,
};
use crate::numeral::{float_times, read_float};
use crate::text::{
    chars_of, has_lit_at, slice_chars, is_in_class, is_space, lemma_run_end, lit_at, run_end, skip_run,
    CharClass, contains, has_lit,
};

verus! {

/// Where `s[..j]` ends once its trailing white space is removed.
pub open spec fn trail_end(s: Seq<char>, j: int) -> int
    decreases j,
{
    if 0 < j <= s.len() && is_space(s[j - 1]) {
        trail_end(s, j - 1)
    } else {
        j
    }
}

/// The bounds of `s` without leading and trailing white space, as
/// `str::trim` leaves it.
pub open spec fn trim_bounds(s: Seq<char>) -> (int, int) {
    let a = run_end(s, 0, CharClass::Space);
    if a == s.len() {
        (a, a)
    } else {
        (a, trail_end(s, s.len() as int))
    }
}

/// The first position at or after `i` where `lit` stands.
pub open spec fn first_lit_from(s: Seq<char>, i: int, lit: Seq<char>) -> Option<int>
    decreases s.len() - i,
{
    if 0 <= i <= s.len() {
        if lit_at(s, i, lit) {
            Some(i)
        } else if i < s.len() {
            first_lit_from(s, i + 1, lit)
        } else {
            None
        }
    } else {
        None
    }
}

/// The bounds of the second part of `s` split at `": "`, as
/// `str::split(": ")` yields it; `None` when `s` holds no `": "`.
pub open spec fn second_part(s: Seq<char>) -> Option<(int, int)> {
    match first_lit_from(s, 0, ": "@) {
        Some(p) => {
            let a = p + ": "@.len();
            Some(
                (
                    a,
                    match first_lit_from(s, a, ": "@) {
                        Some(q) => q,
                        None => s.len() as int,
                    },
                ),
            )
        },
        None => None,
    }
}

/// The bounds of the value in a `sysctl` reply: the second `": "`-separated
/// part of the trimmed reply.
pub open spec fn sysctl_value_bounds(s: Seq<char>) -> Option<(int, int)> {
    let (a, b) = trim_bounds(s);
    match second_part(s.subrange(a, b)) {
        Some((c, d)) => Some((a + c, a + d)),
        None => None,
    }
}

/// `t` as `str::parse::<i32>` reads it: an optional sign and at least one
/// digit, within the range of `i32`.
pub open spec fn parse_i32(t: Seq<char>) -> Option<i32> {
    let signed = t.len() > 0 && (t[0] == '-' || t[0] == '+');
    let d = if signed {
        t.skip(1)
    } else {
        t
    };
    let v = digits_value(d);
    if d.len() > 0 && all_digits(d) {
        if signed && t[0] == '-' {
            if v <= 0x8000_0000 {
                Some((-v) as i32)
            } else {
                None
            }
        } else if v <= i32::MAX {
            Some(v as i32)
        } else {
            None
        }
    } else {
        None
    }
}

/// The number in a `sysctl` reply: its value, trimmed, read as an `i32`.
pub open spec fn sysctl_int_of(s: Seq<char>) -> Option<i32> {
    match sysctl_value_bounds(s) {
        Some((a, b)) => {
            let f = s.subrange(a, b);
            let (c, d) = trim_bounds(f);
            parse_i32(f.subrange(c, d))
        },
        None => None,
    }
}

/// In a line of the display report that mentions `Total Number of Cores`,
/// the bounds of its trimmed second `": "`-separated part.
pub open spec fn cores_in_line(l: Seq<char>) -> Option<(int, int)> {
    if contains(l, "Total Number of Cores"@) {
        match second_part(l) {
            Some((a, b)) => {
                let (c, d) = trim_bounds(l.subrange(a, b));
                Some((a + c, a + d))
            },
            None => None,
        }
    } else {
        None
    }
}

/// Where the line that starts at `i` ends, as `str::lines` cuts it: before
/// the line feed, and before a carriage return that precedes it.
pub open spec fn line_stop(s: Seq<char>, i: int) -> int {
    let e = run_end(s, i, CharClass::InLine);
    if e < s.len() && e > i && s[e - 1] == '\r' {
        e - 1
    } else {
        e
    }
}

/// The core count of the first line, at or after `i`, that gives one.
pub open spec fn gpu_cores_from(s: Seq<char>, i: int) -> Option<(int, int)>
    decreases s.len() - i,
{
    if 0 <= i < s.len() {
        let found = if i == 0 || s[i - 1] == '\n' {
            match cores_in_line(s.subrange(i, line_stop(s, i))) {
                Some((a, b)) => Some((i + a, i + b)),
                None => None,
            }
        } else {
            None
        };
        match found {
            Some(g) => Some(g),
            None => gpu_cores_from(s, i + 1),
        }
    } else {
        None
    }
}

/// `D+.D+` followed by `M` or `G` at `i`: where the unit letter stands.
pub open spec fn sized_at(s: Seq<char>, i: int) -> Option<int> {
    let p = run_end(s, i, CharClass::Digit);
    let q = run_end(s, p + 1, CharClass::Digit);
    if p > i && p < s.len() && s[p] == '.' && q > p + 1 && q < s.len() && (s[q] == 'M' || s[q]
        == 'G') {
        Some(q)
    } else {
        None
    }
}

/// `total = X\s+used = Y\s+free = Z` at `i`, each figure a sized number:
/// where each figure starts and where its unit letter stands.
pub open spec fn swap_at(s: Seq<char>, i: int) -> Option<(int, int, int, int, int, int)> {
    let a = i + "total = "@.len();
    if lit_at(s, i, "total = "@) {
        match sized_at(s, a) {
            Some(u1) => {
                let b = run_end(s, u1 + 1, CharClass::Space);
                let c = b + "used = "@.len();
                if b > u1 + 1 && lit_at(s, b, "used = "@) {
                    match sized_at(s, c) {
                        Some(u2) => {
                            let d = run_end(s, u2 + 1, CharClass::Space);
                            let e = d + "free = "@.len();
                            if d > u2 + 1 && lit_at(s, d, "free = "@) {
                                match sized_at(s, e) {
                                    Some(u3) => Some((a, u1, c, u2, e, u3)),
                                    None => None,
                                }
                            } else {
                                None
                            }
                        },
                        None => None,
                    }
                } else {
                    None
                }
            },
            None => None,
        }
    } else {
        None
    }
}

pub open spec fn swap_from(s: Seq<char>, i: int) -> Option<(int, int, int, int, int, int)>
    decreases s.len() - i,
{
    if 0 <= i < s.len() {
        match swap_at(s, i) {
            Some(m) => Some(m),
            None => swap_from(s, i + 1),
        }
    } else {
        None
    }
}

pub open spec fn unit_factor(u: Seq<char>) -> nat {
    if u == seq!['G'] {
        0x4000_0000
    } else if u == seq!['M'] {
        0x10_0000
    } else {
        0
    }
}

/// A size in bytes: the figure `t`, read as `str::parse::<f64>` reads a
/// numeral (0 when it is none), times the unit (`G` a gibibyte, `M` a
/// mebibyte, any other 0), exactly, rounded down and held to `u64::MAX`; a
/// negative figure gives 0.
pub open spec fn size_bytes(t: Seq<char>, u: Seq<char>) -> u64 {
    match float_times(t, unit_factor(u)) {
        Some(v) => v,
        None => 0,
    }
}

/// The swap total, used and free sizes of the first swap usage line in `s`.
pub open spec fn swap_usage_of(s: Seq<char>) -> Option<(u64, u64, u64)> {
    match swap_from(s, 0) {
        Some((a, u1, c, u2, e, u3)) => Some(
            (
                size_bytes(s.subrange(a, u1), s.subrange(u1, u1 + 1)),
                size_bytes(s.subrange(c, u2), s.subrange(u2, u2 + 1)),
                size_bytes(s.subrange(e, u3), s.subrange(u3, u3 + 1)),
            ),
        ),
        None => None,
    }
}

proof fn lemma_trail_end(s: Seq<char>, j: int, a: int)
    requires
        0 <= a < j <= s.len(),
        !is_space(s[a]),
    ensures
        a < trail_end(s, j) <= j,
        trail_end(s, j) < s.len() ==> forall|q: int| trail_end(s, j) <= q < j ==> is_space(
            #[trigger] s[q],
        ),
    decreases j,
{
    if is_space(s[j - 1]) {
        lemma_trail_end(s, j - 1, a);
    }
}

proof fn lemma_first_lit_from(s: Seq<char>, i: int, lit: Seq<char>)
    ensures
        first_lit_from(s, i, lit) matches Some(p) ==> i <= p && lit_at(s, p, lit),
    decreases s.len() - i,
{
    if 0 <= i <= s.len() && !lit_at(s, i, lit) && i < s.len() {
        lemma_first_lit_from(s, i + 1, lit);
    }
}

fn trim_range(s: &Vec<char>) -> (r: (usize, usize))
    ensures
        (r.0 as int, r.1 as int) == trim_bounds(s@),
        r.0 <= r.1 <= s.len(),
{
    let a = skip_run(s, 0, CharClass::Space);
    if a == s.len() {
        return (a, a);
    }
    proof {
        lemma_run_end(s@, 0, CharClass::Space);
        lemma_trail_end(s@, s@.len() as int, a as int);
    }
    let mut j = s.len();
    while j > 0 && is_in_class(s[j - 1], CharClass::Space)
        invariant
            a < s.len(),
            !is_space(s@[a as int]),
            j <= s.len(),
            trail_end(s@, j as int) == trail_end(s@, s@.len() as int),
        decreases j,
    {
        j = j - 1;
    }
    (a, j)
}

fn find_lit_from(s: &Vec<char>, i: usize, lit: &str) -> (r: Option<usize>)
    ensures
        r matches Some(p) ==> first_lit_from(s@, i as int, lit@) == Some(p as int),
        r is None ==> first_lit_from(s@, i as int, lit@) is None,
{
    if i > s.len() {
        return None;
    }
    let mut j = i;
    while j < s.len()
        invariant
            i <= j <= s.len(),
            first_lit_from(s@, j as int, lit@) == first_lit_from(s@, i as int, lit@),
        decreases s.len() - j,
    {
        if has_lit_at(s, j, lit) {
            return Some(j);
        }
        j = j + 1;
    }
    if has_lit_at(s, j, lit) {
        Some(j)
    } else {
        None
    }
}

fn second_part_range(s: &Vec<char>) -> (r: Option<(usize, usize)>)
    ensures
        r matches Some((a, b)) ==> second_part(s@) == Some((a as int, b as int)) && a <= b
            <= s.len(),
        r is None ==> second_part(s@) is None,
{
    match find_lit_from(s, 0, ": ") {
        Some(p) => {
            proof {
                lemma_first_lit_from(s@, 0, ": "@);
            }
            let n = chars_of(": ").len();
            assert(p + n <= s@.len());
            assert(s@.len() == s.len());
            let a = p + n;
            match find_lit_from(s, a, ": ") {
                Some(q) => {
                    proof {
                        lemma_first_lit_from(s@, a as int, ": "@);
                    }
                    Some((a, q))
                },
                None => Some((a, s.len())),
            }
        },
        None => None,
    }
}

/// The bounds of the value in a `sysctl` reply.
fn sysctl_value_range(s: &Vec<char>) -> (r: Option<(usize, usize)>)
    ensures
        r matches Some((a, b)) ==> sysctl_value_bounds(s@) == Some((a as int, b as int)) && a
            <= b <= s.len(),
        r is None ==> sysctl_value_bounds(s@) is None,
{
    let (a, b) = trim_range(s);
    let t = slice_chars(s, a, b);
    match second_part_range(&t) {
        Some((c, d)) => Some((a + c, a + d)),
        None => None,
    }
}

/// Reads `s[a..b]` as an `i32` (see `parse_i32`).
fn parse_i32_range(s: &Vec<char>, a: usize, b: usize) -> (r: Option<i32>)
    requires
        a <= b <= s.len(),
    ensures
        r == parse_i32(s@.subrange(a as int, b as int)),
{
    let ghost t = s@.subrange(a as int, b as int);
    let signed = b > a && (s[a] == '-' || s[a] == '+');
    let neg = signed && s[a] == '-';
    let start = if signed {
        a + 1
    } else {
        a
    };
    let ghost d = s@.subrange(start as int, b as int);
    assert(t.len() > 0 ==> t[0] == s@[a as int]);
    assert(signed == (t.len() > 0 && (t[0] == '-' || t[0] == '+')));
    assert(d =~= if signed {
        t.skip(1)
    } else {
        t
    });
    if start == b {
        return None;
    }
    let mut acc: u64 = 0;
    let mut i = start;
    while i < b
        invariant
            start <= i <= b <= s.len(),
            d == s@.subrange(start as int, b as int),
            d.len() > 0,
            !all_digits(d) ==> parse_i32(t) is None,
            t == s@.subrange(a as int, b as int),
            forall|q: int| start <= q < i ==> crate::text::is_digit(#[trigger] s@[q]),
            acc as nat == min_nat(digits_value(d.take(i - start)), u64::MAX as nat),
        decreases b - i,
    {
        let c = s[i];
        if !is_in_class(c, CharClass::Digit) {
            assert(d[i - start] == c);
            assert(!all_digits(d));
            return None;
        }
        assert(d.take(i - start + 1) =~= d.take(i - start).push(c));
        assert(d.take(i - start + 1).drop_last() =~= d.take(i - start));
        acc = push_digit(acc, c);
        i = i + 1;
    }
    assert(d.take(b - start) =~= d);
    assert(all_digits(d)) by {
        assert forall|j: int| 0 <= j < d.len() implies crate::text::is_digit(#[trigger] d[j]) by {
            assert(d[j] == s@[start + j]);
        }
    }
    if neg {
        if acc <= 0x8000_0000 {
            Some((0 - acc as i64) as i32)
        } else {
            None
        }
    } else if acc <= i32::MAX as u64 {
        Some(acc as i32)
    } else {
        None
    }
}

/// The value of a `sysctl` reply (`name: value`); `None` when the reply
/// holds no `": "`.
pub fn parse_sysctl_string(output: &str) -> (r: Option<String>)
    ensures
        r is Some <==> sysctl_value_bounds(output@) is Some,
        r matches Some(v) ==> sysctl_value_bounds(output@) matches Some((a, b)) && v@
            == output@.subrange(a, b),
{
    let s = chars_of(output);
    match sysctl_value_range(&s) {
        Some((a, b)) => Some(output.substring_char(a, b).to_owned()),
        None => None,
    }
}

/// The number in a `sysctl` reply (see `sysctl_int_of`).
pub fn parse_sysctl_int(output: &str) -> (r: Option<i32>)
    ensures
        r == sysctl_int_of(output@),
{
    let s = chars_of(output);
    match sysctl_value_range(&s) {
        Some((a, b)) => {
            let f = slice_chars(&s, a, b);
            let (c, d) = trim_range(&f);
            assert(f@.subrange(c as int, d as int) =~= s@.subrange(a + c, a + d));
            parse_i32_range(&s, a + c, a + d)
        },
        None => None,
    }
}

fn cores_in_line_range(l: &Vec<char>) -> (r: Option<(usize, usize)>)
    ensures
        r matches Some((a, b)) ==> cores_in_line(l@) == Some((a as int, b as int)) && a <= b
            <= l.len(),
        r is None ==> cores_in_line(l@) is None,
{
    if !has_lit(l, "Total Number of Cores") {
        return None;
    }
    match second_part_range(l) {
        Some((a, b)) => {
            let f = slice_chars(l, a, b);
            let (c, d) = trim_range(&f);
            Some((a + c, a + d))
        },
        None => None,
    }
}

/// The GPU core count in the display report: the value of the first line
/// that mentions `Total Number of Cores` and holds a `": "`, trimmed.
pub fn parse_gpu_core_count(output: &str) -> (r: Option<String>)
    ensures
        r is Some <==> gpu_cores_from(output@, 0) is Some,
        r matches Some(v) ==> gpu_cores_from(output@, 0) matches Some((a, b)) && v@
            == output@.subrange(a, b),
{
    let s = chars_of(output);
    let mut i: usize = 0;
    while i < s.len()
        invariant
            i <= s.len(),
            s@ == output@,
            gpu_cores_from(s@, i as int) == gpu_cores_from(s@, 0),
        decreases s.len() - i,
    {
        if i == 0 || s[i - 1] == '\n' {
            let e = skip_run(&s, i, CharClass::InLine);
            let stop = if e < s.len() && e > i && s[e - 1] == '\r' {
                e - 1
            } else {
                e
            };
            let l = slice_chars(&s, i, stop);
            match cores_in_line_range(&l) {
                Some((a, b)) => {
                    return Some(output.substring_char(i + a, i + b).to_owned());
                },
                None => {},
            }
        }
        i = i + 1;
    }
    None
}

/// A size in bytes (see `size_bytes`) of the figure `s[a..b]` and the unit
/// `s[u..u + 1]`.
fn size_in(s: &Vec<char>, a: usize, b: usize, u: usize) -> (r: u64)
    requires
        a <= b <= s.len(),
        u < s.len(),
    ensures
        r == size_bytes(s@.subrange(a as int, b as int), s@.subrange(u as int, u + 1)),
{
    let ghost unit = s@.subrange(u as int, u + 1);
    assert(unit =~= seq![s@[u as int]]);
    let factor: u128 = if s[u] == 'G' {
        0x4000_0000
    } else if s[u] == 'M' {
        0x10_0000
    } else {
        0
    };
    assert(seq!['G'][0] == 'G' && seq!['M'][0] == 'M');
    assert(factor == unit_factor(unit));
    match read_float(s, a, b, factor as u64) {
        Some(v) => v,
        None => 0,
    }
}

/// A size in bytes: `size` read as a floating-point numeral, times the
/// unit `G` (gibibytes) or `M` (mebibytes), exactly and rounded down; 0 for
/// any other unit, a negative figure or one that is no numeral.
pub fn parse_size(size: &str, unit: &str) -> (r: u64)
    ensures
        r == size_bytes(size@, unit@),
{
    let mut s = chars_of(size);
    let n = s.len();
    let mut u = chars_of(unit);
    if u.len() != 1 {
        assert(u@.len() != 1);
        assert(seq!['G'].len() == 1 && seq!['M'].len() == 1);
        assert(unit_factor(unit@) == 0);
        assert(s@.subrange(0, n as int) =~= size@);
        return match read_float(&s, 0, n, 0) {
            Some(v) => v,
            None => 0,
        };
    }
    s.append(&mut u);
    assert(s@.subrange(0, n as int) =~= size@);
    assert(s@.subrange(n as int, n + 1) =~= unit@);
    size_in(&s, 0, n, n)
}

fn swap_sized_at(s: &Vec<char>, i: usize) -> (r: Option<usize>)
    ensures
        r matches Some(q) ==> sized_at(s@, i as int) == Some(q as int) && i < q < s.len(),
        r is None ==> sized_at(s@, i as int) is None,
{
    if i >= s.len() {
        return None;
    }
    let p = skip_run(s, i, CharClass::Digit);
    if p > i && p < s.len() && s[p] == '.' {
        let q = skip_run(s, p + 1, CharClass::Digit);
        if q > p + 1 && q < s.len() && (s[q] == 'M' || s[q] == 'G') {
            return Some(q);
        }
    }
    None
}

fn lit_end(s: &Vec<char>, i: usize, lit: &str) -> (r: Option<usize>)
    ensures
        r is Some <==> lit_at(s@, i as int, lit@),
        r matches Some(j) ==> j == i + lit@.len() && j <= s.len(),
{
    if has_lit_at(s, i, lit) {
        let n = chars_of(lit).len();
        assert(s@.len() == s.len());
        Some(i + n)
    } else {
        None
    }
}

fn swap_match_at(s: &Vec<char>, i: usize) -> (r: Option<(usize, usize, usize, usize, usize, usize)>)
    ensures
        r matches Some(m) ==> swap_at(s@, i as int) == Some(
            (m.0 as int, m.1 as int, m.2 as int, m.3 as int, m.4 as int, m.5 as int),
        ) && m.0 <= m.1 < s.len() && m.2 <= m.3 < s.len() && m.4 <= m.5 < s.len(),
        r is None ==> swap_at(s@, i as int) is None,
{
    let a = match lit_end(s, i, "total = ") {
        Some(a) => a,
        None => return None,
    };
    let u1 = match swap_sized_at(s, a) {
        Some(u) => u,
        None => return None,
    };
    let b = skip_run(s, u1 + 1, CharClass::Space);
    if b == u1 + 1 {
        return None;
    }
    let c = match lit_end(s, b, "used = ") {
        Some(c) => c,
        None => return None,
    };
    let u2 = match swap_sized_at(s, c) {
        Some(u) => u,
        None => return None,
    };
    let d = skip_run(s, u2 + 1, CharClass::Space);
    if d == u2 + 1 {
        return None;
    }
    let e = match lit_end(s, d, "free = ") {
        Some(e) => e,
        None => return None,
    };
    let u3 = match swap_sized_at(s, e) {
        Some(u) => u,
        None => return None,
    };
    Some((a, u1, c, u2, e, u3))
}

/// Swap total, used and free, in bytes, from a swap usage reply
/// (`total = 2048.00M  used = 1024.50M  free = 1023.50M ...`); `None` when
/// the reply holds no such line.
pub fn parse_swap_usage(output: &str) -> (r: Option<(u64, u64, u64)>)
    ensures
        r == swap_usage_of(output@),
{
    let s = chars_of(output);
    let mut i: usize = 0;
    while i < s.len()
        invariant
            i <= s.len(),
            s@ == output@,
            swap_from(s@, i as int) == swap_from(s@, 0),
        decreases s.len() - i,
    {
        match swap_match_at(&s, i) {
            Some((a, u1, c, u2, e, u3)) => {
                return Some((size_in(&s, a, u1, u1), size_in(&s, c, u2, u2), size_in(&s, e, u3, u3)));
            },
            None => {},
        }
        i = i + 1;
    }
    None
}

/// What the dashboard shows of the hardware.
pub struct AppleSiliconInfo {
    pub name: String,
    pub e_core_count: i32,
    pub p_core_count: i32,
    pub gpu_core_count: String,
}

/// The hardware summary from the query results, each failed query (`None`)
/// replaced by its default: `Unknown` for the name, 0 for a core count, `?`
/// for the GPU core count.
pub fn get_apple_silicon_info(
    name: Option<String>,
    e_cores: Option<i32>,
    p_cores: Option<i32>,
    gpu_cores: Option<String>,
) -> (r: AppleSiliconInfo)
    ensures
        r.name@ == match name {
            Some(n) => n@,
            None => "Unknown"@,
        },
        r.e_core_count == match e_cores {
            Some(c) => c,
            None => 0,
        },
        r.p_core_count == match p_cores {
            Some(c) => c,
            None => 0,
        },
        r.gpu_core_count@ == match gpu_cores {
            Some(g) => g@,
            None => "?"@,
        },
{
    let name = match name {
        Some(n) => n,
        None => "Unknown".to_owned(),
    };
    let gpu_core_count = match gpu_cores {
        Some(g) => g,
        None => "?".to_owned(),
    };
    AppleSiliconInfo {
        name,
        e_core_count: match e_cores {
            Some(c) => c,
            None => 0,
        },
        p_core_count: match p_cores {
            Some(c) => c,
            None => 0,
        },
        gpu_core_count,
    }
}

} // verus!
