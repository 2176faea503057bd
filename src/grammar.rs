//! The line grammar of the sampler's output.
//!
//! Each recognized line shape is stated as a spec function saying whether it
//! stands in a line at a given position and what it captures; a line is read
//! at the first position where the shape stands. Runs are maximal, which is
//! how a backtracking matcher reads these shapes too, since what follows each
//! run can never continue it. Digits are ASCII; word characters are ASCII
//! letters, digits and `_` and every other non-space character beyond ASCII;
//! white space is the Unicode set.

use vstd::prelude::*;
use crate::number::{read_scaled, scaled_decimal};
use crate::numeral::{float_times, read_float};
use crate::text::{
    chars_of, find_token, has_lit_at, lemma_token_from, lit_at, nth_token, run_end, skip_run,
    CharClass,
};

verus! {

/// Which figure a utilization line reports.
#[derive(Clone, Copy, PartialEq, Eq, Structural)]
pub enum Figure {
    /// `... residency: P%`, with `P` digits, a point and digits.
    Residency,
    /// `... frequency: F MHz`, with `F` digits.
    Frequency,
}

/// The four throughput lines.
#[derive(Clone, Copy, PartialEq, Eq, Structural)]
pub enum RateLine {
    /// `out: N packets/s, M bytes/s`
    Out,
    /// `in: N packets/s, M bytes/s`
    In,
    /// `read: N ops/s M KBytes/s`
    Read,
    /// `write: N ops/s, M KBytes/s`
    Write,
}

/// A recognized line shape.
#[derive(Clone, Copy, PartialEq, Eq, Structural)]
pub enum Shape {
    /// `<Name>-Cluster HW active residency: P%` and its frequency twin.
    Cluster(Figure),
    /// `GPU [HW] active residency: P%` and its frequency twin.
    Gpu(Figure),
    Rate(RateLine),
}

/// The bounds of the two captured groups of a match.
pub type Groups = ((int, int), (int, int));

pub type ExecGroups = ((usize, usize), (usize, usize));

pub open spec fn groups_view(g: ExecGroups) -> Groups {
    ((g.0.0 as int, g.0.1 as int), (g.1.0 as int, g.1.1 as int))
}

pub open spec fn cluster_label(f: Figure) -> Seq<char> {
    match f {
        Figure::Residency => "HW active residency:"@,
        Figure::Frequency => "HW active frequency:"@,
    }
}

pub open spec fn gpu_label(f: Figure) -> Seq<char> {
    match f {
        Figure::Residency => "residency:"@,
        Figure::Frequency => "frequency:"@,
    }
}

pub open spec fn rate_labels(r: RateLine) -> (Seq<char>, Seq<char>, Seq<char>) {
    match r {
        RateLine::Out => ("out:"@, "packets/s,"@, "bytes/s"@),
        RateLine::In => ("in:"@, "packets/s,"@, "bytes/s"@),
        RateLine::Read => ("read:"@, "ops/s"@, "KBytes/s"@),
        RateLine::Write => ("write:"@, "ops/s,"@, "KBytes/s"@),
    }
}

/// The end of the figure that starts at `d`, where the line's tail follows
/// it: `%` after a residency, white space and `MHz` after a frequency.
pub open spec fn figure_end(s: Seq<char>, d: int, f: Figure) -> Option<int> {
    let e = run_end(s, d, CharClass::Digit);
    match f {
        Figure::Residency => {
            let g = run_end(s, e + 1, CharClass::Digit);
            if e > d && e < s.len() && s[e] == '.' && g > e + 1 && g < s.len() && s[g] == '%' {
                Some(g)
            } else {
                None
            }
        },
        Figure::Frequency => {
            let h = run_end(s, e, CharClass::Space);
            if e > d && h > e && lit_at(s, h, "MHz"@) {
                Some(e)
            } else {
                None
            }
        },
    }
}

/// `(\w+)-Cluster\s+<label>\s+<figure>` at `i`: the name before `-Cluster`,
/// and the figure.
pub open spec fn cluster_at(s: Seq<char>, i: int, f: Figure) -> Option<Groups> {
    let w = run_end(s, i, CharClass::Word);
    let a = w + "-Cluster"@.len();
    let b = run_end(s, a, CharClass::Space);
    let c = b + cluster_label(f).len();
    let d = run_end(s, c, CharClass::Space);
    if w > i && lit_at(s, w, "-Cluster"@) && b > a && lit_at(s, b, cluster_label(f)) && d > c {
        match figure_end(s, d, f) {
            Some(g) => Some(((i, w), (d, g))),
            None => None,
        }
    } else {
        None
    }
}

/// `GPU\s*(HW)?\s*active\s*<label>\s+<figure>` at `i`: the figure, twice.
pub open spec fn gpu_at(s: Seq<char>, i: int, f: Figure) -> Option<Groups> {
    let a = i + "GPU"@.len();
    let b = run_end(s, a, CharClass::Space);
    let c = if lit_at(s, b, "HW"@) {
        b + "HW"@.len()
    } else {
        b
    };
    let d = run_end(s, c, CharClass::Space);
    let e = d + "active"@.len();
    let g = run_end(s, e, CharClass::Space);
    let h = g + gpu_label(f).len();
    let j = run_end(s, h, CharClass::Space);
    if lit_at(s, i, "GPU"@) && lit_at(s, d, "active"@) && lit_at(s, g, gpu_label(f)) && j > h {
        match figure_end(s, j, f) {
            Some(m) => Some(((j, m), (j, m))),
            None => None,
        }
    } else {
        None
    }
}

/// `<l1>\s*([\d.]+)\s*<l2>\s*([\d.]+)\s*<l3>` at `i`: the two figures.
pub open spec fn rate_at(s: Seq<char>, i: int, r: RateLine) -> Option<Groups> {
    let (l1, l2, l3) = rate_labels(r);
    let a = i + l1.len();
    let b = run_end(s, a, CharClass::Space);
    let c = run_end(s, b, CharClass::DigitOrPoint);
    let d = run_end(s, c, CharClass::Space);
    let e = d + l2.len();
    let f = run_end(s, e, CharClass::Space);
    let g = run_end(s, f, CharClass::DigitOrPoint);
    let h = run_end(s, g, CharClass::Space);
    if lit_at(s, i, l1) && c > b && lit_at(s, d, l2) && g > f && lit_at(s, h, l3) {
        Some(((b, c), (f, g)))
    } else {
        None
    }
}

pub open spec fn shape_at(s: Seq<char>, i: int, p: Shape) -> Option<Groups> {
    match p {
        Shape::Cluster(f) => cluster_at(s, i, f),
        Shape::Gpu(f) => gpu_at(s, i, f),
        Shape::Rate(r) => rate_at(s, i, r),
    }
}

/// The groups of the first match of `p` in `s` at or after `i`.
pub open spec fn first_match_from(s: Seq<char>, i: int, p: Shape) -> Option<Groups>
    decreases s.len() - i,
{
    if 0 <= i < s.len() {
        match shape_at(s, i, p) {
            Some(g) => Some(g),
            None => first_match_from(s, i + 1, p),
        }
    } else {
        None
    }
}

/// The groups of the leftmost match of `p` in `s`.
pub open spec fn first_match(s: Seq<char>, p: Shape) -> Option<Groups> {
    first_match_from(s, 0, p)
}

/// Where a shape stands nowhere at or after `i`, no match is found there.
pub proof fn lemma_no_match_from(s: Seq<char>, i: int, p: Shape)
    requires
        0 <= i,
        forall|q: int| i <= q < s.len() ==> #[trigger] shape_at(s, q, p) is None,
    ensures
        first_match_from(s, i, p) is None,
    decreases s.len() - i,
{
    if i < s.len() {
        lemma_no_match_from(s, i + 1, p);
    }
}

/// Captured groups lie within the line, in order.
pub open spec fn groups_in(g: Groups, n: int) -> bool {
    0 <= g.0.0 <= g.0.1 <= n && 0 <= g.1.0 <= g.1.1 <= n
}

fn lit_len(lit: &str) -> (r: usize)
    ensures
        r == lit@.len(),
{
    let l = chars_of(lit);
    l.len()
}

/// Advances past `lit` when it stands at `i`.
fn past_lit(s: &Vec<char>, i: usize, lit: &str) -> (r: Option<usize>)
    ensures
        r is Some <==> lit_at(s@, i as int, lit@),
        r matches Some(j) ==> j == i + lit@.len() && j <= s.len(),
{
    if has_lit_at(s, i, lit) {
        let n = lit_len(lit);
        assert(i + n <= s@.len());
        assert(s@.len() == s.len());
        Some(i + n)
    } else {
        None
    }
}

fn match_figure_end(s: &Vec<char>, d: usize, f: Figure) -> (r: Option<usize>)
    requires
        d <= s.len(),
    ensures
        r matches Some(g) ==> figure_end(s@, d as int, f) == Some(g as int) && d <= g <= s.len(),
        r is None ==> figure_end(s@, d as int, f) is None,
{
    let e = skip_run(s, d, CharClass::Digit);
    match f {
        Figure::Residency => {
            if e > d && e < s.len() && s[e] == '.' {
                let g = skip_run(s, e + 1, CharClass::Digit);
                if g > e + 1 && g < s.len() && s[g] == '%' {
                    return Some(g);
                }
            }
            None
        },
        Figure::Frequency => {
            let h = skip_run(s, e, CharClass::Space);
            if e > d && h > e && has_lit_at(s, h, "MHz") {
                Some(e)
            } else {
                None
            }
        },
    }
}

fn cluster_label_of(f: Figure) -> (r: &'static str)
    ensures
        r@ == cluster_label(f),
{
    match f {
        Figure::Residency => "HW active residency:",
        Figure::Frequency => "HW active frequency:",
    }
}

fn gpu_label_of(f: Figure) -> (r: &'static str)
    ensures
        r@ == gpu_label(f),
{
    match f {
        Figure::Residency => "residency:",
        Figure::Frequency => "frequency:",
    }
}

fn rate_labels_of(r: RateLine) -> (t: (&'static str, &'static str, &'static str))
    ensures
        (t.0@, t.1@, t.2@) == rate_labels(r),
{
    match r {
        RateLine::Out => ("out:", "packets/s,", "bytes/s"),
        RateLine::In => ("in:", "packets/s,", "bytes/s"),
        RateLine::Read => ("read:", "ops/s", "KBytes/s"),
        RateLine::Write => ("write:", "ops/s,", "KBytes/s"),
    }
}

fn match_cluster_at(s: &Vec<char>, i: usize, f: Figure) -> (r: Option<ExecGroups>)
    requires
        i < s.len(),
    ensures
        r matches Some(g) ==> cluster_at(s@, i as int, f) == Some(groups_view(g)) && groups_in(
            groups_view(g),
            s@.len() as int,
        ),
        r is None ==> cluster_at(s@, i as int, f) is None,
{
    let w = skip_run(s, i, CharClass::Word);
    if w == i {
        return None;
    }
    let a = match past_lit(s, w, "-Cluster") {
        Some(a) => a,
        None => return None,
    };
    let b = skip_run(s, a, CharClass::Space);
    if b == a {
        return None;
    }
    let c = match past_lit(s, b, cluster_label_of(f)) {
        Some(c) => c,
        None => return None,
    };
    let d = skip_run(s, c, CharClass::Space);
    if d == c {
        return None;
    }
    match match_figure_end(s, d, f) {
        Some(g) => Some(((i, w), (d, g))),
        None => None,
    }
}

fn match_gpu_at(s: &Vec<char>, i: usize, f: Figure) -> (r: Option<ExecGroups>)
    requires
        i < s.len(),
    ensures
        r matches Some(g) ==> gpu_at(s@, i as int, f) == Some(groups_view(g)) && groups_in(
            groups_view(g),
            s@.len() as int,
        ),
        r is None ==> gpu_at(s@, i as int, f) is None,
{
    let a = match past_lit(s, i, "GPU") {
        Some(a) => a,
        None => return None,
    };
    let b = skip_run(s, a, CharClass::Space);
    let c = match past_lit(s, b, "HW") {
        Some(c) => c,
        None => b,
    };
    let d = skip_run(s, c, CharClass::Space);
    let e = match past_lit(s, d, "active") {
        Some(e) => e,
        None => return None,
    };
    let g = skip_run(s, e, CharClass::Space);
    let h = match past_lit(s, g, gpu_label_of(f)) {
        Some(h) => h,
        None => return None,
    };
    let j = skip_run(s, h, CharClass::Space);
    if j == h {
        return None;
    }
    match match_figure_end(s, j, f) {
        Some(m) => Some(((j, m), (j, m))),
        None => None,
    }
}

fn match_rate_at(s: &Vec<char>, i: usize, r: RateLine) -> (res: Option<ExecGroups>)
    requires
        i < s.len(),
    ensures
        res matches Some(g) ==> rate_at(s@, i as int, r) == Some(groups_view(g)) && groups_in(
            groups_view(g),
            s@.len() as int,
        ),
        res is None ==> rate_at(s@, i as int, r) is None,
{
    let (l1, l2, l3) = rate_labels_of(r);
    let a = match past_lit(s, i, l1) {
        Some(a) => a,
        None => return None,
    };
    let b = skip_run(s, a, CharClass::Space);
    let c = skip_run(s, b, CharClass::DigitOrPoint);
    if c == b {
        return None;
    }
    let d = skip_run(s, c, CharClass::Space);
    let e = match past_lit(s, d, l2) {
        Some(e) => e,
        None => return None,
    };
    let f = skip_run(s, e, CharClass::Space);
    let g = skip_run(s, f, CharClass::DigitOrPoint);
    if g == f {
        return None;
    }
    let h = skip_run(s, g, CharClass::Space);
    if !has_lit_at(s, h, l3) {
        return None;
    }
    Some(((b, c), (f, g)))
}

fn match_shape_at(s: &Vec<char>, i: usize, p: Shape) -> (r: Option<ExecGroups>)
    requires
        i < s.len(),
    ensures
        r matches Some(g) ==> shape_at(s@, i as int, p) == Some(groups_view(g)) && groups_in(
            groups_view(g),
            s@.len() as int,
        ),
        r is None ==> shape_at(s@, i as int, p) is None,
{
    match p {
        Shape::Cluster(f) => match_cluster_at(s, i, f),
        Shape::Gpu(f) => match_gpu_at(s, i, f),
        Shape::Rate(r) => match_rate_at(s, i, r),
    }
}

/// The groups of the leftmost match of `p` in `s`.
pub fn find_shape(s: &Vec<char>, p: Shape) -> (r: Option<ExecGroups>)
    ensures
        r matches Some(g) ==> first_match(s@, p) == Some(groups_view(g)) && groups_in(
            groups_view(g),
            s@.len() as int,
        ),
        r is None ==> first_match(s@, p) is None,
{
    let mut i: usize = 0;
    while i < s.len()
        invariant
            i <= s.len(),
            first_match_from(s@, i as int, p) == first_match(s@, p),
        decreases s.len() - i,
    {
        match match_shape_at(s, i, p) {
            Some(g) => return Some(g),
            None => {},
        }
        i = i + 1;
    }
    None
}

/// `t` with every trailing `mW` removed, as `str::trim_end_matches("mW")` does.
pub open spec fn strip_mw(t: Seq<char>) -> Seq<char>
    decreases t.len(),
{
    if t.len() >= 2 && t[t.len() - 2] == 'm' && t[t.len() - 1] == 'W' {
        strip_mw(t.subrange(0, t.len() - 2))
    } else {
        t
    }
}

/// The power figure of a line, in microwatts: its `k`-th whitespace-separated
/// token, less any trailing `mW`, read as `str::parse::<f64>` reads a
/// numeral, in milliwatts, times 1000 and rounded down (0 when negative).
/// `None` when the line has no such token; `Some(0)` when the token is no
/// numeral.
pub open spec fn power_token(s: Seq<char>, k: nat) -> Option<u64> {
    match nth_token(s, k) {
        Some((a, b)) => Some(
            match float_times(strip_mw(s.subrange(a, b)), 1000) {
                Some(v) => v,
                None => 0,
            },
        ),
        None => None,
    }
}

/// Where `s[a..b]` ends once every trailing `mW` is removed.
fn strip_mw_end(s: &Vec<char>, a: usize, b: usize) -> (r: usize)
    requires
        a <= b <= s.len(),
    ensures
        a <= r <= b,
        s@.subrange(a as int, r as int) == strip_mw(s@.subrange(a as int, b as int)),
{
    let mut e = b;
    while e - a >= 2 && s[e - 2] == 'm' && s[e - 1] == 'W'
        invariant
            a <= e <= b <= s.len(),
            strip_mw(s@.subrange(a as int, e as int)) == strip_mw(s@.subrange(a as int, b as int)),
        decreases e,
    {
        assert(s@.subrange(a as int, e as int).subrange(0, e - a - 2) =~= s@.subrange(
            a as int,
            e - 2,
        ));
        e = e - 2;
    }
    e
}

/// The power figure of a line (see `power_token`).
pub fn read_power_token(s: &Vec<char>, k: usize) -> (r: Option<u64>)
    ensures
        r == power_token(s@, k as nat),
{
    match find_token(s, k) {
        Some((a, b)) => {
            proof {
                lemma_token_from(s@, 0, k as nat, false);
            }
            let e = strip_mw_end(s, a, b);
            match read_float(s, a, e, 1000) {
                Some(v) => Some(v),
                None => Some(0),
            }
        },
        None => None,
    }
}

} // verus!
