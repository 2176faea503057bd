//! The CPU record: per-cluster residency and frequency, package power
//! figures, and the windows of cluster and ANE utilization.

use vstd::prelude::*;
use crate::grammar::{
    cluster_at, find_shape, first_match, lemma_no_match_from, power_token,
    read_power_token, shape_at, strip_mw, Figure, Shape,
};
use crate::numeral::{cap, exponent_of, float_times, mantissa, mantissa_end, pow10, sign_len};
use crate::number::{
    all_digits, digits_value, frac_digits, int_digits, is_decimal, padded, point_pos,
    read_scaled, scaled_decimal, to_whole_mhz, to_whole_percent, whole_mhz,
    whole_percent,
};
use crate::series::{within_window, cutoff, pruned, stamp_for, TimeSeries};
use crate::text::{
    chars_of, contains, has_lit, in_class, is_digit, is_space, is_word, lemma_run_end_exact,
    lemma_space_p_absent, lit_at, nth_token, run_end, token_from, CharClass,
};

verus! {

/// The power that counts as full ANE utilization, in microwatts.
pub const ANE_FULL_UW: u64 = 8000000;

/// A CPU cluster.
#[derive(Clone, Copy, PartialEq, Eq, Structural)]
pub enum Cluster {
    Efficiency,
    Performance,
}

/// The cluster that a name before `-Cluster` stands for: `E` or `E0`, `P` or
/// `P0`; any other name stands for none.
pub open spec fn cluster_named(name: Seq<char>) -> Option<Cluster> {
    if name == seq!['E'] || name == seq!['E', '0'] {
        Some(Cluster::Efficiency)
    } else if name == seq!['P'] || name == seq!['P', '0'] {
        Some(Cluster::Performance)
    } else {
        None
    }
}

/// The derived ANE utilization, in hundredths of a percent:
/// `clamp(watts * 100 / 8, 0, 100)`, rounded down.
pub open spec fn ane_util(uw: u64) -> u64 {
    if uw >= ANE_FULL_UW {
        10000
    } else {
        (uw / 800) as u64
    }
}

/// A whole percent as a window value, in hundredths of a percent.
pub open spec fn percent_value(p: i32) -> u64 {
    if p <= 0 {
        0
    } else {
        (p * 100) as u64
    }
}

#[derive(Clone)]
pub struct CPUMetrics {
    /// Active residency of the efficiency cluster, in whole percent.
    pub e_cluster_active: i32,
    pub e_cluster_freq_mhz: i32,
    /// Active residency of the performance cluster, in whole percent.
    pub p_cluster_active: i32,
    pub p_cluster_freq_mhz: i32,
    /// ANE power, in microwatts.
    pub ane_uw: u64,
    /// CPU power, in microwatts.
    pub cpu_uw: u64,
    /// GPU power, in microwatts.
    pub gpu_uw: u64,
    /// Combined package power, in microwatts.
    pub package_uw: u64,
    pub e_cluster_active_history: TimeSeries,
    pub p_cluster_active_history: TimeSeries,
    /// Derived ANE utilization, in hundredths of a percent.
    pub ane_util_history: TimeSeries,
}

/// The record after a residency line, if `s` holds one for a known cluster.
pub open spec fn after_residency(m: CPUMetrics, s: Seq<char>) -> CPUMetrics {
    match first_match(s, Shape::Cluster(Figure::Residency)) {
        Some(((a, w), (d, g))) => {
            let p = whole_percent(read_scaled(s.subrange(d, g), 0));
            match cluster_named(s.subrange(a, w)) {
                Some(Cluster::Efficiency) => CPUMetrics { e_cluster_active: p, ..m },
                Some(Cluster::Performance) => CPUMetrics { p_cluster_active: p, ..m },
                None => m,
            }
        },
        None => m,
    }
}

/// The record after a frequency line, if `s` holds one for a known cluster.
pub open spec fn after_frequency(m: CPUMetrics, s: Seq<char>) -> CPUMetrics {
    match first_match(s, Shape::Cluster(Figure::Frequency)) {
        Some(((a, w), (d, g))) => {
            let f = whole_mhz(read_scaled(s.subrange(d, g), 0));
            match cluster_named(s.subrange(a, w)) {
                Some(Cluster::Efficiency) => CPUMetrics { e_cluster_freq_mhz: f, ..m },
                Some(Cluster::Performance) => CPUMetrics { p_cluster_freq_mhz: f, ..m },
                None => m,
            }
        },
        None => m,
    }
}

/// The record after a power line. The first of `ANE Power`, `CPU Power`,
/// `GPU Power` and `Combined Power (CPU + GPU + ANE)` that `s` contains
/// decides the field; its figure is the third token (the eighth for the
/// combined figure), and a line too short for it changes nothing.
pub open spec fn after_power(m: CPUMetrics, s: Seq<char>) -> CPUMetrics {
    if contains(s, "ANE Power"@) {
        match power_token(s, 2) {
            Some(v) => CPUMetrics { ane_uw: v, ..m },
            None => m,
        }
    } else if contains(s, "CPU Power"@) {
        match power_token(s, 2) {
            Some(v) => CPUMetrics { cpu_uw: v, ..m },
            None => m,
        }
    } else if contains(s, "GPU Power"@) {
        match power_token(s, 2) {
            Some(v) => CPUMetrics { gpu_uw: v, ..m },
            None => m,
        }
    } else if contains(s, "Combined Power (CPU + GPU + ANE)"@) {
        match power_token(s, 7) {
            Some(v) => CPUMetrics { package_uw: v, ..m },
            None => m,
        }
    } else {
        m
    }
}

/// The record after reading the line `s`.
pub open spec fn cpu_after_line(m: CPUMetrics, s: Seq<char>) -> CPUMetrics {
    after_power(after_frequency(after_residency(m, s), s), s)
}

/// Which cluster the name `s[a..w]` stands for.
fn cluster_of(s: &Vec<char>, a: usize, w: usize) -> (r: Option<Cluster>)
    requires
        a <= w <= s.len(),
    ensures
        r == cluster_named(s@.subrange(a as int, w as int)),
{
    let ghost name = s@.subrange(a as int, w as int);
    let n = w - a;
    let e = n >= 1 && s[a] == 'E' && (n == 1 || (n == 2 && s[a + 1] == '0'));
    let p = n >= 1 && s[a] == 'P' && (n == 1 || (n == 2 && s[a + 1] == '0'));
    proof {
        let e_short = seq!['E'];
        let e_zero = seq!['E', '0'];
        let p_short = seq!['P'];
        let p_zero = seq!['P', '0'];
        assert(e_short.len() == 1 && e_short[0] == 'E' && e_zero.len() == 2 && e_zero[0] == 'E' && e_zero[1] == '0');
        assert(p_short.len() == 1 && p_short[0] == 'P' && p_zero.len() == 2 && p_zero[0] == 'P' && p_zero[1] == '0');
        assert(name.len() == n);
        if n >= 1 {
            assert(name[0] == s@[a as int]);
        }
        if n == 1 {
            assert(seq![s@[a as int]] =~= name);
        }
        if n == 2 {
            assert(name[1] == s@[a + 1]);
            assert(seq![s@[a as int], s@[a + 1]] =~= name);
        }
    }
    if e {
        Some(Cluster::Efficiency)
    } else if p {
        Some(Cluster::Performance)
    } else {
        None
    }
}

/// Reads one sampler line into the record; fields that the line does not
/// report keep their values.
pub fn parse_cpu_metrics(line: &str, m: &mut CPUMetrics)
    ensures
        *final(m) == cpu_after_line(*old(m), line@),
{
    let s = chars_of(line);
    match find_shape(&s, Shape::Cluster(Figure::Residency)) {
        Some(((a, w), (d, g))) => {
            let p = to_whole_percent(scaled_decimal(&s, d, g, 0));
            match cluster_of(&s, a, w) {
                Some(Cluster::Efficiency) => m.e_cluster_active = p,
                Some(Cluster::Performance) => m.p_cluster_active = p,
                None => {},
            }
        },
        None => {},
    }
    match find_shape(&s, Shape::Cluster(Figure::Frequency)) {
        Some(((a, w), (d, g))) => {
            let f = to_whole_mhz(scaled_decimal(&s, d, g, 0));
            match cluster_of(&s, a, w) {
                Some(Cluster::Efficiency) => m.e_cluster_freq_mhz = f,
                Some(Cluster::Performance) => m.p_cluster_freq_mhz = f,
                None => {},
            }
        },
        None => {},
    }
    if has_lit(&s, "ANE Power") {
        if let Some(v) = read_power_token(&s, 2) {
            m.ane_uw = v;
        }
    } else if has_lit(&s, "CPU Power") {
        if let Some(v) = read_power_token(&s, 2) {
            m.cpu_uw = v;
        }
    } else if has_lit(&s, "GPU Power") {
        if let Some(v) = read_power_token(&s, 2) {
            m.gpu_uw = v;
        }
    } else if has_lit(&s, "Combined Power (CPU + GPU + ANE)") {
        if let Some(v) = read_power_token(&s, 7) {
            m.package_uw = v;
        }
    }
}

/// The derived ANE utilization of a power in microwatts (see `ane_util`).
pub fn ane_utilization(uw: u64) -> (r: u64)
    ensures
        r == ane_util(uw),
        r <= 10000,
{
    if uw >= ANE_FULL_UW {
        10000
    } else {
        uw / 800
    }
}

/// A whole percent as a window value (see `percent_value`).
pub fn percent_to_value(p: i32) -> (r: u64)
    ensures
        r == percent_value(p),
{
    if p <= 0 {
        0
    } else {
        p as u64 * 100
    }
}

impl CPUMetrics {
    pub fn new() -> (r: CPUMetrics)
        ensures
            r.e_cluster_active == 0 && r.e_cluster_freq_mhz == 0,
            r.p_cluster_active == 0 && r.p_cluster_freq_mhz == 0,
            r.ane_uw == 0 && r.cpu_uw == 0 && r.gpu_uw == 0 && r.package_uw == 0,
            r.e_cluster_active_history@.len() == 0,
            r.p_cluster_active_history@.len() == 0,
            r.ane_util_history@.len() == 0,
    {
        CPUMetrics {
            e_cluster_active: 0,
            e_cluster_freq_mhz: 0,
            p_cluster_active: 0,
            p_cluster_freq_mhz: 0,
            ane_uw: 0,
            cpu_uw: 0,
            gpu_uw: 0,
            package_uw: 0,
            e_cluster_active_history: TimeSeries::new(),
            p_cluster_active_history: TimeSeries::new(),
            ane_util_history: TimeSeries::new(),
        }
    }

    /// Appends a whole percent to the efficiency cluster's window.
    pub fn append_e_cluster_active(&mut self, now: u64, value: i32)
        ensures
            within_window(final(self).e_cluster_active_history@, now),
            final(self).e_cluster_active_history@ == pruned(
                old(self).e_cluster_active_history@.push(
                    (stamp_for(old(self).e_cluster_active_history@, now), percent_value(value)),
                ),
                cutoff(now),
            ),
            *final(self) == (CPUMetrics {
                e_cluster_active_history: final(self).e_cluster_active_history,
                ..*old(self)
            }),
    {
        let v = percent_to_value(value);
        self.e_cluster_active_history.append(now, v);
    }

    /// Appends a whole percent to the performance cluster's window.
    pub fn append_p_cluster_active(&mut self, now: u64, value: i32)
        ensures
            within_window(final(self).p_cluster_active_history@, now),
            final(self).p_cluster_active_history@ == pruned(
                old(self).p_cluster_active_history@.push(
                    (stamp_for(old(self).p_cluster_active_history@, now), percent_value(value)),
                ),
                cutoff(now),
            ),
            *final(self) == (CPUMetrics {
                p_cluster_active_history: final(self).p_cluster_active_history,
                ..*old(self)
            }),
    {
        let v = percent_to_value(value);
        self.p_cluster_active_history.append(now, v);
    }

    /// Appends a utilization in hundredths of a percent to the ANE window.
    pub fn append_ane_util(&mut self, now: u64, value: u64)
        ensures
            within_window(final(self).ane_util_history@, now),
            final(self).ane_util_history@ == pruned(
                old(self).ane_util_history@.push((stamp_for(old(self).ane_util_history@, now), value)),
                cutoff(now),
            ),
            *final(self) == (CPUMetrics { ane_util_history: final(self).ane_util_history, ..*old(self) }),
    {
        self.ane_util_history.append(now, value);
    }

    /// The mean of the efficiency cluster's window, in hundredths of a percent.
    pub fn average_e_cluster_active(&self) -> (r: u64)
        ensures
            r == crate::series::mean(self.e_cluster_active_history@),
    {
        self.e_cluster_active_history.average()
    }

    /// The mean of the performance cluster's window, in hundredths of a percent.
    pub fn average_p_cluster_active(&self) -> (r: u64)
        ensures
            r == crate::series::mean(self.p_cluster_active_history@),
    {
        self.p_cluster_active_history.average()
    }

    /// The mean of the ANE utilization window, in hundredths of a percent.
    pub fn average_ane_util(&self) -> (r: u64)
        ensures
            r == crate::series::mean(self.ane_util_history@),
    {
        self.ane_util_history.average()
    }
}

/// A residency line: `<name>-Cluster HW active residency: <whole>.<frac>%`.
pub open spec fn residency_line(name: Seq<char>, whole: Seq<char>, frac: Seq<char>) -> Seq<char> {
    name + "-Cluster HW active residency: "@ + whole + seq!['.'] + frac + seq!['%']
}

pub open spec fn all_word(t: Seq<char>) -> bool {
    forall|j: int| 0 <= j < t.len() ==> is_word(#[trigger] t[j])
}

/// Where each part of a residency line stands.
proof fn lemma_line_layout(name: Seq<char>, whole: Seq<char>, frac: Seq<char>)
    ensures
        ({
            let s = residency_line(name, whole, frac);
            let lit = "-Cluster HW active residency: "@;
            let w = name.len() as int;
            let d = w + 30;
            let p = d + whole.len();
            let g = p + 1 + frac.len();
            &&& lit.len() == 30
            &&& s.len() == g + 1
            &&& forall|q: int| 0 <= q < w ==> #[trigger] s[q] == name[q]
            &&& forall|q: int| w <= q < d ==> #[trigger] s[q] == lit[q - w]
            &&& forall|q: int| d <= q < p ==> #[trigger] s[q] == whole[q - d]
            &&& s[p] == '.'
            &&& forall|q: int| p < q < g ==> #[trigger] s[q] == frac[q - p - 1]
            &&& s[g] == '%'
        }),
{
    reveal_strlit("-Cluster HW active residency: ");
    let s = residency_line(name, whole, frac);
    let lit = "-Cluster HW active residency: "@;
    let w = name.len() as int;
    let d = w + 30;
    let p = d + whole.len();
    let g = p + 1 + frac.len();
    assert forall|q: int| 0 <= q < w implies #[trigger] s[q] == name[q] by {}
    assert forall|q: int| w <= q < d implies #[trigger] s[q] == lit[q - w] by {}
    assert forall|q: int| d <= q < p implies #[trigger] s[q] == whole[q - d] by {}
    assert forall|q: int| p < q < g implies #[trigger] s[q] == frac[q - p - 1] by {}
}

/// In a residency line the only `-` is the one of `-Cluster`, and no space
/// is followed by `P`.
proof fn lemma_line_marks(name: Seq<char>, whole: Seq<char>, frac: Seq<char>)
    requires
        all_word(name),
        whole.len() > 0,
        all_digits(whole),
        all_digits(frac),
    ensures
        ({
            let s = residency_line(name, whole, frac);
            &&& forall|q: int| 0 <= q < s.len() && #[trigger] s[q] == '-' ==> q == name.len()
            &&& forall|q: int|
                0 <= q < s.len() - 1 && #[trigger] s[q] == ' ' ==> s[q + 1] != 'P'
        }),
{
    reveal_strlit("-Cluster HW active residency: ");
    lemma_line_layout(name, whole, frac);
    let s = residency_line(name, whole, frac);
    let lit = "-Cluster HW active residency: "@;
    let w = name.len() as int;
    let d = w + 30;
    let p = d + whole.len();
    let g = p + 1 + frac.len();
    assert forall|q: int| 0 <= q < s.len() && #[trigger] s[q] == '-' implies q == w by {
        if q < w {
            assert(is_word(name[q]));
        } else if d <= q < p {
            assert(is_digit(whole[q - d]));
        } else if p < q < g {
            assert(is_digit(frac[q - p - 1]));
        } else if w <= q < d {
            assert(lit[q - w] == '-');
        }
    }
    assert forall|q: int| 0 <= q < s.len() - 1 && #[trigger] s[q] == ' ' implies s[q + 1] != 'P' by {
        if q < w {
            assert(is_word(name[q]));
        } else if d <= q < p {
            assert(is_digit(whole[q - d]));
        } else if p < q < g {
            assert(is_digit(frac[q - p - 1]));
        } else if q == d - 1 {
            assert(is_digit(whole[0]));
        } else if w <= q < d - 1 {
            assert(lit[q - w] == ' ');
            assert(s[q + 1] == lit[q + 1 - w]);
        }
    }
}

/// A residency line matches the residency shape at its start, with the
/// name and the figure as its groups.
proof fn lemma_line_match(name: Seq<char>, whole: Seq<char>, frac: Seq<char>)
    requires
        name.len() > 0,
        all_word(name),
        whole.len() > 0,
        all_digits(whole),
        frac.len() > 0,
        all_digits(frac),
    ensures
        ({
            let s = residency_line(name, whole, frac);
            let w = name.len() as int;
            let d = w + 30;
            let g = d + whole.len() + 1 + frac.len();
            first_match(s, Shape::Cluster(Figure::Residency)) == Some(((0int, w), (d, g)))
        }),
{
    reveal_strlit("-Cluster HW active residency: ");
    reveal_strlit("-Cluster");
    reveal_strlit("HW active residency:");
    lemma_line_layout(name, whole, frac);
    let s = residency_line(name, whole, frac);
    let lit = "-Cluster HW active residency: "@;
    let w = name.len() as int;
    let d = w + 30;
    let p = d + whole.len();
    let g = p + 1 + frac.len();
    assert forall|q: int| 0 <= q < w implies in_class(#[trigger] s[q], CharClass::Word) by {
        assert(is_word(name[q]));
    }
    lemma_run_end_exact(s, 0, w, CharClass::Word);
    assert(s.subrange(w, w + 8) =~= "-Cluster"@);
    assert(s[w + 8] == lit[8] && s[w + 9] == lit[9]);
    lemma_run_end_exact(s, w + 8, w + 9, CharClass::Space);
    assert(s.subrange(w + 9, w + 29) =~= "HW active residency:"@);
    assert(!is_space(s[d])) by {
        assert(is_digit(whole[0]));
    }
    assert(s[w + 29] == lit[29]);
    lemma_run_end_exact(s, w + 29, d, CharClass::Space);
    assert forall|q: int| d <= q < p implies in_class(#[trigger] s[q], CharClass::Digit) by {
        assert(is_digit(whole[q - d]));
    }
    lemma_run_end_exact(s, d, p, CharClass::Digit);
    assert forall|q: int| p + 1 <= q < g implies in_class(#[trigger] s[q], CharClass::Digit) by {
        assert(is_digit(frac[q - p - 1]));
    }
    lemma_run_end_exact(s, p + 1, g, CharClass::Digit);
    assert(cluster_at(s, 0, Figure::Residency) == Some(((0int, w), (d, g))));
}

/// The figure `<whole>.<frac>` reads, rounded down, as the value of `whole`.
proof fn lemma_figure_floor(whole: Seq<char>, frac: Seq<char>)
    requires
        whole.len() > 0,
        all_digits(whole),
        all_digits(frac),
        frac.len() > 0,
    ensures
        read_scaled(whole + seq!['.'] + frac, 0) == Some(
            crate::number::min_nat(digits_value(whole), u64::MAX as nat) as u64,
        ),
{
    let t = whole + seq!['.'] + frac;
    let n = whole.len() as int;
    assert forall|q: int| 0 <= q < n implies in_class(#[trigger] t[q], CharClass::Digit) by {
        assert(t[q] == whole[q]);
        assert(is_digit(whole[q]));
    }
    assert(t[n] == '.');
    lemma_run_end_exact(t, 0, n, CharClass::Digit);
    assert forall|q: int| n + 1 <= q < t.len() implies in_class(#[trigger] t[q], CharClass::Digit) by {
        assert(t[q] == frac[q - n - 1]);
        assert(is_digit(frac[q - n - 1]));
    }
    lemma_run_end_exact(t, n + 1, t.len() as int, CharClass::Digit);
    assert(point_pos(t) == n);
    assert(is_decimal(t));
    assert(int_digits(t) =~= whole);
    assert(int_digits(t) + padded(frac_digits(t), 0) =~= whole);
}

/// A residency line holds no frequency shape and no power line.
proof fn lemma_line_alone(name: Seq<char>, whole: Seq<char>, frac: Seq<char>)
    requires
        name.len() > 0,
        all_word(name),
        whole.len() > 0,
        all_digits(whole),
        frac.len() > 0,
        all_digits(frac),
    ensures
        ({
            let s = residency_line(name, whole, frac);
            &&& first_match(s, Shape::Cluster(Figure::Frequency)) is None
            &&& !contains(s, "ANE Power"@)
            &&& !contains(s, "CPU Power"@)
            &&& !contains(s, "GPU Power"@)
            &&& !contains(s, "Combined Power (CPU + GPU + ANE)"@)
        }),
{
    reveal_strlit("-Cluster HW active residency: ");
    reveal_strlit("-Cluster");
    reveal_strlit("HW active frequency:");
    reveal_strlit("ANE Power");
    reveal_strlit("CPU Power");
    reveal_strlit("GPU Power");
    reveal_strlit("Combined Power (CPU + GPU + ANE)");
    lemma_line_layout(name, whole, frac);
    lemma_line_marks(name, whole, frac);
    let s = residency_line(name, whole, frac);
    let lit = "-Cluster HW active residency: "@;
    let w = name.len() as int;
    assert(s[w + 8] == lit[8] && s[w + 9] == lit[9] && s[w + 19] == lit[19]);
    lemma_run_end_exact(s, w + 8, w + 9, CharClass::Space);
    assert forall|i: int| 0 <= i < s.len() implies #[trigger] shape_at(
        s,
        i,
        Shape::Cluster(Figure::Frequency),
    ) is None by {
        let wi = run_end(s, i, CharClass::Word);
        if cluster_at(s, i, Figure::Frequency) is Some {
            assert(lit_at(s, wi, "-Cluster"@));
            assert(s.subrange(wi, wi + 8)[0] == s[wi]);
            assert(wi == w);
            assert(lit_at(s, w + 9, "HW active frequency:"@));
            assert(s.subrange(w + 9, w + 29)[10] == s[w + 19]);
        }
    }
    lemma_no_match_from(s, 0, Shape::Cluster(Figure::Frequency));
    lemma_space_p_absent(s, "ANE Power"@, 3);
    lemma_space_p_absent(s, "CPU Power"@, 3);
    lemma_space_p_absent(s, "GPU Power"@, 3);
    lemma_space_p_absent(s, "Combined Power (CPU + GPU + ANE)"@, 8);
}

/// Reading a residency line `<name>-Cluster HW active residency: P%` sets the
/// named cluster's active percent to `floor(P)` and leaves every other field
/// as it was; a name that stands for no cluster leaves the record as it was.
pub proof fn lemma_residency_line(m: CPUMetrics, name: Seq<char>, whole: Seq<char>, frac: Seq<char>)
    requires
        name.len() > 0,
        all_word(name),
        whole.len() > 0,
        all_digits(whole),
        frac.len() > 0,
        all_digits(frac),
        digits_value(whole) <= i32::MAX,
    ensures
        cpu_after_line(m, residency_line(name, whole, frac)) == match cluster_named(name) {
            Some(Cluster::Efficiency) => CPUMetrics {
                e_cluster_active: digits_value(whole) as i32,
                ..m
            },
            Some(Cluster::Performance) => CPUMetrics {
                p_cluster_active: digits_value(whole) as i32,
                ..m
            },
            None => m,
        },
{
    let s = residency_line(name, whole, frac);
    let w = name.len() as int;
    let d = w + 30;
    let g = d + whole.len() + 1 + frac.len();
    lemma_line_layout(name, whole, frac);
    lemma_line_match(name, whole, frac);
    lemma_line_alone(name, whole, frac);
    lemma_figure_floor(whole, frac);
    assert(s.subrange(d, g) =~= whole + seq!['.'] + frac);
    assert(s.subrange(0, w) =~= name);
}

/// An ANE power line: `ANE Power: <figure> mW`.
pub open spec fn ane_power_line(figure: Seq<char>) -> Seq<char> {
    "ANE Power: "@ + figure + " mW"@
}

/// No shape that starts with a name before `-Cluster` stands in a line
/// without a `-`.
proof fn lemma_no_cluster(s: Seq<char>, f: Figure)
    requires
        forall|q: int| 0 <= q < s.len() ==> #[trigger] s[q] != '-',
    ensures
        first_match(s, Shape::Cluster(f)) is None,
{
    reveal_strlit("-Cluster");
    assert forall|i: int| 0 <= i < s.len() implies #[trigger] shape_at(s, i, Shape::Cluster(f))
        is None by {
        let w = run_end(s, i, CharClass::Word);
        if cluster_at(s, i, f) is Some {
            assert(lit_at(s, w, "-Cluster"@));
            assert(s.subrange(w, w + 8)[0] == s[w]);
        }
    }
    lemma_no_match_from(s, 0, Shape::Cluster(f));
}

/// A power line `ANE Power: P mW`, with `P` digits, sets the ANE power to
/// `P` milliwatts (in microwatts, held to `u64::MAX`) and leaves every other
/// field as it was.
pub proof fn lemma_ane_power_line(m: CPUMetrics, figure: Seq<char>)
    requires
        figure.len() > 0,
        all_digits(figure),
    ensures
        cpu_after_line(m, ane_power_line(figure)) == (CPUMetrics {
            ane_uw: cap(digits_value(figure) * 1000),
            ..m
        }),
{
    reveal_strlit("ANE Power: ");
    reveal_strlit(" mW");
    reveal_strlit("ANE Power");
    let s = ane_power_line(figure);
    let n = figure.len() as int;
    let head = "ANE Power: "@;
    let tail = " mW"@;
    assert(head.len() == 11 && tail.len() == 3);
    assert(s.len() == n + 14);
    assert forall|q: int| 0 <= q < 11 implies #[trigger] s[q] == head[q] by {}
    assert forall|q: int| 11 <= q < 11 + n implies #[trigger] s[q] == figure[q - 11] by {}
    assert forall|q: int| 11 + n <= q < 14 + n implies #[trigger] s[q] == tail[q - 11 - n] by {}
    // no dash: no cluster line
    assert forall|q: int| 0 <= q < s.len() implies #[trigger] s[q] != '-' by {
        if 11 <= q < 11 + n {
            assert(is_digit(figure[q - 11]));
        }
    }
    lemma_no_cluster(s, Figure::Residency);
    lemma_no_cluster(s, Figure::Frequency);
    // the ANE label stands at the start
    assert(s.subrange(0, 9) =~= "ANE Power"@);
    assert(lit_at(s, 0, "ANE Power"@));
    // the third token is the figure
    assert forall|q: int| 11 <= q < 11 + n implies in_class(#[trigger] s[q], CharClass::NonSpace) by {
        assert(is_digit(figure[q - 11]));
    }
    assert(s[11 + n] == ' ');
    lemma_run_end_exact(s, 11, 11 + n, CharClass::NonSpace);
    assert(!is_space(s[11])) by {
        assert(is_digit(figure[0]));
    }
    assert(token_from(s, 11, 0, false) == Some((11int, 11 + n)));
    assert(token_from(s, 10, 0, true) == token_from(s, 11, 0, false));
    assert(token_from(s, 9, 0, true) == token_from(s, 10, 0, true));
    assert(token_from(s, 8, 0, true) == token_from(s, 9, 0, true));
    assert(token_from(s, 7, 0, true) == token_from(s, 8, 0, true));
    assert(token_from(s, 6, 0, true) == token_from(s, 7, 0, true));
    assert(token_from(s, 5, 0, true) == token_from(s, 6, 0, true));
    assert(token_from(s, 4, 1, false) == token_from(s, 5, 0, true));
    assert(token_from(s, 3, 1, true) == token_from(s, 4, 1, false));
    assert(token_from(s, 2, 1, true) == token_from(s, 3, 1, true));
    assert(token_from(s, 1, 1, true) == token_from(s, 2, 1, true));
    assert(token_from(s, 0, 2, false) == token_from(s, 1, 1, true));
    assert(nth_token(s, 2) == Some((11int, 11 + n)));
    // the figure reads as itself, in thousandths
    let t = s.subrange(11, 11 + n);
    assert(t =~= figure);
    assert(is_digit(figure[n - 1]));
    assert(strip_mw(figure) == figure);
    assert forall|q: int| 0 <= q < n implies in_class(#[trigger] figure[q], CharClass::DigitOrPoint) by {
        assert(is_digit(figure[q]));
    }
    lemma_run_end_exact(figure, 0, n, CharClass::DigitOrPoint);
    assert(sign_len(figure) == 0);
    assert(mantissa_end(figure) == n);
    assert(exponent_of(figure) == Some(0int));
    assert(mantissa(figure) =~= figure);
    assert forall|q: int| 0 <= q < n implies in_class(#[trigger] figure[q], CharClass::Digit) by {
        assert(is_digit(figure[q]));
    }
    lemma_run_end_exact(figure, 0, n, CharClass::Digit);
    assert(point_pos(figure) == n);
    assert(is_decimal(figure));
    assert(int_digits(figure) =~= figure);
    assert(frac_digits(figure) =~= Seq::<char>::empty());
    assert(int_digits(figure) + frac_digits(figure) =~= figure);
    assert(pow10(0) == 1);
    assert(float_times(figure, 1000) == Some(cap(digits_value(figure) * 1000)));
    assert(power_token(s, 2) == Some(cap(digits_value(figure) * 1000)));
}

} // verus!
