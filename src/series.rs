//! Time-windowed series: `(timestamp, value)` pairs in time order, pruned
//! from the oldest end to a fixed retention window, and averaged.
//!
//! Timestamps are milliseconds on a monotonic clock; values are fixed-point
//! utilization figures (hundredths of a percent).

use std::collections::VecDeque;
use vstd::prelude::*;

verus! {

/// How long a sample is kept: 120 seconds, in milliseconds.
pub const WINDOW_MS: u64 = 120000;

/// The earliest timestamp that a prune at `now` keeps.
pub open spec fn cutoff(now: u64) -> int {
    if now >= WINDOW_MS {
        now - WINDOW_MS
    } else {
        0
    }
}

/// `s` without its leading entries stamped before `cut`.
pub open spec fn pruned<T>(s: Seq<(u64, T)>, cut: int) -> Seq<(u64, T)>
    decreases s.len(),
{
    if s.len() > 0 && (s[0].0 as int) < cut {
        pruned(s.drop_first(), cut)
    } else {
        s
    }
}

pub open spec fn time_ordered<T>(s: Seq<(u64, T)>) -> bool {
    forall|i: int, j: int| 0 <= i <= j < s.len() ==> s[i].0 <= s[j].0
}

/// How old an entry stamped `t` is at `now`, in milliseconds.
pub open spec fn age(now: u64, t: u64) -> int {
    now - t
}

pub open spec fn sum_values(s: Seq<(u64, u64)>) -> nat
    decreases s.len(),
{
    if s.len() == 0 {
        0
    } else {
        sum_values(s.drop_last()) + s.last().1 as nat
    }
}

/// The unweighted mean of the values, rounded down; 0 for no values.
pub open spec fn mean(s: Seq<(u64, u64)>) -> nat {
    if s.len() == 0 {
        0
    } else {
        sum_values(s) / s.len()
    }
}

/// The timestamp an append at `now` gives: `now`, raised to the newest
/// timestamp already held so that the series stays in time order.
pub open spec fn stamp_for(s: Seq<(u64, u64)>, now: u64) -> u64 {
    if s.len() > 0 && s.last().0 > now {
        s.last().0
    } else {
        now
    }
}

/// The series `s` after appending `value` at `now` and pruning at `now`.
pub open spec fn windowed(s: Seq<(u64, u64)>, now: u64, value: u64) -> Seq<(u64, u64)> {
    pruned(s.push((stamp_for(s, now), value)), cutoff(now))
}

/// A window in time order with no entry older than `WINDOW_MS` at `now`.
pub open spec fn within_window(w: Seq<(u64, u64)>, now: u64) -> bool {
    &&& time_ordered(w)
    &&& forall|i: int| 0 <= i < w.len() ==> age(now, #[trigger] w[i].0) <= WINDOW_MS
}

/// Pruning keeps a suffix of the series: it removes entries from the oldest
/// end only.
pub proof fn lemma_pruned_suffix<T>(s: Seq<(u64, T)>, cut: int)
    ensures
        pruned(s, cut).len() <= s.len(),
        pruned(s, cut) == s.skip(s.len() - pruned(s, cut).len()),
        forall|i: int| 0 <= i < s.len() - pruned(s, cut).len() ==> (#[trigger] s[i].0 as int) < cut,
    decreases s.len(),
{
    if s.len() > 0 && (s[0].0 as int) < cut {
        lemma_pruned_suffix(s.drop_first(), cut);
        let k = s.len() - pruned(s, cut).len();
        assert(s.drop_first().skip(k - 1) =~= s.skip(k));
        assert forall|i: int| 0 <= i < k implies (#[trigger] s[i].0 as int) < cut by {
            if i > 0 {
                assert(s[i] == s.drop_first()[i - 1]);
            }
        }
    } else {
        assert(s.skip(0) =~= s);
    }
}

/// After a prune at `now` of a series in time order, no retained entry is
/// older than the window, and the series stays in time order; a series
/// whose entries are all older than the window prunes to empty.
pub proof fn lemma_prune_window<T>(s: Seq<(u64, T)>, now: u64)
    requires
        time_ordered(s),
    ensures
        forall|i: int|
            0 <= i < pruned(s, cutoff(now)).len() ==> age(
                now,
                #[trigger] pruned(s, cutoff(now))[i].0,
            ) <= WINDOW_MS,
        time_ordered(pruned(s, cutoff(now))),
        (forall|i: int| 0 <= i < s.len() ==> age(now, #[trigger] s[i].0) > WINDOW_MS) ==> pruned(
            s,
            cutoff(now),
        ).len() == 0,
{
    let cut = cutoff(now);
    let p = pruned(s, cut);
    lemma_pruned_suffix(s, cut);
    let k = s.len() - p.len();
    lemma_pruned_head(s, cut);
    assert forall|i: int| 0 <= i < p.len() implies age(now, #[trigger] p[i].0) <= WINDOW_MS by {
        assert(p[i] == s[k + i]);
        assert(p[0] == s[k]);
    }
    assert forall|i: int, j: int| 0 <= i <= j < p.len() implies p[i].0 <= p[j].0 by {
        assert(p[i] == s[k + i]);
        assert(p[j] == s[k + j]);
    }
    if forall|i: int| 0 <= i < s.len() ==> age(now, #[trigger] s[i].0) > WINDOW_MS {
        if p.len() > 0 {
            assert(p[0] == s[k]);
            assert(age(now, s[k].0) > WINDOW_MS);
        }
    }
}

/// The first entry that pruning keeps is stamped at or after the cutoff.
proof fn lemma_pruned_head<T>(s: Seq<(u64, T)>, cut: int)
    ensures
        pruned(s, cut).len() > 0 ==> pruned(s, cut)[0].0 as int >= cut,
    decreases s.len(),
{
    if s.len() > 0 && (s[0].0 as int) < cut {
        lemma_pruned_head(s.drop_first(), cut);
    }
}

proof fn lemma_sum_bound(s: Seq<(u64, u64)>)
    ensures
        sum_values(s) <= s.len() * (u64::MAX as nat),
    decreases s.len(),
{
    if s.len() > 0 {
        lemma_sum_bound(s.drop_last());
        assert(sum_values(s.drop_last()) + s.last().1 <= s.len() * (u64::MAX as nat))
            by (nonlinear_arith)
            requires
                sum_values(s.drop_last()) <= (s.len() - 1) * (u64::MAX as nat),
                s.last().1 <= u64::MAX,
        ;
    }
}

/// Removes from the front of `history` every entry stamped more than
/// `WINDOW_MS` before `now`, stopping at the first one that is recent.
pub fn retain_recent<T>(history: &mut VecDeque<(u64, T)>, now: u64)
    ensures
        final(history)@ == pruned(old(history)@, cutoff(now)),
{
    let cut: u64 = if now >= WINDOW_MS {
        now - WINDOW_MS
    } else {
        0
    };
    while history.len() > 0 && history[0].0 < cut
        invariant
            cut == cutoff(now),
            pruned(history@, cut as int) == pruned(old(history)@, cutoff(now)),
        decreases history@.len(),
    {
        let ghost before = history@;
        history.pop_front();
        assert(history@ =~= before.drop_first());
    }
}

/// The mean of the values of `history`, rounded down; 0 when it is empty.
pub fn average_history(history: &VecDeque<(u64, u64)>) -> (r: u64)
    ensures
        r == mean(history@),
{
    let n = history.len();
    if n == 0 {
        return 0;
    }
    let mut sum: u128 = 0;
    let mut i: usize = 0;
    while i < n
        invariant
            n == history@.len(),
            i <= n,
            sum == sum_values(history@.take(i as int)),
        decreases n - i,
    {
        let ghost pre = history@.take(i as int);
        assert(history@.take(i + 1).drop_last() =~= pre);
        proof {
            lemma_sum_bound(pre);
            assert(sum_values(pre) <= i * (u64::MAX as nat) <= (usize::MAX as nat) * (u64::MAX as nat))
                by (nonlinear_arith)
                requires
                    sum_values(pre) <= i * (u64::MAX as nat),
                    i <= usize::MAX,
            ;
        }
        sum = sum + history[i].1 as u128;
        i = i + 1;
    }
    assert(history@.take(n as int) =~= history@);
    proof {
        lemma_sum_bound(history@);
        let t = sum_values(history@);
        assert(t / (n as nat) <= u64::MAX) by (nonlinear_arith)
            requires
                t <= n * (u64::MAX as nat),
                n > 0,
        ;
    }
    (sum / n as u128) as u64
}

/// A time-windowed series of utilization figures: time-ordered
/// `(timestamp, value)` pairs, none older than the window at the last append.
pub struct TimeSeries {
    entries: VecDeque<(u64, u64)>,
}

impl View for TimeSeries {
    type V = Seq<(u64, u64)>;

    closed spec fn view(&self) -> Seq<(u64, u64)> {
        self.entries@
    }
}

impl Clone for TimeSeries {
    fn clone(&self) -> (r: Self)
        ensures
            r@ == self@,
    {
        proof {
            use_type_invariant(self);
        }
        let mut e: VecDeque<(u64, u64)> = VecDeque::new();
        let n = self.entries.len();
        let mut i: usize = 0;
        while i < n
            invariant
                n == self@.len(),
                i <= n,
                e@ == self@.take(i as int),
            decreases n - i,
        {
            e.push_back(self.entries[i]);
            assert(self@.take(i + 1) =~= self@.take(i as int).push(self@[i as int]));
            i = i + 1;
        }
        assert(self@.take(n as int) =~= self@);
        TimeSeries { entries: e }
    }
}

impl TimeSeries {
    #[verifier::type_invariant]
    closed spec fn ordered(&self) -> bool {
        time_ordered(self.entries@)
    }

    pub fn new() -> (r: TimeSeries)
        ensures
            r@ == Seq::<(u64, u64)>::empty(),
    {
        TimeSeries { entries: VecDeque::new() }
    }

    /// Appends `value` stamped at `now`, then prunes to the window at `now`.
    pub fn append(&mut self, now: u64, value: u64)
        ensures
            final(self)@ == windowed(old(self)@, now, value),
            within_window(final(self)@, now),
    {
        proof {
            use_type_invariant(&*self);
        }
        let mut e: VecDeque<(u64, u64)> = VecDeque::new();
        std::mem::swap(&mut self.entries, &mut e);
        let n = e.len();
        let stamp = if n > 0 && e[n - 1].0 > now {
            e[n - 1].0
        } else {
            now
        };
        let ghost before = e@;
        e.push_back((stamp, value));
        assert(time_ordered(e@)) by {
            assert forall|i: int, j: int| 0 <= i <= j < e@.len() implies e@[i].0 <= e@[j].0 by {
                if j == before.len() && i < j {
                    assert(before[i].0 <= before[before.len() - 1].0);
                }
            }
        }
        let ghost pushed = e@;
        retain_recent(&mut e, now);
        proof {
            lemma_prune_window(pushed, now);
        }
        std::mem::swap(&mut self.entries, &mut e);
    }

    /// The mean of the retained values, rounded down; 0 when none is held.
    pub fn average(&self) -> (r: u64)
        ensures
            r == mean(self@),
    {
        average_history(&self.entries)
    }

    pub fn len(&self) -> (r: usize)
        ensures
            r == self@.len(),
    {
        self.entries.len()
    }

    /// The retained entries, oldest first.
    pub fn entries(&self) -> (r: &VecDeque<(u64, u64)>)
        ensures
            r@ == self@,
    {
        &self.entries
    }
}

} // verus!
