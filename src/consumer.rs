//! The consumer side: taking the latest snapshot off a channel, and
//! deciding when to refresh.

use crossbeam_channel::Receiver;
use vstd::prelude::*;
use crate::throttle::{notify_due, EventThrottler};

verus! {

/// The receiving end of a `crossbeam_channel` channel, carried through as an
/// opaque value.
#[verifier::external_type_specification]
#[verifier::external_body]
#[verifier::reject_recursive_types(T)]
pub struct ExReceiver<T>(Receiver<T>);

/// Relies on `crossbeam_channel::Receiver::len`: the number of messages in
/// the channel at the time of the call. Other threads may change it.
#[verifier::external_body]
fn pending_count<T>(rx: &Receiver<T>) -> usize {
    rx.len()
}

/// Relies on `crossbeam_channel::Receiver::try_recv`: the oldest message,
/// if the channel holds one, taken without blocking.
#[verifier::external_body]
fn try_take<T>(rx: &Receiver<T>) -> Option<T> {
    rx.try_recv().ok()
}

/// What is held after taking `msgs` in order, starting from `held`: each
/// message replaces what was held before it.
pub open spec fn drained<T>(held: Option<T>, msgs: Seq<T>) -> Option<T>
    decreases msgs.len(),
{
    if msgs.len() == 0 {
        held
    } else {
        drained(Some(msgs[0]), msgs.drop_first())
    }
}

/// Draining keeps exactly the most recent message: after `n > 0` messages
/// the last one is held, whatever was held before and whatever came before
/// it; after none, what was held stays.
pub proof fn lemma_drain_keeps_last<T>(held: Option<T>, msgs: Seq<T>)
    ensures
        msgs.len() > 0 ==> drained(held, msgs) == Some(msgs.last()),
        msgs.len() == 0 ==> drained(held, msgs) == held,
    decreases msgs.len(),
{
    if msgs.len() > 0 {
        lemma_drain_keeps_last(Some(msgs[0]), msgs.drop_first());
        if msgs.len() > 1 {
            assert(msgs.drop_first().last() == msgs.last());
        }
    }
}

/// The messages pending on `rx` when the call starts, oldest first, taken
/// off the channel without blocking. Messages that arrive meanwhile are
/// left for the next call. What the channel holds is up to the threads that
/// send on it, so nothing is promised of the result.
pub fn take_pending<T>(rx: &Receiver<T>) -> (r: Vec<T>) {
    let n = pending_count(rx);
    let mut taken: Vec<T> = Vec::new();
    let mut i: usize = 0;
    while i < n
        decreases n - i,
    {
        match try_take(rx) {
            Some(msg) => taken.push(msg),
            None => break,
        }
        i = i + 1;
    }
    taken
}

/// Replaces `current` by the last of `msgs`, discarding the others; says
/// whether there was any.
pub fn merge_latest<T>(current: &mut T, msgs: Vec<T>) -> (updated: bool)
    ensures
        updated == (msgs@.len() > 0),
        drained(Some(*old(current)), msgs@) == Some(*final(current)),
        updated ==> *final(current) == msgs@.last(),
        !updated ==> *final(current) == *old(current),
{
    proof {
        lemma_drain_keeps_last(Some(*current), msgs@);
    }
    let mut msgs = msgs;
    match msgs.pop() {
        Some(last) => {
            *current = last;
            true
        },
        None => false,
    }
}

/// Whether to refresh: when a snapshot came in, or else when the throttler
/// says a refresh is due (only then is the throttler consulted and moved).
pub fn should_render(updated: bool, throttler: &mut EventThrottler, now: u64) -> (r: bool)
    ensures
        r == (updated || notify_due(*old(throttler), now)),
        updated ==> *final(throttler) == *old(throttler),
        !updated ==> (r ==> final(throttler).last_event == Some(now)),
        !updated ==> (!r ==> *final(throttler) == *old(throttler)),
        final(throttler).grace_period == old(throttler).grace_period,
{
    if updated {
        true
    } else {
        throttler.should_notify(now)
    }
}

} // verus!
