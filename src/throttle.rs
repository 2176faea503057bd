//! Rate limiting of refreshes: a notification is due once a grace period
//! has passed since the last one.

use vstd::prelude::*;

verus! {

/// Times are milliseconds on a monotonic clock.
pub struct EventThrottler {
    /// When the last notification was given; `None` before the first.
    pub last_event: Option<u64>,
    pub grace_period: u64,
}

/// Milliseconds from `from` to `now`; 0 when `now` is earlier.
pub open spec fn elapsed(now: u64, from: u64) -> nat {
    if now >= from {
        (now - from) as nat
    } else {
        0
    }
}

/// A notification is due at `now`.
pub open spec fn notify_due(t: EventThrottler, now: u64) -> bool {
    match t.last_event {
        None => true,
        Some(last) => elapsed(now, last) >= t.grace_period,
    }
}

impl EventThrottler {
    /// A throttler whose first notification is due at once.
    pub fn new(grace_period: u64) -> (r: EventThrottler)
        ensures
            r.last_event is None,
            r.grace_period == grace_period,
    {
        EventThrottler { last_event: None, grace_period }
    }

    /// Whether a notification is due at `now`; when it is, it counts as given
    /// at `now`.
    pub fn should_notify(&mut self, now: u64) -> (r: bool)
        ensures
            r == notify_due(*old(self), now),
            r ==> final(self).last_event == Some(now),
            !r ==> final(self).last_event == old(self).last_event,
            final(self).grace_period == old(self).grace_period,
    {
        let due = match self.last_event {
            None => true,
            Some(last) => {
                let e = if now >= last {
                    now - last
                } else {
                    0
                };
                e >= self.grace_period
            },
        };
        if due {
            self.last_event = Some(now);
        }
        due
    }
}

} // verus!
