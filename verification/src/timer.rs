//! A relative-deadline alarm service keyed by an opaque memo. Scheduling
//! records a one-shot alarm; a reset atomically drops every alarm still
//! pending by moving to a new epoch, so that a delivery scheduled before
//! the reset is recognised as stale and discarded. The waiting itself is
//! done by whoever runs the timer; this module is its bookkeeping.
use vstd::prelude::*;

verus! {

/// The timer's state: the alarms scheduled in the current epoch, each a
/// delay in milliseconds and its memo, and the epoch itself.
pub struct Timer<T> {
    epoch: u64,
    pending: Vec<(u64, T)>,
}

impl<T> Timer<T> {
    /// The alarms scheduled since the last reset, oldest first.
    pub closed spec fn alarms(&self) -> Seq<(u64, T)> {
        self.pending@
    }

    /// The current epoch; deliveries stamped with an older epoch are
    /// stale.
    pub closed spec fn epoch(&self) -> u64 {
        self.epoch
    }

    pub fn new() -> (t: Timer<T>)
        ensures
            t.alarms() == Seq::<(u64, T)>::empty(),
            t.epoch() == 0,
    {
        Timer { epoch: 0, pending: Vec::new() }
    }

    /// Schedule a one-shot delivery of `memo` after `delay_ms`. The
    /// returned ticket stamps the delivery with the current epoch.
    pub fn add_alarm(&mut self, delay_ms: u64, memo: T) -> (ticket: u64)
        ensures
            final(self).alarms() == old(self).alarms().push((delay_ms, memo)),
            final(self).epoch() == old(self).epoch(),
            ticket == old(self).epoch(),
    {
        self.pending.push((delay_ms, memo));
        self.epoch
    }

    /// Drop every pending alarm at once: deliveries already scheduled
    /// carry an older ticket and will be recognised as stale.
    pub fn reset(&mut self)
        requires
            old(self).epoch() < u64::MAX,
        ensures
            final(self).alarms() == Seq::<(u64, T)>::empty(),
            final(self).epoch() == old(self).epoch() + 1,
    {
        self.pending.clear();
        self.epoch = self.epoch + 1;
    }

    /// Whether a delivery stamped with this ticket is still live: only
    /// deliveries from the current epoch are.
    pub fn accepts(&self, ticket: u64) -> (live: bool)
        ensures
            live == (ticket == self.epoch()),
    {
        ticket == self.epoch
    }
}

} // verus!
