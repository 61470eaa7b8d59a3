//! A signal for one task that waits for an event.

use vstd::prelude::*;

verus! {

/// A semaphore that is notified of an event, and that a task waits on.
#[derive(Debug, Clone, Copy, PartialEq, Eq, Structural)]
pub struct Notify {
    pub permits: usize,
}

impl Notify {
    pub fn new() -> (res: Self)
        ensures
            res.permits == 0,
    {
        Notify { permits: 0 }
    }

    /// Notifies one task of an event. There is one permit afterwards, however many there were.
    pub fn notify(&mut self)
        ensures
            final(self).permits == after_notify(old(self).permits as nat),
    {
        self.permits = 1;
    }

    /// Takes the permit, if there is one. Says whether there was; a task that got none waits.
    pub fn try_acquire(&mut self) -> (res: bool)
        ensures
            res == (old(self).permits > 0),
            final(self).permits == after_acquire(old(self).permits as nat),
    {
        if self.permits > 0 {
            self.permits = self.permits - 1;
            true
        } else {
            false
        }
    }

    /// Gives back a permit that was taken for a while.
    pub fn release(&mut self)
        requires
            old(self).permits < usize::MAX,
        ensures
            final(self).permits == old(self).permits + 1,
    {
        self.permits = self.permits + 1;
    }
}

/// The permits after a notification.
pub open spec fn after_notify(permits: nat) -> nat {
    1
}

/// The permits after a task has tried to take one.
pub open spec fn after_acquire(permits: nat) -> nat {
    if permits > 0 {
        (permits - 1) as nat
    } else {
        0
    }
}

/// The permits after a number of notifications, with none taken in between.
pub open spec fn after_notifications(permits: nat, notifications: nat) -> nat
    decreases notifications,
{
    if notifications == 0 {
        permits
    } else {
        after_notify(after_notifications(permits, (notifications - 1) as nat))
    }
}

/// Notifications do not pile up: however many there were, one task goes on, and the next one
/// waits.
pub proof fn law_notifications_do_not_pile_up(permits: nat, notifications: nat)
    requires
        notifications > 0,
    ensures
        after_notifications(permits, notifications) > 0,
        after_acquire(after_notifications(permits, notifications)) == 0,
{
}

} // verus!
