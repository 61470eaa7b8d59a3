//! When the user interface of an app asks to be repainted.

use crate::app::{Abortable, AppKey};
use crate::windowing::client::SurfaceEvent;
use crate::windowing::surface::ViewportId;
use vstd::prelude::*;

verus! {

/// A task that is to live as long as its handle. Letting go of the handle stops nothing by itself:
/// whoever holds it calls `abort` in the end.
pub struct LiveHandle<T: Abortable>(pub T);

impl<T: Abortable> LiveHandle<T> {
    /// Stops the task.
    pub fn abort(self)
        ensures
            call_ensures(T::abort, (&self.0,), ()),
    {
        self.0.abort();
    }
}

/// What the user interface asks for: a repaint of a viewport, after a delay in nanoseconds, with
/// the number of the pass in which it asks.
#[derive(Debug, Clone, Copy, PartialEq, Eq, Structural)]
pub struct RepaintRequest {
    pub viewport_id: ViewportId,
    pub delay: u128,
    pub current_cumulative_pass_nr: u64,
}

/// What becomes of a request: the task that waited before, if there is one, is stopped; a new one
/// waits for the delay, if there is one, and then sends the event.
pub struct RepaintPlan {
    pub abort_previous: bool,
    pub sleep: Option<u128>,
    pub event: SurfaceEvent,
}

/// The requests of one app. Only the last of them is waited for.
#[derive(Debug, Clone, Copy, PartialEq, Eq, Structural)]
pub struct RepaintRequests {
    pub key: AppKey,
    /// A task was started, and not replaced.
    pub waiting: bool,
}

impl RepaintRequests {
    pub fn new(key: AppKey) -> (res: Self)
        ensures
            res == (RepaintRequests { key, waiting: false }),
    {
        RepaintRequests { key, waiting: false }
    }

    /// Takes over a request.
    pub fn request(&mut self, info: RepaintRequest) -> (res: RepaintPlan)
        ensures
            *final(self) == (RepaintRequests { waiting: true, ..*old(self) }),
            res.abort_previous == old(self).waiting,
            res.sleep == if info.delay > 0 {
                Some(info.delay)
            } else {
                None
            },
            res.event == SurfaceEvent::NeedsRepaintViewport(
                old(self).key,
                info.viewport_id,
                info.current_cumulative_pass_nr,
            ),
    {
        let abort_previous = self.waiting;
        self.waiting = true;
        let sleep = if info.delay > 0 {
            Some(info.delay)
        } else {
            None
        };
        let event = SurfaceEvent::NeedsRepaintViewport(
            self.key,
            info.viewport_id,
            info.current_cumulative_pass_nr,
        );
        RepaintPlan { abort_previous, sleep, event }
    }
}

} // verus!
