use vstd::prelude::*;

use crate::handler::Action;

verus! {

/// Handles a one-shot timer descriptor: when it fires, its callback runs and
/// the descriptor is dropped.
pub struct TimerHander<C> {
    callback: Option<C>,
}

impl<C> TimerHander<C> {
    /// The callback, while the timer has not fired.
    pub closed spec fn pending_callback(&self) -> Option<C> {
        self.callback
    }

    /// A timer handler that runs `callback` when the timer fires.
    pub fn new(callback: C) -> (h: Self)
        ensures
            h.pending_callback() == Some(callback),
    {
        TimerHander { callback: Some(callback) }
    }

    /// Whether the timer has not fired yet.
    pub fn is_armed(&self) -> (armed: bool)
        ensures
            armed == self.pending_callback() is Some,
    {
        self.callback.is_some()
    }

    /// The timer fired: answers the callback to run now, and `Stop` for the
    /// reactor. A handler fires once; its descriptor is dropped after.
    pub fn handle<T>(&mut self) -> (fired: (C, Action<T>))
        requires
            old(self).pending_callback() is Some,
        ensures
            fired.0 == old(self).pending_callback()->0,
            fired.1 is Stop,
            final(self).pending_callback() is None,
    {
        match self.callback.take() {
            Some(cb) => (cb, Action::Stop),
            None => vstd::pervasive::unreached(),
        }
    }
}

} // verus!
