use vstd::prelude::*;

verus! {

/// What a registered descriptor waits for.
#[derive(Clone, Copy, Debug, PartialEq, Eq, Structural)]
pub enum Interest {
    Read,
    Write,
}

/// What a handler answers the reactor after it dealt with a ready
/// descriptor: keep it or drop it, and possibly hand a task to the executor.
pub enum Action<T> {
    /// Drop the descriptor.
    Stop,
    /// Keep the descriptor.
    Continue,
    /// Run the task and keep the descriptor.
    Task(T),
    /// Run the task and drop the descriptor.
    TaskAndStop(T),
}

impl<T> Action<T> {
    /// The action drops the descriptor.
    pub open spec fn stops(self) -> bool {
        self is Stop || self is TaskAndStop
    }

    /// The task the action hands to the executor, if any.
    pub open spec fn task(self) -> Option<T> {
        match self {
            Action::Task(t) => Some(t),
            Action::TaskAndStop(t) => Some(t),
            _ => None,
        }
    }
}

/// How a non-blocking read or write on a descriptor went.
#[derive(Clone, Copy, Debug, PartialEq, Eq, Structural)]
pub enum IoOutcome {
    /// The call moved this many bytes; zero on a write means the other end
    /// takes no more, zero on a read means the end of the stream.
    Transferred(usize),
    /// The call would have blocked (`EAGAIN`).
    WouldBlock,
    /// The call failed otherwise.
    Failed,
}

} // verus!
