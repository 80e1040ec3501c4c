use vstd::prelude::*;

use nix::sys::signal::Signal;

use crate::handler::Action;

verus! {

/// Whether nix knows `signo` as a signal of this platform.
pub uninterp spec fn is_signal_number(signo: i32) -> bool;

/// `Signal::try_from(i32)`, reduced to whether it succeeds: it succeeds
/// exactly on the numbers nix lists as signals of the platform (the
/// `TryFrom` that nix's `libc_enum!` writes matches each listed constant
/// and answers `EINVAL` otherwise). Which numbers those are is not stated.
#[verifier::external_body]
fn known_signal(signo: i32) -> (known: bool)
    ensures
        known == is_signal_number(signo),
{
    Signal::try_from(signo).is_ok()
}

/// `Signal::SIGTERM` as its number: libc defines `SIGTERM` as 15 on the
/// Linux-like targets that have `signalfd`, and nix lists it, so
/// `Signal::try_from` succeeds on it.
#[verifier::external_body]
fn terminate_signal() -> (signo: i32)
    ensures
        signo == 15,
        is_signal_number(signo),
{
    Signal::SIGTERM as i32
}

/// What reading a signal descriptor gave.
#[derive(Clone, Copy, Debug, PartialEq, Eq, Structural)]
pub enum SignalRead {
    /// A signal arrived; this is its `ssi_signo`.
    Received(u32),
    /// No signal was pending.
    Empty,
    /// The read would have blocked (`EAGAIN`).
    WouldBlock,
    /// The read failed otherwise.
    Failed,
}

/// The work queued for a signal: call `callback` with the signal `signo`.
pub struct SignalTask<C> {
    pub callback: C,
    pub signo: i32,
}

/// The signal number handed to the callback for a raw `ssi_signo`: the
/// number itself when it names a signal, `SIGTERM` otherwise.
pub open spec fn delivered_signal(raw: u32, signo: i32) -> bool {
    if is_signal_number(raw as i32) {
        signo == raw as i32
    } else {
        signo == 15
    }
}

/// Handles a signal descriptor with a callback that runs once: the first
/// signal hands the callback to the executor, and any later one stops the
/// handler.
pub struct SignalHandler<C> {
    callback: Option<C>,
}

impl<C> SignalHandler<C> {
    /// The callback, while it has not been handed out.
    pub closed spec fn pending_callback(&self) -> Option<C> {
        self.callback
    }

    /// `after` is `before` once `event` was read, and `action` is what the
    /// reactor is told.
    pub open spec fn stepped(
        before: Self,
        after: Self,
        event: SignalRead,
        action: Action<SignalTask<C>>,
    ) -> bool {
        match event {
            SignalRead::Received(raw) => {
                &&& after.pending_callback() is None
                &&& match before.pending_callback() {
                    Some(cb) => action matches Action::Task(t) && t.callback == cb
                        && delivered_signal(raw, t.signo) && is_signal_number(t.signo),
                    None => action is Stop,
                }
            },
            SignalRead::Empty => action is Continue && after == before,
            SignalRead::WouldBlock => action is Continue && after == before,
            SignalRead::Failed => action is Stop && after == before,
        }
    }

    /// A handler that will hand `callback` to the executor on the first
    /// signal.
    pub fn new(callback: C) -> (h: Self)
        ensures
            h.pending_callback() == Some(callback),
    {
        SignalHandler { callback: Some(callback) }
    }

    /// Takes in what reading the signal descriptor gave.
    pub fn handle(&mut self, event: SignalRead) -> (action: Action<SignalTask<C>>)
        ensures
            Self::stepped(*old(self), *final(self), event, action),
    {
        match event {
            SignalRead::Received(raw) => {
                let number = raw as i32;
                let signo = if known_signal(number) {
                    number
                } else {
                    terminate_signal()
                };
                match self.callback.take() {
                    Some(callback) => Action::Task(SignalTask { callback, signo }),
                    None => Action::Stop,
                }
            },
            SignalRead::Empty => Action::Continue,
            SignalRead::WouldBlock => Action::Continue,
            SignalRead::Failed => Action::Stop,
        }
    }
}

/// `hs` are the states a signal handler goes through while it takes in
/// `events`, one after the other, and answers `actions`.
pub open spec fn signal_run<C>(
    hs: Seq<SignalHandler<C>>,
    events: Seq<SignalRead>,
    actions: Seq<Action<SignalTask<C>>>,
) -> bool {
    &&& hs.len() == events.len() + 1
    &&& actions.len() == events.len()
    &&& forall|i: int|
        0 <= i < events.len() ==> SignalHandler::stepped(hs[i], hs[i + 1], events[i], #[trigger] actions[i])
}

/// In a run, the handler still holds its first callback or none at all, and
/// once it holds none it never holds one again.
proof fn lemma_signal_callback_only_leaves<C>(
    hs: Seq<SignalHandler<C>>,
    events: Seq<SignalRead>,
    actions: Seq<Action<SignalTask<C>>>,
)
    requires
        signal_run(hs, events, actions),
    ensures
        forall|i: int|
            0 <= i < hs.len() ==> #[trigger] hs[i].pending_callback() == hs[0].pending_callback()
                || hs[i].pending_callback() is None,
        forall|i: int, j: int|
            #![trigger hs[i].pending_callback(), hs[j].pending_callback()]
            0 <= i <= j < hs.len() && hs[i].pending_callback() is None ==> hs[j].pending_callback() is None,
    decreases events.len(),
{
    let n = events.len() as int;
    if n > 0 {
        let hp = hs.drop_last();
        let ep = events.drop_last();
        let ap = actions.drop_last();
        assert forall|i: int| 0 <= i < ep.len() implies SignalHandler::stepped(
            hp[i],
            hp[i + 1],
            ep[i],
            #[trigger] ap[i],
        ) by {
            assert(SignalHandler::stepped(hs[i], hs[i + 1], events[i], actions[i]));
        }
        lemma_signal_callback_only_leaves(hp, ep, ap);
        assert(SignalHandler::stepped(hs[n - 1], hs[n], events[n - 1], actions[n - 1]));
        assert(hp[n - 1] == hs[n - 1]);
        assert forall|i: int| 0 <= i < hs.len() implies #[trigger] hs[i].pending_callback()
            == hs[0].pending_callback() || hs[i].pending_callback() is None by {
            if i < n {
                assert(hp[i] == hs[i]);
            }
        }
        assert forall|i: int, j: int|
            #![trigger hs[i].pending_callback(), hs[j].pending_callback()]
            0 <= i <= j < hs.len() && hs[i].pending_callback() is None implies hs[j].pending_callback() is None by {
            if j < n {
                assert(hp[i] == hs[i]);
                assert(hp[j] == hs[j]);
            } else if i < n {
                assert(hp[i] == hs[i]);
                assert(hp[n - 1].pending_callback() is None);
            }
        }
    }
}

/// However many events a signal handler takes in, at most one answer hands
/// a callback to the executor, and that callback is the one the handler was
/// made with; after it, every signal stops the handler.
pub proof fn law_signal_callback_once<C>(
    hs: Seq<SignalHandler<C>>,
    events: Seq<SignalRead>,
    actions: Seq<Action<SignalTask<C>>>,
)
    requires
        signal_run(hs, events, actions),
    ensures
        forall|i: int|
            0 <= i < actions.len() && #[trigger] actions[i] is Task ==> hs[0].pending_callback()
                == Some(actions[i]->Task_0.callback),
        forall|i: int, j: int|
            0 <= i < j < actions.len() && #[trigger] actions[i] is Task ==> !(#[trigger] actions[j] is Task),
        forall|i: int, j: int|
            0 <= i < j < actions.len() && #[trigger] actions[i] is Task && #[trigger] events[j] is Received
                ==> actions[j] is Stop,
{
    lemma_signal_callback_only_leaves(hs, events, actions);
    assert forall|i: int|
        0 <= i < actions.len() && #[trigger] actions[i] is Task implies hs[0].pending_callback()
        == Some(actions[i]->Task_0.callback) by {
        assert(SignalHandler::stepped(hs[i], hs[i + 1], events[i], actions[i]));
        assert(hs[i].pending_callback() == hs[0].pending_callback() || hs[i].pending_callback() is None);
    }
    assert forall|i: int, j: int|
        0 <= i < j < actions.len() && #[trigger] actions[i] is Task implies !(
        #[trigger] actions[j] is Task) by {
        assert(SignalHandler::stepped(hs[i], hs[i + 1], events[i], actions[i]));
        assert(SignalHandler::stepped(hs[j], hs[j + 1], events[j], actions[j]));
        assert(hs[i + 1].pending_callback() is None);
        assert(hs[j].pending_callback() is None);
    }
    assert forall|i: int, j: int|
        0 <= i < j < actions.len() && #[trigger] actions[i] is Task && #[trigger] events[j] is Received
        implies actions[j] is Stop by {
        assert(SignalHandler::stepped(hs[i], hs[i + 1], events[i], actions[i]));
        assert(SignalHandler::stepped(hs[j], hs[j + 1], events[j], actions[j]));
        assert(hs[i + 1].pending_callback() is None);
        assert(hs[j].pending_callback() is None);
    }
}

/// The signal handed to a callback is the raw number read or `SIGTERM`.
pub proof fn law_delivered_signal_is_raw_or_sigterm(raw: u32, signo: i32)
    requires
        delivered_signal(raw, signo),
    ensures
        signo == 15 || signo == raw as i32,
{
}

/// A signal number nix knows reaches the callback unchanged; SIGTERM (15)
/// stands in only for a number nix does not know.
pub proof fn law_known_signal_delivered_unchanged<C>(
    h0: SignalHandler<C>,
    h1: SignalHandler<C>,
    raw: u32,
    action: Action<SignalTask<C>>,
)
    requires
        SignalHandler::stepped(h0, h1, SignalRead::Received(raw), action),
        action is Task,
    ensures
        is_signal_number(raw as i32) ==> action->Task_0.signo == raw as i32,
        !is_signal_number(raw as i32) ==> action->Task_0.signo == 15,
{
}

/// Every signal number handed to a callback is one nix knows.
pub proof fn law_delivered_signal_is_known<C>(
    h0: SignalHandler<C>,
    h1: SignalHandler<C>,
    event: SignalRead,
    action: Action<SignalTask<C>>,
)
    requires
        SignalHandler::stepped(h0, h1, event, action),
    ensures
        action matches Action::Task(t) ==> is_signal_number(t.signo),
{
}

} // verus!
