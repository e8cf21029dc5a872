//! The cancellation token: the one thread-safe handle through which
//! the watchdog asks the engine to abort an in-progress run. Its three
//! legal states and their idempotent transitions are the whole
//! cross-thread protocol.

use vstd::prelude::*;

verus! {

/// The three legal states of a cancellation token.
#[derive(Clone, Copy, PartialEq, Eq, Structural, Debug)]
pub enum TokenState {
    /// The target may still run; no termination was asked yet.
    Armed,
    /// Termination has been asked; asking again changes nothing.
    Triggered,
    /// The target finished or its context was destroyed; a trigger is
    /// now a harmless no-op, never undefined behaviour.
    TargetGone,
}

/// What one trigger request does to a token's state.
pub open spec fn after_trigger(s: TokenState) -> TokenState {
    match s {
        TokenState::Armed => TokenState::Triggered,
        _ => s,
    }
}

/// Whether a trigger request finding state `s` actually interrupts the
/// target: only the first request against a live target does.
pub open spec fn trigger_fires(s: TokenState) -> bool {
    s == TokenState::Armed
}

/// A handle to one execution that may be invoked from any thread, at
/// any time, even before the run starts or after the target is gone.
pub struct CancelToken {
    state: TokenState,
}

impl View for CancelToken {
    type V = TokenState;

    closed spec fn view(&self) -> TokenState {
        self.state
    }
}

impl CancelToken {
    /// A fresh token for a newly created execution context.
    pub fn new() -> (t: CancelToken)
        ensures
            t@ == TokenState::Armed,
    {
        CancelToken { state: TokenState::Armed }
    }

    /// Ask for forced termination. Returns whether this request is the
    /// one that interrupts the target; every later request, and any
    /// request after the target is gone, is a no-op.
    pub fn trigger(&mut self) -> (fired: bool)
        ensures
            final(self)@ == after_trigger(old(self)@),
            fired == trigger_fires(old(self)@),
    {
        match self.state {
            TokenState::Armed => {
                self.state = TokenState::Triggered;
                true
            },
            _ => false,
        }
    }

    /// Note that the target completed, failed or was destroyed: from
    /// here on a trigger can never fire.
    pub fn target_gone(&mut self)
        ensures
            final(self)@ == TokenState::TargetGone,
    {
        self.state = TokenState::TargetGone;
    }
}

/// Cancellation is one-shot and idempotent: whatever state a trigger
/// found, a second trigger finds the token no longer armed, so it
/// neither fires nor moves the state; triggering twice is triggering
/// once.
pub proof fn lemma_trigger_idempotent(s: TokenState)
    ensures
        !trigger_fires(after_trigger(s)),
        after_trigger(after_trigger(s)) == after_trigger(s),
{
}

} // verus!
