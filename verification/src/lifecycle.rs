//! The lifecycle coordinator's state machine.
//!
//! Startup is ordered: build the store, spawn the server, wait until the
//! listener is bound, and only then spawn the sampler.  The machine below
//! is that order as a pure step function from state and event to next
//! state and action; the loop that performs the actions (spawning threads,
//! aborting the process) runs outside the library.  The lemmas show the
//! two guarantees the order exists for: the sampler is never spawned
//! before the listener-bound signal arrived, and an aborted startup —
//! a duplicate registration, a failed bind — never reaches the running
//! state.

use vstd::prelude::*;

verus! {

/// Where startup stands.
#[derive(Clone, Copy, Debug, PartialEq, Eq, Structural)]
pub enum LifecycleState {
    /// Building and populating the metric store.
    Initializing,
    /// The server thread is spawned; its listener is not yet bound.
    ServerStarting,
    /// The listener is bound; requests can be served.
    ServerListening,
    /// Steady state: server and sampler both run for the process lifetime.
    SamplerRunning,
    /// Startup failed; the process terminates without ever serving.
    Aborted,
}

/// What the coordinator learns.
#[derive(Clone, Copy, Debug, PartialEq, Eq, Structural)]
pub enum LifecycleEvent {
    /// The store is built and every metric registered.
    StoreReady,
    /// A metric could not be registered (duplicate name, invalid name).
    RegistrationFailed,
    /// The one-shot signal from the server thread: the listener is bound.
    ListenerBound,
    /// The listener could not be bound.
    BindFailed,
    /// The sampler thread is spawned.
    SamplerSpawned,
}

/// What the coordinator does next.
#[derive(Clone, Copy, Debug, PartialEq, Eq, Structural)]
pub enum LifecycleAction {
    /// Spawn the server thread and wait for its readiness signal.
    SpawnServer,
    /// Spawn the sampler (and diagnostics) threads.
    SpawnSampler,
    /// Terminate the process before serving.
    AbortProcess,
    /// Nothing to do; in the steady state the coordinator only idles.
    Idle,
}

/// The transition table.  An event that makes no sense in the current
/// state is a programming error and aborts, except in the two absorbing
/// states, which never change again.
pub open spec fn spec_step(s: LifecycleState, e: LifecycleEvent) -> (LifecycleState,
    LifecycleAction) {
    match (s, e) {
        (LifecycleState::Initializing, LifecycleEvent::StoreReady) => (
            LifecycleState::ServerStarting,
            LifecycleAction::SpawnServer,
        ),
        (LifecycleState::Initializing, LifecycleEvent::RegistrationFailed) => (
            LifecycleState::Aborted,
            LifecycleAction::AbortProcess,
        ),
        (LifecycleState::ServerStarting, LifecycleEvent::ListenerBound) => (
            LifecycleState::ServerListening,
            LifecycleAction::SpawnSampler,
        ),
        (LifecycleState::ServerStarting, LifecycleEvent::BindFailed) => (
            LifecycleState::Aborted,
            LifecycleAction::AbortProcess,
        ),
        (LifecycleState::ServerListening, LifecycleEvent::SamplerSpawned) => (
            LifecycleState::SamplerRunning,
            LifecycleAction::Idle,
        ),
        (LifecycleState::SamplerRunning, _) => (LifecycleState::SamplerRunning, LifecycleAction::Idle),
        (LifecycleState::Aborted, _) => (LifecycleState::Aborted, LifecycleAction::Idle),
        _ => (LifecycleState::Aborted, LifecycleAction::AbortProcess),
    }
}

/// Take one lifecycle step.
pub fn lifecycle_step(s: LifecycleState, e: LifecycleEvent) -> (r: (LifecycleState,
    LifecycleAction))
    ensures
        r == spec_step(s, e),
{
    match (s, e) {
        (LifecycleState::Initializing, LifecycleEvent::StoreReady) => (
            LifecycleState::ServerStarting,
            LifecycleAction::SpawnServer,
        ),
        (LifecycleState::Initializing, LifecycleEvent::RegistrationFailed) => (
            LifecycleState::Aborted,
            LifecycleAction::AbortProcess,
        ),
        (LifecycleState::ServerStarting, LifecycleEvent::ListenerBound) => (
            LifecycleState::ServerListening,
            LifecycleAction::SpawnSampler,
        ),
        (LifecycleState::ServerStarting, LifecycleEvent::BindFailed) => (
            LifecycleState::Aborted,
            LifecycleAction::AbortProcess,
        ),
        (LifecycleState::ServerListening, LifecycleEvent::SamplerSpawned) => (
            LifecycleState::SamplerRunning,
            LifecycleAction::Idle,
        ),
        (LifecycleState::SamplerRunning, _) => (
            LifecycleState::SamplerRunning,
            LifecycleAction::Idle,
        ),
        (LifecycleState::Aborted, _) => (LifecycleState::Aborted, LifecycleAction::Idle),
        _ => (LifecycleState::Aborted, LifecycleAction::AbortProcess),
    }
}

/// Run the machine over a sequence of events.
pub open spec fn run_steps(s: LifecycleState, es: Seq<LifecycleEvent>) -> LifecycleState
    decreases es.len(),
{
    if es.len() == 0 {
        s
    } else {
        run_steps(spec_step(s, es[0]).0, es.subrange(1, es.len() as int))
    }
}

/// While the listener-bound signal has not arrived, startup can only be
/// initializing, waiting for the server, or aborted.
pub proof fn lemma_before_listener(s: LifecycleState, es: Seq<LifecycleEvent>)
    requires
        s == LifecycleState::Initializing || s == LifecycleState::ServerStarting || s
            == LifecycleState::Aborted,
        !es.contains(LifecycleEvent::ListenerBound),
    ensures
        run_steps(s, es) == LifecycleState::Initializing || run_steps(s, es)
            == LifecycleState::ServerStarting || run_steps(s, es) == LifecycleState::Aborted,
    decreases es.len(),
{
    if es.len() > 0 {
        assert(es[0] != LifecycleEvent::ListenerBound) by {
            if es[0] == LifecycleEvent::ListenerBound {
                assert(es.contains(LifecycleEvent::ListenerBound));
            }
        }
        let rest = es.subrange(1, es.len() as int);
        if rest.contains(LifecycleEvent::ListenerBound) {
            let i = choose|i: int|
                0 <= i < rest.len() && rest[i] == LifecycleEvent::ListenerBound;
            assert(es[i + 1] == LifecycleEvent::ListenerBound);
            assert(es.contains(LifecycleEvent::ListenerBound));
        }
        lemma_before_listener(spec_step(s, es[0]).0, rest);
    }
}

/// The sampler never starts before the listener is bound: a run from the
/// initial state that ends in the steady state must have seen the
/// listener-bound signal.
pub proof fn lemma_sampler_needs_listener(es: Seq<LifecycleEvent>)
    ensures
        run_steps(LifecycleState::Initializing, es) == LifecycleState::SamplerRunning
            ==> es.contains(LifecycleEvent::ListenerBound),
{
    if !es.contains(LifecycleEvent::ListenerBound) {
        lemma_before_listener(LifecycleState::Initializing, es);
    }
}

/// An aborted startup is final: no later event leaves the aborted state,
/// so a process that failed registration or binding never serves.
pub proof fn lemma_abort_is_final(es: Seq<LifecycleEvent>)
    ensures
        run_steps(LifecycleState::Aborted, es) == LifecycleState::Aborted,
    decreases es.len(),
{
    if es.len() > 0 {
        lemma_abort_is_final(es.subrange(1, es.len() as int));
    }
}

/// A failed registration aborts startup for good, whatever happens after.
pub proof fn lemma_registration_failure_aborts(es: Seq<LifecycleEvent>)
    ensures
        run_steps(LifecycleState::Initializing, seq![LifecycleEvent::RegistrationFailed] + es)
            == LifecycleState::Aborted,
{
    let w = seq![LifecycleEvent::RegistrationFailed] + es;
    assert(w[0] == LifecycleEvent::RegistrationFailed);
    assert(w.subrange(1, w.len() as int) =~= es);
    lemma_abort_is_final(es);
}

} // verus!
