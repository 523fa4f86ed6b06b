use wifi_monitor::{lifecycle_step, LifecycleAction, LifecycleEvent, LifecycleState};

#[test]
fn startup_follows_the_intended_order() {
    let (s1, a1) = lifecycle_step(LifecycleState::Initializing, LifecycleEvent::StoreReady);
    assert_eq!(s1, LifecycleState::ServerStarting);
    assert_eq!(a1, LifecycleAction::SpawnServer);
    let (s2, a2) = lifecycle_step(s1, LifecycleEvent::ListenerBound);
    assert_eq!(s2, LifecycleState::ServerListening);
    assert_eq!(a2, LifecycleAction::SpawnSampler);
    let (s3, a3) = lifecycle_step(s2, LifecycleEvent::SamplerSpawned);
    assert_eq!(s3, LifecycleState::SamplerRunning);
    assert_eq!(a3, LifecycleAction::Idle);
    // the steady state never changes again
    let (s4, a4) = lifecycle_step(s3, LifecycleEvent::BindFailed);
    assert_eq!(s4, LifecycleState::SamplerRunning);
    assert_eq!(a4, LifecycleAction::Idle);
}

#[test]
fn registration_failure_aborts_before_serving() {
    let (s1, a1) = lifecycle_step(LifecycleState::Initializing, LifecycleEvent::RegistrationFailed);
    assert_eq!(s1, LifecycleState::Aborted);
    assert_eq!(a1, LifecycleAction::AbortProcess);
    // aborted is final: the listener never binds, the sampler never spawns
    let (s2, a2) = lifecycle_step(s1, LifecycleEvent::ListenerBound);
    assert_eq!(s2, LifecycleState::Aborted);
    assert_eq!(a2, LifecycleAction::Idle);
    let (s3, _) = lifecycle_step(s2, LifecycleEvent::SamplerSpawned);
    assert_eq!(s3, LifecycleState::Aborted);
}

#[test]
fn bind_failure_aborts() {
    let (s1, _) = lifecycle_step(LifecycleState::Initializing, LifecycleEvent::StoreReady);
    let (s2, a2) = lifecycle_step(s1, LifecycleEvent::BindFailed);
    assert_eq!(s2, LifecycleState::Aborted);
    assert_eq!(a2, LifecycleAction::AbortProcess);
}

#[test]
fn unexpected_events_abort_startup() {
    let (s, a) = lifecycle_step(LifecycleState::Initializing, LifecycleEvent::SamplerSpawned);
    assert_eq!(s, LifecycleState::Aborted);
    assert_eq!(a, LifecycleAction::AbortProcess);
    let (s2, a2) = lifecycle_step(LifecycleState::ServerStarting, LifecycleEvent::StoreReady);
    assert_eq!(s2, LifecycleState::Aborted);
    assert_eq!(a2, LifecycleAction::AbortProcess);
}
