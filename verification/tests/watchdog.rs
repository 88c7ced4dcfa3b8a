use insight_map_loader::watchdog::{needs_resolve, BridgeState};

#[test]
fn a_jumped_bridge_re_solves_even_with_a_zero_counter() {
    // The frame-jump path sets the state and leaves the counter at zero on
    // purpose. Gating on the counter alone would strand the puck in Suspect.
    assert!(needs_resolve(BridgeState::Suspect, 0));
    assert!(needs_resolve(BridgeState::Missing, 0));
    assert!(needs_resolve(BridgeState::WaitingStill, 0));
}

#[test]
fn a_healthy_bridge_is_left_alone() {
    assert!(!needs_resolve(BridgeState::Good, 0));
    assert!(!needs_resolve(BridgeState::Good, 1));
    // ...until the drift path has failed twice.
    assert!(needs_resolve(BridgeState::Good, 2));
    // Solving must not re-enter itself.
    assert!(!needs_resolve(BridgeState::Solving, 0));
}
