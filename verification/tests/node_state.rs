use neural_swarm_ai::node::state::{NodeState, TransitionError};

#[test]
fn test_valid_normal_flow() {
    let state = NodeState::Joining;
    let state = state.transition_to(NodeState::Ready).unwrap();
    let state = state.transition_to(NodeState::Active).unwrap();
    let state = state.transition_to(NodeState::Draining).unwrap();
    let state = state.transition_to(NodeState::Left).unwrap();
    assert_eq!(state, NodeState::Left);
}

#[test]
fn test_valid_degradation_and_recovery() {
    let state = NodeState::Active;
    let state = state.transition_to(NodeState::Degraded).unwrap();
    let state = state.transition_to(NodeState::Active).unwrap();
    assert_eq!(state, NodeState::Active);
}

#[test]
fn test_valid_degraded_to_draining() {
    let state = NodeState::Degraded;
    let state = state.transition_to(NodeState::Draining).unwrap();
    assert_eq!(state, NodeState::Draining);
}

#[test]
fn test_invalid_left_to_active() {
    let state = NodeState::Left;
    assert!(state.transition_to(NodeState::Active).is_err());
}

#[test]
fn test_invalid_joining_to_active() {
    let state = NodeState::Joining;
    assert!(state.transition_to(NodeState::Active).is_err());
}

#[test]
fn test_invalid_draining_to_active() {
    let state = NodeState::Draining;
    assert!(state.transition_to(NodeState::Active).is_err());
}

#[test]
fn test_can_accept_tasks() {
    assert!(NodeState::Active.can_accept_tasks());
    assert!(NodeState::Ready.can_accept_tasks());
    assert!(!NodeState::Degraded.can_accept_tasks());
    assert!(!NodeState::Draining.can_accept_tasks());
    assert!(!NodeState::Left.can_accept_tasks());
}

#[test]
fn test_is_alive() {
    assert!(NodeState::Active.is_alive());
    assert!(NodeState::Degraded.is_alive());
    assert!(NodeState::Draining.is_alive());
    assert!(!NodeState::Left.is_alive());
}

#[test]
fn test_early_disconnect() {
    // Connection failed during joining
    let state = NodeState::Joining;
    let state = state.transition_to(NodeState::Left).unwrap();
    assert_eq!(state, NodeState::Left);
}

#[test]
fn refused_transition_names_both_states() {
    let err = NodeState::Ready.transition_to(NodeState::Left).unwrap_err();
    assert_eq!(err, TransitionError { from: NodeState::Ready, to: NodeState::Left });
}

#[test]
fn left_is_terminal() {
    let all = [
        NodeState::Joining,
        NodeState::Ready,
        NodeState::Active,
        NodeState::Degraded,
        NodeState::Draining,
        NodeState::Left,
    ];
    for target in all {
        assert!(!NodeState::Left.can_transition_to(target));
        // no state moves to itself
        assert!(!target.can_transition_to(target));
        // a node that takes tasks is alive
        if target.can_accept_tasks() {
            assert!(target.is_alive());
        }
    }
}

#[test]
fn state_names() {
    assert_eq!(NodeState::Joining.name(), "Joining");
    assert_eq!(NodeState::Degraded.name(), "Degraded");
    assert_eq!(NodeState::Left.name(), "Left");
}
