use neural_swarm_ai::compute::capacity::EffectiveCapacity;
use neural_swarm_ai::compute::profile::{Architecture, DeviceType, NodeProfile};
use neural_swarm_ai::compute::status::{NodeStatus, ThermalState};
use neural_swarm_ai::node::registry::{NodeRegistry, RegistryError};
use neural_swarm_ai::node::state::NodeState;

fn profile(name: &str) -> NodeProfile {
    NodeProfile::with_arch(Architecture::X86_64, DeviceType::Desktop, 8, 16384, name.to_string())
}

fn status(cpu: f32, ram_avail: u64) -> NodeStatus {
    NodeStatus {
        cpu_usage: cpu.to_bits(),
        ram_used_mb: 0,
        ram_available_mb: ram_avail,
        thermal: ThermalState::Nominal,
        measured_at: None,
    }
}

fn capacity(composite: f32) -> EffectiveCapacity {
    EffectiveCapacity { cpu_score: composite.to_bits(), ram_available_mb: 0, composite: composite.to_bits() }
}

#[test]
fn registered_node_starts_joining() {
    let mut reg = NodeRegistry::new();
    assert!(reg.is_empty());
    let entry = reg.register("node-1".into(), profile("node-1")).unwrap();
    assert_eq!(entry.state, NodeState::Joining);
    assert_eq!(entry.reservation.ram_reserved_mb, 2048);
    assert!(entry.assigned_layers.is_empty());
    assert_eq!(reg.len(), 1);
    assert_eq!(reg.get("node-1").unwrap().state, NodeState::Joining);

    reg.mark_ready("node-1", status(0.2, 12000), capacity(0.6)).unwrap();
    let e = reg.get("node-1").unwrap();
    assert_eq!(e.state, NodeState::Ready);
    assert!(f32::from_bits(e.capacity.composite) > 0.0);
    assert_eq!(e.status.ram_available_mb, 12000);
}

#[test]
fn mark_ready_refusals() {
    let mut reg = NodeRegistry::new();
    assert!(matches!(
        reg.mark_ready("ghost", status(0.1, 1), capacity(0.5)),
        Err(RegistryError::NodeNotFound(ref id)) if id == "ghost"
    ));
    reg.register("n".into(), profile("n")).unwrap();
    reg.mark_ready("n", status(0.1, 1), capacity(0.5)).unwrap();
    // a second handshake is refused and changes nothing
    match reg.mark_ready("n", status(0.9, 2), capacity(0.0)) {
        Err(RegistryError::InvalidTransition(t)) => {
            assert_eq!(t.from, NodeState::Ready);
            assert_eq!(t.to, NodeState::Ready);
        }
        _ => panic!("expected a refused transition"),
    }
    assert_eq!(f32::from_bits(reg.get("n").unwrap().capacity.composite), 0.5);
}

#[test]
fn update_status_degrades_and_recovers() {
    let mut reg = NodeRegistry::new();
    reg.register("node-1".into(), profile("node-1")).unwrap();
    reg.mark_ready("node-1", status(0.2, 12000), capacity(0.6)).unwrap();
    reg.assign_layers("node-1", vec![0, 1, 2, 3]).unwrap();
    assert_eq!(reg.get("node-1").unwrap().state, NodeState::Active);
    assert_eq!(reg.get("node-1").unwrap().assigned_layers, vec![0, 1, 2, 3]);

    let previous = reg.update_status("node-1", status(0.95, 500), capacity(0.02)).unwrap();
    assert_eq!(f32::from_bits(previous.composite), 0.6);
    assert_eq!(reg.get("node-1").unwrap().state, NodeState::Degraded);

    // between the thresholds: stays degraded
    reg.update_status("node-1", status(0.5, 4000), capacity(0.12)).unwrap();
    assert_eq!(reg.get("node-1").unwrap().state, NodeState::Degraded);

    reg.update_status("node-1", status(0.2, 12000), capacity(0.15)).unwrap();
    assert_eq!(reg.get("node-1").unwrap().state, NodeState::Active);

    // just at 0.1 an active node is not degraded
    reg.update_status("node-1", status(0.2, 12000), capacity(0.1)).unwrap();
    assert_eq!(reg.get("node-1").unwrap().state, NodeState::Active);
}

#[test]
fn update_status_leaves_other_states_alone() {
    let mut reg = NodeRegistry::new();
    reg.register("r".into(), profile("r")).unwrap();
    reg.mark_ready("r", status(0.2, 12000), capacity(0.6)).unwrap();
    reg.update_status("r", status(0.99, 0), capacity(0.0)).unwrap();
    assert_eq!(reg.get("r").unwrap().state, NodeState::Ready);
    assert!(matches!(reg.update_status("x", status(0.0, 0), capacity(0.0)), Err(RegistryError::NodeNotFound(_))));
}

#[test]
fn sorted_by_capacity_strongest_first() {
    let mut reg = NodeRegistry::new();
    reg.register("weak".into(), profile("weak")).unwrap();
    reg.mark_ready("weak", status(0.7, 4000), capacity(0.1)).unwrap();
    reg.assign_layers("weak", vec![0]).unwrap();

    reg.register("strong".into(), profile("strong")).unwrap();
    reg.mark_ready("strong", status(0.1, 14000), capacity(0.8)).unwrap();
    reg.assign_layers("strong", vec![1]).unwrap();

    reg.register("tie-b".into(), profile("tie-b")).unwrap();
    reg.mark_ready("tie-b", status(0.1, 14000), capacity(0.5)).unwrap();
    reg.register("tie-a".into(), profile("tie-a")).unwrap();
    reg.mark_ready("tie-a", status(0.1, 14000), capacity(0.5)).unwrap();

    // every node is listed, a joining one with its zero score last
    reg.register("joining".into(), profile("joining")).unwrap();

    let sorted = reg.sorted_by_capacity();
    let ids: Vec<&str> = sorted.iter().map(|e| e.id.as_str()).collect();
    assert_eq!(ids, vec!["strong", "tie-a", "tie-b", "weak", "joining"]);
}

#[test]
fn remove_node() {
    let mut reg = NodeRegistry::new();
    reg.register("node-1".into(), profile("node-1")).unwrap();
    assert_eq!(reg.len(), 1);

    let removed = reg.remove("node-1").unwrap();
    assert_eq!(removed.id, "node-1");
    assert_eq!(reg.len(), 0);
    assert!(reg.get("node-1").is_none());
    assert!(reg.remove("node-1").is_none());
}

#[test]
fn active_and_alive_filters() {
    let mut reg = NodeRegistry::new();
    reg.register("active".into(), profile("active")).unwrap();
    reg.mark_ready("active", status(0.2, 12000), capacity(0.5)).unwrap();
    reg.register("joining".into(), profile("joining")).unwrap();

    let active = reg.active_nodes();
    assert_eq!(active.len(), 1);
    assert_eq!(active[0].id, "active");
    assert_eq!(reg.alive_nodes().len(), 2);
}

#[test]
fn register_again_replaces() {
    let mut reg = NodeRegistry::new();
    reg.register("n".into(), profile("first")).unwrap();
    reg.mark_ready("n", status(0.2, 1), capacity(0.5)).unwrap();
    let e = reg
        .register("n".into(), NodeProfile::with_arch(Architecture::Other, DeviceType::Server, 64, 1 << 20, "second".into()))
        .unwrap();
    assert_eq!(e.state, NodeState::Joining);
    assert_eq!(e.profile.hostname, "second");
    assert_eq!(e.reservation.ram_reserved_mb, 512);
    assert_eq!(reg.len(), 1);
}

#[test]
fn heartbeat_changes_only_the_time() {
    let mut reg = NodeRegistry::new();
    reg.register("n".into(), profile("n")).unwrap();
    let before = reg.get("n").unwrap().last_heartbeat;
    reg.heartbeat("n");
    reg.heartbeat("unknown");
    let e = reg.get("n").unwrap();
    assert!(e.last_heartbeat >= before);
    assert_eq!(e.state, NodeState::Joining);
}

// ── Scenarios with capacities scored as the node runtime scores them ──

fn make_profile(name: &str) -> NodeProfile {
    NodeProfile::with_arch(Architecture::X86_64, DeviceType::Desktop, 8, 16384, name.to_string())
}

fn make_status(cpu: f32, ram_avail: u64) -> NodeStatus {
    status(cpu, ram_avail)
}

/// The capacity score of a registered node under a status:
/// clamp(0.6 × cpu + 0.4 × ram, 0, 1) × thermal penalty.
fn scored(reg: &NodeRegistry, id: &str, s: &NodeStatus) -> EffectiveCapacity {
    let e = reg.get(id).unwrap();
    let cpu_score = ((1.0 - f32::from_bits(e.reservation.cpu_reserved)) - f32::from_bits(s.cpu_usage)).max(0.0);
    let ram = s.ram_available_mb.saturating_sub(e.reservation.ram_reserved_mb);
    let ram_score = ram as f32 / e.profile.ram_total_mb.max(1) as f32;
    let composite =
        (0.6 * cpu_score + 0.4 * ram_score).clamp(0.0, 1.0) * f32::from_bits(s.thermal.penalty_factor());
    EffectiveCapacity { cpu_score: cpu_score.to_bits(), ram_available_mb: ram, composite: composite.to_bits() }
}

fn ready(reg: &mut NodeRegistry, id: &str, s: NodeStatus) {
    let c = scored(reg, id, &s);
    reg.mark_ready(id, s, c).unwrap();
}

fn update(reg: &mut NodeRegistry, id: &str, s: NodeStatus) {
    let c = scored(reg, id, &s);
    reg.update_status(id, s, c).unwrap();
}

#[test]
fn test_register_and_ready() {
    let mut reg = NodeRegistry::new();
    reg.register("node-1".into(), make_profile("node-1")).unwrap();

    assert_eq!(reg.len(), 1);
    assert_eq!(reg.get("node-1").unwrap().state, NodeState::Joining);

    ready(&mut reg, "node-1", make_status(0.2, 12000));
    assert_eq!(reg.get("node-1").unwrap().state, NodeState::Ready);
    assert!(f32::from_bits(reg.get("node-1").unwrap().capacity.composite) > 0.0);
}

#[test]
fn test_update_status_triggers_degraded() {
    let mut reg = NodeRegistry::new();
    reg.register("node-1".into(), make_profile("node-1")).unwrap();
    ready(&mut reg, "node-1", make_status(0.2, 12000));
    reg.assign_layers("node-1", vec![0, 1, 2, 3]).unwrap();

    assert_eq!(reg.get("node-1").unwrap().state, NodeState::Active);

    update(&mut reg, "node-1", make_status(0.95, 500));
    assert_eq!(reg.get("node-1").unwrap().state, NodeState::Degraded);
}

#[test]
fn test_update_status_recovers_from_degraded() {
    let mut reg = NodeRegistry::new();
    reg.register("node-1".into(), make_profile("node-1")).unwrap();
    ready(&mut reg, "node-1", make_status(0.2, 12000));
    reg.assign_layers("node-1", vec![0, 1, 2, 3]).unwrap();

    update(&mut reg, "node-1", make_status(0.95, 500));
    assert_eq!(reg.get("node-1").unwrap().state, NodeState::Degraded);

    update(&mut reg, "node-1", make_status(0.2, 12000));
    assert_eq!(reg.get("node-1").unwrap().state, NodeState::Active);
}

#[test]
fn test_sorted_by_capacity() {
    let mut reg = NodeRegistry::new();

    reg.register("weak".into(), make_profile("weak")).unwrap();
    ready(&mut reg, "weak", make_status(0.7, 4000));
    reg.assign_layers("weak", vec![0]).unwrap();

    reg.register("strong".into(), make_profile("strong")).unwrap();
    ready(&mut reg, "strong", make_status(0.1, 14000));
    reg.assign_layers("strong", vec![1]).unwrap();

    let sorted = reg.sorted_by_capacity();
    assert_eq!(sorted.len(), 2);
    assert_eq!(sorted[0].id, "strong");
    assert_eq!(sorted[1].id, "weak");
}

#[test]
fn test_remove_node() {
    let mut reg = NodeRegistry::new();
    reg.register("node-1".into(), make_profile("node-1")).unwrap();
    assert_eq!(reg.len(), 1);

    reg.remove("node-1");
    assert_eq!(reg.len(), 0);
    assert!(reg.get("node-1").is_none());
}

#[test]
fn test_active_nodes_filter() {
    let mut reg = NodeRegistry::new();

    reg.register("active".into(), make_profile("active")).unwrap();
    ready(&mut reg, "active", make_status(0.2, 12000));

    reg.register("joining".into(), make_profile("joining")).unwrap();

    let active = reg.active_nodes();
    assert_eq!(active.len(), 1);
    assert_eq!(active[0].id, "active");
}

#[test]
fn default_registry_is_empty() {
    let reg = NodeRegistry::default();
    assert!(reg.is_empty());
    assert_eq!(reg.len(), 0);
}
