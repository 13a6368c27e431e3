use neural_swarm_ai::orchestrator::Orchestrator;
use neural_swarm_ai::protocol::SwarmMessage;

fn layers(m: SwarmMessage) -> Vec<u32> {
    match m {
        SwarmMessage::JoinResponse { assigned_layers, total_layers: 32, encrypted_cluster_key } => {
            assert!(encrypted_cluster_key.is_empty());
            assigned_layers
        }
        _ => panic!("expected a join response"),
    }
}

#[test]
fn single_worker_holds_every_layer() {
    let mut o = Orchestrator::new(32);
    assert_eq!(layers(o.handle_join("macbook".to_string(), 100)), (0..32).collect::<Vec<u32>>());
    assert_eq!(o.worker_count(), 1);
    let w = o.get_worker("macbook").unwrap();
    assert_eq!(w.compute_power, 100);
    assert_eq!(w.assigned_layers.len(), 32);
    assert_eq!(o.total_model_layers(), 32);
}

#[test]
fn layers_split_in_proportion_to_power() {
    let mut o = Orchestrator::new(32);
    o.handle_join("macbook-pro-m3".to_string(), 100);
    let pi = layers(o.handle_join("raspberry-pi-5".to_string(), 25));
    let mac = o.get_worker("macbook-pro-m3").unwrap().assigned_layers.clone();
    // 32 × 100/125 = 25.6, rounded down
    assert_eq!(mac, (0..25).collect::<Vec<u32>>());
    assert_eq!(pi, (25..32).collect::<Vec<u32>>());
    assert_eq!(o.get_worker("raspberry-pi-5").unwrap().assigned_layers, pi);
    assert!(mac.len() > pi.len());
    assert!(mac.iter().all(|l| !pi.contains(l)));
}

#[test]
fn leave_redistributes_to_the_rest() {
    let mut o = Orchestrator::new(4);
    o.handle_join("a".to_string(), 1);
    o.handle_join("b".to_string(), 3);
    assert_eq!(o.get_worker("a").unwrap().assigned_layers, vec![0]);
    assert_eq!(o.get_worker("b").unwrap().assigned_layers, vec![1, 2, 3]);
    o.handle_leave("a");
    assert!(o.get_worker("a").is_none());
    assert_eq!(o.get_worker("b").unwrap().assigned_layers, vec![0, 1, 2, 3]);
    o.handle_leave("unknown");
    assert_eq!(o.worker_count(), 1);
}

#[test]
fn rejoin_updates_power_in_place() {
    let mut o = Orchestrator::new(10);
    o.handle_join("a".to_string(), 1);
    o.handle_join("b".to_string(), 1);
    assert_eq!(layers_count(&o, "a"), 5);
    o.handle_join("a".to_string(), 3);
    assert_eq!(o.worker_count(), 2);
    // a first with 3 of 4 power: 7 layers; b the remaining 3
    assert_eq!(o.get_worker("a").unwrap().assigned_layers, (0..7).collect::<Vec<u32>>());
    assert_eq!(o.get_worker("b").unwrap().assigned_layers, (7..10).collect::<Vec<u32>>());
}

#[test]
fn powerless_workers_share_equally() {
    let mut o = Orchestrator::new(6);
    o.handle_join("a".to_string(), 0);
    o.handle_join("b".to_string(), 0);
    o.handle_join("c".to_string(), 0);
    assert_eq!(layers_count(&o, "a"), 2);
    assert_eq!(layers_count(&o, "b"), 2);
    assert_eq!(layers_count(&o, "c"), 2);
}

fn layers_count(o: &Orchestrator, id: &str) -> usize {
    o.get_worker(id).unwrap().assigned_layers.len()
}
