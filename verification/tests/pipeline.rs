use neural_swarm_ai::pipeline::{InferencePipeline, PipelineResult};
use neural_swarm_ai::protocol::{RouteTicket, SwarmMessage};

fn result(task: &str, seq: u64, state: Vec<u8>, logits: Vec<u32>) -> SwarmMessage {
    SwarmMessage::TaskResult {
        task_id: task.to_string(),
        sequence_id: seq,
        output_state: state,
        logits,
    }
}

#[test]
fn start_without_stages_is_none() {
    let mut p = InferencePipeline::new();
    assert!(p.start_sequence(1, "t".into(), vec![1], vec![], (0, 4)).is_none());
    assert!(p.get_next_node_id("t").is_none());
}

#[test]
fn sequence_walks_every_stage_then_finishes() {
    let mut p = InferencePipeline::new();
    p.update_stages(vec!["a".into(), "b".into(), "c".into()]);

    let (first, task) = p.start_sequence(7, "task1".into(), vec![42, 43], vec![1, 2], (0, 10)).unwrap();
    assert_eq!(first, "a");
    match task {
        SwarmMessage::ProcessTask { task_id, sequence_id, input_state, start_layer, end_layer, tokens, route } => {
            assert_eq!(task_id, "task1");
            assert_eq!(sequence_id, 7);
            assert_eq!(input_state, vec![1, 2]);
            assert_eq!((start_layer, end_layer), (0, 10));
            assert_eq!(tokens, vec![42, 43]);
            assert!(route.is_none());
        }
        _ => panic!("expected a task"),
    }
    assert_eq!(p.get_next_node_id("task1").as_deref(), Some("b"));

    match p.handle_task_result(&result("task1", 7, vec![9], vec![]), (10, 20)).unwrap() {
        PipelineResult::NextStage(node, SwarmMessage::ProcessTask { input_state, start_layer, end_layer, tokens, .. }) => {
            assert_eq!(node, "b");
            assert_eq!(input_state, vec![9]);
            assert_eq!((start_layer, end_layer), (10, 20));
            assert_eq!(tokens, vec![42, 43]);
        }
        _ => panic!("expected the next stage"),
    }
    assert_eq!(p.get_next_node_id("task1").as_deref(), Some("c"));

    match p.handle_task_result(&result("task1", 7, vec![8], vec![]), (20, 32)).unwrap() {
        PipelineResult::NextStage(node, _) => assert_eq!(node, "c"),
        _ => panic!("expected the next stage"),
    }
    assert!(p.get_next_node_id("task1").is_none());

    let logits = vec![4.2f32.to_bits()];
    match p.handle_task_result(&result("task1", 7, vec![], logits.clone()), (0, 0)).unwrap() {
        PipelineResult::Finished(l) => assert_eq!(l, logits),
        _ => panic!("expected the end"),
    }
    // no longer tracked
    assert!(p.handle_task_result(&result("task1", 7, vec![], vec![]), (0, 0)).is_none());
}

#[test]
fn stale_or_foreign_results_are_ignored() {
    let mut p = InferencePipeline::new();
    p.update_stages(vec!["a".into(), "b".into()]);
    p.start_sequence(1, "t".into(), vec![], vec![], (0, 1)).unwrap();
    // wrong sequence id
    assert!(p.handle_task_result(&result("t", 2, vec![], vec![]), (1, 2)).is_none());
    // unknown task
    assert!(p.handle_task_result(&result("other", 1, vec![], vec![]), (1, 2)).is_none());
    // not a result
    assert!(p.handle_task_result(&SwarmMessage::Heartbeat, (1, 2)).is_none());
    // still at the first stage
    assert_eq!(p.get_next_node_id("t").as_deref(), Some("b"));
}

#[test]
fn single_stage_finishes_at_once() {
    let mut p = InferencePipeline::new();
    p.update_stages(vec!["only".into()]);
    p.start_sequence(3, "t".into(), vec![5], vec![], (0, 32)).unwrap();
    assert!(p.get_next_node_id("t").is_none());
    match p.handle_task_result(&result("t", 3, vec![], vec![1, 2]), (0, 0)).unwrap() {
        PipelineResult::Finished(l) => assert_eq!(l, vec![1, 2]),
        _ => panic!("expected the end"),
    }
}

#[test]
fn route_ticket_next_peer() {
    let ticket = RouteTicket {
        task_id: "t".into(),
        sequence_id: 1,
        nodes: vec!["p1".into(), "p2".into()],
        current_index: 0,
    };
    assert_eq!(ticket.next_peer().as_deref(), Some("p2"));
    let last = RouteTicket { current_index: 1, ..ticket };
    assert!(last.next_peer().is_none());
}
