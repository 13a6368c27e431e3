use neural_swarm_ai::executor::Executor;
use neural_swarm_ai::pipeline::{InferencePipeline, PipelineResult};
use neural_swarm_ai::protocol::SwarmMessage;

/// A stage that keeps the state it receives and reports the tokens divided
/// by ten as its logits.
fn run_stage(executor: &Executor, task: SwarmMessage) -> (SwarmMessage, Vec<u8>) {
    match task {
        SwarmMessage::ProcessTask { task_id, sequence_id, input_state, tokens, .. } => {
            let state = executor.open_input_state(&task_id, &input_state).unwrap().unwrap_or_default();
            let logits: Vec<u32> = tokens.iter().map(|&t| (t as f32 / 10.0).to_bits()).collect();
            let sealed = executor.seal_output_state(&task_id, &state).unwrap();
            (SwarmMessage::TaskResult { task_id, sequence_id, output_state: sealed, logits }, state)
        }
        _ => panic!("expected a task"),
    }
}

#[test]
fn two_stage_flow_keeps_the_sealed_state() {
    let key = [42u8; 32];
    let mut pipeline = InferencePipeline::new();
    pipeline.update_stages(vec!["node1".to_string(), "node2".to_string()]);

    let coordinator = Executor::new("master".to_string(), key);
    let initial_data = vec![1u8, 2, 3, 4];
    let initial = coordinator.seal_output_state(&"task1".to_string(), &initial_data).unwrap();

    let (first, task1) = pipeline.start_sequence(1, "task1".to_string(), vec![42], initial, (0, 16)).unwrap();
    assert_eq!(first, "node1");

    let node1 = Executor::new("node1".to_string(), key);
    let (result1, seen1) = run_stage(&node1, task1);
    assert_eq!(seen1, initial_data);

    let (second, task2) = match pipeline.handle_task_result(&result1, (16, 32)).unwrap() {
        PipelineResult::NextStage(id, task) => (id, task),
        PipelineResult::Finished(_) => panic!("Expected NextStage"),
    };
    assert_eq!(second, "node2");
    assert!(matches!(&task2, SwarmMessage::ProcessTask { start_layer: 16, end_layer: 32, .. }));

    let node2 = Executor::new("node2".to_string(), key);
    let (result2, seen2) = run_stage(&node2, task2);
    assert_eq!(seen2, initial_data);

    match pipeline.handle_task_result(&result2, (0, 0)).unwrap() {
        PipelineResult::Finished(logits) => {
            let values: Vec<f32> = logits.into_iter().map(f32::from_bits).collect();
            assert_eq!(values, vec![4.2]);
        }
        PipelineResult::NextStage(..) => panic!("Expected Finished"),
    }
    assert!(pipeline.get_next_node_id("task1").is_none());
}

#[test]
fn state_sealed_under_another_key_is_refused() {
    let sealed = Executor::new("a".to_string(), [1u8; 32]).seal_output_state(&"t".to_string(), &vec![5, 5]).unwrap();
    let other = Executor::new("b".to_string(), [2u8; 32]);
    assert!(other.open_input_state(&"t".to_string(), &sealed).is_err());
}
