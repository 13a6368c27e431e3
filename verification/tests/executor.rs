use neural_swarm_ai::crypto::{compress, encrypt_with_aad};
use neural_swarm_ai::executor::{Executor, StageError};

#[test]
fn sealed_state_reopens_at_next_stage() {
    let key = [9u8; 32];
    let first = Executor::new("node1".to_string(), key);
    let second = Executor::new("node2".to_string(), key);
    let raw = vec![1u8, 2, 3, 4];
    let sealed = first.seal_output_state(&"task1".to_string(), &raw).unwrap();
    let opened = second.open_input_state(&"task1".to_string(), &sealed).unwrap();
    assert_eq!(opened, Some(raw));
}

#[test]
fn empty_state_needs_no_opening() {
    let ex = Executor::new("n".to_string(), [0u8; 32]);
    assert_eq!(ex.open_input_state(&"t".to_string(), &vec![]).unwrap(), None);
}

#[test]
fn state_bound_to_its_task() {
    let ex = Executor::new("n".to_string(), [5u8; 32]);
    let sealed = ex.seal_output_state(&"task-a".to_string(), &vec![7, 7, 7]).unwrap();
    match ex.open_input_state(&"task-b".to_string(), &sealed) {
        Err(StageError::Decryption(msg)) => assert_eq!(msg, "Decryption failed: aead::Error"),
        _ => panic!("a state must not open under another task"),
    }
}

#[test]
fn manually_sealed_state_opens() {
    let key = [2u8; 32];
    let ex = Executor::new("node1".to_string(), key);
    let compressed = compress(&[1, 2, 3]).unwrap();
    let encrypted = encrypt_with_aad(&compressed, &key, b"task_123").unwrap();
    let opened = ex.open_input_state(&"task_123".to_string(), &encrypted).unwrap();
    assert_eq!(opened, Some(vec![1, 2, 3]));
}

#[test]
fn undecompressable_state_is_a_codec_error() {
    let key = [4u8; 32];
    let ex = Executor::new("n".to_string(), key);
    let encrypted = encrypt_with_aad(b"not zstd at all", &key, b"t").unwrap();
    assert!(matches!(ex.open_input_state(&"t".to_string(), &encrypted), Err(StageError::Codec(_))));
}
