use neural_swarm_ai::crypto::sign_hmac;
use neural_swarm_ai::orchestrator::Orchestrator;
use neural_swarm_ai::protocol::SwarmMessage;
use neural_swarm_ai::session::{
    ClientAction, ClientError, ClientSession, Incoming, ServerAction, ServerSession,
};

fn challenge_parts(m: &SwarmMessage) -> ([u8; 32], [u8; 32]) {
    match m {
        SwarmMessage::AuthChallenge { nonce, public_key } => (*nonce, *public_key),
        _ => panic!("expected a challenge"),
    }
}

#[test]
fn full_handshake_joins_and_agrees_on_a_key() {
    let mut orchestrator = Orchestrator::new(4);
    let (mut server, challenge) = ServerSession::start();
    let (nonce, _) = challenge_parts(&challenge);

    let mut client = ClientSession::new();
    let sent = match client.step(Incoming::Message(challenge), "node-a", 7, "cluster-secret") {
        ClientAction::Send(ms) => ms,
        _ => panic!("the challenge is answered"),
    };
    assert_eq!(sent.len(), 2);
    match &sent[0] {
        SwarmMessage::AuthResponse { node_id, token_hash, .. } => {
            assert_eq!(node_id, "node-a");
            assert_eq!(*token_hash, sign_hmac(&nonce, "cluster-secret"));
        }
        _ => panic!("the answer comes first"),
    }
    assert!(matches!(&sent[1], SwarmMessage::JoinRequest { device_id, compute_power: 7 } if device_id == "node-a"));

    let mut replies = Vec::new();
    for m in sent {
        match server.step(Incoming::Message(m), "cluster-secret", &mut orchestrator) {
            ServerAction::Reply(r) => replies.push(r),
            ServerAction::Nothing => {}
            ServerAction::Drop => panic!("an authenticated node is kept"),
        }
    }
    assert_eq!(replies.len(), 1);
    assert!(orchestrator.get_worker("node-a").is_some());

    let reply = replies.pop().unwrap();
    assert!(matches!(
        client.step(Incoming::Message(reply), "node-a", 7, "cluster-secret"),
        ClientAction::Done
    ));
    match &client {
        ClientSession::Joined { cluster_key, assigned_layers, total_layers } => {
            assert_eq!(*assigned_layers, vec![0, 1, 2, 3]);
            assert_eq!(*total_layers, 4);
            // the node holds the coordinator's cluster key
            assert_eq!(*cluster_key, orchestrator.cluster_key());
        }
        _ => panic!("joined"),
    }
    assert!(matches!(&server, ServerSession::Open { node_id, .. } if node_id == "node-a"));

    // the end of the connection removes the node
    assert!(matches!(server.step(Incoming::Closed, "cluster-secret", &mut orchestrator), ServerAction::Drop));
    assert!(orchestrator.get_worker("node-a").is_none());
}

#[test]
fn wrong_secret_is_dropped_and_changes_nothing() {
    let mut orchestrator = Orchestrator::new(2);
    let (mut server, challenge) = ServerSession::start();
    let mut client = ClientSession::new();
    let sent = match client.step(Incoming::Message(challenge), "intruder", 1, "guess") {
        ClientAction::Send(ms) => ms,
        _ => panic!("the challenge is answered"),
    };
    let answer = sent.into_iter().next().unwrap();
    assert!(matches!(server.step(Incoming::Message(answer), "cluster-secret", &mut orchestrator), ServerAction::Drop));
    assert!(matches!(server, ServerSession::Closed));
    assert!(orchestrator.get_worker("intruder").is_none());
}

#[test]
fn join_under_another_id_is_dropped() {
    let mut orchestrator = Orchestrator::new(2);
    let (mut server, challenge) = ServerSession::start();
    let mut client = ClientSession::new();
    let sent = match client.step(Incoming::Message(challenge), "node-a", 1, "s") {
        ClientAction::Send(ms) => ms,
        _ => panic!("the challenge is answered"),
    };
    let answer = sent.into_iter().next().unwrap();
    assert!(matches!(server.step(Incoming::Message(answer), "s", &mut orchestrator), ServerAction::Nothing));
    // frames that are not messages are ignored once open
    assert!(matches!(server.step(Incoming::Unreadable, "s", &mut orchestrator), ServerAction::Nothing));
    let spoof = SwarmMessage::JoinRequest { device_id: "node-b".to_string(), compute_power: 1 };
    assert!(matches!(server.step(Incoming::Message(spoof), "s", &mut orchestrator), ServerAction::Drop));
    assert!(orchestrator.get_worker("node-b").is_none());
}

#[test]
fn anything_but_an_answer_first_is_dropped() {
    let mut orchestrator = Orchestrator::new(2);
    let (mut server, _) = ServerSession::start();
    let join = SwarmMessage::JoinRequest { device_id: "n".to_string(), compute_power: 1 };
    assert!(matches!(server.step(Incoming::Message(join), "s", &mut orchestrator), ServerAction::Drop));
    assert!(orchestrator.get_worker("n").is_none());
    assert!(matches!(server.step(Incoming::Unreadable, "s", &mut orchestrator), ServerAction::Drop));
}

#[test]
fn client_failures() {
    let mut c = ClientSession::new();
    assert!(matches!(
        c.step(Incoming::Closed, "n", 1, "s"),
        ClientAction::Fail(ClientError::ClosedBeforeChallenge)
    ));
    assert_eq!(ClientError::ClosedBeforeChallenge.message(), "Connection closed before AuthChallenge");

    let mut c = ClientSession::new();
    assert!(matches!(
        c.step(Incoming::Message(SwarmMessage::Heartbeat), "n", 1, "s"),
        ClientAction::Fail(ClientError::ExpectedChallenge)
    ));
    assert_eq!(ClientError::ExpectedChallenge.message(), "Expected AuthChallenge from server");
    // a failed handshake stays failed
    assert!(matches!(
        c.step(Incoming::Closed, "n", 1, "s"),
        ClientAction::Fail(ClientError::ExpectedChallenge)
    ));

    let mut c = ClientSession::new();
    let (_, challenge) = ServerSession::start();
    assert!(matches!(c.step(Incoming::Message(challenge), "n", 1, "s"), ClientAction::Send(_)));
    assert!(matches!(c.step(Incoming::Unreadable, "n", 1, "s"), ClientAction::Fail(ClientError::NoClusterKey)));
    assert_eq!(ClientError::NoClusterKey.message(), "Failed to obtain cluster key");

    // a join response whose key does not open under the session key
    let mut c = ClientSession::new();
    let (_, challenge) = ServerSession::start();
    assert!(matches!(c.step(Incoming::Message(challenge), "n", 1, "s"), ClientAction::Send(_)));
    let forged = SwarmMessage::JoinResponse { assigned_layers: vec![0], total_layers: 1, encrypted_cluster_key: vec![0; 60] };
    assert!(matches!(
        c.step(Incoming::Message(forged), "n", 1, "s"),
        ClientAction::Fail(ClientError::ClusterKeyUndecryptable)
    ));
    assert_eq!(ClientError::ClusterKeyUndecryptable.message(), "Failed to decrypt cluster key");
}
