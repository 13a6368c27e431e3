//! The handshake of a cluster connection, as state machines: the
//! coordinator's side of one connection and the joining node's side. Each
//! step takes what was read from the connection and says what to send and
//! what the connection becomes; the caller does the reading and sending.
//!
//! The coordinator challenges with a nonce and an ephemeral X25519 public
//! key; the node answers with the HMAC-SHA256 of the nonce under the shared
//! secret and its own public key. Both then derive the session key, and the
//! authenticated node may join under the id it authenticated with.

use crate::crypto::{
    decrypt_with_aad, derive_session_key, encrypt_with_aad, generate_ecdh_keys,
    generate_nonce, hmac_accepts, hmac_signature, opened, sealed_by, session_key, sign_hmac, verify_hmac,
    x25519_public_key,
};
use crate::orchestrator::{after_join, after_leave, layers_of, Orchestrator, WorkerView};
use crate::protocol::{MessageView, SwarmMessage};
use vstd::prelude::*;
use vstd::string::*;

verus! {

/// What was read from a connection.
pub enum Incoming {
    /// A frame that decoded as a message of the protocol.
    Message(SwarmMessage),
    /// A frame that is not a message of the protocol.
    Unreadable,
    /// The connection ended, closed or failed.
    Closed,
}

/// The view of what was read.
pub enum IncomingView {
    Message(MessageView),
    Unreadable,
    Closed,
}

impl View for Incoming {
    type V = IncomingView;

    open spec fn view(&self) -> IncomingView {
        match self {
            Incoming::Message(m) => IncomingView::Message(m@),
            Incoming::Unreadable => IncomingView::Unreadable,
            Incoming::Closed => IncomingView::Closed,
        }
    }
}

// ── The coordinator's side ────────────────────────────────────

/// The coordinator's side of one connection.
pub enum ServerSession {
    /// The challenge was sent; the node has not answered yet.
    AwaitingAuth { nonce: [u8; 32], my_secret: [u8; 32] },
    /// The node proved that it holds the shared secret.
    Open { node_id: String, session_key: [u8; 32] },
    /// The connection is over.
    Closed,
}

/// The view of the coordinator's side.
pub enum ServerView {
    AwaitingAuth { nonce: Seq<u8>, my_secret: Seq<u8> },
    Open { node_id: Seq<char>, session_key: Seq<u8> },
    Closed,
}

impl View for ServerSession {
    type V = ServerView;

    open spec fn view(&self) -> ServerView {
        match self {
            ServerSession::AwaitingAuth { nonce, my_secret } => ServerView::AwaitingAuth {
                nonce: nonce@,
                my_secret: my_secret@,
            },
            ServerSession::Open { node_id, session_key } => ServerView::Open {
                node_id: node_id@,
                session_key: session_key@,
            },
            ServerSession::Closed => ServerView::Closed,
        }
    }
}

/// What the coordinator does after a step.
pub enum ServerAction {
    /// Nothing to send.
    Nothing,
    /// Send this reply to the node.
    Reply(SwarmMessage),
    /// Drop the connection.
    Drop,
}

/// The view of a coordinator's action.
pub enum ServerActionView {
    Nothing,
    Reply(MessageView),
    Drop,
}

impl View for ServerAction {
    type V = ServerActionView;

    open spec fn view(&self) -> ServerActionView {
        match self {
            ServerAction::Nothing => ServerActionView::Nothing,
            ServerAction::Reply(m) => ServerActionView::Reply(m@),
            ServerAction::Drop => ServerActionView::Drop,
        }
    }
}

/// The coordinator's next state. Waiting for the answer, a correct HMAC of
/// the nonce opens the connection under the id the node gave, with the
/// session key of the two ephemeral keys; anything else ends it. Once open, a
/// join under another id or the end of the connection ends it; anything else
/// leaves it open.
pub open spec fn server_next(s: ServerView, event: IncomingView, secret: Seq<u8>) -> ServerView {
    match s {
        ServerView::AwaitingAuth { nonce, my_secret } => match event {
            IncomingView::Message(MessageView::AuthResponse { node_id, token_hash, public_key }) => {
                if hmac_accepts(secret, nonce, token_hash) {
                    ServerView::Open { node_id, session_key: session_key(my_secret, public_key, nonce) }
                } else {
                    ServerView::Closed
                }
            },
            _ => ServerView::Closed,
        },
        ServerView::Open { node_id, session_key } => match event {
            IncomingView::Message(MessageView::JoinRequest { device_id, compute_power }) => {
                if device_id == node_id {
                    s
                } else {
                    ServerView::Closed
                }
            },
            IncomingView::Closed => ServerView::Closed,
            _ => s,
        },
        ServerView::Closed => ServerView::Closed,
    }
}

/// The associated data that binds a sealed cluster key to the handshake:
/// the bytes of "cluster-key-handshake".
pub const CLUSTER_KEY_AAD: [u8; 21] = [
    99, 108, 117, 115, 116, 101, 114, 45, 107, 101, 121, 45, 104, 97, 110, 100, 115, 104, 97, 107, 101,
];

/// The associated data that binds a sealed cluster key to the handshake.
pub open spec fn cluster_key_aad() -> Seq<u8> {
    CLUSTER_KEY_AAD@
}

/// What the coordinator does: an accepted answer needs no reply; an
/// authenticated node's join under its own id is answered with its layers
/// after the redistribution, the model's size, and the cluster key sealed
/// under the session key; whatever ends the connection drops it; anything
/// else is ignored.
pub open spec fn server_action_ok(
    s: ServerView,
    event: IncomingView,
    secret: Seq<u8>,
    workers: Seq<WorkerView>,
    total_layers: u32,
    cluster_key: Seq<u8>,
    a: ServerActionView,
) -> bool {
    match server_next(s, event, secret) {
        ServerView::Closed => a == ServerActionView::Drop,
        _ => match (s, event) {
            (
                ServerView::Open { session_key, .. },
                IncomingView::Message(MessageView::JoinRequest { device_id, compute_power }),
            ) => a matches ServerActionView::Reply(
                MessageView::JoinResponse { assigned_layers, total_layers: t, encrypted_cluster_key },
            ) && assigned_layers == layers_of(after_join(workers, device_id, compute_power, total_layers), device_id)
                && t == total_layers && sealed_by(session_key, cluster_key_aad(), cluster_key, encrypted_cluster_key),
            _ => a == ServerActionView::Nothing,
        },
    }
}

/// The coordinator's workers after a step: an authenticated node that joins
/// under its own id joins and the layers are redistributed; an authenticated
/// node whose connection ends leaves and they are redistributed again;
/// nothing else changes them.
pub open spec fn server_workers(
    s: ServerView,
    event: IncomingView,
    workers: Seq<WorkerView>,
    total_layers: u32,
) -> Seq<WorkerView> {
    match s {
        ServerView::Open { node_id, .. } => match event {
            IncomingView::Message(MessageView::JoinRequest { device_id, compute_power }) => {
                if device_id == node_id {
                    after_join(workers, device_id, compute_power, total_layers)
                } else {
                    workers
                }
            },
            IncomingView::Closed => after_leave(workers, node_id, total_layers),
            _ => workers,
        },
        _ => workers,
    }
}

impl ServerSession {
    /// Opens the coordinator's side of a connection: a fresh nonce and
    /// ephemeral key pair, and the challenge to send first.
    pub fn start() -> (r: (ServerSession, SwarmMessage))
        ensures
            r.0 matches ServerSession::AwaitingAuth { nonce, my_secret } && r.1@
                == (MessageView::AuthChallenge { nonce: nonce@, public_key: x25519_public_key(my_secret@) }),
    {
        let nonce = generate_nonce();
        let (my_secret, my_public) = generate_ecdh_keys();
        (ServerSession::AwaitingAuth { nonce, my_secret }, SwarmMessage::AuthChallenge { nonce, public_key: my_public })
    }

    /// One step of the coordinator on what was read from the connection,
    /// applied to the coordinator's workers.
    pub fn step(&mut self, event: Incoming, shared_secret: &str, orchestrator: &mut Orchestrator) -> (a: ServerAction)
        ensures
            final(self)@ == server_next(old(self)@, event@, shared_secret.spec_bytes()),
            server_action_ok(
                old(self)@,
                event@,
                shared_secret.spec_bytes(),
                old(orchestrator).worker_list(),
                old(orchestrator).total_layers(),
                old(orchestrator).key(),
                a@,
            ),
            final(orchestrator).worker_list() == server_workers(
                old(self)@,
                event@,
                old(orchestrator).worker_list(),
                old(orchestrator).total_layers(),
            ),
            final(orchestrator).total_layers() == old(orchestrator).total_layers(),
            final(orchestrator).key() == old(orchestrator).key(),
    {
        match self {
            ServerSession::AwaitingAuth { nonce, my_secret } => {
                let nonce = *nonce;
                let my_secret = *my_secret;
                match event {
                    Incoming::Message(SwarmMessage::AuthResponse { node_id, token_hash, public_key }) => {
                        if verify_hmac(&nonce, shared_secret, token_hash.as_slice()) {
                            let key = derive_session_key(&my_secret, &public_key, nonce.as_slice());
                            *self = ServerSession::Open { node_id, session_key: key };
                            ServerAction::Nothing
                        } else {
                            *self = ServerSession::Closed;
                            ServerAction::Drop
                        }
                    },
                    _ => {
                        *self = ServerSession::Closed;
                        ServerAction::Drop
                    },
                }
            },
            ServerSession::Open { node_id, session_key } => {
                let id = node_id.clone();
                let key = *session_key;
                match event {
                    Incoming::Message(SwarmMessage::JoinRequest { device_id, compute_power }) => {
                        if device_id == id {
                            let reply = orchestrator.handle_join(device_id, compute_power);
                            match reply {
                                SwarmMessage::JoinResponse { assigned_layers, total_layers, .. } => {
                                    let aad = CLUSTER_KEY_AAD;
                                    let cluster_key = orchestrator.cluster_key();
                                    match encrypt_with_aad(cluster_key.as_slice(), &key, aad.as_slice()) {
                                        Ok(sealed) => ServerAction::Reply(
                                            SwarmMessage::JoinResponse {
                                                assigned_layers,
                                                total_layers,
                                                encrypted_cluster_key: sealed,
                                            },
                                        ),
                                        Err(_) => {
                                            proof {
                                                assert(false);
                                            }
                                            ServerAction::Nothing
                                        },
                                    }
                                },
                                _ => {
                                    proof {
                                        assert(false);
                                    }
                                    ServerAction::Nothing
                                },
                            }
                        } else {
                            *self = ServerSession::Closed;
                            ServerAction::Drop
                        }
                    },
                    Incoming::Closed => {
                        orchestrator.handle_leave(id.as_str());
                        *self = ServerSession::Closed;
                        ServerAction::Drop
                    },
                    _ => ServerAction::Nothing,
                }
            },
            ServerSession::Closed => ServerAction::Drop,
        }
    }
}

// ── The joining node's side ───────────────────────────────────

/// Why a node could not join.
#[derive(Debug, Clone, Copy, PartialEq, Eq, Structural)]
pub enum ClientError {
    /// The connection ended before the coordinator's challenge.
    ClosedBeforeChallenge,
    /// The coordinator's first frame was not a challenge.
    ExpectedChallenge,
    /// No join response with a 32-byte cluster key followed the answer to
    /// the challenge.
    NoClusterKey,
    /// The cluster key in the join response did not decrypt under the
    /// session key.
    ClusterKeyUndecryptable,
}

/// The text of a join failure.
pub open spec fn client_error_text(e: ClientError) -> Seq<char> {
    match e {
        ClientError::ClosedBeforeChallenge => "Connection closed before AuthChallenge"@,
        ClientError::ExpectedChallenge => "Expected AuthChallenge from server"@,
        ClientError::NoClusterKey => "Failed to obtain cluster key"@,
        ClientError::ClusterKeyUndecryptable => "Failed to decrypt cluster key"@,
    }
}

impl ClientError {
    /// The text of the failure.
    pub fn message(&self) -> (r: &'static str)
        ensures
            r@ == client_error_text(*self),
    {
        match self {
            ClientError::ClosedBeforeChallenge => "Connection closed before AuthChallenge",
            ClientError::ExpectedChallenge => "Expected AuthChallenge from server",
            ClientError::NoClusterKey => "Failed to obtain cluster key",
            ClientError::ClusterKeyUndecryptable => "Failed to decrypt cluster key",
        }
    }
}

/// The joining node's side of a connection.
pub enum ClientSession {
    /// Connected; the coordinator's challenge has not arrived.
    AwaitingChallenge,
    /// The challenge was answered and the join requested.
    AwaitingJoin { session_key: [u8; 32] },
    /// The node joined: the cluster key and its assignment.
    Joined { cluster_key: [u8; 32], assigned_layers: Vec<u32>, total_layers: u32 },
    /// The handshake failed.
    Failed(ClientError),
}

/// The view of the joining node's side.
pub enum ClientView {
    AwaitingChallenge,
    AwaitingJoin { session_key: Seq<u8> },
    Joined { cluster_key: Seq<u8>, assigned_layers: Seq<u32>, total_layers: u32 },
    Failed(ClientError),
}

impl View for ClientSession {
    type V = ClientView;

    open spec fn view(&self) -> ClientView {
        match self {
            ClientSession::AwaitingChallenge => ClientView::AwaitingChallenge,
            ClientSession::AwaitingJoin { session_key } => ClientView::AwaitingJoin { session_key: session_key@ },
            ClientSession::Joined { cluster_key, assigned_layers, total_layers } => ClientView::Joined {
                cluster_key: cluster_key@,
                assigned_layers: assigned_layers@,
                total_layers: *total_layers,
            },
            ClientSession::Failed(e) => ClientView::Failed(*e),
        }
    }
}

/// What the joining node does after a step.
pub enum ClientAction {
    /// Send these messages, in order.
    Send(Vec<SwarmMessage>),
    /// The node has joined.
    Done,
    /// The handshake failed.
    Fail(ClientError),
}

/// The view of a joining node's action.
pub enum ClientActionView {
    Send(Seq<MessageView>),
    Done,
    Fail(ClientError),
}

impl View for ClientAction {
    type V = ClientActionView;

    open spec fn view(&self) -> ClientActionView {
        match self {
            ClientAction::Send(ms) => ClientActionView::Send(ms@.map_values(|m: SwarmMessage| m@)),
            ClientAction::Done => ClientActionView::Done,
            ClientAction::Fail(e) => ClientActionView::Fail(*e),
        }
    }
}

/// The answer to a challenge: the HMAC of the nonce under the shared secret
/// and the node's public key, then the join request.
pub open spec fn challenge_answer(
    device_id: Seq<char>,
    compute_power: u32,
    secret: Seq<u8>,
    nonce: Seq<u8>,
    my_public: Seq<u8>,
) -> Seq<MessageView> {
    seq![
        MessageView::AuthResponse { node_id: device_id, token_hash: hmac_signature(secret, nonce), public_key: my_public },
        MessageView::JoinRequest { device_id, compute_power },
    ]
}

/// One step of the joining node. Waiting for the challenge, a challenge is
/// answered, with a fresh ephemeral key pair `(my_secret, its public key)`,
/// and the session key of the two keys is kept; anything else fails. Waiting
/// for the join response, the response completes the join with the cluster
/// key it carries, opened under the session key; a key that does not open,
/// is not 32 bytes long, or any other event fails. A finished handshake stays
/// as it is.
pub open spec fn client_step(
    s: ClientView,
    event: IncomingView,
    device_id: Seq<char>,
    compute_power: u32,
    secret: Seq<u8>,
    my_secret: Seq<u8>,
    next: ClientView,
    action: ClientActionView,
) -> bool {
    match s {
        ClientView::AwaitingChallenge => match event {
            IncomingView::Message(MessageView::AuthChallenge { nonce, public_key }) => {
                &&& next == (ClientView::AwaitingJoin { session_key: session_key(my_secret, public_key, nonce) })
                &&& action == ClientActionView::Send(
                    challenge_answer(device_id, compute_power, secret, nonce, x25519_public_key(my_secret)),
                )
            },
            IncomingView::Closed => {
                &&& next == ClientView::Failed(ClientError::ClosedBeforeChallenge)
                &&& action == ClientActionView::Fail(ClientError::ClosedBeforeChallenge)
            },
            _ => {
                &&& next == ClientView::Failed(ClientError::ExpectedChallenge)
                &&& action == ClientActionView::Fail(ClientError::ExpectedChallenge)
            },
        },
        ClientView::AwaitingJoin { session_key } => match event {
            IncomingView::Message(
                MessageView::JoinResponse { assigned_layers, total_layers, encrypted_cluster_key },
            ) => match opened(session_key, encrypted_cluster_key, cluster_key_aad()) {
                Ok(key) => if key.len() == 32 {
                    &&& next == (ClientView::Joined { cluster_key: key, assigned_layers, total_layers })
                    &&& action == ClientActionView::Done
                } else {
                    &&& next == ClientView::Failed(ClientError::NoClusterKey)
                    &&& action == ClientActionView::Fail(ClientError::NoClusterKey)
                },
                Err(_) => {
                    &&& next == ClientView::Failed(ClientError::ClusterKeyUndecryptable)
                    &&& action == ClientActionView::Fail(ClientError::ClusterKeyUndecryptable)
                },
            },
            _ => {
                &&& next == ClientView::Failed(ClientError::NoClusterKey)
                &&& action == ClientActionView::Fail(ClientError::NoClusterKey)
            },
        },
        ClientView::Joined { .. } => next == s && action == ClientActionView::Done,
        ClientView::Failed(e) => next == s && action == ClientActionView::Fail(e),
    }
}

/// The 32 bytes of a key as an array.
fn key_of(bytes: &Vec<u8>) -> (r: [u8; 32])
    requires
        bytes@.len() == 32,
    ensures
        r@ == bytes@,
{
    let mut key = [0u8; 32];
    for i in 0..32
        invariant
            bytes@.len() == 32,
            forall|j: int| 0 <= j < i ==> key@[j] == bytes@[j],
    {
        key[i] = bytes[i];
    }
    assert(key@ =~= bytes@);
    key
}

impl ClientSession {
    /// A node that has just connected.
    pub fn new() -> (r: ClientSession)
        ensures
            r@ == ClientView::AwaitingChallenge,
    {
        ClientSession::AwaitingChallenge
    }

    /// One step of the joining node on what was read from the connection.
    /// The ephemeral key pair made for the challenge is fresh each time, so
    /// the contract speaks of some secret key and its public key.
    pub fn step(&mut self, event: Incoming, device_id: &str, compute_power: u32, shared_secret: &str) -> (a:
        ClientAction)
        ensures
            exists|my_secret: Seq<u8>|
                #![trigger x25519_public_key(my_secret)]
                client_step(
                    old(self)@,
                    event@,
                    device_id@,
                    compute_power,
                    shared_secret.spec_bytes(),
                    my_secret,
                    final(self)@,
                    a@,
                ),
    {
        proof {
            // A witness for the steps that make no key pair.
            let unused = x25519_public_key(Seq::<u8>::empty());
        }
        match self {
            ClientSession::AwaitingChallenge => match event {
                Incoming::Message(SwarmMessage::AuthChallenge { nonce, public_key }) => {
                    let (my_secret, my_public) = generate_ecdh_keys();
                    let key = derive_session_key(&my_secret, &public_key, nonce.as_slice());
                    let answer = SwarmMessage::AuthResponse {
                        node_id: device_id.to_owned(),
                        token_hash: sign_hmac(&nonce, shared_secret),
                        public_key: my_public,
                    };
                    let join = SwarmMessage::JoinRequest { device_id: device_id.to_owned(), compute_power };
                    let mut out: Vec<SwarmMessage> = Vec::new();
                    out.push(answer);
                    out.push(join);
                    *self = ClientSession::AwaitingJoin { session_key: key };
                    proof {
                        assert(out@.map_values(|m: SwarmMessage| m@) =~= challenge_answer(
                            device_id@,
                            compute_power,
                            shared_secret.spec_bytes(),
                            nonce@,
                            x25519_public_key(my_secret@),
                        ));
                        assert(x25519_public_key(my_secret@) == my_public@);
                    }
                    ClientAction::Send(out)
                },
                Incoming::Closed => {
                    *self = ClientSession::Failed(ClientError::ClosedBeforeChallenge);
                    ClientAction::Fail(ClientError::ClosedBeforeChallenge)
                },
                _ => {
                    *self = ClientSession::Failed(ClientError::ExpectedChallenge);
                    ClientAction::Fail(ClientError::ExpectedChallenge)
                },
            },
            ClientSession::AwaitingJoin { session_key } => {
                let key = *session_key;
                match event {
                    Incoming::Message(
                        SwarmMessage::JoinResponse { assigned_layers, total_layers, encrypted_cluster_key },
                    ) => {
                        let aad = CLUSTER_KEY_AAD;
                        match decrypt_with_aad(encrypted_cluster_key.as_slice(), &key, aad.as_slice()) {
                            Ok(plain) => {
                                if plain.len() == 32 {
                                    let cluster_key = key_of(&plain);
                                    *self = ClientSession::Joined { cluster_key, assigned_layers, total_layers };
                                    ClientAction::Done
                                } else {
                                    *self = ClientSession::Failed(ClientError::NoClusterKey);
                                    ClientAction::Fail(ClientError::NoClusterKey)
                                }
                            },
                            Err(_) => {
                                *self = ClientSession::Failed(ClientError::ClusterKeyUndecryptable);
                                ClientAction::Fail(ClientError::ClusterKeyUndecryptable)
                            },
                        }
                    },
                    _ => {
                        *self = ClientSession::Failed(ClientError::NoClusterKey);
                        ClientAction::Fail(ClientError::NoClusterKey)
                    },
                }
            },
            ClientSession::Joined { .. } => {
                ClientAction::Done
            },
            ClientSession::Failed(e) => {
                let e = *e;
                ClientAction::Fail(e)
            },
        }
    }
}

// ── Laws of the handshake ─────────────────────────────────────

/// Before a node has authenticated, nothing it sends changes the
/// coordinator's workers or is answered.
pub proof fn lemma_unauthenticated_changes_nothing(
    s: ServerView,
    event: IncomingView,
    secret: Seq<u8>,
    workers: Seq<WorkerView>,
    total_layers: u32,
    cluster_key: Seq<u8>,
    a: ServerActionView,
)
    requires
        !(s is Open),
        server_action_ok(s, event, secret, workers, total_layers, cluster_key, a),
    ensures
        server_workers(s, event, workers, total_layers) == workers,
        !(a is Reply),
{
}

/// A connection is opened only by an answer that carries the HMAC of the
/// connection's nonce under the shared secret, and it is opened under the id
/// that answer gave.
pub proof fn lemma_only_the_secret_opens(nonce: Seq<u8>, my_secret: Seq<u8>, event: IncomingView, secret: Seq<u8>)
    requires
        server_next(ServerView::AwaitingAuth { nonce, my_secret }, event, secret) is Open,
    ensures
        event matches IncomingView::Message(MessageView::AuthResponse { node_id, token_hash, .. })
            && hmac_accepts(secret, nonce, token_hash)
            && server_next(ServerView::AwaitingAuth { nonce, my_secret }, event, secret)->Open_node_id == node_id,
{
}

/// An open connection changes the workers only by its own node's join or
/// leave: any other request leaves them as they are.
pub proof fn lemma_connection_changes_only_its_node(
    node_id: Seq<char>,
    key: Seq<u8>,
    event: IncomingView,
    workers: Seq<WorkerView>,
    total_layers: u32,
)
    requires
        !(event matches IncomingView::Message(MessageView::JoinRequest { device_id, .. }) && device_id == node_id),
        !(event is Closed),
    ensures
        server_workers(ServerView::Open { node_id, session_key: key }, event, workers, total_layers) == workers,
{
}

/// A node that holds the shared secret and answers the coordinator's
/// challenge is authenticated under its id, and the join request it sends
/// next joins it and is answered with its share of the layers and the
/// cluster key sealed under the connection's session key.
pub proof fn lemma_answered_challenge_joins(
    nonce: Seq<u8>,
    server_secret: Seq<u8>,
    client_secret: Seq<u8>,
    device_id: Seq<char>,
    compute_power: u32,
    secret: Seq<u8>,
    workers: Seq<WorkerView>,
    total_layers: u32,
    cluster_key: Seq<u8>,
    first: ServerActionView,
    second: ServerActionView,
)
    requires
        ({
            let answer = challenge_answer(device_id, compute_power, secret, nonce, x25519_public_key(client_secret));
            let awaiting = ServerView::AwaitingAuth { nonce, my_secret: server_secret };
            let open = server_next(awaiting, IncomingView::Message(answer[0]), secret);
            &&& server_action_ok(awaiting, IncomingView::Message(answer[0]), secret, workers, total_layers, cluster_key, first)
            &&& server_action_ok(open, IncomingView::Message(answer[1]), secret, workers, total_layers, cluster_key, second)
        }),
    ensures
        ({
            let answer = challenge_answer(device_id, compute_power, secret, nonce, x25519_public_key(client_secret));
            let awaiting = ServerView::AwaitingAuth { nonce, my_secret: server_secret };
            let open = server_next(awaiting, IncomingView::Message(answer[0]), secret);
            let key = session_key(server_secret, x25519_public_key(client_secret), nonce);
            &&& open == (ServerView::Open { node_id: device_id, session_key: key })
            &&& first == ServerActionView::Nothing
            &&& server_next(open, IncomingView::Message(answer[1]), secret) == open
            &&& second matches ServerActionView::Reply(
                MessageView::JoinResponse { assigned_layers, total_layers: t, encrypted_cluster_key },
            ) && assigned_layers == layers_of(after_join(workers, device_id, compute_power, total_layers), device_id)
                && t == total_layers && sealed_by(key, cluster_key_aad(), cluster_key, encrypted_cluster_key)
            &&& server_workers(open, IncomingView::Message(answer[1]), workers, total_layers) == after_join(
                workers,
                device_id,
                compute_power,
                total_layers,
            )
        }),
{
}

/// A joining node whose session key is the coordinator's recovers the
/// cluster key from the join response: it ends the handshake joined, holding
/// that key and its layers.
pub proof fn lemma_node_recovers_cluster_key(
    key: Seq<u8>,
    cluster_key: Seq<u8>,
    assigned_layers: Seq<u32>,
    total_layers: u32,
    sealed: Seq<u8>,
    device_id: Seq<char>,
    compute_power: u32,
    secret: Seq<u8>,
    my_secret: Seq<u8>,
    next: ClientView,
    action: ClientActionView,
)
    requires
        cluster_key.len() == 32,
        sealed_by(key, cluster_key_aad(), cluster_key, sealed),
        client_step(
            ClientView::AwaitingJoin { session_key: key },
            IncomingView::Message(MessageView::JoinResponse { assigned_layers, total_layers, encrypted_cluster_key: sealed }),
            device_id,
            compute_power,
            secret,
            my_secret,
            next,
            action,
        ),
    ensures
        next == (ClientView::Joined { cluster_key, assigned_layers, total_layers }),
        action == ClientActionView::Done,
{
}


/// Once open, a connection ends only when the connection itself ends or the
/// node asks to join under another id: a heartbeat, a join under its own id,
/// an unreadable frame or any other message keeps it open, and it is never
/// dropped for them.
pub proof fn lemma_open_connection_stays_open(
    node_id: Seq<char>,
    key: Seq<u8>,
    event: IncomingView,
    secret: Seq<u8>,
    workers: Seq<WorkerView>,
    total_layers: u32,
    cluster_key: Seq<u8>,
    a: ServerActionView,
)
    requires
        !(event is Closed),
        !(event matches IncomingView::Message(MessageView::JoinRequest { device_id, .. }) && device_id != node_id),
        server_action_ok(
            ServerView::Open { node_id, session_key: key },
            event,
            secret,
            workers,
            total_layers,
            cluster_key,
            a,
        ),
    ensures
        server_next(ServerView::Open { node_id, session_key: key }, event, secret) == (ServerView::Open {
            node_id,
            session_key: key,
        }),
        a != ServerActionView::Drop,
        event == IncomingView::Message(MessageView::Heartbeat) ==> a == ServerActionView::Nothing,
{
}


/// A joining node answers only a challenge: before it, anything else ends
/// the handshake in failure with nothing sent, and a finished handshake
/// (joined or failed) never sends anything again.
pub proof fn lemma_node_answers_only_a_challenge(
    s: ClientView,
    event: IncomingView,
    device_id: Seq<char>,
    compute_power: u32,
    secret: Seq<u8>,
    my_secret: Seq<u8>,
    next: ClientView,
    action: ClientActionView,
)
    requires
        client_step(s, event, device_id, compute_power, secret, my_secret, next, action),
    ensures
        action is Send ==> s == ClientView::AwaitingChallenge && event is Message && event->Message_0 is AuthChallenge,
        s == ClientView::AwaitingChallenge && !(event is Message && event->Message_0 is AuthChallenge) ==> next is Failed
            && action is Fail,
        (s is Joined || s is Failed) ==> next == s && !(action is Send),
        action is Done ==> next is Joined,
{
}

} // verus!
