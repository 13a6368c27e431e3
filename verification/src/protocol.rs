//! Messages exchanged between the nodes of the swarm.

use vstd::prelude::*;

verus! {

/// A route for an inference sequence: the ordered peers of the pipeline and
/// the position of the one currently processing it. The ticket travels with
/// the data, so the route needs no coordinator.
pub struct RouteTicket {
    pub task_id: String,
    pub sequence_id: u64,
    /// Ordered peer identifiers of the pipeline (their textual form).
    pub nodes: Vec<String>,
    /// Index of the node currently processing the task.
    pub current_index: usize,
}

/// The view of a route ticket.
pub struct RouteView {
    pub task_id: Seq<char>,
    pub sequence_id: u64,
    pub nodes: Seq<Seq<char>>,
    pub current_index: usize,
}

impl View for RouteTicket {
    type V = RouteView;

    open spec fn view(&self) -> RouteView {
        RouteView {
            task_id: self.task_id@,
            sequence_id: self.sequence_id,
            nodes: self.nodes@.map_values(|n: String| n@),
            current_index: self.current_index,
        }
    }
}

impl RouteTicket {
    /// The peer after the current one, if the route continues.
    pub fn next_peer(&self) -> (r: Option<String>)
        ensures
            self.current_index + 1 < self.nodes@.len() ==> (r matches Some(p) && p@
                == self.nodes@[self.current_index + 1]@),
            self.current_index + 1 >= self.nodes@.len() ==> r is None,
    {
        if self.current_index < self.nodes.len() && self.current_index + 1 < self.nodes.len() {
            Some(self.nodes[self.current_index + 1].clone())
        } else {
            None
        }
    }
}

/// Messages of the swarm protocol. Logits travel as the IEEE-754 binary32
/// bit patterns of the probabilities.
pub enum SwarmMessage {
    /// Authentication: the coordinator challenges a connecting node with a
    /// nonce and its ephemeral X25519 public key.
    AuthChallenge { nonce: [u8; 32], public_key: [u8; 32] },
    /// Authentication: the node answers with the HMAC of the nonce under the
    /// shared secret and its own ephemeral public key.
    AuthResponse { node_id: String, token_hash: Vec<u8>, public_key: [u8; 32] },
    /// Handshake: a node asks to join the cluster.
    JoinRequest { device_id: String, compute_power: u32 },
    /// Handshake: the coordinator answers with the layers assigned to the
    /// node and the cluster key, sealed under the session key.
    JoinResponse { assigned_layers: Vec<u32>, total_layers: u32, encrypted_cluster_key: Vec<u8> },
    /// Inference: a stage of a task is sent to a node.
    ProcessTask {
        task_id: String,
        sequence_id: u64,
        /// Sealed hidden state from the previous stage (empty at the entry).
        input_state: Vec<u8>,
        start_layer: u32,
        end_layer: u32,
        tokens: Vec<i32>,
        route: Option<RouteTicket>,
    },
    /// Inference: a node returns the result of its stage.
    TaskResult {
        task_id: String,
        sequence_id: u64,
        /// Sealed hidden state after this stage.
        output_state: Vec<u8>,
        /// Output probabilities for the next token (binary32 bit patterns).
        logits: Vec<u32>,
    },
    /// Health check.
    Heartbeat,
}

/// The view of a message: its strings and vectors as sequences.
pub enum MessageView {
    AuthChallenge { nonce: Seq<u8>, public_key: Seq<u8> },
    AuthResponse { node_id: Seq<char>, token_hash: Seq<u8>, public_key: Seq<u8> },
    JoinRequest { device_id: Seq<char>, compute_power: u32 },
    JoinResponse { assigned_layers: Seq<u32>, total_layers: u32, encrypted_cluster_key: Seq<u8> },
    ProcessTask {
        task_id: Seq<char>,
        sequence_id: u64,
        input_state: Seq<u8>,
        start_layer: u32,
        end_layer: u32,
        tokens: Seq<i32>,
        route: Option<RouteView>,
    },
    TaskResult { task_id: Seq<char>, sequence_id: u64, output_state: Seq<u8>, logits: Seq<u32> },
    Heartbeat,
}

impl View for SwarmMessage {
    type V = MessageView;

    open spec fn view(&self) -> MessageView {
        match self {
            SwarmMessage::AuthChallenge { nonce, public_key } => MessageView::AuthChallenge {
                nonce: nonce@,
                public_key: public_key@,
            },
            SwarmMessage::AuthResponse { node_id, token_hash, public_key } => MessageView::AuthResponse {
                node_id: node_id@,
                token_hash: token_hash@,
                public_key: public_key@,
            },
            SwarmMessage::JoinRequest { device_id, compute_power } => MessageView::JoinRequest {
                device_id: device_id@,
                compute_power: *compute_power,
            },
            SwarmMessage::JoinResponse { assigned_layers, total_layers, encrypted_cluster_key } =>
                MessageView::JoinResponse {
                assigned_layers: assigned_layers@,
                total_layers: *total_layers,
                encrypted_cluster_key: encrypted_cluster_key@,
            },
            SwarmMessage::ProcessTask {
                task_id,
                sequence_id,
                input_state,
                start_layer,
                end_layer,
                tokens,
                route,
            } => MessageView::ProcessTask {
                task_id: task_id@,
                sequence_id: *sequence_id,
                input_state: input_state@,
                start_layer: *start_layer,
                end_layer: *end_layer,
                tokens: tokens@,
                route: match route {
                    Some(t) => Some(t@),
                    None => None,
                },
            },
            SwarmMessage::TaskResult { task_id, sequence_id, output_state, logits } =>
                MessageView::TaskResult {
                task_id: task_id@,
                sequence_id: *sequence_id,
                output_state: output_state@,
                logits: logits@,
            },
            SwarmMessage::Heartbeat => MessageView::Heartbeat,
        }
    }
}

} // verus!
