//! Verified core of a swarm for pipeline-parallel LLM inference: node
//! lifecycle, hardware profiles, the node registry, inference routing,
//! layer assignment and the sealing of hidden states that travel between
//! pipeline stages.

pub mod clock;
pub mod compute;
pub mod crypto;
pub mod executor;
pub mod layer_slice;
pub mod node;
pub mod orchestrator;
pub mod pipeline;
pub mod protocol;
pub mod remote;
pub mod session;
pub mod util;

pub use node::state::NodeState;
