use vstd::prelude::*;

verus! {

/// Lifecycle state of a node in the swarm.
///
/// ```text
/// Joining ──► Ready ──► Active ◄──► Degraded
///    │          │         │            │
///    │          └────► Draining ◄──────┘
///    │                   │
///    └──────────────►  Left
/// ```
#[derive(Debug, Clone, Copy, PartialEq, Eq, Structural)]
pub enum NodeState {
    /// Handshake in progress, node is being registered.
    Joining,
    /// Registered and ready to receive layer assignments.
    Ready,
    /// Actively computing with assigned layers.
    Active,
    /// Resources are low but the node is still functional.
    Degraded,
    /// Gracefully shutting down: finishes current tasks, accepts no new ones.
    Draining,
    /// Disconnected from the swarm.
    Left,
}

/// A refused lifecycle transition.
#[derive(Debug, Clone, Copy, PartialEq, Eq, Structural)]
pub struct TransitionError {
    pub from: NodeState,
    pub to: NodeState,
}

/// The edges of the lifecycle graph.
pub open spec fn valid_transition(from: NodeState, to: NodeState) -> bool {
    ||| (from == NodeState::Joining && to == NodeState::Ready)
    ||| (from == NodeState::Ready && to == NodeState::Active)
    ||| (from == NodeState::Active && to == NodeState::Degraded)
    ||| (from == NodeState::Degraded && to == NodeState::Active)
    ||| (from == NodeState::Active && to == NodeState::Draining)
    ||| (from == NodeState::Degraded && to == NodeState::Draining)
    ||| (from == NodeState::Draining && to == NodeState::Left)
    ||| (from == NodeState::Ready && to == NodeState::Draining)
    ||| (from == NodeState::Joining && to == NodeState::Left)
}

/// States in which a node takes new tasks.
pub open spec fn accepts_tasks(s: NodeState) -> bool {
    s == NodeState::Active || s == NodeState::Ready
}

/// States in which a node is still present in the swarm.
pub open spec fn alive(s: NodeState) -> bool {
    s != NodeState::Left
}

impl NodeState {
    /// Attempts to move to `target`; refuses any move that is not an edge of
    /// the lifecycle graph.
    pub fn transition_to(&self, target: NodeState) -> (r: Result<NodeState, TransitionError>)
        ensures
            valid_transition(*self, target) ==> r == Ok::<NodeState, TransitionError>(target),
            !valid_transition(*self, target) ==> r == Err::<NodeState, TransitionError>(
                TransitionError { from: *self, to: target },
            ),
    {
        if self.can_transition_to(target) {
            Ok(target)
        } else {
            Err(TransitionError { from: *self, to: target })
        }
    }

    /// Whether `target` is reachable from this state in one step.
    pub fn can_transition_to(&self, target: NodeState) -> (r: bool)
        ensures
            r == valid_transition(*self, target),
    {
        match (*self, target) {
            (NodeState::Joining, NodeState::Ready) => true,
            (NodeState::Ready, NodeState::Active) => true,
            (NodeState::Active, NodeState::Degraded) => true,
            (NodeState::Degraded, NodeState::Active) => true,
            (NodeState::Active, NodeState::Draining) => true,
            (NodeState::Degraded, NodeState::Draining) => true,
            (NodeState::Draining, NodeState::Left) => true,
            (NodeState::Ready, NodeState::Draining) => true,
            (NodeState::Joining, NodeState::Left) => true,
            _ => false,
        }
    }

    /// True for the states in which the node can take new tasks.
    pub fn can_accept_tasks(&self) -> (r: bool)
        ensures
            r == accepts_tasks(*self),
    {
        match self {
            NodeState::Active | NodeState::Ready => true,
            _ => false,
        }
    }

    /// True unless the node has left the swarm.
    pub fn is_alive(&self) -> (r: bool)
        ensures
            r == alive(*self),
    {
        match self {
            NodeState::Left => false,
            _ => true,
        }
    }
}

impl NodeState {
    /// The state's name, as shown in dashboards and logs.
    pub fn name(&self) -> (r: &'static str)
        ensures
            r@ == state_name(*self),
    {
        match self {
            NodeState::Joining => "Joining",
            NodeState::Ready => "Ready",
            NodeState::Active => "Active",
            NodeState::Degraded => "Degraded",
            NodeState::Draining => "Draining",
            NodeState::Left => "Left",
        }
    }
}

/// The display name of each state.
pub open spec fn state_name(s: NodeState) -> Seq<char> {
    match s {
        NodeState::Joining => "Joining"@,
        NodeState::Ready => "Ready"@,
        NodeState::Active => "Active"@,
        NodeState::Degraded => "Degraded"@,
        NodeState::Draining => "Draining"@,
        NodeState::Left => "Left"@,
    }
}

/// A walk through the lifecycle graph: every consecutive pair is an edge.
pub open spec fn is_lifecycle_path(p: Seq<NodeState>) -> bool {
    forall|i: int| 0 <= i < p.len() - 1 ==> #[trigger] valid_transition(p[i], p[i + 1])
}

/// A node that has left never comes back: `Left` has no outgoing edge.
pub proof fn lemma_left_is_terminal(target: NodeState)
    ensures
        !valid_transition(NodeState::Left, target),
{
}

/// No state moves to itself.
pub proof fn lemma_no_self_transition(s: NodeState)
    ensures
        !valid_transition(s, s),
{
}

/// A node that can take tasks is alive.
pub proof fn lemma_accepting_implies_alive(s: NodeState)
    requires
        accepts_tasks(s),
    ensures
        alive(s),
{
}

/// Once draining, a node can only leave; a draining node never takes tasks.
pub proof fn lemma_draining_only_leaves(target: NodeState)
    ensures
        valid_transition(NodeState::Draining, target) <==> target == NodeState::Left,
        !accepts_tasks(NodeState::Draining),
{
}

/// Degradation is recoverable: a degraded node can return to `Active`,
/// and an active node can degrade.
pub proof fn lemma_degradation_recoverable()
    ensures
        valid_transition(NodeState::Active, NodeState::Degraded),
        valid_transition(NodeState::Degraded, NodeState::Active),
{
}

/// Every node can leave the swarm: from each state there is a lifecycle
/// path that ends in `Left`.
pub proof fn lemma_every_state_can_leave(s: NodeState)
    ensures
        exists|p: Seq<NodeState>|
            #![trigger is_lifecycle_path(p)]
            p.len() >= 1 && p[0] == s && p.last() == NodeState::Left && is_lifecycle_path(p),
{
    let p = match s {
        NodeState::Joining => seq![NodeState::Joining, NodeState::Left],
        NodeState::Ready => seq![NodeState::Ready, NodeState::Draining, NodeState::Left],
        NodeState::Active => seq![NodeState::Active, NodeState::Draining, NodeState::Left],
        NodeState::Degraded => seq![NodeState::Degraded, NodeState::Draining, NodeState::Left],
        NodeState::Draining => seq![NodeState::Draining, NodeState::Left],
        NodeState::Left => seq![NodeState::Left],
    };
    assert(is_lifecycle_path(p));
}

/// Every state is reachable from `Joining`.
pub proof fn lemma_every_state_reachable_from_joining(s: NodeState)
    ensures
        exists|p: Seq<NodeState>|
            #![trigger is_lifecycle_path(p)]
            p.len() >= 1 && p[0] == NodeState::Joining && p.last() == s && is_lifecycle_path(p),
{
    let p = match s {
        NodeState::Joining => seq![NodeState::Joining],
        NodeState::Ready => seq![NodeState::Joining, NodeState::Ready],
        NodeState::Active => seq![NodeState::Joining, NodeState::Ready, NodeState::Active],
        NodeState::Degraded => seq![
            NodeState::Joining,
            NodeState::Ready,
            NodeState::Active,
            NodeState::Degraded,
        ],
        NodeState::Draining => seq![NodeState::Joining, NodeState::Ready, NodeState::Draining],
        NodeState::Left => seq![NodeState::Joining, NodeState::Left],
    };
    assert(is_lifecycle_path(p));
}


/// The lifecycle graph has exactly its nine documented edges: Joining to
/// Ready or Left, Ready to Active or Draining, Active to Degraded or
/// Draining, Degraded to Active or Draining, and Draining to Left.
pub proof fn lemma_lifecycle_edges(from: NodeState, to: NodeState)
    ensures
        valid_transition(from, to) <==> (
            (from, to) == (NodeState::Joining, NodeState::Ready)
            || (from, to) == (NodeState::Joining, NodeState::Left)
            || (from, to) == (NodeState::Ready, NodeState::Active)
            || (from, to) == (NodeState::Ready, NodeState::Draining)
            || (from, to) == (NodeState::Active, NodeState::Degraded)
            || (from, to) == (NodeState::Active, NodeState::Draining)
            || (from, to) == (NodeState::Degraded, NodeState::Active)
            || (from, to) == (NodeState::Degraded, NodeState::Draining)
            || (from, to) == (NodeState::Draining, NodeState::Left)
        ),
{
}

/// A node leaves only by draining, or before it ever joined: no working
/// node (Ready, Active or Degraded) goes straight to `Left`.
pub proof fn lemma_working_nodes_drain_before_leaving(s: NodeState)
    ensures
        valid_transition(s, NodeState::Left) ==> s == NodeState::Draining || s == NodeState::Joining,
        (s == NodeState::Ready || s == NodeState::Active || s == NodeState::Degraded) ==> !valid_transition(
            s,
            NodeState::Left,
        ) && valid_transition(s, NodeState::Draining),
{
}

/// Only a ready node starts work, and only a joining node becomes ready.
pub proof fn lemma_entry_edges(s: NodeState)
    ensures
        valid_transition(s, NodeState::Ready) ==> s == NodeState::Joining,
        valid_transition(s, NodeState::Active) ==> s == NodeState::Ready || s == NodeState::Degraded,
        valid_transition(s, NodeState::Degraded) ==> s == NodeState::Active,
        !valid_transition(s, NodeState::Joining),
{
}


/// Exactly the ready and active nodes take tasks, and every node but one
/// that has left is alive.
pub proof fn lemma_task_and_presence_table(s: NodeState)
    ensures
        accepts_tasks(s) <==> (s == NodeState::Ready || s == NodeState::Active),
        alive(s) <==> s != NodeState::Left,
{
}

} // verus!
