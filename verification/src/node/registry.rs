//! The registry of the nodes of the swarm and their lifecycle.

use crate::clock;
use crate::compute::binary32;
use crate::compute::capacity::{default_reservation, EffectiveCapacity, ResourceReservation};
use crate::compute::profile::NodeProfile;
use crate::compute::status::{NodeStatus, ThermalState};
use crate::node::state::{accepts_tasks, alive, valid_transition, NodeState, TransitionError};
use vstd::prelude::*;
use vstd::utf8::encode_utf8;

verus! {

/// Everything the coordinator knows of a node.
pub struct NodeEntry {
    /// Unique device identifier.
    pub id: String,
    /// Static hardware profile, detected once at join.
    pub profile: NodeProfile,
    /// Most recent resource status.
    pub status: NodeStatus,
    /// Current lifecycle state.
    pub state: NodeState,
    /// Effective capacity derived from profile, status and reservation.
    pub capacity: EffectiveCapacity,
    /// Model layers currently assigned to the node.
    pub assigned_layers: Vec<u32>,
    /// Resources kept for the device's user.
    pub reservation: ResourceReservation,
    /// When the last heartbeat (or status) was received.
    pub last_heartbeat: std::time::Instant,
}

/// Why a registry operation was refused.
#[derive(Debug)]
pub enum RegistryError {
    /// No node is registered under this id.
    NodeNotFound(String),
    /// The node's lifecycle does not allow the requested move.
    InvalidTransition(TransitionError),
}

/// The view of a registry error.
pub enum RegistryErrorView {
    NodeNotFound(Seq<char>),
    InvalidTransition(TransitionError),
}

/// A registry error seen through its view.
pub open spec fn registry_error_view(e: RegistryError) -> RegistryErrorView {
    match e {
        RegistryError::NodeNotFound(id) => RegistryErrorView::NodeNotFound(id@),
        RegistryError::InvalidTransition(t) => RegistryErrorView::InvalidTransition(t),
    }
}

/// No two entries carry the same id.
pub open spec fn unique_ids(s: Seq<NodeEntry>) -> bool {
    forall|i: int, j: int| 0 <= i < s.len() && 0 <= j < s.len() && i != j ==> #[trigger] s[i].id@ != #[trigger] s[j].id@
}

/// Whether some entry carries `id`.
pub open spec fn has_id(s: Seq<NodeEntry>, id: Seq<char>) -> bool {
    exists|i: int| 0 <= i < s.len() && #[trigger] s[i].id@ == id
}

/// The entries by id.
pub open spec fn as_map(s: Seq<NodeEntry>) -> Map<Seq<char>, NodeEntry> {
    Map::new(
        |k: Seq<char>| has_id(s, k),
        |k: Seq<char>| s[choose|i: int| 0 <= i < s.len() && #[trigger] s[i].id@ == k],
    )
}

/// With unique ids, the entry at index `i` is the one filed under its id.
pub proof fn lemma_as_map_index(s: Seq<NodeEntry>, i: int)
    requires
        unique_ids(s),
        0 <= i < s.len(),
    ensures
        as_map(s).contains_key(s[i].id@),
        as_map(s)[s[i].id@] == s[i],
{
    assert(has_id(s, s[i].id@));
    let j = choose|j: int| 0 <= j < s.len() && #[trigger] s[j].id@ == s[i].id@;
    assert(j == i);
}

/// Replacing an entry by one with the same id refiles it.
pub proof fn lemma_as_map_update(s: Seq<NodeEntry>, i: int, e: NodeEntry)
    requires
        unique_ids(s),
        0 <= i < s.len(),
        s[i].id@ == e.id@,
    ensures
        unique_ids(s.update(i, e)),
        as_map(s.update(i, e)) == as_map(s).insert(e.id@, e),
{
    let t = s.update(i, e);
    assert(unique_ids(t)) by {
        assert forall|a: int, b: int| 0 <= a < t.len() && 0 <= b < t.len() && a != b implies #[trigger] t[a].id@
            != #[trigger] t[b].id@ by {
            assert(s[a].id@ != s[b].id@);
        }
    }
    assert forall|k: Seq<char>| has_id(s, k) implies has_id(t, k) by {
        {
            let j = choose|j: int| 0 <= j < s.len() && #[trigger] s[j].id@ == k;
            assert(t[j].id@ == k);
        }
    }
    assert forall|k: Seq<char>| has_id(t, k) implies has_id(s, k) by {
        {
            let j = choose|j: int| 0 <= j < t.len() && #[trigger] t[j].id@ == k;
            assert(s[j].id@ == k);
        }
    }
    assert forall|k: Seq<char>| #[trigger] as_map(t).contains_key(k) implies as_map(t)[k] == as_map(s).insert(
        e.id@,
        e,
    )[k] by {
        let j = choose|j: int| 0 <= j < t.len() && #[trigger] t[j].id@ == k;
        lemma_as_map_index(t, j);
        if j != i {
            lemma_as_map_index(s, j);
        }
    }
    assert(as_map(t) =~= as_map(s).insert(e.id@, e));
}

/// Appending an entry with a new id files it under that id.
pub proof fn lemma_as_map_push(s: Seq<NodeEntry>, e: NodeEntry)
    requires
        unique_ids(s),
        !has_id(s, e.id@),
    ensures
        unique_ids(s.push(e)),
        as_map(s.push(e)) == as_map(s).insert(e.id@, e),
{
    let t = s.push(e);
    assert(unique_ids(t)) by {
        assert forall|a: int, b: int| 0 <= a < t.len() && 0 <= b < t.len() && a != b implies #[trigger] t[a].id@
            != #[trigger] t[b].id@ by {
            if a < s.len() && b < s.len() {
                assert(s[a].id@ != s[b].id@);
            } else if a < s.len() {
                assert(s[a].id@ != e.id@);
            } else {
                assert(s[b].id@ != e.id@);
            }
        }
    }
    assert forall|k: Seq<char>| has_id(t, k) <==> (has_id(s, k) || k == e.id@) by {
        if has_id(s, k) {
            let j = choose|j: int| 0 <= j < s.len() && #[trigger] s[j].id@ == k;
            assert(t[j].id@ == k);
        }
        if k == e.id@ {
            assert(t[s.len() as int].id@ == k);
        }
        if has_id(t, k) {
            let j = choose|j: int| 0 <= j < t.len() && #[trigger] t[j].id@ == k;
            if j < s.len() {
                assert(s[j].id@ == k);
            }
        }
    }
    assert forall|k: Seq<char>| #[trigger] as_map(t).contains_key(k) implies as_map(t)[k] == as_map(s).insert(
        e.id@,
        e,
    )[k] by {
        let j = choose|j: int| 0 <= j < t.len() && #[trigger] t[j].id@ == k;
        lemma_as_map_index(t, j);
        if j < s.len() {
            lemma_as_map_index(s, j);
        }
    }
    assert(as_map(t) =~= as_map(s).insert(e.id@, e));
}

/// Removing the entry at `i` unfiles its id.
pub proof fn lemma_as_map_remove(s: Seq<NodeEntry>, i: int)
    requires
        unique_ids(s),
        0 <= i < s.len(),
    ensures
        unique_ids(s.remove(i)),
        as_map(s.remove(i)) == as_map(s).remove(s[i].id@),
{
    let t = s.remove(i);
    let id = s[i].id@;
    assert(unique_ids(t)) by {
        assert forall|a: int, b: int| 0 <= a < t.len() && 0 <= b < t.len() && a != b implies #[trigger] t[a].id@
            != #[trigger] t[b].id@ by {
            let sa = if a < i { a } else { a + 1 };
            let sb = if b < i { b } else { b + 1 };
            assert(t[a] == s[sa]);
            assert(t[b] == s[sb]);
        }
    }
    assert forall|k: Seq<char>| has_id(t, k) <==> (has_id(s, k) && k != id) by {
        if has_id(t, k) {
            let j = choose|j: int| 0 <= j < t.len() && #[trigger] t[j].id@ == k;
            let sj = if j < i { j } else { j + 1 };
            assert(t[j] == s[sj]);
            assert(s[sj].id@ == k);
        }
        if has_id(s, k) && k != id {
            let j = choose|j: int| 0 <= j < s.len() && #[trigger] s[j].id@ == k;
            let tj = if j < i { j } else { j - 1 };
            assert(t[tj] == s[j]);
        }
    }
    assert forall|k: Seq<char>| #[trigger] as_map(t).contains_key(k) implies as_map(t)[k] == as_map(s).remove(
        id,
    )[k] by {
        let j = choose|j: int| 0 <= j < t.len() && #[trigger] t[j].id@ == k;
        lemma_as_map_index(t, j);
        let sj = if j < i { j } else { j + 1 };
        assert(t[j] == s[sj]);
        lemma_as_map_index(s, sj);
    }
    assert(as_map(t) =~= as_map(s).remove(id));
}

/// With unique ids, there are as many ids as entries.
pub proof fn lemma_as_map_len(s: Seq<NodeEntry>)
    requires
        unique_ids(s),
    ensures
        as_map(s).dom().finite(),
        as_map(s).dom().len() == s.len(),
    decreases s.len(),
{
    if s.len() == 0 {
        assert(as_map(s).dom() =~= Set::<Seq<char>>::empty());
    } else {
        let p = s.drop_last();
        assert(unique_ids(p)) by {
            assert forall|a: int, b: int| 0 <= a < p.len() && 0 <= b < p.len() && a != b implies #[trigger] p[a].id@
                != #[trigger] p[b].id@ by {
                assert(s[a].id@ != s[b].id@);
            }
        }
        lemma_as_map_len(p);
        assert(!has_id(p, s.last().id@)) by {
            if has_id(p, s.last().id@) {
                let j = choose|j: int| 0 <= j < p.len() && #[trigger] p[j].id@ == s.last().id@;
                assert(s[j].id@ == s[s.len() - 1].id@);
            }
        }
        lemma_as_map_push(p, s.last());
        assert(p.push(s.last()) == s);
        assert(as_map(s).dom() =~= as_map(p).dom().insert(s.last().id@));
    }
}

/// The entry a freshly registered node gets: the given id and profile, an
/// unknown status, `Joining`, no capacity, no layers, and the default
/// reservation of its device class.
pub open spec fn fresh_entry(e: NodeEntry, id: Seq<char>, profile: NodeProfile) -> bool {
    &&& e.id@ == id
    &&& e.profile == profile
    &&& e.status.cpu_usage == binary32::ZERO
    &&& e.status.ram_used_mb == 0
    &&& e.status.ram_available_mb == 0
    &&& e.status.thermal == ThermalState::Nominal
    &&& e.status.measured_at is None
    &&& e.state == NodeState::Joining
    &&& e.capacity.cpu_score == binary32::ZERO
    &&& e.capacity.ram_available_mb == 0
    &&& e.capacity.composite == binary32::ZERO
    &&& e.assigned_layers@ == Seq::<u32>::empty()
    &&& (e.reservation.cpu_reserved, e.reservation.ram_reserved_mb) == default_reservation(profile.device_type)
}

/// Binary32 bit patterns of the degradation and recovery thresholds
/// (0.1 and 0.15).
pub const DEGRADE_BELOW: u32 = 0x3dcc_cccd;
pub const RECOVER_FROM: u32 = 0x3e19_999a;

/// The state after a status update: an active node whose composite score
/// falls below 0.1 degrades; a degraded node whose score reaches 0.15
/// recovers; any other state is kept.
pub open spec fn state_after_update(state: NodeState, composite: u32) -> NodeState {
    if state == NodeState::Active && binary32::lt_spec(composite, DEGRADE_BELOW) {
        NodeState::Degraded
    } else if state == NodeState::Degraded && binary32::le_spec(RECOVER_FROM, composite) {
        NodeState::Active
    } else {
        state
    }
}

/// The state after layers are assigned: a ready node becomes active.
pub open spec fn state_after_assignment(state: NodeState) -> NodeState {
    if state == NodeState::Ready {
        NodeState::Active
    } else {
        state
    }
}

/// `b` is `a` with only its heartbeat time changed.
pub open spec fn same_but_heartbeat(a: NodeEntry, b: NodeEntry) -> bool {
    &&& b.id == a.id
    &&& b.profile == a.profile
    &&& b.status == a.status
    &&& b.state == a.state
    &&& b.capacity == a.capacity
    &&& b.assigned_layers == a.assigned_layers
    &&& b.reservation == a.reservation
}

/// The registry of all nodes of the swarm.
pub struct NodeRegistry {
    nodes: Vec<NodeEntry>,
}

impl NodeRegistry {
    /// The entries, in registration order.
    pub closed spec fn entries(&self) -> Seq<NodeEntry> {
        self.nodes@
    }

    /// The entries by id.
    pub open spec fn node_map(&self) -> Map<Seq<char>, NodeEntry> {
        as_map(self.entries())
    }

    #[verifier::type_invariant]
    closed spec fn ids_unique(&self) -> bool {
        unique_ids(self.nodes@)
    }

    /// An empty registry.
    pub fn new() -> (r: NodeRegistry)
        ensures
            r.entries() == Seq::<NodeEntry>::empty(),
            r.node_map() == Map::<Seq<char>, NodeEntry>::empty(),
    {
        let r = NodeRegistry { nodes: Vec::new() };
        assert(r.node_map() =~= Map::<Seq<char>, NodeEntry>::empty());
        r
    }

}

impl Default for NodeRegistry {
    /// An empty registry.
    fn default() -> (r: NodeRegistry)
        ensures
            r.node_map() == Map::<Seq<char>, NodeEntry>::empty(),
    {
        NodeRegistry::new()
    }
}

/// The index of the entry with this id.
fn find_entry(nodes: &Vec<NodeEntry>, id: &String) -> (r: Option<usize>)
    ensures
        r matches Some(i) ==> i < nodes@.len() && nodes@[i as int].id@ == id@,
        r is None ==> !has_id(nodes@, id@),
{
    let n = nodes.len();
    for i in 0..n
        invariant
            n == nodes@.len(),
            forall|j: int| 0 <= j < i ==> #[trigger] nodes@[j].id@ != id@,
    {
        if nodes[i].id == *id {
            return Some(i);
        }
    }
    None
}

/// The error for an unknown id.
fn not_found(id: &str) -> (r: RegistryError)
    ensures
        registry_error_view(r) == RegistryErrorView::NodeNotFound(id@),
{
    RegistryError::NodeNotFound(id.to_owned())
}

impl NodeRegistry {
    /// Registers a node with its hardware profile. The node starts `Joining`,
    /// with the default reservation of its device class; a node registered
    /// again under the same id is replaced.
    pub fn register(&mut self, id: String, profile: NodeProfile) -> (r: Result<&NodeEntry, RegistryError>)
        ensures
            final(self).node_map() == old(self).node_map().insert(id@, final(self).node_map()[id@]),
            fresh_entry(final(self).node_map()[id@], id@, profile),
            r matches Ok(e) && *e == final(self).node_map()[id@],
            final(self).node_map().dom().finite(),
    {
        proof {
            use_type_invariant(&*self);
        }
        let reservation = ResourceReservation::for_device(&profile.device_type);
        let entry = NodeEntry {
            id: id.clone(),
            profile,
            status: NodeStatus::unknown(),
            state: NodeState::Joining,
            capacity: EffectiveCapacity::zero(),
            assigned_layers: Vec::new(),
            reservation,
            last_heartbeat: clock::now(),
        };
        let ghost e = entry;
        let mut nodes: Vec<NodeEntry> = Vec::new();
        std::mem::swap(&mut nodes, &mut self.nodes);
        let ghost before = nodes@;
        let pos = match find_entry(&nodes, &id) {
            Some(i) => {
                nodes.set(i, entry);
                proof {
                    lemma_as_map_update(before, i as int, e);
                    lemma_as_map_index(nodes@, i as int);
                }
                i
            },
            None => {
                nodes.push(entry);
                proof {
                    lemma_as_map_push(before, e);
                    lemma_as_map_index(nodes@, before.len() as int);
                }
                nodes.len() - 1
            },
        };
        self.nodes = nodes;
        proof {
            use_type_invariant(&*self);
            lemma_as_map_len(self.nodes@);
        }
        Ok(&self.nodes[pos])
    }

    /// Marks a `Joining` node ready (handshake complete) with its first
    /// status and the capacity computed from it (see [`ready_step`]).
    pub fn mark_ready(&mut self, id: &str, initial_status: NodeStatus, capacity: EffectiveCapacity) -> (r:
        Result<(), RegistryError>)
        ensures
            (unit_result_view(r), final(self).node_map()) == ready_step(
                old(self).node_map(),
                id@,
                initial_status,
                capacity,
            ),
    {
        proof {
            use_type_invariant(&*self);
        }
        let key = id.to_owned();
        let i = match find_entry(&self.nodes, &key) {
            Some(i) => i,
            None => {
                return Err(not_found(id));
            },
        };
        proof {
            lemma_as_map_index(self.nodes@, i as int);
        }
        let next = match self.nodes[i].state.transition_to(NodeState::Ready) {
            Ok(s) => s,
            Err(t) => {
                return Err(RegistryError::InvalidTransition(t));
            },
        };
        let mut nodes: Vec<NodeEntry> = Vec::new();
        std::mem::swap(&mut nodes, &mut self.nodes);
        let ghost before = nodes@;
        let mut entry = nodes.remove(i);
        entry.state = next;
        entry.status = initial_status;
        entry.capacity = capacity;
        let ghost e = entry;
        nodes.insert(i, entry);
        proof {
            assert(nodes@ =~= before.update(i as int, e));
            lemma_as_map_update(before, i as int, e);
        }
        self.nodes = nodes;
        Ok(())
    }
}

impl NodeRegistry {
    /// Updates a node's status and capacity, stamps its heartbeat, and
    /// degrades or recovers it by its new composite score (see
    /// [`state_after_update`]). Returns the capacity it had before, from which
    /// the caller judges how much the score moved.
    pub fn update_status(&mut self, id: &str, status: NodeStatus, capacity: EffectiveCapacity) -> (r: Result<
        EffectiveCapacity,
        RegistryError,
    >)
        ensures
            !old(self).node_map().contains_key(id@) ==> (r matches Err(e) && registry_error_view(e)
                == RegistryErrorView::NodeNotFound(id@)) && final(self).node_map() == old(self).node_map(),
            old(self).node_map().contains_key(id@) ==> (r matches Ok(previous) && previous == old(
                self,
            ).node_map()[id@].capacity) && final(self).node_map() == old(self).node_map().insert(
                id@,
                NodeEntry {
                    status: status,
                    capacity: capacity,
                    state: state_after_update(old(self).node_map()[id@].state, capacity.composite),
                    last_heartbeat: final(self).node_map()[id@].last_heartbeat,
                    ..old(self).node_map()[id@]
                },
            ),
    {
        proof {
            use_type_invariant(&*self);
        }
        let key = id.to_owned();
        let i = match find_entry(&self.nodes, &key) {
            Some(i) => i,
            None => {
                return Err(not_found(id));
            },
        };
        proof {
            lemma_as_map_index(self.nodes@, i as int);
        }
        let mut nodes: Vec<NodeEntry> = Vec::new();
        std::mem::swap(&mut nodes, &mut self.nodes);
        let ghost before = nodes@;
        let mut entry = nodes.remove(i);
        let previous = entry.capacity;
        entry.status = status;
        entry.last_heartbeat = clock::now();
        entry.capacity = capacity;
        if entry.state == NodeState::Active && binary32::lt(capacity.composite, DEGRADE_BELOW) {
            entry.state = NodeState::Degraded;
        } else if entry.state == NodeState::Degraded && binary32::le(RECOVER_FROM, capacity.composite) {
            entry.state = NodeState::Active;
        }
        let ghost e = entry;
        nodes.insert(i, entry);
        proof {
            assert(nodes@ =~= before.update(i as int, e));
            lemma_as_map_update(before, i as int, e);
            lemma_as_map_index(nodes@, i as int);
        }
        self.nodes = nodes;
        Ok(previous)
    }

    /// Records a heartbeat from a node (nothing happens for an unknown id).
    pub fn heartbeat(&mut self, id: &str)
        ensures
            final(self).node_map().dom() == old(self).node_map().dom(),
            forall|k: Seq<char>|
                #[trigger] final(self).node_map().contains_key(k) && k != id@ ==> final(self).node_map()[k]
                    == old(self).node_map()[k],
            old(self).node_map().contains_key(id@) ==> same_but_heartbeat(
                old(self).node_map()[id@],
                final(self).node_map()[id@],
            ),
    {
        proof {
            use_type_invariant(&*self);
        }
        let key = id.to_owned();
        let i = match find_entry(&self.nodes, &key) {
            Some(i) => i,
            None => {
                return ;
            },
        };
        proof {
            lemma_as_map_index(self.nodes@, i as int);
        }
        let mut nodes: Vec<NodeEntry> = Vec::new();
        std::mem::swap(&mut nodes, &mut self.nodes);
        let ghost before = nodes@;
        let mut entry = nodes.remove(i);
        entry.last_heartbeat = clock::now();
        let ghost e = entry;
        nodes.insert(i, entry);
        proof {
            assert(nodes@ =~= before.update(i as int, e));
            lemma_as_map_update(before, i as int, e);
        }
        self.nodes = nodes;
    }

    /// Removes a node and returns its entry, if it was registered.
    pub fn remove(&mut self, id: &str) -> (r: Option<NodeEntry>)
        ensures
            final(self).node_map() == old(self).node_map().remove(id@),
            old(self).node_map().contains_key(id@) ==> r == Some(old(self).node_map()[id@]),
            !old(self).node_map().contains_key(id@) ==> r is None,
    {
        proof {
            use_type_invariant(&*self);
        }
        let key = id.to_owned();
        let i = match find_entry(&self.nodes, &key) {
            Some(i) => i,
            None => {
                proof {
                    assert(old(self).node_map().remove(id@) =~= old(self).node_map());
                }
                return None;
            },
        };
        proof {
            lemma_as_map_index(self.nodes@, i as int);
        }
        let mut nodes: Vec<NodeEntry> = Vec::new();
        std::mem::swap(&mut nodes, &mut self.nodes);
        let ghost before = nodes@;
        let entry = nodes.remove(i);
        proof {
            lemma_as_map_remove(before, i as int);
        }
        self.nodes = nodes;
        Some(entry)
    }

    /// The entry of a node, if it is registered.
    pub fn get(&self, id: &str) -> (r: Option<&NodeEntry>)
        ensures
            self.node_map().contains_key(id@) ==> (r matches Some(e) && *e == self.node_map()[id@]),
            !self.node_map().contains_key(id@) ==> r is None,
    {
        proof {
            use_type_invariant(self);
        }
        let key = id.to_owned();
        match find_entry(&self.nodes, &key) {
            Some(i) => {
                proof {
                    lemma_as_map_index(self.nodes@, i as int);
                }
                Some(&self.nodes[i])
            },
            None => None,
        }
    }

    /// The number of registered nodes, in every state.
    pub fn len(&self) -> (r: usize)
        ensures
            r == self.node_map().dom().len(),
            self.node_map().dom().finite(),
    {
        proof {
            use_type_invariant(self);
            lemma_as_map_len(self.nodes@);
        }
        self.nodes.len()
    }

    /// Whether no node is registered.
    pub fn is_empty(&self) -> (r: bool)
        ensures
            r == (self.node_map().dom().len() == 0),
    {
        proof {
            use_type_invariant(self);
            lemma_as_map_len(self.nodes@);
        }
        self.nodes.len() == 0
    }

    /// Sets the layers assigned to a node; a `Ready` node becomes `Active`.
    /// Refused for an unknown id.
    pub fn assign_layers(&mut self, id: &str, layers: Vec<u32>) -> (r: Result<(), RegistryError>)
        ensures
            !old(self).node_map().contains_key(id@) ==> (r matches Err(e) && registry_error_view(e)
                == RegistryErrorView::NodeNotFound(id@)) && final(self).node_map() == old(self).node_map(),
            old(self).node_map().contains_key(id@) ==> r is Ok && final(self).node_map() == old(
                self,
            ).node_map().insert(
                id@,
                NodeEntry {
                    assigned_layers: final(self).node_map()[id@].assigned_layers,
                    state: state_after_assignment(old(self).node_map()[id@].state),
                    ..old(self).node_map()[id@]
                },
            ) && final(self).node_map()[id@].assigned_layers@ == layers@,
    {
        proof {
            use_type_invariant(&*self);
        }
        let key = id.to_owned();
        let i = match find_entry(&self.nodes, &key) {
            Some(i) => i,
            None => {
                return Err(not_found(id));
            },
        };
        proof {
            lemma_as_map_index(self.nodes@, i as int);
        }
        let mut nodes: Vec<NodeEntry> = Vec::new();
        std::mem::swap(&mut nodes, &mut self.nodes);
        let ghost before = nodes@;
        let mut entry = nodes.remove(i);
        entry.assigned_layers = layers;
        if entry.state == NodeState::Ready {
            entry.state = NodeState::Active;
        }
        let ghost e = entry;
        nodes.insert(i, entry);
        proof {
            assert(nodes@ =~= before.update(i as int, e));
            lemma_as_map_update(before, i as int, e);
            lemma_as_map_index(nodes@, i as int);
        }
        self.nodes = nodes;
        Ok(())
    }
}

/// Byte-wise lexicographic `a <= b` from position `i` on (the order of
/// `String`'s comparison).
pub open spec fn bytes_le_from(a: Seq<u8>, b: Seq<u8>, i: int) -> bool
    decreases a.len() - i,
{
    if i < 0 || i >= a.len() {
        true
    } else if i >= b.len() {
        false
    } else if a[i] != b[i] {
        a[i] < b[i]
    } else {
        bytes_le_from(a, b, i + 1)
    }
}

/// Byte-wise lexicographic `a <= b`.
pub open spec fn bytes_le(a: Seq<u8>, b: Seq<u8>) -> bool {
    bytes_le_from(a, b, 0)
}

proof fn lemma_bytes_le_total(a: Seq<u8>, b: Seq<u8>, i: int)
    requires
        0 <= i,
    ensures
        bytes_le_from(a, b, i) || bytes_le_from(b, a, i),
    decreases a.len() - i,
{
    if i < a.len() && i < b.len() && a[i] == b[i] {
        lemma_bytes_le_total(a, b, i + 1);
    }
}

proof fn lemma_bytes_le_transitive(a: Seq<u8>, b: Seq<u8>, c: Seq<u8>, i: int)
    requires
        0 <= i,
        bytes_le_from(a, b, i),
        bytes_le_from(b, c, i),
    ensures
        bytes_le_from(a, c, i),
    decreases a.len() - i,
{
    if i < a.len() && i < b.len() && i < c.len() && a[i] == b[i] && b[i] == c[i] {
        lemma_bytes_le_transitive(a, b, c, i + 1);
    }
}

/// Byte-wise lexicographic comparison of two byte strings.
fn bytes_le_exec(a: &[u8], b: &[u8]) -> (r: bool)
    ensures
        r == bytes_le(a@, b@),
{
    let n = a.len();
    let m = b.len();
    let mut i: usize = 0;
    while i < n && i < m
        invariant
            n == a@.len(),
            m == b@.len(),
            0 <= i <= n,
            i <= m,
            bytes_le_from(a@, b@, 0) == bytes_le_from(a@, b@, i as int),
        decreases n - i,
    {
        if a[i] != b[i] {
            return a[i] < b[i];
        }
        proof {
            lemma_bytes_le_step(a@, b@, 0, i as int);
        }
        i = i + 1;
    }
    n <= m
}

proof fn lemma_bytes_le_step(a: Seq<u8>, b: Seq<u8>, k: int, i: int)
    requires
        0 <= k,
        0 <= i < a.len(),
        i < b.len(),
        a[i] == b[i],
    ensures
        bytes_le_from(a, b, i) == bytes_le_from(a, b, i + 1),
{
}

/// The order of `sorted_by_capacity`: higher composite score first (by
/// binary32 rank), then ids in ascending byte order.
pub open spec fn capacity_before(a: NodeEntry, b: NodeEntry) -> bool {
    ||| binary32::rank(a.capacity.composite) > binary32::rank(b.capacity.composite)
    ||| (binary32::rank(a.capacity.composite) == binary32::rank(b.capacity.composite) && bytes_le(
        encode_utf8(a.id@),
        encode_utf8(b.id@),
    ))
}

proof fn lemma_before_total(a: NodeEntry, b: NodeEntry)
    ensures
        capacity_before(a, b) || capacity_before(b, a),
{
    lemma_bytes_le_total(encode_utf8(a.id@), encode_utf8(b.id@), 0);
}

proof fn lemma_before_transitive(a: NodeEntry, b: NodeEntry, c: NodeEntry)
    requires
        capacity_before(a, b),
        capacity_before(b, c),
    ensures
        capacity_before(a, c),
{
    if binary32::rank(a.capacity.composite) == binary32::rank(b.capacity.composite) && binary32::rank(
        b.capacity.composite,
    ) == binary32::rank(c.capacity.composite) {
        lemma_bytes_le_transitive(encode_utf8(a.id@), encode_utf8(b.id@), encode_utf8(c.id@), 0);
    }
}

/// Whether `a` goes before `b` in the capacity order.
fn capacity_before_exec(a: &NodeEntry, b: &NodeEntry) -> (r: bool)
    ensures
        r == capacity_before(*a, *b),
{
    let ra = binary32::rank_of(a.capacity.composite);
    let rb = binary32::rank_of(b.capacity.composite);
    if ra > rb {
        true
    } else if ra < rb {
        false
    } else {
        bytes_le_exec(a.id.as_str().as_bytes(), b.id.as_str().as_bytes())
    }
}

/// Every element comes before every later one.
pub open spec fn sorted_by_capacity_order(s: Seq<NodeEntry>) -> bool {
    forall|i: int, j: int| 0 <= i < j < s.len() ==> capacity_before(#[trigger] s[i], #[trigger] s[j])
}

/// The entries a reference list points to.
pub open spec fn deref_all(s: Seq<&NodeEntry>) -> Seq<NodeEntry> {
    s.map_values(|e: &NodeEntry| *e)
}

/// `s` lists, once each, exactly the registered entries whose state
/// satisfies `keep`.
pub open spec fn enumerates(m: Map<Seq<char>, NodeEntry>, s: Seq<NodeEntry>, keep: spec_fn(NodeState) -> bool) -> bool {
    &&& forall|i: int|
        #![trigger s[i]]
        0 <= i < s.len() ==> m.contains_key(s[i].id@) && m[s[i].id@] == s[i] && keep(s[i].state)
    &&& forall|k: Seq<char>|
        #![trigger m[k]]
        m.contains_key(k) && keep(m[k].state) ==> exists|i: int| 0 <= i < s.len() && s[i].id@ == k
    &&& forall|i: int, j: int| 0 <= i < s.len() && 0 <= j < s.len() && i != j ==> #[trigger] s[i].id@ != #[trigger] s[j].id@
}

/// The states in which `active_nodes` lists a node.
pub open spec fn active_filter() -> spec_fn(NodeState) -> bool {
    |s: NodeState| accepts_tasks(s)
}

/// The states in which `alive_nodes` lists a node.
pub open spec fn alive_filter() -> spec_fn(NodeState) -> bool {
    |s: NodeState| alive(s)
}

/// Every state: `sorted_by_capacity` lists every node.
pub open spec fn every_filter() -> spec_fn(NodeState) -> bool {
    |s: NodeState| true
}

/// Which nodes a listing keeps.
enum Selection {
    Accepting,
    Alive,
    Every,
}

spec fn selection_filter(which: Selection) -> spec_fn(NodeState) -> bool {
    match which {
        Selection::Accepting => active_filter(),
        Selection::Alive => alive_filter(),
        Selection::Every => every_filter(),
    }
}

impl NodeRegistry {
    /// The entries whose state the selection keeps, in registration order.
    fn select(&self, which: Selection) -> (r: Vec<&NodeEntry>)
        ensures
            enumerates(self.node_map(), deref_all(r@), selection_filter(which)),
            deref_all(r@).no_duplicates(),
    {
        proof {
            use_type_invariant(self);
        }
        let ghost keep = selection_filter(which);
        let ghost nodes = self.nodes@;
        let mut out: Vec<&NodeEntry> = Vec::new();
        let ghost mut src: Seq<int> = Seq::empty();
        let n = self.nodes.len();
        for i in 0..n
            invariant
                n == nodes.len(),
                nodes == self.nodes@,
                unique_ids(nodes),
                keep == selection_filter(which),
                src.len() == out@.len(),
                forall|a: int| 0 <= a < src.len() ==> 0 <= #[trigger] src[a] < i,
                forall|a: int, b: int| 0 <= a < b < src.len() ==> #[trigger] src[a] < #[trigger] src[b],
                forall|a: int| 0 <= a < src.len() ==> *out@[a] == nodes[#[trigger] src[a]] && keep(nodes[src[a]].state),
                forall|j: int| 0 <= j < i && keep(#[trigger] nodes[j].state) ==> exists|a: int| 0 <= a < src.len() && src[a] == j,
        {
            let entry = &self.nodes[i];
            let take = match which {
                Selection::Accepting => entry.state.can_accept_tasks(),
                Selection::Alive => entry.state.is_alive(),
                Selection::Every => true,
            };
            let ghost prev = src;
            if take {
                out.push(entry);
                proof {
                    src = src.push(i as int);
                }
            }
            proof {
                assert forall|j: int| 0 <= j < i + 1 && keep(#[trigger] nodes[j].state) implies exists|a: int| 0 <= a < src.len() && src[a] == j by {
                    if j == i {
                        assert(src[src.len() - 1] == j);
                    } else {
                        let a = choose|a: int| 0 <= a < prev.len() && prev[a] == j;
                        assert(src[a] == j);
                    }
                }
            }
        }
        let ghost d = deref_all(out@);
        proof {
            assert forall|a: int| #![trigger d[a]] 0 <= a < d.len() implies self.node_map().contains_key(d[a].id@)
                && self.node_map()[d[a].id@] == d[a] && keep(d[a].state) by {
                lemma_as_map_index(nodes, src[a]);
            }
            assert forall|k: Seq<char>| #![trigger self.node_map()[k]] self.node_map().contains_key(k) && keep(
                self.node_map()[k].state,
            ) implies exists|a: int| 0 <= a < d.len() && d[a].id@ == k by {
                let j = choose|j: int| 0 <= j < nodes.len() && #[trigger] nodes[j].id@ == k;
                lemma_as_map_index(nodes, j);
                let a = choose|a: int| 0 <= a < src.len() && src[a] == j;
                assert(d[a].id@ == k);
            }
            assert forall|a: int, b: int| 0 <= a < d.len() && 0 <= b < d.len() && a != b implies #[trigger] d[a].id@
                != #[trigger] d[b].id@ by {
                if a < b {
                    assert(src[a] < src[b]);
                } else {
                    assert(src[b] < src[a]);
                }
                assert(nodes[src[a]].id@ != nodes[src[b]].id@);
            }
            assert forall|a: int, b: int| 0 <= a < d.len() && 0 <= b < d.len() && a != b implies d[a] != d[b] by {
                assert(d[a].id@ != d[b].id@);
            }
        }
        out
    }

    /// The nodes that can take tasks (`Ready` or `Active`), each once.
    pub fn active_nodes(&self) -> (r: Vec<&NodeEntry>)
        ensures
            enumerates(self.node_map(), deref_all(r@), active_filter()),
    {
        self.select(Selection::Accepting)
    }

    /// The nodes still present in the swarm (not `Left`), each once.
    pub fn alive_nodes(&self) -> (r: Vec<&NodeEntry>)
        ensures
            enumerates(self.node_map(), deref_all(r@), alive_filter()),
    {
        self.select(Selection::Alive)
    }
}

impl NodeRegistry {
    /// All nodes, ordered by composite capacity score, highest first, ties
    /// broken by id; the order in which layers are distributed.
    pub fn sorted_by_capacity(&self) -> (r: Vec<&NodeEntry>)
        ensures
            enumerates(self.node_map(), deref_all(r@), every_filter()),
            sorted_by_capacity_order(deref_all(r@)),
    {
        let active = self.select(Selection::Every);
        let ghost a = deref_all(active@);
        let mut sorted: Vec<&NodeEntry> = Vec::new();
        let n = active.len();
        proof {
            assert(deref_all(sorted@).to_multiset() =~= a.take(0).to_multiset()) by {
                assert(deref_all(sorted@) =~= a.take(0));
            }
        }
        for i in 0..n
            invariant
                n == a.len(),
                a == deref_all(active@),
                deref_all(sorted@).to_multiset() == a.take(i as int).to_multiset(),
                sorted_by_capacity_order(deref_all(sorted@)),
        {
            let x = active[i];
            let mut p: usize = 0;
            while p < sorted.len() && capacity_before_exec(sorted[p], x)
                invariant
                    p <= sorted@.len(),
                    forall|q: int| 0 <= q < p ==> capacity_before(#[trigger] deref_all(sorted@)[q], *x),
                decreases sorted@.len() - p,
            {
                p = p + 1;
            }
            let ghost d = deref_all(sorted@);
            proof {
                if p < sorted@.len() {
                    assert(!capacity_before(d[p as int], *x));
                }
            }
            sorted.insert(p, x);
            proof {
                let d2 = deref_all(sorted@);
                assert(d2 =~= d.insert(p as int, *x));
                assert forall|u: int, v: int| 0 <= u < v < d2.len() implies capacity_before(
                    #[trigger] d2[u],
                    #[trigger] d2[v],
                ) by {
                    if v < p {
                        assert(d2[u] == d[u] && d2[v] == d[v]);
                    } else if v == p {
                        assert(d2[u] == d[u]);
                        assert(capacity_before(d[u], *x));
                    } else if u == p {
                        assert(d2[v] == d[v - 1]);
                        assert(p < d.len());
                        lemma_before_total(d[p as int], *x);
                        if v - 1 > p {
                            assert(capacity_before(d[p as int], d[v - 1]));
                            lemma_before_transitive(*x, d[p as int], d[v - 1]);
                        }
                    } else if u < p {
                        assert(d2[u] == d[u] && d2[v] == d[v - 1]);
                    } else {
                        assert(d2[u] == d[u - 1] && d2[v] == d[v - 1]);
                    }
                }
                vstd::seq_lib::to_multiset_insert(d, p as int, *x);
                assert(a.take(i + 1) =~= a.take(i as int).push(a[i as int]));
                vstd::seq_lib::to_multiset_build(a.take(i as int), a[i as int]);
            }
        }
        proof {
            let d = deref_all(sorted@);
            let m = self.node_map();
            assert(a.take(n as int) =~= a);
            broadcast use vstd::seq_lib::to_multiset_contains;
            assert forall|x: NodeEntry| d.to_multiset().contains(x) implies d.to_multiset().count(x) == 1 by {
                a.lemma_multiset_has_no_duplicates();
            }
            d.lemma_multiset_has_no_duplicates_conv();
            assert forall|u: int| #![trigger d[u]] 0 <= u < d.len() implies m.contains_key(d[u].id@) && m[d[u].id@]
                == d[u] && every_filter()(d[u].state) by {
                assert(d.to_multiset().count(d[u]) > 0);
                assert(a.contains(d[u]));
                let j = choose|j: int| 0 <= j < a.len() && a[j] == d[u];
                assert(a[j] == d[u]);
            }
            assert forall|k: Seq<char>| #![trigger m[k]] m.contains_key(k) && every_filter()(m[k].state) implies exists|u: int|
                0 <= u < d.len() && d[u].id@ == k by {
                assert(every_filter()(m[k].state));
                let j = choose|j: int| 0 <= j < a.len() && a[j].id@ == k;
                assert(a.to_multiset().count(a[j]) > 0);
                assert(d.contains(a[j]));
                let u = choose|u: int| 0 <= u < d.len() && d[u] == a[j];
                assert(d[u].id@ == k);
            }
            assert forall|u: int, v: int| 0 <= u < d.len() && 0 <= v < d.len() && u != v implies #[trigger] d[u].id@
                != #[trigger] d[v].id@ by {
                assert(m[d[u].id@] == d[u]);
                assert(m[d[v].id@] == d[v]);
            }
        }
        sorted
    }
}

/// A unit result seen through the view of its error.
pub open spec fn unit_result_view(r: Result<(), RegistryError>) -> Result<(), RegistryErrorView> {
    match r {
        Ok(()) => Ok(()),
        Err(e) => Err(registry_error_view(e)),
    }
}

/// Marking a node ready: refused for an unknown id, refused (leaving the node
/// as it is) unless the node is `Joining`; otherwise the node becomes `Ready`
/// with the given status and capacity.
pub open spec fn ready_step(
    m: Map<Seq<char>, NodeEntry>,
    id: Seq<char>,
    status: NodeStatus,
    capacity: EffectiveCapacity,
) -> (Result<(), RegistryErrorView>, Map<Seq<char>, NodeEntry>) {
    if !m.contains_key(id) {
        (Err(RegistryErrorView::NodeNotFound(id)), m)
    } else if !valid_transition(m[id].state, NodeState::Ready) {
        (Err(RegistryErrorView::InvalidTransition(TransitionError { from: m[id].state, to: NodeState::Ready })), m)
    } else {
        (Ok(()), m.insert(id, NodeEntry { state: NodeState::Ready, status, capacity, ..m[id] }))
    }
}

/// Every state the registry moves a node to is a lifecycle edge from its
/// previous state (or the same state): status updates, layer assignment and
/// marking ready never take a node along a move the lifecycle forbids.
pub proof fn lemma_registry_moves_follow_lifecycle(
    m: Map<Seq<char>, NodeEntry>,
    id: Seq<char>,
    state: NodeState,
    composite: u32,
    status: NodeStatus,
    capacity: EffectiveCapacity,
)
    ensures
        state_after_update(state, composite) == state || valid_transition(state, state_after_update(state, composite)),
        state_after_assignment(state) == state || valid_transition(state, state_after_assignment(state)),
        ready_step(m, id, status, capacity).0 is Ok ==> m.contains_key(id) && valid_transition(
            m[id].state,
            ready_step(m, id, status, capacity).1[id].state,
        ),
{
}

/// Only a `Joining` node can be marked ready; any other is refused and left
/// as it is.
pub proof fn lemma_ready_only_from_joining(
    m: Map<Seq<char>, NodeEntry>,
    id: Seq<char>,
    status: NodeStatus,
    capacity: EffectiveCapacity,
)
    requires
        m.contains_key(id),
        m[id].state != NodeState::Joining,
    ensures
        ready_step(m, id, status, capacity) == (
            Err::<(), RegistryErrorView>(
                RegistryErrorView::InvalidTransition(TransitionError { from: m[id].state, to: NodeState::Ready }),
            ),
            m,
        ),
{
}

/// Degradation has hysteresis: a score low enough to degrade an active node
/// never lets a degraded node recover, and a score high enough to recover a
/// degraded node never degrades an active one.
pub proof fn lemma_degradation_hysteresis(composite: u32)
    ensures
        state_after_update(NodeState::Active, composite) == NodeState::Degraded ==> state_after_update(
            NodeState::Degraded,
            composite,
        ) == NodeState::Degraded,
        state_after_update(NodeState::Degraded, composite) == NodeState::Active ==> state_after_update(
            NodeState::Active,
            composite,
        ) == NodeState::Active,
{
}

/// Status updates touch only active and degraded nodes' states.
pub proof fn lemma_update_keeps_other_states(state: NodeState, composite: u32)
    requires
        state != NodeState::Active,
        state != NodeState::Degraded,
    ensures
        state_after_update(state, composite) == state,
{
}

/// Every node that can take tasks is alive: the active list is contained in
/// the alive list.
pub proof fn lemma_active_nodes_are_alive(m: Map<Seq<char>, NodeEntry>, active: Seq<NodeEntry>, alive_list: Seq<NodeEntry>)
    requires
        enumerates(m, active, active_filter()),
        enumerates(m, alive_list, alive_filter()),
    ensures
        forall|i: int| 0 <= i < active.len() ==> alive_list.contains(#[trigger] active[i]),
{
    assert forall|i: int| 0 <= i < active.len() implies alive_list.contains(#[trigger] active[i]) by {
        let e = active[i];
        assert(m.contains_key(e.id@) && m[e.id@] == e && accepts_tasks(e.state));
        assert(alive_filter()(m[e.id@].state));
        let j = choose|j: int| 0 <= j < alive_list.len() && alive_list[j].id@ == e.id@;
        assert(m[alive_list[j].id@] == alive_list[j]);
        assert(alive_list[j] == e);
    }
}

/// The first node of the capacity order has the highest score.
pub proof fn lemma_sorted_first_is_strongest(s: Seq<NodeEntry>, i: int)
    requires
        sorted_by_capacity_order(s),
        0 < i < s.len(),
    ensures
        binary32::rank(s[0].capacity.composite) >= binary32::rank(s[i].capacity.composite),
{
    assert(capacity_before(s[0], s[i]));
}

/// Removing a node that was just registered under a new id leaves the
/// registry as it was before the registration.
pub proof fn lemma_remove_undoes_register(m: Map<Seq<char>, NodeEntry>, id: Seq<char>, entry: NodeEntry)
    requires
        !m.contains_key(id),
    ensures
        m.insert(id, entry).remove(id) == m,
{
    assert(m.insert(id, entry).remove(id) =~= m);
}


/// Assigning layers moves a node only from `Ready` to `Active`: every other
/// state, `Degraded` included, is kept, so a degraded node recovers only
/// through its score.
pub proof fn lemma_assignment_only_starts_ready_nodes(s: NodeState)
    ensures
        s != NodeState::Ready ==> state_after_assignment(s) == s,
        state_after_assignment(NodeState::Ready) == NodeState::Active,
        state_after_assignment(NodeState::Degraded) == NodeState::Degraded,
{
}

/// In the tie-break order, a string comes before every string it is a
/// prefix of (as `String`'s order puts "node1" before "node10").
pub proof fn lemma_prefix_sorts_first(a: Seq<u8>, s: Seq<u8>)
    ensures
        bytes_le(a, a + s),
        s.len() > 0 ==> !bytes_le(a + s, a),
{
    lemma_prefix_from(a, s, 0);
    if s.len() > 0 {
        lemma_longer_after_from(a, s, 0);
    }
}

proof fn lemma_prefix_from(a: Seq<u8>, s: Seq<u8>, i: int)
    requires
        0 <= i,
    ensures
        bytes_le_from(a, a + s, i),
    decreases a.len() - i,
{
    if i < a.len() {
        assert((a + s)[i] == a[i]);
        lemma_prefix_from(a, s, i + 1);
    }
}

proof fn lemma_longer_after_from(a: Seq<u8>, s: Seq<u8>, i: int)
    requires
        0 <= i <= a.len(),
        s.len() > 0,
    ensures
        !bytes_le_from(a + s, a, i),
    decreases a.len() - i,
{
    if i < a.len() {
        assert((a + s)[i] == a[i]);
        lemma_longer_after_from(a, s, i + 1);
    }
}

/// The tie-break order is lexicographic: at the first position where two
/// strings differ, the smaller byte comes first.
pub proof fn lemma_first_difference_decides(a: Seq<u8>, b: Seq<u8>, k: int)
    requires
        0 <= k < a.len(),
        k < b.len(),
        a[k] != b[k],
        forall|j: int| 0 <= j < k ==> a[j] == b[j],
    ensures
        bytes_le(a, b) == (a[k] < b[k]),
        bytes_le(b, a) == (b[k] < a[k]),
{
    lemma_equal_prefix_from(a, b, 0, k);
}

proof fn lemma_equal_prefix_from(a: Seq<u8>, b: Seq<u8>, i: int, k: int)
    requires
        0 <= i <= k < a.len(),
        k < b.len(),
        a[k] != b[k],
        forall|j: int| 0 <= j < k ==> a[j] == b[j],
    ensures
        bytes_le_from(a, b, i) == (a[k] < b[k]),
        bytes_le_from(b, a, i) == (b[k] < a[k]),
    decreases k - i,
{
    if i < k {
        lemma_equal_prefix_from(a, b, i + 1, k);
    }
}

/// The tie-break order relates two different strings one way only.
pub proof fn lemma_tie_break_antisymmetric(a: Seq<u8>, b: Seq<u8>)
    requires
        bytes_le(a, b),
        bytes_le(b, a),
    ensures
        a == b,
{
    lemma_antisymmetric_from(a, b, 0);
    assert(a =~= b);
}

proof fn lemma_antisymmetric_from(a: Seq<u8>, b: Seq<u8>, i: int)
    requires
        0 <= i,
        i <= a.len(),
        i <= b.len(),
        forall|j: int| 0 <= j < i ==> a[j] == b[j],
        bytes_le_from(a, b, i),
        bytes_le_from(b, a, i),
    ensures
        a.len() == b.len(),
        forall|j: int| 0 <= j < a.len() ==> a[j] == b[j],
    decreases a.len() - i,
{
    if i < a.len() && i < b.len() {
        lemma_antisymmetric_from(a, b, i + 1);
    }
}

/// Nodes of equal score are listed in id order: in the capacity order,
/// of two nodes with the same composite score, the earlier one's id is not
/// after the later one's.
pub proof fn lemma_ties_listed_by_id(s: Seq<NodeEntry>, i: int, j: int)
    requires
        sorted_by_capacity_order(s),
        0 <= i < j < s.len(),
        s[i].capacity.composite == s[j].capacity.composite,
    ensures
        bytes_le(encode_utf8(s[i].id@), encode_utf8(s[j].id@)),
{
    assert(capacity_before(s[i], s[j]));
}

} // verus!

