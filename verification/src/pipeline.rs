//! Routing of inference sequences through the ordered stages of the swarm.

use crate::protocol::{MessageView, SwarmMessage};
use crate::util::copy_vec;
use vstd::hash_map::StringHashMap;
use vstd::prelude::*;

verus! {

broadcast use vstd::hash_map::group_hash_map_axioms;

/// An active inference sequence, as the coordinator tracks it.
pub struct SequenceState {
    pub sequence_id: u64,
    pub task_id: String,
    pub tokens: Vec<i32>,
    /// Index of the stage currently processing the sequence.
    pub current_node_index: usize,
}

/// The view of a tracked sequence.
pub struct SequenceView {
    pub sequence_id: u64,
    pub task_id: Seq<char>,
    pub tokens: Seq<i32>,
    pub current_node_index: usize,
}

impl View for SequenceState {
    type V = SequenceView;

    open spec fn view(&self) -> SequenceView {
        SequenceView {
            sequence_id: self.sequence_id,
            task_id: self.task_id@,
            tokens: self.tokens@,
            current_node_index: self.current_node_index,
        }
    }
}

/// The outcome of a stage's result.
pub enum PipelineResult {
    /// Forward the message to the node with this id.
    NextStage(String, SwarmMessage),
    /// The sequence is complete: these are its final logits (binary32 bits).
    Finished(Vec<u32>),
}

/// The view of a pipeline outcome.
pub enum PipelineOutcome {
    NextStage(Seq<char>, MessageView),
    Finished(Seq<u32>),
}

impl View for PipelineResult {
    type V = PipelineOutcome;

    open spec fn view(&self) -> PipelineOutcome {
        match self {
            PipelineResult::NextStage(id, msg) => PipelineOutcome::NextStage(id@, msg@),
            PipelineResult::Finished(logits) => PipelineOutcome::Finished(logits@),
        }
    }
}

/// Routes the tokens of each sequence through the stages of the swarm, in
/// order, one stage per result.
pub struct InferencePipeline {
    /// Tracked sequences, by task id.
    active_sequences: StringHashMap<SequenceState>,
    /// Node ids of the stages, in pipeline order.
    pipeline_stages: Vec<String>,
}

/// The task a stage receives: the sealed state to continue from, the layer
/// range to run and the tokens of the sequence.
pub open spec fn stage_task(
    task_id: Seq<char>,
    sequence_id: u64,
    state: Seq<u8>,
    layers: (u32, u32),
    tokens: Seq<i32>,
) -> MessageView {
    MessageView::ProcessTask {
        task_id,
        sequence_id,
        input_state: state,
        start_layer: layers.0,
        end_layer: layers.1,
        tokens,
        route: None,
    }
}

/// A pipeline outcome seen through its view.
pub open spec fn outcome_view(r: Option<PipelineResult>) -> Option<PipelineOutcome> {
    match r {
        Some(x) => Some(x@),
        None => None,
    }
}

/// One routing step on a stage's result: what is answered and what the
/// tracked sequences become. A result for an untracked task, for another
/// sequence of the task, or a message that is no result, is ignored. Otherwise
/// the sequence advances one stage: to the next stage's task while there is
/// one, else it is finished, its logits returned and its tracking dropped.
pub open spec fn result_step(
    seqs: Map<Seq<char>, SequenceView>,
    stages: Seq<Seq<char>>,
    msg: MessageView,
    layers: (u32, u32),
) -> (Option<PipelineOutcome>, Map<Seq<char>, SequenceView>) {
    match msg {
        MessageView::TaskResult { task_id, sequence_id, output_state, logits } => {
            if !seqs.contains_key(task_id) || seqs[task_id].sequence_id != sequence_id {
                (None, seqs)
            } else {
                let cur = seqs[task_id];
                let next = cur.current_node_index + 1;
                if next < stages.len() {
                    (
                        Some(
                            PipelineOutcome::NextStage(
                                stages[next],
                                stage_task(task_id, sequence_id, output_state, layers, cur.tokens),
                            ),
                        ),
                        seqs.insert(
                            task_id,
                            SequenceView {
                                sequence_id: cur.sequence_id,
                                task_id: cur.task_id,
                                tokens: cur.tokens,
                                current_node_index: next as usize,
                            },
                        ),
                    )
                } else {
                    (Some(PipelineOutcome::Finished(logits)), seqs.remove(task_id))
                }
            }
        },
        _ => (None, seqs),
    }
}

/// An optional string seen through its view.
pub open spec fn string_option_view(r: Option<String>) -> Option<Seq<char>> {
    match r {
        Some(x) => Some(x@),
        None => None,
    }
}

/// The stage after the one currently processing `task_id`.
pub open spec fn next_node(
    seqs: Map<Seq<char>, SequenceView>,
    stages: Seq<Seq<char>>,
    task_id: Seq<char>,
) -> Option<Seq<char>> {
    if seqs.contains_key(task_id) && seqs[task_id].current_node_index + 1 < stages.len() {
        Some(stages[seqs[task_id].current_node_index + 1])
    } else {
        None
    }
}

/// The result message a stage sends for a task.
pub open spec fn result_message(
    task_id: Seq<char>,
    sequence_id: u64,
    output_state: Seq<u8>,
    logits: Seq<u32>,
) -> MessageView {
    MessageView::TaskResult { task_id, sequence_id, output_state, logits }
}

/// The tracked sequences after `k` results for a task have been handled.
pub open spec fn after_results(
    seqs: Map<Seq<char>, SequenceView>,
    stages: Seq<Seq<char>>,
    task_id: Seq<char>,
    sequence_id: u64,
    output_state: Seq<u8>,
    logits: Seq<u32>,
    layers: (u32, u32),
    k: nat,
) -> Map<Seq<char>, SequenceView>
    decreases k,
{
    if k == 0 {
        seqs
    } else {
        result_step(
            after_results(seqs, stages, task_id, sequence_id, output_state, logits, layers, (k - 1) as nat),
            stages,
            result_message(task_id, sequence_id, output_state, logits),
            layers,
        ).1
    }
}

impl InferencePipeline {
    /// The tracked sequences, by task id.
    pub closed spec fn sequences(&self) -> Map<Seq<char>, SequenceView> {
        self.active_sequences@.map_values(|s: SequenceState| s@)
    }

    /// The stage ids, in pipeline order.
    pub closed spec fn stages(&self) -> Seq<Seq<char>> {
        self.pipeline_stages@.map_values(|s: String| s@)
    }

    /// Each sequence is filed under its own task id, and its stage index can
    /// still be advanced.
    #[verifier::type_invariant]
    closed spec fn well_formed(&self) -> bool {
        &&& forall|k: Seq<char>|
            #[trigger] self.active_sequences@.contains_key(k) ==> self.active_sequences@[k].task_id@
                == k && self.active_sequences@[k].current_node_index < usize::MAX
        &&& self.pipeline_stages@.len() <= usize::MAX
    }

    /// An empty pipeline: no stages and no sequences.
    pub fn new() -> (r: InferencePipeline)
        ensures
            r.sequences() == Map::<Seq<char>, SequenceView>::empty(),
            r.stages() == Seq::<Seq<char>>::empty(),
    {
        let r = InferencePipeline { active_sequences: StringHashMap::new(), pipeline_stages: Vec::new() };
        assert(r.sequences() =~= Map::<Seq<char>, SequenceView>::empty());
        assert(r.stages() =~= Seq::<Seq<char>>::empty());
        r
    }

    /// Replaces the stages with `sorted_node_ids` (the registry's nodes in
    /// pipeline order). Tracked sequences are kept.
    pub fn update_stages(&mut self, sorted_node_ids: Vec<String>)
        ensures
            final(self).stages() == sorted_node_ids@.map_values(|s: String| s@),
            final(self).sequences() == old(self).sequences(),
            final(self).stages().len() <= usize::MAX,
    {
        proof {
            use_type_invariant(&*self);
        }
        assert(sorted_node_ids@.len() == sorted_node_ids.len());
        self.pipeline_stages = sorted_node_ids;
    }

    /// Starts tracking a sequence at the first stage and returns that stage's
    /// id with the task to send it; `None`, and no change, when there are no
    /// stages. A sequence already tracked under the same task id is replaced.
    pub fn start_sequence(
        &mut self,
        sequence_id: u64,
        task_id: String,
        tokens: Vec<i32>,
        initial_state: Vec<u8>,
        first_node_layers: (u32, u32),
    ) -> (r: Option<(String, SwarmMessage)>)
        ensures
            final(self).stages() == old(self).stages(),
            old(self).stages().len() == 0 ==> r is None && final(self).sequences() == old(self).sequences(),
            old(self).stages().len() > 0 ==> {
                &&& r matches Some((first, task))
                &&& first@ == old(self).stages()[0]
                &&& task@ == stage_task(task_id@, sequence_id, initial_state@, first_node_layers, tokens@)
                &&& final(self).sequences() == old(self).sequences().insert(
                    task_id@,
                    SequenceView { sequence_id, task_id: task_id@, tokens: tokens@, current_node_index: 0 },
                )
            },
    {
        proof {
            use_type_invariant(&*self);
        }
        if self.pipeline_stages.len() == 0 {
            return None;
        }
        let ghost old_map = self.active_sequences@;
        let state = SequenceState {
            sequence_id,
            task_id: task_id.clone(),
            tokens: copy_vec(&tokens),
            current_node_index: 0,
        };
        let ghost sv = state@;
        let mut sequences = StringHashMap::new();
        std::mem::swap(&mut sequences, &mut self.active_sequences);
        sequences.insert(task_id.clone(), state);
        self.active_sequences = sequences;
        proof {
            assert(self.sequences() =~= old(self).sequences().insert(task_id@, sv));
        }
        let first_node_id = self.pipeline_stages[0].clone();
        let task = SwarmMessage::ProcessTask {
            task_id,
            sequence_id,
            input_state: initial_state,
            start_layer: first_node_layers.0,
            end_layer: first_node_layers.1,
            tokens,
            route: None,
        };
        Some((first_node_id, task))
    }

    /// The id of the stage after the one currently processing `task_id`, if
    /// the sequence is tracked and has a next stage.
    pub fn get_next_node_id(&self, task_id: &str) -> (r: Option<String>)
        ensures
            string_option_view(r) == next_node(self.sequences(), self.stages(), task_id@),
    {
        proof {
            use_type_invariant(self);
        }
        match self.active_sequences.get(task_id) {
            Some(state) => {
                assert(self.sequences()[task_id@] == state@);
                let next_index = state.current_node_index + 1;
                if next_index < self.pipeline_stages.len() {
                    Some(self.pipeline_stages[next_index].clone())
                } else {
                    None
                }
            },
            None => None,
        }
    }
}

impl InferencePipeline {
    /// Handles a stage's result: forwards the sequence to its next stage with
    /// the layer range `next_node_layers`, or finishes it (see
    /// [`result_step`]).
    pub fn handle_task_result(&mut self, result: &SwarmMessage, next_node_layers: (u32, u32)) -> (r:
        Option<PipelineResult>)
        ensures
            final(self).stages() == old(self).stages(),
            old(self).stages().len() <= usize::MAX,
            (outcome_view(r), final(self).sequences()) == result_step(
                old(self).sequences(),
                old(self).stages(),
                result@,
                next_node_layers,
            ),
    {
        proof {
            use_type_invariant(&*self);
        }
        match result {
            SwarmMessage::TaskResult { task_id, sequence_id, output_state, logits } => {
                let ghost seqs = self.sequences();
                let (tracked_sequence, index, tokens) = match self.active_sequences.get(
                    task_id.as_str(),
                ) {
                    Some(state) => {
                        assert(seqs[task_id@] == state@);
                        (state.sequence_id, state.current_node_index, copy_vec(&state.tokens))
                    },
                    None => {
                        return None;
                    },
                };
                if tracked_sequence != *sequence_id {
                    return None;
                }
                let next = index + 1;
                let mut sequences = StringHashMap::new();
                std::mem::swap(&mut sequences, &mut self.active_sequences);
                if next < self.pipeline_stages.len() {
                    let updated = SequenceState {
                        sequence_id: *sequence_id,
                        task_id: task_id.clone(),
                        tokens: copy_vec(&tokens),
                        current_node_index: next,
                    };
                    let ghost uv = updated@;
                    sequences.insert(task_id.clone(), updated);
                    self.active_sequences = sequences;
                    proof {
                        assert(self.sequences() =~= seqs.insert(task_id@, uv));
                    }
                    let next_node_id = self.pipeline_stages[next].clone();
                    let next_task = SwarmMessage::ProcessTask {
                        task_id: task_id.clone(),
                        sequence_id: *sequence_id,
                        input_state: copy_vec(output_state),
                        start_layer: next_node_layers.0,
                        end_layer: next_node_layers.1,
                        tokens,
                        route: None,
                    };
                    Some(PipelineResult::NextStage(next_node_id, next_task))
                } else {
                    sequences.remove(task_id.as_str());
                    self.active_sequences = sequences;
                    proof {
                        assert(self.sequences() =~= seqs.remove(task_id@));
                    }
                    Some(PipelineResult::Finished(copy_vec(logits)))
                }
            },
            _ => None,
        }
    }
}

/// A result for a task that is not tracked, or that carries another
/// sequence id, is ignored: nothing is answered and nothing changes.
pub proof fn lemma_stale_result_ignored(
    seqs: Map<Seq<char>, SequenceView>,
    stages: Seq<Seq<char>>,
    task_id: Seq<char>,
    sequence_id: u64,
    output_state: Seq<u8>,
    logits: Seq<u32>,
    layers: (u32, u32),
)
    requires
        !seqs.contains_key(task_id) || seqs[task_id].sequence_id != sequence_id,
    ensures
        result_step(seqs, stages, result_message(task_id, sequence_id, output_state, logits), layers)
            == (None::<PipelineOutcome>, seqs),
{
}

/// Right after a sequence starts, its next stage is the second stage.
pub proof fn lemma_next_after_start(
    seqs: Map<Seq<char>, SequenceView>,
    stages: Seq<Seq<char>>,
    task_id: Seq<char>,
    sequence_id: u64,
    tokens: Seq<i32>,
)
    ensures
        next_node(
            seqs.insert(
                task_id,
                SequenceView { sequence_id, task_id, tokens, current_node_index: 0 },
            ),
            stages,
            task_id,
        ) == (if stages.len() > 1 {
            Some(stages[1])
        } else {
            None::<Seq<char>>
        }),
{
}

/// A sequence is routed through the stages in order, one stage per result:
/// a sequence at stage `i` that receives `k` results, with `i + k` short of
/// the last stage, is still tracked, unchanged but for being at stage `i + k`.
pub proof fn lemma_results_advance_one_stage_each(
    seqs: Map<Seq<char>, SequenceView>,
    stages: Seq<Seq<char>>,
    task_id: Seq<char>,
    sequence_id: u64,
    output_state: Seq<u8>,
    logits: Seq<u32>,
    layers: (u32, u32),
    k: nat,
)
    requires
        seqs.contains_key(task_id),
        seqs[task_id].sequence_id == sequence_id,
        seqs[task_id].current_node_index + k < stages.len(),
        stages.len() <= usize::MAX,
    ensures
        ({
            let after = after_results(seqs, stages, task_id, sequence_id, output_state, logits, layers, k);
            &&& after.contains_key(task_id)
            &&& after[task_id].current_node_index == seqs[task_id].current_node_index + k
            &&& after[task_id].sequence_id == sequence_id
            &&& after[task_id].task_id == seqs[task_id].task_id
            &&& after[task_id].tokens == seqs[task_id].tokens
            &&& after.remove(task_id) == seqs.remove(task_id)
        }),
    decreases k,
{
    if k > 0 {
        lemma_results_advance_one_stage_each(
            seqs,
            stages,
            task_id,
            sequence_id,
            output_state,
            logits,
            layers,
            (k - 1) as nat,
        );
        let prev = after_results(seqs, stages, task_id, sequence_id, output_state, logits, layers, (k - 1) as nat);
        let after = after_results(seqs, stages, task_id, sequence_id, output_state, logits, layers, k);
        assert(prev[task_id].current_node_index + 1 < stages.len());
        assert(after.remove(task_id) =~= prev.remove(task_id));
    }
}

/// The result of the last stage finishes the sequence: its logits are the
/// answer and it is no longer tracked; the other sequences are untouched.
pub proof fn lemma_last_stage_finishes(
    seqs: Map<Seq<char>, SequenceView>,
    stages: Seq<Seq<char>>,
    task_id: Seq<char>,
    sequence_id: u64,
    output_state: Seq<u8>,
    logits: Seq<u32>,
    layers: (u32, u32),
)
    requires
        seqs.contains_key(task_id),
        seqs[task_id].sequence_id == sequence_id,
        seqs[task_id].current_node_index + 1 == stages.len(),
    ensures
        result_step(seqs, stages, result_message(task_id, sequence_id, output_state, logits), layers)
            == (Some(PipelineOutcome::Finished(logits)), seqs.remove(task_id)),
{
}

/// Each forwarded task goes to the next stage in order, carries the sealed
/// state the previous stage returned, and keeps the sequence's tokens.
pub proof fn lemma_forward_to_next_stage(
    seqs: Map<Seq<char>, SequenceView>,
    stages: Seq<Seq<char>>,
    task_id: Seq<char>,
    sequence_id: u64,
    output_state: Seq<u8>,
    logits: Seq<u32>,
    layers: (u32, u32),
)
    requires
        seqs.contains_key(task_id),
        seqs[task_id].sequence_id == sequence_id,
        seqs[task_id].current_node_index + 1 < stages.len(),
    ensures
        result_step(seqs, stages, result_message(task_id, sequence_id, output_state, logits), layers).0
            == Some(
            PipelineOutcome::NextStage(
                stages[seqs[task_id].current_node_index + 1],
                stage_task(task_id, sequence_id, output_state, layers, seqs[task_id].tokens),
            ),
        ),
{
}

} // verus!
