//! Which layers of a model a node loads and runs. A node holds a contiguous
//! slice of the model's transformer blocks, plus the token embeddings when
//! its slice starts the model and the final norm and output head when it
//! ends it.

use vstd::prelude::*;

verus! {

/// The slice of a model that a node loads.
#[derive(Debug, Clone, Copy, PartialEq, Eq, Structural)]
pub struct LayerSlice {
    /// First block held.
    pub start: usize,
    /// One past the last block held.
    pub end: usize,
    /// Whether the slice starts the model (the node embeds the tokens).
    pub is_entry: bool,
    /// Whether the slice ends the model (the node produces the logits).
    pub is_exit: bool,
}

/// The start of a requested slice, clamped to the model.
pub open spec fn slice_start(start_layer: int, block_count: int) -> int {
    if start_layer <= block_count {
        start_layer
    } else {
        block_count
    }
}

/// The end of a requested slice, clamped to the model and never before its
/// start.
pub open spec fn slice_end(start_layer: int, end_layer: int, block_count: int) -> int {
    let end = if end_layer <= block_count {
        end_layer
    } else {
        block_count
    };
    let start = slice_start(start_layer, block_count);
    if end >= start {
        end
    } else {
        start
    }
}

impl LayerSlice {
    /// The slice to load for the requested layers `[start_layer, end_layer)`
    /// of a model of `block_count` blocks: the request clamped to the model.
    pub fn plan(start_layer: usize, end_layer: usize, block_count: usize) -> (r: LayerSlice)
        ensures
            r.start == slice_start(start_layer as int, block_count as int),
            r.end == slice_end(start_layer as int, end_layer as int, block_count as int),
            r.is_entry == (r.start == 0),
            r.is_exit == (r.end >= block_count),
    {
        let start = if start_layer <= block_count { start_layer } else { block_count };
        let clamped_end = if end_layer <= block_count { end_layer } else { block_count };
        let end = if clamped_end >= start { clamped_end } else { start };
        LayerSlice { start, end, is_entry: start == 0, is_exit: end >= block_count }
    }
}

/// The absolute layers a stage `[start_layer, end_layer)` runs on a node that
/// holds `held` layers from `offset`: those of the stage that the node holds.
/// The range is empty when the start is not below the end.
pub fn resident_span(start_layer: u32, end_layer: u32, offset: usize, held: usize) -> (r: (usize, usize))
    requires
        offset + held <= usize::MAX,
    ensures
        r.0 == (if start_layer >= offset {
            start_layer as int
        } else {
            offset as int
        }),
        r.1 == (if end_layer <= offset + held {
            end_layer as int
        } else {
            offset + held
        }),
{
    let first: usize = if start_layer as usize >= offset { start_layer as usize } else { offset };
    let limit: usize = offset + held;
    let last: usize = if end_layer as usize <= limit { end_layer as usize } else { limit };
    (first, last)
}

/// Whether a stage ending at `end_layer` is the last of a model of
/// `total_layers` layers (it applies the final norm and the output head).
pub fn is_final_stage(end_layer: u32, total_layers: usize) -> (r: bool)
    ensures
        r == (end_layer >= total_layers),
{
    end_layer as usize >= total_layers
}

/// A loaded slice lies within the model, and a request for the whole model
/// loads all of it with both ends.
pub proof fn lemma_slice_within_model(start_layer: int, end_layer: int, block_count: int)
    requires
        0 <= start_layer,
        0 <= end_layer,
        0 <= block_count,
    ensures
        0 <= slice_start(start_layer, block_count) <= slice_end(start_layer, end_layer, block_count)
            <= block_count,
        start_layer == 0 && end_layer >= block_count ==> slice_start(start_layer, block_count) == 0
            && slice_end(start_layer, end_layer, block_count) == block_count,
{
}

/// Two stages that meet at layer `m` load slices that meet too: the first
/// ends where the second starts, so no layer is loaded twice and none is
/// skipped.
pub proof fn lemma_adjacent_slices_meet(a: int, m: int, c: int, block_count: int)
    requires
        0 <= a <= m <= c,
        0 <= block_count,
    ensures
        slice_end(a, m, block_count) == slice_start(m, block_count),
        slice_start(a, block_count) <= slice_start(m, block_count),
        slice_end(m, c, block_count) >= slice_start(m, block_count),
{
}

/// Every layer that a stage runs is one the node holds and one the stage
/// asked for.
pub proof fn lemma_resident_layers_are_held(start_layer: u32, end_layer: u32, offset: int, held: int, i: int)
    requires
        0 <= offset,
        0 <= held,
        (if start_layer >= offset {
            start_layer as int
        } else {
            offset
        }) <= i < (if end_layer <= offset + held {
            end_layer as int
        } else {
            offset + held
        }),
    ensures
        offset <= i < offset + held,
        start_layer <= i < end_layer,
{
}

} // verus!
