use neural_swarm_ai::layer_slice::{is_final_stage, resident_span, LayerSlice};

#[test]
fn slices_are_clamped_to_the_model() {
    let whole = LayerSlice::plan(0, 32, 32);
    assert_eq!(whole, LayerSlice { start: 0, end: 32, is_entry: true, is_exit: true });

    let middle = LayerSlice::plan(8, 16, 32);
    assert_eq!(middle, LayerSlice { start: 8, end: 16, is_entry: false, is_exit: false });

    let tail = LayerSlice::plan(16, 100, 32);
    assert_eq!(tail, LayerSlice { start: 16, end: 32, is_entry: false, is_exit: true });

    // a start past the model gives an empty slice at the end
    let past = LayerSlice::plan(40, 50, 32);
    assert_eq!(past, LayerSlice { start: 32, end: 32, is_entry: false, is_exit: true });

    // an end before the start gives an empty slice at the start
    let reversed = LayerSlice::plan(10, 4, 32);
    assert_eq!(reversed, LayerSlice { start: 10, end: 10, is_entry: false, is_exit: false });
}

#[test]
fn adjacent_stages_meet() {
    let a = LayerSlice::plan(0, 12, 24);
    let b = LayerSlice::plan(12, 24, 24);
    assert_eq!(a.end, b.start);
    assert!(a.is_entry && !a.is_exit);
    assert!(!b.is_entry && b.is_exit);
}

#[test]
fn resident_span_intersects_stage_and_holdings() {
    // node holds layers 8..16
    assert_eq!(resident_span(8, 16, 8, 8), (8, 16));
    assert_eq!(resident_span(0, 32, 8, 8), (8, 16));
    assert_eq!(resident_span(10, 12, 8, 8), (10, 12));
    // nothing in common: an empty range
    let (a, b) = resident_span(20, 24, 8, 8);
    assert!(a >= b);
    assert!(is_final_stage(32, 32));
    assert!(is_final_stage(40, 32));
    assert!(!is_final_stage(16, 32));
}
