use neural_swarm_ai::remote::{
    parse_content_length, HttpRangeReader, ReadPlan, SeekError, SeekTarget, SMALL_READAHEAD,
};

#[test]
fn small_reads_use_the_window_large_reads_are_exact() {
    let r = HttpRangeReader::from_length("http://x/model.gguf".to_string(), 10_000_000);
    assert_eq!(r.plan_fetch(0, 16), Some((0, SMALL_READAHEAD - 1)));
    assert_eq!(r.plan_fetch(1000, 1_000_000), Some((1000, 1000 + 1_000_000 - 1)));
    // near the end the window stops at the end
    assert_eq!(r.plan_fetch(9_999_990, 4), Some((9_999_990, 9_999_999)));
    // nothing past the end
    assert_eq!(r.plan_fetch(10_000_000, 4), None);
}

#[test]
fn read_cycle() {
    let mut r = HttpRangeReader::from_length("u".to_string(), 10);
    let mut out = [0u8; 4];
    match r.read_plan(out.len()) {
        ReadPlan::Fetch { start, want } => {
            assert_eq!((start, want), (0, 4));
            assert_eq!(r.plan_fetch(start, want), Some((0, 9)));
        }
        _ => panic!("expected a fetch"),
    }
    r.store_fetched(0, (0u8..10).collect());
    assert_eq!(r.fetched_bytes(), 10);
    assert!(matches!(r.read_plan(out.len()), ReadPlan::Buffered));
    assert_eq!(r.copy_buffered(&mut out), 4);
    assert_eq!(out, [0, 1, 2, 3]);
    let mut big = [0u8; 16];
    assert_eq!(r.copy_buffered(&mut big), 6);
    assert_eq!(&big[..6], &[4, 5, 6, 7, 8, 9]);
    assert_eq!(big[6], 0);
    assert!(matches!(r.read_plan(4), ReadPlan::AtEnd));
}

#[test]
fn prefetch_empty_range_clears_buffer() {
    let mut r = HttpRangeReader::from_length("u".to_string(), 100);
    r.store_fetched(0, vec![1, 2, 3]);
    assert_eq!(r.prefetch(100, 10), None);
    // the buffer is now empty at 100: position 0 is no longer buffered
    assert!(matches!(r.read_plan(1), ReadPlan::Fetch { start: 0, want: 1 }));
    assert_eq!(r.prefetch(10, 50), Some((10, 99)));
}

#[test]
fn seek_rules() {
    let mut r = HttpRangeReader::from_length("u".to_string(), 100);
    assert_eq!(r.seek(SeekTarget::Start(40)), Ok(40));
    assert_eq!(r.seek(SeekTarget::Current(-10)), Ok(30));
    assert_eq!(r.seek(SeekTarget::End(-1)), Ok(99));
    assert_eq!(r.seek(SeekTarget::Current(-200)), Err(SeekError::BeforeStart));
    // a refused seek leaves the position alone
    assert_eq!(r.seek(SeekTarget::Current(0)), Ok(99));
    // beyond the end is allowed; reads there return nothing
    assert_eq!(r.seek(SeekTarget::End(5)), Ok(105));
    assert!(matches!(r.read_plan(1), ReadPlan::AtEnd));
    // offsets past the signed maximum wrap negative and are refused
    assert_eq!(r.seek(SeekTarget::Start(u64::MAX)), Err(SeekError::BeforeStart));
}

#[test]
fn content_length_parsing_matches_std() {
    for text in [
        "0",
        "12345",
        "+77",
        "",
        "+",
        "-1",
        " 12",
        "12 ",
        "1a",
        "18446744073709551615",
        "18446744073709551616",
        "99999999999999999999999",
        "007",
    ] {
        assert_eq!(parse_content_length(text), text.parse::<u64>().ok(), "{text:?}");
    }
}
