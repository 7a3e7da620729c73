use chaindata::stage::{BlockRange, ExecInput, ExecOutput, StageCheckpoint, UnwindInput};

#[test]
fn next_range_is_capped_by_threshold() {
    let input = ExecInput { target: Some(1100), checkpoint: Some(StageCheckpoint::new(1000)) };
    assert!(!input.target_reached());
    assert_eq!(input.next_block(), 1001);
    assert_eq!(input.next_block_range_with_threshold(50), (BlockRange { start: 1001, end: 1050 }, false));
    assert_eq!(input.next_block_range_with_threshold(100), (BlockRange { start: 1001, end: 1100 }, true));
    assert_eq!(input.next_block_range_with_threshold(500), (BlockRange { start: 1001, end: 1100 }, true));
}

#[test]
fn next_range_saturates() {
    let input = ExecInput { target: Some(u64::MAX), checkpoint: Some(StageCheckpoint::new(10)) };
    assert_eq!(
        input.next_block_range_with_threshold(u64::MAX),
        (BlockRange { start: 11, end: u64::MAX }, true)
    );
}

#[test]
fn missing_checkpoint_and_target_count_as_zero() {
    let input = ExecInput { target: None, checkpoint: None };
    assert_eq!(input.checkpoint(), StageCheckpoint::new(0));
    assert_eq!(input.target(), 0);
    assert!(input.target_reached());
    assert_eq!(ExecOutput::done(input.checkpoint()), ExecOutput { checkpoint: StageCheckpoint::new(0), done: true });
}

#[test]
fn unwind_range_is_capped_by_threshold() {
    let input = UnwindInput { checkpoint: StageCheckpoint::new(100), unwind_to: 10, bad_block: None };
    assert_eq!(input.unwind_block_range_with_threshold(30), (BlockRange { start: 70, end: 100 }, 69, false));
    assert_eq!(input.unwind_block_range_with_threshold(90), (BlockRange { start: 11, end: 100 }, 10, true));
    assert_eq!(input.unwind_block_range_with_threshold(1000), (BlockRange { start: 11, end: 100 }, 10, true));
}
