use chaindata::history::{Address, H256};
use chaindata::index_log_history::{IndexLogHistoryStage, StageError};
use chaindata::logs::{Log, LogHistoryProvider, Receipt};
use chaindata::stage::{ExecInput, ExecOutput, StageCheckpoint, StageId, UnwindInput, UnwindOutput};

struct Lcg(u64);

impl Lcg {
    fn next(&mut self) -> u64 {
        self.0 = self.0.wrapping_mul(6364136223846793005).wrapping_add(1442695040888963407);
        self.0 >> 33
    }
}

/// Receipts for blocks `0..=end`; blocks after `start` get zero or one transaction,
/// each receipt with `logs_per_receipt` logs drawn from a small pool of addresses
/// and topics.
fn seed_blocks(start: u64, end: u64, logs_per_receipt: usize, seed: u64) -> Vec<Vec<Receipt>> {
    let mut rng = Lcg(seed);
    let mut blocks = Vec::new();
    for b in 0..=end {
        let mut receipts = Vec::new();
        if b > start {
            let txs = rng.next() % 2;
            for _ in 0..txs {
                let mut logs = Vec::new();
                for _ in 0..logs_per_receipt {
                    let address = Address { high: (rng.next() % 3) as u32, low: (rng.next() % 7) as u128 };
                    let n_topics = rng.next() % 4;
                    let topics = (0..n_topics)
                        .map(|_| H256 { high: 0, low: (rng.next() % 11) as u128 })
                        .collect();
                    logs.push(Log { address, topics });
                }
                receipts.push(Receipt { logs });
            }
        }
        blocks.push(receipts);
    }
    blocks
}

fn count_receipts(blocks: &[Vec<Receipt>]) -> u64 {
    blocks.iter().map(|b| b.len() as u64).sum()
}

fn all_blocks_at_most(provider: &LogHistoryProvider, blocks: &[Vec<Receipt>], c: u64) -> bool {
    for b in 0..blocks.len() as u64 {
        for rc in &blocks[b as usize] {
            for log in &rc.logs {
                if provider.address_history().blocks_of(&log.address).iter().any(|x| *x > c) {
                    return false;
                }
                for t in &log.topics {
                    if provider.topic_history().blocks_of(t).iter().any(|x| *x > c) {
                        return false;
                    }
                }
            }
        }
    }
    true
}

fn every_log_indexed(provider: &LogHistoryProvider, blocks: &[Vec<Receipt>], from: u64, to: u64) -> bool {
    for b in from..=to {
        for rc in &blocks[b as usize] {
            for log in &rc.logs {
                if !provider.address_history().contains(&log.address, b) {
                    return false;
                }
                for t in &log.topics {
                    if !provider.topic_history().contains(t, b) {
                        return false;
                    }
                }
            }
        }
    }
    true
}

fn input(checkpoint: u64, target: u64) -> ExecInput {
    ExecInput { target: Some(target), checkpoint: Some(StageCheckpoint::new(checkpoint)) }
}

#[test]
fn execute_intermediate_commit() {
    let threshold = 50;
    let mut stage = IndexLogHistoryStage::with_commit_threshold(threshold);
    let (stage_progress, target) = (1000, 1100);
    let first_input = input(stage_progress, target);

    let blocks = seed_blocks(stage_progress, target, 3, 7);
    let seed_receipts = count_receipts(&blocks);
    let mut provider = LogHistoryProvider::new(seed_blocks(stage_progress, target, 3, 7));
    let total_receipts: u64 = provider.receipts().iter().map(|b| b.len() as u64).sum();
    assert_eq!(seed_receipts, total_receipts);

    let result = stage.execute(&mut provider, first_input);
    let expected_progress = stage_progress + threshold;
    assert!(matches!(result, Ok(_)));
    assert_eq!(
        result.unwrap(),
        ExecOutput { checkpoint: StageCheckpoint::new(expected_progress), done: false }
    );

    let second_input = input(expected_progress, target);
    let result = stage.execute(&mut provider, second_input);
    assert!(matches!(result, Ok(_)));
    assert_eq!(
        result.as_ref().unwrap(),
        &ExecOutput { checkpoint: StageCheckpoint::new(target), done: true }
    );

    let end = result.unwrap().checkpoint.block_number;
    assert!(every_log_indexed(&provider, &blocks, first_input.next_block(), end), "validation failed");
}

#[test]
fn execute_at_target_is_a_no_op() {
    let mut stage = IndexLogHistoryStage::with_commit_threshold(50);
    let blocks = seed_blocks(1000, 1100, 3, 11);
    let mut provider = LogHistoryProvider::new(seed_blocks(1000, 1100, 3, 11));
    stage.execute(&mut provider, input(1000, 1100)).unwrap();
    stage.execute(&mut provider, input(1050, 1100)).unwrap();
    let before = (provider.address_history().len(), provider.topic_history().len());
    let third = stage.execute(&mut provider, input(1100, 1100)).unwrap();
    assert_eq!(third, ExecOutput { checkpoint: StageCheckpoint::new(1100), done: true });
    assert_eq!((provider.address_history().len(), provider.topic_history().len()), before);
    assert!(every_log_indexed(&provider, &blocks, 1001, 1100));
}

#[test]
fn target_reached_leaves_indices_empty() {
    let mut stage = IndexLogHistoryStage::default();
    let mut provider = LogHistoryProvider::new(seed_blocks(0, 20, 2, 3));
    let out = stage.execute(&mut provider, input(20, 10)).unwrap();
    assert_eq!(out, ExecOutput { checkpoint: StageCheckpoint::new(20), done: true });
    assert_eq!(provider.address_history().len(), 0);
    assert_eq!(provider.topic_history().len(), 0);
}

#[test]
fn index_blocks_bounded_by_checkpoint() {
    let mut stage = IndexLogHistoryStage::with_commit_threshold(7);
    let blocks = seed_blocks(0, 40, 2, 5);
    let mut provider = LogHistoryProvider::new(seed_blocks(0, 40, 2, 5));
    let mut checkpoint = 0;
    loop {
        let out = stage.execute(&mut provider, input(checkpoint, 40)).unwrap();
        checkpoint = out.checkpoint.block_number;
        assert!(all_blocks_at_most(&provider, &blocks, checkpoint));
        if out.done {
            break;
        }
    }
    assert_eq!(checkpoint, 40);
    assert!(every_log_indexed(&provider, &blocks, 1, 40));
    for rc in blocks.iter().flatten() {
        for log in &rc.logs {
            let seen = provider.address_history().blocks_of(&log.address);
            assert!(seen.windows(2).all(|w| w[0] < w[1]));
            for t in &log.topics {
                let seen = provider.topic_history().blocks_of(t);
                assert!(seen.windows(2).all(|w| w[0] < w[1]));
            }
        }
    }
}

#[test]
fn unwind_then_execute_restores_indices() {
    let mut stage = IndexLogHistoryStage::with_commit_threshold(100);
    let blocks = seed_blocks(0, 60, 3, 9);
    let mut provider = LogHistoryProvider::new(seed_blocks(0, 60, 3, 9));
    stage.execute(&mut provider, input(0, 30)).unwrap();
    let base_addresses = provider.address_history().len();
    let base_topics = provider.topic_history().len();

    stage.execute(&mut provider, input(30, 60)).unwrap();
    let full_addresses = provider.address_history().len();
    let full_topics = provider.topic_history().len();
    let snapshot: Vec<(Address, Vec<u64>)> = blocks
        .iter()
        .flat_map(|b| b.iter().flat_map(|rc| rc.logs.iter().map(|l| l.address)))
        .map(|a| (a, provider.address_history().blocks_of(&a)))
        .collect();

    let unwind = UnwindInput {
        checkpoint: StageCheckpoint::new(60),
        unwind_to: 30,
        bad_block: None,
    };
    let out = stage.unwind(&mut provider, unwind).unwrap();
    assert_eq!(out, UnwindOutput { checkpoint: StageCheckpoint::new(30) });
    assert!(all_blocks_at_most(&provider, &blocks, 30));
    assert_eq!(provider.address_history().len(), base_addresses);
    assert_eq!(provider.topic_history().len(), base_topics);

    stage.execute(&mut provider, input(30, 60)).unwrap();
    assert_eq!(provider.address_history().len(), full_addresses);
    assert_eq!(provider.topic_history().len(), full_topics);
    for (a, expected) in snapshot {
        assert_eq!(provider.address_history().blocks_of(&a), expected);
    }
}

#[test]
fn unwind_in_chunks() {
    let mut stage = IndexLogHistoryStage::with_commit_threshold(10);
    let blocks = seed_blocks(0, 50, 2, 21);
    let mut provider = LogHistoryProvider::new(seed_blocks(0, 50, 2, 21));
    stage.execute(&mut provider, input(0, 10)).unwrap();
    let out = stage
        .unwind(&mut provider, UnwindInput { checkpoint: StageCheckpoint::new(10), unwind_to: 0, bad_block: None })
        .unwrap();
    assert_eq!(out.checkpoint.block_number, 0);
    assert_eq!(provider.address_history().len(), 0);
    assert_eq!(provider.topic_history().len(), 0);

    let mut stage = IndexLogHistoryStage::with_commit_threshold(50);
    stage.execute(&mut provider, input(0, 50)).unwrap();
    let mut stage = IndexLogHistoryStage::with_commit_threshold(10);
    let out = stage
        .unwind(&mut provider, UnwindInput { checkpoint: StageCheckpoint::new(50), unwind_to: 5, bad_block: Some(6) })
        .unwrap();
    assert_eq!(out.checkpoint.block_number, 39);
    assert!(all_blocks_at_most(&provider, &blocks, 39));
    assert!(every_log_indexed(&provider, &blocks, 1, 39));
}

#[test]
fn execute_fails_on_missing_receipts() {
    let mut stage = IndexLogHistoryStage::with_commit_threshold(50);
    let mut provider = LogHistoryProvider::new(seed_blocks(0, 30, 2, 4));
    let r = stage.execute(&mut provider, input(10, 100));
    assert_eq!(r, Err(StageError::MissingBlock(60)));
    assert_eq!(provider.address_history().len(), 0);
    assert_eq!(provider.topic_history().len(), 0);
}

#[test]
fn stage_id() {
    assert_eq!(IndexLogHistoryStage::default().id(), StageId::IndexLogHistory);
}

#[test]
fn indexes_address_and_topics_of_one_log() {
    let a = Address { high: 1, low: 2 };
    let t1 = H256 { high: 3, low: 4 };
    let t2 = H256 { high: 5, low: 6 };
    let blocks = vec![
        vec![],
        vec![Receipt { logs: vec![Log { address: a, topics: vec![t1, t2, t1] }] }],
        vec![],
        vec![Receipt { logs: vec![] }, Receipt { logs: vec![Log { address: a, topics: vec![t2] }] }],
    ];
    let mut provider = LogHistoryProvider::new(blocks);
    let mut stage = IndexLogHistoryStage::default();
    let out = stage.execute(&mut provider, input(0, 3)).unwrap();
    assert_eq!(out, ExecOutput { checkpoint: StageCheckpoint::new(3), done: true });
    assert_eq!(provider.address_history().blocks_of(&a), vec![1, 3]);
    assert_eq!(provider.topic_history().blocks_of(&t1), vec![1]);
    assert_eq!(provider.topic_history().blocks_of(&t2), vec![1, 3]);
    assert_eq!(provider.address_history().len(), 2);
    assert_eq!(provider.topic_history().len(), 3);
    assert!(!provider.address_history().contains(&a, 2));
}
