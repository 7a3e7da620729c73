use chaindata::history::H256;
use chaindata::snapshot::{
    BlockBodyIndices, Compression, Filters, Jar, SnapshotError, SnapshotSegment, SnapshotSource,
    TxRange,
};
use chaindata::stage::BlockRange;
use chaindata::transactions::Transactions;

fn row(n: u64) -> Vec<u8> {
    let mut v = n.to_be_bytes().to_vec();
    v.push((n % 251) as u8);
    v
}

/// `blocks` blocks of `per_block` transactions each.
fn source(blocks: u64, per_block: u64) -> SnapshotSource {
    let bodies = (0..blocks)
        .map(|b| BlockBodyIndices { first_tx_num: b * per_block, tx_count: per_block })
        .collect();
    let transactions = (0..blocks * per_block).map(row).collect();
    SnapshotSource { bodies, transactions }
}

fn hash_of(n: u64) -> H256 {
    H256 { high: n as u128 * 31 + 7, low: n as u128 }
}

#[test]
fn dataset_is_capped_at_most_recent_thousand() {
    let src = source(1, 5000);
    let segment = Transactions::new(Compression::ZstdWithDictionary, Filters::WithoutFilters);
    let sample = segment.dataset_for_compression(&src, TxRange { start: 0, end: 5000 }, 5000);
    assert_eq!(sample.len(), 1000);
    for (i, r) in sample.iter().enumerate() {
        assert_eq!(*r, row(4999 - i as u64));
    }
}

#[test]
fn dataset_of_short_range_takes_every_row() {
    let src = source(10, 3);
    let segment = Transactions::new(Compression::ZstdWithDictionary, Filters::WithoutFilters);
    let sample = segment.dataset_for_compression(&src, TxRange { start: 13, end: 20 }, 7);
    assert_eq!(sample, (13..=19).rev().map(row).collect::<Vec<_>>());
}

#[test]
fn snapshot_round_trip_with_filters() {
    let src = source(10, 4);
    let segment = Transactions::new(Compression::ZstdWithDictionary, Filters::WithFilters);
    let hashes: Vec<H256> = (8..=23).map(hash_of).collect();
    let jar = segment.snapshot(&src, BlockRange { start: 2, end: 5 }, hashes.clone()).unwrap();
    assert_eq!(jar.segment(), SnapshotSegment::Transactions);
    assert_eq!(jar.range(), TxRange { start: 8, end: 24 });
    assert_eq!(jar.row_count(), 16);
    assert_eq!(jar.filters(), Filters::WithFilters);
    assert_eq!(jar.compression(), Compression::ZstdWithDictionary);
    assert_eq!(*jar.dictionary_sample(), (8..=23).rev().map(row).collect::<Vec<_>>());
    for (i, h) in hashes.iter().enumerate() {
        assert!(jar.may_contain(h));
        assert_eq!(jar.offset_of(h), Some(i));
        assert_eq!(jar.get_by_hash(h), Some(&row(8 + i as u64)));
        assert_eq!(jar.row(i), Some(&row(8 + i as u64)));
    }
    assert!(!jar.may_contain(&hash_of(7)));
    assert_eq!(jar.get_by_hash(&hash_of(24)), None);
    assert_eq!(jar.row(16), None);
}

#[test]
fn snapshot_without_compression_or_filters() {
    let src = source(5, 2);
    let segment = Transactions::new(Compression::Uncompressed, Filters::WithoutFilters);
    let jar = segment.snapshot(&src, BlockRange { start: 0, end: 4 }, Vec::new()).unwrap();
    assert_eq!(jar.row_count(), 10);
    assert!(jar.dictionary_sample().is_empty());
    assert_eq!(jar.offset_of(&hash_of(0)), None);
    assert_eq!(jar.row(9), Some(&row(9)));
}

#[test]
fn snapshot_of_missing_block() {
    let src = source(5, 2);
    let segment = Transactions::new(Compression::Uncompressed, Filters::WithoutFilters);
    assert_eq!(
        segment.snapshot(&src, BlockRange { start: 7, end: 9 }, Vec::new()).err(),
        Some(SnapshotError::BlockBodyIndicesNotFound(7))
    );
    assert_eq!(
        segment.snapshot(&src, BlockRange { start: 3, end: 5 }, Vec::new()).err(),
        Some(SnapshotError::BlockBodyIndicesNotFound(5))
    );
}

#[test]
fn snapshot_of_missing_transaction() {
    let mut src = source(5, 2);
    src.transactions.truncate(7);
    let segment = Transactions::new(Compression::Uncompressed, Filters::WithoutFilters);
    assert_eq!(
        segment.snapshot(&src, BlockRange { start: 1, end: 4 }, Vec::new()).err(),
        Some(SnapshotError::MissingTransaction(9))
    );
}

#[test]
fn snapshot_with_wrong_number_of_hashes() {
    let src = source(5, 2);
    let segment = Transactions::new(Compression::Uncompressed, Filters::WithFilters);
    let hashes: Vec<H256> = (0..3).map(hash_of).collect();
    assert_eq!(
        segment.snapshot(&src, BlockRange { start: 0, end: 1 }, hashes).err(),
        Some(SnapshotError::HashCountMismatch)
    );
}

#[test]
fn snapshot_with_repeated_hash() {
    let src = source(5, 2);
    let segment = Transactions::new(Compression::Uncompressed, Filters::WithFilters);
    let hashes = vec![hash_of(0), hash_of(1), hash_of(2), hash_of(1)];
    assert_eq!(
        segment.snapshot(&src, BlockRange { start: 0, end: 1 }, hashes).err(),
        Some(SnapshotError::DuplicateKeyHash(3))
    );
}

#[test]
fn write_checks_expected_row_count() {
    let src = source(5, 2);
    let range = TxRange { start: 2, end: 6 };
    let mut jar = Jar::prepare(
        SnapshotSegment::Transactions,
        Filters::WithoutFilters,
        Compression::Uncompressed,
        range,
        3,
        Vec::new(),
    );
    assert_eq!(jar.write(&src, range, None), Err(SnapshotError::RowCountMismatch));
    assert_eq!(jar.row_count(), 0);
}

#[test]
fn block_range_resolves_to_transaction_range() {
    let src = SnapshotSource {
        bodies: vec![
            BlockBodyIndices { first_tx_num: 0, tx_count: 3 },
            BlockBodyIndices { first_tx_num: 3, tx_count: 0 },
            BlockBodyIndices { first_tx_num: 3, tx_count: 5 },
        ],
        transactions: (0..8).map(row).collect(),
    };
    assert_eq!(src.transaction_range_by_block_range(0, 2), Ok(TxRange { start: 0, end: 8 }));
    assert_eq!(src.transaction_range_by_block_range(0, 1), Ok(TxRange { start: 0, end: 3 }));
    assert_eq!(src.transaction_range_by_block_range(1, 1), Ok(TxRange { start: 3, end: 3 }));
    assert_eq!(src.transaction_range_by_block_range(2, 2), Ok(TxRange { start: 3, end: 8 }));
    assert_eq!(src.transaction_range_by_block_range(0, 3), Err(SnapshotError::BlockBodyIndicesNotFound(3)));
}

#[test]
fn snapshot_ending_in_empty_block() {
    let src = SnapshotSource {
        bodies: vec![
            BlockBodyIndices { first_tx_num: 0, tx_count: 3 },
            BlockBodyIndices { first_tx_num: 3, tx_count: 0 },
        ],
        transactions: (0..3).map(row).collect(),
    };
    let segment = Transactions::new(Compression::ZstdWithDictionary, Filters::WithFilters);
    let hashes: Vec<H256> = (0..3).map(hash_of).collect();
    let jar = segment.snapshot(&src, BlockRange { start: 0, end: 1 }, hashes).unwrap();
    assert_eq!(jar.range(), TxRange { start: 0, end: 3 });
    assert_eq!(jar.row_count(), 3);
    assert_eq!(*jar.dictionary_sample(), vec![row(2), row(1), row(0)]);
    assert_eq!(jar.row(2), Some(&row(2)));
    assert_eq!(jar.row(3), None);

    let jar = segment.snapshot(&src, BlockRange { start: 1, end: 1 }, Vec::new()).unwrap();
    assert_eq!(jar.range(), TxRange { start: 3, end: 3 });
    assert_eq!(jar.row_count(), 0);
    assert!(jar.dictionary_sample().is_empty());
}

#[test]
fn empty_range_from_transaction_zero() {
    let src = SnapshotSource {
        bodies: vec![
            BlockBodyIndices { first_tx_num: 0, tx_count: 0 },
            BlockBodyIndices { first_tx_num: 0, tx_count: 2 },
        ],
        transactions: (0..2).map(row).collect(),
    };
    assert_eq!(src.transaction_range_by_block_range(0, 0), Ok(TxRange { start: 0, end: 0 }));
    let segment = Transactions::new(Compression::Uncompressed, Filters::WithoutFilters);
    let jar = segment.snapshot(&src, BlockRange { start: 0, end: 0 }, Vec::new()).unwrap();
    assert_eq!(jar.row_count(), 0);
    let jar = segment.snapshot(&src, BlockRange { start: 0, end: 1 }, Vec::new()).unwrap();
    assert_eq!(jar.row_count(), 2);
}
