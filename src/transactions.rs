use vstd::prelude::*;
use crate::history::H256;
use crate::snapshot::{
    copy_row, min3, recent_rows, rows_of, tx_range_of, views_of, Compression, Filters, Jar, SnapshotError,
    SnapshotSegment, SnapshotSource, TxRange, MAX_DICTIONARY_SAMPLE,
};
use crate::stage::BlockRange;

verus! {

/// Snapshot segment that holds the transactions of a block range.
#[derive(Clone, Copy, Debug)]
pub struct Transactions {
    compression: Compression,
    filters: Filters,
}

impl Transactions {
    pub closed spec fn compression_spec(&self) -> Compression {
        self.compression
    }

    pub closed spec fn filters_spec(&self) -> Filters {
        self.filters
    }

    /// A transactions segment with the given compression and filters.
    pub fn new(compression: Compression, filters: Filters) -> (r: Self)
        ensures
            r.compression_spec() == compression,
            r.filters_spec() == filters,
    {
        Transactions { compression, filters }
    }

    /// The dictionary training sample: the most recent rows walking back from
    /// the last transaction of `range`, at most `range_len` of them and at most 1000.
    pub fn dataset_for_compression(
        &self,
        source: &SnapshotSource,
        range: TxRange,
        range_len: usize,
    ) -> (r: Vec<Vec<u8>>)
        requires
            0 < range.end <= source.transactions@.len(),
        ensures
            views_of(r@) == recent_rows(
                source.transactions@,
                range.end - 1,
                min3(range_len as int, MAX_DICTIONARY_SAMPLE as int, range.end as int) as nat,
            ),
    {
        let mut n: usize = if range_len < MAX_DICTIONARY_SAMPLE {
            range_len
        } else {
            MAX_DICTIONARY_SAMPLE
        };
        if range.end < n as u64 {
            n = range.end as usize;
        }
        let ghost want = min3(range_len as int, MAX_DICTIONARY_SAMPLE as int, range.end as int);
        assert(n == want);
        let len = source.transactions.len();
        let mut r: Vec<Vec<u8>> = Vec::new();
        let mut k: usize = 0;
        while k < n
            invariant
                len == source.transactions@.len(),
                n == want,
                n <= range.end,
                range.end <= source.transactions@.len(),
                k <= n,
                r@.len() == k,
                forall|i: int|
                    0 <= i < k ==> (#[trigger] r@[i])@ == source.transactions@[range.end - 1 - i]@,
            decreases n - k,
        {
            let idx: usize = (range.end - 1 - k as u64) as usize;
            assert(idx == range.end - 1 - k);
            let row = copy_row(&source.transactions[idx]);
            let ghost prev = r@;
            r.push(row);
            assert forall|i: int| 0 <= i < r@.len() implies (#[trigger] r@[i])@
                == source.transactions@[range.end - 1 - i]@ by {
                if i < prev.len() {
                    assert(r@[i] == prev[i]);
                }
            }
            k = k + 1;
        }
        assert(views_of(r@) =~= recent_rows(source.transactions@, range.end - 1, n as nat));
        r
    }

    /// Builds the snapshot of the transactions of `block_range`.
    ///
    /// The block range is resolved to its transaction range; when compression
    /// trains a dictionary, the jar gets the most recent rows as its sample; when
    /// filters are on, `key_hashes` gives the key hash of each transaction of the
    /// range, in order, and feeds the filter and the perfect-hash index.
    pub fn snapshot(
        &self,
        source: &SnapshotSource,
        block_range: BlockRange,
        key_hashes: Vec<H256>,
    ) -> (r: Result<Jar, SnapshotError>)
        requires
            block_range.start <= block_range.end,
        ensures
            block_range.start >= source.bodies@.len() ==> r == Err::<Jar, SnapshotError>(
                SnapshotError::BlockBodyIndicesNotFound(block_range.start),
            ),
            block_range.start < source.bodies@.len() <= block_range.end ==> r == Err::<
                Jar,
                SnapshotError,
            >(SnapshotError::BlockBodyIndicesNotFound(block_range.end)),
            block_range.end < source.bodies@.len() ==> {
                let txs = source.transactions@;
                let tr = tx_range_of(source.bodies@, block_range.start as int, block_range.end as int);
                let filtered = self.filters_spec().enabled();
                if tr.count() > 0 && tr.end > txs.len() {
                    r == Err::<Jar, SnapshotError>(
                        SnapshotError::MissingTransaction((tr.end - 1) as u64),
                    )
                } else if filtered && key_hashes@.len() != tr.count() {
                    r == Err::<Jar, SnapshotError>(SnapshotError::HashCountMismatch)
                } else if filtered && !key_hashes@.no_duplicates() {
                    exists|j: usize|
                        r == Err::<Jar, SnapshotError>(SnapshotError::DuplicateKeyHash(j)) && {
                            &&& j < key_hashes@.len()
                            &&& key_hashes@.take(j as int).no_duplicates()
                            &&& key_hashes@.take(j as int).contains(key_hashes@[j as int])
                        }
                } else {
                    r is Ok && {
                        let jar = r->Ok_0;
                        &&& jar.wf()
                        &&& jar.segment_spec() == SnapshotSegment::Transactions
                        &&& jar.filters_spec() == self.filters_spec()
                        &&& jar.compression_spec() == self.compression_spec()
                        &&& jar.range_spec() == tr
                        &&& jar.expected_rows_spec() == tr.count()
                        &&& jar.rows() == rows_of(txs, tr)
                        &&& jar.sample() == (if self.compression_spec().trains() {
                            recent_rows(
                                txs,
                                tr.end - 1,
                                min3(tr.count() as int, MAX_DICTIONARY_SAMPLE as int, tr.end as int)
                                    as nat,
                            )
                        } else {
                            Seq::<Seq<u8>>::empty()
                        })
                        &&& jar.keys() == (if filtered {
                            key_hashes@
                        } else {
                            Seq::<H256>::empty()
                        })
                    }
                }
            },
    {
        let range = match source.transaction_range_by_block_range(
            block_range.start,
            block_range.end,
        ) {
            Ok(range) => range,
            Err(e) => {
                return Err(e);
            },
        };
        if range.end > range.start && range.end > source.transactions.len() as u64 {
            return Err(SnapshotError::MissingTransaction(range.end - 1));
        }
        let txs_len = source.transactions.len();
        let range_len: usize = if range.end > range.start {
            assert(range.end - range.start <= txs_len);
            (range.end - range.start) as usize
        } else {
            0
        };
        let dataset = if self.compression.requires_training() && range_len > 0 {
            self.dataset_for_compression(source, range, range_len)
        } else {
            Vec::new()
        };
        proof {
            if range_len == 0 {
                assert(views_of(dataset@) =~= recent_rows(source.transactions@, range.end - 1, 0));
            }
        }
        let mut jar = Jar::prepare(
            SnapshotSegment::Transactions,
            self.filters,
            self.compression,
            range,
            range_len,
            dataset,
        );
        let hashes = if self.filters.has_filters() {
            Some(key_hashes)
        } else {
            None
        };
        match jar.write(source, range, hashes) {
            Ok(()) => Ok(jar),
            Err(e) => Err(e),
        }
    }
}

} // verus!
