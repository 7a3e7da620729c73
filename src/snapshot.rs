use vstd::prelude::*;
use crate::history::H256;
use crate::stage::BlockNumber;

verus! {

/// Number of a transaction; unique over the whole chain.
pub type TxNumber = u64;

/// The largest number of rows sampled to train a compression dictionary.
pub const MAX_DICTIONARY_SAMPLE: usize = 1000;

/// How the rows of a snapshot are compressed.
#[derive(Clone, Copy, Debug, PartialEq, Eq, Structural)]
pub enum Compression {
    Uncompressed,
    ZstdWithDictionary,
}

impl Compression {
    pub open spec fn trains(self) -> bool {
        self is ZstdWithDictionary
    }

    /// Whether a dictionary has to be trained on a sample of the rows.
    pub fn requires_training(&self) -> (r: bool)
        ensures
            r == self.trains(),
    {
        match self {
            Compression::ZstdWithDictionary => true,
            Compression::Uncompressed => false,
        }
    }
}

/// Whether a snapshot carries a membership filter and a perfect-hash index.
#[derive(Clone, Copy, Debug, PartialEq, Eq, Structural)]
pub enum Filters {
    WithoutFilters,
    WithFilters,
}

impl Filters {
    pub open spec fn enabled(self) -> bool {
        self is WithFilters
    }

    /// Whether the rows' key hashes are needed.
    pub fn has_filters(&self) -> (r: bool)
        ensures
            r == self.enabled(),
    {
        match self {
            Filters::WithFilters => true,
            Filters::WithoutFilters => false,
        }
    }
}

/// The category of chain data a snapshot holds.
#[derive(Clone, Copy, Debug, PartialEq, Eq, Structural)]
pub enum SnapshotSegment {
    Headers,
    Transactions,
    Receipts,
}

/// A half-open range `[start, end)` of transaction numbers; empty when `end <= start`.
#[derive(Clone, Copy, Debug, PartialEq, Eq, Structural)]
pub struct TxRange {
    pub start: TxNumber,
    pub end: TxNumber,
}

impl TxRange {
    /// The number of transactions in the range.
    pub open spec fn count(self) -> nat {
        if self.end > self.start {
            (self.end - self.start) as nat
        } else {
            0
        }
    }
}

/// Where the transactions of a block lie in the transaction table.
#[derive(Clone, Copy, Debug, PartialEq, Eq, Structural)]
pub struct BlockBodyIndices {
    pub first_tx_num: TxNumber,
    pub tx_count: u64,
}

impl BlockBodyIndices {
    /// One past the last transaction of the block: `first_tx_num + tx_count`.
    pub open spec fn end_tx(self) -> int {
        self.first_tx_num + self.tx_count
    }
}

/// The tables a transactions snapshot is built from: the body indices of each
/// block (block `b` at position `b`) and the raw encoded transactions (number `n`
/// at position `n`).
pub struct SnapshotSource {
    pub bodies: Vec<BlockBodyIndices>,
    pub transactions: Vec<Vec<u8>>,
}

/// The transaction range of the blocks `[start, end]`: from the first transaction
/// of `start` up to, not including, the one after the last of `end` (that bound
/// saturating at `u64::MAX`). Empty when those blocks hold no transaction.
pub open spec fn tx_range_of(bodies: Seq<BlockBodyIndices>, start: int, end: int) -> TxRange {
    let past = bodies[end].end_tx();
    TxRange {
        start: bodies[start].first_tx_num,
        end: if past > u64::MAX { u64::MAX } else { past as u64 },
    }
}

impl SnapshotSource {
    /// The transaction range of the blocks in `[start, end]`.
    pub fn transaction_range_by_block_range(&self, start: BlockNumber, end: BlockNumber) -> (r:
        Result<TxRange, SnapshotError>)
        ensures
            start >= self.bodies@.len() ==> r == Err::<TxRange, SnapshotError>(
                SnapshotError::BlockBodyIndicesNotFound(start),
            ),
            start < self.bodies@.len() <= end ==> r == Err::<TxRange, SnapshotError>(
                SnapshotError::BlockBodyIndicesNotFound(end),
            ),
            start < self.bodies@.len() && end < self.bodies@.len() ==> r == Ok::<
                TxRange,
                SnapshotError,
            >(tx_range_of(self.bodies@, start as int, end as int)),
    {
        if start >= self.bodies.len() as u64 {
            return Err(SnapshotError::BlockBodyIndicesNotFound(start));
        }
        if end >= self.bodies.len() as u64 {
            return Err(SnapshotError::BlockBodyIndicesNotFound(end));
        }
        let first = self.bodies[start as usize];
        let last = self.bodies[end as usize];
        Ok(TxRange {
            start: first.first_tx_num,
            end: last.first_tx_num.saturating_add(last.tx_count),
        })
    }
}

/// Why a snapshot could not be built.
#[derive(Clone, Copy, Debug, PartialEq, Eq, Structural)]
pub enum SnapshotError {
    /// The body indices of this block are not available.
    BlockBodyIndicesNotFound(BlockNumber),
    /// This transaction is referenced by a block but not in the table.
    MissingTransaction(TxNumber),
    /// The number of rows in the range differs from the expected row count.
    RowCountMismatch,
    /// The number of key hashes differs from the number of rows.
    HashCountMismatch,
    /// The key hash at this offset also stands at an earlier offset.
    DuplicateKeyHash(usize),
}

/// The transactions of `range`, in ascending order.
pub open spec fn rows_of(txs: Seq<Vec<u8>>, range: TxRange) -> Seq<Seq<u8>> {
    Seq::new(range.count(), |i: int| txs[range.start + i]@)
}

/// The most recent `n` rows up to `end`, newest first.
pub open spec fn recent_rows(txs: Seq<Vec<u8>>, end: int, n: nat) -> Seq<Seq<u8>> {
    Seq::new(n, |i: int| txs[end - i]@)
}

/// The smallest of `a`, `b` and `c`.
pub open spec fn min3(a: int, b: int, c: int) -> int {
    if a <= b && a <= c {
        a
    } else if b <= c {
        b
    } else {
        c
    }
}

/// A snapshot being built for one segment and transaction range: its
/// configuration, the dictionary training sample, the rows in ascending key order,
/// and the key hash of each row. The membership filter and the key-to-offset
/// index are both answered from those hashes, held in row order: the filter has
/// no false negatives (nor false positives), and the index sends each key to the
/// offset of its row.
pub struct Jar {
    segment: SnapshotSegment,
    filters: Filters,
    compression: Compression,
    range: TxRange,
    expected_rows: usize,
    dictionary_sample: Vec<Vec<u8>>,
    rows: Vec<Vec<u8>>,
    key_hashes: Vec<H256>,
}

/// The views of the rows of `v`.
pub open spec fn views_of(v: Seq<Vec<u8>>) -> Seq<Seq<u8>> {
    Seq::new(v.len(), |i: int| v[i]@)
}

/// A copy of `v`.
pub(crate) fn copy_row(v: &Vec<u8>) -> (r: Vec<u8>)
    ensures
        r@ == v@,
{
    let r = v.clone();
    assert(r@ =~= v@);
    r
}

/// The first offset whose hash also stands at an earlier offset, if any.
fn find_duplicate(v: &Vec<H256>) -> (r: Option<usize>)
    ensures
        match r {
            Some(j) => j < v@.len() && v@.take(j as int).no_duplicates() && v@.take(
                j as int,
            ).contains(v@[j as int]),
            None => v@.no_duplicates(),
        },
{
    let mut j: usize = 0;
    while j < v.len()
        invariant
            j <= v@.len(),
            v@.take(j as int).no_duplicates(),
        decreases v@.len() - j,
    {
        let mut i: usize = 0;
        while i < j
            invariant
                i <= j < v@.len(),
                v@.take(j as int).no_duplicates(),
                forall|k: int| 0 <= k < i ==> v@[k] != v@[j as int],
            decreases j - i,
        {
            if v[i] == v[j] {
                assert(v@.take(j as int)[i as int] == v@[j as int]);
                assert(v@.take(j as int).contains(v@[j as int]));
                return Some(j);
            }
            i = i + 1;
        }
        assert(v@.take(j + 1) =~= v@.take(j as int).push(v@[j as int]));
        j = j + 1;
    }
    assert(v@.take(j as int) =~= v@);
    None
}

/// The rows of `source` in `range`, copied out in ascending order.
fn read_rows(source: &SnapshotSource, range: TxRange) -> (r: Vec<Vec<u8>>)
    requires
        range.start < range.end <= source.transactions@.len(),
    ensures
        views_of(r@) == rows_of(source.transactions@, range),
{
    let mut r: Vec<Vec<u8>> = Vec::new();
    let len = source.transactions.len();
    let mut n: u64 = range.start;
    while n < range.end
        invariant
            len == source.transactions@.len(),
            range.start <= n <= range.end,
            range.end <= source.transactions@.len(),
            r@.len() == n - range.start,
            forall|i: int| 0 <= i < r@.len() ==> (#[trigger] r@[i])@ == source.transactions@[range.start + i]@,
        decreases range.end - n,
    {
        let row = copy_row(&source.transactions[n as usize]);
        let ghost prev = r@;
        r.push(row);
        assert forall|i: int| 0 <= i < r@.len() implies (#[trigger] r@[i])@
            == source.transactions@[range.start + i]@ by {
            if i < prev.len() {
                assert(r@[i] == prev[i]);
            }
        }
        n = n + 1;
    }
    assert(views_of(r@) =~= rows_of(source.transactions@, range));
    r
}

impl Jar {
    pub closed spec fn segment_spec(&self) -> SnapshotSegment {
        self.segment
    }

    pub closed spec fn filters_spec(&self) -> Filters {
        self.filters
    }

    pub closed spec fn compression_spec(&self) -> Compression {
        self.compression
    }

    pub closed spec fn range_spec(&self) -> TxRange {
        self.range
    }

    pub closed spec fn expected_rows_spec(&self) -> nat {
        self.expected_rows as nat
    }

    /// The rows the dictionary is trained on.
    pub closed spec fn sample(&self) -> Seq<Seq<u8>> {
        views_of(self.dictionary_sample@)
    }

    /// The rows written, in ascending key order.
    pub closed spec fn rows(&self) -> Seq<Seq<u8>> {
        views_of(self.rows@)
    }

    /// The key hash of each row written, by offset.
    pub closed spec fn keys(&self) -> Seq<H256> {
        self.key_hashes@
    }

    /// Each key hash stands at one offset only.
    pub closed spec fn wf(&self) -> bool {
        self.key_hashes@.no_duplicates()
    }

    /// A jar for `segment` over `range` of `range_len` rows, holding `dataset` as
    /// its dictionary sample when `compression` trains a dictionary, and no rows yet.
    pub fn prepare(
        segment: SnapshotSegment,
        filters: Filters,
        compression: Compression,
        range: TxRange,
        range_len: usize,
        dataset: Vec<Vec<u8>>,
    ) -> (r: Self)
        ensures
            r.wf(),
            r.segment_spec() == segment,
            r.filters_spec() == filters,
            r.compression_spec() == compression,
            r.range_spec() == range,
            r.expected_rows_spec() == range_len,
            r.sample() == (if compression.trains() {
                views_of(dataset@)
            } else {
                Seq::<Seq<u8>>::empty()
            }),
            r.rows() == Seq::<Seq<u8>>::empty(),
            r.keys() == Seq::<H256>::empty(),
    {
        let dictionary_sample = if compression.requires_training() {
            dataset
        } else {
            Vec::new()
        };
        let r = Jar {
            segment,
            filters,
            compression,
            range,
            expected_rows: range_len,
            dictionary_sample,
            rows: Vec::new(),
            key_hashes: Vec::new(),
        };
        assert(r.rows() =~= Seq::<Seq<u8>>::empty());
        assert(compression.trains() || r.sample() =~= Seq::<Seq<u8>>::empty());
        r
    }

    pub fn segment(&self) -> (r: SnapshotSegment)
        ensures
            r == self.segment_spec(),
    {
        self.segment
    }

    pub fn filters(&self) -> (r: Filters)
        ensures
            r == self.filters_spec(),
    {
        self.filters
    }

    pub fn compression(&self) -> (r: Compression)
        ensures
            r == self.compression_spec(),
    {
        self.compression
    }

    pub fn range(&self) -> (r: TxRange)
        ensures
            r == self.range_spec(),
    {
        self.range
    }

    /// The number of rows written.
    pub fn row_count(&self) -> (r: usize)
        ensures
            r == self.rows().len(),
    {
        self.rows.len()
    }

    /// The dictionary training sample.
    pub fn dictionary_sample(&self) -> (r: &Vec<Vec<u8>>)
        ensures
            views_of(r@) == self.sample(),
    {
        &self.dictionary_sample
    }

    /// Streams the rows of `range` into this freshly prepared jar, with the key hash
    /// of each row when `hashes` is given.
    ///
    /// Fails, leaving the jar as it was, when a transaction of the range is missing,
    /// when the range does not hold the expected number of rows, when the number of
    /// hashes differs from it, or when a hash repeats.
    pub fn write(
        &mut self,
        source: &SnapshotSource,
        range: TxRange,
        hashes: Option<Vec<H256>>,
    ) -> (r: Result<(), SnapshotError>)
        requires
            old(self).rows().len() == 0,
            old(self).keys().len() == 0,
        ensures
            r is Err ==> *final(self) == *old(self),
            final(self).segment_spec() == old(self).segment_spec(),
            final(self).filters_spec() == old(self).filters_spec(),
            final(self).compression_spec() == old(self).compression_spec(),
            final(self).range_spec() == old(self).range_spec(),
            final(self).expected_rows_spec() == old(self).expected_rows_spec(),
            final(self).sample() == old(self).sample(),
            r == Err::<(), SnapshotError>(SnapshotError::MissingTransaction((range.end - 1) as u64))
                <==> range.count() > 0 && range.end > source.transactions@.len(),
            r == Err::<(), SnapshotError>(SnapshotError::RowCountMismatch) <==> !(range.count()
                > 0 && range.end > source.transactions@.len()) && range.count()
                != old(self).expected_rows_spec(),
            r == Err::<(), SnapshotError>(SnapshotError::HashCountMismatch) <==> !(range.count()
                > 0 && range.end > source.transactions@.len()) && range.count()
                == old(self).expected_rows_spec() && hashes is Some && hashes->0@.len()
                != range.count(),
            (exists|j: usize|
                r == Err::<(), SnapshotError>(SnapshotError::DuplicateKeyHash(j)))
                <==> !(range.count() > 0 && range.end > source.transactions@.len())
                && range.count() == old(self).expected_rows_spec() && hashes is Some
                && hashes->0@.len() == range.count() && !hashes->0@.no_duplicates(),
            forall|j: usize|
                r == Err::<(), SnapshotError>(SnapshotError::DuplicateKeyHash(j)) ==> ({
                    let h = hashes->0@;
                    &&& j < h.len()
                    &&& h.take(j as int).no_duplicates()
                    &&& h.take(j as int).contains(h[j as int])
                }),
            r is Ok <==> !(range.count() > 0 && range.end > source.transactions@.len())
                && range.count() == old(self).expected_rows_spec() && (hashes is Some ==> (
                hashes->0@.len() == range.count() && hashes->0@.no_duplicates())),
            r is Ok ==> {
                &&& final(self).wf()
                &&& final(self).rows() == rows_of(source.transactions@, range)
                &&& final(self).keys() == match hashes {
                    Some(h) => h@,
                    None => Seq::<H256>::empty(),
                }
            },
    {
        if range.end > range.start && range.end > source.transactions.len() as u64 {
            return Err(SnapshotError::MissingTransaction(range.end - 1));
        }
        let count: u64 = if range.end > range.start {
            range.end - range.start
        } else {
            0
        };
        if count != self.expected_rows as u64 {
            return Err(SnapshotError::RowCountMismatch);
        }
        let key_hashes = match hashes {
            Some(h) => {
                if h.len() as u64 != count {
                    return Err(SnapshotError::HashCountMismatch);
                }
                match find_duplicate(&h) {
                    Some(j) => {
                        return Err(SnapshotError::DuplicateKeyHash(j));
                    },
                    None => {},
                }
                h
            },
            None => Vec::new(),
        };
        let rows = if count > 0 {
            read_rows(source, range)
        } else {
            Vec::new()
        };
        assert(count == 0 ==> views_of(rows@) =~= rows_of(source.transactions@, range));
        self.rows = rows;
        self.key_hashes = key_hashes;
        Ok(())
    }

    /// The row at `offset`, if there is one.
    pub fn row(&self, offset: usize) -> (r: Option<&Vec<u8>>)
        ensures
            match r {
                Some(v) => offset < self.rows().len() && v@ == self.rows()[offset as int],
                None => offset >= self.rows().len(),
            },
    {
        if offset < self.rows.len() {
            Some(&self.rows[offset])
        } else {
            None
        }
    }

    /// The membership filter: whether `hash` may be the key of a row.
    pub fn may_contain(&self, hash: &H256) -> (r: bool)
        ensures
            r == self.keys().contains(*hash),
    {
        self.offset_of(hash).is_some()
    }

    /// The key-to-offset index: the offset of the row whose key hash is `hash`.
    pub fn offset_of(&self, hash: &H256) -> (r: Option<usize>)
        ensures
            match r {
                Some(i) => i < self.keys().len() && self.keys()[i as int] == *hash,
                None => !self.keys().contains(*hash),
            },
    {
        let mut i: usize = 0;
        while i < self.key_hashes.len()
            invariant
                i <= self.key_hashes@.len(),
                forall|j: int| 0 <= j < i ==> self.key_hashes@[j] != *hash,
            decreases self.key_hashes@.len() - i,
        {
            if self.key_hashes[i] == *hash {
                return Some(i);
            }
            i = i + 1;
        }
        None
    }

    /// The row whose key hash is `hash`, if there is one.
    pub fn get_by_hash(&self, hash: &H256) -> (r: Option<&Vec<u8>>)
        requires
            self.rows().len() == self.keys().len(),
        ensures
            match r {
                Some(v) => exists|i: int|
                    0 <= i < self.keys().len() && self.keys()[i] == *hash && v@
                        == self.rows()[i],
                None => !self.keys().contains(*hash),
            },
    {
        match self.offset_of(hash) {
            Some(i) => Some(&self.rows[i]),
            None => None,
        }
    }
}

/// What a transactions snapshot with filters promises of lookups: every key hash
/// written is reported by the membership filter, the perfect-hash index sends it
/// to the offset of its own row, and the row stored there is the transaction as
/// read from the source. Conversely, any hash that the index sends to an offset is the key
/// of that row, so every row it reports is the one read from the source.
pub proof fn lemma_round_trip(jar: Jar, txs: Seq<Vec<u8>>, range: TxRange, key_hashes: Seq<H256>)
    requires
        jar.wf(),
        jar.keys() == key_hashes,
        jar.rows() == rows_of(txs, range),
        key_hashes.len() == range.count(),
        range.count() == 0 || range.end <= txs.len(),
    ensures
        forall|i: int|
            0 <= i < range.count() ==> {
                &&& jar.keys().contains(#[trigger] key_hashes[i])
                &&& forall|o: int|
                    0 <= o < jar.keys().len() && jar.keys()[o] == key_hashes[i] ==> o == i
                &&& jar.rows()[i] == txs[range.start + i]@
            },
        forall|o: int|
            0 <= o < jar.keys().len() ==> o < range.count() && #[trigger] jar.rows()[o]
                == txs[range.start + o]@,
{
    assert forall|i: int| 0 <= i < range.count() implies jar.keys().contains(
        #[trigger] key_hashes[i],
    ) by {
        assert(jar.keys()[i] == key_hashes[i]);
    }
}

} // verus!
