use vstd::prelude::*;
use crate::history::{Address, H256, HistoryIndex};
use crate::stage::{BlockNumber, BlockRange};

verus! {

/// One log entry of a receipt: the emitting address and its topics.
pub struct Log {
    pub address: Address,
    pub topics: Vec<H256>,
}

/// The receipt of one transaction.
pub struct Receipt {
    pub logs: Vec<Log>,
}

/// Whether some log of `rc` has address `a`.
pub open spec fn receipt_has_address(rc: Receipt, a: Address) -> bool {
    exists|l: int| 0 <= l < rc.logs@.len() && (#[trigger] rc.logs@[l]).address == a
}

/// Whether some log of `rc` has topic `t`.
pub open spec fn receipt_has_topic(rc: Receipt, t: H256) -> bool {
    exists|l: int, k: int|
        0 <= l < rc.logs@.len() && 0 <= k < rc.logs@[l].topics@.len() && (
        #[trigger] rc.logs@[l].topics@[k]) == t
}

/// Whether some receipt of a block has a log with address `a`.
pub open spec fn block_has_address(receipts: Seq<Receipt>, a: Address) -> bool {
    exists|r: int| 0 <= r < receipts.len() && receipt_has_address(#[trigger] receipts[r], a)
}

/// Whether some receipt of a block has a log with topic `t`.
pub open spec fn block_has_topic(receipts: Seq<Receipt>, t: H256) -> bool {
    exists|r: int| 0 <= r < receipts.len() && receipt_has_topic(#[trigger] receipts[r], t)
}

/// The `(address, block)` pairs of the logs in the blocks of `range`;
/// `blocks[b]` holds the receipts of block `b`.
pub open spec fn address_occurrences(blocks: Seq<Vec<Receipt>>, range: BlockRange) -> Set<
    (Address, BlockNumber),
> {
    Set::new(
        |p: (Address, BlockNumber)|
            range.has(p.1 as int) && p.1 < blocks.len() && block_has_address(
                blocks[p.1 as int]@,
                p.0,
            ),
    )
}

/// The `(topic, block)` pairs of the logs in the blocks of `range`.
pub open spec fn topic_occurrences(blocks: Seq<Vec<Receipt>>, range: BlockRange) -> Set<
    (H256, BlockNumber),
> {
    Set::new(
        |p: (H256, BlockNumber)|
            range.has(p.1 as int) && p.1 < blocks.len() && block_has_topic(
                blocks[p.1 as int]@,
                p.0,
            ),
    )
}

/// The data a log-history stage works on: the receipts of each block (those of
/// block `b` at position `b`), and the two history indices derived from them.
pub struct LogHistoryProvider {
    receipts: Vec<Vec<Receipt>>,
    address_history: HistoryIndex<Address>,
    topic_history: HistoryIndex<H256>,
}

impl LogHistoryProvider {
    /// The receipts of each block.
    pub closed spec fn blocks(&self) -> Seq<Vec<Receipt>> {
        self.receipts@
    }

    /// The `(address, block)` pairs of the address index.
    pub closed spec fn addresses(&self) -> Set<(Address, BlockNumber)> {
        self.address_history.view()
    }

    /// The `(topic, block)` pairs of the topic index.
    pub closed spec fn topics(&self) -> Set<(H256, BlockNumber)> {
        self.topic_history.view()
    }

    pub closed spec fn wf(&self) -> bool {
        self.address_history.wf() && self.topic_history.wf()
    }

    /// In both indices the blocks of each value are held in strictly ascending order.
    pub closed spec fn ordered(&self) -> bool {
        self.address_history.ordered() && self.topic_history.ordered()
    }

    /// Whether no entry of either index holds a block above `c`.
    pub open spec fn bounded_by(&self, c: int) -> bool {
        &&& forall|p: (Address, BlockNumber)| #[trigger] self.addresses().contains(p) ==> p.1 <= c
        &&& forall|p: (H256, BlockNumber)| #[trigger] self.topics().contains(p) ==> p.1 <= c
    }

    /// A provider over `receipts`, with empty indices.
    pub fn new(receipts: Vec<Vec<Receipt>>) -> (r: Self)
        ensures
            r.wf(),
            r.ordered(),
            r.blocks() == receipts@,
            r.addresses() == Set::<(Address, BlockNumber)>::empty(),
            r.topics() == Set::<(H256, BlockNumber)>::empty(),
    {
        LogHistoryProvider {
            receipts,
            address_history: HistoryIndex::new(),
            topic_history: HistoryIndex::new(),
        }
    }

    /// The number of blocks whose receipts are held.
    pub fn block_count(&self) -> (r: usize)
        ensures
            r == self.blocks().len(),
    {
        self.receipts.len()
    }

    /// The receipts of each block.
    pub fn receipts(&self) -> (r: &Vec<Vec<Receipt>>)
        ensures
            r@ == self.blocks(),
    {
        &self.receipts
    }

    /// The address index.
    pub fn address_history(&self) -> (r: &HistoryIndex<Address>)
        ensures
            r.view() == self.addresses(),
            self.wf() ==> r.wf(),
            self.ordered() ==> r.ordered(),
    {
        &self.address_history
    }

    /// The topic index.
    pub fn topic_history(&self) -> (r: &HistoryIndex<H256>)
        ensures
            r.view() == self.topics(),
            self.wf() ==> r.wf(),
            self.ordered() ==> r.ordered(),
    {
        &self.topic_history
    }

    /// Adds to both indices every address and topic of the logs of the blocks in
    /// `range`, each with the number of its block.
    pub fn insert_log_history_range(&mut self, range: BlockRange)
        requires
            old(self).wf(),
            range.end < old(self).blocks().len(),
        ensures
            final(self).wf(),
            final(self).blocks() == old(self).blocks(),
            final(self).addresses() == old(self).addresses().union(
                address_occurrences(old(self).blocks(), range),
            ),
            final(self).topics() == old(self).topics().union(
                topic_occurrences(old(self).blocks(), range),
            ),
            old(self).ordered() && old(self).bounded_by(range.start - 1) ==> final(self).ordered(),
    {
        let ghost a0 = self.addresses();
        let ghost t0 = self.topics();
        let ghost tracking = old(self).ordered() && old(self).bounded_by(range.start - 1);
        if range.start > range.end {
            assert(address_occurrences(old(self).blocks(), range) =~= Set::empty());
            assert(topic_occurrences(old(self).blocks(), range) =~= Set::empty());
            assert(a0.union(Set::empty()) =~= a0);
            assert(t0.union(Set::empty()) =~= t0);
            return;
        }
        let n = self.receipts.len();
        let mut b: u64 = range.start;
        while b <= range.end
            invariant
                n == self.blocks().len(),
                self.wf(),
                tracking ==> self.ordered(),
                a0 == old(self).addresses(),
                t0 == old(self).topics(),
                tracking == (old(self).ordered() && old(self).bounded_by(range.start - 1)),
                self.blocks() == old(self).blocks(),
                range.end < self.blocks().len(),
                range.start <= b,
                b <= range.end + 1,
                forall|p: (Address, BlockNumber)|
                    #[trigger] self.addresses().contains(p) <==> a0.contains(p) || (range.start
                        <= p.1 < b && block_has_address(self.blocks()[p.1 as int]@, p.0)),
                forall|p: (H256, BlockNumber)|
                    #[trigger] self.topics().contains(p) <==> t0.contains(p) || (range.start
                        <= p.1 < b && block_has_topic(self.blocks()[p.1 as int]@, p.0)),
            decreases range.end + 1 - b,
        {
            let ghost a1 = self.addresses();
            let ghost t1 = self.topics();
            proof {
                if tracking {
                    assert forall|p: (Address, BlockNumber)|
                        #[trigger] self.address_history.view().contains(p) implies p.1 <= b by {
                        assert(self.addresses().contains(p));
                        if a0.contains(p) {
                            assert(old(self).addresses().contains(p));
                        }
                    }
                    assert forall|p: (H256, BlockNumber)|
                        #[trigger] self.topic_history.view().contains(p) implies p.1 <= b by {
                        assert(self.topics().contains(p));
                        if t0.contains(p) {
                            assert(old(self).topics().contains(p));
                        }
                    }
                }
            }
            index_block(
                &mut self.address_history,
                &mut self.topic_history,
                &self.receipts[b as usize],
                b,
            );
            assert(self.blocks()[b as int] == self.receipts@[b as int]);
            assert forall|p: (Address, BlockNumber)|
                #[trigger] self.addresses().contains(p) <==> a0.contains(p) || (range.start <= p.1
                    < b + 1 && block_has_address(self.blocks()[p.1 as int]@, p.0)) by {
                assert(a1.contains(p) <==> a0.contains(p) || (range.start <= p.1 < b
                    && block_has_address(self.blocks()[p.1 as int]@, p.0)));
            }
            assert forall|p: (H256, BlockNumber)|
                #[trigger] self.topics().contains(p) <==> t0.contains(p) || (range.start <= p.1
                    < b + 1 && block_has_topic(self.blocks()[p.1 as int]@, p.0)) by {
                assert(t1.contains(p) <==> t0.contains(p) || (range.start <= p.1 < b
                    && block_has_topic(self.blocks()[p.1 as int]@, p.0)));
            }
            b = b + 1;
        }
        assert(self.addresses() =~= a0.union(address_occurrences(old(self).blocks(), range)));
        assert(self.topics() =~= t0.union(topic_occurrences(old(self).blocks(), range)));
    }

    /// Removes from both indices every entry whose block lies in `range`.
    pub fn unwind_log_history_indices(&mut self, range: BlockRange)
        requires
            old(self).wf(),
        ensures
            final(self).wf(),
            final(self).blocks() == old(self).blocks(),
            final(self).addresses() == old(self).addresses().filter(
                |p: (Address, BlockNumber)| !range.has(p.1 as int),
            ),
            final(self).topics() == old(self).topics().filter(
                |p: (H256, BlockNumber)| !range.has(p.1 as int),
            ),
            old(self).ordered() ==> final(self).ordered(),
    {
        self.address_history.remove_range(range);
        self.topic_history.remove_range(range);
    }
}

/// Adds the address and the topics of `log` to the indices, at block `b`.
fn index_log(
    addresses: &mut HistoryIndex<Address>,
    topics: &mut HistoryIndex<H256>,
    log: &Log,
    b: BlockNumber,
)
    requires
        old(addresses).wf(),
        old(topics).wf(),
    ensures
        final(addresses).wf(),
        final(topics).wf(),
        final(addresses).view() == old(addresses).view().insert((log.address, b)),
        forall|p: (H256, BlockNumber)|
            #[trigger] final(topics).view().contains(p) <==> old(topics).view().contains(p) || (
            p.1 == b && log.topics@.contains(p.0)),
        old(addresses).ordered() && old(addresses).bounded_by(b as int)
            ==> final(addresses).ordered() && final(addresses).bounded_by(b as int),
        old(topics).ordered() && old(topics).bounded_by(b as int) ==> final(topics).ordered()
            && final(topics).bounded_by(b as int),
{
    addresses.insert(log.address, b);
    let mut k: usize = 0;
    while k < log.topics.len()
        invariant
            topics.wf(),
            k <= log.topics@.len(),
            old(topics).ordered() && old(topics).bounded_by(b as int) ==> topics.ordered()
                && topics.bounded_by(b as int),
            forall|p: (H256, BlockNumber)|
                #[trigger] topics.view().contains(p) <==> old(topics).view().contains(p) || (p.1
                    == b && exists|j: int| 0 <= j < k && log.topics@[j] == p.0),
        decreases log.topics@.len() - k,
    {
        topics.insert(log.topics[k], b);
        k = k + 1;
    }
}

/// Adds the addresses and topics of every log of `rc` to the indices, at block `b`.
fn index_receipt(
    addresses: &mut HistoryIndex<Address>,
    topics: &mut HistoryIndex<H256>,
    rc: &Receipt,
    b: BlockNumber,
)
    requires
        old(addresses).wf(),
        old(topics).wf(),
    ensures
        final(addresses).wf(),
        final(topics).wf(),
        forall|p: (Address, BlockNumber)|
            #[trigger] final(addresses).view().contains(p) <==> old(addresses).view().contains(p)
                || (p.1 == b && receipt_has_address(*rc, p.0)),
        forall|p: (H256, BlockNumber)|
            #[trigger] final(topics).view().contains(p) <==> old(topics).view().contains(p) || (
            p.1 == b && receipt_has_topic(*rc, p.0)),
        old(addresses).ordered() && old(addresses).bounded_by(b as int)
            ==> final(addresses).ordered() && final(addresses).bounded_by(b as int),
        old(topics).ordered() && old(topics).bounded_by(b as int) ==> final(topics).ordered()
            && final(topics).bounded_by(b as int),
{
    let mut l: usize = 0;
    while l < rc.logs.len()
        invariant
            addresses.wf(),
            topics.wf(),
            l <= rc.logs@.len(),
            old(addresses).ordered() && old(addresses).bounded_by(b as int) ==> addresses.ordered()
                && addresses.bounded_by(b as int),
            old(topics).ordered() && old(topics).bounded_by(b as int) ==> topics.ordered()
                && topics.bounded_by(b as int),
            forall|p: (Address, BlockNumber)|
                #[trigger] addresses.view().contains(p) <==> old(addresses).view().contains(p) || (
                p.1 == b && exists|j: int| 0 <= j < l && (#[trigger] rc.logs@[j]).address == p.0),
            forall|p: (H256, BlockNumber)|
                #[trigger] topics.view().contains(p) <==> old(topics).view().contains(p) || (p.1
                    == b && exists|j: int, k: int|
                    0 <= j < l && 0 <= k < rc.logs@[j].topics@.len() && (
                    #[trigger] rc.logs@[j].topics@[k]) == p.0),
        decreases rc.logs@.len() - l,
    {
        let ghost ta = topics.view();
        index_log(addresses, topics, &rc.logs[l], b);
        proof {
            assert forall|p: (H256, BlockNumber)|
                #[trigger] topics.view().contains(p) <==> old(topics).view().contains(p) || (p.1
                    == b && exists|j: int, k: int|
                    0 <= j < l + 1 && 0 <= k < rc.logs@[j].topics@.len() && (
                    #[trigger] rc.logs@[j].topics@[k]) == p.0) by {
                if p.1 == b && rc.logs@[l as int].topics@.contains(p.0) {
                    let k = choose|k: int|
                        0 <= k < rc.logs@[l as int].topics@.len() && rc.logs@[l as int].topics@[k]
                            == p.0;
                    assert(rc.logs@[l as int].topics@[k] == p.0);
                }
                if p.1 == b && exists|j: int, k: int|
                    0 <= j < l + 1 && 0 <= k < rc.logs@[j].topics@.len() && (
                    #[trigger] rc.logs@[j].topics@[k]) == p.0 {
                    let (j, k) = choose|j: int, k: int|
                        0 <= j < l + 1 && 0 <= k < rc.logs@[j].topics@.len() && (
                        #[trigger] rc.logs@[j].topics@[k]) == p.0;
                    if j == l {
                        assert(rc.logs@[l as int].topics@.contains(p.0));
                    }
                }
            }
            assert forall|p: (Address, BlockNumber)|
                #[trigger] addresses.view().contains(p) <==> old(addresses).view().contains(p) || (
                p.1 == b && exists|j: int| 0 <= j < l + 1 && (#[trigger] rc.logs@[j]).address
                    == p.0) by {
                if p == (rc.logs@[l as int].address, b) {
                    assert(rc.logs@[l as int].address == p.0);
                }
            }
        }
        l = l + 1;
    }
}

/// Adds the addresses and topics of every log of every receipt in `receipts` to
/// the indices, at block `b`.
fn index_block(
    addresses: &mut HistoryIndex<Address>,
    topics: &mut HistoryIndex<H256>,
    receipts: &Vec<Receipt>,
    b: BlockNumber,
)
    requires
        old(addresses).wf(),
        old(topics).wf(),
    ensures
        final(addresses).wf(),
        final(topics).wf(),
        forall|p: (Address, BlockNumber)|
            #[trigger] final(addresses).view().contains(p) <==> old(addresses).view().contains(p)
                || (p.1 == b && block_has_address(receipts@, p.0)),
        forall|p: (H256, BlockNumber)|
            #[trigger] final(topics).view().contains(p) <==> old(topics).view().contains(p) || (
            p.1 == b && block_has_topic(receipts@, p.0)),
        old(addresses).ordered() && old(addresses).bounded_by(b as int)
            ==> final(addresses).ordered() && final(addresses).bounded_by(b as int),
        old(topics).ordered() && old(topics).bounded_by(b as int) ==> final(topics).ordered()
            && final(topics).bounded_by(b as int),
{
    let mut r: usize = 0;
    while r < receipts.len()
        invariant
            addresses.wf(),
            topics.wf(),
            r <= receipts@.len(),
            old(addresses).ordered() && old(addresses).bounded_by(b as int) ==> addresses.ordered()
                && addresses.bounded_by(b as int),
            old(topics).ordered() && old(topics).bounded_by(b as int) ==> topics.ordered()
                && topics.bounded_by(b as int),
            forall|p: (Address, BlockNumber)|
                #[trigger] addresses.view().contains(p) <==> old(addresses).view().contains(p) || (
                p.1 == b && exists|j: int|
                    0 <= j < r && receipt_has_address(#[trigger] receipts@[j], p.0)),
            forall|p: (H256, BlockNumber)|
                #[trigger] topics.view().contains(p) <==> old(topics).view().contains(p) || (p.1
                    == b && exists|j: int|
                    0 <= j < r && receipt_has_topic(#[trigger] receipts@[j], p.0)),
        decreases receipts@.len() - r,
    {
        index_receipt(addresses, topics, &receipts[r], b);
        r = r + 1;
    }
}

} // verus!
