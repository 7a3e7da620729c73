use vstd::prelude::*;
use crate::stage::{BlockNumber, BlockRange};

verus! {

/// A 160-bit account address, as its high 32 bits and low 128 bits.
#[derive(Clone, Copy, Debug, PartialEq, Eq, Structural)]
pub struct Address {
    pub high: u32,
    pub low: u128,
}

/// A 256-bit word (a log topic), as its high and low 128 bits.
#[derive(Clone, Copy, Debug, PartialEq, Eq, Structural)]
pub struct H256 {
    pub high: u128,
    pub low: u128,
}

/// A value that a history index can be keyed by.
pub trait IndexKey: Copy + Sized {
    /// Whether two keys are the same value.
    fn same_key(&self, other: &Self) -> (r: bool)
        ensures
            r == (*self == *other),
    ;
}

impl IndexKey for Address {
    fn same_key(&self, other: &Self) -> (r: bool) {
        *self == *other
    }
}

impl IndexKey for H256 {
    fn same_key(&self, other: &Self) -> (r: bool) {
        *self == *other
    }
}

/// Index from a value to the blocks in which it occurred.
///
/// Seen as the set of its `(value, block)` pairs; each pair is held once, and the
/// blocks of one value are held in the order in which they were inserted.
pub struct HistoryIndex<K> {
    entries: Vec<(K, BlockNumber)>,
}

impl<K: IndexKey> HistoryIndex<K> {
    /// The `(value, block)` pairs that the index holds.
    pub closed spec fn view(&self) -> Set<(K, BlockNumber)> {
        self.entries@.to_set()
    }

    /// Each pair is held once.
    pub closed spec fn wf(&self) -> bool {
        self.entries@.no_duplicates()
    }

    /// The blocks of each value are held in strictly ascending order.
    pub closed spec fn ordered(&self) -> bool {
        ascending(self.entries@)
    }

    /// Whether every block in the index is at most `c`.
    pub open spec fn bounded_by(&self, c: int) -> bool {
        forall|p: (K, BlockNumber)| #[trigger] self.view().contains(p) ==> p.1 <= c
    }

    /// An empty index.
    pub fn new() -> (r: Self)
        ensures
            r.wf(),
            r.ordered(),
            r.view() == Set::<(K, BlockNumber)>::empty(),
    {
        let r = HistoryIndex { entries: Vec::new() };
        assert(r.entries@.to_set() =~= Set::<(K, BlockNumber)>::empty());
        r
    }

    /// The number of `(value, block)` pairs held.
    pub fn len(&self) -> (r: usize)
        requires
            self.wf(),
        ensures
            r == self.view().len(),
    {
        proof {
            self.entries@.unique_seq_to_set();
        }
        self.entries.len()
    }

    /// Whether `key` is recorded as occurring in `block`.
    pub fn contains(&self, key: &K, block: BlockNumber) -> (r: bool)
        ensures
            r == self.view().contains((*key, block)),
    {
        let mut i: usize = 0;
        while i < self.entries.len()
            invariant
                i <= self.entries@.len(),
                forall|j: int| 0 <= j < i ==> self.entries@[j] != (*key, block),
            decreases self.entries@.len() - i,
        {
            let e = self.entries[i];
            if e.0.same_key(key) && e.1 == block {
                assert(self.entries@.contains((*key, block)));
                return true;
            }
            i = i + 1;
        }
        false
    }

    /// The blocks recorded for `key`; in ascending order when the index is ordered.
    pub fn blocks_of(&self, key: &K) -> (r: Vec<BlockNumber>)
        requires
            self.wf(),
        ensures
            forall|b: BlockNumber| r@.contains(b) <==> self.view().contains((*key, b)),
            self.ordered() ==> forall|i: int, j: int| 0 <= i < j < r@.len() ==> r@[i] < r@[j],
    {
        let mut r: Vec<BlockNumber> = Vec::new();
        let mut i: usize = 0;
        while i < self.entries.len()
            invariant
                i <= self.entries@.len(),
                forall|b: BlockNumber|
                    r@.contains(b) <==> exists|j: int|
                        0 <= j < i && #[trigger] self.entries@[j] == (*key, b),
                self.ordered() ==> forall|x: int, y: int| 0 <= x < y < r@.len() ==> r@[x] < r@[y],
                self.ordered() ==> forall|x: int|
                    0 <= x < r@.len() ==> recorded_before(self.entries@, i as int, *key, #[trigger] r@[x]),
            decreases self.entries@.len() - i,
        {
            let e = self.entries[i];
            if e.0.same_key(key) {
                let ghost prev = r@;
                r.push(e.1);
                proof {
                    if self.ordered() {
                        assert forall|x: int| 0 <= x < r@.len() implies recorded_before(
                            self.entries@, i + 1, *key, #[trigger] r@[x]) by {
                            if x < prev.len() {
                                assert(r@[x] == prev[x]);
                                assert(recorded_before(self.entries@, i as int, *key, prev[x]));
                            } else {
                                assert(self.entries@[i as int] == (*key, r@[x]));
                            }
                        }
                        assert forall|x: int, y: int| 0 <= x < y < r@.len() implies r@[x] < r@[y] by {
                            if y == prev.len() {
                                assert(r@[x] == prev[x]);
                                assert(recorded_before(self.entries@, i as int, *key, prev[x]));
                                let j = choose|j: int| 0 <= j < i && #[trigger] self.entries@[j] == (*key, prev[x]);
                                assert(self.entries@[j].0 == self.entries@[i as int].0);
                            } else {
                                assert(r@[x] == prev[x] && r@[y] == prev[y]);
                            }
                        }
                    }
                    assert forall|b: BlockNumber|
                        r@.contains(b) <==> exists|j: int|
                            0 <= j < i + 1 && #[trigger] self.entries@[j] == (*key, b) by {
                        assert(r@ == prev.push(e.1));
                        if b == e.1 {
                            assert(r@[r@.len() - 1] == b);
                            assert(self.entries@[i as int] == (*key, b));
                        } else {
                            if r@.contains(b) {
                                let k = choose|k: int| 0 <= k < r@.len() && r@[k] == b;
                                assert(prev[k] == b);
                                assert(prev.contains(b));
                            }
                            if prev.contains(b) {
                                let k = choose|k: int| 0 <= k < prev.len() && prev[k] == b;
                                assert(r@[k] == b);
                            }
                        }
                    }
                }
            }
            i = i + 1;
        }
        proof {
            assert forall|b: BlockNumber| r@.contains(b) <==> self.view().contains((*key, b)) by {
                if self.view().contains((*key, b)) {
                    let j = choose|j: int| 0 <= j < self.entries@.len() && self.entries@[j] == (*key, b);
                }
            }
        }
        r
    }

    /// Records that `key` occurred in `block`; a pair already held is not added again.
    pub fn insert(&mut self, key: K, block: BlockNumber)
        requires
            old(self).wf(),
        ensures
            final(self).wf(),
            final(self).view() == old(self).view().insert((key, block)),
            old(self).ordered() && (forall|p: (K, BlockNumber)|
                #[trigger] old(self).view().contains(p) && p.0 == key ==> p.1 <= block)
                ==> final(self).ordered(),
    {
        if !self.contains(&key, block) {
            self.entries.push((key, block));
            proof {
                let s = self.entries@;
                assert(s == old(self).entries@.push((key, block)));
                assert forall|p: (K, BlockNumber)| s.contains(p)
                    <==> old(self).entries@.contains(p) || p == (key, block) by {
                    if s.contains(p) && p != (key, block) {
                        let k = choose|k: int| 0 <= k < s.len() && s[k] == p;
                        assert(old(self).entries@[k] == p);
                    }
                    if old(self).entries@.contains(p) {
                        let k = choose|k: int| 0 <= k < old(self).entries@.len() && old(self).entries@[k] == p;
                        assert(s[k] == p);
                    }
                    if p == (key, block) {
                        assert(s[s.len() - 1] == p);
                    }
                }
                if old(self).ordered() && (forall|p: (K, BlockNumber)|
                    #[trigger] old(self).view().contains(p) && p.0 == key ==> p.1 <= block) {
                    assert forall|x: int, y: int|
                        0 <= x < y < s.len() && s[x].0 == s[y].0 implies s[x].1 < s[y].1 by {
                        if y == s.len() - 1 {
                            assert(old(self).entries@[x] == s[x]);
                            assert(old(self).view().contains(s[x]));
                            assert(s[x] != (key, block));
                        } else {
                            assert(old(self).entries@[x] == s[x] && old(self).entries@[y] == s[y]);
                        }
                    }
                }
            }
        }
        assert(self.entries@.to_set() =~= old(self).entries@.to_set().insert((key, block)));
    }

    /// Removes every pair whose block lies in `range`.
    pub fn remove_range(&mut self, range: BlockRange)
        requires
            old(self).wf(),
        ensures
            final(self).wf(),
            final(self).view() == old(self).view().filter(
                |p: (K, BlockNumber)| !range.has(p.1 as int),
            ),
            old(self).ordered() ==> final(self).ordered(),
    {
        let mut kept: Vec<(K, BlockNumber)> = Vec::new();
        let mut i: usize = 0;
        while i < self.entries.len()
            invariant
                i <= self.entries@.len(),
                self.entries@.no_duplicates(),
                kept@ == self.entries@.take(i as int).filter(
                    |p: (K, BlockNumber)| !range.has(p.1 as int),
                ),
            decreases self.entries@.len() - i,
        {
            let e = self.entries[i];
            proof {
                reveal(Seq::filter);
                assert(self.entries@.take(i + 1).drop_last() =~= self.entries@.take(i as int));
            }
            if e.1 < range.start || e.1 > range.end {
                kept.push(e);
            }
            i = i + 1;
        }
        assert(self.entries@.take(self.entries@.len() as int) =~= self.entries@);
        proof {
            let pred = |p: (K, BlockNumber)| !range.has(p.1 as int);
            lemma_filter_keeps_unique(self.entries@, pred);
            if ascending(self.entries@) {
                lemma_filter_keeps_ascending(self.entries@, pred);
            }
            assert(kept@.to_set() =~= self.entries@.to_set().filter(pred)) by {
                assert forall|p: (K, BlockNumber)| kept@.to_set().contains(p)
                    <==> self.entries@.to_set().filter(pred).contains(p) by {
                    if kept@.contains(p) {
                        self.entries@.lemma_filter_contains_rev(pred, p);
                        let j = choose|j: int| 0 <= j < kept@.len() && kept@[j] == p;
                        self.entries@.lemma_filter_pred(pred, j);
                    }
                    if self.entries@.contains(p) && pred(p) {
                        let j = choose|j: int| 0 <= j < self.entries@.len() && self.entries@[j] == p;
                        self.entries@.lemma_filter_contains(pred, j);
                    }
                }
            }
        }
        self.entries = kept;
    }
}

/// Whether `(key, b)` stands among the first `n` entries of `s`.
pub open spec fn recorded_before<K>(s: Seq<(K, BlockNumber)>, n: int, key: K, b: BlockNumber) -> bool {
    exists|j: int| 0 <= j < n && #[trigger] s[j] == (key, b)
}

/// Within `s`, the blocks of each value strictly ascend.
pub open spec fn ascending<K>(s: Seq<(K, BlockNumber)>) -> bool {
    forall|x: int, y: int| 0 <= x < y < s.len() && s[x].0 == s[y].0 ==> s[x].1 < s[y].1
}

proof fn lemma_filter_keeps_ascending<K>(s: Seq<(K, BlockNumber)>, pred: spec_fn((K, BlockNumber)) -> bool)
    requires
        ascending(s),
    ensures
        ascending(s.filter(pred)),
    decreases s.len(),
{
    reveal(Seq::filter);
    if s.len() > 0 {
        let init = s.drop_last();
        assert(ascending(init)) by {
            assert forall|x: int, y: int|
                0 <= x < y < init.len() && init[x].0 == init[y].0 implies init[x].1 < init[y].1 by {
                assert(init[x] == s[x] && init[y] == s[y]);
            }
        }
        lemma_filter_keeps_ascending(init, pred);
        let f = init.filter(pred);
        if pred(s.last()) {
            let g = s.filter(pred);
            assert(g == f.push(s.last()));
            assert forall|x: int, y: int|
                0 <= x < y < g.len() && g[x].0 == g[y].0 implies g[x].1 < g[y].1 by {
                if y == g.len() - 1 {
                    assert(g[x] == f[x]);
                    assert(f.contains(f[x]));
                    init.lemma_filter_contains_rev(pred, f[x]);
                    let k = choose|k: int| 0 <= k < init.len() && init[k] == f[x];
                    assert(s[k] == f[x]);
                    assert(s[s.len() - 1] == s.last());
                } else {
                    assert(g[x] == f[x] && g[y] == f[y]);
                }
            }
        } else {
            assert(s.filter(pred) == f);
        }
    }
}

proof fn lemma_filter_keeps_unique<T>(s: Seq<T>, pred: spec_fn(T) -> bool)
    requires
        s.no_duplicates(),
    ensures
        s.filter(pred).no_duplicates(),
    decreases s.len(),
{
    reveal(Seq::filter);
    if s.len() > 0 {
        let init = s.drop_last();
        assert(init.no_duplicates());
        lemma_filter_keeps_unique(init, pred);
        if pred(s.last()) {
            assert(!init.contains(s.last()));
            if init.filter(pred).contains(s.last()) {
                init.lemma_filter_contains_rev(pred, s.last());
            }
            assert(s.filter(pred) == init.filter(pred).push(s.last()));
        } else {
            assert(s.filter(pred) == init.filter(pred));
        }
    }
}

} // verus!
