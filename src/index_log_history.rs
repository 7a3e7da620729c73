use vstd::prelude::*;
use crate::history::{Address, H256};
use crate::logs::{
    address_occurrences, block_has_address, block_has_topic, topic_occurrences, LogHistoryProvider,
};
use crate::stage::{
    BlockNumber, BlockRange, ExecInput, ExecOutput, StageCheckpoint, StageId, UnwindInput,
    UnwindOutput,
};

verus! {

/// The largest number of blocks that one `execute` call processes by default.
pub const DEFAULT_COMMIT_THRESHOLD: u64 = 100_000;

/// Why a stage could not run.
#[derive(Clone, Copy, Debug, PartialEq, Eq, Structural)]
pub enum StageError {
    /// The receipts of this block are not available.
    MissingBlock(BlockNumber),
}

/// The log indexing stage.
///
/// Walks over the receipts of a block range and records, for each log address
/// and each log topic, the blocks in which it occurred.
#[derive(Clone, Copy, Debug)]
pub struct IndexLogHistoryStage {
    commit_threshold: u64,
}

impl Default for IndexLogHistoryStage {
    /// A stage with the default commit threshold.
    fn default() -> (r: Self)
        ensures
            r.threshold() == DEFAULT_COMMIT_THRESHOLD,
    {
        IndexLogHistoryStage { commit_threshold: DEFAULT_COMMIT_THRESHOLD }
    }
}

impl IndexLogHistoryStage {
    /// The largest number of blocks processed per call.
    pub closed spec fn threshold(&self) -> u64 {
        self.commit_threshold
    }

    /// A stage that processes at most `commit_threshold` blocks per call.
    pub fn with_commit_threshold(commit_threshold: u64) -> (r: Self)
        ensures
            r.threshold() == commit_threshold,
    {
        IndexLogHistoryStage { commit_threshold }
    }

    /// The id of the stage.
    pub fn id(&self) -> (r: StageId)
        ensures
            r == StageId::IndexLogHistory,
    {
        StageId::IndexLogHistory
    }

    /// Executes the next chunk `[checkpoint + 1, min(checkpoint + threshold, target)]`:
    /// every address and topic of the logs of those blocks is added to the indices.
    ///
    /// Nothing is done when the target is already reached, nor when the receipts
    /// of the chunk's last block are missing.
    pub fn execute(&mut self, provider: &mut LogHistoryProvider, input: ExecInput) -> (r: Result<
        ExecOutput,
        StageError,
    >)
        requires
            old(provider).wf(),
        ensures
            *final(self) == *old(self),
            final(provider).wf(),
            final(provider).blocks() == old(provider).blocks(),
            input.reached() ==> *final(provider) == *old(provider) && r == Ok::<
                ExecOutput,
                StageError,
            >(
                (ExecOutput {
                    checkpoint: StageCheckpoint { block_number: input.checkpoint_block() },
                    done: true,
                }),
            ),
            !input.reached() ==> {
                let end = input.chunk_end(old(self).threshold());
                let range = BlockRange { start: (input.checkpoint_block() + 1) as u64, end };
                if end >= old(provider).blocks().len() {
                    *final(provider) == *old(provider) && r == Err::<ExecOutput, StageError>(
                        StageError::MissingBlock(end),
                    )
                } else {
                    &&& r == Ok::<ExecOutput, StageError>(
                        (ExecOutput {
                            checkpoint: StageCheckpoint { block_number: end },
                            done: end == input.target_block(),
                        }),
                    )
                    &&& final(provider).addresses() == old(provider).addresses().union(
                        address_occurrences(old(provider).blocks(), range),
                    )
                    &&& final(provider).topics() == old(provider).topics().union(
                        topic_occurrences(old(provider).blocks(), range),
                    )
                }
            },
            old(provider).bounded_by(input.checkpoint_block() as int) ==> match r {
                Ok(out) => final(provider).bounded_by(out.checkpoint.block_number as int),
                Err(_) => final(provider).bounded_by(input.checkpoint_block() as int),
            },
            old(provider).ordered() && old(provider).bounded_by(input.checkpoint_block() as int)
                ==> final(provider).ordered(),
            r is Ok ==> execute_step(
                old(self).threshold(),
                input,
                *old(provider),
                *final(provider),
                r->Ok_0,
            ),
    {
        if input.target_reached() {
            return Ok(ExecOutput::done(input.checkpoint()));
        }
        let (range, is_final_range) = input.next_block_range_with_threshold(self.commit_threshold);
        if range.end >= provider.block_count() as u64 {
            return Err(StageError::MissingBlock(range.end));
        }
        provider.insert_log_history_range(range);
        Ok(ExecOutput { checkpoint: StageCheckpoint::new(range.end), done: is_final_range })
    }

    /// Unwinds the next chunk, from `max(unwind_to + 1, checkpoint - threshold)` up to
    /// the checkpoint: every index entry of those blocks is removed.
    pub fn unwind(&mut self, provider: &mut LogHistoryProvider, input: UnwindInput) -> (r: Result<
        UnwindOutput,
        StageError,
    >)
        requires
            old(provider).wf(),
            input.unwind_to < u64::MAX,
        ensures
            *final(self) == *old(self),
            final(provider).wf(),
            final(provider).blocks() == old(provider).blocks(),
            ({
                let range = BlockRange {
                    start: input.chunk_start(old(self).threshold()) as u64,
                    end: input.checkpoint.block_number,
                };
                &&& r == Ok::<UnwindOutput, StageError>(
                    (UnwindOutput {
                        checkpoint: StageCheckpoint {
                            block_number: (input.chunk_start(old(self).threshold()) - 1) as u64,
                        },
                    }),
                )
                &&& final(provider).addresses() == old(provider).addresses().filter(
                    |p: (Address, BlockNumber)| !range.has(p.1 as int),
                )
                &&& final(provider).topics() == old(provider).topics().filter(
                    |p: (H256, BlockNumber)| !range.has(p.1 as int),
                )
            }),
            old(provider).bounded_by(input.checkpoint.block_number as int)
                ==> final(provider).bounded_by(input.chunk_start(old(self).threshold()) - 1),
            old(provider).ordered() ==> final(provider).ordered(),
            r is Ok ==> unwind_step(
                old(self).threshold(),
                input,
                *old(provider),
                *final(provider),
                r->Ok_0,
            ),
    {
        let (range, unwind_progress, _) = input.unwind_block_range_with_threshold(
            self.commit_threshold,
        );
        provider.unwind_log_history_indices(range);
        Ok(UnwindOutput { checkpoint: StageCheckpoint::new(unwind_progress) })
    }
}

/// Whether `a` and `b` hold the same receipts and the same index entries.
pub open spec fn same_state(a: LogHistoryProvider, b: LogHistoryProvider) -> bool {
    &&& a.blocks() == b.blocks()
    &&& a.addresses() == b.addresses()
    &&& a.topics() == b.topics()
}

/// What one successful `execute` call of a stage with threshold `t` on `input` does:
/// it takes the provider from `before` to `after` and returns `out`.
pub open spec fn execute_step(
    t: u64,
    input: ExecInput,
    before: LogHistoryProvider,
    after: LogHistoryProvider,
    out: ExecOutput,
) -> bool {
    if input.reached() {
        &&& after == before
        &&& out == (ExecOutput {
            checkpoint: StageCheckpoint { block_number: input.checkpoint_block() },
            done: true,
        })
    } else {
        let end = input.chunk_end(t);
        let range = BlockRange { start: (input.checkpoint_block() + 1) as u64, end };
        &&& end < before.blocks().len()
        &&& out == (ExecOutput {
            checkpoint: StageCheckpoint { block_number: end },
            done: end == input.target_block(),
        })
        &&& after.blocks() == before.blocks()
        &&& after.addresses() == before.addresses().union(
            address_occurrences(before.blocks(), range),
        )
        &&& after.topics() == before.topics().union(topic_occurrences(before.blocks(), range))
    }
}

/// What one successful `unwind` call of a stage with threshold `t` on `input` does.
pub open spec fn unwind_step(
    t: u64,
    input: UnwindInput,
    before: LogHistoryProvider,
    after: LogHistoryProvider,
    out: UnwindOutput,
) -> bool {
    let range = BlockRange {
        start: input.chunk_start(t) as u64,
        end: input.checkpoint.block_number,
    };
    &&& out == (UnwindOutput {
        checkpoint: StageCheckpoint { block_number: (input.chunk_start(t) - 1) as u64 },
    })
    &&& after.blocks() == before.blocks()
    &&& after.addresses() == before.addresses().filter(
        |p: (Address, BlockNumber)| !range.has(p.1 as int),
    )
    &&& after.topics() == before.topics().filter(|p: (H256, BlockNumber)| !range.has(p.1 as int))
}

/// The `(address, block)` pairs of the logs of blocks `lo < b <= hi`.
pub open spec fn addresses_between(blocks: Seq<Vec<crate::logs::Receipt>>, lo: int, hi: int) -> Set<
    (Address, BlockNumber),
> {
    Set::new(
        |p: (Address, BlockNumber)|
            lo < p.1 <= hi && p.1 < blocks.len() && block_has_address(blocks[p.1 as int]@, p.0),
    )
}

/// The `(topic, block)` pairs of the logs of blocks `lo < b <= hi`.
pub open spec fn topics_between(blocks: Seq<Vec<crate::logs::Receipt>>, lo: int, hi: int) -> Set<
    (H256, BlockNumber),
> {
    Set::new(
        |p: (H256, BlockNumber)|
            lo < p.1 <= hi && p.1 < blocks.len() && block_has_topic(blocks[p.1 as int]@, p.0),
    )
}

/// Whether `s` is `base` with the logs of blocks `c0 < b <= c` indexed on top.
pub open spec fn indexed_over(
    s: LogHistoryProvider,
    base: LogHistoryProvider,
    c0: int,
    c: int,
) -> bool {
    &&& s.blocks() == base.blocks()
    &&& s.addresses() == base.addresses().union(addresses_between(base.blocks(), c0, c))
    &&& s.topics() == base.topics().union(topics_between(base.blocks(), c0, c))
}

/// A successful `execute` call from checkpoint `c` on a state indexed over
/// `(c0, c]` leaves a state indexed over `(c0, out]`, `out >= c`.
proof fn lemma_execute_extends(
    t: u64,
    input: ExecInput,
    base: LogHistoryProvider,
    c0: int,
    before: LogHistoryProvider,
    after: LogHistoryProvider,
    out: ExecOutput,
)
    requires
        c0 <= input.checkpoint_block(),
        indexed_over(before, base, c0, input.checkpoint_block() as int),
        execute_step(t, input, before, after, out),
    ensures
        input.checkpoint_block() <= out.checkpoint.block_number,
        indexed_over(after, base, c0, out.checkpoint.block_number as int),
{
    if !input.reached() {
        let cp = input.checkpoint_block();
        let end = input.chunk_end(t);
        let range = BlockRange { start: (cp + 1) as u64, end };
        assert(after.addresses() =~= base.addresses().union(
            addresses_between(base.blocks(), c0, end as int),
        ));
        assert(after.topics() =~= base.topics().union(topics_between(base.blocks(), c0, end as int)));
    }
}

/// A successful `unwind` call back to `c0` from checkpoint `c`, on a state indexed
/// over `(c0, c]` above a base with no block past `c0`, leaves a state indexed over
/// `(c0, out]`, `c0 <= out`.
proof fn lemma_unwind_shrinks(
    t: u64,
    input: UnwindInput,
    base: LogHistoryProvider,
    before: LogHistoryProvider,
    after: LogHistoryProvider,
    out: UnwindOutput,
)
    requires
        base.bounded_by(input.unwind_to as int),
        input.unwind_to < u64::MAX,
        indexed_over(before, base, input.unwind_to as int, input.checkpoint.block_number as int),
        unwind_step(t, input, before, after, out),
    ensures
        input.unwind_to <= out.checkpoint.block_number,
        indexed_over(after, base, input.unwind_to as int, out.checkpoint.block_number as int),
{
    let c0 = input.unwind_to as int;
    let s = input.chunk_start(t);
    assert(after.addresses() =~= base.addresses().union(addresses_between(base.blocks(), c0, s - 1)));
    assert(after.topics() =~= base.topics().union(topics_between(base.blocks(), c0, s - 1)));
}

/// No entry of either index lies past the checkpoint reached: from a state whose
/// indices hold no block past the first input checkpoint, a run of successful
/// `execute` calls of one stage, each resuming from the checkpoint the previous
/// one returned, ends with every indexed block at most the last checkpoint.
pub proof fn lemma_executes_bounded_by_checkpoint(
    t: u64,
    inputs: Seq<ExecInput>,
    states: Seq<LogHistoryProvider>,
    outs: Seq<ExecOutput>,
)
    requires
        inputs.len() > 0,
        states.len() == inputs.len() + 1,
        outs.len() == inputs.len(),
        states[0].bounded_by(inputs[0].checkpoint_block() as int),
        forall|i: int|
            0 <= i < inputs.len() ==> execute_step(t, #[trigger] inputs[i], states[i], states[i + 1], outs[i]),
        forall|i: int|
            0 < i < inputs.len() ==> (#[trigger] inputs[i]).checkpoint_block()
                == outs[i - 1].checkpoint.block_number,
    ensures
        states[inputs.len() as int].bounded_by(outs[inputs.len() - 1].checkpoint.block_number as int),
{
    let c0 = inputs[0].checkpoint_block() as int;
    lemma_executes_index_range(t, inputs, states, outs, inputs.len() as int);
    let n = inputs.len() as int;
    let c = outs[n - 1].checkpoint.block_number as int;
    assert(indexed_over(states[n], states[0], c0, c));
}

/// After the first `n` calls of such a run, the state is the first one with the
/// logs of blocks `(c0, c]` indexed, `c` the checkpoint reached and `c0 <= c`.
proof fn lemma_executes_index_range(
    t: u64,
    inputs: Seq<ExecInput>,
    states: Seq<LogHistoryProvider>,
    outs: Seq<ExecOutput>,
    n: int,
)
    requires
        0 < n <= inputs.len(),
        states.len() == inputs.len() + 1,
        outs.len() == inputs.len(),
        forall|i: int|
            0 <= i < inputs.len() ==> execute_step(t, #[trigger] inputs[i], states[i], states[i + 1], outs[i]),
        forall|i: int|
            0 < i < inputs.len() ==> (#[trigger] inputs[i]).checkpoint_block()
                == outs[i - 1].checkpoint.block_number,
    ensures
        inputs[0].checkpoint_block() <= outs[n - 1].checkpoint.block_number,
        indexed_over(
            states[n],
            states[0],
            inputs[0].checkpoint_block() as int,
            outs[n - 1].checkpoint.block_number as int,
        ),
    decreases n,
{
    let c0 = inputs[0].checkpoint_block() as int;
    if n == 1 {
        assert(states[0].addresses().union(addresses_between(states[0].blocks(), c0, c0))
            =~= states[0].addresses());
        assert(states[0].topics().union(topics_between(states[0].blocks(), c0, c0))
            =~= states[0].topics());
        lemma_execute_extends(t, inputs[0], states[0], c0, states[0], states[1], outs[0]);
    } else {
        lemma_executes_index_range(t, inputs, states, outs, n - 1);
        assert(inputs[n - 1].checkpoint_block() == outs[n - 2].checkpoint.block_number);
        assert(execute_step(t, inputs[n - 1], states[n - 1], states[n], outs[n - 1]));
        lemma_execute_extends(t, inputs[n - 1], states[0], c0, states[n - 1], states[n], outs[n - 1]);
    }
}

/// After the first `m` calls of a run of successful `unwind` calls back to `c0`,
/// each resuming from the checkpoint the previous one returned, the state is the
/// base with the logs of blocks `(c0, c]` indexed, `c` the checkpoint reached.
proof fn lemma_unwinds_index_range(
    t: u64,
    unwinds: Seq<UnwindInput>,
    states: Seq<LogHistoryProvider>,
    outs: Seq<UnwindOutput>,
    base: LogHistoryProvider,
    c0: u64,
    m: int,
)
    requires
        0 < m <= unwinds.len(),
        c0 < u64::MAX,
        base.bounded_by(c0 as int),
        states.len() == unwinds.len() + 1,
        outs.len() == unwinds.len(),
        indexed_over(states[0], base, c0 as int, unwinds[0].checkpoint.block_number as int),
        forall|j: int| 0 <= j < unwinds.len() ==> (#[trigger] unwinds[j]).unwind_to == c0,
        forall|j: int|
            0 <= j < unwinds.len() ==> unwind_step(t, #[trigger] unwinds[j], states[j], states[j + 1], outs[j]),
        forall|j: int|
            0 < j < unwinds.len() ==> (#[trigger] unwinds[j]).checkpoint == outs[j - 1].checkpoint,
    ensures
        indexed_over(states[m], base, c0 as int, outs[m - 1].checkpoint.block_number as int),
    decreases m,
{
    if m == 1 {
        lemma_unwind_shrinks(t, unwinds[0], base, states[0], states[1], outs[0]);
    } else {
        lemma_unwinds_index_range(t, unwinds, states, outs, base, c0, m - 1);
        assert(unwinds[m - 1].checkpoint == outs[m - 2].checkpoint);
        assert(unwind_step(t, unwinds[m - 1], states[m - 1], states[m], outs[m - 1]));
        lemma_unwind_shrinks(t, unwinds[m - 1], base, states[m - 1], states[m], outs[m - 1]);
    }
}

/// Unwinding is the inverse of executing: from a state whose indices hold no block
/// past checkpoint `c0`, a run of successful `execute` calls of one stage from `c0`
/// up to `c1`, then a run of successful `unwind` calls of that stage back to `c0`,
/// each call resuming from the checkpoint the previous one returned, leave the
/// indices exactly as they were, so that neither holds a block in `(c0, c1]`; and
/// executing the first input again returns the same output and rebuilds the same
/// indices as the first execution did.
pub proof fn lemma_unwinds_restore_indices(
    t: u64,
    inputs: Seq<ExecInput>,
    states: Seq<LogHistoryProvider>,
    outs: Seq<ExecOutput>,
    unwinds: Seq<UnwindInput>,
    ustates: Seq<LogHistoryProvider>,
    uouts: Seq<UnwindOutput>,
    again: LogHistoryProvider,
    again_out: ExecOutput,
)
    requires
        inputs.len() > 0,
        states.len() == inputs.len() + 1,
        outs.len() == inputs.len(),
        inputs[0].checkpoint_block() < u64::MAX,
        states[0].bounded_by(inputs[0].checkpoint_block() as int),
        forall|i: int|
            0 <= i < inputs.len() ==> execute_step(t, #[trigger] inputs[i], states[i], states[i + 1], outs[i]),
        forall|i: int|
            0 < i < inputs.len() ==> (#[trigger] inputs[i]).checkpoint_block()
                == outs[i - 1].checkpoint.block_number,
        unwinds.len() > 0,
        ustates.len() == unwinds.len() + 1,
        uouts.len() == unwinds.len(),
        ustates[0] == states[inputs.len() as int],
        unwinds[0].checkpoint == outs[inputs.len() - 1].checkpoint,
        forall|j: int|
            0 <= j < unwinds.len() ==> (#[trigger] unwinds[j]).unwind_to == inputs[0].checkpoint_block(),
        forall|j: int|
            0 <= j < unwinds.len() ==> unwind_step(t, #[trigger] unwinds[j], ustates[j], ustates[j + 1], uouts[j]),
        forall|j: int|
            0 < j < unwinds.len() ==> (#[trigger] unwinds[j]).checkpoint == uouts[j - 1].checkpoint,
        uouts[unwinds.len() - 1].checkpoint.block_number == inputs[0].checkpoint_block(),
        execute_step(t, inputs[0], ustates[unwinds.len() as int], again, again_out),
    ensures
        same_state(ustates[unwinds.len() as int], states[0]),
        forall|p: (Address, BlockNumber)|
            #[trigger] ustates[unwinds.len() as int].addresses().contains(p) ==> !(
            inputs[0].checkpoint_block() < p.1 <= outs[inputs.len() - 1].checkpoint.block_number),
        forall|p: (H256, BlockNumber)|
            #[trigger] ustates[unwinds.len() as int].topics().contains(p) ==> !(
            inputs[0].checkpoint_block() < p.1 <= outs[inputs.len() - 1].checkpoint.block_number),
        again_out == outs[0],
        same_state(again, states[1]),
{
    let c0 = inputs[0].checkpoint_block();
    let n = inputs.len() as int;
    let m = unwinds.len() as int;
    lemma_executes_index_range(t, inputs, states, outs, n);
    lemma_unwinds_index_range(t, unwinds, ustates, uouts, states[0], c0, m);
    let last = ustates[m];
    assert(last.addresses() =~= states[0].addresses());
    assert(last.topics() =~= states[0].topics());
    assert(execute_step(t, inputs[0], states[0], states[1], outs[0]));
}

/// Unwinding a chunk that `execute` has just processed, from a state whose index
/// entries all lie at or before the input checkpoint, removes exactly what the
/// execution added: one unwind call of a stage with the same threshold, back to
/// that checkpoint, covers the whole chunk, and both indices come back equal to
/// what they were before. Executing the chunk again then yields the same indices
/// as the first execution, since the result of `execute` depends only on them,
/// the receipts and the input.
pub proof fn lemma_unwind_inverts_execute(
    threshold: u64,
    input: ExecInput,
    bad_block: Option<BlockNumber>,
    before: LogHistoryProvider,
    executed: LogHistoryProvider,
    unwound: LogHistoryProvider,
)
    requires
        !input.reached(),
        input.chunk_end(threshold) < before.blocks().len(),
        before.bounded_by(input.checkpoint_block() as int),
        ({
            let range = BlockRange {
                start: (input.checkpoint_block() + 1) as u64,
                end: input.chunk_end(threshold),
            };
            &&& executed.addresses() == before.addresses().union(
                address_occurrences(before.blocks(), range),
            )
            &&& executed.topics() == before.topics().union(
                topic_occurrences(before.blocks(), range),
            )
        }),
        ({
            let back = UnwindInput {
                checkpoint: StageCheckpoint { block_number: input.chunk_end(threshold) },
                unwind_to: input.checkpoint_block(),
                bad_block,
            };
            let range = BlockRange {
                start: back.chunk_start(threshold) as u64,
                end: input.chunk_end(threshold),
            };
            &&& unwound.addresses() == executed.addresses().filter(
                |p: (Address, BlockNumber)| !range.has(p.1 as int),
            )
            &&& unwound.topics() == executed.topics().filter(
                |p: (H256, BlockNumber)| !range.has(p.1 as int),
            )
        }),
    ensures
        (UnwindInput {
            checkpoint: StageCheckpoint { block_number: input.chunk_end(threshold) },
            unwind_to: input.checkpoint_block(),
            bad_block,
        }).chunk_start(threshold) == input.checkpoint_block() + 1,
        unwound.addresses() == before.addresses(),
        unwound.topics() == before.topics(),
{
    let cp = input.checkpoint_block();
    let range = BlockRange { start: (cp + 1) as u64, end: input.chunk_end(threshold) };
    let back = UnwindInput {
        checkpoint: StageCheckpoint { block_number: input.chunk_end(threshold) },
        unwind_to: cp,
        bad_block,
    };
    assert(back.chunk_start(threshold) == cp + 1);
    assert(unwound.addresses() =~= before.addresses());
    assert(unwound.topics() =~= before.topics());
}

} // verus!
