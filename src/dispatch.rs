//! Turning chain notifications into ordered insert and delete operations on
//! the diff store, and the store that applies them.

use vstd::prelude::*;
use crate::bundle::{has_inconsistent, record_of, EncodingError, StateDiff, words_equal};
use crate::model::{AccountDiffView, B256, DbStateDiff};

verus! {

/// A block of a chain segment, with its execution outcome where one was recorded.
#[derive(Clone, Debug, PartialEq, Eq)]
pub struct ChainBlock {
    pub number: u64,
    pub hash: B256,
    pub outcome: Option<StateDiff>,
}

/// An ordered chain segment, lowest block first.
#[derive(Clone, Debug, PartialEq, Eq)]
pub struct Chain {
    pub blocks: Vec<ChainBlock>,
}

impl Chain {
    pub open spec fn wf(&self) -> bool {
        self.blocks@.len() > 0
    }

    pub open spec fn tip_spec(&self) -> u64 {
        self.blocks@.last().number
    }

    /// The height of the segment's last block.
    pub fn tip(&self) -> (r: u64)
        requires
            self.wf(),
        ensures
            r == self.tip_spec(),
    {
        self.blocks[self.blocks.len() - 1].number
    }
}

/// What the node reports about its canonical chain.
#[derive(Clone, Debug, PartialEq, Eq)]
pub enum ExExNotification {
    ChainCommitted { new: Chain },
    ChainReorged { old: Chain, new: Chain },
    ChainReverted { old: Chain },
}

impl ExExNotification {
    pub open spec fn wf(&self) -> bool {
        match self {
            ExExNotification::ChainCommitted { new } => new.wf(),
            ExExNotification::ChainReorged { old, new } => new.wf(),
            ExExNotification::ChainReverted { old } => true,
        }
    }
}

/// An operation on the diff store.
#[derive(Clone, Debug, PartialEq, Eq)]
pub enum StateDiffOp {
    /// Store the record of a block under its hash.
    Put(B256, DbStateDiff),
    /// Remove the record of a block.
    Del(B256),
}

pub enum OpView {
    Put(Seq<u8>, Seq<AccountDiffView>),
    Del(Seq<u8>),
}

impl View for StateDiffOp {
    type V = OpView;

    open spec fn view(&self) -> OpView {
        match self {
            StateDiffOp::Put(h, d) => OpView::Put(h@, d@),
            StateDiffOp::Del(h) => OpView::Del(h@),
        }
    }
}

pub open spec fn ops_view(s: Seq<StateDiffOp>) -> Seq<OpView> {
    s.map_values(|o: StateDiffOp| o@)
}

/// The block has an outcome that cannot become a record.
pub open spec fn block_inconsistent(b: ChainBlock) -> bool {
    match b.outcome {
        Some(sd) => has_inconsistent(sd@),
        None => false,
    }
}

/// Some block of the segment has an outcome that cannot become a record.
pub open spec fn chain_inconsistent(blocks: Seq<ChainBlock>) -> bool {
    exists|j: int| 0 <= j < blocks.len() && block_inconsistent(#[trigger] blocks[j])
}

/// One insert per block that has an outcome, in segment order.
pub open spec fn puts(blocks: Seq<ChainBlock>) -> Seq<OpView>
    decreases blocks.len(),
{
    if blocks.len() == 0 {
        Seq::empty()
    } else {
        let prev = puts(blocks.drop_last());
        match blocks.last().outcome {
            Some(sd) => prev.push(OpView::Put(blocks.last().hash@, record_of(sd@))),
            None => prev,
        }
    }
}

/// One delete per block, in segment order.
pub open spec fn dels(blocks: Seq<ChainBlock>) -> Seq<OpView> {
    Seq::new(blocks.len(), |j: int| OpView::Del(blocks[j].hash@))
}

/// The operations that a notification calls for.
pub open spec fn expected_ops(n: ExExNotification) -> Seq<OpView> {
    match n {
        ExExNotification::ChainCommitted { new } => puts(new.blocks@),
        ExExNotification::ChainReorged { old, new } => dels(old.blocks@) + puts(new.blocks@),
        ExExNotification::ChainReverted { old } => dels(old.blocks@),
    }
}

/// The finished height that a notification signals, if any.
pub open spec fn expected_height(n: ExExNotification) -> Option<u64> {
    match n {
        ExExNotification::ChainCommitted { new } => Some(new.tip_spec()),
        ExExNotification::ChainReorged { old, new } => Some(new.tip_spec()),
        ExExNotification::ChainReverted { old } => None,
    }
}

pub open spec fn notification_inconsistent(n: ExExNotification) -> bool {
    match n {
        ExExNotification::ChainCommitted { new } => chain_inconsistent(new.blocks@),
        ExExNotification::ChainReorged { old, new } => chain_inconsistent(new.blocks@),
        ExExNotification::ChainReverted { old } => false,
    }
}

/// The inserts for the blocks of a segment: one per block with a recorded
/// outcome, in ascending order; blocks without one are skipped.
pub fn extract_new_diffs(new: &Chain) -> (r: Result<Vec<StateDiffOp>, EncodingError>)
    ensures
        r is Err <==> chain_inconsistent(new.blocks@),
        r matches Ok(ops) ==> ops_view(ops@) == puts(new.blocks@),
{
    let ghost bs = new.blocks@;
    let mut ops: Vec<StateDiffOp> = Vec::new();
    let mut i: usize = 0;
    while i < new.blocks.len()
        invariant
            bs == new.blocks@,
            i <= bs.len(),
            forall|j: int| 0 <= j < i ==> !block_inconsistent(#[trigger] bs[j]),
            ops_view(ops@) == puts(bs.take(i as int)),
        decreases bs.len() - i,
    {
        let b = &new.blocks[i];
        assert(bs.take(i + 1).drop_last() =~= bs.take(i as int));
        assert(bs.take(i + 1).last() == bs[i as int]);
        match &b.outcome {
            Some(sd) => {
                match sd.to_db_state_diff() {
                    Ok(d) => {
                        let ghost before = ops_view(ops@);
                        let op = StateDiffOp::Put(b.hash, d);
                        ops.push(op);
                        assert(ops_view(ops@) =~= before.push(op@));
                    },
                    Err(e) => {
                        assert(block_inconsistent(bs[i as int]));
                        return Err(e);
                    },
                }
            },
            None => {},
        }
        i = i + 1;
    }
    assert(bs.take(bs.len() as int) =~= bs);
    Ok(ops)
}

/// The hashes of the blocks of a segment, in segment order.
pub fn extract_old_block_hashes(old: &Chain) -> (r: Vec<B256>)
    ensures
        r@.len() == old.blocks@.len(),
        forall|j: int| 0 <= j < r@.len() ==> #[trigger] r@[j] == old.blocks@[j].hash,
{
    let mut out: Vec<B256> = Vec::new();
    let mut i: usize = 0;
    while i < old.blocks.len()
        invariant
            i <= old.blocks@.len(),
            out@.len() == i,
            forall|j: int| 0 <= j < i ==> #[trigger] out@[j] == old.blocks@[j].hash,
        decreases old.blocks@.len() - i,
    {
        out.push(old.blocks[i].hash);
        i = i + 1;
    }
    out
}

fn delete_ops(old: &Chain) -> (r: Vec<StateDiffOp>)
    ensures
        ops_view(r@) == dels(old.blocks@),
{
    let hashes = extract_old_block_hashes(old);
    let mut ops: Vec<StateDiffOp> = Vec::new();
    let mut i: usize = 0;
    while i < hashes.len()
        invariant
            i <= hashes@.len(),
            hashes@.len() == old.blocks@.len(),
            forall|j: int| 0 <= j < hashes@.len() ==> #[trigger] hashes@[j] == old.blocks@[j].hash,
            ops_view(ops@) =~= dels(old.blocks@).take(i as int),
        decreases hashes@.len() - i,
    {
        let ghost before = ops_view(ops@);
        let op = StateDiffOp::Del(hashes[i]);
        ops.push(op);
        assert(ops_view(ops@) =~= before.push(op@));
        i = i + 1;
        assert(ops_view(ops@) =~= dels(old.blocks@).take(i as int));
    }
    ops
}

/// What to do for one notification: the operations to send, in order, the
/// block whose execution input to build, if any, and the finished height to
/// signal once all of that is done.
pub struct Dispatch {
    pub ops: Vec<StateDiffOp>,
    pub witness_block: Option<u64>,
    pub finished_height: Option<u64>,
}

/// The block whose execution input a notification calls for, when inputs
/// are wanted: the first block of a committed segment.
pub open spec fn expected_witness_block(n: ExExNotification, emit_witness: bool) -> Option<u64> {
    match n {
        ExExNotification::ChainCommitted { new } => if emit_witness {
            Some(new.blocks@[0].number)
        } else {
            None
        },
        _ => None,
    }
}

/// Decides the store operations and the finished-height signal of a
/// notification. A commit inserts the new blocks; a reorg deletes every old
/// block and then inserts the new ones; a revert deletes the old blocks and
/// signals nothing. With `emit_witness`, a commit also names the block whose
/// execution input to build. Fails when a new block's outcome cannot become
/// a record.
pub fn handle_notification(n: &ExExNotification, emit_witness: bool) -> (r: Result<Dispatch, EncodingError>)
    requires
        n.wf(),
    ensures
        r is Err <==> notification_inconsistent(*n),
        r matches Ok(d) ==> {
            &&& ops_view(d.ops@) == expected_ops(*n)
            &&& d.finished_height == expected_height(*n)
            &&& d.witness_block == expected_witness_block(*n, emit_witness)
        },
{
    match n {
        ExExNotification::ChainCommitted { new } => {
            let ops = extract_new_diffs(new)?;
            let witness_block = if emit_witness {
                Some(new.blocks[0].number)
            } else {
                None
            };
            Ok(Dispatch { ops, witness_block, finished_height: Some(new.tip()) })
        },
        ExExNotification::ChainReorged { old, new } => {
            let mut puts = extract_new_diffs(new)?;
            let mut ops = delete_ops(old);
            let ghost d = ops_view(ops@);
            let ghost p = ops_view(puts@);
            ops.append(&mut puts);
            assert(ops_view(ops@) =~= d + p);
            Ok(Dispatch { ops, witness_block: None, finished_height: Some(new.tip()) })
        },
        ExExNotification::ChainReverted { old } => {
            Ok(Dispatch { ops: delete_ops(old), witness_block: None, finished_height: None })
        },
    }
}

/// Every delete of a reorg comes before every insert: the first operations
/// delete the old blocks one by one, and all that follow are inserts.
pub proof fn lemma_reorg_deletes_precede_inserts(old: Chain, new: Chain)
    ensures
        ({
            let ops = expected_ops(ExExNotification::ChainReorged { old, new });
            &&& ops.len() == old.blocks@.len() + puts(new.blocks@).len()
            &&& forall|j: int| 0 <= j < old.blocks@.len() ==> #[trigger] ops[j] == OpView::Del(old.blocks@[j].hash@)
            &&& forall|j: int| old.blocks@.len() <= j < ops.len() ==> (#[trigger] ops[j]) is Put
        }),
{
    lemma_puts_are_inserts(new.blocks@);
    let ops = expected_ops(ExExNotification::ChainReorged { old, new });
    assert forall|j: int| old.blocks@.len() <= j < ops.len() implies (#[trigger] ops[j]) is Put by {
        assert(ops[j] == puts(new.blocks@)[j - old.blocks@.len()]);
    }
}

proof fn lemma_puts_are_inserts(blocks: Seq<ChainBlock>)
    ensures
        forall|j: int| 0 <= j < puts(blocks).len() ==> (#[trigger] puts(blocks)[j]) is Put,
    decreases blocks.len(),
{
    if blocks.len() > 0 {
        lemma_puts_are_inserts(blocks.drop_last());
    }
}

} // verus!
