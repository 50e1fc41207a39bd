//! Packaging one block's execution input for the proving host.

use vstd::prelude::*;
use crate::model::{Address, B256};
use crate::witness::{
    proofs_to_tries, proofs_valid, witness_parts_of, AccountProof, ProofMismatchError, StorageWitness, Witness,
};

verus! {

/// The header fields of the block that re-execution needs.
#[derive(Clone, Debug, PartialEq, Eq)]
pub struct HeaderFields {
    pub beneficiary: Address,
    pub gas_limit: u64,
    pub timestamp: u64,
    pub extra_data: Vec<u8>,
    pub mix_hash: B256,
}

/// The header of an earlier block, as far as replay consults it.
#[derive(Clone, Copy, Debug, PartialEq, Eq)]
pub struct AncestorHeader {
    pub number: u64,
    pub hash: B256,
    pub state_root: B256,
}

/// A withdrawal of the block.
#[derive(Clone, Copy, Debug, PartialEq, Eq)]
pub struct Withdrawal {
    pub index: u64,
    pub validator_index: u64,
    pub address: Address,
    pub amount: u64,
}

/// A block as the node returns it.
#[derive(Clone, Debug, PartialEq, Eq)]
pub struct BlockData {
    pub number: u64,
    pub header: HeaderFields,
    pub state_root: B256,
    /// Transactions in unsigned-hash form, encoded.
    pub transactions: Vec<Vec<u8>>,
    pub withdrawals: Vec<Withdrawal>,
}

/// Everything the proving host needs to re-execute one block.
#[derive(Clone, Debug, PartialEq, Eq)]
pub struct ExecutionInput {
    pub beneficiary: Address,
    pub gas_limit: u64,
    pub timestamp: u64,
    pub extra_data: Vec<u8>,
    pub mix_hash: B256,
    pub transactions: Vec<Vec<u8>>,
    pub withdrawals: Vec<Withdrawal>,
    pub parent_state_trie: Vec<Vec<u8>>,
    pub parent_storage: Vec<StorageWitness>,
    pub parent_header: AncestorHeader,
    pub ancestor_headers: Vec<AncestorHeader>,
}

/// A block-hash lookup reaches a block whose header was not supplied.
#[derive(Clone, Copy, Debug, PartialEq, Eq, Structural)]
pub struct MissingAncestorError;

/// Why an execution input could not be built.
#[derive(Clone, Copy, Debug, PartialEq, Eq, Structural)]
pub enum InputError {
    ProofMismatch,
    MissingAncestor,
}

/// The header of block `n` is at hand: the parent's or one of the ancestors'.
pub open spec fn covered(parent: AncestorHeader, ancestors: Seq<AncestorHeader>, n: u64) -> bool {
    parent.number == n || exists|j: int| 0 <= j < ancestors.len() && (#[trigger] ancestors[j]).number == n
}

pub open spec fn all_covered(parent: AncestorHeader, ancestors: Seq<AncestorHeader>, lookups: Seq<u64>) -> bool {
    forall|k: int| 0 <= k < lookups.len() ==> covered(parent, ancestors, #[trigger] lookups[k])
}

/// Replay walks back from the parent to the oldest block it looks up: an
/// ancestor is needed when some lookup is at or below its height.
pub open spec fn needed(lookups: Seq<u64>, number: u64) -> bool {
    exists|k: int| 0 <= k < lookups.len() && #[trigger] lookups[k] <= number
}

pub open spec fn window(ancestors: Seq<AncestorHeader>, lookups: Seq<u64>) -> Seq<AncestorHeader> {
    ancestors.filter(|h: AncestorHeader| needed(lookups, h.number))
}

fn is_covered(parent: &AncestorHeader, ancestors: &Vec<AncestorHeader>, n: u64) -> (r: bool)
    ensures
        r == covered(*parent, ancestors@, n),
{
    if parent.number == n {
        return true;
    }
    let mut j: usize = 0;
    while j < ancestors.len()
        invariant
            j <= ancestors@.len(),
            forall|i: int| 0 <= i < j ==> (#[trigger] ancestors@[i]).number != n,
        decreases ancestors@.len() - j,
    {
        if ancestors[j].number == n {
            return true;
        }
        j = j + 1;
    }
    false
}

fn is_needed(lookups: &Vec<u64>, number: u64) -> (r: bool)
    ensures
        r == needed(lookups@, number),
{
    let mut k: usize = 0;
    while k < lookups.len()
        invariant
            k <= lookups@.len(),
            forall|i: int| 0 <= i < k ==> (#[trigger] lookups@[i]) > number,
        decreases lookups@.len() - k,
    {
        if lookups[k] <= number {
            return true;
        }
        k = k + 1;
    }
    false
}

/// Assembles the execution input of a block from its fields, its witness and
/// the headers before it. `lookups` are the block numbers whose hashes replay
/// reads; each must be the parent's or a supplied ancestor's, else the input
/// cannot be built. Only the ancestors that replay reaches are kept.
pub fn package_input(
    header: HeaderFields,
    transactions: Vec<Vec<u8>>,
    withdrawals: Vec<Withdrawal>,
    witness: Witness,
    parent: AncestorHeader,
    ancestors: &Vec<AncestorHeader>,
    lookups: &Vec<u64>,
) -> (r: Result<ExecutionInput, MissingAncestorError>)
    ensures
        r is Err <==> !all_covered(parent, ancestors@, lookups@),
        r matches Ok(inp) ==> {
            &&& inp.beneficiary == header.beneficiary
            &&& inp.gas_limit == header.gas_limit
            &&& inp.timestamp == header.timestamp
            &&& inp.extra_data@ == header.extra_data@
            &&& inp.mix_hash == header.mix_hash
            &&& inp.transactions@ == transactions@
            &&& inp.withdrawals@ == withdrawals@
            &&& inp.parent_state_trie@ == witness.state_trie@
            &&& inp.parent_storage@ == witness.storage@
            &&& inp.parent_header == parent
            &&& inp.ancestor_headers@ == window(ancestors@, lookups@)
        },
{
    let mut k: usize = 0;
    while k < lookups.len()
        invariant
            k <= lookups@.len(),
            forall|i: int| 0 <= i < k ==> covered(parent, ancestors@, #[trigger] lookups@[i]),
        decreases lookups@.len() - k,
    {
        if !is_covered(&parent, ancestors, lookups[k]) {
            return Err(MissingAncestorError);
        }
        k = k + 1;
    }
    let ghost a = ancestors@;
    let mut kept: Vec<AncestorHeader> = Vec::new();
    let mut j: usize = 0;
    while j < ancestors.len()
        invariant
            j <= a.len(),
            a == ancestors@,
            kept@ == window(a.take(j as int), lookups@),
        decreases a.len() - j,
    {
        let h = ancestors[j];
        assert(a.take(j + 1) =~= a.take(j as int).push(h));
        proof {
            a.take(j as int).lemma_filter_push(h, |x: AncestorHeader| needed(lookups@, x.number));
        }
        if is_needed(lookups, h.number) {
            kept.push(h);
        }
        j = j + 1;
    }
    assert(a.take(a.len() as int) =~= a);
    Ok(ExecutionInput {
        beneficiary: header.beneficiary,
        gas_limit: header.gas_limit,
        timestamp: header.timestamp,
        extra_data: header.extra_data,
        mix_hash: header.mix_hash,
        transactions,
        withdrawals,
        parent_state_trie: witness.state_trie,
        parent_storage: witness.storage,
        parent_header: parent,
        ancestor_headers: kept,
    })
}

/// Builds the execution input of `block` on top of `parent`: the witness
/// merges the proofs of the touched accounts against the parent's state root
/// (`pre`) and the block's own (`post`), then the input is packaged.
pub fn extract_zkvm_input(
    block: BlockData,
    parent: AncestorHeader,
    pre: &Vec<AccountProof>,
    post: &Vec<AccountProof>,
    ancestors: &Vec<AncestorHeader>,
    lookups: &Vec<u64>,
) -> (r: Result<ExecutionInput, InputError>)
    ensures
        r == Err::<ExecutionInput, InputError>(InputError::ProofMismatch) <==> !proofs_valid(
            parent.state_root@,
            block.state_root@,
            pre@,
            post@,
        ),
        r == Err::<ExecutionInput, InputError>(InputError::MissingAncestor) <==> proofs_valid(
            parent.state_root@,
            block.state_root@,
            pre@,
            post@,
        ) && !all_covered(parent, ancestors@, lookups@),
        r matches Ok(inp) ==> {
            &&& witness_parts_of(
                inp.parent_state_trie@,
                inp.parent_storage@,
                parent.state_root@,
                pre@,
                post@,
            )
            &&& inp.beneficiary == block.header.beneficiary
            &&& inp.gas_limit == block.header.gas_limit
            &&& inp.timestamp == block.header.timestamp
            &&& inp.extra_data@ == block.header.extra_data@
            &&& inp.mix_hash == block.header.mix_hash
            &&& inp.transactions@ == block.transactions@
            &&& inp.withdrawals@ == block.withdrawals@
            &&& inp.parent_header == parent
            &&& inp.ancestor_headers@ == window(ancestors@, lookups@)
        },
{
    let witness = match proofs_to_tries(&parent.state_root, &block.state_root, pre, post) {
        Ok(w) => w,
        Err(_) => return Err(InputError::ProofMismatch),
    };
    match package_input(block.header, block.transactions, block.withdrawals, witness, parent, ancestors, lookups) {
        Ok(inp) => Ok(inp),
        Err(_) => Err(InputError::MissingAncestor),
    }
}

} // verus!
