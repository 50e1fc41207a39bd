//! Checking Merkle inclusion proofs and merging the pre-state and post-state
//! proofs of a block's touched accounts into one partial trie.
//!
//! A proof is the list of trie nodes on the path from the root down. It holds
//! against a root when the first node hashes to the root and each later node
//! is referenced, by its hash, from the node before it.

use vstd::prelude::*;
use crate::bundle::copy_bytes;
use crate::model::{Address, B256, U256};

verus! {

/// The Keccak-256 digest of a byte string.
pub uninterp spec fn keccak_of(b: Seq<u8>) -> Seq<u8>;

/// Relies on `revm::primitives::keccak256` (alloy-primitives): the
/// Keccak-256 digest of the bytes, 32 bytes long.
#[verifier::external_body]
fn keccak256(b: &[u8]) -> (r: B256)
    ensures
        r@ == keccak_of(b@),
{
    revm::primitives::keccak256(b).0
}

/// The root of an empty trie: the hash of the encoding of the empty string.
pub open spec fn empty_root() -> Seq<u8> {
    keccak_of(seq![0x80u8])
}

/// A proof of one storage slot under an account's storage root.
#[derive(Clone, Debug, PartialEq, Eq)]
pub struct StorageProof {
    pub key: U256,
    pub proof: Vec<Vec<u8>>,
}

/// A proof of one account under a state root, with proofs of some of its slots.
#[derive(Clone, Debug, PartialEq, Eq)]
pub struct AccountProof {
    pub address: Address,
    pub storage_hash: B256,
    pub account_proof: Vec<Vec<u8>>,
    pub storage_proof: Vec<StorageProof>,
}

pub open spec fn nodes_view(v: Seq<Vec<u8>>) -> Seq<Seq<u8>> {
    v.map_values(|n: Vec<u8>| n@)
}

/// `needle` occurs in `hay` at offset `k`.
pub open spec fn occurs_at(hay: Seq<u8>, needle: Seq<u8>, k: int) -> bool {
    0 <= k && k + needle.len() <= hay.len() && hay.subrange(k, k + needle.len()) == needle
}

/// `parent` holds the hash of `child`.
pub open spec fn references(parent: Seq<u8>, child: Seq<u8>) -> bool {
    exists|k: int| occurs_at(parent, keccak_of(child), k)
}

pub open spec fn linked(root: Seq<u8>, nodes: Seq<Seq<u8>>) -> bool {
    &&& keccak_of(nodes[0]) == root
    &&& forall|i: int| 1 <= i < nodes.len() ==> references(#[trigger] nodes[i - 1], nodes[i])
}

/// An account path is never empty: it holds at least the root node.
pub open spec fn account_path_ok(root: Seq<u8>, nodes: Seq<Seq<u8>>) -> bool {
    nodes.len() > 0 && linked(root, nodes)
}

/// A storage path is empty only under the empty root.
pub open spec fn storage_path_ok(root: Seq<u8>, nodes: Seq<Seq<u8>>) -> bool {
    if nodes.len() == 0 {
        root == empty_root()
    } else {
        linked(root, nodes)
    }
}

pub open spec fn account_proof_valid(root: Seq<u8>, p: AccountProof) -> bool {
    &&& account_path_ok(root, nodes_view(p.account_proof@))
    &&& forall|s: int| 0 <= s < p.storage_proof@.len() ==> storage_path_ok(
        p.storage_hash@,
        nodes_view((#[trigger] p.storage_proof@[s]).proof@),
    )
}

/// Both proof sets cover the same addresses in the same order, every
/// pre-state proof holds against `pre_root` and every post-state proof
/// against `post_root`.
pub open spec fn proofs_valid(
    pre_root: Seq<u8>,
    post_root: Seq<u8>,
    pre: Seq<AccountProof>,
    post: Seq<AccountProof>,
) -> bool {
    &&& pre.len() == post.len()
    &&& forall|i: int| 0 <= i < pre.len() ==> {
        &&& (#[trigger] pre[i]).address@ == post[i].address@
        &&& account_proof_valid(pre_root, pre[i])
        &&& account_proof_valid(post_root, post[i])
    }
}

/// `n` is a node of one of the account paths.
pub open spec fn in_account_paths(ps: Seq<AccountProof>, n: Seq<u8>) -> bool
    decreases ps.len(),
{
    ps.len() > 0 && (in_account_paths(ps.drop_last(), n) || nodes_view(ps.last().account_proof@).contains(n))
}

pub open spec fn in_storage_list(ss: Seq<StorageProof>, n: Seq<u8>) -> bool
    decreases ss.len(),
{
    ss.len() > 0 && (in_storage_list(ss.drop_last(), n) || nodes_view(ss.last().proof@).contains(n))
}

/// `n` is a node of one of the account's storage paths.
pub open spec fn in_storage_paths(p: AccountProof, n: Seq<u8>) -> bool {
    in_storage_list(p.storage_proof@, n)
}

/// The storage-trie nodes kept for one account.
#[derive(Clone, Debug, PartialEq, Eq)]
pub struct StorageWitness {
    pub address: Address,
    pub storage_root: B256,
    pub nodes: Vec<Vec<u8>>,
}

/// A partial state trie, root node first, and a partial storage trie per account.
#[derive(Clone, Debug, PartialEq, Eq)]
pub struct Witness {
    pub state_trie: Vec<Vec<u8>>,
    pub storage: Vec<StorageWitness>,
}

/// `w` holds each node of the proofs once and nothing else, the state trie
/// starting from the node that hashes to the pre-state root, and the storage
/// nodes of each account under that account.
pub open spec fn witness_of(w: Witness, pre_root: Seq<u8>, pre: Seq<AccountProof>, post: Seq<AccountProof>) -> bool {
    witness_parts_of(w.state_trie@, w.storage@, pre_root, pre, post)
}

pub open spec fn witness_parts_of(
    state_trie: Seq<Vec<u8>>,
    storage: Seq<StorageWitness>,
    pre_root: Seq<u8>,
    pre: Seq<AccountProof>,
    post: Seq<AccountProof>,
) -> bool {
    let st = nodes_view(state_trie);
    &&& st.no_duplicates()
    &&& forall|n: Seq<u8>| #[trigger] st.contains(n) <==> in_account_paths(pre, n) || in_account_paths(post, n)
    &&& pre.len() > 0 ==> st.len() > 0 && keccak_of(st[0]) == pre_root
    &&& storage.len() == pre.len()
    &&& forall|i: int| 0 <= i < pre.len() ==> {
        let sw = #[trigger] storage[i];
        let sn = nodes_view(sw.nodes@);
        &&& sw.address == pre[i].address
        &&& sw.storage_root == pre[i].storage_hash
        &&& sn.no_duplicates()
        &&& forall|n: Seq<u8>| #[trigger] sn.contains(n) <==> in_storage_paths(pre[i], n) || in_storage_paths(post[i], n)
    }
}

/// A proof that does not hold against its root, or proof sets that do not match.
#[derive(Clone, Copy, Debug, PartialEq, Eq, Structural)]
pub struct ProofMismatchError;

/// Whether two byte strings are equal.
pub fn bytes_equal(a: &[u8], b: &[u8]) -> (r: bool)
    ensures
        r == (a@ == b@),
{
    if a.len() != b.len() {
        return false;
    }
    let mut i: usize = 0;
    while i < a.len()
        invariant
            i <= a@.len(),
            a@.len() == b@.len(),
            forall|k: int| 0 <= k < i ==> a@[k] == b@[k],
        decreases a@.len() - i,
    {
        if a[i] != b[i] {
            return false;
        }
        i = i + 1;
    }
    assert(a@ =~= b@);
    true
}

fn occurs_at_exec(hay: &[u8], needle: &B256, k: usize) -> (r: bool)
    requires
        k + 32 <= hay.len(),
    ensures
        r == occurs_at(hay@, needle@, k as int),
{
    let mut i: usize = 0;
    while i < 32
        invariant
            i <= 32,
            k + 32 <= hay.len(),
            needle@.len() == 32,
            forall|j: int| 0 <= j < i ==> hay@[k + j] == needle@[j],
        decreases 32 - i,
    {
        if hay[k + i] != needle[i] {
            assert(hay@.subrange(k as int, k + 32)[i as int] != needle@[i as int]);
            return false;
        }
        i = i + 1;
    }
    assert(hay@.subrange(k as int, k + 32) =~= needle@);
    true
}

/// Whether `parent` holds the 32-byte hash `h` anywhere.
fn holds_hash(parent: &[u8], h: &B256) -> (r: bool)
    ensures
        r == exists|k: int| occurs_at(parent@, h@, k),
{
    if parent.len() < 32 {
        return false;
    }
    let last = parent.len() - 32;
    let mut k: usize = 0;
    while k <= last
        invariant
            last + 32 == parent.len(),
            h@.len() == 32,
            forall|j: int| 0 <= j < k ==> !occurs_at(parent@, h@, j),
        decreases last + 1 - k,
    {
        if occurs_at_exec(parent, h, k) {
            return true;
        }
        k = k + 1;
    }
    assert forall|j: int| !occurs_at(parent@, h@, j) by {
        if 0 <= j && j + 32 <= parent@.len() {
            assert(j < k);
        }
    }
    false
}

/// Whether `nodes` is linked from `root` down.
fn check_linked(root: &B256, nodes: &Vec<Vec<u8>>) -> (r: bool)
    requires
        nodes@.len() > 0,
    ensures
        r == linked(root@, nodes_view(nodes@)),
{
    let ghost nv = nodes_view(nodes@);
    let first = keccak256(nodes[0].as_slice());
    if !bytes_equal(first.as_slice(), root.as_slice()) {
        return false;
    }
    let mut i: usize = 1;
    while i < nodes.len()
        invariant
            1 <= i <= nodes@.len(),
            nv == nodes_view(nodes@),
            keccak_of(nv[0]) == root@,
            forall|j: int| 1 <= j < i ==> references(#[trigger] nv[j - 1], nv[j]),
        decreases nodes@.len() - i,
    {
        let h = keccak256(nodes[i].as_slice());
        if !holds_hash(nodes[i - 1].as_slice(), &h) {
            assert(!references(nv[i - 1], nv[i as int]));
            return false;
        }
        i = i + 1;
    }
    true
}

fn check_account_proof(root: &B256, p: &AccountProof) -> (r: bool)
    ensures
        r == account_proof_valid(root@, *p),
{
    if p.account_proof.len() == 0 || !check_linked(root, &p.account_proof) {
        return false;
    }
    let empty = keccak256(&[0x80u8]);
    assert([0x80u8]@ =~= seq![0x80u8]);
    let mut s: usize = 0;
    while s < p.storage_proof.len()
        invariant
            s <= p.storage_proof@.len(),
            empty@ == empty_root(),
            forall|t: int| 0 <= t < s ==> storage_path_ok(
                p.storage_hash@,
                nodes_view((#[trigger] p.storage_proof@[t]).proof@),
            ),
        decreases p.storage_proof@.len() - s,
    {
        let nodes = &p.storage_proof[s].proof;
        let ok = if nodes.len() == 0 {
            bytes_equal(p.storage_hash.as_slice(), empty.as_slice())
        } else {
            check_linked(&p.storage_hash, nodes)
        };
        if !ok {
            return false;
        }
        s = s + 1;
    }
    true
}

fn check_proofs(pre_root: &B256, post_root: &B256, pre: &Vec<AccountProof>, post: &Vec<AccountProof>) -> (r: bool)
    ensures
        r == proofs_valid(pre_root@, post_root@, pre@, post@),
{
    if pre.len() != post.len() {
        return false;
    }
    let mut i: usize = 0;
    while i < pre.len()
        invariant
            i <= pre@.len(),
            pre@.len() == post@.len(),
            forall|j: int| 0 <= j < i ==> {
                &&& (#[trigger] pre@[j]).address@ == post@[j].address@
                &&& account_proof_valid(pre_root@, pre@[j])
                &&& account_proof_valid(post_root@, post@[j])
            },
        decreases pre@.len() - i,
    {
        if !bytes_equal(pre[i].address.as_slice(), post[i].address.as_slice()) {
            return false;
        }
        let pre_ok = check_account_proof(pre_root, &pre[i]);
        let post_ok = check_account_proof(post_root, &post[i]);
        if !pre_ok || !post_ok {
            return false;
        }
        assert(pre@[i as int].address@ == post@[i as int].address@);
        assert(account_proof_valid(pre_root@, pre@[i as int]));
        assert(account_proof_valid(post_root@, post@[i as int]));
        assert forall|j: int| 0 <= j < i + 1 implies {
            &&& (#[trigger] pre@[j]).address@ == post@[j].address@
            &&& account_proof_valid(pre_root@, pre@[j])
            &&& account_proof_valid(post_root@, post@[j])
        } by {
            if j == i {
            }
        }
        i = i + 1;
    }
    true
}

/// Appends `node` unless `out` already holds it.
fn push_unique(out: &mut Vec<Vec<u8>>, node: &Vec<u8>)
    requires
        nodes_view(old(out)@).no_duplicates(),
    ensures
        nodes_view(final(out)@).no_duplicates(),
        forall|n: Seq<u8>| #[trigger] nodes_view(final(out)@).contains(n) <==> nodes_view(old(out)@).contains(n) || n == node@,
        final(out)@.len() > 0,
        old(out)@.len() > 0 ==> final(out)@[0]@ == old(out)@[0]@,
        old(out)@.len() == 0 ==> final(out)@[0]@ == node@,
{
    let ghost before = nodes_view(out@);
    assert(before.no_duplicates());
    let mut i: usize = 0;
    while i < out.len()
        invariant
            i <= out@.len(),
            before == nodes_view(out@),
            before.no_duplicates(),
            out@ == old(out)@,
            forall|k: int| 0 <= k < i ==> before[k] != node@,
        decreases out@.len() - i,
    {
        if bytes_equal(out[i].as_slice(), node.as_slice()) {
            assert(before[i as int] == node@);
            assert(nodes_view(out@) == before);
            assert(before.no_duplicates());
            return;
        }
        i = i + 1;
    }
    assert(!before.contains(node@));
    out.push(copy_bytes(node));
    assert(nodes_view(out@) =~= before.push(node@));
    assert forall|n: Seq<u8>| #[trigger] nodes_view(out@).contains(n) <==> before.contains(n) || n == node@ by {
        if nodes_view(out@).contains(n) {
            let k = choose|k: int| 0 <= k < nodes_view(out@).len() && nodes_view(out@)[k] == n;
            if k < before.len() {
                assert(before[k] == n);
            }
        }
        if before.contains(n) {
            let k = choose|k: int| 0 <= k < before.len() && before[k] == n;
            assert(nodes_view(out@)[k] == n);
        }
        if n == node@ {
            assert(nodes_view(out@)[before.len() as int] == n);
        }
    }
}

/// Appends each node of `nodes` that `out` does not hold yet.
fn add_nodes(out: &mut Vec<Vec<u8>>, nodes: &Vec<Vec<u8>>)
    requires
        nodes_view(old(out)@).no_duplicates(),
    ensures
        nodes_view(final(out)@).no_duplicates(),
        forall|n: Seq<u8>| #[trigger] nodes_view(final(out)@).contains(n) <==> nodes_view(old(out)@).contains(n)
            || nodes_view(nodes@).contains(n),
        old(out)@.len() > 0 ==> final(out)@.len() > 0 && final(out)@[0]@ == old(out)@[0]@,
        old(out)@.len() == 0 && nodes@.len() > 0 ==> final(out)@.len() > 0 && final(out)@[0]@ == nodes@[0]@,
{
    let ghost start = nodes_view(out@);
    let ghost nv = nodes_view(nodes@);
    let mut j: usize = 0;
    while j < nodes.len()
        invariant
            j <= nodes@.len(),
            nv == nodes_view(nodes@),
            start == nodes_view(old(out)@),
            nodes_view(out@).no_duplicates(),
            forall|n: Seq<u8>| #[trigger] nodes_view(out@).contains(n) <==> start.contains(n) || nv.take(j as int).contains(n),
            start.len() > 0 ==> out@.len() > 0 && out@[0]@ == start[0],
            start.len() == 0 && j > 0 ==> out@.len() > 0 && out@[0]@ == nv[0],
            start.len() == 0 && j == 0 ==> out@.len() == 0,
        decreases nodes@.len() - j,
    {
        push_unique(out, &nodes[j]);
        assert(nv.take(j + 1) =~= nv.take(j as int).push(nv[j as int]));
        let ghost t1 = nv.take(j + 1);
        assert forall|n: Seq<u8>| #[trigger] t1.contains(n) <==> nv.take(j as int).contains(n) || n == nv[j as int] by {
            let t = nv.take(j as int);
            if t1.contains(n) {
                let k = choose|k: int| 0 <= k < t1.len() && t1[k] == n;
                if k < j {
                    assert(t[k] == n);
                }
            }
            if t.contains(n) {
                let k = choose|k: int| 0 <= k < t.len() && t[k] == n;
                assert(t1[k] == n);
            }
            if n == nv[j as int] {
                assert(t1[j as int] == n);
            }
        }
        j = j + 1;
    }
    assert(nv.take(nv.len() as int) =~= nv);
}

fn collect_account_nodes(out: &mut Vec<Vec<u8>>, ps: &Vec<AccountProof>)
    requires
        nodes_view(old(out)@).no_duplicates(),
    ensures
        nodes_view(final(out)@).no_duplicates(),
        forall|n: Seq<u8>| #[trigger] nodes_view(final(out)@).contains(n) <==> nodes_view(old(out)@).contains(n)
            || in_account_paths(ps@, n),
        old(out)@.len() > 0 ==> final(out)@.len() > 0 && final(out)@[0]@ == old(out)@[0]@,
        old(out)@.len() == 0 && ps@.len() > 0 && ps@[0].account_proof@.len() > 0 ==> final(out)@.len() > 0
            && final(out)@[0]@ == ps@[0].account_proof@[0]@,
{
    let ghost start = nodes_view(out@);
    let mut i: usize = 0;
    assert forall|n: Seq<u8>| !in_account_paths(ps@.take(0), n) by {}
    while i < ps.len()
        invariant
            i <= ps@.len(),
            start == nodes_view(old(out)@),
            nodes_view(out@).no_duplicates(),
            forall|n: Seq<u8>| #[trigger] nodes_view(out@).contains(n) <==> start.contains(n)
                || in_account_paths(ps@.take(i as int), n),
            start.len() > 0 ==> out@.len() > 0 && out@[0]@ == start[0],
            start.len() == 0 && i == 0 ==> out@.len() == 0,
            start.len() == 0 && i > 0 && ps@[0].account_proof@.len() > 0 ==> out@.len() > 0
                && out@[0]@ == ps@[0].account_proof@[0]@,
        decreases ps@.len() - i,
    {
        add_nodes(out, &ps[i].account_proof);
        assert(ps@.take(i + 1).drop_last() =~= ps@.take(i as int));
        assert(ps@.take(i + 1).last() == ps@[i as int]);
        i = i + 1;
    }
    assert(ps@.take(ps@.len() as int) =~= ps@);
}

fn collect_storage_nodes(out: &mut Vec<Vec<u8>>, p: &AccountProof)
    requires
        nodes_view(old(out)@).no_duplicates(),
    ensures
        nodes_view(final(out)@).no_duplicates(),
        forall|n: Seq<u8>| #[trigger] nodes_view(final(out)@).contains(n) <==> nodes_view(old(out)@).contains(n)
            || in_storage_paths(*p, n),
{
    let ghost start = nodes_view(out@);
    let ghost ss = p.storage_proof@;
    let mut i: usize = 0;
    assert forall|n: Seq<u8>| !in_storage_list(ss.take(0), n) by {}
    while i < p.storage_proof.len()
        invariant
            i <= ss.len(),
            ss == p.storage_proof@,
            start == nodes_view(old(out)@),
            nodes_view(out@).no_duplicates(),
            forall|n: Seq<u8>| #[trigger] nodes_view(out@).contains(n) <==> start.contains(n)
                || in_storage_list(ss.take(i as int), n),
        decreases ss.len() - i,
    {
        add_nodes(out, &p.storage_proof[i].proof);
        assert(ss.take(i + 1).drop_last() =~= ss.take(i as int));
        assert(ss.take(i + 1).last() == ss[i as int]);
        i = i + 1;
    }
    assert(ss.take(ss.len() as int) =~= ss);
}

/// Merges the pre-state and post-state proofs of a block's touched accounts
/// into one witness: every node of every proof, once, with the state-trie
/// nodes rooted at `pre_root` and each account's storage nodes under that
/// account. Fails when a proof does not hold against its root or the two
/// sets do not cover the same addresses.
pub fn proofs_to_tries(
    pre_root: &B256,
    post_root: &B256,
    pre: &Vec<AccountProof>,
    post: &Vec<AccountProof>,
) -> (r: Result<Witness, ProofMismatchError>)
    ensures
        r is Err <==> !proofs_valid(pre_root@, post_root@, pre@, post@),
        r matches Ok(w) ==> witness_of(w, pre_root@, pre@, post@),
{
    if !check_proofs(pre_root, post_root, pre, post) {
        return Err(ProofMismatchError);
    }
    let mut state_trie: Vec<Vec<u8>> = Vec::new();
    assert(nodes_view(state_trie@) =~= Seq::empty());
    collect_account_nodes(&mut state_trie, pre);
    collect_account_nodes(&mut state_trie, post);
    proof {
        if pre@.len() > 0 {
            assert(account_proof_valid(pre_root@, pre@[0]));
            assert(nodes_view(state_trie@)[0] == state_trie@[0]@);
        }
    }
    let mut storage: Vec<StorageWitness> = Vec::new();
    let mut i: usize = 0;
    while i < pre.len()
        invariant
            i <= pre@.len(),
            pre@.len() == post@.len(),
            storage@.len() == i,
            forall|j: int| 0 <= j < i ==> {
                let sw = #[trigger] storage@[j];
                let sn = nodes_view(sw.nodes@);
                &&& sw.address == pre@[j].address
                &&& sw.storage_root == pre@[j].storage_hash
                &&& sn.no_duplicates()
                &&& forall|n: Seq<u8>| #[trigger] sn.contains(n) <==> in_storage_paths(pre@[j], n)
                    || in_storage_paths(post@[j], n)
            },
        decreases pre@.len() - i,
    {
        let mut nodes: Vec<Vec<u8>> = Vec::new();
        assert(nodes_view(nodes@) =~= Seq::empty());
        collect_storage_nodes(&mut nodes, &pre[i]);
        collect_storage_nodes(&mut nodes, &post[i]);
        storage.push(StorageWitness { address: pre[i].address, storage_root: pre[i].storage_hash, nodes });
        i = i + 1;
    }
    Ok(Witness { state_trie, storage })
}

proof fn lemma_in_account_paths(ps: Seq<AccountProof>, i: int, n: Seq<u8>)
    requires
        0 <= i < ps.len(),
        nodes_view(ps[i].account_proof@).contains(n),
    ensures
        in_account_paths(ps, n),
    decreases ps.len(),
{
    if i < ps.len() - 1 {
        lemma_in_account_paths(ps.drop_last(), i, n);
    }
}

proof fn lemma_in_storage_list(ss: Seq<StorageProof>, s: int, n: Seq<u8>)
    requires
        0 <= s < ss.len(),
        nodes_view(ss[s].proof@).contains(n),
    ensures
        in_storage_list(ss, n),
    decreases ss.len(),
{
    if s < ss.len() - 1 {
        lemma_in_storage_list(ss.drop_last(), s, n);
    }
}

/// A merged witness holds every node that the proofs of a touched account
/// walk through: its account-trie nodes, from either proof set, in the state
/// trie, and its storage nodes, from either set, under that same account;
/// and the state trie starts from the node that hashes to the pre-state root.
pub proof fn lemma_witness_complete(
    w: Witness,
    pre_root: Seq<u8>,
    pre: Seq<AccountProof>,
    post: Seq<AccountProof>,
    i: int,
)
    requires
        witness_of(w, pre_root, pre, post),
        pre.len() == post.len(),
        0 <= i < pre.len(),
    ensures
        keccak_of(nodes_view(w.state_trie@)[0]) == pre_root,
        forall|n: Seq<u8>| nodes_view(pre[i].account_proof@).contains(n) || nodes_view(post[i].account_proof@).contains(n)
            ==> #[trigger] nodes_view(w.state_trie@).contains(n),
        w.storage@[i].address == pre[i].address,
        forall|s: int, n: Seq<u8>| 0 <= s < pre[i].storage_proof@.len() && #[trigger] nodes_view(pre[i].storage_proof@[s].proof@).contains(n)
            ==> nodes_view(w.storage@[i].nodes@).contains(n),
        forall|s: int, n: Seq<u8>| 0 <= s < post[i].storage_proof@.len() && #[trigger] nodes_view(post[i].storage_proof@[s].proof@).contains(n)
            ==> nodes_view(w.storage@[i].nodes@).contains(n),
{
    let st = nodes_view(w.state_trie@);
    assert forall|n: Seq<u8>| nodes_view(pre[i].account_proof@).contains(n) || nodes_view(post[i].account_proof@).contains(n)
        implies #[trigger] st.contains(n) by {
        if nodes_view(pre[i].account_proof@).contains(n) {
            lemma_in_account_paths(pre, i, n);
        } else {
            lemma_in_account_paths(post, i, n);
        }
    }
    let sn = nodes_view(w.storage@[i].nodes@);
    assert forall|s: int, n: Seq<u8>| 0 <= s < pre[i].storage_proof@.len() && #[trigger] nodes_view(pre[i].storage_proof@[s].proof@).contains(n)
        implies sn.contains(n) by {
        lemma_in_storage_list(pre[i].storage_proof@, s, n);
    }
    assert forall|s: int, n: Seq<u8>| 0 <= s < post[i].storage_proof@.len() && #[trigger] nodes_view(post[i].storage_proof@[s].proof@).contains(n)
        implies sn.contains(n) by {
        lemma_in_storage_list(post[i].storage_proof@, s, n);
    }
}

} // verus!
