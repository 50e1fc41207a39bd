use alpen_state_diff::input::{
    extract_zkvm_input, package_input, AncestorHeader, BlockData, HeaderFields, InputError, MissingAncestorError,
};
use alpen_state_diff::witness::{bytes_equal, proofs_to_tries, AccountProof, ProofMismatchError, StorageProof, Witness};

fn k(b: &[u8]) -> [u8; 32] {
    revm::primitives::keccak256(b).0
}

fn branch(tag: u8, children: &[&Vec<u8>]) -> Vec<u8> {
    let mut n = vec![0xf8, tag];
    for c in children {
        n.extend_from_slice(&k(c));
    }
    n
}

struct Fixture {
    pre_root: [u8; 32],
    post_root: [u8; 32],
    pre: Vec<AccountProof>,
    post: Vec<AccountProof>,
    nodes: Vec<Vec<u8>>,
}

const A: [u8; 20] = [0xA; 20];
const B: [u8; 20] = [0xB; 20];

fn slot_key(b: u8) -> [u8; 32] {
    let mut w = [0u8; 32];
    w[31] = b;
    w
}

fn storage_trie(leaf: &Vec<u8>, tag: u8) -> (Vec<u8>, [u8; 32]) {
    let root = branch(tag, &[leaf]);
    let h = k(&root);
    (root, h)
}

fn fixture() -> Fixture {
    let a_leaf = vec![0xe1, 1, 1, 1];
    let b_leaf = vec![0xe1, 2, 2, 2];
    let a_leaf2 = vec![0xe1, 1, 1, 9];
    let root_pre = branch(0, &[&a_leaf, &b_leaf]);
    let root_post = branch(0, &[&a_leaf2, &b_leaf]);
    let s1_leaf = vec![0xc1, 0x11];
    let s1_leaf2 = vec![0xc1, 0x15];
    let s2_leaf = vec![0xc1, 0x22];
    let (sa_root, sa_hash) = storage_trie(&s1_leaf, 1);
    let (sa_root2, sa_hash2) = storage_trie(&s1_leaf2, 1);
    let (sb_root, sb_hash) = storage_trie(&s2_leaf, 2);
    let pre = vec![
        AccountProof {
            address: A,
            storage_hash: sa_hash,
            account_proof: vec![root_pre.clone(), a_leaf.clone()],
            storage_proof: vec![StorageProof { key: slot_key(1), proof: vec![sa_root.clone(), s1_leaf.clone()] }],
        },
        AccountProof {
            address: B,
            storage_hash: sb_hash,
            account_proof: vec![root_pre.clone(), b_leaf.clone()],
            storage_proof: vec![StorageProof { key: slot_key(2), proof: vec![sb_root.clone(), s2_leaf.clone()] }],
        },
    ];
    let post = vec![
        AccountProof {
            address: A,
            storage_hash: sa_hash2,
            account_proof: vec![root_post.clone(), a_leaf2.clone()],
            storage_proof: vec![StorageProof { key: slot_key(1), proof: vec![sa_root2.clone(), s1_leaf2.clone()] }],
        },
        AccountProof {
            address: B,
            storage_hash: sb_hash,
            account_proof: vec![root_post.clone(), b_leaf.clone()],
            storage_proof: vec![StorageProof { key: slot_key(2), proof: vec![sb_root.clone(), s2_leaf.clone()] }],
        },
    ];
    Fixture {
        pre_root: k(&root_pre),
        post_root: k(&root_post),
        pre,
        post,
        nodes: vec![root_pre, a_leaf, b_leaf, root_post, a_leaf2, sa_root, s1_leaf, sa_root2, s1_leaf2, sb_root, s2_leaf],
    }
}

fn assemble(f: &Fixture) -> Result<Witness, ProofMismatchError> {
    proofs_to_tries(&f.pre_root, &f.post_root, &f.pre, &f.post)
}

#[test]
fn witness_holds_every_touched_path() {
    let f = fixture();
    let w = assemble(&f).unwrap();
    assert_eq!(k(&w.state_trie[0]), f.pre_root);
    assert_eq!(w.state_trie.len(), 5);
    for n in &f.nodes[0..5] {
        assert!(w.state_trie.contains(n));
    }
    assert_eq!(w.storage.len(), 2);
    assert_eq!(w.storage[0].address, A);
    assert_eq!(w.storage[0].storage_root, f.pre[0].storage_hash);
    assert_eq!(w.storage[0].nodes.len(), 4);
    for n in &f.nodes[5..9] {
        assert!(w.storage[0].nodes.contains(n));
    }
    assert_eq!(w.storage[1].address, B);
    assert_eq!(w.storage[1].nodes.len(), 2);
    assert!(w.storage[1].nodes.contains(&f.nodes[9]));
    assert!(w.storage[1].nodes.contains(&f.nodes[10]));
    assert!(!w.storage[1].nodes.contains(&f.nodes[6]));
}

#[test]
fn wrong_pre_root_is_a_mismatch() {
    let mut f = fixture();
    f.pre_root[0] ^= 1;
    assert_eq!(assemble(&f), Err(ProofMismatchError));
}

#[test]
fn wrong_post_root_is_a_mismatch() {
    let mut f = fixture();
    f.post_root = f.pre_root;
    assert_eq!(assemble(&f), Err(ProofMismatchError));
}

#[test]
fn broken_link_is_a_mismatch() {
    let mut f = fixture();
    f.pre[1].account_proof[1][3] = 7;
    assert_eq!(assemble(&f), Err(ProofMismatchError));
}

#[test]
fn broken_storage_proof_is_a_mismatch() {
    let mut f = fixture();
    f.post[0].storage_proof[0].proof[1].push(0);
    assert_eq!(assemble(&f), Err(ProofMismatchError));
}

#[test]
fn mismatched_address_sets_are_a_mismatch() {
    let mut f = fixture();
    f.post.swap(0, 1);
    assert_eq!(assemble(&f), Err(ProofMismatchError));
    let mut g = fixture();
    g.post.pop();
    assert_eq!(assemble(&g), Err(ProofMismatchError));
}

#[test]
fn empty_account_proof_is_a_mismatch() {
    let mut f = fixture();
    f.pre[0].account_proof.clear();
    assert_eq!(assemble(&f), Err(ProofMismatchError));
}

#[test]
fn empty_storage_proof_needs_empty_root() {
    let mut f = fixture();
    f.pre[1].storage_hash = k(&[0x80]);
    f.pre[1].storage_proof = vec![StorageProof { key: slot_key(2), proof: vec![] }];
    let w = assemble(&f).unwrap();
    assert_eq!(w.storage[1].nodes.len(), 2);
    let mut g = fixture();
    g.pre[1].storage_proof = vec![StorageProof { key: slot_key(2), proof: vec![] }];
    assert_eq!(assemble(&g), Err(ProofMismatchError));
}

#[test]
fn no_touched_accounts_gives_empty_witness() {
    let w = proofs_to_tries(&[0u8; 32], &[1u8; 32], &vec![], &vec![]).unwrap();
    assert!(w.state_trie.is_empty());
    assert!(w.storage.is_empty());
}

#[test]
fn byte_strings_compare_exactly() {
    assert!(bytes_equal(&[1, 2, 3], &[1, 2, 3]));
    assert!(!bytes_equal(&[1, 2, 3], &[1, 2]));
    assert!(!bytes_equal(&[1, 2, 3], &[1, 2, 4]));
    assert!(bytes_equal(&[], &[]));
}

fn header(n: u64) -> AncestorHeader {
    AncestorHeader { number: n, hash: slot_key(n as u8), state_root: slot_key(100 + n as u8) }
}

fn fields() -> HeaderFields {
    HeaderFields { beneficiary: [0xBE; 20], gas_limit: 30_000_000, timestamp: 1_700_000_000, extra_data: vec![1, 2], mix_hash: slot_key(0x33) }
}

#[test]
fn package_keeps_only_the_needed_window() {
    let w = Witness { state_trie: vec![vec![1]], storage: vec![] };
    let ancestors = vec![header(8), header(7), header(6)];
    let inp = package_input(fields(), vec![vec![0xAB]], vec![], w.clone(), header(9), &ancestors, &vec![9, 8]).unwrap();
    assert_eq!(inp.ancestor_headers, vec![header(8)]);
    assert_eq!(inp.parent_header, header(9));
    assert_eq!(inp.parent_state_trie, w.state_trie);
    assert_eq!(inp.beneficiary, [0xBE; 20]);
    assert_eq!(inp.gas_limit, 30_000_000);
    assert_eq!(inp.timestamp, 1_700_000_000);
    assert_eq!(inp.extra_data, vec![1, 2]);
    assert_eq!(inp.mix_hash, slot_key(0x33));
    assert_eq!(inp.transactions, vec![vec![0xAB]]);
    assert!(inp.withdrawals.is_empty());
    let all = package_input(fields(), vec![], vec![], w.clone(), header(9), &ancestors, &vec![6]).unwrap();
    assert_eq!(all.ancestor_headers, ancestors);
    let none = package_input(fields(), vec![], vec![], w, header(9), &ancestors, &vec![]).unwrap();
    assert!(none.ancestor_headers.is_empty());
}

#[test]
fn lookup_beyond_window_is_missing_ancestor() {
    let w = Witness { state_trie: vec![], storage: vec![] };
    let ancestors = vec![header(8), header(7)];
    assert_eq!(
        package_input(fields(), vec![], vec![], w, header(9), &ancestors, &vec![8, 5]),
        Err(MissingAncestorError)
    );
}

#[test]
fn end_to_end_input_witness_hashes_to_parent_root() {
    let f = fixture();
    let parent = AncestorHeader { number: 9, hash: slot_key(9), state_root: f.pre_root };
    let block = BlockData { number: 10, header: fields(), state_root: f.post_root, transactions: vec![vec![1, 2, 3]], withdrawals: vec![] };
    let inp = extract_zkvm_input(block.clone(), parent, &f.pre, &f.post, &vec![], &vec![]).unwrap();
    assert_eq!(k(&inp.parent_state_trie[0]), parent.state_root);
    assert_eq!(inp.parent_storage.len(), 2);
    assert_eq!(inp.transactions, vec![vec![1, 2, 3]]);
    let bad_parent = AncestorHeader { state_root: f.post_root, ..parent };
    assert_eq!(
        extract_zkvm_input(block.clone(), bad_parent, &f.pre, &f.post, &vec![], &vec![]),
        Err(InputError::ProofMismatch)
    );
    assert_eq!(
        extract_zkvm_input(block, parent, &f.pre, &f.post, &vec![], &vec![3]),
        Err(InputError::MissingAncestor)
    );
}
