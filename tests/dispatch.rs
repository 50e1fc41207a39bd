use alpen_state_diff::bundle::{AccountInfo, BundleAccount, EncodingError, StateDiff, StorageSlot};
use alpen_state_diff::dispatch::{
    extract_new_diffs, extract_old_block_hashes, handle_notification, Chain, ChainBlock, ExExNotification, StateDiffOp,
};
use alpen_state_diff::model::{AccountStatus, DbStateDiff};
use alpen_state_diff::store::DiffStore;

fn word(b: u8) -> [u8; 32] {
    let mut w = [0u8; 32];
    w[31] = b;
    w
}

fn simple_diff(balance: u8) -> StateDiff {
    let acc = BundleAccount {
        info: Some(AccountInfo { balance: word(balance), nonce: 1, code_hash: word(0), code: None }),
        original_info: None,
        storage: vec![],
        status: AccountStatus::Changed,
    };
    StateDiff { state: vec![([balance; 20], acc)], contracts: vec![] }
}

fn block(number: u64, hash: u8) -> ChainBlock {
    ChainBlock { number, hash: word(hash), outcome: Some(simple_diff(hash)) }
}

fn hash_of(op: &StateDiffOp) -> [u8; 32] {
    match op {
        StateDiffOp::Put(h, _) => *h,
        StateDiffOp::Del(h) => *h,
    }
}

#[test]
fn reorg_deletes_then_inserts() {
    let old = Chain { blocks: vec![block(1, 0xB1), block(2, 0xB2)] };
    let new = Chain { blocks: vec![block(1, 0xC1), block(2, 0xB3)] };
    let d = handle_notification(&ExExNotification::ChainReorged { old, new }, false).unwrap();
    assert_eq!(d.ops.len(), 4);
    assert!(matches!(d.ops[0], StateDiffOp::Del(h) if h == word(0xB1)));
    assert!(matches!(d.ops[1], StateDiffOp::Del(h) if h == word(0xB2)));
    assert!(matches!(d.ops[2], StateDiffOp::Put(h, _) if h == word(0xC1)));
    assert!(matches!(d.ops[3], StateDiffOp::Put(h, _) if h == word(0xB3)));
    assert_eq!(d.finished_height, Some(2));
    assert_eq!(d.witness_block, None);
}

#[test]
fn commit_inserts_in_order_and_signals_tip() {
    let new = Chain { blocks: vec![block(5, 1), block(6, 2), block(7, 3)] };
    let d = handle_notification(&ExExNotification::ChainCommitted { new }, false).unwrap();
    let hashes: Vec<[u8; 32]> = d.ops.iter().map(hash_of).collect();
    assert_eq!(hashes, vec![word(1), word(2), word(3)]);
    assert!(d.ops.iter().all(|o| matches!(o, StateDiffOp::Put(..))));
    assert_eq!(d.finished_height, Some(7));
    assert_eq!(d.witness_block, None);
}

#[test]
fn commit_names_witness_block_when_asked() {
    let new = Chain { blocks: vec![block(5, 1), block(6, 2)] };
    let d = handle_notification(&ExExNotification::ChainCommitted { new }, true).unwrap();
    assert_eq!(d.witness_block, Some(5));
    assert_eq!(d.finished_height, Some(6));
}

#[test]
fn revert_deletes_and_signals_nothing() {
    let old = Chain { blocks: vec![block(3, 9), block(4, 10)] };
    let d = handle_notification(&ExExNotification::ChainReverted { old }, true).unwrap();
    let hashes: Vec<[u8; 32]> = d.ops.iter().map(hash_of).collect();
    assert_eq!(hashes, vec![word(9), word(10)]);
    assert!(d.ops.iter().all(|o| matches!(o, StateDiffOp::Del(..))));
    assert_eq!(d.finished_height, None);
    assert_eq!(d.witness_block, None);
}

#[test]
fn blocks_without_outcome_are_skipped() {
    let mut b = block(2, 2);
    b.outcome = None;
    let new = Chain { blocks: vec![block(1, 1), b, block(3, 3)] };
    let ops = extract_new_diffs(&new).unwrap();
    let hashes: Vec<[u8; 32]> = ops.iter().map(hash_of).collect();
    assert_eq!(hashes, vec![word(1), word(3)]);
    let old_hashes = extract_old_block_hashes(&new);
    assert_eq!(old_hashes, vec![word(1), word(2), word(3)]);
}

#[test]
fn inconsistent_outcome_fails_the_notification() {
    let mut bad = block(2, 2);
    let mut sd = simple_diff(2);
    sd.state[0].1.status = AccountStatus::Destroyed;
    bad.outcome = Some(sd);
    let new = Chain { blocks: vec![block(1, 1), bad] };
    assert!(matches!(
        handle_notification(&ExExNotification::ChainCommitted { new: new.clone() }, false),
        Err(EncodingError)
    ));
    let old = Chain { blocks: vec![block(1, 7)] };
    assert!(matches!(handle_notification(&ExExNotification::ChainReorged { old, new }, false), Err(EncodingError)));
}

#[test]
fn end_to_end_commit_record() {
    let acc = BundleAccount {
        info: Some(AccountInfo { balance: word(90), nonce: 1, code_hash: word(0), code: None }),
        original_info: Some(AccountInfo { balance: word(100), nonce: 0, code_hash: word(0), code: None }),
        storage: vec![(word(0), StorageSlot { previous_or_original_value: word(0), present_value: word(5) })],
        status: AccountStatus::Changed,
    };
    let outcome = StateDiff { state: vec![([0xAA; 20], acc)], contracts: vec![] };
    let new = Chain { blocks: vec![ChainBlock { number: 10, hash: word(0x10), outcome: Some(outcome) }] };
    let d = handle_notification(&ExExNotification::ChainCommitted { new }, false).unwrap();
    assert_eq!(d.ops.len(), 1);
    match &d.ops[0] {
        StateDiffOp::Put(h, rec) => {
            assert_eq!(*h, word(0x10));
            assert_eq!(rec.account_diffs.len(), 1);
            let a = &rec.account_diffs[0];
            assert_eq!(a.status, AccountStatus::Changed);
            assert_eq!(a.prev_info.as_ref().unwrap().balance, word(100));
            assert_eq!(a.info.as_ref().unwrap().balance, word(90));
            assert_eq!(a.storage.0.len(), 1);
            assert_eq!(a.storage.0[0].previous_value, word(0));
            assert_eq!(a.storage.0[0].current_value, word(5));
            assert_eq!(DbStateDiff::decompress(&rec.compress()).as_ref(), Ok(rec));
        },
        StateDiffOp::Del(_) => panic!("expected an insert"),
    }
    assert_eq!(d.finished_height, Some(10));
}

#[test]
fn deleting_an_absent_hash_is_a_no_op() {
    let mut store = DiffStore::new();
    store.apply(StateDiffOp::Put(word(1), DbStateDiff::new(vec![])));
    store.apply(StateDiffOp::Del(word(2)));
    assert_eq!(store.len(), 1);
    assert!(store.contains(&word(1)));
    store.apply(StateDiffOp::Del(word(1)));
    store.apply(StateDiffOp::Del(word(1)));
    assert_eq!(store.len(), 0);
    assert!(!store.contains(&word(1)));
}

#[test]
fn insert_replaces_record_under_same_hash() {
    let mut store = DiffStore::new();
    store.apply(StateDiffOp::Put(word(1), DbStateDiff::new(vec![])));
    let rec = simple_diff(3).to_db_state_diff().unwrap();
    store.apply(StateDiffOp::Put(word(1), rec.clone()));
    store.apply(StateDiffOp::Put(word(2), DbStateDiff::new(vec![])));
    assert_eq!(store.len(), 2);
    assert_eq!(store.get(&word(1)), Some(&rec));
    assert_eq!(store.get(&word(3)), None);
}

#[test]
fn reorg_applied_to_store_keeps_new_blocks() {
    let mut store = DiffStore::new();
    let c = handle_notification(
        &ExExNotification::ChainCommitted { new: Chain { blocks: vec![block(1, 0xB1), block(2, 0xB2)] } },
        false,
    )
    .unwrap();
    for op in c.ops {
        store.apply(op);
    }
    let r = handle_notification(
        &ExExNotification::ChainReorged {
            old: Chain { blocks: vec![block(2, 0xB2)] },
            new: Chain { blocks: vec![block(2, 0xB2), block(3, 0xB3)] },
        },
        false,
    )
    .unwrap();
    for op in r.ops {
        store.apply(op);
    }
    assert_eq!(store.len(), 3);
    assert!(store.contains(&word(0xB2)));
    assert!(store.contains(&word(0xB3)));
}
