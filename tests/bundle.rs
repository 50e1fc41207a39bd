use alpen_state_diff::bundle::{words_equal, AccountInfo, BundleAccount, EncodingError, StateDiff, StorageSlot};
use alpen_state_diff::model::{AccountStatus, DbAccountInfo, DbStorageDiff, DbStorageDiffEntry};

fn word(b: u8) -> [u8; 32] {
    let mut w = [0u8; 32];
    w[31] = b;
    w
}

fn info(balance: u8, code_hash: u8, code: Option<Vec<u8>>) -> AccountInfo {
    AccountInfo { balance: word(balance), nonce: 0, code_hash: word(code_hash), code }
}

#[test]
fn record_takes_code_from_pool() {
    let acc = BundleAccount {
        info: Some(info(50, 0xC0, None)),
        original_info: None,
        storage: vec![(word(1), StorageSlot { previous_or_original_value: word(0), present_value: word(7) })],
        status: AccountStatus::InMemoryChange,
    };
    let sd = StateDiff {
        state: vec![([3u8; 20], acc)],
        contracts: vec![(word(0xB0), vec![1, 2]), (word(0xC0), vec![0xFE, 0xED])],
    };
    let d = sd.to_db_state_diff().unwrap();
    assert_eq!(d.account_diffs.len(), 1);
    let a = &d.account_diffs[0];
    assert_eq!(a.address, [3u8; 20]);
    assert_eq!(a.prev_info, None);
    assert_eq!(a.info.as_ref().unwrap().code, Some(vec![0xFE, 0xED]));
    assert_eq!(a.info.as_ref().unwrap().balance, word(50));
    assert_eq!(a.status, AccountStatus::InMemoryChange);
    assert_eq!(a.storage, DbStorageDiff::new(vec![DbStorageDiffEntry::new(word(1), word(0), word(7))]));
}

#[test]
fn inline_code_wins_over_pool() {
    let acc = BundleAccount {
        info: Some(info(1, 0xC0, Some(vec![9]))),
        original_info: Some(info(1, 0xC0, None)),
        storage: vec![],
        status: AccountStatus::Changed,
    };
    let sd = StateDiff { state: vec![([4u8; 20], acc)], contracts: vec![(word(0xC0), vec![8])] };
    let d = sd.to_db_state_diff().unwrap();
    assert_eq!(d.account_diffs[0].info.as_ref().unwrap().code, Some(vec![9]));
    assert_eq!(d.account_diffs[0].prev_info.as_ref().unwrap().code, None);
}

#[test]
fn missing_pool_code_stays_absent() {
    let acc = BundleAccount {
        info: Some(info(1, 0xAB, None)),
        original_info: None,
        storage: vec![],
        status: AccountStatus::Changed,
    };
    let sd = StateDiff { state: vec![([4u8; 20], acc)], contracts: vec![] };
    let d = sd.to_db_state_diff().unwrap();
    assert_eq!(d.account_diffs[0].info.as_ref().unwrap().code, None);
}

#[test]
fn destroyed_with_info_is_an_encoding_error() {
    for status in [AccountStatus::Destroyed, AccountStatus::DestroyedAgain] {
        let acc = BundleAccount {
            info: Some(info(1, 2, Some(vec![1]))),
            original_info: None,
            storage: vec![],
            status,
        };
        let sd = StateDiff { state: vec![([1u8; 20], acc)], contracts: vec![] };
        assert_eq!(sd.to_db_state_diff(), Err(EncodingError));
    }
}

#[test]
fn destroyed_without_info_converts() {
    let acc = BundleAccount { info: None, original_info: Some(info(5, 0, None)), storage: vec![], status: AccountStatus::Destroyed };
    let sd = StateDiff { state: vec![([1u8; 20], acc)], contracts: vec![] };
    let d = sd.to_db_state_diff().unwrap();
    assert_eq!(d.account_diffs[0].info, None);
    assert_eq!(d.account_diffs[0].status, AccountStatus::Destroyed);
}

#[test]
fn empty_bundle_gives_empty_record() {
    let sd = StateDiff { state: vec![], contracts: vec![(word(1), vec![1])] };
    assert_eq!(sd.to_db_state_diff().unwrap().account_diffs.len(), 0);
}

#[test]
fn record_back_to_bundle() {
    let acc = BundleAccount {
        info: Some(info(9, 0, Some(vec![1]))),
        original_info: None,
        storage: vec![(word(2), StorageSlot { previous_or_original_value: word(4), present_value: word(4) })],
        status: AccountStatus::Loaded,
    };
    let sd = StateDiff { state: vec![([2u8; 20], acc.clone())], contracts: vec![] };
    let back = sd.to_db_state_diff().unwrap().to_state_diff();
    assert_eq!(back, sd);
}

#[test]
fn from_account_info_fills_missing_code() {
    let i = info(1, 2, None);
    let d = DbAccountInfo::from_account_info(&i, Some(vec![5]));
    assert_eq!(d.code, Some(vec![5]));
    let j = info(1, 2, Some(vec![6]));
    assert_eq!(DbAccountInfo::from_account_info(&j, Some(vec![5])).code, Some(vec![6]));
    assert_eq!(d.to_account_info().code, Some(vec![5]));
}

#[test]
fn words_compare_bytewise() {
    assert!(words_equal(&word(3), &word(3)));
    assert!(!words_equal(&word(3), &word(4)));
    let mut w = word(3);
    w[0] = 1;
    assert!(!words_equal(&w, &word(3)));
}
