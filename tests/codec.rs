use alpen_state_diff::codec::CorruptDiffError;
use alpen_state_diff::model::{
    from_account_status, to_account_status, AccountStatus, DbAccountInfo, DbBundleAccount, DbStateDiff,
    DbStorageDiff, DbStorageDiffEntry,
};

fn word(b: u8) -> [u8; 32] {
    let mut w = [0u8; 32];
    w[31] = b;
    w
}

fn sample_account(status: AccountStatus) -> DbBundleAccount {
    DbBundleAccount {
        address: [7u8; 20],
        prev_info: Some(DbAccountInfo { balance: word(100), nonce: 1, code_hash: word(9), code: None }),
        info: Some(DbAccountInfo {
            balance: word(90),
            nonce: 2,
            code_hash: word(10),
            code: Some(vec![0x60, 0x00, 0x60, 0x00]),
        }),
        status,
        storage: DbStorageDiff::new(vec![
            DbStorageDiffEntry::new(word(0), word(0), word(5)),
            DbStorageDiffEntry::new(word(1), word(3), word(3)),
        ]),
    }
}

#[test]
fn empty_record_round_trip() {
    let r = DbStateDiff::new(vec![]);
    let bytes = r.compress();
    assert_eq!(bytes, vec![0u8; 8]);
    assert_eq!(DbStateDiff::decompress(&bytes), Ok(r));
}

#[test]
fn full_record_round_trip() {
    let mut accounts = Vec::new();
    let statuses = [
        AccountStatus::LoadedNotExisting,
        AccountStatus::Loaded,
        AccountStatus::LoadedEmptyEIP161,
        AccountStatus::InMemoryChange,
        AccountStatus::Changed,
        AccountStatus::Destroyed,
        AccountStatus::DestroyedChanged,
        AccountStatus::DestroyedAgain,
    ];
    for s in statuses {
        accounts.push(sample_account(s));
    }
    let mut destroyed = sample_account(AccountStatus::Destroyed);
    destroyed.info = None;
    destroyed.prev_info = None;
    destroyed.storage = DbStorageDiff::new(vec![]);
    accounts.push(destroyed);
    let r = DbStateDiff::new(accounts);
    let bytes = r.compress();
    assert_eq!(DbStateDiff::decompress(&bytes), Ok(r));
}

#[test]
fn many_slots_round_trip() {
    let mut slots = Vec::new();
    for i in 0..1000u32 {
        slots.push(DbStorageDiffEntry::new(word((i % 251) as u8), word(1), word(2)));
    }
    let mut a = sample_account(AccountStatus::Changed);
    a.storage = DbStorageDiff::new(slots);
    let r = DbStateDiff::new(vec![a]);
    assert_eq!(DbStateDiff::decompress(&r.compress()), Ok(r));
}

#[test]
fn minimal_account_exact_bytes() {
    let a = DbBundleAccount {
        address: [1u8; 20],
        prev_info: None,
        info: None,
        status: AccountStatus::Destroyed,
        storage: DbStorageDiff::new(vec![]),
    };
    let bytes = DbStateDiff::new(vec![a]).compress();
    let mut expected = vec![1u8, 0, 0, 0, 0, 0, 0, 0];
    expected.extend_from_slice(&[1u8; 20]);
    expected.extend_from_slice(&[5u8, 0, 0, 0, 0, 0, 0, 0]);
    expected.push(0);
    expected.push(0);
    expected.extend_from_slice(&[0u8; 8]);
    assert_eq!(bytes, expected);
}

#[test]
fn compress_to_buf_appends() {
    let mut buf = vec![0xAAu8];
    DbStateDiff::new(vec![]).compress_to_buf(&mut buf);
    assert_eq!(buf, vec![0xAA, 0, 0, 0, 0, 0, 0, 0, 0]);
}

#[test]
fn decode_rejects_unknown_status() {
    let r = DbStateDiff::new(vec![sample_account(AccountStatus::Changed)]);
    let mut bytes = r.compress();
    for code in [8u8, 9, 200] {
        bytes[28] = code;
        assert_eq!(DbStateDiff::decompress(&bytes), Err(CorruptDiffError));
    }
    bytes[28] = 4;
    assert!(DbStateDiff::decompress(&bytes).is_ok());
}

#[test]
fn decode_rejects_truncated_input() {
    let r = DbStateDiff::new(vec![sample_account(AccountStatus::Changed)]);
    let bytes = r.compress();
    for cut in 0..bytes.len() {
        assert_eq!(DbStateDiff::decompress(&bytes[..cut]), Err(CorruptDiffError));
    }
}

#[test]
fn decode_rejects_trailing_bytes() {
    let mut bytes = DbStateDiff::new(vec![sample_account(AccountStatus::Loaded)]).compress();
    bytes.push(0);
    assert_eq!(DbStateDiff::decompress(&bytes), Err(CorruptDiffError));
}

#[test]
fn decode_rejects_bad_option_tag() {
    let mut bytes = DbStateDiff::new(vec![sample_account(AccountStatus::Loaded)]).compress();
    // the tag of the previous account info follows count, address and status
    bytes[36] = 2;
    assert_eq!(DbStateDiff::decompress(&bytes), Err(CorruptDiffError));
}

#[test]
fn decode_rejects_huge_count() {
    let bytes = vec![0xFFu8; 8];
    assert_eq!(DbStateDiff::decompress(&bytes), Err(CorruptDiffError));
}

#[test]
fn status_codes_are_a_closed_table() {
    let statuses = [
        AccountStatus::LoadedNotExisting,
        AccountStatus::Loaded,
        AccountStatus::LoadedEmptyEIP161,
        AccountStatus::InMemoryChange,
        AccountStatus::Changed,
        AccountStatus::Destroyed,
        AccountStatus::DestroyedChanged,
        AccountStatus::DestroyedAgain,
    ];
    for (i, s) in statuses.iter().enumerate() {
        assert_eq!(from_account_status(*s), i as u64);
        assert_eq!(to_account_status(i as u64), Some(*s));
    }
    assert_eq!(to_account_status(8), None);
    assert_eq!(to_account_status(u64::MAX), None);
}

#[test]
fn decode_rejects_unknown_status_in_later_account() {
    let first = sample_account(AccountStatus::Loaded);
    let one = DbStateDiff::new(vec![first.clone()]).compress();
    let first_len = one.len() - 8;
    let r = DbStateDiff::new(vec![first, sample_account(AccountStatus::Changed)]);
    let mut bytes = r.compress();
    let at = 8 + first_len + 20;
    assert_eq!(bytes[at], 4);
    bytes[at] = 8;
    assert_eq!(DbStateDiff::decompress(&bytes), Err(CorruptDiffError));
}
