//! The bundle-diff data model: account and storage changes of one block.

use vstd::prelude::*;

verus! {

/// A 32-byte hash.
pub type B256 = [u8; 32];

/// A 256-bit unsigned value, as 32 big-endian bytes.
pub type U256 = [u8; 32];

/// A 20-byte account address.
pub type Address = [u8; 20];

/// How an account came to be in the bundle; a closed set of eight tags.
#[derive(Clone, Copy, Debug, PartialEq, Eq, Structural)]
pub enum AccountStatus {
    LoadedNotExisting,
    Loaded,
    LoadedEmptyEIP161,
    InMemoryChange,
    Changed,
    Destroyed,
    DestroyedChanged,
    DestroyedAgain,
}

/// The persisted code of each status.
pub open spec fn status_code(s: AccountStatus) -> u64 {
    match s {
        AccountStatus::LoadedNotExisting => 0,
        AccountStatus::Loaded => 1,
        AccountStatus::LoadedEmptyEIP161 => 2,
        AccountStatus::InMemoryChange => 3,
        AccountStatus::Changed => 4,
        AccountStatus::Destroyed => 5,
        AccountStatus::DestroyedChanged => 6,
        AccountStatus::DestroyedAgain => 7,
    }
}

/// The status a persisted code stands for; codes outside the table have none.
pub open spec fn status_of_code(c: u64) -> Option<AccountStatus> {
    if c == 0 {
        Some(AccountStatus::LoadedNotExisting)
    } else if c == 1 {
        Some(AccountStatus::Loaded)
    } else if c == 2 {
        Some(AccountStatus::LoadedEmptyEIP161)
    } else if c == 3 {
        Some(AccountStatus::InMemoryChange)
    } else if c == 4 {
        Some(AccountStatus::Changed)
    } else if c == 5 {
        Some(AccountStatus::Destroyed)
    } else if c == 6 {
        Some(AccountStatus::DestroyedChanged)
    } else if c == 7 {
        Some(AccountStatus::DestroyedAgain)
    } else {
        None
    }
}

impl AccountStatus {
    /// The account no longer exists after the block.
    pub open spec fn is_destroyed(self) -> bool {
        self == AccountStatus::Destroyed || self == AccountStatus::DestroyedAgain
    }
}

/// The persisted code of a status.
pub fn from_account_status(status: AccountStatus) -> (r: u64)
    ensures
        r == status_code(status),
        r < 8,
{
    match status {
        AccountStatus::LoadedNotExisting => 0,
        AccountStatus::Loaded => 1,
        AccountStatus::LoadedEmptyEIP161 => 2,
        AccountStatus::InMemoryChange => 3,
        AccountStatus::Changed => 4,
        AccountStatus::Destroyed => 5,
        AccountStatus::DestroyedChanged => 6,
        AccountStatus::DestroyedAgain => 7,
    }
}

/// The status of a persisted code; `None` for a code outside the table.
pub fn to_account_status(code: u64) -> (r: Option<AccountStatus>)
    ensures
        r == status_of_code(code),
        r.is_none() <==> code >= 8,
        r matches Some(s) ==> status_code(s) == code,
{
    match code {
        0 => Some(AccountStatus::LoadedNotExisting),
        1 => Some(AccountStatus::Loaded),
        2 => Some(AccountStatus::LoadedEmptyEIP161),
        3 => Some(AccountStatus::InMemoryChange),
        4 => Some(AccountStatus::Changed),
        5 => Some(AccountStatus::Destroyed),
        6 => Some(AccountStatus::DestroyedChanged),
        7 => Some(AccountStatus::DestroyedAgain),
        _ => None,
    }
}

/// Decoding a status code inverts encoding it.
pub proof fn lemma_status_code_round_trip(s: AccountStatus)
    ensures
        status_of_code(status_code(s)) == Some(s),
{
}

/// Account fields after a block, as the diff stores them.
#[derive(Clone, Debug, PartialEq, Eq)]
pub struct DbAccountInfo {
    pub balance: U256,
    pub nonce: u64,
    pub code_hash: B256,
    /// Bytecode of a contract created in the block, if any.
    pub code: Option<Vec<u8>>,
}

/// The contents of an account info.
pub struct InfoView {
    pub balance: Seq<u8>,
    pub nonce: u64,
    pub code_hash: Seq<u8>,
    pub code: Option<Seq<u8>>,
}

pub open spec fn opt_bytes_view(o: Option<Vec<u8>>) -> Option<Seq<u8>> {
    match o {
        Some(v) => Some(v@),
        None => None,
    }
}

impl View for DbAccountInfo {
    type V = InfoView;

    open spec fn view(&self) -> InfoView {
        InfoView {
            balance: self.balance@,
            nonce: self.nonce,
            code_hash: self.code_hash@,
            code: opt_bytes_view(self.code),
        }
    }
}

pub open spec fn opt_info_view(o: Option<DbAccountInfo>) -> Option<InfoView> {
    match o {
        Some(i) => Some(i@),
        None => None,
    }
}

/// One storage slot's change: key, value before and value after.
#[derive(Clone, Copy, Debug, PartialEq, Eq)]
pub struct DbStorageDiffEntry {
    pub address: U256,
    pub previous_value: U256,
    pub current_value: U256,
}

pub struct SlotView {
    pub key: Seq<u8>,
    pub previous: Seq<u8>,
    pub current: Seq<u8>,
}

impl View for DbStorageDiffEntry {
    type V = SlotView;

    open spec fn view(&self) -> SlotView {
        SlotView { key: self.address@, previous: self.previous_value@, current: self.current_value@ }
    }
}

impl DbStorageDiffEntry {
    pub fn new(address: U256, previous_value: U256, current_value: U256) -> (r: Self)
        ensures
            r.address == address,
            r.previous_value == previous_value,
            r.current_value == current_value,
    {
        DbStorageDiffEntry { address, previous_value, current_value }
    }
}

/// The storage-slot changes of one account, in a fixed order.
#[derive(Clone, Debug, PartialEq, Eq)]
pub struct DbStorageDiff(pub Vec<DbStorageDiffEntry>);

impl View for DbStorageDiff {
    type V = Seq<SlotView>;

    open spec fn view(&self) -> Seq<SlotView> {
        self.0@.map_values(|e: DbStorageDiffEntry| e@)
    }
}

impl DbStorageDiff {
    pub fn new(diff_entries: Vec<DbStorageDiffEntry>) -> (r: Self)
        ensures
            r.0@ == diff_entries@,
    {
        DbStorageDiff(diff_entries)
    }
}

/// The change of one account in one block.
#[derive(Clone, Debug, PartialEq, Eq)]
pub struct DbBundleAccount {
    pub address: Address,
    /// Account info before the block; absent if the account did not exist.
    pub prev_info: Option<DbAccountInfo>,
    /// Account info after the block; absent if the account was destroyed.
    pub info: Option<DbAccountInfo>,
    pub status: AccountStatus,
    pub storage: DbStorageDiff,
}

pub struct AccountDiffView {
    pub address: Seq<u8>,
    pub prev_info: Option<InfoView>,
    pub info: Option<InfoView>,
    pub status: AccountStatus,
    pub storage: Seq<SlotView>,
}

impl View for DbBundleAccount {
    type V = AccountDiffView;

    open spec fn view(&self) -> AccountDiffView {
        AccountDiffView {
            address: self.address@,
            prev_info: opt_info_view(self.prev_info),
            info: opt_info_view(self.info),
            status: self.status,
            storage: self.storage@,
        }
    }
}

/// The block diff record: every account changed by one block.
#[derive(Clone, Debug, PartialEq, Eq)]
pub struct DbStateDiff {
    pub account_diffs: Vec<DbBundleAccount>,
}

impl View for DbStateDiff {
    type V = Seq<AccountDiffView>;

    open spec fn view(&self) -> Seq<AccountDiffView> {
        self.account_diffs@.map_values(|a: DbBundleAccount| a@)
    }
}

impl DbStateDiff {
    pub fn new(account_diffs: Vec<DbBundleAccount>) -> (r: Self)
        ensures
            r.account_diffs@ == account_diffs@,
    {
        DbStateDiff { account_diffs }
    }
}

} // verus!
