//! A block's post-execution bundle, and its conversion to a block diff record.

use vstd::prelude::*;
use crate::model::{
    AccountDiffView, AccountStatus, Address, B256, DbAccountInfo, DbBundleAccount, DbStateDiff,
    DbStorageDiff, DbStorageDiffEntry, InfoView, SlotView, U256, opt_bytes_view, opt_info_view,
};

verus! {

/// Account fields as execution left them.
#[derive(Clone, Debug, PartialEq, Eq)]
pub struct AccountInfo {
    pub balance: U256,
    pub nonce: u64,
    pub code_hash: B256,
    pub code: Option<Vec<u8>>,
}

impl View for AccountInfo {
    type V = InfoView;

    open spec fn view(&self) -> InfoView {
        InfoView {
            balance: self.balance@,
            nonce: self.nonce,
            code_hash: self.code_hash@,
            code: opt_bytes_view(self.code),
        }
    }
}

pub open spec fn opt_account_info_view(o: Option<AccountInfo>) -> Option<InfoView> {
    match o {
        Some(i) => Some(i@),
        None => None,
    }
}

/// A storage slot's value before the block and after it.
#[derive(Clone, Copy, Debug, PartialEq, Eq)]
pub struct StorageSlot {
    pub previous_or_original_value: U256,
    pub present_value: U256,
}

pub open spec fn slot_entry_view(e: (U256, StorageSlot)) -> SlotView {
    SlotView { key: e.0@, previous: e.1.previous_or_original_value@, current: e.1.present_value@ }
}

pub open spec fn storage_view(s: Seq<(U256, StorageSlot)>) -> Seq<SlotView> {
    s.map_values(|e: (U256, StorageSlot)| slot_entry_view(e))
}

/// One account of a bundle.
#[derive(Clone, Debug, PartialEq, Eq)]
pub struct BundleAccount {
    pub info: Option<AccountInfo>,
    pub original_info: Option<AccountInfo>,
    pub storage: Vec<(U256, StorageSlot)>,
    pub status: AccountStatus,
}

pub struct BundleAccountView {
    pub info: Option<InfoView>,
    pub original_info: Option<InfoView>,
    pub storage: Seq<SlotView>,
    pub status: AccountStatus,
}

impl View for BundleAccount {
    type V = BundleAccountView;

    open spec fn view(&self) -> BundleAccountView {
        BundleAccountView {
            info: opt_account_info_view(self.info),
            original_info: opt_account_info_view(self.original_info),
            storage: storage_view(self.storage@),
            status: self.status,
        }
    }
}

/// The state changes of one block: the accounts it touched and the contract
/// code it deployed, by code hash.
#[derive(Clone, Debug, PartialEq, Eq)]
pub struct StateDiff {
    pub state: Vec<(Address, BundleAccount)>,
    pub contracts: Vec<(B256, Vec<u8>)>,
}

pub struct StateDiffView {
    pub state: Seq<(Seq<u8>, BundleAccountView)>,
    pub contracts: Seq<(Seq<u8>, Seq<u8>)>,
}

pub open spec fn pool_view(p: Seq<(B256, Vec<u8>)>) -> Seq<(Seq<u8>, Seq<u8>)> {
    p.map_values(|e: (B256, Vec<u8>)| (e.0@, e.1@))
}

impl View for StateDiff {
    type V = StateDiffView;

    open spec fn view(&self) -> StateDiffView {
        StateDiffView {
            state: self.state@.map_values(|e: (Address, BundleAccount)| (e.0@, e.1@)),
            contracts: pool_view(self.contracts@),
        }
    }
}

/// The code that the pool holds under a hash; the first entry wins.
pub open spec fn code_in_pool(pool: Seq<(Seq<u8>, Seq<u8>)>, h: Seq<u8>) -> Option<Seq<u8>>
    decreases pool.len(),
{
    if pool.len() == 0 {
        None
    } else if pool[0].0 == h {
        Some(pool[0].1)
    } else {
        code_in_pool(pool.drop_first(), h)
    }
}

/// An account info whose code, where it has none of its own, is taken from
/// the pool by its code hash.
pub open spec fn with_pool_code(i: InfoView, pool: Seq<(Seq<u8>, Seq<u8>)>) -> InfoView {
    InfoView {
        code: if i.code is Some { i.code } else { code_in_pool(pool, i.code_hash) },
        ..i
    }
}

pub open spec fn account_diff_of(
    address: Seq<u8>,
    a: BundleAccountView,
    pool: Seq<(Seq<u8>, Seq<u8>)>,
) -> AccountDiffView {
    AccountDiffView {
        address,
        prev_info: a.original_info,
        info: match a.info {
            Some(i) => Some(with_pool_code(i, pool)),
            None => None,
        },
        status: a.status,
        storage: a.storage,
    }
}

/// A destroyed account that still has account info (and with it, code).
pub open spec fn inconsistent(a: BundleAccountView) -> bool {
    a.status.is_destroyed() && a.info is Some
}

pub open spec fn has_inconsistent(sd: StateDiffView) -> bool {
    exists|j: int| 0 <= j < sd.state.len() && inconsistent(#[trigger] sd.state[j].1)
}

/// The block diff record of a bundle, account by account in bundle order.
pub open spec fn record_of(sd: StateDiffView) -> Seq<AccountDiffView> {
    Seq::new(sd.state.len(), |j: int| account_diff_of(sd.state[j].0, sd.state[j].1, sd.contracts))
}

/// A bundle whose accounts are not what a consistent execution leaves.
#[derive(Clone, Copy, Debug, PartialEq, Eq, Structural)]
pub struct EncodingError;

pub(crate) fn copy_bytes(v: &Vec<u8>) -> (r: Vec<u8>)
    ensures
        r@ == v@,
{
    let mut r: Vec<u8> = Vec::new();
    let mut i: usize = 0;
    while i < v.len()
        invariant
            i <= v@.len(),
            r@ == v@.take(i as int),
        decreases v@.len() - i,
    {
        r.push(v[i]);
        i = i + 1;
        assert(r@ =~= v@.take(i as int));
    }
    assert(v@.take(v@.len() as int) =~= v@);
    r
}

fn copy_opt_bytes(v: &Option<Vec<u8>>) -> (r: Option<Vec<u8>>)
    ensures
        opt_bytes_view(r) == opt_bytes_view(*v),
{
    match v {
        Some(b) => Some(copy_bytes(b)),
        None => None,
    }
}

/// Whether two 32-byte words are equal.
pub fn words_equal(a: &[u8; 32], b: &[u8; 32]) -> (r: bool)
    ensures
        r == (a@ == b@),
{
    let mut i: usize = 0;
    while i < 32
        invariant
            i <= 32,
            a@.len() == 32,
            b@.len() == 32,
            forall|k: int| 0 <= k < i ==> a@[k] == b@[k],
        decreases 32 - i,
    {
        if a[i] != b[i] {
            return false;
        }
        i = i + 1;
    }
    assert(a@ =~= b@);
    true
}

/// The code that the pool holds under `h`.
fn lookup_code(pool: &Vec<(B256, Vec<u8>)>, h: &B256) -> (r: Option<Vec<u8>>)
    ensures
        opt_bytes_view(r) == code_in_pool(pool_view(pool@), h@),
{
    let ghost pv = pool_view(pool@);
    assert(pv.skip(0) =~= pv);
    let mut i: usize = 0;
    while i < pool.len()
        invariant
            i <= pool@.len(),
            pv == pool_view(pool@),
            code_in_pool(pv, h@) == code_in_pool(pv.skip(i as int), h@),
        decreases pool@.len() - i,
    {
        assert(pv.skip(i as int).drop_first() =~= pv.skip(i + 1));
        if words_equal(&pool[i].0, h) {
            return Some(copy_bytes(&pool[i].1));
        }
        i = i + 1;
    }
    None
}

impl AccountInfo {
    /// The same fields in diff form.
    pub fn to_db_account_info(&self) -> (r: DbAccountInfo)
        ensures
            r@ == self@,
    {
        DbAccountInfo {
            balance: self.balance,
            nonce: self.nonce,
            code_hash: self.code_hash,
            code: copy_opt_bytes(&self.code),
        }
    }
}

impl DbAccountInfo {
    /// The diff form of `account_info`, with `code` standing in where it has
    /// no code of its own.
    pub fn from_account_info(account_info: &AccountInfo, code: Option<Vec<u8>>) -> (r: Self)
        ensures
            r@ == (InfoView {
                code: if account_info@.code is Some { account_info@.code } else { opt_bytes_view(code) },
                ..account_info@
            }),
    {
        let mut info = account_info.to_db_account_info();
        if info.code.is_none() {
            info.code = code;
        }
        info
    }

    /// The same fields in bundle form.
    pub fn to_account_info(&self) -> (r: AccountInfo)
        ensures
            r@ == self@,
    {
        AccountInfo {
            balance: self.balance,
            nonce: self.nonce,
            code_hash: self.code_hash,
            code: copy_opt_bytes(&self.code),
        }
    }
}

fn opt_to_db(o: &Option<AccountInfo>) -> (r: Option<DbAccountInfo>)
    ensures
        opt_info_view(r) == opt_account_info_view(*o),
{
    match o {
        Some(i) => Some(i.to_db_account_info()),
        None => None,
    }
}

fn opt_to_account(o: &Option<DbAccountInfo>) -> (r: Option<AccountInfo>)
    ensures
        opt_account_info_view(r) == opt_info_view(*o),
{
    match o {
        Some(i) => Some(i.to_account_info()),
        None => None,
    }
}

impl DbStorageDiff {
    /// The slot changes of a bundle account, in the same order.
    pub fn from_storage(storage: &Vec<(U256, StorageSlot)>) -> (r: DbStorageDiff)
        ensures
            r@ == storage_view(storage@),
    {
        let mut entries: Vec<DbStorageDiffEntry> = Vec::new();
        let mut i: usize = 0;
        while i < storage.len()
            invariant
                i <= storage@.len(),
                DbStorageDiff(entries)@ =~= storage_view(storage@.take(i as int)),
            decreases storage@.len() - i,
        {
            let (key, slot) = storage[i];
            let ghost before = DbStorageDiff(entries)@;
            let e = DbStorageDiffEntry::new(key, slot.previous_or_original_value, slot.present_value);
            entries.push(e);
            assert(DbStorageDiff(entries)@ =~= before.push(e@));
            assert(storage@.take(i + 1) =~= storage@.take(i as int).push(storage@[i as int]));
            assert(storage_view(storage@.take(i + 1)) =~= storage_view(storage@.take(i as int)).push(
                slot_entry_view(storage@[i as int]),
            ));
            i = i + 1;
            assert(DbStorageDiff(entries)@ =~= storage_view(storage@.take(i as int)));
        }
        assert(storage@.take(storage@.len() as int) =~= storage@);
        DbStorageDiff(entries)
    }

    /// The slot changes in bundle form, each slot marked changed from its
    /// previous value to its current one.
    pub fn to_storage(&self) -> (r: Vec<(U256, StorageSlot)>)
        ensures
            storage_view(r@) == self@,
    {
        let mut out: Vec<(U256, StorageSlot)> = Vec::new();
        let mut i: usize = 0;
        while i < self.0.len()
            invariant
                i <= self.0@.len(),
                storage_view(out@) =~= self@.take(i as int),
            decreases self.0@.len() - i,
        {
            let e = self.0[i];
            let ghost before = out@;
            let item = (e.address, StorageSlot { previous_or_original_value: e.previous_value, present_value: e.current_value });
            out.push(item);
            assert(out@ =~= before.push(item));
            assert(storage_view(out@) =~= storage_view(before).push(slot_entry_view(item)));
            assert(self@.take(i + 1) =~= self@.take(i as int).push(self@[i as int]));
            i = i + 1;
            assert(storage_view(out@) =~= self@.take(i as int));
        }
        assert(self@.take(self@.len() as int) =~= self@);
        out
    }
}

impl StateDiff {
    /// The block diff record of this bundle: one account diff per account, in
    /// bundle order, each current account info completed with its code from
    /// the contract pool. Fails when a destroyed account still has account info.
    pub fn to_db_state_diff(&self) -> (r: Result<DbStateDiff, EncodingError>)
        ensures
            r is Err <==> has_inconsistent(self@),
            r matches Ok(d) ==> d@ == record_of(self@),
    {
        let ghost sv = self@;
        let mut out: Vec<DbBundleAccount> = Vec::new();
        let mut i: usize = 0;
        while i < self.state.len()
            invariant
                i <= self.state@.len(),
                sv == self@,
                sv.state.len() == self.state@.len(),
                forall|j: int| 0 <= j < i ==> !inconsistent(#[trigger] sv.state[j].1),
                (DbStateDiff { account_diffs: out })@ =~= record_of(sv).take(i as int),
            decreases self.state@.len() - i,
        {
            let (address, acc) = &self.state[i];
            assert(sv.state[i as int].1 == acc@);
            let destroyed = match acc.status {
                AccountStatus::Destroyed | AccountStatus::DestroyedAgain => true,
                _ => false,
            };
            if destroyed && acc.info.is_some() {
                assert(inconsistent(sv.state[i as int].1));
                return Err(EncodingError);
            }
            let info = match &acc.info {
                Some(ai) => {
                    let pooled = if ai.code.is_none() {
                        lookup_code(&self.contracts, &ai.code_hash)
                    } else {
                        None
                    };
                    Some(DbAccountInfo::from_account_info(ai, pooled))
                },
                None => None,
            };
            let diff = DbBundleAccount {
                address: *address,
                prev_info: opt_to_db(&acc.original_info),
                info,
                status: acc.status,
                storage: DbStorageDiff::from_storage(&acc.storage),
            };
            assert(diff@ == account_diff_of(sv.state[i as int].0, sv.state[i as int].1, sv.contracts));
            let ghost before = (DbStateDiff { account_diffs: out })@;
            out.push(diff);
            assert((DbStateDiff { account_diffs: out })@ =~= before.push(diff@));
            assert(record_of(sv).take(i + 1) =~= record_of(sv).take(i as int).push(record_of(sv)[i as int]));
            i = i + 1;
            assert((DbStateDiff { account_diffs: out })@ =~= record_of(sv).take(i as int));
        }
        assert(record_of(sv).take(sv.state.len() as int) =~= record_of(sv));
        Ok(DbStateDiff { account_diffs: out })
    }
}

impl DbStateDiff {
    /// The bundle form of a record: each account diff becomes a bundle account,
    /// with an empty contract pool (code stays inline in the account info).
    pub fn to_state_diff(&self) -> (r: StateDiff)
        ensures
            r@.contracts.len() == 0,
            r@.state.len() == self@.len(),
            forall|j: int| 0 <= j < self@.len() ==> {
                let a = #[trigger] self@[j];
                &&& r@.state[j].0 == a.address
                &&& r@.state[j].1 == (BundleAccountView {
                    info: a.info,
                    original_info: a.prev_info,
                    storage: a.storage,
                    status: a.status,
                })
            },
    {
        let mut state: Vec<(Address, BundleAccount)> = Vec::new();
        let mut i: usize = 0;
        while i < self.account_diffs.len()
            invariant
                i <= self.account_diffs@.len(),
                state@.len() == i,
                forall|j: int| 0 <= j < i ==> {
                    let a = #[trigger] self@[j];
                    &&& state@[j].0@ == a.address
                    &&& state@[j].1@ == (BundleAccountView {
                        info: a.info,
                        original_info: a.prev_info,
                        storage: a.storage,
                        status: a.status,
                    })
                },
            decreases self.account_diffs@.len() - i,
        {
            let d = &self.account_diffs[i];
            let acc = BundleAccount {
                info: opt_to_account(&d.info),
                original_info: opt_to_account(&d.prev_info),
                storage: d.storage.to_storage(),
                status: d.status,
            };
            state.push((d.address, acc));
            i = i + 1;
        }
        let r = StateDiff { state, contracts: Vec::new() };
        assert(r@.contracts =~= Seq::<(Seq<u8>, Seq<u8>)>::empty());
        r
    }
}

} // verus!
