//! The persisted byte form of a block diff record.
//!
//! Every field is length-prefixed or of fixed width, so a record can be read
//! back from the bytes alone. Integers are eight bytes, little-endian; an
//! optional value is a one-byte tag (0 absent, 1 present) followed by the value.

use vstd::prelude::*;
use vstd::bytes::{spec_u64_from_le_bytes, spec_u64_to_le_bytes, lemma_auto_spec_u64_to_from_le_bytes, u64_to_le_bytes, u64_from_le_bytes};
use vstd::slice::slice_subrange;
use crate::model::{
    status_code, status_of_code, to_account_status, from_account_status, AccountDiffView,
    AccountStatus, DbAccountInfo, DbBundleAccount, DbStateDiff, DbStorageDiff, DbStorageDiffEntry,
    InfoView, SlotView, opt_bytes_view, opt_info_view,
};

verus! {

// ---------------------------------------------------------------------------
// The encoding

pub open spec fn enc_u64(x: u64) -> Seq<u8> {
    spec_u64_to_le_bytes(x)
}

pub open spec fn enc_code(c: Option<Seq<u8>>) -> Seq<u8> {
    match c {
        None => seq![0u8],
        Some(b) => seq![1u8] + (enc_u64(b.len() as u64) + b),
    }
}

pub open spec fn enc_info(i: InfoView) -> Seq<u8> {
    i.balance + (enc_u64(i.nonce) + (i.code_hash + enc_code(i.code)))
}

pub open spec fn enc_opt_info(o: Option<InfoView>) -> Seq<u8> {
    match o {
        None => seq![0u8],
        Some(i) => seq![1u8] + enc_info(i),
    }
}

pub open spec fn enc_slot(s: SlotView) -> Seq<u8> {
    s.key + (s.previous + s.current)
}

pub open spec fn enc_slot_list(ss: Seq<SlotView>) -> Seq<u8>
    decreases ss.len(),
{
    if ss.len() == 0 {
        Seq::empty()
    } else {
        enc_slot(ss[0]) + enc_slot_list(ss.drop_first())
    }
}

pub open spec fn enc_account(a: AccountDiffView) -> Seq<u8> {
    a.address + (enc_u64(status_code(a.status)) + (enc_opt_info(a.prev_info) + (enc_opt_info(a.info)
        + (enc_u64(a.storage.len() as u64) + enc_slot_list(a.storage)))))
}

pub open spec fn enc_account_list(r: Seq<AccountDiffView>) -> Seq<u8>
    decreases r.len(),
{
    if r.len() == 0 {
        Seq::empty()
    } else {
        enc_account(r[0]) + enc_account_list(r.drop_first())
    }
}

/// The bytes of a whole record: the number of accounts, then each account.
pub open spec fn enc_record(r: Seq<AccountDiffView>) -> Seq<u8> {
    enc_u64(r.len() as u64) + enc_account_list(r)
}

// ---------------------------------------------------------------------------
// Reading it back: each reader returns the value and the bytes after it.

pub open spec fn parse_fixed(s: Seq<u8>, n: nat) -> Option<(Seq<u8>, Seq<u8>)> {
    if n <= s.len() {
        Some((s.take(n as int), s.skip(n as int)))
    } else {
        None
    }
}

pub open spec fn parse_u64(s: Seq<u8>) -> Option<(u64, Seq<u8>)> {
    if 8 <= s.len() {
        Some((spec_u64_from_le_bytes(s.take(8)), s.skip(8)))
    } else {
        None
    }
}

pub open spec fn parse_tag(s: Seq<u8>) -> Option<(u8, Seq<u8>)> {
    if 1 <= s.len() {
        Some((s[0], s.skip(1)))
    } else {
        None
    }
}

pub open spec fn parse_code(s: Seq<u8>) -> Option<(Option<Seq<u8>>, Seq<u8>)> {
    match parse_tag(s) {
        Some((t, r)) => if t == 0 {
            Some((None, r))
        } else if t == 1 {
            match parse_u64(r) {
                Some((n, r2)) => match parse_fixed(r2, n as nat) {
                    Some((b, r3)) => Some((Some(b), r3)),
                    None => None,
                },
                None => None,
            }
        } else {
            None
        },
        None => None,
    }
}

pub open spec fn parse_info(s: Seq<u8>) -> Option<(InfoView, Seq<u8>)> {
    match parse_fixed(s, 32) {
        Some((balance, r1)) => match parse_u64(r1) {
            Some((nonce, r2)) => match parse_fixed(r2, 32) {
                Some((code_hash, r3)) => match parse_code(r3) {
                    Some((code, r4)) => Some((InfoView { balance, nonce, code_hash, code }, r4)),
                    None => None,
                },
                None => None,
            },
            None => None,
        },
        None => None,
    }
}

pub open spec fn parse_opt_info(s: Seq<u8>) -> Option<(Option<InfoView>, Seq<u8>)> {
    match parse_tag(s) {
        Some((t, r)) => if t == 0 {
            Some((None, r))
        } else if t == 1 {
            match parse_info(r) {
                Some((i, r2)) => Some((Some(i), r2)),
                None => None,
            }
        } else {
            None
        },
        None => None,
    }
}

pub open spec fn parse_slot(s: Seq<u8>) -> Option<(SlotView, Seq<u8>)> {
    match parse_fixed(s, 32) {
        Some((key, r1)) => match parse_fixed(r1, 32) {
            Some((previous, r2)) => match parse_fixed(r2, 32) {
                Some((current, r3)) => Some((SlotView { key, previous, current }, r3)),
                None => None,
            },
            None => None,
        },
        None => None,
    }
}

/// Puts `p` in front of the values that a list reader returned.
pub open spec fn prepend<A>(p: Seq<A>, l: Option<(Seq<A>, Seq<u8>)>) -> Option<(Seq<A>, Seq<u8>)> {
    match l {
        Some((xs, r)) => Some((p + xs, r)),
        None => None,
    }
}

pub open spec fn parse_slot_list(s: Seq<u8>, n: nat) -> Option<(Seq<SlotView>, Seq<u8>)>
    decreases n,
{
    if n == 0 {
        Some((Seq::empty(), s))
    } else {
        match parse_slot(s) {
            Some((x, r)) => prepend(seq![x], parse_slot_list(r, (n - 1) as nat)),
            None => None,
        }
    }
}

#[verifier::opaque]
pub open spec fn parse_account(s: Seq<u8>) -> Option<(AccountDiffView, Seq<u8>)> {
    match parse_fixed(s, 20) {
        Some((address, r1)) => match parse_u64(r1) {
            Some((code, r2)) => match status_of_code(code) {
                Some(status) => match parse_opt_info(r2) {
                    Some((prev_info, r3)) => match parse_opt_info(r3) {
                        Some((info, r4)) => match parse_u64(r4) {
                            Some((n, r5)) => match parse_slot_list(r5, n as nat) {
                                Some((storage, r6)) => Some(
                                    (AccountDiffView { address, prev_info, info, status, storage }, r6),
                                ),
                                None => None,
                            },
                            None => None,
                        },
                        None => None,
                    },
                    None => None,
                },
                None => None,
            },
            None => None,
        },
        None => None,
    }
}

pub open spec fn parse_account_list(s: Seq<u8>, n: nat) -> Option<(Seq<AccountDiffView>, Seq<u8>)>
    decreases n,
{
    if n == 0 {
        Some((Seq::empty(), s))
    } else {
        match parse_account(s) {
            Some((x, r)) => prepend(seq![x], parse_account_list(r, (n - 1) as nat)),
            None => None,
        }
    }
}

/// The record that a byte string holds, if it is one whole record and nothing more.
pub open spec fn parse_record(s: Seq<u8>) -> Option<Seq<AccountDiffView>> {
    match parse_u64(s) {
        Some((n, r)) => match parse_account_list(r, n as nat) {
            Some((accounts, rest)) => if rest.len() == 0 {
                Some(accounts)
            } else {
                None
            },
            None => None,
        },
        None => None,
    }
}

// ---------------------------------------------------------------------------
// Which values have an encoding: fixed-width fields of the right width, and
// lengths that fit a 64-bit prefix.

pub open spec fn info_fits(i: InfoView) -> bool {
    &&& i.balance.len() == 32
    &&& i.code_hash.len() == 32
    &&& (i.code matches Some(c) ==> c.len() <= u64::MAX)
}

pub open spec fn opt_info_fits(o: Option<InfoView>) -> bool {
    o matches Some(i) ==> info_fits(i)
}

pub open spec fn slot_fits(s: SlotView) -> bool {
    s.key.len() == 32 && s.previous.len() == 32 && s.current.len() == 32
}

pub open spec fn account_fits(a: AccountDiffView) -> bool {
    &&& a.address.len() == 20
    &&& opt_info_fits(a.prev_info)
    &&& opt_info_fits(a.info)
    &&& a.storage.len() <= u64::MAX
    &&& forall|j: int| 0 <= j < a.storage.len() ==> slot_fits(#[trigger] a.storage[j])
}

pub open spec fn record_fits(r: Seq<AccountDiffView>) -> bool {
    &&& r.len() <= u64::MAX
    &&& forall|j: int| 0 <= j < r.len() ==> account_fits(#[trigger] r[j])
}

// ---------------------------------------------------------------------------
// Reading what was written gives the value back, and the bytes after it.

proof fn lemma_assoc(a: Seq<u8>, b: Seq<u8>, c: Seq<u8>)
    ensures
        (a + b) + c == a + (b + c),
{
    assert((a + b) + c =~= a + (b + c));
}

proof fn lemma_u64_round_trip(x: u64, rest: Seq<u8>)
    ensures
        parse_u64(enc_u64(x) + rest) == Some((x, rest)),
{
    lemma_auto_spec_u64_to_from_le_bytes();
    let s = enc_u64(x) + rest;
    assert(s.take(8) =~= enc_u64(x));
    assert(s.skip(8) =~= rest);
}

proof fn lemma_fixed_round_trip(b: Seq<u8>, rest: Seq<u8>)
    ensures
        parse_fixed(b + rest, b.len()) == Some((b, rest)),
{
    assert((b + rest).take(b.len() as int) =~= b);
    assert((b + rest).skip(b.len() as int) =~= rest);
}

proof fn lemma_tag_round_trip(t: u8, rest: Seq<u8>)
    ensures
        parse_tag(seq![t] + rest) == Some((t, rest)),
{
    assert((seq![t] + rest).skip(1) =~= rest);
}

proof fn lemma_code_round_trip(c: Option<Seq<u8>>, rest: Seq<u8>)
    requires
        c matches Some(b) ==> b.len() <= u64::MAX,
    ensures
        parse_code(enc_code(c) + rest) == Some((c, rest)),
{
    match c {
        None => {
            lemma_tag_round_trip(0, rest);
        },
        Some(b) => {
            let n = b.len() as u64;
            assert(enc_code(c) + rest =~= seq![1u8] + (enc_u64(n) + (b + rest)));
            lemma_tag_round_trip(1, enc_u64(n) + (b + rest));
            lemma_u64_round_trip(n, b + rest);
            lemma_fixed_round_trip(b, rest);
        },
    }
}

proof fn lemma_info_round_trip(i: InfoView, rest: Seq<u8>)
    requires
        info_fits(i),
    ensures
        parse_info(enc_info(i) + rest) == Some((i, rest)),
{
    let c = enc_code(i.code);
    assert(enc_info(i) + rest =~= i.balance + (enc_u64(i.nonce) + (i.code_hash + (c + rest))));
    lemma_fixed_round_trip(i.balance, enc_u64(i.nonce) + (i.code_hash + (c + rest)));
    lemma_u64_round_trip(i.nonce, i.code_hash + (c + rest));
    lemma_fixed_round_trip(i.code_hash, c + rest);
    lemma_code_round_trip(i.code, rest);
}

proof fn lemma_opt_info_round_trip(o: Option<InfoView>, rest: Seq<u8>)
    requires
        opt_info_fits(o),
    ensures
        parse_opt_info(enc_opt_info(o) + rest) == Some((o, rest)),
{
    match o {
        None => {
            lemma_tag_round_trip(0, rest);
        },
        Some(i) => {
            assert(enc_opt_info(o) + rest =~= seq![1u8] + (enc_info(i) + rest));
            lemma_tag_round_trip(1, enc_info(i) + rest);
            lemma_info_round_trip(i, rest);
        },
    }
}

proof fn lemma_slot_round_trip(s: SlotView, rest: Seq<u8>)
    requires
        slot_fits(s),
    ensures
        parse_slot(enc_slot(s) + rest) == Some((s, rest)),
{
    assert(enc_slot(s) + rest =~= s.key + (s.previous + (s.current + rest)));
    lemma_fixed_round_trip(s.key, s.previous + (s.current + rest));
    lemma_fixed_round_trip(s.previous, s.current + rest);
    lemma_fixed_round_trip(s.current, rest);
}

proof fn lemma_slot_list_round_trip(ss: Seq<SlotView>, rest: Seq<u8>)
    requires
        forall|j: int| 0 <= j < ss.len() ==> slot_fits(#[trigger] ss[j]),
    ensures
        parse_slot_list(enc_slot_list(ss) + rest, ss.len()) == Some((ss, rest)),
    decreases ss.len(),
{
    if ss.len() == 0 {
        assert(enc_slot_list(ss) + rest =~= rest);
    } else {
        let tail = ss.drop_first();
        assert(enc_slot_list(ss) + rest =~= enc_slot(ss[0]) + (enc_slot_list(tail) + rest));
        lemma_slot_round_trip(ss[0], enc_slot_list(tail) + rest);
        lemma_slot_list_round_trip(tail, rest);
        assert(seq![ss[0]] + tail =~= ss);
    }
}

#[verifier::rlimit(30)]
proof fn lemma_account_round_trip(a: AccountDiffView, rest: Seq<u8>)
    requires
        account_fits(a),
    ensures
        parse_account(enc_account(a) + rest) == Some((a, rest)),
{
    reveal(parse_account);
    let sl = enc_slot_list(a.storage);
    let n = a.storage.len() as u64;
    let r5 = enc_u64(n) + (sl + rest);
    let r4 = enc_opt_info(a.info) + r5;
    let r3 = enc_opt_info(a.prev_info) + r4;
    let r2 = enc_u64(status_code(a.status)) + r3;
    let x4 = enc_u64(n) + sl;
    let x3 = enc_opt_info(a.info) + x4;
    let x2 = enc_opt_info(a.prev_info) + x3;
    let x1 = enc_u64(status_code(a.status)) + x2;
    lemma_assoc(enc_u64(n), sl, rest);
    lemma_assoc(enc_opt_info(a.info), x4, rest);
    lemma_assoc(enc_opt_info(a.prev_info), x3, rest);
    lemma_assoc(enc_u64(status_code(a.status)), x2, rest);
    lemma_assoc(a.address, x1, rest);
    assert(enc_account(a) + rest == a.address + r2);
    lemma_fixed_round_trip(a.address, r2);
    lemma_u64_round_trip(status_code(a.status), r3);
    lemma_opt_info_round_trip(a.prev_info, r4);
    lemma_opt_info_round_trip(a.info, r5);
    lemma_u64_round_trip(n, sl + rest);
    lemma_slot_list_round_trip(a.storage, rest);
    assert(parse_fixed(enc_account(a) + rest, 20) == Some((a.address, r2)));
    assert(parse_u64(r2) == Some((status_code(a.status), r3)));
    assert(status_of_code(status_code(a.status)) == Some(a.status));
    assert(parse_opt_info(r3) == Some((a.prev_info, r4)));
    assert(parse_opt_info(r4) == Some((a.info, r5)));
    assert(parse_u64(r5) == Some((n, sl + rest)));
    assert(parse_slot_list(sl + rest, n as nat) == Some((a.storage, rest)));
}

proof fn lemma_account_list_round_trip(r: Seq<AccountDiffView>, rest: Seq<u8>)
    requires
        forall|j: int| 0 <= j < r.len() ==> account_fits(#[trigger] r[j]),
    ensures
        parse_account_list(enc_account_list(r) + rest, r.len()) == Some((r, rest)),
    decreases r.len(),
{
    if r.len() == 0 {
        assert(enc_account_list(r) + rest =~= rest);
    } else {
        let tail = r.drop_first();
        assert(enc_account_list(r) + rest =~= enc_account(r[0]) + (enc_account_list(tail) + rest));
        lemma_account_round_trip(r[0], enc_account_list(tail) + rest);
        lemma_account_list_round_trip(tail, rest);
        assert(seq![r[0]] + tail =~= r);
    }
}

/// Decoding the encoding of a record gives the record back, for every record
/// whose fields have their widths and whose lengths fit the 64-bit prefixes.
pub proof fn lemma_decode_encode(r: Seq<AccountDiffView>)
    requires
        record_fits(r),
    ensures
        parse_record(enc_record(r)) == Some(r),
{
    let body = enc_account_list(r);
    lemma_u64_round_trip(r.len() as u64, body);
    lemma_account_list_round_trip(r, Seq::empty());
    assert(body + Seq::<u8>::empty() =~= body);
}

// ---------------------------------------------------------------------------
// Writing

proof fn lemma_enc_slot_list_push(ss: Seq<SlotView>, x: SlotView)
    ensures
        enc_slot_list(ss.push(x)) == enc_slot_list(ss) + enc_slot(x),
    decreases ss.len(),
{
    if ss.len() == 0 {
        assert(ss.push(x).drop_first() =~= ss);
        assert(enc_slot_list(ss.push(x)) =~= enc_slot_list(ss) + enc_slot(x));
    } else {
        assert(ss.push(x).drop_first() =~= ss.drop_first().push(x));
        lemma_enc_slot_list_push(ss.drop_first(), x);
        lemma_assoc(enc_slot(ss[0]), enc_slot_list(ss.drop_first()), enc_slot(x));
    }
}

proof fn lemma_enc_account_list_push(r: Seq<AccountDiffView>, x: AccountDiffView)
    ensures
        enc_account_list(r.push(x)) == enc_account_list(r) + enc_account(x),
    decreases r.len(),
{
    if r.len() == 0 {
        assert(r.push(x).drop_first() =~= r);
        assert(enc_account_list(r.push(x)) =~= enc_account_list(r) + enc_account(x));
    } else {
        assert(r.push(x).drop_first() =~= r.drop_first().push(x));
        lemma_enc_account_list_push(r.drop_first(), x);
        lemma_assoc(enc_account(r[0]), enc_account_list(r.drop_first()), enc_account(x));
    }
}

fn put_u64(buf: &mut Vec<u8>, x: u64)
    ensures
        final(buf)@ == old(buf)@ + enc_u64(x),
{
    let mut b = u64_to_le_bytes(x);
    buf.append(&mut b);
}

fn put_tag(buf: &mut Vec<u8>, t: u8)
    ensures
        final(buf)@ == old(buf)@ + seq![t],
{
    buf.push(t);
    assert(buf@ =~= old(buf)@ + seq![t]);
}

fn put_bytes(buf: &mut Vec<u8>, b: &[u8])
    ensures
        final(buf)@ == old(buf)@ + b@,
{
    let mut i: usize = 0;
    while i < b.len()
        invariant
            i <= b@.len(),
            buf@ == old(buf)@ + b@.take(i as int),
        decreases b@.len() - i,
    {
        buf.push(b[i]);
        i = i + 1;
        assert(buf@ =~= old(buf)@ + b@.take(i as int));
    }
    assert(b@.take(b@.len() as int) =~= b@);
}

fn put_code(buf: &mut Vec<u8>, c: &Option<Vec<u8>>)
    ensures
        final(buf)@ == old(buf)@ + enc_code(opt_bytes_view(*c)),
{
    match c {
        None => put_tag(buf, 0),
        Some(b) => {
            put_tag(buf, 1);
            put_u64(buf, b.len() as u64);
            put_bytes(buf, b.as_slice());
            assert(buf@ =~= old(buf)@ + enc_code(opt_bytes_view(*c)));
        },
    }
}

fn put_info(buf: &mut Vec<u8>, i: &DbAccountInfo)
    ensures
        final(buf)@ == old(buf)@ + enc_info(i@),
{
    put_bytes(buf, &i.balance);
    put_u64(buf, i.nonce);
    put_bytes(buf, &i.code_hash);
    put_code(buf, &i.code);
    assert(buf@ =~= old(buf)@ + enc_info(i@));
}

fn put_opt_info(buf: &mut Vec<u8>, o: &Option<DbAccountInfo>)
    ensures
        final(buf)@ == old(buf)@ + enc_opt_info(opt_info_view(*o)),
{
    match o {
        None => put_tag(buf, 0),
        Some(i) => {
            put_tag(buf, 1);
            put_info(buf, i);
            assert(buf@ =~= old(buf)@ + enc_opt_info(opt_info_view(*o)));
        },
    }
}

fn put_slot(buf: &mut Vec<u8>, e: &DbStorageDiffEntry)
    ensures
        final(buf)@ == old(buf)@ + enc_slot(e@),
{
    put_bytes(buf, &e.address);
    put_bytes(buf, &e.previous_value);
    put_bytes(buf, &e.current_value);
    assert(buf@ =~= old(buf)@ + enc_slot(e@));
}

fn put_account(buf: &mut Vec<u8>, a: &DbBundleAccount)
    ensures
        final(buf)@ == old(buf)@ + enc_account(a@),
{
    let ghost start = buf@;
    put_bytes(buf, &a.address);
    put_u64(buf, from_account_status(a.status));
    put_opt_info(buf, &a.prev_info);
    put_opt_info(buf, &a.info);
    let slots = &a.storage.0;
    put_u64(buf, slots.len() as u64);
    let ghost head = buf@;
    let ghost v = a.storage@;
    let mut i: usize = 0;
    while i < slots.len()
        invariant
            i <= slots@.len(),
            v == a.storage@,
            v.len() == slots@.len(),
            slots == &a.storage.0,
            buf@ == head + enc_slot_list(v.take(i as int)),
        decreases slots@.len() - i,
    {
        put_slot(buf, &slots[i]);
        proof {
            assert(v.take(i + 1) =~= v.take(i as int).push(v[i as int]));
            lemma_enc_slot_list_push(v.take(i as int), v[i as int]);
            lemma_assoc(head, enc_slot_list(v.take(i as int)), enc_slot(v[i as int]));
        }
        i = i + 1;
    }
    proof {
        assert(v.take(v.len() as int) =~= v);
        let av = a@;
        let x4 = enc_u64(av.storage.len() as u64) + enc_slot_list(av.storage);
        let x3 = enc_opt_info(av.info) + x4;
        let x2 = enc_opt_info(av.prev_info) + x3;
        let x1 = enc_u64(status_code(av.status)) + x2;
        assert(buf@ =~= start + (av.address + x1));
    }
}

impl DbStateDiff {
    /// Appends the record's persisted bytes to `buf`.
    pub fn compress_to_buf(&self, buf: &mut Vec<u8>)
        ensures
            final(buf)@ == old(buf)@ + enc_record(self@),
    {
        let accounts = &self.account_diffs;
        put_u64(buf, accounts.len() as u64);
        let ghost head = buf@;
        let ghost v = self@;
        let mut i: usize = 0;
        while i < accounts.len()
            invariant
                i <= accounts@.len(),
                v == self@,
                v.len() == accounts@.len(),
                accounts == &self.account_diffs,
                buf@ == head + enc_account_list(v.take(i as int)),
            decreases accounts@.len() - i,
        {
            put_account(buf, &accounts[i]);
            proof {
                assert(v.take(i + 1) =~= v.take(i as int).push(v[i as int]));
                lemma_enc_account_list_push(v.take(i as int), v[i as int]);
                lemma_assoc(head, enc_account_list(v.take(i as int)), enc_account(v[i as int]));
            }
            i = i + 1;
        }
        proof {
            assert(v.take(v.len() as int) =~= v);
            lemma_assoc(old(buf)@, enc_u64(v.len() as u64), enc_account_list(v));
        }
    }

    /// The record's persisted bytes.
    pub fn compress(&self) -> (r: Vec<u8>)
        ensures
            r@ == enc_record(self@),
    {
        let mut buf: Vec<u8> = Vec::new();
        self.compress_to_buf(&mut buf);
        assert(buf@ =~= enc_record(self@));
        buf
    }
}

// ---------------------------------------------------------------------------
// Reading

/// A reader's result stands for what the spec reader gives on the bytes from
/// the same position: the value, and the position where the rest begins.
pub open spec fn read_as<T: View>(r: Option<(T, usize)>, p: Option<(T::V, Seq<u8>)>, b: Seq<u8>) -> bool {
    match p {
        None => r is None,
        Some((m, rest)) => match r {
            Some((x, q)) => x@ == m && q <= b.len() && b.skip(q as int) == rest,
            None => false,
        },
    }
}

proof fn lemma_prepend_push<A>(p: Seq<A>, x: A, l: Option<(Seq<A>, Seq<u8>)>)
    ensures
        prepend(p, prepend(seq![x], l)) == prepend(p.push(x), l),
{
    match l {
        Some((xs, r)) => {
            assert(p + (seq![x] + xs) =~= p.push(x) + xs);
        },
        None => {},
    }
}

fn read_array<const N: usize>(b: &[u8], pos: usize) -> (r: Option<([u8; N], usize)>)
    requires
        pos <= b@.len(),
    ensures
        read_as(r, parse_fixed(b@.skip(pos as int), N as nat), b@),
{
    if b.len() - pos < N {
        return None;
    }
    let mut w = [0u8; N];
    let mut i: usize = 0;
    while i < N
        invariant
            i <= N,
            pos + N <= b.len(),
            w@.len() == N,
            forall|k: int| 0 <= k < i ==> w@[k] == b@[pos + k],
        decreases N - i,
    {
        w[i] = b[pos + i];
        i = i + 1;
    }
    assert(w@ =~= b@.skip(pos as int).take(N as int));
    assert(b@.skip((pos + N) as int) =~= b@.skip(pos as int).skip(N as int));
    Some((w, pos + N))
}

fn read_u64(b: &[u8], pos: usize) -> (r: Option<(u64, usize)>)
    requires
        pos <= b@.len(),
    ensures
        read_as(r, parse_u64(b@.skip(pos as int)), b@),
{
    if b.len() - pos < 8 {
        return None;
    }
    let x = u64_from_le_bytes(slice_subrange(b, pos, pos + 8));
    assert(b@.subrange(pos as int, pos + 8) =~= b@.skip(pos as int).take(8));
    assert(b@.skip(pos + 8) =~= b@.skip(pos as int).skip(8));
    Some((x, pos + 8))
}

fn read_tag(b: &[u8], pos: usize) -> (r: Option<(u8, usize)>)
    requires
        pos <= b@.len(),
    ensures
        read_as(r, parse_tag(b@.skip(pos as int)), b@),
{
    if pos == b.len() {
        return None;
    }
    assert(b@.skip(pos + 1) =~= b@.skip(pos as int).skip(1));
    Some((b[pos], pos + 1))
}

fn read_vec(b: &[u8], pos: usize, n: u64) -> (r: Option<(Vec<u8>, usize)>)
    requires
        pos <= b@.len(),
    ensures
        read_as(r, parse_fixed(b@.skip(pos as int), n as nat), b@),
{
    let avail = b.len() - pos;
    if (avail as u64) < n {
        return None;
    }
    let n = n as usize;
    let mut v: Vec<u8> = Vec::new();
    let mut i: usize = 0;
    while i < n
        invariant
            i <= n,
            pos + n <= b.len(),
            v@ == b@.subrange(pos as int, pos + i),
        decreases n - i,
    {
        v.push(b[pos + i]);
        i = i + 1;
        assert(v@ =~= b@.subrange(pos as int, pos + i));
    }
    assert(v@ =~= b@.skip(pos as int).take(n as int));
    assert(b@.skip((pos + n) as int) =~= b@.skip(pos as int).skip(n as int));
    Some((v, pos + n))
}

fn read_code(b: &[u8], pos: usize) -> (r: Option<(Option<Vec<u8>>, usize)>)
    requires
        pos <= b@.len(),
    ensures
        match parse_code(b@.skip(pos as int)) {
            None => r is None,
            Some((m, rest)) => match r {
                Some((x, q)) => opt_bytes_view(x) == m && q <= b@.len() && b@.skip(q as int) == rest,
                None => false,
            },
        },
{
    let (t, at1) = match read_tag(b, pos) {
        Some(x) => x,
        None => return None,
    };
    if t == 0 {
        Some((None, at1))
    } else if t == 1 {
        let (n, at2) = match read_u64(b, at1) {
            Some(x) => x,
            None => return None,
        };
        match read_vec(b, at2, n) {
            Some((v, at3)) => Some((Some(v), at3)),
            None => None,
        }
    } else {
        None
    }
}

fn read_info(b: &[u8], pos: usize) -> (r: Option<(DbAccountInfo, usize)>)
    requires
        pos <= b@.len(),
    ensures
        read_as(r, parse_info(b@.skip(pos as int)), b@),
{
    let (balance, at1) = match read_array::<32>(b, pos) {
        Some(x) => x,
        None => return None,
    };
    let (nonce, at2) = match read_u64(b, at1) {
        Some(x) => x,
        None => return None,
    };
    let (code_hash, at3) = match read_array::<32>(b, at2) {
        Some(x) => x,
        None => return None,
    };
    let (code, at4) = match read_code(b, at3) {
        Some(x) => x,
        None => return None,
    };
    Some((DbAccountInfo { balance, nonce, code_hash, code }, at4))
}

fn read_opt_info(b: &[u8], pos: usize) -> (r: Option<(Option<DbAccountInfo>, usize)>)
    requires
        pos <= b@.len(),
    ensures
        match parse_opt_info(b@.skip(pos as int)) {
            None => r is None,
            Some((m, rest)) => match r {
                Some((x, q)) => opt_info_view(x) == m && q <= b@.len() && b@.skip(q as int) == rest,
                None => false,
            },
        },
{
    let (t, at1) = match read_tag(b, pos) {
        Some(x) => x,
        None => return None,
    };
    if t == 0 {
        Some((None, at1))
    } else if t == 1 {
        match read_info(b, at1) {
            Some((i, at2)) => Some((Some(i), at2)),
            None => None,
        }
    } else {
        None
    }
}

fn read_slot(b: &[u8], pos: usize) -> (r: Option<(DbStorageDiffEntry, usize)>)
    requires
        pos <= b@.len(),
    ensures
        read_as(r, parse_slot(b@.skip(pos as int)), b@),
{
    let (address, at1) = match read_array::<32>(b, pos) {
        Some(x) => x,
        None => return None,
    };
    let (previous_value, at2) = match read_array::<32>(b, at1) {
        Some(x) => x,
        None => return None,
    };
    let (current_value, at3) = match read_array::<32>(b, at2) {
        Some(x) => x,
        None => return None,
    };
    Some((DbStorageDiffEntry { address, previous_value, current_value }, at3))
}

fn read_slot_list(b: &[u8], pos: usize, n: u64) -> (r: Option<(DbStorageDiff, usize)>)
    requires
        pos <= b@.len(),
    ensures
        read_as(r, parse_slot_list(b@.skip(pos as int), n as nat), b@),
{
    let ghost s0 = b@.skip(pos as int);
    let mut slots: Vec<DbStorageDiffEntry> = Vec::new();
    let mut p = pos;
    let mut k: u64 = 0;
    while k < n
        invariant
            p <= b@.len(),
            k <= n,
            s0 == b@.skip(pos as int),
            parse_slot_list(s0, n as nat) == prepend(
                DbStorageDiff(slots)@,
                parse_slot_list(b@.skip(p as int), (n - k) as nat),
            ),
        decreases n - k,
    {
        match read_slot(b, p) {
            None => return None,
            Some((e, q)) => {
                proof {
                    lemma_prepend_push(
                        DbStorageDiff(slots)@,
                        e@,
                        parse_slot_list(b@.skip(q as int), (n - k - 1) as nat),
                    );
                }
                let ghost before = DbStorageDiff(slots)@;
                slots.push(e);
                assert(DbStorageDiff(slots)@ =~= before.push(e@));
                p = q;
                k = k + 1;
            },
        }
    }
    let r = DbStorageDiff(slots);
    assert(r@ + Seq::<SlotView>::empty() =~= r@);
    Some((r, p))
}

fn read_account(b: &[u8], pos: usize) -> (r: Option<(DbBundleAccount, usize)>)
    requires
        pos <= b@.len(),
    ensures
        read_as(r, parse_account(b@.skip(pos as int)), b@),
{
    reveal(parse_account);
    let (address, at1) = match read_array::<20>(b, pos) {
        Some(x) => x,
        None => return None,
    };
    let (code, at2) = match read_u64(b, at1) {
        Some(x) => x,
        None => return None,
    };
    let status = match to_account_status(code) {
        Some(s) => s,
        None => return None,
    };
    let (prev_info, at3) = match read_opt_info(b, at2) {
        Some(x) => x,
        None => return None,
    };
    let (info, at4) = match read_opt_info(b, at3) {
        Some(x) => x,
        None => return None,
    };
    let (n, at5) = match read_u64(b, at4) {
        Some(x) => x,
        None => return None,
    };
    let (storage, at6) = match read_slot_list(b, at5, n) {
        Some(x) => x,
        None => return None,
    };
    Some((DbBundleAccount { address, prev_info, info, status, storage }, at6))
}

/// Persisted bytes that are not exactly one whole record.
#[derive(Clone, Copy, Debug, PartialEq, Eq, Structural)]
pub struct CorruptDiffError;

impl DbStateDiff {
    /// Reads a record back from its persisted bytes. Fails on truncated or
    /// malformed input, on a status code outside the table, and on bytes left
    /// over after the record.
    pub fn decompress(value: &[u8]) -> (r: Result<DbStateDiff, CorruptDiffError>)
        ensures
            match parse_record(value@) {
                Some(m) => r matches Ok(d) && d@ == m,
                None => r is Err,
            },
    {
        proof {
            assert(value@.skip(0) =~= value@);
        }
        let (n, pos) = match read_u64(value, 0) {
            Some(x) => x,
            None => return Err(CorruptDiffError),
        };
        let ghost s0 = value@.skip(pos as int);
        let mut accounts: Vec<DbBundleAccount> = Vec::new();
        let mut p = pos;
        let mut k: u64 = 0;
        while k < n
            invariant
                p <= value@.len(),
                k <= n,
                s0 == value@.skip(pos as int),
                parse_u64(value@) == Some((n, s0)),
                parse_account_list(s0, n as nat) == prepend(
                    DbStateDiff { account_diffs: accounts }@,
                    parse_account_list(value@.skip(p as int), (n - k) as nat),
                ),
            decreases n - k,
        {
            match read_account(value, p) {
                None => return Err(CorruptDiffError),
                Some((a, q)) => {
                    proof {
                        lemma_prepend_push(
                            DbStateDiff { account_diffs: accounts }@,
                            a@,
                            parse_account_list(value@.skip(q as int), (n - k - 1) as nat),
                        );
                    }
                    let ghost before = DbStateDiff { account_diffs: accounts }@;
                    accounts.push(a);
                    assert(DbStateDiff { account_diffs: accounts }@ =~= before.push(a@));
                    p = q;
                    k = k + 1;
                },
            }
        }
        let r = DbStateDiff { account_diffs: accounts };
        assert(r@ + Seq::<AccountDiffView>::empty() =~= r@);
        if p < value.len() {
            return Err(CorruptDiffError);
        }
        Ok(r)
    }
}

proof fn lemma_account_list_prefix(prefix: Seq<AccountDiffView>, tail: Seq<u8>, m: nat)
    requires
        forall|j: int| 0 <= j < prefix.len() ==> account_fits(#[trigger] prefix[j]),
        m >= prefix.len(),
    ensures
        parse_account_list(enc_account_list(prefix) + tail, m) == prepend(
            prefix,
            parse_account_list(tail, (m - prefix.len()) as nat),
        ),
    decreases prefix.len(),
{
    if prefix.len() == 0 {
        assert(enc_account_list(prefix) + tail =~= tail);
        match parse_account_list(tail, m) {
            Some((xs, r)) => {
                assert(prefix + xs =~= xs);
            },
            None => {},
        }
    } else {
        let t = prefix.drop_first();
        let l = parse_account_list(tail, (m - prefix.len()) as nat);
        lemma_assoc(enc_account(prefix[0]), enc_account_list(t), tail);
        lemma_account_round_trip(prefix[0], enc_account_list(t) + tail);
        lemma_account_list_prefix(t, tail, (m - 1) as nat);
        match l {
            Some((xs, r)) => {
                assert(seq![prefix[0]] + (t + xs) =~= prefix + xs);
            },
            None => {},
        }
    }
}

/// A record does not decode when one of its accounts carries a status code
/// outside the table of eight: whatever well-formed accounts precede it, and
/// whatever bytes follow its status.
pub proof fn lemma_unknown_status_rejected(
    prefix: Seq<AccountDiffView>,
    n: u64,
    address: Seq<u8>,
    code: u64,
    rest: Seq<u8>,
)
    requires
        forall|j: int| 0 <= j < prefix.len() ==> account_fits(#[trigger] prefix[j]),
        n > prefix.len(),
        address.len() == 20,
        code >= 8,
    ensures
        parse_record(enc_u64(n) + (enc_account_list(prefix) + (address + (enc_u64(code) + rest)))) is None,
{
    let tail = address + (enc_u64(code) + rest);
    lemma_u64_round_trip(n, enc_account_list(prefix) + tail);
    lemma_account_list_prefix(prefix, tail, n as nat);
    lemma_fixed_round_trip(address, enc_u64(code) + rest);
    lemma_u64_round_trip(code, rest);
    assert(status_of_code(code) is None);
    assert(parse_account(tail) is None) by {
        reveal(parse_account);
    }
    assert(parse_account_list(tail, (n - prefix.len()) as nat) is None);
}

} // verus!
