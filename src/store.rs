//! The store of block diff records, keyed by block hash, that applies the
//! dispatcher's operations.

use vstd::prelude::*;
use crate::bundle::words_equal;
use crate::dispatch::{OpView, StateDiffOp};
use crate::model::{AccountDiffView, B256, DbStateDiff};

verus! {

/// Stored records, each with its block hash, oldest first.
pub type StoreModel = Seq<(Seq<u8>, Seq<AccountDiffView>)>;

/// The entries whose hash is not `h`, in the same order.
pub open spec fn without(s: StoreModel, h: Seq<u8>) -> StoreModel
    decreases s.len(),
{
    if s.len() == 0 {
        s
    } else {
        let w = without(s.drop_last(), h);
        if s.last().0 == h {
            w
        } else {
            w.push(s.last())
        }
    }
}

/// A store after an operation: an insert replaces any record under the same
/// hash; a delete removes it.
pub open spec fn apply_op(s: StoreModel, op: OpView) -> StoreModel {
    match op {
        OpView::Put(h, r) => without(s, h).push((h, r)),
        OpView::Del(h) => without(s, h),
    }
}

pub open spec fn stored(s: StoreModel, h: Seq<u8>) -> bool {
    exists|i: int| 0 <= i < s.len() && (#[trigger] s[i]).0 == h
}

/// No two entries share a hash.
pub open spec fn keys_unique(s: StoreModel) -> bool {
    forall|i: int, j: int| 0 <= i < j < s.len() ==> (#[trigger] s[i]).0 != (#[trigger] s[j]).0
}

proof fn lemma_without(s: StoreModel, h: Seq<u8>)
    ensures
        !stored(without(s, h), h),
        forall|k: Seq<u8>| k != h ==> (#[trigger] stored(without(s, h), k) <==> stored(s, k)),
        keys_unique(s) ==> keys_unique(without(s, h)),
    decreases s.len(),
{
    if s.len() > 0 {
        let t = s.drop_last();
        let x = s.last();
        lemma_without(t, h);
        let w = without(t, h);
        assert(t.push(x) =~= s);
        assert forall|k: Seq<u8>| stored(t, k) implies #[trigger] stored(s, k) by {
            let i = choose|i: int| 0 <= i < t.len() && (#[trigger] t[i]).0 == k;
            assert(s[i] == t[i]);
        }
        assert forall|k: Seq<u8>| stored(s, k) && k != x.0 implies #[trigger] stored(t, k) by {
            let i = choose|i: int| 0 <= i < s.len() && (#[trigger] s[i]).0 == k;
            assert(i < t.len());
            assert(t[i] == s[i]);
        }
        if keys_unique(s) {
            assert(keys_unique(t)) by {
                assert forall|i: int, j: int| 0 <= i < j < t.len() implies (#[trigger] t[i]).0 != (#[trigger] t[j]).0 by {
                    assert(s[i] == t[i] && s[j] == t[j]);
                }
            }
            assert(!stored(t, x.0)) by {
                if stored(t, x.0) {
                    let i = choose|i: int| 0 <= i < t.len() && (#[trigger] t[i]).0 == x.0;
                    assert(s[i] == t[i]);
                    assert(s[s.len() - 1] == x);
                }
            }
        }
        if x.0 != h {
            let v = w.push(x);
            assert forall|k: Seq<u8>| stored(v, k) <==> stored(w, k) || k == x.0 by {
                if stored(v, k) {
                    let i = choose|i: int| 0 <= i < v.len() && (#[trigger] v[i]).0 == k;
                    if i < w.len() {
                        assert(w[i] == v[i]);
                    }
                }
                if stored(w, k) {
                    let i = choose|i: int| 0 <= i < w.len() && (#[trigger] w[i]).0 == k;
                    assert(v[i] == w[i]);
                }
                if k == x.0 {
                    assert(v[w.len() as int] == x);
                }
            }
            if keys_unique(s) {
                assert(!stored(w, x.0));
                assert forall|i: int, j: int| 0 <= i < j < v.len() implies (#[trigger] v[i]).0 != (#[trigger] v[j]).0 by {
                    if j == w.len() {
                        assert(v[i] == w[i]);
                        if w[i].0 == x.0 {
                            assert(stored(w, x.0));
                        }
                    } else {
                        assert(v[i] == w[i] && v[j] == w[j]);
                    }
                }
            }
        }
    }
}

/// Records of blocks, by block hash.
pub struct DiffStore {
    entries: Vec<(B256, DbStateDiff)>,
}

impl View for DiffStore {
    type V = StoreModel;

    closed spec fn view(&self) -> StoreModel {
        self.entries@.map_values(|e: (B256, DbStateDiff)| (e.0@, e.1@))
    }
}

impl DiffStore {
    pub fn new() -> (r: Self)
        ensures
            r@.len() == 0,
            keys_unique(r@),
    {
        let r = DiffStore { entries: Vec::new() };
        assert(r@ =~= Seq::empty());
        r
    }

    /// The number of stored records.
    pub fn len(&self) -> (r: usize)
        ensures
            r == self@.len(),
    {
        self.entries.len()
    }

    /// Whether a record is stored under `h`.
    pub fn contains(&self, h: &B256) -> (r: bool)
        ensures
            r == stored(self@, h@),
    {
        let mut i: usize = 0;
        while i < self.entries.len()
            invariant
                i <= self@.len(),
                self@.len() == self.entries@.len(),
                forall|k: int| 0 <= k < i ==> (#[trigger] self@[k]).0 != h@,
            decreases self.entries@.len() - i,
        {
            assert(self@[i as int].0 == self.entries@[i as int].0@);
            if words_equal(&self.entries[i].0, h) {
                return true;
            }
            i = i + 1;
        }
        false
    }

    /// The record stored under `h`, if any.
    pub fn get(&self, h: &B256) -> (r: Option<&DbStateDiff>)
        ensures
            r is None <==> !stored(self@, h@),
            r matches Some(d) ==> exists|i: int| 0 <= i < self@.len() && #[trigger] self@[i] == (h@, d@),
    {
        let mut i: usize = 0;
        while i < self.entries.len()
            invariant
                i <= self@.len(),
                self@.len() == self.entries@.len(),
                forall|k: int| 0 <= k < i ==> (#[trigger] self@[k]).0 != h@,
            decreases self.entries@.len() - i,
        {
            assert(self@[i as int] == (self.entries@[i as int].0@, self.entries@[i as int].1@));
            if words_equal(&self.entries[i].0, h) {
                return Some(&self.entries[i].1);
            }
            i = i + 1;
        }
        None
    }

    fn remove_key(&mut self, h: &B256)
        ensures
            final(self)@ == without(old(self)@, h@),
    {
        let ghost orig = old(self)@;
        let mut i: usize = 0;
        let ghost mut j: int = 0;
        proof {
            assert(orig.take(0) =~= Seq::empty());
            assert(orig.skip(0) =~= orig);
            assert(self@ =~= without(orig.take(0), h@) + orig.skip(0));
        }
        while i < self.entries.len()
            invariant
                0 <= j <= orig.len(),
                i == without(orig.take(j), h@).len(),
                self@ == without(orig.take(j), h@) + orig.skip(j),
                self@.len() == self.entries@.len(),
            decreases self.entries@.len() - i,
        {
            let ghost w = without(orig.take(j), h@);
            assert(j < orig.len());
            assert(orig.take(j + 1).drop_last() =~= orig.take(j));
            assert(orig.take(j + 1).last() == orig[j]);
            assert(self@[i as int] == orig[j]);
            assert(self@[i as int] == (self.entries@[i as int].0@, self.entries@[i as int].1@));
            if words_equal(&self.entries[i].0, h) {
                let ghost before = self@;
                let ghost before_entries = self.entries@;
                self.entries.remove(i);
                assert(self.entries@ == before_entries.remove(i as int));
                assert(self@ =~= before.remove(i as int));
                assert(before.remove(i as int) =~= w + orig.skip(j + 1));
            } else {
                assert(w.push(orig[j]) + orig.skip(j + 1) =~= w + orig.skip(j));
                i = i + 1;
            }
            proof {
                j = j + 1;
            }
        }
        assert(orig.skip(j) =~= Seq::empty());
        assert(j == orig.len());
        assert(orig.take(j) =~= orig);
        assert(self@ =~= without(orig, h@));
    }

    /// Applies one operation. Hashes stay unique.
    pub fn apply(&mut self, op: StateDiffOp)
        ensures
            final(self)@ == apply_op(old(self)@, op@),
            keys_unique(old(self)@) ==> keys_unique(final(self)@),
    {
        match op {
            StateDiffOp::Put(h, d) => {
                proof {
                    lemma_without(self@, h@);
                }
                self.remove_key(&h);
                proof {
                    let w = self@;
                    let v = w.push((h@, d@));
                    if keys_unique(old(self)@) {
                        assert forall|i: int, j: int| 0 <= i < j < v.len() implies (#[trigger] v[i]).0 != (#[trigger] v[j]).0 by {
                            if j == w.len() {
                                assert(v[i] == w[i]);
                                if w[i].0 == h@ {
                                    assert(stored(w, h@));
                                }
                            } else {
                                assert(v[i] == w[i] && v[j] == w[j]);
                            }
                        }
                    }
                }
                let ghost before = self@;
                self.entries.push((h, d));
                assert(self@ =~= before.push((h@, d@)));
            },
            StateDiffOp::Del(h) => {
                proof {
                    lemma_without(self@, h@);
                }
                self.remove_key(&h);
            },
        }
    }
}

/// Deleting a hash that the store does not hold leaves it as it was.
pub proof fn lemma_delete_absent_is_noop(s: StoreModel, h: Seq<u8>)
    requires
        !stored(s, h),
    ensures
        apply_op(s, OpView::Del(h)) == s,
    decreases s.len(),
{
    if s.len() > 0 {
        let t = s.drop_last();
        assert(!stored(t, h)) by {
            if stored(t, h) {
                let i = choose|i: int| 0 <= i < t.len() && (#[trigger] t[i]).0 == h;
                assert(s[i].0 == h);
            }
        }
        lemma_delete_absent_is_noop(t, h);
        assert(s.last() == s[s.len() - 1]);
        assert(t.push(s.last()) =~= s);
    }
}

} // verus!
