//! Block access list contents per account: storage histories, account-info histories, and the
//! list of accounts, built from transaction changes and read back at a block access index.

use vstd::prelude::*;
use crate::bal::{
    BalChangeKind, BalDecodeError, BalError, BalWrites, SlotChanges, StorageBal, change_list_check,
    changed_slots, checked_changes, checked_code_changes, checked_storage, code_hashes,
    final_value, law_update_reaches_value, prefix_last, sorted_by_index, spec_update,
    slot_views, storage_check,
};
use crate::bytecode::Bytecode;
use crate::primitives::{Address, B256, Word};
use crate::state::{AccountChange, AccountChangeView, AccountInfo, TrackedValue};
use crate::vecmap::{SortKey, VecMap, keys_sorted};

verus! {

/// The write histories of a storage BAL, by slot.
pub open spec fn histories(sb: StorageBal) -> Map<Word, Seq<(u64, Word)>> {
    Map::new(|k: Word| sb.storage@.contains_key(k), |k: Word| sb.storage@[k]@)
}

/// Histories after a storage wipe: every slot listed so far becomes a read.
pub open spec fn wiped_histories(h: Map<Word, Seq<(u64, Word)>>) -> Map<Word, Seq<(u64, Word)>> {
    Map::new(|k: Word| h.contains_key(k), |k: Word| Seq::<(u64, Word)>::empty())
}

/// The history of slot `k` after a transaction that loaded or wrote it: a zero over wiped
/// storage stays a read, any other value is recorded as a write at `bal_index`.
pub open spec fn slot_history_after(
    base: Map<Word, Seq<(u64, Word)>>,
    bal_index: u64,
    wiped: bool,
    slot: TrackedValue<Word>,
    k: Word,
) -> Seq<(u64, Word)> {
    let w = if base.contains_key(k) {
        base[k]
    } else {
        Seq::empty()
    };
    if !wiped || slot.current != Word::spec_zero() {
        spec_update(w, bal_index, slot.original, slot.current)
    } else {
        w
    }
}

/// Histories after recording a transaction's slots at `bal_index`: a wipe first turns every
/// listed slot into a read; each loaded slot is then listed, and a changed one recorded.
pub open spec fn pending_histories(
    h: Map<Word, Seq<(u64, Word)>>,
    bal_index: u64,
    wiped: bool,
    slots: Map<Word, TrackedValue<Word>>,
) -> Map<Word, Seq<(u64, Word)>> {
    let base = if wiped {
        wiped_histories(h)
    } else {
        h
    };
    Map::new(
        |k: Word| base.contains_key(k) || slots.contains_key(k),
        |k: Word|
            if slots.contains_key(k) {
                slot_history_after(base, bal_index, wiped, slots[k], k)
            } else {
                base[k]
            },
    )
}

/// Histories after listing the slots of `reads` as read.
pub open spec fn read_histories(h: Map<Word, Seq<(u64, Word)>>, reads: Seq<Word>) -> Map<
    Word,
    Seq<(u64, Word)>,
> {
    Map::new(
        |k: Word| h.contains_key(k) || reads.contains(k),
        |k: Word|
            if h.contains_key(k) {
                h[k]
            } else {
                Seq::empty()
            },
    )
}

/// `r` is the writes of `a` and `b` together, sorted by block access index.
pub open spec fn merged_history<T>(a: Seq<(u64, T)>, b: Seq<(u64, T)>, r: Seq<(u64, T)>) -> bool {
    sorted_by_index(r) && r.to_multiset() == a.to_multiset().add(b.to_multiset())
}

/// An empty write history.
fn no_writes() -> (r: BalWrites<Word>)
    ensures
        r@ == Seq::<(u64, Word)>::empty(),
{
    BalWrites { writes: Vec::new() }
}

impl StorageBal {
    /// An empty storage BAL.
    pub fn new() -> (r: StorageBal)
        ensures
            histories(r) == Map::<Word, Seq<(u64, Word)>>::empty(),
    {
        let r = StorageBal { storage: VecMap::new() };
        assert(histories(r) =~= Map::<Word, Seq<(u64, Word)>>::empty());
        r
    }

    /// Turns every slot listed so far into a read, as a storage wipe requires.
    pub fn record_wipe(&mut self)
        ensures
            histories(*final(self)) == wiped_histories(histories(*old(self))),
    {
        let keys = self.storage.keys();
        let ghost h0 = histories(*old(self));
        let mut i: usize = 0;
        while i < keys.len()
            invariant
                i <= keys@.len(),
                keys@.no_duplicates(),
                keys@.to_set() == h0.dom(),
                forall|k: Word| #[trigger] self.storage@.contains_key(k) <==> h0.contains_key(k),
                forall|k: Word|
                    #[trigger] self.storage@.contains_key(k) ==> self.storage@[k]@ == if keys@.take(
                        i as int,
                    ).contains(k) {
                        Seq::<(u64, Word)>::empty()
                    } else {
                        h0[k]
                    },
            decreases keys@.len() - i,
        {
            let k = keys[i];
            proof {
                assert(keys@.to_set().contains(k));
            }
            self.storage.remove(&k);
            self.storage.insert(k, no_writes());
            proof {
                assert(keys@.take(i + 1) =~= keys@.take(i as int).push(k));
                assert forall|x: Word| #[trigger] keys@.take(i + 1).contains(x) <==> (keys@.take(
                    i as int,
                ).contains(x) || x == k) by {
                    if keys@.take(i + 1).contains(x) && x != k {
                        let m = choose|m: int| 0 <= m < i + 1 && #[trigger] keys@.take(i + 1)[m] == x;
                        assert(keys@.take(i as int)[m] == x);
                    }
                    if keys@.take(i as int).contains(x) {
                        let m = choose|m: int| 0 <= m < i && #[trigger] keys@.take(i as int)[m] == x;
                        assert(keys@.take(i + 1)[m] == x);
                    }
                    if x == k {
                        assert(keys@.take(i + 1)[i as int] == x);
                    }
                }
            }
            i += 1;
        }
        proof {
            assert(keys@.take(keys@.len() as int) =~= keys@);
            assert forall|k: Word| h0.contains_key(k) implies keys@.contains(k) by {
                assert(keys@.to_set().contains(k));
            }
            assert(histories(*self) =~= wiped_histories(h0));
        }
    }

    /// Lists the slots of `reads` that are not listed yet as reads.
    pub fn update_reads(&mut self, reads: &Vec<Word>)
        ensures
            histories(*final(self)) == read_histories(histories(*old(self)), reads@),
    {
        let ghost h0 = histories(*old(self));
        let mut i: usize = 0;
        while i < reads.len()
            invariant
                i <= reads@.len(),
                histories(*self) == read_histories(h0, reads@.take(i as int)),
            decreases reads@.len() - i,
        {
            let k = reads[i];
            let ghost hprev = histories(*self);
            if !self.storage.contains_key(&k) {
                self.storage.insert(k, no_writes());
                assert(histories(*self) =~= hprev.insert(k, Seq::<(u64, Word)>::empty()));
            } else {
                assert(histories(*self) =~= hprev);
            }
            proof {
                let t0 = reads@.take(i as int);
                let t1 = reads@.take(i + 1);
                assert(t1 =~= t0.push(k));
                assert forall|x: Word| #[trigger] t1.contains(x) <==> (t0.contains(x) || x == k) by {
                    if t1.contains(x) && x != k {
                        let m = choose|m: int| 0 <= m < i + 1 && #[trigger] t1[m] == x;
                        assert(t0[m] == x);
                    }
                    if t0.contains(x) {
                        let m = choose|m: int| 0 <= m < i && #[trigger] t0[m] == x;
                        assert(t1[m] == x);
                    }
                    if x == k {
                        assert(t1[i as int] == x);
                    }
                }
                let hn = histories(*self);
                let target = read_histories(h0, t1);
                assert(hprev == read_histories(h0, t0));
                assert forall|x: Word| #[trigger] hn.contains_key(x) <==> target.contains_key(x) by {
                    assert(t1.contains(x) <==> (t0.contains(x) || x == k));
                }
                assert forall|x: Word| hn.contains_key(x) implies #[trigger] hn[x] == target[x] by {
                    assert(t1.contains(x) <==> (t0.contains(x) || x == k));
                    if x == k {
                        if hprev.contains_key(k) {
                            assert(hn[k] == hprev[k]);
                        } else {
                            assert(!h0.contains_key(k));
                            assert(hn[k] == Seq::<(u64, Word)>::empty());
                        }
                    } else {
                        assert(hn[x] == hprev[x]);
                    }
                }
                assert(hn =~= target);
            }
            i += 1;
        }
        proof {
            assert(reads@.take(reads@.len() as int) =~= reads@);
        }
    }

    /// Adds the histories of `other`: a slot listed by both gets both histories merged and
    /// sorted by index; a slot listed by one keeps its history.
    pub fn extend(&mut self, other: StorageBal)
        ensures
            forall|k: Word| #[trigger]
                histories(*final(self)).contains_key(k) <==> (histories(*old(self)).contains_key(k)
                    || histories(other).contains_key(k)),
            forall|k: Word|
                #[trigger] histories(*final(self)).contains_key(k) ==> {
                    let h = histories(*old(self));
                    let o = histories(other);
                    let r = histories(*final(self))[k];
                    if h.contains_key(k) && o.contains_key(k) {
                        merged_history(h[k], o[k], r)
                    } else if h.contains_key(k) {
                        r == h[k]
                    } else {
                        r == o[k]
                    }
                },
    {
        let ghost h0 = histories(*old(self));
        let ghost o0 = histories(other);
        let mut rest = other.storage;
        let keys = rest.keys();
        let mut i: usize = 0;
        while i < keys.len()
            invariant
                i <= keys@.len(),
                keys@.no_duplicates(),
                keys@.to_set() == o0.dom(),
                forall|k: Word| #[trigger] rest@.contains_key(k) <==> (o0.contains_key(k)
                    && !keys@.take(i as int).contains(k)),
                forall|k: Word| #[trigger] rest@.contains_key(k) ==> rest@[k]@ == o0[k],
                forall|k: Word| #[trigger] self.storage@.contains_key(k) <==> (h0.contains_key(k)
                    || keys@.take(i as int).contains(k)),
                forall|k: Word|
                    #[trigger] self.storage@.contains_key(k) ==> {
                        let r = self.storage@[k]@;
                        if keys@.take(i as int).contains(k) {
                            if h0.contains_key(k) {
                                merged_history(h0[k], o0[k], r)
                            } else {
                                r == o0[k]
                            }
                        } else {
                            r == h0[k]
                        }
                    },
            decreases keys@.len() - i,
        {
            let k = keys[i];
            proof {
                assert(keys@.to_set().contains(k));
                if keys@.take(i as int).contains(k) {
                    let m = choose|m: int| 0 <= m < i && #[trigger] keys@.take(i as int)[m] == k;
                    assert(keys@[m] == keys@[i as int]);
                }
            }
            let theirs = match rest.remove(&k) {
                Some(w) => w,
                None => {
                    proof {
                        assert(false);
                    }
                    no_writes()
                },
            };
            match self.storage.remove(&k) {
                Some(mut mine) => {
                    mine.extend(theirs);
                    self.storage.insert(k, mine);
                },
                None => {
                    self.storage.insert(k, theirs);
                },
            }
            proof {
                assert(keys@.take(i + 1) =~= keys@.take(i as int).push(k));
                assert forall|x: Word| #[trigger] keys@.take(i + 1).contains(x) <==> (keys@.take(
                    i as int,
                ).contains(x) || x == k) by {
                    if keys@.take(i + 1).contains(x) && x != k {
                        let m = choose|m: int| 0 <= m < i + 1 && #[trigger] keys@.take(i + 1)[m] == x;
                        assert(keys@.take(i as int)[m] == x);
                    }
                    if keys@.take(i as int).contains(x) {
                        let m = choose|m: int| 0 <= m < i && #[trigger] keys@.take(i as int)[m] == x;
                        assert(keys@.take(i + 1)[m] == x);
                    }
                    if x == k {
                        assert(keys@.take(i + 1)[i as int] == x);
                    }
                }
            }
            i += 1;
        }
        proof {
            assert(keys@.take(keys@.len() as int) =~= keys@);
            assert forall|k: Word| o0.contains_key(k) implies keys@.contains(k) by {
                assert(keys@.to_set().contains(k));
            }
        }
    }

    /// Splits the storage into its read slots and its written slots, each in slot order.
    #[verifier::spinoff_prover]
    #[verifier::rlimit(40)]
    pub fn into_vecs(self) -> (r: (Vec<Word>, Vec<(Word, BalWrites<Word>)>))
        ensures
            keys_sorted(r.0@),
            forall|k: Word| #[trigger] r.0@.contains(k) <==> (histories(self).contains_key(k)
                && histories(self)[k].len() == 0),
            forall|i: int, j: int|
                0 <= i < j < r.1@.len() ==> (#[trigger] r.1@[i]).0.val() < (#[trigger] r.1@[j]).0.val(),
            forall|i: int|
                0 <= i < r.1@.len() ==> histories(self).contains_key((#[trigger] r.1@[i]).0)
                    && r.1@[i].1@ == histories(self)[r.1@[i].0] && r.1@[i].1@.len() > 0,
            forall|k: Word|
                histories(self).contains_key(k) && histories(self)[k].len() > 0 ==> exists|i: int|
                    0 <= i < r.1@.len() && (#[trigger] r.1@[i]).0 == k,
    {
        let ghost h = histories(self);
        let keys = self.storage.sorted_keys();
        let mut rest = self.storage;
        let mut reads: Vec<Word> = Vec::new();
        let mut writes: Vec<(Word, BalWrites<Word>)> = Vec::new();
        let mut i: usize = 0;
        while i < keys.len()
            invariant
                i <= keys@.len(),
                keys_sorted(keys@),
                keys@.no_duplicates(),
                keys@.to_set() == h.dom(),
                forall|k: Word| #[trigger] rest@.contains_key(k) <==> (h.contains_key(k)
                    && !keys@.take(i as int).contains(k)),
                forall|k: Word| #[trigger] rest@.contains_key(k) ==> rest@[k]@ == h[k],
                keys_sorted(reads@),
                forall|j: int| 0 <= j < reads@.len() ==> exists|m: int| 0 <= m < i && keys@[m] == #[trigger] reads@[j],
                forall|k: Word| #[trigger] reads@.contains(k) <==> (keys@.take(i as int).contains(k)
                    && h[k].len() == 0),
                forall|a: int, b: int|
                    0 <= a < b < writes@.len() ==> (#[trigger] writes@[a]).0.val() < (#[trigger] writes@[b]).0.val(),
                forall|j: int| 0 <= j < writes@.len() ==> exists|m: int| 0 <= m < i && keys@[m] == (#[trigger] writes@[j]).0,
                forall|j: int|
                    0 <= j < writes@.len() ==> h.contains_key((#[trigger] writes@[j]).0)
                        && writes@[j].1@ == h[writes@[j].0] && writes@[j].1@.len() > 0,
                forall|m: int|
                    0 <= m < i && h[keys@[m]].len() > 0 ==> exists|j: int|
                        0 <= j < writes@.len() && (#[trigger] writes@[j]).0 == keys@[m],
            decreases keys@.len() - i,
        {
            let k = keys[i];
            proof {
                assert(keys@.to_set().contains(k));
                if keys@.take(i as int).contains(k) {
                    let m = choose|m: int| 0 <= m < i && #[trigger] keys@.take(i as int)[m] == k;
                    assert(keys@[m] == keys@[i as int]);
                }
            }
            let w = match rest.remove(&k) {
                Some(w) => w,
                None => {
                    proof {
                        assert(false);
                    }
                    no_writes()
                },
            };
            let ghost reads0 = reads@;
            let ghost writes0 = writes@;
            if w.is_empty() {
                proof {
                    assert forall|j: int| 0 <= j < reads0.len() implies (#[trigger] reads0[j]).val() < k.val() by {
                        let m = choose|m: int| 0 <= m < i && keys@[m] == #[trigger] reads0[j];
                        assert(keys@[m].spec_before(keys@[i as int]));
                    }
                }
                reads.push(k);
                proof {
                    assert forall|a: int, b: int| 0 <= a < b < reads@.len() implies (#[trigger] reads@[a]).spec_before(
                        #[trigger] reads@[b],
                    ) by {
                        if b == reads0.len() {
                            assert(reads@[a] == reads0[a]);
                        } else {
                            assert(reads@[a] == reads0[a] && reads@[b] == reads0[b]);
                        }
                    }
                    assert forall|j: int| 0 <= j < reads@.len() implies exists|m: int|
                        0 <= m < i + 1 && keys@[m] == #[trigger] reads@[j] by {
                        if j == reads0.len() {
                            assert(keys@[i as int] == reads@[j]);
                        } else {
                            assert(reads@[j] == reads0[j]);
                            let m = choose|m: int| 0 <= m < i && keys@[m] == #[trigger] reads0[j];
                            assert(keys@[m] == reads@[j]);
                        }
                    }
                }
            } else {
                proof {
                    assert forall|j: int| 0 <= j < writes0.len() implies (#[trigger] writes0[j]).0.val() < k.val() by {
                        let m = choose|m: int| 0 <= m < i && keys@[m] == (#[trigger] writes0[j]).0;
                        assert(keys@[m].spec_before(keys@[i as int]));
                    }
                }
                writes.push((k, w));
                proof {
                    assert forall|j: int| 0 <= j < writes@.len() implies exists|m: int|
                        0 <= m < i + 1 && keys@[m] == (#[trigger] writes@[j]).0 by {
                        if j == writes0.len() {
                            assert(keys@[i as int] == writes@[j].0);
                        } else {
                            assert(writes@[j] == writes0[j]);
                            let m = choose|m: int| 0 <= m < i && keys@[m] == (#[trigger] writes0[j]).0;
                            assert(keys@[m] == writes@[j].0);
                        }
                    }
                    assert forall|j: int| 0 <= j < writes@.len() implies h.contains_key((#[trigger] writes@[j]).0)
                        && writes@[j].1@ == h[writes@[j].0] && writes@[j].1@.len() > 0 by {
                        if j < writes0.len() {
                            assert(writes@[j] == writes0[j]);
                        }
                    }
                }
            }
            proof {
                assert(keys@.take(i + 1) =~= keys@.take(i as int).push(k));
                assert forall|x: Word| #[trigger] keys@.take(i + 1).contains(x) <==> (keys@.take(
                    i as int,
                ).contains(x) || x == k) by {
                    if keys@.take(i + 1).contains(x) && x != k {
                        let m = choose|m: int| 0 <= m < i + 1 && #[trigger] keys@.take(i + 1)[m] == x;
                        assert(keys@.take(i as int)[m] == x);
                    }
                    if keys@.take(i as int).contains(x) {
                        let m = choose|m: int| 0 <= m < i && #[trigger] keys@.take(i as int)[m] == x;
                        assert(keys@.take(i + 1)[m] == x);
                    }
                    if x == k {
                        assert(keys@.take(i + 1)[i as int] == x);
                    }
                }
                assert forall|x: Word| #[trigger] reads@.contains(x) <==> (keys@.take(i + 1).contains(x)
                    && h[x].len() == 0) by {
                    if reads@.contains(x) {
                        let j = choose|j: int| 0 <= j < reads@.len() && reads@[j] == x;
                        if j < reads0.len() {
                            assert(reads0[j] == x);
                        }
                    }
                    if reads0.contains(x) {
                        let j = choose|j: int| 0 <= j < reads0.len() && reads0[j] == x;
                        assert(reads@[j] == x);
                    }
                    if x == k && h[x].len() == 0 {
                        assert(reads@[reads@.len() - 1] == x);
                    }
                }
                assert forall|m: int| 0 <= m < i + 1 && h[keys@[m]].len() > 0 implies exists|j: int|
                    0 <= j < writes@.len() && (#[trigger] writes@[j]).0 == keys@[m] by {
                    if m == i {
                        assert(writes@[writes@.len() - 1].0 == keys@[m]);
                    } else {
                        let j = choose|j: int| 0 <= j < writes0.len() && (#[trigger] writes0[j]).0 == keys@[m];
                        assert(writes@[j] == writes0[j]);
                    }
                }
            }
            i += 1;
        }
        proof {
            assert(keys@.take(keys@.len() as int) =~= keys@);
            assert forall|k: Word| h.contains_key(k) && h[k].len() > 0 implies exists|j: int|
                0 <= j < writes@.len() && (#[trigger] writes@[j]).0 == k by {
                assert(keys@.to_set().contains(k));
                let m = choose|m: int| 0 <= m < keys@.len() && keys@[m] == k;
            }
            assert forall|k: Word| #[trigger] reads@.contains(k) <==> (h.contains_key(k) && h[k].len() == 0) by {
                if h.contains_key(k) {
                    assert(keys@.to_set().contains(k));
                }
            }
        }
        (reads, writes)
    }

    /// Records the slots of a transaction at `bal_index`: after a wipe every slot listed so far
    /// becomes a read; each loaded slot is listed, and a changed one recorded as a write, except
    /// that a zero over wiped storage stays a read.
    pub fn update_slots(
        &mut self,
        bal_index: u64,
        wiped: bool,
        slots: &VecMap<Word, TrackedValue<Word>>,
    )
        ensures
            histories(*final(self)) == pending_histories(
                histories(*old(self)),
                bal_index,
                wiped,
                slots@,
            ),
    {
        if wiped {
            self.record_wipe();
        }
        let ghost base = histories(*self);
        let keys = slots.keys();
        let mut i: usize = 0;
        while i < keys.len()
            invariant
                i <= keys@.len(),
                keys@.no_duplicates(),
                keys@.to_set() == slots@.dom(),
                base == (if wiped {
                    wiped_histories(histories(*old(self)))
                } else {
                    histories(*old(self))
                }),
                forall|k: Word| #[trigger]
                    self.storage@.contains_key(k) <==> (base.contains_key(k) || keys@.take(
                        i as int,
                    ).contains(k)),
                forall|k: Word| #[trigger]
                    self.storage@.contains_key(k) ==> self.storage@[k]@ == if keys@.take(
                        i as int,
                    ).contains(k) {
                        slot_history_after(base, bal_index, wiped, slots@[k], k)
                    } else {
                        base[k]
                    },
            decreases keys@.len() - i,
        {
            let k = keys[i];
            proof {
                assert(keys@.to_set().contains(k));
                if keys@.take(i as int).contains(k) {
                    let m = choose|m: int| 0 <= m < i && #[trigger] keys@.take(i as int)[m] == k;
                    assert(keys@[m] == keys@[i as int]);
                }
            }
            let slot = match slots.get(&k) {
                Some(s) => *s,
                None => {
                    proof {
                        assert(false);
                    }
                    TrackedValue { original: Word::zero(), current: Word::zero() }
                },
            };
            let mut w = match self.storage.remove(&k) {
                Some(w) => w,
                None => no_writes(),
            };
            if !wiped || !slot.current.is_zero() {
                w.update(bal_index, &slot.original, slot.current);
            }
            self.storage.insert(k, w);
            proof {
                assert(keys@.take(i + 1) =~= keys@.take(i as int).push(k));
                assert forall|x: Word| #[trigger] keys@.take(i + 1).contains(x) <==> (keys@.take(
                    i as int,
                ).contains(x) || x == k) by {
                    if keys@.take(i + 1).contains(x) && x != k {
                        let m = choose|m: int| 0 <= m < i + 1 && #[trigger] keys@.take(i + 1)[m] == x;
                        assert(keys@.take(i as int)[m] == x);
                    }
                    if keys@.take(i as int).contains(x) {
                        let m = choose|m: int| 0 <= m < i && #[trigger] keys@.take(i as int)[m] == x;
                        assert(keys@.take(i + 1)[m] == x);
                    }
                    if x == k {
                        assert(keys@.take(i + 1)[i as int] == x);
                    }
                }
            }
            i += 1;
        }
        proof {
            assert(keys@.take(keys@.len() as int) =~= keys@);
            assert forall|k: Word| slots@.contains_key(k) implies keys@.contains(k) by {
                assert(keys@.to_set().contains(k));
            }
            assert(histories(*self) =~= pending_histories(
                histories(*old(self)),
                bal_index,
                wiped,
                slots@,
            ));
        }
    }
}


/// What an [`AccountInfoBal`] holds, as mathematical values.
pub struct AccountInfoBalView {
    pub nonce: Seq<(u64, u64)>,
    pub balance: Seq<(u64, Word)>,
    pub code: Seq<(u64, B256)>,
    pub code_bytes: Map<B256, Seq<u8>>,
}

/// Account-info BAL data: the nonce, balance and code-hash write histories of an account, and
/// the bytecode of each code hash written.
pub struct AccountInfoBal {
    pub nonce: BalWrites<u64>,
    pub balance: BalWrites<Word>,
    pub code: BalWrites<B256>,
    pub code_bytes: VecMap<B256, Bytecode>,
}

impl View for AccountInfoBal {
    type V = AccountInfoBalView;

    open spec fn view(&self) -> AccountInfoBalView {
        AccountInfoBalView {
            nonce: self.nonce@,
            balance: self.balance@,
            code: self.code@,
            code_bytes: Map::new(
                |h: B256| self.code_bytes@.contains_key(h),
                |h: B256| self.code_bytes@[h].bytes@,
            ),
        }
    }
}

/// The three histories are sorted by block access index.
pub open spec fn info_histories_sorted(v: AccountInfoBalView) -> bool {
    sorted_by_index(v.nonce) && sorted_by_index(v.balance) && sorted_by_index(v.code)
}

/// `account` with each field replaced by its latest write before `bal_index`, where there is one.
pub open spec fn spec_populated(v: AccountInfoBalView, bal_index: u64, account: AccountInfo) -> AccountInfo {
    AccountInfo {
        nonce: match prefix_last(v.nonce, bal_index) {
            Some(n) => n,
            None => account.nonce,
        },
        balance: match prefix_last(v.balance, bal_index) {
            Some(b) => b,
            None => account.balance,
        },
        code_hash: match prefix_last(v.code, bal_index) {
            Some(h) => h,
            None => account.code_hash,
        },
    }
}

/// Whether some field has a write before `bal_index`.
pub open spec fn spec_populate_changes(v: AccountInfoBalView, bal_index: u64) -> bool {
    prefix_last(v.nonce, bal_index) is Some || prefix_last(v.balance, bal_index) is Some
        || prefix_last(v.code, bal_index) is Some
}

/// The account-info histories after a transaction took the account from `original` to `present`
/// (whose bytecode, when known, is `present_code`) at `bal_index`.
pub open spec fn spec_info_update(
    v: AccountInfoBalView,
    bal_index: u64,
    original: AccountInfo,
    present: AccountInfo,
    present_code: Option<Seq<u8>>,
) -> AccountInfoBalView {
    AccountInfoBalView {
        nonce: spec_update(v.nonce, bal_index, original.nonce, present.nonce),
        balance: spec_update(v.balance, bal_index, original.balance, present.balance),
        code: if original.code_hash != present.code_hash {
            spec_update(v.code, bal_index, original.code_hash, present.code_hash)
        } else {
            v.code
        },
        code_bytes: if original.code_hash != present.code_hash && present_code is Some {
            v.code_bytes.insert(present.code_hash, present_code->0)
        } else {
            v.code_bytes
        },
    }
}

/// The account-info view with no history.
pub open spec fn empty_info_view() -> AccountInfoBalView {
    AccountInfoBalView {
        nonce: Seq::empty(),
        balance: Seq::empty(),
        code: Seq::empty(),
        code_bytes: Map::empty(),
    }
}

impl AccountInfoBal {
    /// Account-info data with no history.
    pub fn new() -> (r: AccountInfoBal)
        ensures
            r@ == empty_info_view(),
    {
        let r = AccountInfoBal {
            nonce: BalWrites { writes: Vec::new() },
            balance: BalWrites { writes: Vec::new() },
            code: BalWrites { writes: Vec::new() },
            code_bytes: VecMap::new(),
        };
        assert(r@.code_bytes =~= Map::<B256, Seq<u8>>::empty());
        assert(r@.nonce =~= Seq::<(u64, u64)>::empty());
        assert(r@.balance =~= Seq::<(u64, Word)>::empty());
        assert(r@.code =~= Seq::<(u64, B256)>::empty());
        r
    }

    /// Sets each field of `account` that has a write before `bal_index` to its latest such
    /// write; returns whether any field was set.
    pub fn populate_account_info(&self, bal_index: u64, account: &mut AccountInfo) -> (changed: bool)
        ensures
            info_histories_sorted(self@) ==> *final(account) == spec_populated(
                self@,
                bal_index,
                *old(account),
            ),
            info_histories_sorted(self@) ==> changed == spec_populate_changes(self@, bal_index),
    {
        let mut changed = false;
        if let Some(nonce) = self.nonce.get(bal_index) {
            account.nonce = nonce;
            changed = true;
        }
        if let Some(balance) = self.balance.get(bal_index) {
            account.balance = balance;
            changed = true;
        }
        if let Some(code_hash) = self.code.get(bal_index) {
            account.code_hash = code_hash;
            changed = true;
        }
        changed
    }

    /// Records a transaction that took the account from `original` to `present` at `bal_index`:
    /// nonce and balance histories are updated, and, when the code hash changed, the code-hash
    /// history and the bytecode of the new hash when it is given.
    pub fn update(
        &mut self,
        bal_index: u64,
        original: &AccountInfo,
        present: &AccountInfo,
        present_code: Option<&Bytecode>,
    )
        ensures
            final(self)@ == spec_info_update(
                old(self)@,
                bal_index,
                *original,
                *present,
                match present_code {
                    Some(c) => Some(c.bytes@),
                    None => None,
                },
            ),
    {
        self.nonce.update(bal_index, &original.nonce, present.nonce);
        self.balance.update(bal_index, &original.balance, present.balance);
        if !(original.code_hash == present.code_hash) {
            self.code.update(bal_index, &original.code_hash, present.code_hash);
            match present_code {
                Some(c) => {
                    let code = c.duplicate();
                    let ghost bytes = code.bytes@;
                    self.code_bytes.insert(present.code_hash, code);
                    assert(self@.code_bytes =~= old(self)@.code_bytes.insert(present.code_hash, bytes));
                },
                None => {
                    assert(self@.code_bytes =~= old(self)@.code_bytes);
                },
            }
        } else {
            assert(self@.code_bytes =~= old(self)@.code_bytes);
        }
    }

    /// Adds the histories of `other`, each merged with this one's and sorted by index; the
    /// bytecode of `other` is added too.
    pub fn extend(&mut self, other: AccountInfoBal)
        ensures
            merged_history(old(self)@.nonce, other@.nonce, final(self)@.nonce),
            merged_history(old(self)@.balance, other@.balance, final(self)@.balance),
            merged_history(old(self)@.code, other@.code, final(self)@.code),
            final(self)@.code_bytes == old(self)@.code_bytes.union_prefer_right(other@.code_bytes),
    {
        let ghost ob = other@.code_bytes;
        let AccountInfoBal { nonce, balance, code, code_bytes } = other;
        self.nonce.extend(nonce);
        self.balance.extend(balance);
        self.code.extend(code);
        let mut rest = code_bytes;
        let hashes = rest.keys();
        let mut i: usize = 0;
        while i < hashes.len()
            invariant
                i <= hashes@.len(),
                hashes@.no_duplicates(),
                hashes@.to_set() == ob.dom(),
                forall|h: B256| #[trigger] rest@.contains_key(h) <==> (ob.contains_key(h)
                    && !hashes@.take(i as int).contains(h)),
                forall|h: B256| #[trigger] rest@.contains_key(h) ==> rest@[h].bytes@ == ob[h],
                self@.code_bytes == old(self)@.code_bytes.union_prefer_right(
                    ob.restrict(hashes@.take(i as int).to_set()),
                ),
                merged_history(old(self)@.nonce, other@.nonce, self@.nonce),
                merged_history(old(self)@.balance, other@.balance, self@.balance),
                merged_history(old(self)@.code, other@.code, self@.code),
            decreases hashes@.len() - i,
        {
            let h = hashes[i];
            proof {
                assert(hashes@.to_set().contains(h));
                if hashes@.take(i as int).contains(h) {
                    let m = choose|m: int| 0 <= m < i && #[trigger] hashes@.take(i as int)[m] == h;
                    assert(hashes@[m] == hashes@[i as int]);
                }
            }
            let ghost before = self@.code_bytes;
            match rest.remove(&h) {
                Some(c) => {
                    self.code_bytes.insert(h, c);
                },
                None => {
                    proof {
                        assert(false);
                    }
                },
            }
            proof {
                assert(self@.code_bytes =~= before.insert(h, ob[h]));
                assert(hashes@.take(i + 1) =~= hashes@.take(i as int).push(h));
                hashes@.take(i as int).lemma_push_to_set_commute(h);
                assert(ob.restrict(hashes@.take(i + 1).to_set()) =~= ob.restrict(
                    hashes@.take(i as int).to_set(),
                ).insert(h, ob[h]));
                assert(self@.code_bytes =~= old(self)@.code_bytes.union_prefer_right(
                    ob.restrict(hashes@.take(i + 1).to_set()),
                ));
                assert forall|x: B256| #[trigger] hashes@.take(i + 1).contains(x) <==> (hashes@.take(
                    i as int,
                ).contains(x) || x == h) by {
                    assert(hashes@.take(i + 1).to_set().contains(x) == hashes@.take(i + 1).contains(x));
                }
            }
            i += 1;
        }
        proof {
            assert(hashes@.take(hashes@.len() as int) =~= hashes@);
            assert(ob.restrict(hashes@.to_set()) =~= ob);
        }
    }

    /// Records a balance change at `bal_index`.
    pub fn balance_update(&mut self, bal_index: u64, original_balance: &Word, balance: Word)
        ensures
            final(self)@ == (AccountInfoBalView {
                balance: spec_update(old(self)@.balance, bal_index, *original_balance, balance),
                ..old(self)@
            }),
    {
        self.balance.update(bal_index, original_balance, balance);
        assert(self@.code_bytes =~= old(self)@.code_bytes);
    }

    /// Records a nonce change at `bal_index`.
    pub fn nonce_update(&mut self, bal_index: u64, original_nonce: &u64, nonce: u64)
        ensures
            final(self)@ == (AccountInfoBalView {
                nonce: spec_update(old(self)@.nonce, bal_index, *original_nonce, nonce),
                ..old(self)@
            }),
    {
        self.nonce.update(bal_index, original_nonce, nonce);
        assert(self@.code_bytes =~= old(self)@.code_bytes);
    }

    /// Records a code change at `bal_index`.
    pub fn code_update(&mut self, bal_index: u64, original_code_hash: &B256, code_hash: B256, code: Bytecode)
        ensures
            final(self)@ == (AccountInfoBalView {
                code: spec_update(old(self)@.code, bal_index, *original_code_hash, code_hash),
                code_bytes: old(self)@.code_bytes.insert(code_hash, code.bytes@),
                ..old(self)@
            }),
    {
        self.code.update(bal_index, original_code_hash, code_hash);
        let ghost bytes = code.bytes@;
        self.code_bytes.insert(code_hash, code);
        assert(self@.code_bytes =~= old(self)@.code_bytes.insert(code_hash, bytes));
    }
}

/// What an [`AccountBal`] holds, as mathematical values.
pub struct AccountBalView {
    pub account_info: AccountInfoBalView,
    pub storage: Map<Word, Seq<(u64, Word)>>,
}

/// BAL data of one account: account-info histories and storage histories.
pub struct AccountBal {
    pub account_info: AccountInfoBal,
    pub storage: StorageBal,
}

impl View for AccountBal {
    type V = AccountBalView;

    open spec fn view(&self) -> AccountBalView {
        AccountBalView { account_info: self.account_info@, storage: histories(self.storage) }
    }
}

/// The account BAL view with no history.
pub open spec fn empty_account_view() -> AccountBalView {
    AccountBalView { account_info: empty_info_view(), storage: Map::empty() }
}

/// The account's BAL after recording its change at `bal_index`: a missing account is taken as
/// empty, and storage is recorded as [`StorageBal::update_slots`] records it.
pub open spec fn spec_account_update(v: AccountBalView, bal_index: u64, c: AccountChangeView) -> AccountBalView {
    let empty = AccountInfo::spec_default();
    AccountBalView {
        account_info: spec_info_update(
            v.account_info,
            bal_index,
            match c.original {
                Some(i) => i,
                None => empty,
            },
            match c.current {
                Some(i) => i,
                None => empty,
            },
            c.code,
        ),
        storage: pending_histories(v.storage, bal_index, c.wipe_storage, c.storage),
    }
}

/// The first failure among the checks of an account entry, in the order they run.
pub open spec fn first_failure(
    a: Result<(), BalDecodeError>,
    b: Result<(), BalDecodeError>,
    c: Result<(), BalDecodeError>,
    d: Result<(), BalDecodeError>,
) -> Result<(), BalDecodeError> {
    if a is Err {
        a
    } else if b is Err {
        b
    } else if c is Err {
        c
    } else {
        d
    }
}

impl AccountBal {
    /// Validates and imports a decoded account entry: the nonce, balance and code change lists
    /// (indices in 32 bits and strictly increasing), then the storage lists. The first failure,
    /// in that order, is returned; on success the histories are the lists as given (code as the
    /// hashes of the code), and storage is as [`checked_storage`] imports it.
    pub fn try_from_changes(
        address: Address,
        nonce_changes: Vec<(u64, u64)>,
        balance_changes: Vec<(u64, Word)>,
        code_changes: Vec<(u64, Bytecode)>,
        storage_changes: Vec<SlotChanges>,
        storage_reads: Vec<Word>,
    ) -> (r: Result<AccountBal, BalDecodeError>)
        ensures
            ({
                let checks = first_failure(
                    change_list_check(address, BalChangeKind::Nonce, nonce_changes@),
                    change_list_check(address, BalChangeKind::Balance, balance_changes@),
                    change_list_check(address, BalChangeKind::Code, code_changes@),
                    storage_check(address, storage_changes@, storage_reads@),
                );
                match r {
                    Ok(a) => {
                        &&& checks is Ok
                        &&& a@.account_info.nonce == nonce_changes@
                        &&& a@.account_info.balance == balance_changes@
                        &&& a@.account_info.code == code_hashes(code_changes@)
                        &&& forall|k: Word| #[trigger] a@.storage.contains_key(k) <==> (changed_slots(
                            storage_changes@,
                        ).contains(k) || storage_reads@.contains(k))
                        &&& forall|j: int| 0 <= j < storage_changes@.len() ==> a@.storage[(
                        #[trigger] storage_changes@[j]).slot] == storage_changes@[j].changes@
                        &&& forall|j: int| 0 <= j < storage_reads@.len() ==> a@.storage[
                        #[trigger] storage_reads@[j]] == Seq::<(u64, Word)>::empty()
                    },
                    Err(e) => checks == Err::<(), BalDecodeError>(e),
                }
            }),
    {
        let nonce = match checked_changes(address, BalChangeKind::Nonce, nonce_changes) {
            Ok(w) => w,
            Err(e) => {
                return Err(e);
            },
        };
        let balance = match checked_changes(address, BalChangeKind::Balance, balance_changes) {
            Ok(w) => w,
            Err(e) => {
                return Err(e);
            },
        };
        let (code, code_bytes) = match checked_code_changes(address, code_changes) {
            Ok(c) => c,
            Err(e) => {
                return Err(e);
            },
        };
        let ghost sc = storage_changes@;
        let storage = match checked_storage(address, storage_changes, storage_reads) {
            Ok(sb) => sb,
            Err(e) => {
                return Err(e);
            },
        };
        proof {
            assert forall|j: int| 0 <= j < sc.len() implies storage.storage@.contains_key(
                (#[trigger] sc[j]).slot,
            ) by {
                let names = slot_views(sc).map_values(|v: (Word, Seq<(u64, Word)>)| v.0);
                assert(names[j] == sc[j].slot);
                assert(names.contains(sc[j].slot));
                assert(changed_slots(sc).contains(sc[j].slot));
            }
        }
        Ok(AccountBal { account_info: AccountInfoBal { nonce, balance, code, code_bytes }, storage })
    }

    /// Account BAL data with no history.
    pub fn new() -> (r: AccountBal)
        ensures
            r@ == empty_account_view(),
    {
        AccountBal { account_info: AccountInfoBal::new(), storage: StorageBal::new() }
    }

    /// Sets the fields of `account` that have a write before `bal_index`; returns whether any
    /// was set.
    pub fn populate_account_info(&self, bal_index: u64, account: &mut AccountInfo) -> (changed: bool)
        ensures
            info_histories_sorted(self@.account_info) ==> *final(account) == spec_populated(
                self@.account_info,
                bal_index,
                *old(account),
            ),
            info_histories_sorted(self@.account_info) ==> changed == spec_populate_changes(
                self@.account_info,
                bal_index,
            ),
    {
        self.account_info.populate_account_info(bal_index, account)
    }

    /// Records the account's change from a transaction at `bal_index`.
    pub fn update(&mut self, bal_index: u64, change: &AccountChange)
        ensures
            final(self)@ == spec_account_update(old(self)@, bal_index, change@),
    {
        let empty = AccountInfo::default();
        let original = match &change.original {
            Some(i) => *i,
            None => empty,
        };
        let current = match &change.current {
            Some(i) => *i,
            None => empty,
        };
        self.account_info.update(bal_index, &original, &current, change.code.as_ref());
        self.storage.update_slots(bal_index, change.wipe_storage, &change.storage);
    }
}

/// A block access list: BAL data by account.
pub struct Bal {
    pub accounts: VecMap<Address, AccountBal>,
}

impl Bal {
    /// The account BAL data by address.
    pub open spec fn accounts_view(&self) -> Map<Address, AccountBalView> {
        Map::new(|a: Address| self.accounts@.contains_key(a), |a: Address| self.accounts@[a]@)
    }

    /// An empty list.
    pub fn new() -> (r: Bal)
        ensures
            r.accounts_view() == Map::<Address, AccountBalView>::empty(),
    {
        let r = Bal { accounts: VecMap::new() };
        assert(r.accounts_view() =~= Map::<Address, AccountBalView>::empty());
        r
    }

    /// Records an account change from a transaction at `bal_index`; an unlisted account is
    /// listed first.
    pub fn update_account(&mut self, bal_index: u64, address: Address, account: &AccountChange)
        ensures
            final(self).accounts_view() == old(self).accounts_view().insert(
                address,
                spec_account_update(
                    if old(self).accounts_view().contains_key(address) {
                        old(self).accounts_view()[address]
                    } else {
                        empty_account_view()
                    },
                    bal_index,
                    account@,
                ),
            ),
    {
        let mut entry = match self.accounts.remove(&address) {
            Some(e) => e,
            None => AccountBal::new(),
        };
        entry.update(bal_index, account);
        self.accounts.insert(address, entry);
        proof {
            assert(self.accounts_view() =~= old(self).accounts_view().insert(
                address,
                spec_account_update(
                    if old(self).accounts_view().contains_key(address) {
                        old(self).accounts_view()[address]
                    } else {
                        empty_account_view()
                    },
                    bal_index,
                    account@,
                ),
            ));
        }
    }

    /// Sets the fields of `account` that the list writes before `bal_index`; returns whether any
    /// was set, or `AccountNotFound` when the account is not listed.
    pub fn populate_account_info(&self, address: &Address, bal_index: u64, account: &mut AccountInfo) -> (r: Result<bool, BalError>)
        ensures
            !self.accounts_view().contains_key(*address) ==> r == Err::<bool, BalError>(
                BalError::AccountNotFound { address: *address },
            ) && *final(account) == *old(account),
            self.accounts_view().contains_key(*address) ==> r is Ok,
            self.accounts_view().contains_key(*address) && info_histories_sorted(
                self.accounts_view()[*address].account_info,
            ) ==> {
                let v = self.accounts_view()[*address].account_info;
                &&& *final(account) == spec_populated(v, bal_index, *old(account))
                &&& r == Ok::<bool, BalError>(spec_populate_changes(v, bal_index))
            },
    {
        match self.accounts.get(address) {
            Some(bal_account) => Ok(bal_account.populate_account_info(bal_index, account)),
            None => Err(BalError::AccountNotFound { address: *address }),
        }
    }

    /// The latest write of a slot before `bal_index`: `AccountNotFound` when the account is not
    /// listed, `SlotNotFound` when the slot is not listed under it.
    pub fn storage(&self, address: &Address, key: Word, bal_index: u64) -> (r: Result<Option<Word>, BalError>)
        ensures
            !self.accounts_view().contains_key(*address) ==> r == Err::<Option<Word>, BalError>(
                BalError::AccountNotFound { address: *address },
            ),
            self.accounts_view().contains_key(*address) && !self.accounts_view()[*address].storage.contains_key(key)
                ==> r == Err::<Option<Word>, BalError>(BalError::SlotNotFound { address: *address, slot: key }),
            self.accounts_view().contains_key(*address) && self.accounts_view()[*address].storage.contains_key(key)
                && sorted_by_index(self.accounts_view()[*address].storage[key])
                ==> r == Ok::<Option<Word>, BalError>(prefix_last(self.accounts_view()[*address].storage[key], bal_index)),
    {
        match self.accounts.get(address) {
            Some(bal_account) => {
                match bal_account.storage.get_bal_writes(address, key) {
                    Ok(w) => Ok(w.get(bal_index)),
                    Err(e) => Err(e),
                }
            },
            None => Err(BalError::AccountNotFound { address: *address }),
        }
    }

    /// Sets `value` to the slot's latest write before `bal_index`, if any: `AccountNotFound`
    /// when the account is not listed, `SlotNotFound` when the slot is not listed under it.
    pub fn populate_storage_slot(&self, address: Address, bal_index: u64, key: Word, value: &mut Word) -> (r: Result<(), BalError>)
        ensures
            !self.accounts_view().contains_key(address) ==> r == Err::<(), BalError>(
                BalError::AccountNotFound { address },
            ),
            self.accounts_view().contains_key(address) && !self.accounts_view()[address].storage.contains_key(key)
                ==> r == Err::<(), BalError>(BalError::SlotNotFound { address, slot: key }),
            r is Err ==> *final(value) == *old(value),
            self.accounts_view().contains_key(address) && self.accounts_view()[address].storage.contains_key(key)
                && sorted_by_index(self.accounts_view()[address].storage[key]) ==> {
                &&& r is Ok
                &&& *final(value) == match prefix_last(self.accounts_view()[address].storage[key], bal_index) {
                    Some(v) => v,
                    None => *old(value),
                }
            },
    {
        match self.storage(&address, key, bal_index) {
            Ok(Some(v)) => {
                *value = v;
                Ok(())
            },
            Ok(None) => Ok(()),
            Err(e) => Err(e),
        }
    }
}


/// Every write of `s` is at an index below `bound`.
pub open spec fn all_before<T>(s: Seq<(u64, T)>, bound: u64) -> bool {
    forall|i: int| 0 <= i < s.len() ==> (#[trigger] s[i]).0 < bound
}

/// The value an item reads at `bal_index` over its value `base` before the block.
pub open spec fn read_at<T>(s: Seq<(u64, T)>, bal_index: u64, base: T) -> T {
    match prefix_last(s, bal_index) {
        Some(v) => v,
        None => base,
    }
}

/// When every write is below `bound`, reading at `bound` gives the value after all writes.
proof fn lemma_read_after_all<T>(s: Seq<(u64, T)>, bound: u64, base: T)
    requires
        all_before(s, bound),
    ensures
        read_at(s, bound, base) == final_value(s, base),
    decreases s.len(),
{
    if s.len() > 0 {
        let t = s.drop_first();
        assert forall|i: int| 0 <= i < t.len() implies (#[trigger] t[i]).0 < bound by {
            assert(t[i] == s[i + 1]);
        }
        lemma_read_after_all(t, bound, base);
        if t.len() > 0 {
            assert(t.last() == s.last());
        }
    }
}

/// A write at `bal_index` on a history whose writes are all before it keeps every write below
/// any later index.
proof fn lemma_update_before<T>(s: Seq<(u64, T)>, bal_index: u64, original: T, value: T, later: u64)
    requires
        all_before(s, bal_index),
        bal_index < later,
    ensures
        all_before(spec_update(s, bal_index, original, value), later),
{
    let t = spec_update(s, bal_index, original, value);
    assert forall|i: int| 0 <= i < t.len() implies (#[trigger] t[i]).0 < later by {
        if i < s.len() {
            assert(t[i] == s[i]);
        }
    }
}

/// Reading an item back: when the item's writes are sorted and all before `bal_index`, and the
/// item reads `original` at `bal_index`, then after recording `original -> value` at
/// `bal_index` it reads `value` at every later index, and its writes stay sorted.
pub proof fn law_update_then_read<T>(s: Seq<(u64, T)>, bal_index: u64, base: T, original: T, value: T, later: u64)
    requires
        sorted_by_index(s),
        all_before(s, bal_index),
        read_at(s, bal_index, base) == original,
        bal_index < later,
    ensures
        sorted_by_index(spec_update(s, bal_index, original, value)),
        read_at(spec_update(s, bal_index, original, value), later, base) == value,
{
    let t = spec_update(s, bal_index, original, value);
    lemma_read_after_all(s, bal_index, base);
    law_update_reaches_value(s, bal_index, original, value);
    lemma_update_before(s, bal_index, original, value, later);
    lemma_read_after_all(t, later, base);
    if s.len() > 0 {
        assert(s.last().0 < bal_index);
    }
    if t.len() == 0 {
        assert(value == original);
        assert(final_value(s, base) == original);
        if s.len() > 0 {
            assert(s.last().0 != bal_index);
        }
    }
}

/// The BAL reads back a recorded account: when an account's histories are sorted with every write
/// before `bal_index`, and the BAL at `bal_index` reads the account as the change's original
/// (over the account's value `base` before the block), then after recording the change at
/// `bal_index` the BAL reads the account as the change's current value at every later index (a
/// missing account read as the empty account), and the histories stay sorted.
pub proof fn law_bal_account_reads_back(
    v: AccountBalView,
    bal_index: u64,
    c: AccountChangeView,
    base: AccountInfo,
    later: u64,
)
    requires
        info_histories_sorted(v.account_info),
        all_before(v.account_info.nonce, bal_index),
        all_before(v.account_info.balance, bal_index),
        all_before(v.account_info.code, bal_index),
        spec_populated(v.account_info, bal_index, base) == match c.original {
            Some(i) => i,
            None => AccountInfo::spec_default(),
        },
        bal_index < later,
    ensures
        info_histories_sorted(spec_account_update(v, bal_index, c).account_info),
        spec_populated(spec_account_update(v, bal_index, c).account_info, later, base) == match c.current {
            Some(i) => i,
            None => AccountInfo::spec_default(),
        },
{
    let empty = AccountInfo::spec_default();
    let o = match c.original {
        Some(i) => i,
        None => empty,
    };
    let p = match c.current {
        Some(i) => i,
        None => empty,
    };
    let a = v.account_info;
    law_update_then_read(a.nonce, bal_index, base.nonce, o.nonce, p.nonce, later);
    law_update_then_read(a.balance, bal_index, base.balance, o.balance, p.balance, later);
    if o.code_hash != p.code_hash {
        law_update_then_read(a.code, bal_index, base.code_hash, o.code_hash, p.code_hash, later);
    } else {
        lemma_read_after_all(a.code, bal_index, base.code_hash);
        assert forall|i: int| 0 <= i < a.code.len() implies (#[trigger] a.code[i]).0 < later by {}
        lemma_read_after_all(a.code, later, base.code_hash);
    }
}

/// The BAL reads back a recorded slot: for a slot of a change without a storage wipe, when the
/// slot's history is sorted with every write before `bal_index` and reads the slot's original
/// value at `bal_index` (over its value `base` before the block), then after recording the
/// change the slot reads its current value at every later index.
pub proof fn law_bal_slot_reads_back(
    h: Map<Word, Seq<(u64, Word)>>,
    bal_index: u64,
    slots: Map<Word, TrackedValue<Word>>,
    k: Word,
    base: Word,
    later: u64,
)
    requires
        slots.contains_key(k),
        h.contains_key(k) ==> sorted_by_index(h[k]) && all_before(h[k], bal_index),
        read_at(if h.contains_key(k) { h[k] } else { Seq::empty() }, bal_index, base) == slots[k].original,
        bal_index < later,
    ensures
        pending_histories(h, bal_index, false, slots).contains_key(k),
        sorted_by_index(pending_histories(h, bal_index, false, slots)[k]),
        read_at(pending_histories(h, bal_index, false, slots)[k], later, base) == slots[k].current,
{
    let s0 = if h.contains_key(k) {
        h[k]
    } else {
        Seq::<(u64, Word)>::empty()
    };
    law_update_then_read(s0, bal_index, base, slots[k].original, slots[k].current, later);
}

/// One account's block-access-list changes in canonical EIP-7928 order: changed slots and
/// read slots in slot order, and every change list in block-access-index order.
pub struct CanonicalAccountChanges {
    /// Each written slot with its writes.
    pub storage_changes: Vec<(Word, Vec<(u64, Word)>)>,
    /// Slots read but never written.
    pub storage_reads: Vec<Word>,
    /// Balance writes.
    pub balance_changes: Vec<(u64, Word)>,
    /// Nonce writes.
    pub nonce_changes: Vec<(u64, u64)>,
    /// Code writes, as the written code's bytes.
    pub code_changes: Vec<(u64, Vec<u8>)>,
}

/// The bytes kept for `code_hash`, or none.
pub open spec fn bytes_for_hash(code_bytes: Map<B256, Seq<u8>>, code_hash: B256) -> Seq<u8> {
    if code_bytes.contains_key(code_hash) {
        code_bytes[code_hash]
    } else {
        Seq::empty()
    }
}

/// `sorted` lists the writes of `writes` in block-access-index order.
pub open spec fn index_ordered<T>(sorted: Seq<(u64, T)>, writes: Seq<(u64, T)>) -> bool {
    sorted_by_index(sorted) && sorted.to_multiset() == writes.to_multiset()
}

/// A copy of a write list.
fn copied_writes(writes: &Vec<(u64, Word)>) -> (r: Vec<(u64, Word)>)
    ensures
        r@ == writes@,
{
    let mut r: Vec<(u64, Word)> = Vec::new();
    let mut i: usize = 0;
    while i < writes.len()
        invariant
            0 <= i <= writes@.len(),
            r@ == writes@.take(i as int),
        decreases writes@.len() - i,
    {
        r.push(writes[i]);
        i = i + 1;
        assert(r@ =~= writes@.take(i as int));
    }
    assert(writes@.take(writes@.len() as int) =~= writes@);
    r
}

impl AccountBal {
    /// The account's changes in canonical EIP-7928 order: slots with writes, in slot order, each
    /// with its writes in index order; slots only read, in slot order; and the balance, nonce
    /// and code writes in index order, each code write as the bytes kept for its hash.
    pub fn into_canonical_changes(self) -> (r: CanonicalAccountChanges)
        ensures
            keys_sorted(r.storage_reads@),
            forall|k: Word| #[trigger] r.storage_reads@.contains(k) <==> (self@.storage.contains_key(k)
                && self@.storage[k].len() == 0),
            forall|i: int, j: int|
                0 <= i < j < r.storage_changes@.len() ==> (#[trigger] r.storage_changes@[i]).0.val()
                    < (#[trigger] r.storage_changes@[j]).0.val(),
            forall|i: int|
                0 <= i < r.storage_changes@.len() ==> {
                    let (k, w) = #[trigger] r.storage_changes@[i];
                    &&& self@.storage.contains_key(k)
                    &&& self@.storage[k].len() > 0
                    &&& index_ordered(w@, self@.storage[k])
                },
            forall|k: Word|
                self@.storage.contains_key(k) && self@.storage[k].len() > 0 ==> exists|i: int|
                    0 <= i < r.storage_changes@.len() && (#[trigger] r.storage_changes@[i]).0 == k,
            index_ordered(r.balance_changes@, self@.account_info.balance),
            index_ordered(r.nonce_changes@, self@.account_info.nonce),
            exists|hashes: Seq<(u64, B256)>|
                #[trigger] index_ordered(hashes, self@.account_info.code) && hashes.len() == r.code_changes@.len()
                    && forall|i: int|
                    0 <= i < hashes.len() ==> (#[trigger] r.code_changes@[i]).0 == hashes[i].0
                        && r.code_changes@[i].1@ == bytes_for_hash(self@.account_info.code_bytes, hashes[i].1),
    {
        let ghost v = self@;
        let AccountBal { account_info, storage } = self;
        let (storage_reads, written) = storage.into_vecs();
        let mut storage_changes: Vec<(Word, Vec<(u64, Word)>)> = Vec::new();
        let mut i: usize = 0;
        while i < written.len()
            invariant
                v.storage == histories(storage),
                0 <= i <= written@.len(),
                storage_changes@.len() == i,
                forall|a: int, b: int|
                    0 <= a < b < written@.len() ==> (#[trigger] written@[a]).0.val() < (#[trigger] written@[b]).0.val(),
                forall|a: int|
                    0 <= a < written@.len() ==> histories(storage).contains_key((#[trigger] written@[a]).0)
                        && written@[a].1@ == histories(storage)[written@[a].0] && written@[a].1@.len() > 0,
                forall|a: int|
                    0 <= a < i ==> (#[trigger] storage_changes@[a]).0 == written@[a].0 && index_ordered(
                        storage_changes@[a].1@,
                        written@[a].1@,
                    ),
            decreases written@.len() - i,
        {
            let slot = written[i].0;
            let sorted = BalWrites::new(copied_writes(&written[i].1.writes));
            storage_changes.push((slot, sorted.writes));
            i = i + 1;
        }
        proof {
            assert forall|a: int, b: int|
                0 <= a < b < storage_changes@.len() implies (#[trigger] storage_changes@[a]).0.val()
                < (#[trigger] storage_changes@[b]).0.val() by {
                assert(written@[a].0.val() < written@[b].0.val());
            }
            assert forall|k: Word|
                v.storage.contains_key(k) && v.storage[k].len() > 0 implies exists|a: int|
                0 <= a < storage_changes@.len() && (#[trigger] storage_changes@[a]).0 == k by {
                let a = choose|a: int| 0 <= a < written@.len() && (#[trigger] written@[a]).0 == k;
                assert(storage_changes@[a].0 == k);
            }
        }
        let balance = BalWrites::new(account_info.balance.writes);
        let nonce = BalWrites::new(account_info.nonce.writes);
        let hashes = BalWrites::new(account_info.code.writes);
        let ghost cb = v.account_info.code_bytes;
        let mut code_changes: Vec<(u64, Vec<u8>)> = Vec::new();
        let mut j: usize = 0;
        while j < hashes.writes.len()
            invariant
                cb == Map::new(
                    |h: B256| account_info.code_bytes@.contains_key(h),
                    |h: B256| account_info.code_bytes@[h].bytes@,
                ),
                0 <= j <= hashes.writes@.len(),
                code_changes@.len() == j,
                forall|a: int|
                    0 <= a < j ==> (#[trigger] code_changes@[a]).0 == hashes.writes@[a].0 && code_changes@[a].1@
                        == bytes_for_hash(cb, hashes.writes@[a].1),
            decreases hashes.writes@.len() - j,
        {
            let (index, code_hash) = hashes.writes[j];
            let bytes: Vec<u8> = match account_info.code_bytes.get(&code_hash) {
                Some(code) => code.duplicate().bytes,
                None => Vec::new(),
            };
            proof {
                assert(bytes@ == bytes_for_hash(cb, code_hash));
            }
            code_changes.push((index, bytes));
            j = j + 1;
        }
        proof {
            assert(index_ordered(hashes.writes@, v.account_info.code));
        }
        CanonicalAccountChanges {
            storage_changes,
            storage_reads,
            balance_changes: balance.writes,
            nonce_changes: nonce.writes,
            code_changes,
        }
    }
}

} // verus!
