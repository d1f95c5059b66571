//! In-memory EVM host state: the transaction overlay over the cache database, with a revert
//! journal.
//!
//! The state has two layers: the cache database holds accepted state, and the transaction
//! scratch holds the in-flight transaction's overlay, journal, logs, warm sets, touched and
//! self-destructed accounts and transient storage.
//!
//! Every journaled mutation records enough to undo it. The revertible part of the state, seen as
//! the account and storage values visible to the transaction together with the warm, touched,
//! self-destructed and transient sets, is captured by [`RevView`]; the state keeps, as ghost data,
//! the view it had at every journal length, and [`State::rollback`] to a checkpoint restores the
//! view recorded at the checkpoint.

mod account;
mod block;
mod changes;
mod journal;
mod stream;
mod tracked_value;

pub use account::{Account, AccountInfo};
pub use block::{
    BlockStateAccumulator, BlockStateView, accounts_after_change, block_state_consistent,
    law_accumulator_folds_events, law_block_state_recording_keeps_consistency, slot_delta_void, spec_fold_events,
    spec_on_account, spec_on_bytecode, spec_on_event, spec_on_storage, spec_on_storage_wipe, without_slots_of,
};
pub use changes::{
    AccountChange, AccountChangeView, StateChanges, account_change_events, change_events, code_change_events,
    slot_changed, slot_change_events, storage_change_events,
};
pub use journal::{JournalEntry, Log, StateCheckpoint, StorageOverlay, StorageSlot};
pub use stream::{
    AccountChangeRef, NoopChangeSink, SinkEvent, accepted_at, accepted_trace, StateChangeSink, StateChangeSource, StorageChange, Tee,
    flat, is_prefix, lemma_flat_prefix, lemma_flat_step, lemma_prefix_next, lemma_prefix_trans,
    law_empty_run_is_ok, lemma_prefix_of_concat, lemma_prefix_within, lemma_runs_err, lemma_runs_ok_empty, lemma_runs_ok_push, lemma_visit_step, runs,
    runs_ok,
};
pub use tracked_value::TrackedValue;

use vstd::prelude::*;
use crate::bytecode::Bytecode;
use crate::config::{EvmFeatures, Version};
use crate::eip7708::{eip7708_burn_log, is_burn_log};
use crate::host::{InstrStop, SStore};
use crate::db::{AccountStorageCache, CacheDB, DbErrorCode, DbResult};
use crate::primitives::{Address, B256, Word};
use crate::vecmap::{MapKey, StorageKey, VecMap, VecSet};

verus! {

/// Precompile 3, whose touch survives a rollback once EIP-161 is active.
pub open spec fn precompile3() -> Address {
    Address::spec_with_last_byte(3)
}

/// The account as the database holds it, as an overlay account.
pub open spec fn db_acc(db: CacheDB, address: Address) -> Option<Account> {
    match db.spec_account(address) {
        Some(info) => Some(Account::spec_from_info(info)),
        None => None,
    }
}

/// The value a slot has before the transaction writes it: zero after a wipe, else committed.
pub open spec fn base_slot(db: CacheDB, address: Address, key: Word, wiped: bool) -> Word {
    if wiped {
        Word::spec_zero()
    } else {
        db.spec_storage(address, key)
    }
}

/// The value of slot `key` of `address` as seen through an optional storage overlay.
pub open spec fn ov_eff(db: CacheDB, address: Address, key: Word, ov: Option<StorageOverlay>) -> Word {
    match ov {
        Some(o) => if o.slots@.contains_key(key) {
            o.slots@[key].current
        } else {
            base_slot(db, address, key, o.wiped)
        },
        None => db.spec_storage(address, key),
    }
}

/// Every slot of the overlay records the slot's base value as its original value.
pub open spec fn ov_ok(db: CacheDB, address: Address, o: StorageOverlay) -> bool {
    forall|k: Word| #[trigger] o.slots@.contains_key(k) ==> o.slots@[k].original == base_slot(
        db,
        address,
        k,
        o.wiped,
    )
}

/// The revertible part of the state.
#[verifier::ext_equal]
pub struct RevView {
    /// Every account's visible value (`None`: absent).
    pub accounts: Map<Address, Option<Account>>,
    /// Every storage slot's visible value.
    pub slots: Map<StorageKey, Word>,
    /// Whether each account's prior storage is wiped.
    pub wiped: Map<Address, bool>,
    /// Touched accounts other than precompile 3.
    pub touched: Set<Address>,
    /// Self-destructed accounts.
    pub selfdestructs: Set<Address>,
    /// Warm accounts.
    pub warm_accounts: Set<Address>,
    /// Warm storage slots.
    pub warm_slots: Set<StorageKey>,
    /// Non-zero transient storage.
    pub transient: Map<StorageKey, Word>,
}

/// The balance of an account in a view; an absent account has none.
pub open spec fn balance_of(r: RevView, address: Address) -> nat {
    match r.accounts[address] {
        Some(a) => a.balance.val(),
        None => 0,
    }
}

/// The account in a view, or the empty account when it is absent.
pub open spec fn account_or_empty(r: RevView, address: Address) -> Account {
    match r.accounts[address] {
        Some(a) => a,
        None => Account::spec_empty(),
    }
}

/// View `r1` follows `r0` after a transfer of `value` from `from` to `to` that succeeded
/// (`ok`) or was refused: a refused one changes nothing; a zero or self transfer only touches
/// `to`; otherwise `from` pays `value` and `to` receives it (saturating below two to the 256th
/// power), both touched and otherwise unchanged.
pub open spec fn transfer_outcome(r0: RevView, r1: RevView, from: Address, to: Address, value: Word, ok: bool) -> bool {
    &&& !ok ==> r1 == r0
    &&& ok && (value.val() == 0 || from == to) ==> r1 == (RevView {
        touched: r0.touched.insert(to).remove(precompile3()),
        ..r0
    })
    &&& ok && value.val() != 0 && from != to ==> {
        &&& r1.accounts[from] is Some
        &&& r1.accounts[from].unwrap() == (Account { balance: r1.accounts[from].unwrap().balance, ..account_or_empty(r0, from) })
        &&& r1.accounts[from].unwrap().balance.val() == balance_of(r0, from) - value.val()
        &&& r1.accounts[to] is Some
        &&& r1.accounts[to].unwrap() == (Account { balance: r1.accounts[to].unwrap().balance, ..account_or_empty(r0, to) })
        &&& r1.accounts[to].unwrap().balance.val() == if balance_of(r0, to) + value.val() < crate::primitives::word_modulus() {
            (balance_of(r0, to) + value.val()) as int
        } else {
            crate::primitives::word_modulus() - 1
        }
        &&& r1 == (RevView {
            accounts: r0.accounts.insert(from, r1.accounts[from]).insert(to, r1.accounts[to]),
            touched: r0.touched.insert(from).insert(to).remove(precompile3()),
            ..r0
        })
    }
}

/// An absent account has only zero storage, and if it existed in the database its storage is
/// wiped.
pub open spec fn rev_consistent(db: CacheDB, r: RevView) -> bool {
    &&& forall|a: Address|
        #[trigger] r.accounts[a] is None && db.spec_account(a) is Some ==> r.wiped[a]
    &&& forall|a: Address, k: Word|
        r.accounts[a] is None ==> #[trigger] r.slots[StorageKey { address: a, key: k }]
            == Word::spec_zero()
}

/// The view before the change recorded by `e`, given the view `r` after it.
pub open spec fn undo_rev(e: JournalEntry, r: RevView, db: CacheDB) -> RevView {
    match e {
        JournalEntry::AccountChange { address, previous } => RevView {
            accounts: r.accounts.insert(address, previous),
            ..r
        },
        JournalEntry::AccountInserted { address } => RevView {
            accounts: r.accounts.insert(address, db_acc(db, address)),
            ..r
        },
        JournalEntry::Touch { address } => RevView { touched: r.touched.remove(address), ..r },
        JournalEntry::SelfDestruct { address } => RevView {
            selfdestructs: r.selfdestructs.remove(address),
            ..r
        },
        JournalEntry::StorageChange { address, key, previous } => RevView {
            slots: r.slots.insert(StorageKey { address, key }, previous),
            ..r
        },
        JournalEntry::StorageInserted { address, key } => RevView {
            slots: r.slots.insert(
                StorageKey { address, key },
                base_slot(db, address, key, r.wiped[address]),
            ),
            ..r
        },
        JournalEntry::StorageWipe { address, previous } => RevView {
            slots: Map::new(
                |sk: StorageKey| true,
                |sk: StorageKey|
                    if sk.address == address {
                        ov_eff(db, address, sk.key, previous)
                    } else {
                        r.slots[sk]
                    },
            ),
            wiped: r.wiped.insert(
                address,
                match previous {
                    Some(o) => o.wiped,
                    None => false,
                },
            ),
            ..r
        },
        JournalEntry::TransientStorageChange { address, key, previous } => RevView {
            transient: match previous {
                Some(p) => if p != Word::spec_zero() {
                    r.transient.insert(StorageKey { address, key }, p)
                } else {
                    r.transient.remove(StorageKey { address, key })
                },
                None => r.transient.remove(StorageKey { address, key }),
            },
            ..r
        },
        JournalEntry::AccountWarmed { address } => RevView {
            warm_accounts: r.warm_accounts.remove(address),
            ..r
        },
        JournalEntry::StorageWarmed { address, key } => RevView {
            warm_slots: r.warm_slots.remove(StorageKey { address, key }),
            ..r
        },
    }
}

/// The view after deleting the accounts in `d`: each is absent, with its storage wiped to zero.
pub open spec fn rev_delete(r: RevView, d: Set<Address>) -> RevView {
    RevView {
        accounts: Map::new(
            |a: Address| true,
            |a: Address| if d.contains(a) { None } else { r.accounts[a] },
        ),
        slots: Map::new(
            |sk: StorageKey| true,
            |sk: StorageKey| if d.contains(sk.address) { Word::spec_zero() } else { r.slots[sk] },
        ),
        wiped: Map::new(|a: Address| true, |a: Address| d.contains(a) || r.wiped[a]),
        ..r
    }
}

/// The view after materializing each account in `m` as an empty account.
pub open spec fn rev_materialize(r: RevView, m: Set<Address>) -> RevView {
    RevView {
        accounts: Map::new(
            |a: Address| true,
            |a: Address| if m.contains(a) { Some(Account::spec_empty()) } else { r.accounts[a] },
        ),
        ..r
    }
}

/// A touched account that EIP-161 deletes at transaction end: it is present and empty, or it was
/// deleted in the transaction though the database holds it.
pub open spec fn existing_dead(r: RevView, db: CacheDB, a: Address) -> bool {
    match r.accounts[a] {
        Some(acc) => acc.spec_is_empty(),
        None => db.spec_account(a) is Some,
    }
}

/// The balances burned by self-destructs: each self-destructed account loaded in the overlay
/// with a non-zero balance, paired with that balance.
pub open spec fn burn_set(selfdestructs: Set<Address>, loaded: Map<Address, Option<Account>>) -> Set<(Address, Word)> {
    Set::new(
        |p: (Address, Word)|
            selfdestructs.contains(p.0) && loaded.contains_key(p.0) && loaded[p.0] is Some
                && loaded[p.0]->0.balance == p.1 && p.1.val() != 0,
    )
}

/// The pairs are in strictly increasing address order.
pub open spec fn addr_sorted(s: Seq<(Address, Word)>) -> bool {
    forall|i: int, j: int| 0 <= i < j < s.len() ==> (#[trigger] s[i]).0.spec_lt((#[trigger] s[j]).0)
}

/// Inserts `x` into a list sorted by address that does not hold `x`'s address.
fn insert_sorted(v: &mut Vec<(Address, Word)>, x: (Address, Word))
    requires
        addr_sorted(old(v)@),
        forall|i: int| 0 <= i < old(v)@.len() ==> (#[trigger] old(v)@[i]).0 != x.0,
    ensures
        addr_sorted(final(v)@),
        final(v)@.len() == old(v)@.len() + 1,
        forall|e: (Address, Word)| #[trigger] final(v)@.contains(e) <==> (old(v)@.contains(e) || e == x),
{
    let mut p: usize = 0;
    while p < v.len()
        invariant
            p <= v@.len(),
            v@ == old(v)@,
            forall|i: int| 0 <= i < p ==> (#[trigger] v@[i]).0.spec_lt(x.0),
        ensures
            p <= v@.len(),
            v@ == old(v)@,
            forall|i: int| 0 <= i < p ==> (#[trigger] v@[i]).0.spec_lt(x.0),
            p == v@.len() || !v@[p as int].0.spec_lt(x.0),
        decreases v@.len() - p,
    {
        if !v[p].0.lt(&x.0) {
            break;
        }
        p = p + 1;
    }
    let ghost s0 = v@;
    proof {
        assert forall|j: int| p <= j < s0.len() implies x.0.spec_lt((#[trigger] s0[j]).0) by {
            assert(s0[p as int].0 != x.0);
            if j > p {
                assert(s0[p as int].0.spec_lt(s0[j].0));
            }
        }
    }
    v.insert(p, x);
    proof {
        let s1 = v@;
        assert(s1 =~= s0.insert(p as int, x));
        assert forall|i: int, j: int| 0 <= i < j < s1.len() implies (#[trigger] s1[i]).0.spec_lt(
            (#[trigger] s1[j]).0,
        ) by {
            if j < p {
            } else if j == p {
            } else if i < p {
                assert(s1[j] == s0[j - 1]);
                assert(x.0.spec_lt(s0[j - 1].0));
            } else if i == p {
                assert(s1[j] == s0[j - 1]);
            } else {
                assert(s1[i] == s0[i - 1]);
                assert(s1[j] == s0[j - 1]);
            }
        }
        assert forall|e: (Address, Word)| #[trigger] s1.contains(e) <==> (s0.contains(e) || e == x) by {
            if s1.contains(e) {
                let k = choose|k: int| 0 <= k < s1.len() && s1[k] == e;
                if k < p {
                    assert(s0[k] == e);
                } else if k > p {
                    assert(s0[k - 1] == e);
                }
            }
            if s0.contains(e) {
                let k = choose|k: int| 0 <= k < s0.len() && s0[k] == e;
                if k < p {
                    assert(s1[k] == e);
                } else {
                    assert(s1[k + 1] == e);
                }
            }
            if e == x {
                assert(s1[p as int] == e);
            }
        }
    }
}

/// `after` is `before` followed by the `Burn` logs of the pairs in `burned`, in address order.
pub open spec fn burn_logs_appended(before: Seq<Log>, after: Seq<Log>, burned: Set<(Address, Word)>) -> bool {
    exists|b: Seq<(Address, Word)>|
        #[trigger] addr_sorted(b) && b.to_set() == burned && after.len() == before.len() + b.len()
            && after.take(before.len() as int) == before && forall|i: int|
            0 <= i < b.len() ==> is_burn_log(#[trigger] after[before.len() + i], b[i].0, b[i].1)
}

/// The account info of an overlay account value.
pub open spec fn info_of(a: Option<Account>) -> Option<AccountInfo> {
    match a {
        Some(acc) => Some(acc.spec_info()),
        None => None,
    }
}

/// The bytecode a transition reports for an account: the code set in this transaction, or the
/// empty code; otherwise it is not known.
pub open spec fn reported_code(acc: Account, codes: Map<B256, Seq<u8>>) -> Option<Seq<u8>> {
    if acc.code_changed && codes.contains_key(acc.code_hash) {
        Some(codes[acc.code_hash])
    } else if acc.code_hash == B256::spec_keccak_empty() {
        Some(Seq::empty())
    } else {
        None
    }
}

/// The account's code was set in this transaction to non-empty code whose hash is neither zero
/// nor the empty-code hash.
pub open spec fn has_changed_code(acc: Account, codes: Map<B256, Seq<u8>>) -> bool {
    &&& acc.code_changed
    &&& codes.contains_key(acc.code_hash)
    &&& codes[acc.code_hash].len() > 0
    &&& acc.code_hash != B256::spec_zero()
    &&& acc.code_hash != B256::spec_keccak_empty()
}

/// The value a committed storage cache holds for a slot of an account with overlay `o`: the
/// overlay's value where it must be written back, zero where the overlay wiped the storage, and
/// the cached value otherwise.
pub open spec fn committed_slot(db: CacheDB, a: Address, k: Word, o: StorageOverlay) -> Word {
    if o.slots@.contains_key(k) && slot_changed(o.wiped, o.slots@[k]) {
        o.slots@[k].current
    } else if o.wiped {
        Word::spec_zero()
    } else {
        db.raw_storage(a, k)
    }
}

/// Committing an overlay gives every slot its visible value.
proof fn lemma_committed_slot(db: CacheDB, a: Address, k: Word, o: StorageOverlay)
    requires
        db.wf(),
        ov_ok(db, a, o),
    ensures
        committed_slot(db, a, k, o) == ov_eff(db, a, k, Some(o)),
{
    assert(db.spec_account(a) is None ==> db.raw_storage(a, k) == Word::spec_zero());
    if o.slots@.contains_key(k) {
        assert(o.slots@[k].original == base_slot(db, a, k, o.wiped));
    }
}

/// Writes one storage overlay into the database's storage cache.
fn commit_storage_entry(db: &mut CacheDB, a: &Address, o: &StorageOverlay)
    ensures
        final(db).cache.accounts@ == old(db).cache.accounts@,
        final(db).cache.contracts@ == old(db).cache.contracts@,
        forall|x: Address, k: Word| x != *a ==> #[trigger] final(db).raw_storage(x, k) == old(db).raw_storage(x, k),
        forall|k: Word| #[trigger] final(db).raw_storage(*a, k) == committed_slot(*old(db), *a, k, *o),
{
    let mut entry = match db.cache.storage.remove(a) {
        Some(e) => e,
        None => AccountStorageCache::new(),
    };
    let ghost base = entry.slots@;
    if o.wiped {
        entry.wipe();
    }
    let keys = o.slots.keys();
    let mut i: usize = 0;
    while i < keys.len()
        invariant
            i <= keys@.len(),
            keys@.to_set() == o.slots@.dom(),
            db.cache.storage@ == old(db).cache.storage@.remove(*a),
            db.cache.accounts@ == old(db).cache.accounts@,
            db.cache.contracts@ == old(db).cache.contracts@,
            base == (if old(db).cache.storage@.contains_key(*a) {
                old(db).cache.storage@[*a].slots@
            } else {
                Map::<Word, Word>::empty()
            }),
            forall|k: Word| #[trigger] entry.slots@.contains_key(k) ==> (keys@.take(i as int).contains(k)
                && o.slots@.contains_key(k) && slot_changed(o.wiped, o.slots@[k])) || (!o.wiped && base.contains_key(k)),
            forall|k: Word| #[trigger] entry.slots@.contains_key(k) ==> entry.slots@[k] == if keys@.take(i as int).contains(k)
                && o.slots@.contains_key(k) && slot_changed(o.wiped, o.slots@[k]) {
                o.slots@[k].current
            } else {
                base[k]
            },
            forall|k: Word| (keys@.take(i as int).contains(k) && o.slots@.contains_key(k) && slot_changed(o.wiped, o.slots@[k]))
                || (!o.wiped && base.contains_key(k)) ==> #[trigger] entry.slots@.contains_key(k),
        decreases keys@.len() - i,
    {
        let k = keys[i];
        let ghost t0 = keys@.take(i as int);
        match o.slots.get(&k) {
            Some(slot) => {
                if !(slot.original == slot.current) && (!o.wiped || !slot.current.is_zero()) {
                    entry.slots.insert(k, slot.current);
                }
            },
            None => {},
        }
        proof {
            let t1 = keys@.take(i + 1);
            assert(t1 =~= t0.push(k));
            assert(keys@.to_set().contains(k));
            assert forall|x: Word| #[trigger] t1.contains(x) <==> (t0.contains(x) || x == k) by {
                if t1.contains(x) && x != k {
                    let m = choose|m: int| 0 <= m < t1.len() && t1[m] == x;
                    assert(t0[m] == x);
                }
                if t0.contains(x) {
                    let m = choose|m: int| 0 <= m < t0.len() && t0[m] == x;
                    assert(t1[m] == x);
                }
                if x == k {
                    assert(t1[i as int] == k);
                }
            }
        }
        i += 1;
    }
    proof {
        assert(keys@.take(keys@.len() as int) =~= keys@);
        assert forall|k: Word| o.slots@.contains_key(k) implies keys@.contains(k) by {
            assert(keys@.to_set().contains(k));
        }
    }
    db.cache.storage.insert(*a, entry);
}

/// The account a database answers after a transition's account changes are applied: a changed
/// account takes its current value (`None` deletes it); others keep the database's.
pub open spec fn applied_account(db: CacheDB, changes: Map<Address, AccountChangeView>, a: Address) -> Option<AccountInfo> {
    if changes.contains_key(a) && changes[a].original != changes[a].current {
        changes[a].current
    } else {
        db.spec_account(a)
    }
}

/// The slot a database answers after a transition is applied in the documented order: storage of
/// a wiped account is deleted, each changed slot is written, and a deleted or absent account has
/// no storage.
pub open spec fn applied_slot(db: CacheDB, changes: Map<Address, AccountChangeView>, a: Address, k: Word) -> Word {
    if applied_account(db, changes, a) is None {
        Word::spec_zero()
    } else if changes.contains_key(a) && changes[a].storage.contains_key(k) && slot_changed(
        changes[a].wipe_storage,
        changes[a].storage[k],
    ) {
        changes[a].storage[k].current
    } else if changes.contains_key(a) && changes[a].wipe_storage {
        Word::spec_zero()
    } else {
        db.spec_storage(a, k)
    }
}

/// Transaction-scoped state.
struct TxScratch {
    accounts: VecMap<Address, Option<Account>>,
    storage: VecMap<Address, StorageOverlay>,
    journal: Vec<JournalEntry>,
    logs: Vec<Log>,
    touched: VecSet<Address>,
    selfdestructs: VecSet<Address>,
    created_selfdestructs: VecSet<Address>,
    accessed_accounts: VecSet<Address>,
    accessed_storage: VecSet<StorageKey>,
    transient_storage: VecMap<StorageKey, Word>,
    codes: VecMap<B256, Bytecode>,
}

impl TxScratch {
    fn new() -> (r: TxScratch)
        ensures
            r.accounts@ == Map::<Address, Option<Account>>::empty(),
            r.storage@ == Map::<Address, StorageOverlay>::empty(),
            r.journal@ == Seq::<JournalEntry>::empty(),
            r.logs@ == Seq::<Log>::empty(),
            r.touched@ == Set::<Address>::empty(),
            r.selfdestructs@ == Set::<Address>::empty(),
            r.created_selfdestructs@ == Set::<Address>::empty(),
            r.accessed_accounts@ == Set::<Address>::empty(),
            r.accessed_storage@ == Set::<StorageKey>::empty(),
            r.transient_storage@ == Map::<StorageKey, Word>::empty(),
            r.codes@ == Map::<B256, Bytecode>::empty(),
    {
        TxScratch {
            accounts: VecMap::new(),
            storage: VecMap::new(),
            journal: Vec::new(),
            logs: Vec::new(),
            touched: VecSet::new(),
            selfdestructs: VecSet::new(),
            created_selfdestructs: VecSet::new(),
            accessed_accounts: VecSet::new(),
            accessed_storage: VecSet::new(),
            transient_storage: VecMap::new(),
            codes: VecMap::new(),
        }
    }
}

/// Mutable EVM state: an accepted-state cache database, transaction scratch and a revert
/// journal.
pub struct State {
    database: CacheDB,
    scratch: TxScratch,
    snaps: Ghost<Seq<RevView>>,
}

impl State {
    // ---------------------------------------------------------------- views

    /// The accepted-state database.
    pub closed spec fn db(&self) -> CacheDB {
        self.database
    }

    /// The accounts loaded into the transaction overlay (`None`: absent or deleted).
    pub closed spec fn loaded_accounts(&self) -> Map<Address, Option<Account>> {
        self.scratch.accounts@
    }

    /// The storage overlay of `address`, if the transaction has one.
    pub closed spec fn overlay(&self, address: Address) -> Option<StorageOverlay> {
        if self.scratch.storage@.contains_key(address) {
            Some(self.scratch.storage@[address])
        } else {
            None
        }
    }

    /// The account's visible value.
    pub closed spec fn eff_account(&self, address: Address) -> Option<Account> {
        if self.scratch.accounts@.contains_key(address) {
            self.scratch.accounts@[address]
        } else {
            db_acc(self.database, address)
        }
    }

    /// The slot's visible value.
    pub closed spec fn eff_slot(&self, address: Address, key: Word) -> Word {
        ov_eff(self.database, address, key, self.overlay(address))
    }

    /// Whether the account's prior storage is wiped.
    pub closed spec fn ov_wiped(&self, address: Address) -> bool {
        match self.overlay(address) {
            Some(o) => o.wiped,
            None => false,
        }
    }

    /// The revertible view of the state.
    pub closed spec fn rev(&self) -> RevView {
        RevView {
            accounts: Map::new(|a: Address| true, |a: Address| self.eff_account(a)),
            slots: Map::new(
                |sk: StorageKey| true,
                |sk: StorageKey| self.eff_slot(sk.address, sk.key),
            ),
            wiped: Map::new(|a: Address| true, |a: Address| self.ov_wiped(a)),
            touched: self.scratch.touched@.remove(precompile3()),
            selfdestructs: self.scratch.selfdestructs@,
            warm_accounts: self.scratch.accessed_accounts@,
            warm_slots: self.scratch.accessed_storage@,
            transient: self.scratch.transient_storage@,
        }
    }

    /// The revert journal.
    pub closed spec fn journal_view(&self) -> Seq<JournalEntry> {
        self.scratch.journal@
    }

    /// The logs emitted so far.
    pub closed spec fn logs_view(&self) -> Seq<Log> {
        self.scratch.logs@
    }

    /// All touched accounts.
    pub closed spec fn touched_view(&self) -> Set<Address> {
        self.scratch.touched@
    }

    /// Self-destructed accounts that were created in the same transaction, as recorded at
    /// finalization.
    pub closed spec fn created_view(&self) -> Set<Address> {
        self.scratch.created_selfdestructs@
    }

    /// Code set in this transaction, by code hash.
    pub closed spec fn codes_view(&self) -> Map<B256, Seq<u8>> {
        Map::new(|h: B256| self.scratch.codes@.contains_key(h), |h: B256| self.scratch.codes@[h].bytes@)
    }

    /// The change a transition reports for `a`, before its storage is attached.
    pub open spec fn base_change(&self, a: Address) -> AccountChangeView {
        if self.loaded_accounts().contains_key(a) {
            let cur = self.loaded_accounts()[a];
            AccountChangeView {
                original: self.db().spec_account(a),
                current: info_of(cur),
                code: match cur {
                    Some(acc) => reported_code(acc, self.codes_view()),
                    None => None,
                },
                storage: Map::empty(),
                wipe_storage: false,
                created: (cur is Some && cur->0.just_created) || self.created_view().contains(a),
                selfdestructed: self.rev().selfdestructs.contains(a),
            }
        } else {
            AccountChangeView {
                original: self.db().spec_account(a),
                current: self.db().spec_account(a),
                code: None,
                storage: Map::empty(),
                wipe_storage: false,
                created: false,
                selfdestructed: false,
            }
        }
    }

    /// The change a transition reports for `a`.
    pub open spec fn change_of(&self, a: Address) -> AccountChangeView {
        match self.overlay(a) {
            Some(o) => AccountChangeView { storage: o.slots@, wipe_storage: o.wiped, ..self.base_change(a) },
            None => self.base_change(a),
        }
    }

    /// The account changes of the transaction: every loaded account and every account with a
    /// storage overlay.
    pub open spec fn changes_view(&self) -> Map<Address, AccountChangeView> {
        Map::new(
            |a: Address| self.loaded_accounts().contains_key(a) || self.overlay(a) is Some,
            |a: Address| self.change_of(a),
        )
    }

    /// Loaded account `a` carries changed code under `h`.
    pub open spec fn code_contrib(&self, a: Address, h: B256) -> bool {
        &&& self.loaded_accounts().contains_key(a)
        &&& self.loaded_accounts()[a] is Some
        &&& self.loaded_accounts()[a]->0.code_hash == h
        &&& has_changed_code(self.loaded_accounts()[a]->0, self.codes_view())
    }

    /// The changed code of the transaction, by code hash.
    pub open spec fn changed_code_view(&self) -> Map<B256, Seq<u8>> {
        Map::new(|h: B256| exists|a: Address| #[trigger] self.code_contrib(a, h), |h: B256| self.codes_view()[h])
    }

    /// The account's code as the transaction sees it: none for an absent account or the
    /// empty-code hash, the code set in this transaction, else the database's code for the hash.
    pub open spec fn visible_code(&self, a: Address) -> Seq<u8> {
        match self.rev().accounts[a] {
            None => Seq::empty(),
            Some(acc) => if acc.code_hash == B256::spec_keccak_empty() {
                Seq::empty()
            } else if acc.code_changed && self.codes_view().contains_key(acc.code_hash) {
                self.codes_view()[acc.code_hash]
            } else {
                match self.db().spec_code(acc.code_hash) {
                    Some(c) => c,
                    None => Seq::empty(),
                }
            },
        }
    }

    /// The revertible view recorded when the journal had length `i`.
    pub closed spec fn snapshot(&self, i: int) -> RevView {
        self.snaps@[i]
    }

    // ---------------------------------------------------------------- invariant

    closed spec fn inv_overlays(&self) -> bool {
        forall|a: Address| #[trigger] self.scratch.storage@.contains_key(a) ==> ov_ok(
            self.database,
            a,
            self.scratch.storage@[a],
        )
    }

    closed spec fn inv_journal(&self) -> bool {
        let j = self.scratch.journal@;
        &&& forall|i: int|
            0 <= i < j.len() ==> match #[trigger] j[i] {
                JournalEntry::StorageWipe { address, previous } => match previous {
                    Some(o) => ov_ok(self.database, address, o),
                    None => true,
                },
                JournalEntry::AccountChange { address, previous } => self.scratch.accounts@.contains_key(
                    address,
                ),
                JournalEntry::AccountInserted { address } => self.scratch.accounts@.contains_key(
                    address,
                ),
                _ => true,
            }
    }

    closed spec fn inv_transient(&self) -> bool {
        forall|sk: StorageKey| #[trigger] self.scratch.transient_storage@.contains_key(sk)
            ==> self.scratch.transient_storage@[sk] != Word::spec_zero()
    }

    closed spec fn chain_core(&self) -> bool {
        let j = self.scratch.journal@;
        let s = self.snaps@;
        &&& s.len() == j.len() + 1
        &&& forall|i: int| 0 <= i < j.len() ==> undo_rev(#[trigger] j[i], s[i + 1], self.database) == s[i]
        &&& forall|i: int| 0 <= i < s.len() ==> rev_consistent(self.database, #[trigger] s[i])
        &&& forall|i: int, k: int|
            0 <= i < k < s.len() && j[i] is AccountWarmed ==> #[trigger] s[k].warm_accounts.contains(
                #[trigger] j[i]->AccountWarmed_address,
            )
        &&& forall|i: int, k: int|
            0 <= i < k < s.len() && j[i] is StorageWarmed ==> #[trigger] s[k].warm_slots.contains(
                StorageKey { address: #[trigger] j[i]->StorageWarmed_address, key: j[i]->StorageWarmed_key },
            )
    }

    closed spec fn last_snap(&self) -> RevView {
        self.snaps@[self.scratch.journal@.len() as int]
    }

    closed spec fn inv_chain(&self) -> bool {
        &&& self.chain_core()
        &&& self.last_snap() == self.rev()
    }

    /// The state's invariant.
    pub closed spec fn inv(&self) -> bool {
        &&& self.database.wf()
        &&& self.inv_overlays()
        &&& self.inv_journal()
        &&& self.inv_transient()
        &&& self.inv_chain()
    }

    /// `self` came from `old` by journaled changes: the database, the journal and the logs up
    /// to `old`'s lengths, and the views recorded up to `old`'s journal length are unchanged.
    pub closed spec fn extends(&self, old: &State) -> bool {
        &&& self.database == old.database
        &&& self.scratch.journal@.len() >= old.scratch.journal@.len()
        &&& self.scratch.journal@.take(old.scratch.journal@.len() as int) == old.scratch.journal@
        &&& self.scratch.logs@.len() >= old.scratch.logs@.len()
        &&& self.scratch.logs@.take(old.scratch.logs@.len() as int) == old.scratch.logs@
        &&& forall|i: int|
            0 <= i <= old.scratch.journal@.len() ==> #[trigger] self.snaps@[i] == old.snaps@[i]
    }

    /// The database beneath a consistent state is well formed.
    pub proof fn lemma_inv_db_wf(s: &State)
        requires
            s.inv(),
        ensures
            s.db().wf(),
    {
    }

    /// Extension keeps the database and the recorded prefix of the logs.
    pub proof fn lemma_extends_db(a: &State, b: &State)
        requires
            b.extends(a),
        ensures
            b.db() == a.db(),
            b.logs_view().len() >= a.logs_view().len(),
            b.logs_view().take(a.logs_view().len() as int) == a.logs_view(),
            b.journal_view().take(a.journal_view().len() as int) == a.journal_view(),
    {
    }

    /// A loaded account's overlay value is its visible value; an account that is not loaded is
    /// seen as the database holds it.
    pub proof fn lemma_loaded_is_visible(s: &State, a: Address)
        ensures
            s.loaded_accounts().contains_key(a) ==> s.loaded_accounts()[a] == s.rev().accounts[a],
            !s.loaded_accounts().contains_key(a) ==> s.rev().accounts[a] == db_acc(s.db(), a),
    {
    }

    /// Every state extends itself.
    pub proof fn lemma_extends_refl(s: &State)
        ensures
            s.extends(s),
    {
        assert(s.scratch.journal@.take(s.scratch.journal@.len() as int) =~= s.scratch.journal@);
        assert(s.scratch.logs@.take(s.scratch.logs@.len() as int) =~= s.scratch.logs@);
    }

    /// Extension composes.
    pub proof fn lemma_extends_trans(a: &State, b: &State, c: &State)
        requires
            b.extends(a),
            c.extends(b),
        ensures
            c.extends(a),
    {
        let na = a.scratch.journal@.len() as int;
        let nb = b.scratch.journal@.len() as int;
        assert(c.scratch.journal@.take(na) =~= c.scratch.journal@.take(nb).take(na));
        let la = a.scratch.logs@.len() as int;
        let lb = b.scratch.logs@.len() as int;
        assert(c.scratch.logs@.take(la) =~= c.scratch.logs@.take(lb).take(la));
    }

    // ---------------------------------------------------------------- construction

    /// A state over `database` with an empty transaction.
    pub fn new(database: CacheDB) -> (r: State)
        requires
            database.wf(),
        ensures
            r.inv(),
            r.db() == database,
            r.journal_view().len() == 0,
            r.logs_view().len() == 0,
            forall|a: Address| #[trigger] r.rev().accounts[a] == db_acc(database, a),
            forall|sk: StorageKey| #[trigger] r.rev().slots[sk] == database.spec_storage(
                sk.address,
                sk.key,
            ),
            r.rev().touched == Set::<Address>::empty(),
            r.rev().selfdestructs == Set::<Address>::empty(),
            r.rev().warm_accounts == Set::<Address>::empty(),
            r.rev().warm_slots == Set::<StorageKey>::empty(),
            r.rev().transient == Map::<StorageKey, Word>::empty(),
    {
        let scratch = TxScratch::new();
        let mut r = State { database, scratch, snaps: Ghost(Seq::empty()) };
        proof {
            r.snaps@ = seq![r.rev()];
            assert(r.rev().touched =~= Set::<Address>::empty());
            assert(r.inv_overlays());
            assert(r.inv_journal());
            assert(r.inv_transient());
            assert(rev_consistent(r.database, r.rev()));
            assert(r.snaps@[0] == r.rev());
            assert(r.inv_chain());
        }
        r
    }

    /// Returns a checkpoint for a later rollback.
    pub fn checkpoint(&self) -> (r: StateCheckpoint)
        requires
            self.inv(),
        ensures
            r.spec_journal_len() == self.journal_view().len(),
            r.spec_logs_len() == self.logs_view().len(),
            self.snapshot(r.spec_journal_len() as int) == self.rev(),
    {
        StateCheckpoint::new(self.scratch.journal.len(), self.scratch.logs.len())
    }

    /// The logs emitted by the current transaction.
    pub fn logs(&self) -> (r: &Vec<Log>)
        ensures
            r@ == self.logs_view(),
    {
        &self.scratch.logs
    }

    /// The revert journal of the current transaction.
    pub fn journal(&self) -> (r: &Vec<JournalEntry>)
        ensures
            r@ == self.journal_view(),
    {
        &self.scratch.journal
    }

    /// Records a log.
    pub fn log(&mut self, log: Log)
        requires
            old(self).inv(),
        ensures
            final(self).inv(),
            final(self).extends(old(self)),
            final(self).logs_view() == old(self).logs_view().push(log),
            final(self).journal_view() == old(self).journal_view(),
            final(self).rev() == old(self).rev(),
            final(self).loaded_accounts() == old(self).loaded_accounts(),
            final(self).touched_view() == old(self).touched_view(),
            final(self).created_view() == old(self).created_view(),
    {
        self.scratch.logs.push(log);
        proof {
            assert(self.scratch.logs@.take(old(self).scratch.logs@.len() as int) =~= old(self).scratch.logs@);
            assert(self.scratch.journal@.take(old(self).scratch.journal@.len() as int)
                =~= old(self).scratch.journal@);
            assert(self.rev() =~= old(self).rev());
        }
    }

    // ---------------------------------------------------------------- journal bookkeeping

    /// Records `e`, whose undo turns the current view back into the last recorded one.
    fn push_entry(&mut self, e: JournalEntry)
        requires
            old(self).chain_core(),
            undo_rev(e, old(self).rev(), old(self).database) == old(self).last_snap(),
            rev_consistent(old(self).database, old(self).rev()),
            old(self).last_snap().warm_accounts.subset_of(old(self).rev().warm_accounts),
            old(self).last_snap().warm_slots.subset_of(old(self).rev().warm_slots),
            e is AccountWarmed ==> old(self).rev().warm_accounts.contains(e->AccountWarmed_address),
            e is StorageWarmed ==> old(self).rev().warm_slots.contains(
                StorageKey { address: e->StorageWarmed_address, key: e->StorageWarmed_key },
            ),
        ensures
            final(self).inv_chain(),
            final(self).database == old(self).database,
            final(self).scratch.journal@ == old(self).scratch.journal@.push(e),
            final(self).snaps@ == old(self).snaps@.push(old(self).rev()),
            final(self).scratch.accounts == old(self).scratch.accounts,
            final(self).scratch.storage == old(self).scratch.storage,
            final(self).scratch.logs == old(self).scratch.logs,
            final(self).scratch.touched == old(self).scratch.touched,
            final(self).scratch.selfdestructs == old(self).scratch.selfdestructs,
            final(self).scratch.created_selfdestructs == old(self).scratch.created_selfdestructs,
            final(self).scratch.accessed_accounts == old(self).scratch.accessed_accounts,
            final(self).scratch.accessed_storage == old(self).scratch.accessed_storage,
            final(self).scratch.transient_storage == old(self).scratch.transient_storage,
            final(self).scratch.codes == old(self).scratch.codes,
            final(self).rev() == old(self).rev(),
    {
        let ghost r = self.rev();
        self.scratch.journal.push(e);
        self.snaps = Ghost(self.snaps@.push(r));
        proof {
            assert(self.rev() =~= r);
            let j = self.scratch.journal@;
            let sn = self.snaps@;
            let n = old(self).scratch.journal@.len() as int;
            assert forall|i: int| 0 <= i < j.len() implies undo_rev(#[trigger] j[i], sn[i + 1], self.database)
                == sn[i] by {
                if i < n {
                    assert(j[i] == old(self).scratch.journal@[i]);
                    assert(sn[i + 1] == old(self).snaps@[i + 1]);
                }
            }
            assert forall|i: int| 0 <= i < sn.len() implies rev_consistent(self.database, #[trigger] sn[i]) by {
                if i <= n {
                    assert(sn[i] == old(self).snaps@[i]);
                }
            }
            assert forall|i: int, k: int|
                0 <= i < k < sn.len() && j[i] is AccountWarmed implies #[trigger] sn[k].warm_accounts.contains(
                #[trigger] j[i]->AccountWarmed_address) by {
                if k <= n {
                    assert(sn[k] == old(self).snaps@[k]);
                    assert(j[i] == old(self).scratch.journal@[i]);
                } else if i < n {
                    assert(j[i] == old(self).scratch.journal@[i]);
                    assert(old(self).snaps@[n].warm_accounts.contains(j[i]->AccountWarmed_address));
                }
            }
            assert forall|i: int, k: int|
                0 <= i < k < sn.len() && j[i] is StorageWarmed implies #[trigger] sn[k].warm_slots.contains(
                StorageKey { address: #[trigger] j[i]->StorageWarmed_address, key: j[i]->StorageWarmed_key }) by {
                if k <= n {
                    assert(sn[k] == old(self).snaps@[k]);
                    assert(j[i] == old(self).scratch.journal@[i]);
                } else if i < n {
                    assert(j[i] == old(self).scratch.journal@[i]);
                    assert(old(self).snaps@[n].warm_slots.contains(
                        StorageKey { address: j[i]->StorageWarmed_address, key: j[i]->StorageWarmed_key }));
                }
            }
        }
    }

    /// A change that leaves the journal and the revertible view alone keeps the chain.
    proof fn lemma_chain_same(old_s: &State, new_s: &State)
        requires
            old_s.inv_chain(),
            new_s.database == old_s.database,
            new_s.scratch.journal@ == old_s.scratch.journal@,
            new_s.snaps@ == old_s.snaps@,
            new_s.rev() == old_s.rev(),
        ensures
            new_s.inv_chain(),
    {
    }

    // ---------------------------------------------------------------- touched accounts

    /// Whether the account was touched in the current transaction.
    pub fn is_touched(&self, address: &Address) -> (r: bool)
        ensures
            r == self.touched_view().contains(*address),
    {
        self.scratch.touched.contains(address)
    }

    /// Marks an account as touched by the current transaction.
    pub fn touch(&mut self, address: &Address)
        requires
            old(self).inv(),
        ensures
            final(self).inv(),
            final(self).extends(old(self)),
            final(self).touched_view() == old(self).touched_view().insert(*address),
            final(self).rev() == (RevView {
                touched: old(self).rev().touched.insert(*address).remove(precompile3()),
                ..old(self).rev()
            }),
            old(self).touched_view().contains(*address) ==> final(self).journal_view() == old(self).journal_view(),
            !old(self).touched_view().contains(*address) ==> final(self).journal_view() == old(self).journal_view().push(JournalEntry::Touch { address: *address }),
            final(self).logs_view() == old(self).logs_view(),
            final(self).loaded_accounts() == old(self).loaded_accounts(),
    {
        if self.scratch.touched.insert(*address) {
            let e = JournalEntry::Touch { address: *address };
            proof {
                assert(self.rev() =~= (RevView {
                    touched: old(self).rev().touched.insert(*address).remove(precompile3()),
                    ..old(self).rev()
                }));
                assert(undo_rev(e, self.rev(), self.database) =~= old(self).rev());
            }
            self.push_entry(e);
        } else {
            proof {
                assert(self.scratch.touched@ =~= old(self).scratch.touched@);
                assert(self.rev() =~= old(self).rev());
            }
        }
        proof {
            assert(self.scratch.journal@.take(old(self).scratch.journal@.len() as int)
                =~= old(self).scratch.journal@);
        }
        proof {
            assert(self.scratch.logs@.take(old(self).scratch.logs@.len() as int)
                =~= old(self).scratch.logs@);
        }
    }

    // ---------------------------------------------------------------- warm sets

    /// Returns whether the account is warm in the current transaction.
    pub fn is_account_warm(&self, address: &Address) -> (r: bool)
        ensures
            r == self.rev().warm_accounts.contains(*address),
    {
        self.scratch.accessed_accounts.contains(address)
    }

    /// Marks an account warm in a revertible context; returns whether it was cold. A newly warmed
    /// account is journaled and cooled again by a rollback.
    pub fn warm_account(&mut self, address: &Address) -> (r: bool)
        requires
            old(self).inv(),
        ensures
            final(self).inv(),
            final(self).extends(old(self)),
            r == !old(self).rev().warm_accounts.contains(*address),
            final(self).rev() == (RevView {
                warm_accounts: old(self).rev().warm_accounts.insert(*address),
                ..old(self).rev()
            }),
            r ==> final(self).journal_view() == old(self).journal_view().push(
                JournalEntry::AccountWarmed { address: *address },
            ),
            !r ==> final(self).journal_view() == old(self).journal_view(),
            final(self).logs_view() == old(self).logs_view(),
            final(self).touched_view() == old(self).touched_view(),
            final(self).loaded_accounts() == old(self).loaded_accounts(),
            final(self).codes_view() == old(self).codes_view(),
    {
        let r = self.scratch.accessed_accounts.insert(*address);
        if r {
            let e = JournalEntry::AccountWarmed { address: *address };
            proof {
                assert(self.rev() =~= (RevView {
                    warm_accounts: old(self).rev().warm_accounts.insert(*address),
                    ..old(self).rev()
                }));
                assert(undo_rev(e, self.rev(), self.database) =~= old(self).rev());
            }
            self.push_entry(e);
        } else {
            proof {
                assert(self.rev() =~= old(self).rev());
            }
        }
        proof {
            assert(self.scratch.journal@.take(old(self).scratch.journal@.len() as int)
                =~= old(self).scratch.journal@);
            assert(self.scratch.logs@.take(old(self).scratch.logs@.len() as int)
                =~= old(self).scratch.logs@);
        }
        r
    }

    proof fn lemma_undo_commutes_warm_account(e: JournalEntry, r: RevView, a: Address, db: CacheDB)
        requires
            !(e is AccountWarmed && e->AccountWarmed_address == a),
        ensures
            undo_rev(e, RevView { warm_accounts: r.warm_accounts.insert(a), ..r }, db) == (RevView {
                warm_accounts: undo_rev(e, r, db).warm_accounts.insert(a),
                ..undo_rev(e, r, db)
            }),
    {
        let r2 = RevView { warm_accounts: r.warm_accounts.insert(a), ..r };
        assert(undo_rev(e, r2, db) =~= (RevView {
            warm_accounts: undo_rev(e, r, db).warm_accounts.insert(a),
            ..undo_rev(e, r, db)
        }));
    }

    proof fn lemma_undo_commutes_warm_slot(e: JournalEntry, r: RevView, sk: StorageKey, db: CacheDB)
        requires
            !(e is StorageWarmed && e->StorageWarmed_address == sk.address && e->StorageWarmed_key
                == sk.key),
        ensures
            undo_rev(e, RevView { warm_slots: r.warm_slots.insert(sk), ..r }, db) == (RevView {
                warm_slots: undo_rev(e, r, db).warm_slots.insert(sk),
                ..undo_rev(e, r, db)
            }),
    {
        let r2 = RevView { warm_slots: r.warm_slots.insert(sk), ..r };
        assert(undo_rev(e, r2, db) =~= (RevView {
            warm_slots: undo_rev(e, r, db).warm_slots.insert(sk),
            ..undo_rev(e, r, db)
        }));
    }

    /// Marks an account warm outside every revertible context. The warmth is not journaled and
    /// survives rollback: it is added to every recorded view as well.
    pub fn warm_account_non_revertible(&mut self, address: &Address)
        requires
            old(self).inv(),
        ensures
            final(self).inv(),
            final(self).db() == old(self).db(),
            final(self).rev() == (RevView {
                warm_accounts: old(self).rev().warm_accounts.insert(*address),
                ..old(self).rev()
            }),
            final(self).journal_view() == old(self).journal_view(),
            final(self).logs_view() == old(self).logs_view(),
            final(self).touched_view() == old(self).touched_view(),
            final(self).loaded_accounts() == old(self).loaded_accounts(),
            old(self).rev().warm_accounts.contains(*address) ==> forall|i: int|
                0 <= i <= old(self).journal_view().len() ==> #[trigger] final(self).snapshot(i)
                    == old(self).snapshot(i),
            !old(self).rev().warm_accounts.contains(*address) ==> forall|i: int|
                0 <= i <= old(self).journal_view().len() ==> #[trigger] final(self).snapshot(i) == (
                RevView {
                    warm_accounts: old(self).snapshot(i).warm_accounts.insert(*address),
                    ..old(self).snapshot(i)
                }),
    {
        let inserted = self.scratch.accessed_accounts.insert(*address);
        let ghost s_old = self.snaps@;
        let ghost a = *address;
        let ghost s_new = Seq::new(
            s_old.len(),
            |i: int| RevView { warm_accounts: s_old[i].warm_accounts.insert(a), ..s_old[i] },
        );
        if inserted {
            self.snaps = Ghost(s_new);
            proof {
                let j = self.scratch.journal@;
                let db = self.database;
                assert forall|i: int| 0 <= i < j.len() implies undo_rev(#[trigger] j[i], s_new[i + 1], db)
                    == s_new[i] by {
                    if j[i] is AccountWarmed && j[i]->AccountWarmed_address == a {
                        assert(s_old[j.len() as int].warm_accounts.contains(j[i]->AccountWarmed_address));
                        assert(false);
                    }
                    State::lemma_undo_commutes_warm_account(j[i], s_old[i + 1], a, db);
                }
                assert forall|i: int| 0 <= i < s_new.len() implies rev_consistent(db, #[trigger] s_new[i]) by {
                    assert(rev_consistent(db, s_old[i]));
                }
                assert forall|i: int, k: int|
                    0 <= i < k < s_new.len() && j[i] is AccountWarmed implies #[trigger] s_new[k].warm_accounts.contains(
                    #[trigger] j[i]->AccountWarmed_address) by {
                    assert(s_old[k].warm_accounts.contains(j[i]->AccountWarmed_address));
                }
                assert forall|i: int, k: int|
                    0 <= i < k < s_new.len() && j[i] is StorageWarmed implies #[trigger] s_new[k].warm_slots.contains(
                    StorageKey { address: #[trigger] j[i]->StorageWarmed_address, key: j[i]->StorageWarmed_key }) by {
                    assert(s_old[k].warm_slots.contains(
                        StorageKey { address: j[i]->StorageWarmed_address, key: j[i]->StorageWarmed_key }));
                }
                assert(self.rev() =~= (RevView {
                    warm_accounts: old(self).rev().warm_accounts.insert(*address),
                    ..old(self).rev()
                }));
            }
        } else {
            proof {
                assert(self.rev() =~= old(self).rev());
            }
        }
    }

    /// Returns whether the storage slot is warm in the current transaction.
    pub fn is_storage_warm(&self, address: &Address, key: &Word) -> (r: bool)
        ensures
            r == self.rev().warm_slots.contains(StorageKey { address: *address, key: *key }),
    {
        self.scratch.accessed_storage.contains(&StorageKey { address: *address, key: *key })
    }

    /// Marks a storage slot warm in a revertible context; returns whether it was cold. A newly
    /// warmed slot is journaled and cooled again by a rollback.
    pub fn warm_storage(&mut self, address: &Address, key: &Word) -> (r: bool)
        requires
            old(self).inv(),
        ensures
            final(self).inv(),
            final(self).extends(old(self)),
            r == !old(self).rev().warm_slots.contains(StorageKey { address: *address, key: *key }),
            final(self).rev() == (RevView {
                warm_slots: old(self).rev().warm_slots.insert(
                    StorageKey { address: *address, key: *key },
                ),
                ..old(self).rev()
            }),
            r ==> final(self).journal_view() == old(self).journal_view().push(
                JournalEntry::StorageWarmed { address: *address, key: *key },
            ),
            !r ==> final(self).journal_view() == old(self).journal_view(),
            final(self).logs_view() == old(self).logs_view(),
            final(self).touched_view() == old(self).touched_view(),
            final(self).loaded_accounts() == old(self).loaded_accounts(),
    {
        let sk = StorageKey { address: *address, key: *key };
        let r = self.scratch.accessed_storage.insert(sk);
        if r {
            let e = JournalEntry::StorageWarmed { address: *address, key: *key };
            proof {
                assert(self.rev() =~= (RevView {
                    warm_slots: old(self).rev().warm_slots.insert(sk),
                    ..old(self).rev()
                }));
                assert(undo_rev(e, self.rev(), self.database) =~= old(self).rev());
            }
            self.push_entry(e);
        } else {
            proof {
                assert(self.rev() =~= old(self).rev());
            }
        }
        proof {
            assert(self.scratch.journal@.take(old(self).scratch.journal@.len() as int)
                =~= old(self).scratch.journal@);
            assert(self.scratch.logs@.take(old(self).scratch.logs@.len() as int)
                =~= old(self).scratch.logs@);
        }
        r
    }

    /// Marks a storage slot warm outside every revertible context; returns whether it was cold.
    /// The warmth is not journaled and survives rollback: it is added to every recorded view as
    /// well.
    pub fn warm_storage_non_revertible(&mut self, address: &Address, key: &Word) -> (r: bool)
        requires
            old(self).inv(),
        ensures
            final(self).inv(),
            final(self).db() == old(self).db(),
            r == !old(self).rev().warm_slots.contains(StorageKey { address: *address, key: *key }),
            final(self).rev() == (RevView {
                warm_slots: old(self).rev().warm_slots.insert(
                    StorageKey { address: *address, key: *key },
                ),
                ..old(self).rev()
            }),
            final(self).journal_view() == old(self).journal_view(),
            final(self).logs_view() == old(self).logs_view(),
            final(self).touched_view() == old(self).touched_view(),
            final(self).loaded_accounts() == old(self).loaded_accounts(),
            !r ==> forall|i: int|
                0 <= i <= old(self).journal_view().len() ==> #[trigger] final(self).snapshot(i)
                    == old(self).snapshot(i),
            r ==> forall|i: int|
                0 <= i <= old(self).journal_view().len() ==> #[trigger] final(self).snapshot(i) == (
                RevView {
                    warm_slots: old(self).snapshot(i).warm_slots.insert(
                        StorageKey { address: *address, key: *key },
                    ),
                    ..old(self).snapshot(i)
                }),
    {
        let sk = StorageKey { address: *address, key: *key };
        let inserted = self.scratch.accessed_storage.insert(sk);
        let ghost s_old = self.snaps@;
        let ghost s_new = Seq::new(
            s_old.len(),
            |i: int| RevView { warm_slots: s_old[i].warm_slots.insert(sk), ..s_old[i] },
        );
        if inserted {
            self.snaps = Ghost(s_new);
            proof {
                let j = self.scratch.journal@;
                let db = self.database;
                assert forall|i: int| 0 <= i < j.len() implies undo_rev(#[trigger] j[i], s_new[i + 1], db)
                    == s_new[i] by {
                    if j[i] is StorageWarmed && j[i]->StorageWarmed_address == sk.address
                        && j[i]->StorageWarmed_key == sk.key {
                        assert(s_old[j.len() as int].warm_slots.contains(
                            StorageKey { address: j[i]->StorageWarmed_address, key: j[i]->StorageWarmed_key }));
                        assert(false);
                    }
                    State::lemma_undo_commutes_warm_slot(j[i], s_old[i + 1], sk, db);
                }
                assert forall|i: int| 0 <= i < s_new.len() implies rev_consistent(db, #[trigger] s_new[i]) by {
                    assert(rev_consistent(db, s_old[i]));
                }
                assert forall|i: int, k: int|
                    0 <= i < k < s_new.len() && j[i] is AccountWarmed implies #[trigger] s_new[k].warm_accounts.contains(
                    #[trigger] j[i]->AccountWarmed_address) by {
                    assert(s_old[k].warm_accounts.contains(j[i]->AccountWarmed_address));
                }
                assert forall|i: int, k: int|
                    0 <= i < k < s_new.len() && j[i] is StorageWarmed implies #[trigger] s_new[k].warm_slots.contains(
                    StorageKey { address: #[trigger] j[i]->StorageWarmed_address, key: j[i]->StorageWarmed_key }) by {
                    assert(s_old[k].warm_slots.contains(
                        StorageKey { address: j[i]->StorageWarmed_address, key: j[i]->StorageWarmed_key }));
                }
                assert(self.rev() =~= (RevView {
                    warm_slots: old(self).rev().warm_slots.insert(sk),
                    ..old(self).rev()
                }));
            }
        } else {
            proof {
                assert(self.rev() =~= old(self).rev());
            }
        }
        inserted
    }

    // ---------------------------------------------------------------- transient storage

    /// The transient storage value (zero when unset).
    pub fn transient_storage(&self, address: &Address, key: &Word) -> (r: Word)
        ensures
            r == (if self.rev().transient.contains_key(StorageKey { address: *address, key: *key }) {
                self.rev().transient[StorageKey { address: *address, key: *key }]
            } else {
                Word::spec_zero()
            }),
    {
        match self.scratch.transient_storage.get(&StorageKey { address: *address, key: *key }) {
            Some(v) => *v,
            None => Word::zero(),
        }
    }

    /// Stores transient storage; a zero value clears the slot. A change is journaled.
    pub fn set_transient_storage(&mut self, address: &Address, key: &Word, value: &Word)
        requires
            old(self).inv(),
        ensures
            final(self).inv(),
            final(self).extends(old(self)),
            final(self).rev() == (RevView {
                transient: if *value == Word::spec_zero() {
                    old(self).rev().transient.remove(StorageKey { address: *address, key: *key })
                } else {
                    old(self).rev().transient.insert(StorageKey { address: *address, key: *key }, *value)
                },
                ..old(self).rev()
            }),
            final(self).logs_view() == old(self).logs_view(),
            final(self).touched_view() == old(self).touched_view(),
            final(self).loaded_accounts() == old(self).loaded_accounts(),
    {
        let sk = StorageKey { address: *address, key: *key };
        let ghost t0 = self.scratch.transient_storage@;
        let ghost target = if *value == Word::spec_zero() {
            t0.remove(sk)
        } else {
            t0.insert(sk, *value)
        };
        let previous: Option<Word> = match self.scratch.transient_storage.get(&sk) {
            Some(p) => Some(*p),
            None => None,
        };
        let changed = match previous {
            Some(p) => !(p == *value),
            None => !value.is_zero(),
        };
        if changed {
            if value.is_zero() {
                self.scratch.transient_storage.remove(&sk);
            } else {
                self.scratch.transient_storage.insert(sk, *value);
            }
            let e = JournalEntry::TransientStorageChange { address: *address, key: *key, previous };
            proof {
                assert(self.rev() =~= (RevView {
                    transient: if *value == Word::spec_zero() {
                        old(self).rev().transient.remove(sk)
                    } else {
                        old(self).rev().transient.insert(sk, *value)
                    },
                    ..old(self).rev()
                }));
                assert(undo_rev(e, self.rev(), self.database).transient =~= old(self).rev().transient);
                assert(undo_rev(e, self.rev(), self.database) =~= old(self).rev());
            }
            self.push_entry(e);
        } else {
            proof {
                assert(target =~= t0);
                assert(self.rev() =~= old(self).rev());
            }
        }
        proof {
            assert(self.scratch.journal@.take(old(self).scratch.journal@.len() as int)
                =~= old(self).scratch.journal@);
            assert(self.scratch.logs@.take(old(self).scratch.logs@.len() as int)
                =~= old(self).scratch.logs@);
        }
    }

    // ---------------------------------------------------------------- accounts

    /// Loads the account into the transaction overlay if it is not there yet, journaling the
    /// insertion, and returns its current value.
    fn ensure_account(&mut self, address: &Address) -> (r: Option<Account>)
        requires
            old(self).inv(),
        ensures
            final(self).inv(),
            final(self).extends(old(self)),
            r == old(self).eff_account(*address),
            final(self).rev() == old(self).rev(),
            final(self).scratch.accounts@ == old(self).scratch.accounts@.insert(*address, r),
            old(self).scratch.accounts@.contains_key(*address) ==> final(self).journal_view()
                == old(self).journal_view(),
            !old(self).scratch.accounts@.contains_key(*address) ==> final(self).journal_view()
                == old(self).journal_view().push(JournalEntry::AccountInserted { address: *address }),
            final(self).logs_view() == old(self).logs_view(),
            final(self).touched_view() == old(self).touched_view(),
            final(self).scratch.storage == old(self).scratch.storage,
            final(self).scratch.selfdestructs == old(self).scratch.selfdestructs,
            final(self).scratch.created_selfdestructs == old(self).scratch.created_selfdestructs,
            final(self).scratch.codes == old(self).scratch.codes,
    {
        match self.scratch.accounts.get(address) {
            Some(a) => {
                let r = *a;
                proof {
                    assert(self.scratch.accounts@.insert(*address, r) =~= self.scratch.accounts@);
                    assert(self.scratch.journal@.take(old(self).scratch.journal@.len() as int)
                        =~= old(self).scratch.journal@);
                    assert(self.scratch.logs@.take(old(self).scratch.logs@.len() as int)
                        =~= old(self).scratch.logs@);
                }
                r
            },
            None => {
                let original = match self.database.account_info(address) {
                    Some(info) => Some(Account::from_info(info)),
                    None => None,
                };
                self.scratch.accounts.insert(*address, original);
                let e = JournalEntry::AccountInserted { address: *address };
                proof {
                    assert(self.rev() =~= old(self).rev());
                    assert(undo_rev(e, self.rev(), self.database) =~= old(self).rev());
                }
                self.push_entry(e);
                proof {
                    let j = self.scratch.journal@;
                    assert forall|i: int| 0 <= i < j.len() implies match #[trigger] j[i] {
                        JournalEntry::StorageWipe { address, previous } => match previous {
                            Some(o) => ov_ok(self.database, address, o),
                            None => true,
                        },
                        JournalEntry::AccountChange { address, previous } => self.scratch.accounts@.contains_key(address),
                        JournalEntry::AccountInserted { address } => self.scratch.accounts@.contains_key(address),
                        _ => true,
                    } by {
                        if i < j.len() - 1 {
                            assert(j[i] == old(self).scratch.journal@[i]);
                        }
                    }
                    assert(self.scratch.journal@.take(old(self).scratch.journal@.len() as int)
                        =~= old(self).scratch.journal@);
                    assert(self.scratch.logs@.take(old(self).scratch.logs@.len() as int)
                        =~= old(self).scratch.logs@);
                }
                original
            },
        }
    }

    /// The account loaded in the transaction overlay, if it is loaded and alive.
    pub fn get_account(&self, address: &Address) -> (r: Option<Account>)
        ensures
            r == (if self.loaded_accounts().contains_key(*address) {
                self.loaded_accounts()[*address]
            } else {
                None
            }),
    {
        match self.scratch.accounts.get(address) {
            Some(a) => *a,
            None => None,
        }
    }

    /// Reads account info without recording a load.
    pub fn read_account_info(&self, address: &Address) -> (r: DbResult<Option<AccountInfo>>)
        ensures
            r == Ok::<Option<AccountInfo>, DbErrorCode>(info_of(self.rev().accounts[*address])),
    {
        match self.scratch.accounts.get(address) {
            Some(a) => match a {
                Some(acct) => Ok(Some(acct.info())),
                None => Ok(None),
            },
            None => match self.database.account_info(address) {
                Some(info) => {
                    assert(Account::spec_from_info(info).spec_info() == info);
                    Ok(Some(info))
                },
                None => Ok(None),
            },
        }
    }

    /// Loads account info and records the account in the transaction overlay.
    pub fn load_account_info(&mut self, address: &Address) -> (r: DbResult<Option<AccountInfo>>)
        requires
            old(self).inv(),
        ensures
            final(self).inv(),
            final(self).extends(old(self)),
            r == Ok::<Option<AccountInfo>, DbErrorCode>(info_of(old(self).rev().accounts[*address])),
            final(self).rev() == old(self).rev(),
            final(self).codes_view() == old(self).codes_view(),
            final(self).loaded_accounts().contains_key(*address),
            final(self).logs_view() == old(self).logs_view(),
            final(self).touched_view() == old(self).touched_view(),
    {
        let account = self.ensure_account(address);
        match account {
            Some(a) => Ok(Some(a.info())),
            None => Ok(None),
        }
    }

    /// Loads the account into the transaction overlay and returns it if it exists.
    pub fn load_account(&mut self, address: &Address) -> (r: DbResult<Option<Account>>)
        requires
            old(self).inv(),
        ensures
            final(self).inv(),
            final(self).extends(old(self)),
            r == Ok::<Option<Account>, DbErrorCode>(old(self).rev().accounts[*address]),
            final(self).rev() == old(self).rev(),
            final(self).loaded_accounts().contains_key(*address),
            final(self).logs_view() == old(self).logs_view(),
            final(self).touched_view() == old(self).touched_view(),
    {
        let account = self.ensure_account(address);
        Ok(account)
    }

    // ---------------------------------------------------------------- self-destructs

    /// Returns whether the account is self-destructed in the current transaction.
    pub fn is_selfdestructed(&self, address: &Address) -> (r: bool)
        ensures
            r == self.rev().selfdestructs.contains(*address),
    {
        self.scratch.selfdestructs.contains(address)
    }

    /// Marks the account self-destructed and touched; it is loaded into the overlay first.
    pub fn mark_destructed(&mut self, address: &Address)
        requires
            old(self).inv(),
        ensures
            final(self).inv(),
            final(self).extends(old(self)),
            final(self).rev() == (RevView {
                selfdestructs: old(self).rev().selfdestructs.insert(*address),
                touched: old(self).rev().touched.insert(*address).remove(precompile3()),
                ..old(self).rev()
            }),
            final(self).touched_view() == old(self).touched_view().insert(*address),
            final(self).loaded_accounts().contains_key(*address),
            final(self).logs_view() == old(self).logs_view(),
    {
        let _ = self.ensure_account(address);
        let ghost mid = self.rev();
        if self.scratch.selfdestructs.insert(*address) {
            let e = JournalEntry::SelfDestruct { address: *address };
            proof {
                assert(self.rev() =~= (RevView {
                    selfdestructs: mid.selfdestructs.insert(*address),
                    ..mid
                }));
                assert(undo_rev(e, self.rev(), self.database) =~= mid);
            }
            self.push_entry(e);
            proof {
                let j = self.scratch.journal@;
                assert forall|i: int| 0 <= i < j.len() implies match #[trigger] j[i] {
                    JournalEntry::StorageWipe { address, previous } => match previous {
                        Some(o) => ov_ok(self.database, address, o),
                        None => true,
                    },
                    JournalEntry::AccountChange { address, previous } => self.scratch.accounts@.contains_key(address),
                    JournalEntry::AccountInserted { address } => self.scratch.accounts@.contains_key(address),
                    _ => true,
                } by {
                    if i < j.len() - 1 {
                        assert(j[i] == old(self).scratch.journal@[i] || true);
                    }
                }
            }
        } else {
            proof {
                assert(self.rev() =~= mid);
            }
        }
        self.touch(address);
        proof {
            assert(self.rev() =~= (RevView {
                selfdestructs: old(self).rev().selfdestructs.insert(*address),
                touched: old(self).rev().touched.insert(*address).remove(precompile3()),
                ..old(self).rev()
            }));
            assert(self.scratch.journal@.take(old(self).scratch.journal@.len() as int)
                =~= old(self).scratch.journal@);
            assert(self.scratch.logs@.take(old(self).scratch.logs@.len() as int)
                =~= old(self).scratch.logs@);
        }
    }

    // ---------------------------------------------------------------- rollback

    closed spec fn entry_ok(&self, e: JournalEntry) -> bool {
        match e {
            JournalEntry::StorageWipe { address, previous } => match previous {
                Some(o) => ov_ok(self.database, address, o),
                None => true,
            },
            JournalEntry::AccountChange { address, previous } => self.scratch.accounts@.contains_key(
                address,
            ),
            JournalEntry::AccountInserted { address } => self.scratch.accounts@.contains_key(address),
            _ => true,
        }
    }

    /// Undoes one journal entry.
    fn undo_entry(&mut self, e: JournalEntry, features: EvmFeatures)
        requires
            old(self).database.wf(),
            old(self).inv_overlays(),
            old(self).inv_transient(),
            old(self).entry_ok(e),
        ensures
            final(self).rev() == undo_rev(e, old(self).rev(), old(self).database),
            final(self).database == old(self).database,
            final(self).inv_overlays(),
            final(self).inv_transient(),
            final(self).scratch.accounts@.dom() == old(self).scratch.accounts@.dom(),
            final(self).scratch.journal == old(self).scratch.journal,
            final(self).scratch.logs == old(self).scratch.logs,
            final(self).snaps == old(self).snaps,
            features.eip161 ==> (final(self).touched_view().contains(precompile3()) == old(self).touched_view().contains(precompile3())),
            !(e is Touch) ==> final(self).touched_view() == old(self).touched_view(),
            e is Touch && !(features.eip161 && e->Touch_address == precompile3())
                ==> final(self).touched_view() == old(self).touched_view().remove(e->Touch_address),
            e is Touch && features.eip161 && e->Touch_address == precompile3()
                ==> final(self).touched_view() == old(self).touched_view(),
    {
        let ghost r0 = self.rev();
        let ghost db = self.database;
        match e {
            JournalEntry::AccountChange { address, previous } => {
                if self.scratch.accounts.contains_key(&address) {
                    self.scratch.accounts.insert(address, previous);
                }
                proof {
                    assert(self.scratch.accounts@.dom() =~= old(self).scratch.accounts@.dom());
                    assert(self.rev() =~= undo_rev(
                        JournalEntry::AccountChange { address, previous },
                        r0,
                        db,
                    ));
                }
            },
            JournalEntry::AccountInserted { address } => {
                if self.scratch.accounts.contains_key(&address) {
                    let original = match self.database.account_info(&address) {
                        Some(info) => Some(Account::from_info(info)),
                        None => None,
                    };
                    self.scratch.accounts.insert(address, original);
                }
                proof {
                    assert(self.scratch.accounts@.dom() =~= old(self).scratch.accounts@.dom());
                    assert(self.rev() =~= undo_rev(JournalEntry::AccountInserted { address }, r0, db));
                }
            },
            JournalEntry::Touch { address } => {
                if !(features.eip161 && address.key_eq(&Address::with_last_byte(3))) {
                    self.scratch.touched.remove(&address);
                }
                proof {
                    assert(self.rev().touched =~= r0.touched.remove(address));
                    assert(self.rev() =~= undo_rev(JournalEntry::Touch { address }, r0, db));
                }
            },
            JournalEntry::SelfDestruct { address } => {
                self.scratch.selfdestructs.remove(&address);
                proof {
                    assert(self.rev() =~= undo_rev(JournalEntry::SelfDestruct { address }, r0, db));
                }
            },
            JournalEntry::StorageChange { address, key, previous } => {
                let ov = match self.scratch.storage.remove(&address) {
                    Some(mut ov) => {
                        let slot = match ov.slots.remove(&key) {
                            Some(slot) => TrackedValue::from_parts(slot.original, previous),
                            None => {
                                let base = if ov.wiped {
                                    Word::zero()
                                } else {
                                    self.database.storage_ref(&address, &key)
                                };
                                TrackedValue::from_parts(base, previous)
                            },
                        };
                        ov.slots.insert(key, slot);
                        ov
                    },
                    None => {
                        let mut ov = StorageOverlay::new();
                        let base = self.database.storage_ref(&address, &key);
                        ov.slots.insert(key, TrackedValue::from_parts(base, previous));
                        ov
                    },
                };
                self.scratch.storage.insert(address, ov);
                proof {
                    assert(ov_ok(db, address, self.scratch.storage@[address]));
                    assert(self.inv_overlays());
                    assert(self.rev().slots =~= r0.slots.insert(
                        StorageKey { address, key },
                        previous,
                    ));
                    assert(self.rev().wiped =~= r0.wiped);
                    assert(self.rev() =~= undo_rev(
                        JournalEntry::StorageChange { address, key, previous },
                        r0,
                        db,
                    ));
                }
            },
            JournalEntry::StorageInserted { address, key } => {
                match self.scratch.storage.remove(&address) {
                    Some(mut ov) => {
                        match ov.slots.remove(&key) {
                            Some(slot) => {
                                ov.slots.insert(
                                    key,
                                    TrackedValue::from_parts(slot.original, slot.original),
                                );
                            },
                            None => {},
                        }
                        self.scratch.storage.insert(address, ov);
                    },
                    None => {},
                }
                proof {
                    assert(self.scratch.storage@.dom() =~= old(self).scratch.storage@.dom());
                    assert(self.inv_overlays());
                    assert(self.rev().slots =~= r0.slots.insert(
                        StorageKey { address, key },
                        base_slot(db, address, key, r0.wiped[address]),
                    ));
                    assert(self.rev().wiped =~= r0.wiped);
                    assert(self.rev() =~= undo_rev(
                        JournalEntry::StorageInserted { address, key },
                        r0,
                        db,
                    ));
                }
            },
            JournalEntry::StorageWipe { address, previous } => {
                let ghost prev = previous;
                match previous {
                    Some(o) => {
                        self.scratch.storage.insert(address, o);
                    },
                    None => {
                        self.scratch.storage.remove(&address);
                    },
                }
                proof {
                    assert(self.inv_overlays());
                    assert(self.rev().slots =~= undo_rev(
                        JournalEntry::StorageWipe { address, previous: prev },
                        r0,
                        db,
                    ).slots);
                    assert(self.rev().wiped =~= undo_rev(
                        JournalEntry::StorageWipe { address, previous: prev },
                        r0,
                        db,
                    ).wiped);
                    assert(self.rev() =~= undo_rev(
                        JournalEntry::StorageWipe { address, previous: prev },
                        r0,
                        db,
                    ));
                }
            },
            JournalEntry::TransientStorageChange { address, key, previous } => {
                let sk = StorageKey { address, key };
                match previous {
                    Some(p) => {
                        if !p.is_zero() {
                            self.scratch.transient_storage.insert(sk, p);
                        } else {
                            self.scratch.transient_storage.remove(&sk);
                        }
                    },
                    None => {
                        self.scratch.transient_storage.remove(&sk);
                    },
                }
                proof {
                    assert(self.rev() =~= undo_rev(
                        JournalEntry::TransientStorageChange { address, key, previous },
                        r0,
                        db,
                    ));
                }
            },
            JournalEntry::AccountWarmed { address } => {
                self.scratch.accessed_accounts.remove(&address);
                proof {
                    assert(self.rev() =~= undo_rev(JournalEntry::AccountWarmed { address }, r0, db));
                }
            },
            JournalEntry::StorageWarmed { address, key } => {
                self.scratch.accessed_storage.remove(&StorageKey { address, key });
                proof {
                    assert(self.rev() =~= undo_rev(
                        JournalEntry::StorageWarmed { address, key },
                        r0,
                        db,
                    ));
                }
            },
        }
    }

    /// Reverts every journaled change made after `checkpoint` and drops the logs emitted after
    /// it. Precompile 3 stays touched once EIP-161 is active.
    pub fn rollback(&mut self, checkpoint: StateCheckpoint, features: EvmFeatures)
        requires
            old(self).inv(),
            checkpoint.spec_journal_len() <= old(self).journal_view().len(),
            checkpoint.spec_logs_len() <= old(self).logs_view().len(),
        ensures
            final(self).inv(),
            final(self).db() == old(self).db(),
            final(self).rev() == old(self).snapshot(checkpoint.spec_journal_len() as int),
            final(self).journal_view() == old(self).journal_view().take(
                checkpoint.spec_journal_len() as int,
            ),
            final(self).logs_view() == old(self).logs_view().take(
                checkpoint.spec_logs_len() as int,
            ),
            forall|i: int|
                0 <= i <= checkpoint.spec_journal_len() ==> #[trigger] final(self).snapshot(i)
                    == old(self).snapshot(i),
            features.eip161 ==> (final(self).touched_view().contains(precompile3()) == old(self).touched_view().contains(precompile3())),
            final(self).loaded_accounts().dom() == old(self).loaded_accounts().dom(),
    {
        let target = checkpoint.journal_len();
        let logs_len = checkpoint.logs_len();
        self.scratch.logs.truncate(logs_len);
        while self.scratch.journal.len() > target
            invariant
                target <= self.scratch.journal@.len() <= old(self).scratch.journal@.len(),
                self.database == old(self).database,
                self.database.wf(),
                self.inv_overlays(),
                self.inv_transient(),
                self.scratch.journal@ == old(self).scratch.journal@.take(
                    self.scratch.journal@.len() as int,
                ),
                self.snaps == old(self).snaps,
                old(self).chain_core(),
                self.rev() == old(self).snaps@[self.scratch.journal@.len() as int],
                self.scratch.accounts@.dom() == old(self).scratch.accounts@.dom(),
                old(self).inv_journal(),
                self.scratch.logs@ == old(self).scratch.logs@.take(logs_len as int),
                features.eip161 ==> (self.touched_view().contains(precompile3()) == old(self).touched_view().contains(precompile3())),
            decreases self.scratch.journal@.len(),
        {
            let ghost n = self.scratch.journal@.len() as int;
            let e = self.scratch.journal.pop().unwrap();
            proof {
                assert(e == old(self).scratch.journal@[n - 1]);
                assert(self.scratch.journal@ =~= old(self).scratch.journal@.take(n - 1));
                let ej = old(self).scratch.journal@[n - 1];
                assert(old(self).inv_journal());
                assert(self.entry_ok(e)) by {
                    assert(match ej {
                        JournalEntry::StorageWipe { address, previous } => match previous {
                            Some(o) => ov_ok(old(self).database, address, o),
                            None => true,
                        },
                        JournalEntry::AccountChange { address, previous } => old(self).scratch.accounts@.contains_key(address),
                        JournalEntry::AccountInserted { address } => old(self).scratch.accounts@.contains_key(address),
                        _ => true,
                    });
                }
                assert(undo_rev(ej, old(self).snaps@[n], old(self).database) == old(self).snaps@[n - 1]);
            }
            self.undo_entry(e, features);
        }
        let ghost r_end = self.rev();
        self.snaps = Ghost(old(self).snaps@.take(target + 1));
        proof {
            assert(self.rev() =~= r_end);
            let j = self.scratch.journal@;
            let sn = self.snaps@;
            assert(j.len() == target);
            assert(sn[target as int] == old(self).snaps@[target as int]);
            assert forall|i: int| 0 <= i < j.len() implies undo_rev(#[trigger] j[i], sn[i + 1], self.database)
                == sn[i] by {
                assert(j[i] == old(self).scratch.journal@[i]);
            }
            assert forall|i: int| 0 <= i < sn.len() implies rev_consistent(self.database, #[trigger] sn[i]) by {
                assert(sn[i] == old(self).snaps@[i]);
            }
            assert forall|i: int, k: int|
                0 <= i < k < sn.len() && j[i] is AccountWarmed implies #[trigger] sn[k].warm_accounts.contains(
                #[trigger] j[i]->AccountWarmed_address) by {
                assert(sn[k] == old(self).snaps@[k]);
                assert(j[i] == old(self).scratch.journal@[i]);
            }
            assert forall|i: int, k: int|
                0 <= i < k < sn.len() && j[i] is StorageWarmed implies #[trigger] sn[k].warm_slots.contains(
                StorageKey { address: #[trigger] j[i]->StorageWarmed_address, key: j[i]->StorageWarmed_key }) by {
                assert(sn[k] == old(self).snaps@[k]);
                assert(j[i] == old(self).scratch.journal@[i]);
            }
            assert(self.inv_chain());
            assert forall|i: int| 0 <= i < j.len() implies match #[trigger] j[i] {
                JournalEntry::StorageWipe { address, previous } => match previous {
                    Some(o) => ov_ok(self.database, address, o),
                    None => true,
                },
                JournalEntry::AccountChange { address, previous } => self.scratch.accounts@.contains_key(address),
                JournalEntry::AccountInserted { address } => self.scratch.accounts@.contains_key(address),
                _ => true,
            } by {
                assert(j[i] == old(self).scratch.journal@[i]);
            }
            assert(self.inv_journal());
        }
    }

    // ---------------------------------------------------------------- storage

    /// The slot as loaded or written in the transaction overlay, if it is there.
    pub fn get_storage_slot(&self, address: &Address, key: &Word) -> (r: Option<TrackedValue<Word>>)
        ensures
            r == (match self.overlay(*address) {
                Some(o) => if o.slots@.contains_key(*key) {
                    Some(o.slots@[*key])
                } else {
                    None
                },
                None => None,
            }),
    {
        match self.scratch.storage.get(address) {
            Some(ov) => match ov.slots.get(key) {
                Some(slot) => Some(*slot),
                None => None,
            },
            None => None,
        }
    }

    /// The slot value visible to the transaction, read through the overlay and the database.
    fn visible_storage(&self, address: &Address, key: &Word) -> (r: Word)
        requires
            self.inv(),
        ensures
            r == self.rev().slots[StorageKey { address: *address, key: *key }],
    {
        proof {
            assert(rev_consistent(self.database, self.snaps@[self.scratch.journal@.len() as int]));
            assert(self.rev().accounts[*address] == self.eff_account(*address));
            assert(self.rev().wiped[*address] == self.ov_wiped(*address));
        }
        match self.scratch.storage.get(address) {
            Some(ov) => {
                match ov.slots.get(key) {
                    Some(slot) => {
                        return slot.current;
                    },
                    None => {
                        if ov.wiped {
                            return Word::zero();
                        }
                    },
                }
            },
            None => {},
        }
        let known_absent = match self.scratch.accounts.get(address) {
            Some(a) => a.is_none(),
            None => false,
        } || self.database.account_absent(address);
        if known_absent {
            return Word::zero();
        }
        self.database.storage_ref(address, key)
    }

    /// The slot value if it is known in memory: here every slot is known, so this is the value
    /// visible to the transaction.
    pub fn get_storage(&self, address: &Address, key: &Word) -> (r: Option<Word>)
        requires
            self.inv(),
        ensures
            r == Some(self.rev().slots[StorageKey { address: *address, key: *key }]),
    {
        Some(self.visible_storage(address, key))
    }

    /// Reads the slot value visible to the transaction without recording a load.
    pub fn read_storage(&self, address: &Address, key: &Word) -> (r: DbResult<Word>)
        requires
            self.inv(),
        ensures
            r == Ok::<Word, DbErrorCode>(self.rev().slots[StorageKey { address: *address, key: *key }]),
    {
        Ok(self.visible_storage(address, key))
    }

    /// Reads the committed slot value, ignoring the transaction overlay.
    pub fn read_committed_storage(&self, address: &Address, key: &Word) -> (r: DbResult<Word>)
        ensures
            r == Ok::<Word, DbErrorCode>(self.db().spec_storage(*address, *key)),
    {
        Ok(self.database.storage_ref(address, key))
    }

    /// Loads the slot and records it in the transaction overlay. The record is not journaled:
    /// it holds the value the slot already had, so it survives rollback harmlessly.
    pub fn load_storage(&mut self, address: &Address, key: &Word) -> (r: DbResult<Word>)
        requires
            old(self).inv(),
        ensures
            final(self).inv(),
            final(self).extends(old(self)),
            r == Ok::<Word, DbErrorCode>(old(self).rev().slots[StorageKey { address: *address, key: *key }]),
            final(self).rev() == old(self).rev(),
            final(self).journal_view() == old(self).journal_view(),
            final(self).logs_view() == old(self).logs_view(),
            final(self).touched_view() == old(self).touched_view(),
            final(self).loaded_accounts() == old(self).loaded_accounts(),
            final(self).overlay(*address) is Some,
            final(self).overlay(*address).unwrap().slots@.contains_key(*key),
    {
        let value = self.visible_storage(address, key);
        let mut ov = match self.scratch.storage.remove(address) {
            Some(o) => o,
            None => StorageOverlay::new(),
        };
        if !ov.slots.contains_key(key) {
            ov.slots.insert(*key, TrackedValue::new(value));
        }
        self.scratch.storage.insert(*address, ov);
        proof {
            let db = self.database;
            assert(self.rev().slots =~= old(self).rev().slots);
            assert(self.rev().wiped =~= old(self).rev().wiped);
            assert(self.rev() =~= old(self).rev());
            assert(ov_ok(db, *address, self.scratch.storage@[*address]));
            assert(self.inv_overlays());
            assert(self.scratch.journal@.take(old(self).scratch.journal@.len() as int)
                =~= old(self).scratch.journal@);
            assert(self.scratch.logs@.take(old(self).scratch.logs@.len() as int)
                =~= old(self).scratch.logs@);
        }
        Ok(value)
    }

    /// Writes a slot whose original value is `original`, journaling the change.
    fn insert_transaction_storage(&mut self, address: &Address, key: &Word, original: Word, value: Word)
        requires
            old(self).inv(),
            original == base_slot(old(self).database, *address, *key, old(self).ov_wiped(*address)),
            old(self).rev().accounts[*address] is Some,
        ensures
            final(self).inv(),
            final(self).extends(old(self)),
            final(self).rev() == (RevView {
                slots: old(self).rev().slots.insert(StorageKey { address: *address, key: *key }, value),
                ..old(self).rev()
            }),
            final(self).logs_view() == old(self).logs_view(),
            final(self).touched_view() == old(self).touched_view(),
            final(self).loaded_accounts() == old(self).loaded_accounts(),
    {
        let ghost r0 = self.rev();
        let mut ov = match self.scratch.storage.remove(address) {
            Some(o) => o,
            None => StorageOverlay::new(),
        };
        let entry = match ov.slots.remove(key) {
            Some(slot) => {
                let previous = slot.current;
                ov.slots.insert(*key, TrackedValue::from_parts(slot.original, value));
                if previous == value {
                    None
                } else {
                    Some(JournalEntry::StorageChange { address: *address, key: *key, previous })
                }
            },
            None => {
                ov.slots.insert(*key, TrackedValue::from_parts(original, value));
                Some(JournalEntry::StorageInserted { address: *address, key: *key })
            },
        };
        self.scratch.storage.insert(*address, ov);
        proof {
            let db = self.database;
            assert(ov_ok(db, *address, self.scratch.storage@[*address]));
            assert(self.inv_overlays());
            assert(self.rev().slots =~= r0.slots.insert(StorageKey { address: *address, key: *key }, value));
            assert(self.rev().wiped =~= r0.wiped);
            assert(self.rev() =~= (RevView {
                slots: r0.slots.insert(StorageKey { address: *address, key: *key }, value),
                ..r0
            }));
        }
        match entry {
            Some(e) => {
                proof {
                    assert(undo_rev(e, self.rev(), self.database) =~= r0);
                }
                self.push_entry(e);
                proof {
                    let j = self.scratch.journal@;
                    assert forall|i: int| 0 <= i < j.len() implies match #[trigger] j[i] {
                        JournalEntry::StorageWipe { address, previous } => match previous {
                            Some(o) => ov_ok(self.database, address, o),
                            None => true,
                        },
                        JournalEntry::AccountChange { address, previous } => self.scratch.accounts@.contains_key(address),
                        JournalEntry::AccountInserted { address } => self.scratch.accounts@.contains_key(address),
                        _ => true,
                    } by {
                        if i < j.len() - 1 {
                            assert(j[i] == old(self).scratch.journal@[i]);
                        }
                    }
                }
            },
            None => {
                proof {
                    assert(self.rev() =~= r0);
                }
            },
        }
        proof {
            assert(self.scratch.journal@.take(old(self).scratch.journal@.len() as int)
                =~= old(self).scratch.journal@);
            assert(self.scratch.logs@.take(old(self).scratch.logs@.len() as int)
                =~= old(self).scratch.logs@);
        }
    }

    /// Marks all prior storage of the account as deleted, journaling the previous overlay.
    pub fn wipe_storage(&mut self, address: &Address)
        requires
            old(self).inv(),
        ensures
            final(self).inv(),
            final(self).extends(old(self)),
            final(self).rev() == (RevView {
                slots: Map::new(
                    |sk: StorageKey| true,
                    |sk: StorageKey| if sk.address == *address {
                        Word::spec_zero()
                    } else {
                        old(self).rev().slots[sk]
                    },
                ),
                wiped: old(self).rev().wiped.insert(*address, true),
                ..old(self).rev()
            }),
            final(self).logs_view() == old(self).logs_view(),
            final(self).touched_view() == old(self).touched_view(),
            final(self).loaded_accounts() == old(self).loaded_accounts(),
            final(self).created_view() == old(self).created_view(),
    {
        let ghost r0 = self.rev();
        let previous = self.scratch.storage.insert(*address, StorageOverlay::new_wiped());
        let ghost prev = previous;
        proof {
            let db = self.database;
            assert(self.inv_overlays());
            assert(self.rev().wiped =~= r0.wiped.insert(*address, true));
            assert(self.rev() =~= (RevView {
                slots: Map::new(
                    |sk: StorageKey| true,
                    |sk: StorageKey| if sk.address == *address {
                        Word::spec_zero()
                    } else {
                        r0.slots[sk]
                    },
                ),
                wiped: r0.wiped.insert(*address, true),
                ..r0
            }));
            let e = JournalEntry::StorageWipe { address: *address, previous: prev };
            assert(undo_rev(e, self.rev(), db).slots =~= r0.slots);
            assert(undo_rev(e, self.rev(), db).wiped =~= r0.wiped);
            assert(undo_rev(e, self.rev(), db) =~= r0);
        }
        self.push_entry(JournalEntry::StorageWipe { address: *address, previous });
        proof {
            let j = self.scratch.journal@;
            assert forall|i: int| 0 <= i < j.len() implies match #[trigger] j[i] {
                JournalEntry::StorageWipe { address, previous } => match previous {
                    Some(o) => ov_ok(self.database, address, o),
                    None => true,
                },
                JournalEntry::AccountChange { address, previous } => self.scratch.accounts@.contains_key(address),
                JournalEntry::AccountInserted { address } => self.scratch.accounts@.contains_key(address),
                _ => true,
            } by {
                if i < j.len() - 1 {
                    assert(j[i] == old(self).scratch.journal@[i]);
                }
            }
            assert(self.scratch.journal@.take(old(self).scratch.journal@.len() as int)
                =~= old(self).scratch.journal@);
            assert(self.scratch.logs@.take(old(self).scratch.logs@.len() as int)
                =~= old(self).scratch.logs@);
        }
    }

    // ---------------------------------------------------------------- account changes

    /// Sets a loaded account's value, journaling its previous value.
    fn update_account(&mut self, address: &Address, account: Account)
        requires
            old(self).inv(),
            old(self).scratch.accounts@.contains_key(*address),
        ensures
            final(self).inv(),
            final(self).extends(old(self)),
            final(self).rev() == (RevView {
                accounts: old(self).rev().accounts.insert(*address, Some(account)),
                ..old(self).rev()
            }),
            final(self).journal_view() == old(self).journal_view().push(
                JournalEntry::AccountChange {
                    address: *address,
                    previous: old(self).eff_account(*address),
                },
            ),
            final(self).logs_view() == old(self).logs_view(),
            final(self).touched_view() == old(self).touched_view(),
            final(self).scratch.accounts@ == old(self).scratch.accounts@.insert(*address, Some(account)),
            final(self).scratch.storage == old(self).scratch.storage,
            final(self).scratch.selfdestructs == old(self).scratch.selfdestructs,
            final(self).scratch.codes == old(self).scratch.codes,
            final(self).created_view() == old(self).created_view(),
    {
        let ghost r0 = self.rev();
        let previous = match self.scratch.accounts.insert(*address, Some(account)) {
            Some(p) => p,
            None => None,
        };
        let e = JournalEntry::AccountChange { address: *address, previous };
        proof {
            assert(self.rev() =~= (RevView { accounts: r0.accounts.insert(*address, Some(account)), ..r0 }));
            assert(undo_rev(e, self.rev(), self.database) =~= r0);
            assert(rev_consistent(self.database, self.rev())) by {
                assert(rev_consistent(self.database, r0));
            }
        }
        self.push_entry(e);
        proof {
            let j = self.scratch.journal@;
            assert forall|i: int| 0 <= i < j.len() implies match #[trigger] j[i] {
                JournalEntry::StorageWipe { address, previous } => match previous {
                    Some(o) => ov_ok(self.database, address, o),
                    None => true,
                },
                JournalEntry::AccountChange { address, previous } => self.scratch.accounts@.contains_key(address),
                JournalEntry::AccountInserted { address } => self.scratch.accounts@.contains_key(address),
                _ => true,
            } by {
                if i < j.len() - 1 {
                    assert(j[i] == old(self).scratch.journal@[i]);
                }
            }
            assert(self.scratch.journal@.take(old(self).scratch.journal@.len() as int)
                =~= old(self).scratch.journal@);
            assert(self.scratch.logs@.take(old(self).scratch.logs@.len() as int)
                =~= old(self).scratch.logs@);
        }
    }

    /// Loads the account, materializing an empty one when it is absent, and returns it.
    pub fn get_or_insert(&mut self, address: &Address) -> (r: Account)
        requires
            old(self).inv(),
        ensures
            final(self).inv(),
            final(self).extends(old(self)),
            r == (match old(self).rev().accounts[*address] {
                Some(a) => a,
                None => Account::spec_empty(),
            }),
            final(self).rev() == (RevView {
                accounts: old(self).rev().accounts.insert(*address, Some(r)),
                ..old(self).rev()
            }),
            final(self).loaded_accounts().contains_key(*address),
            final(self).logs_view() == old(self).logs_view(),
            final(self).touched_view() == old(self).touched_view(),
    {
        let current = self.ensure_account(address);
        let ghost mid = *self;
        match current {
            Some(a) => {
                proof {
                    assert(self.rev().accounts.insert(*address, Some(a)) =~= self.rev().accounts);
                    assert(self.rev() =~= (RevView {
                        accounts: old(self).rev().accounts.insert(*address, Some(a)),
                        ..old(self).rev()
                    }));
                }
                a
            },
            None => {
                let empty = Account::empty();
                self.update_account(address, empty);
                proof {
                    State::lemma_extends_trans(old(self), &mid, self);
                    assert(self.rev() =~= (RevView {
                        accounts: old(self).rev().accounts.insert(*address, Some(empty)),
                        ..old(self).rev()
                    }));
                }
                empty
            },
        }
    }

    /// Stores a persistent storage value and returns the values `SSTORE` gas metering needs. The
    /// account is materialized and touched.
    pub fn set_storage(&mut self, address: &Address, key: &Word, value: &Word) -> (r: DbResult<SStore>)
        requires
            old(self).inv(),
        ensures
            final(self).inv(),
            final(self).extends(old(self)),
            r is Ok,
            r.unwrap().original_value == base_slot(
                old(self).db(),
                *address,
                *key,
                old(self).rev().wiped[*address],
            ),
            r.unwrap().present_value == old(self).rev().slots[StorageKey { address: *address, key: *key }],
            r.unwrap().new_value == *value,
            !r.unwrap().is_cold,
            final(self).rev() == (RevView {
                accounts: old(self).rev().accounts.insert(
                    *address,
                    Some(match old(self).rev().accounts[*address] {
                        Some(a) => a,
                        None => Account::spec_empty(),
                    }),
                ),
                slots: old(self).rev().slots.insert(StorageKey { address: *address, key: *key }, *value),
                touched: old(self).rev().touched.insert(*address).remove(precompile3()),
                ..old(self).rev()
            }),
            final(self).touched_view() == old(self).touched_view().insert(*address),
            final(self).logs_view() == old(self).logs_view(),
    {
        let ghost r0 = self.rev();
        let _ = self.get_or_insert(address);
        let ghost s1 = *self;
        self.touch(address);
        proof {
            State::lemma_extends_trans(old(self), &s1, self);
        }
        let ghost s2 = *self;
        let wiped = match self.scratch.storage.get(address) {
            Some(ov) => ov.wiped,
            None => false,
        };
        let original_value = if wiped || self.database.account_absent(address) {
            Word::zero()
        } else {
            self.database.storage_ref(address, key)
        };
        let present_value = match self.scratch.storage.get(address) {
            Some(ov) => match ov.slots.get(key) {
                Some(slot) => slot.current,
                None => original_value,
            },
            None => original_value,
        };
        proof {
            assert(self.rev().slots[StorageKey { address: *address, key: *key }] == present_value);
            assert(r0.slots[StorageKey { address: *address, key: *key }] == present_value);
            assert(r0.wiped[*address] == wiped);
        }
        let result = SStore {
            original_value,
            present_value,
            new_value: *value,
            is_cold: false,
        };
        let ghost r1 = self.rev();
        if !(present_value == *value) {
            self.insert_transaction_storage(address, key, original_value, *value);
            proof {
                State::lemma_extends_trans(old(self), &s2, self);
            }
        } else {
            proof {
                assert(r1.slots.insert(StorageKey { address: *address, key: *key }, *value) =~= r1.slots);
            }
        }
        proof {
            assert(self.rev() =~= (RevView {
                accounts: r0.accounts.insert(
                    *address,
                    Some(match r0.accounts[*address] {
                        Some(a) => a,
                        None => Account::spec_empty(),
                    }),
                ),
                slots: r0.slots.insert(StorageKey { address: *address, key: *key }, *value),
                touched: r0.touched.insert(*address).remove(precompile3()),
                ..r0
            }));
        }
        Ok(result)
    }

    /// Adds `delta` to the account's balance modulo two to the 256th power (a two's-complement
    /// delta subtracts) and touches the account. A zero delta only loads and touches it.
    pub fn add_balance(&mut self, address: &Address, delta: &Word) -> (r: DbResult<()>)
        requires
            old(self).inv(),
        ensures
            final(self).inv(),
            final(self).extends(old(self)),
            r is Ok,
            delta.val() == 0 ==> final(self).rev() == (RevView {
                touched: old(self).rev().touched.insert(*address).remove(precompile3()),
                ..old(self).rev()
            }),
            delta.val() != 0 ==> final(self).rev() == (RevView {
                accounts: old(self).rev().accounts.insert(
                    *address,
                    Some(Account { balance: final(self).rev().accounts[*address].unwrap().balance,
                        ..account_or_empty(old(self).rev(), *address) }),
                ),
                touched: old(self).rev().touched.insert(*address).remove(precompile3()),
                ..old(self).rev()
            }),
            delta.val() != 0 ==> final(self).rev().accounts[*address] is Some
                && final(self).rev().accounts[*address].unwrap().balance.val() == (account_or_empty(
                old(self).rev(),
                *address,
            ).balance.val() + delta.val()) as int % crate::primitives::word_modulus(),
            final(self).touched_view() == old(self).touched_view().insert(*address),
            final(self).logs_view() == old(self).logs_view(),
    {
        if delta.is_zero() {
            let _ = self.load_account_info(address);
            let ghost s1 = *self;
            self.touch(address);
            proof {
                State::lemma_extends_trans(old(self), &s1, self);
            }
            return Ok(());
        }
        let current = self.ensure_account(address);
        let ghost s1 = *self;
        let mut account = match current {
            Some(a) => a,
            None => Account::empty(),
        };
        account.balance = account.balance.wrapping_add(delta);
        self.update_account(address, account);
        let ghost s2 = *self;
        self.touch(address);
        proof {
            State::lemma_extends_trans(old(self), &s1, &s2);
            State::lemma_extends_trans(old(self), &s2, self);
            assert(self.rev() =~= (RevView {
                accounts: old(self).rev().accounts.insert(*address, Some(account)),
                touched: old(self).rev().touched.insert(*address).remove(precompile3()),
                ..old(self).rev()
            }));
        }
        Ok(())
    }

    /// Transfers `value` from `from` to `to`; returns whether the sender could pay. A zero value
    /// only loads and touches `to`; a transfer to oneself only checks the balance and touches.
    pub fn transfer(&mut self, from: &Address, to: &Address, value: &Word) -> (r: DbResult<bool>)
        requires
            old(self).inv(),
        ensures
            final(self).inv(),
            final(self).extends(old(self)),
            r is Ok,
            r.unwrap() == (value.val() == 0 || value.val() <= balance_of(old(self).rev(), *from)),
            transfer_outcome(old(self).rev(), final(self).rev(), *from, *to, *value, r.unwrap()),
            final(self).logs_view() == old(self).logs_view(),
    {
        let ghost r0 = self.rev();
        if value.is_zero() {
            let _ = self.load_account_info(to);
            let ghost s1 = *self;
            self.touch(to);
            proof {
                State::lemma_extends_trans(old(self), &s1, self);
            }
            return Ok(true);
        }
        let from_info = self.load_account_info(from);
        let ghost s1 = *self;
        let from_balance = match from_info {
            Ok(Some(info)) => info.balance,
            _ => Word::zero(),
        };
        proof {
            assert(from_balance.val() == balance_of(r0, *from));
        }
        if from.key_eq(to) {
            if from_balance.lt(value) {
                return Ok(false);
            }
            self.touch(to);
            proof {
                State::lemma_extends_trans(old(self), &s1, self);
            }
            return Ok(true);
        }
        let new_from_balance = match from_balance.checked_sub(value) {
            Some(b) => b,
            None => {
                return Ok(false);
            },
        };
        let from_current = self.ensure_account(from);
        let ghost s2 = *self;
        let mut from_account = match from_current {
            Some(a) => a,
            None => Account::empty(),
        };
        from_account.balance = new_from_balance;
        self.update_account(from, from_account);
        let ghost s3 = *self;
        self.touch(from);
        let ghost s4 = *self;
        let to_current = self.ensure_account(to);
        let ghost s5 = *self;
        let mut to_account = match to_current {
            Some(a) => a,
            None => Account::empty(),
        };
        to_account.balance = to_account.balance.saturating_add(value);
        self.update_account(to, to_account);
        let ghost s6 = *self;
        self.touch(to);
        proof {
            State::lemma_extends_trans(old(self), &s1, &s2);
            State::lemma_extends_trans(old(self), &s2, &s3);
            State::lemma_extends_trans(old(self), &s3, &s4);
            State::lemma_extends_trans(old(self), &s4, &s5);
            State::lemma_extends_trans(old(self), &s5, &s6);
            State::lemma_extends_trans(old(self), &s6, self);
            assert(self.rev().touched =~= r0.touched.insert(*from).insert(*to).remove(precompile3()));
            assert(self.rev() =~= (RevView {
                accounts: r0.accounts.insert(*from, Some(from_account)).insert(*to, Some(to_account)),
                touched: r0.touched.insert(*from).insert(*to).remove(precompile3()),
                ..r0
            }));
        }
        Ok(true)
    }

    /// Increments the account's nonce, saturating at the largest `u64`, and touches it.
    pub fn increment_nonce(&mut self, address: &Address) -> (r: DbResult<()>)
        requires
            old(self).inv(),
        ensures
            final(self).inv(),
            final(self).extends(old(self)),
            r is Ok,
            final(self).rev() == (RevView {
                accounts: old(self).rev().accounts.insert(
                    *address,
                    Some(Account {
                        nonce: if account_or_empty(old(self).rev(), *address).nonce < u64::MAX {
                            (account_or_empty(old(self).rev(), *address).nonce + 1) as u64
                        } else {
                            u64::MAX
                        },
                        ..account_or_empty(old(self).rev(), *address)
                    }),
                ),
                touched: old(self).rev().touched.insert(*address).remove(precompile3()),
                ..old(self).rev()
            }),
            final(self).logs_view() == old(self).logs_view(),
    {
        let current = self.ensure_account(address);
        let ghost s1 = *self;
        let mut account = match current {
            Some(a) => a,
            None => Account::empty(),
        };
        account.nonce = if account.nonce < u64::MAX {
            account.nonce + 1
        } else {
            u64::MAX
        };
        self.update_account(address, account);
        let ghost s2 = *self;
        self.touch(address);
        proof {
            State::lemma_extends_trans(old(self), &s1, &s2);
            State::lemma_extends_trans(old(self), &s2, self);
            assert(self.rev() =~= (RevView {
                accounts: old(self).rev().accounts.insert(*address, Some(account)),
                touched: old(self).rev().touched.insert(*address).remove(precompile3()),
                ..old(self).rev()
            }));
        }
        Ok(())
    }

    /// Sets the account's code: the code hash becomes the hash of `code` and the account is
    /// marked as having changed code.
    pub fn set_code(&mut self, address: &Address, code: Bytecode) -> (r: DbResult<()>)
        requires
            old(self).inv(),
        ensures
            final(self).inv(),
            final(self).extends(old(self)),
            r is Ok,
            final(self).rev() == (RevView {
                accounts: old(self).rev().accounts.insert(
                    *address,
                    Some(Account {
                        code_hash: crate::bytecode::keccak256_spec(code.bytes@),
                        code_changed: true,
                        ..account_or_empty(old(self).rev(), *address)
                    }),
                ),
                ..old(self).rev()
            }),
            final(self).logs_view() == old(self).logs_view(),
            final(self).touched_view() == old(self).touched_view(),
    {
        let code_hash = code.hash_slow();
        let current = self.ensure_account(address);
        let ghost s1 = *self;
        let mut account = match current {
            Some(a) => a,
            None => Account::empty(),
        };
        account.code_hash = code_hash;
        account.code_changed = true;
        self.update_account(address, account);
        self.scratch.codes.insert(code_hash, code);
        proof {
            State::lemma_extends_trans(old(self), &s1, self);
            assert(self.rev() =~= (RevView {
                accounts: old(self).rev().accounts.insert(*address, Some(account)),
                ..old(self).rev()
            }));
        }
        Ok(())
    }

    /// Creates a contract account at `address` with an endowment of `value` from `caller`.
    ///
    /// Fails with a collision when an account with a nonce or code already lives there, and with
    /// out-of-funds when the caller cannot pay; on success the new account has nonce one (zero
    /// before EIP-161), no code, the endowed balance and wiped storage, and is marked created.
    pub fn create_account(
        &mut self,
        caller: &Address,
        address: &Address,
        value: &Word,
        features: EvmFeatures,
    ) -> (r: DbResult<Result<(), InstrStop>>)
        requires
            old(self).inv(),
        ensures
            final(self).inv(),
            final(self).extends(old(self)),
            r is Ok,
            ({
                let collision = match old(self).rev().accounts[*address] {
                    Some(a) => a.nonce != 0 || a.code_hash != B256::spec_keccak_empty(),
                    None => false,
                };
                let can_pay = value.val() == 0 || value.val() <= balance_of(old(self).rev(), *caller);
                &&& collision ==> r.unwrap() == Err::<(), InstrStop>(InstrStop::CreateCollision)
                    && final(self).rev() == old(self).rev()
                &&& !collision && !can_pay ==> r.unwrap() == Err::<(), InstrStop>(
                    InstrStop::OutOfFunds,
                ) && final(self).rev() == old(self).rev()
                &&& !collision && can_pay ==> {
                    &&& r.unwrap() == Ok::<(), InstrStop>(())
                    &&& final(self).rev().accounts[*address] is Some
                    &&& final(self).rev().accounts[*address].unwrap().nonce == (if features.eip161 {
                        1u64
                    } else {
                        0u64
                    })
                    &&& final(self).rev().accounts[*address].unwrap().code_hash
                        == B256::spec_keccak_empty()
                    &&& final(self).rev().accounts[*address].unwrap().just_created
                    &&& final(self).rev().accounts[*address].unwrap().code_changed
                    &&& final(self).rev().accounts[*address].unwrap().balance.val() == if *caller
                        == *address || value.val() == 0 {
                        balance_of(old(self).rev(), *address) as int
                    } else if balance_of(old(self).rev(), *address) + value.val()
                        < crate::primitives::word_modulus() {
                        (balance_of(old(self).rev(), *address) + value.val()) as int
                    } else {
                        crate::primitives::word_modulus() - 1
                    }
                    &&& final(self).rev().wiped[*address]
                    &&& forall|k: Word| #[trigger] final(self).rev().slots[StorageKey { address: *address, key: k }]
                        == Word::spec_zero()
                    &&& final(self).touched_view().contains(*address)
                    &&& (value.val() != 0 && *caller != *address) ==> final(self).rev().accounts[*caller] is Some && final(self).rev().accounts[*caller].unwrap().balance.val()
                        == balance_of(old(self).rev(), *caller) - value.val()
                }
            }),
            final(self).logs_view() == old(self).logs_view(),
    {
        let existing = self.read_account_info(address);
        match existing {
            Ok(Some(info)) => {
                if info.nonce != 0 || !(info.code_hash == B256::keccak_empty()) {
                    proof {
                        assert(self.scratch.journal@.take(old(self).scratch.journal@.len() as int)
                            =~= old(self).scratch.journal@);
                        assert(self.scratch.logs@.take(old(self).scratch.logs@.len() as int)
                            =~= old(self).scratch.logs@);
                    }
                    return Ok(Err(InstrStop::CreateCollision));
                }
            },
            _ => {},
        }
        let paid = self.transfer(caller, address, value);
        let ghost s1 = *self;
        let ghost r1 = self.rev();
        match paid {
            Ok(true) => {},
            _ => {
                return Ok(Err(InstrStop::OutOfFunds));
            },
        }
        let balance = self.get_or_insert(address).balance;
        let ghost s2 = *self;
        self.wipe_storage(address);
        let ghost s3 = *self;
        let nonce: u64 = if features.eip161 {
            1
        } else {
            0
        };
        let account = Account {
            nonce,
            balance,
            code_hash: B256::keccak_empty(),
            just_created: true,
            code_changed: true,
        };
        self.update_account(address, account);
        let ghost s4 = *self;
        self.touch(address);
        proof {
            State::lemma_extends_trans(old(self), &s1, &s2);
            State::lemma_extends_trans(old(self), &s2, &s3);
            State::lemma_extends_trans(old(self), &s3, &s4);
            State::lemma_extends_trans(old(self), &s4, self);
            assert(balance.val() == balance_of(r1, *address));
        }
        Ok(Ok(()))
    }

    /// Returns whether the account was created in the current transaction.
    pub fn is_created_in_transaction(&self, address: &Address) -> (r: bool)
        ensures
            r == (self.loaded_accounts().contains_key(*address)
                && self.loaded_accounts()[*address] is Some
                && self.loaded_accounts()[*address].unwrap().just_created),
    {
        match self.scratch.accounts.get(address) {
            Some(Some(a)) => a.just_created,
            _ => false,
        }
    }

    /// Reads the account's code without recording a load: its changed code if the transaction
    /// set it, else the code stored under its hash; an absent account has none.
    pub fn read_code(&mut self, address: &Address) -> (r: DbResult<Bytecode>)
        requires
            old(self).inv(),
        ensures
            final(self).inv(),
            final(self).rev() == old(self).rev(),
            final(self).journal_view() == old(self).journal_view(),
            final(self).logs_view() == old(self).logs_view(),
            final(self).touched_view() == old(self).touched_view(),
            final(self).loaded_accounts() == old(self).loaded_accounts(),
            r is Ok,
            r.unwrap().bytes@ == old(self).visible_code(*address),
            *final(self) == *old(self),
    {
        let account = match self.scratch.accounts.get(address) {
            Some(a) => *a,
            None => match self.database.account_info(address) {
                Some(info) => Some(Account::from_info(info)),
                None => None,
            },
        };
        match account {
            None => Ok(Bytecode::new()),
            Some(a) => {
                if a.code_hash == B256::keccak_empty() {
                    return Ok(Bytecode::new());
                }
                if a.code_changed {
                    match self.scratch.codes.get(&a.code_hash) {
                        Some(code) => {
                            return Ok(code.duplicate());
                        },
                        None => {},
                    }
                }
                match self.database.cache.contracts.get(&a.code_hash) {
                    Some(code) => Ok(code.duplicate()),
                    None => Ok(Bytecode::new()),
                }
            },
        }
    }

    /// Whether the account counts as empty for EIP-150 new-account gas: with EIP-161, absent or
    /// empty; before it, absent and not touched in this transaction.
    pub fn target_is_empty_for_new_account_gas(&self, address: &Address, features: EvmFeatures) -> (r: DbResult<bool>)
        requires
            self.inv(),
        ensures
            r == Ok::<bool, DbErrorCode>(if features.eip161 {
                match self.rev().accounts[*address] {
                    Some(a) => a.spec_is_empty(),
                    None => true,
                }
            } else {
                self.rev().accounts[*address] is None && !self.touched_view().contains(*address)
            }),
    {
        let info = self.read_account_info(address);
        if features.eip161 {
            return match info {
                Ok(Some(i)) => Ok(i.is_empty()),
                _ => Ok(true),
            };
        }
        let absent = match info {
            Ok(Some(_)) => false,
            _ => true,
        };
        Ok(absent && !self.scratch.touched.contains(address))
    }
    // ---------------------------------------------------------------- finalization

    /// Sets a loaded account whose storage is wiped to absent, journaling its previous value.
    fn clear_account(&mut self, address: &Address)
        requires
            old(self).inv(),
            old(self).scratch.accounts@.contains_key(*address),
            old(self).rev().wiped[*address],
            forall|k: Word| #[trigger] old(self).rev().slots[StorageKey { address: *address, key: k }]
                == Word::spec_zero(),
        ensures
            final(self).inv(),
            final(self).extends(old(self)),
            final(self).rev() == (RevView {
                accounts: old(self).rev().accounts.insert(*address, None),
                ..old(self).rev()
            }),
            final(self).logs_view() == old(self).logs_view(),
            final(self).touched_view() == old(self).touched_view(),
            final(self).created_view() == old(self).created_view(),
            final(self).scratch.accounts@ == old(self).scratch.accounts@.insert(*address, None),
    {
        let ghost r0 = self.rev();
        let previous = match self.scratch.accounts.insert(*address, None) {
            Some(p) => p,
            None => None,
        };
        let e = JournalEntry::AccountChange { address: *address, previous };
        proof {
            assert(self.rev() =~= (RevView { accounts: r0.accounts.insert(*address, None), ..r0 }));
            assert(undo_rev(e, self.rev(), self.database) =~= r0);
            assert(rev_consistent(self.database, self.rev())) by {
                assert(rev_consistent(self.database, r0));
                assert forall|a: Address, k: Word| self.rev().accounts[a] is None implies #[trigger] self.rev().slots[
                    StorageKey { address: a, key: k }] == Word::spec_zero() by {
                    if a == *address {
                        assert(r0.slots[StorageKey { address: *address, key: k }] == Word::spec_zero());
                    }
                }
            }
        }
        self.push_entry(e);
        proof {
            let j = self.scratch.journal@;
            assert forall|i: int| 0 <= i < j.len() implies match #[trigger] j[i] {
                JournalEntry::StorageWipe { address, previous } => match previous {
                    Some(o) => ov_ok(self.database, address, o),
                    None => true,
                },
                JournalEntry::AccountChange { address, previous } => self.scratch.accounts@.contains_key(address),
                JournalEntry::AccountInserted { address } => self.scratch.accounts@.contains_key(address),
                _ => true,
            } by {
                if i < j.len() - 1 {
                    assert(j[i] == old(self).scratch.journal@[i]);
                }
            }
            assert(self.scratch.journal@.take(old(self).scratch.journal@.len() as int)
                =~= old(self).scratch.journal@);
            assert(self.scratch.logs@.take(old(self).scratch.logs@.len() as int)
                =~= old(self).scratch.logs@);
        }
    }

    /// Deletes an account at finalization: its storage is wiped and it becomes absent.
    fn delete_account(&mut self, address: &Address)
        requires
            old(self).inv(),
        ensures
            final(self).inv(),
            final(self).extends(old(self)),
            final(self).rev() == rev_delete(old(self).rev(), set![*address]),
            final(self).logs_view() == old(self).logs_view(),
            final(self).touched_view() == old(self).touched_view(),
            final(self).created_view() == old(self).created_view(),
            final(self).loaded_accounts() == old(self).loaded_accounts().insert(*address, None),
    {
        let _ = self.ensure_account(address);
        let ghost s1 = *self;
        self.wipe_storage(address);
        let ghost s2 = *self;
        self.clear_account(address);
        proof {
            State::lemma_extends_trans(old(self), &s1, &s2);
            State::lemma_extends_trans(old(self), &s2, self);
            let d = set![*address];
            assert(self.rev().accounts =~= rev_delete(old(self).rev(), d).accounts);
            assert(self.rev().slots =~= rev_delete(old(self).rev(), d).slots);
            assert(self.rev().wiped =~= rev_delete(old(self).rev(), d).wiped);
            assert(self.rev() =~= rev_delete(old(self).rev(), d));
            assert(self.scratch.accounts@ =~= old(self).scratch.accounts@.insert(*address, None));
        }
    }
    /// Whether a touched account is an existing dead account in the EIP-161 sense.
    fn is_existing_dead(&self, address: &Address) -> (r: bool)
        requires
            self.inv(),
        ensures
            r == existing_dead(self.rev(), self.db(), *address),
    {
        match self.scratch.accounts.get(address) {
            Some(entry) => match entry {
                Some(acc) => acc.is_empty(),
                None => self.database.account_info(address).is_some(),
            },
            None => match self.database.account_info(address) {
                Some(info) => Account::from_info(info).is_empty(),
                None => false,
            },
        }
    }

    /// Whether the account exists in the transaction's view.
    fn account_exists(&self, address: &Address) -> (r: bool)
        ensures
            r == self.rev().accounts[*address] is Some,
    {
        match self.scratch.accounts.get(address) {
            Some(entry) => entry.is_some(),
            None => self.database.account_info(address).is_some(),
        }
    }

    /// Materializes an empty account where neither the transaction nor the database has one.
    fn materialize_empty_account(&mut self, address: &Address)
        requires
            old(self).inv(),
        ensures
            final(self).inv(),
            final(self).extends(old(self)),
            final(self).rev() == (if old(self).rev().accounts[*address] is None
                && old(self).db().spec_account(*address) is None {
                rev_materialize(old(self).rev(), set![*address])
            } else {
                old(self).rev()
            }),
            final(self).logs_view() == old(self).logs_view(),
            final(self).touched_view() == old(self).touched_view(),
            final(self).created_view() == old(self).created_view(),
    {
        let original_exists = self.database.account_info(address).is_some();
        let current = self.ensure_account(address);
        let ghost s1 = *self;
        if !original_exists && current.is_none() {
            self.update_account(address, Account::empty());
            proof {
                State::lemma_extends_trans(old(self), &s1, self);
                assert(self.rev().accounts =~= rev_materialize(old(self).rev(), set![*address]).accounts);
                assert(self.rev() =~= rev_materialize(old(self).rev(), set![*address]));
            }
        }
    }

    /// Appends the EIP-7708 `Burn` log of every listed self-destructed account that is loaded with
    /// a non-zero balance, in address order.
    fn emit_burn_logs(&mut self, sd: &Vec<Address>)
        requires
            old(self).inv(),
            sd@.no_duplicates(),
        ensures
            final(self).inv(),
            final(self).extends(old(self)),
            final(self).rev() == old(self).rev(),
            final(self).loaded_accounts() == old(self).loaded_accounts(),
            final(self).touched_view() == old(self).touched_view(),
            final(self).created_view() == old(self).created_view(),
            burn_logs_appended(
                old(self).logs_view(),
                final(self).logs_view(),
                burn_set(sd@.to_set(), old(self).loaded_accounts()),
            ),
    {
        let mut burned: Vec<(Address, Word)> = Vec::new();
        let mut i: usize = 0;
        while i < sd.len()
            invariant
                i <= sd@.len(),
                sd@.no_duplicates(),
                addr_sorted(burned@),
                forall|e: (Address, Word)| #[trigger] burned@.contains(e) <==> burn_set(
                    sd@.take(i as int).to_set(),
                    self.scratch.accounts@,
                ).contains(e),
            decreases sd@.len() - i,
        {
            let a = sd[i];
            let ghost bs = burned@;
            proof {
                assert forall|k: int| 0 <= k < bs.len() implies (#[trigger] bs[k]).0 != a by {
                    assert(bs.contains(bs[k]));
                    assert(sd@.take(i as int).to_set().contains(bs[k].0));
                    let m = choose|m: int| 0 <= m < i && sd@[m] == bs[k].0;
                    assert(sd@[m] == sd@.take(i as int)[m]);
                }
            }
            match self.scratch.accounts.get(&a) {
                Some(entry) => match entry {
                    Some(acc) => {
                        if !acc.balance.is_zero() {
                            insert_sorted(&mut burned, (a, acc.balance));
                        }
                    },
                    None => {},
                },
                None => {},
            }
            proof {
                let t0 = sd@.take(i as int);
                let t1 = sd@.take(i + 1);
                assert(t1 =~= t0.push(a));
                t0.lemma_push_to_set_commute(a);
                assert(t1.to_set() == t0.to_set().insert(a));
                let loaded = self.scratch.accounts@;
                assert forall|e: (Address, Word)| #[trigger] burned@.contains(e) <==> burn_set(
                    t1.to_set(),
                    loaded,
                ).contains(e) by {
                    assert(bs.contains(e) <==> burn_set(t0.to_set(), loaded).contains(e));
                }
            }
            i = i + 1;
        }
        proof {
            assert(sd@.take(sd@.len() as int) =~= sd@);
        }
        let ghost nl = self.scratch.logs@.len();
        proof {
            assert(self.scratch.journal@.take(self.scratch.journal@.len() as int) =~= self.scratch.journal@);
            assert(self.scratch.logs@.take(nl as int) =~= self.scratch.logs@);
        }
        let mut j: usize = 0;
        while j < burned.len()
            invariant
                j <= burned@.len(),
                self.inv(),
                self.extends(old(self)),
                self.rev() == old(self).rev(),
                self.loaded_accounts() == old(self).loaded_accounts(),
                self.touched_view() == old(self).touched_view(),
                self.created_view() == old(self).created_view(),
                nl == old(self).logs_view().len(),
                self.logs_view().len() == nl + j,
                forall|e: (Address, Word)| #[trigger] burned@.contains(e) ==> e.1.val() != 0,
                forall|k: int| 0 <= k < j ==> is_burn_log(#[trigger] self.logs_view()[nl + k], burned@[k].0, burned@[k].1),
            decreases burned@.len() - j,
        {
            let (a, b) = burned[j];
            proof {
                assert(burned@.contains(burned@[j as int]));
            }
            let ghost before = self.logs_view();
            let ghost prev = *self;
            match eip7708_burn_log(&a, &b) {
                Some(log) => {
                    self.log(log);
                },
                None => {},
            }
            proof {
                State::lemma_extends_trans(old(self), &prev, self);
                assert forall|k: int| 0 <= k < j + 1 implies is_burn_log(#[trigger] self.logs_view()[nl + k], burned@[k].0, burned@[k].1) by {
                    if k < j {
                        assert(self.logs_view()[nl + k] == before[nl + k]);
                    }
                }
            }
            j = j + 1;
        }
        proof {
            let b = burned@;
            assert(b.to_set() =~= burn_set(sd@.to_set(), old(self).loaded_accounts()));
            assert(addr_sorted(b));
            assert(self.logs_view().take(nl as int) == old(self).logs_view());
        }
    }
    /// Deletes every listed account, recording those created in this transaction.
    fn delete_selfdestructs(&mut self, sd: &Vec<Address>)
        requires
            old(self).inv(),
            sd@.no_duplicates(),
        ensures
            final(self).inv(),
            final(self).extends(old(self)),
            final(self).rev() == rev_delete(old(self).rev(), sd@.to_set()),
            final(self).logs_view() == old(self).logs_view(),
            final(self).touched_view() == old(self).touched_view(),
            final(self).created_view() == old(self).created_view().union(
                Set::new(
                    |a: Address|
                        sd@.to_set().contains(a) && old(self).rev().accounts[a] is Some
                            && old(self).rev().accounts[a]->0.just_created,
                ),
            ),
    {
        let ghost r0 = self.rev();
        let ghost c0 = self.created_view();
        proof {
            assert(self.scratch.journal@.take(self.scratch.journal@.len() as int) =~= self.scratch.journal@);
            assert(self.scratch.logs@.take(self.scratch.logs@.len() as int) =~= self.scratch.logs@);
            assert(rev_delete(r0, sd@.take(0).to_set()) =~= r0) by {
                assert(sd@.take(0).to_set() =~= Set::<Address>::empty());
                assert(rev_delete(r0, Set::<Address>::empty()).accounts =~= r0.accounts);
                assert(rev_delete(r0, Set::<Address>::empty()).slots =~= r0.slots);
                assert(rev_delete(r0, Set::<Address>::empty()).wiped =~= r0.wiped);
            }
            assert(c0.union(Set::new(|a: Address| sd@.take(0).to_set().contains(a) && r0.accounts[a] is Some
                && r0.accounts[a]->0.just_created)) =~= c0);
        }
        let mut i: usize = 0;
        while i < sd.len()
            invariant
                i <= sd@.len(),
                sd@.no_duplicates(),
                self.inv(),
                self.extends(old(self)),
                r0 == old(self).rev(),
                c0 == old(self).created_view(),
                self.rev() == rev_delete(r0, sd@.take(i as int).to_set()),
                self.logs_view() == old(self).logs_view(),
                self.touched_view() == old(self).touched_view(),
                self.created_view() == c0.union(Set::new(|a: Address| sd@.take(i as int).to_set().contains(a)
                    && r0.accounts[a] is Some && r0.accounts[a]->0.just_created)),
            decreases sd@.len() - i,
        {
            let a = sd[i];
            let ghost t0 = sd@.take(i as int);
            proof {
                if t0.to_set().contains(a) {
                    let m = choose|m: int| 0 <= m < i && t0[m] == a;
                    assert(sd@[m] == a);
                }
                assert(!t0.to_set().contains(a));
                assert(self.rev().accounts[a] == r0.accounts[a]);
            }
            let created = match self.scratch.accounts.get(&a) {
                Some(entry) => match entry {
                    Some(acc) => acc.just_created,
                    None => false,
                },
                None => false,
            };
            proof {
                assert(created == (r0.accounts[a] is Some && r0.accounts[a]->0.just_created));
            }
            let ghost prev = *self;
            self.delete_account(&a);
            proof {
                State::lemma_extends_trans(old(self), &prev, self);
            }
            let ghost s3 = *self;
            if created {
                self.scratch.created_selfdestructs.insert(a);
                proof {
                    assert(self.rev() =~= s3.rev());
                    assert(self.snaps == s3.snaps);
                    assert(self.scratch.journal == s3.scratch.journal);
                    assert(self.inv());
                }
            }
            proof {
                let t1 = sd@.take(i + 1);
                assert(t1 =~= t0.push(a));
                t0.lemma_push_to_set_commute(a);
                assert(t1.to_set() == t0.to_set().insert(a));
                let lhs = rev_delete(rev_delete(r0, t0.to_set()), set![a]);
                let rhs = rev_delete(r0, t1.to_set());
                assert(lhs.accounts =~= rhs.accounts);
                assert(lhs.slots =~= rhs.slots);
                assert(lhs.wiped =~= rhs.wiped);
                assert(lhs =~= rhs);
                assert(self.created_view() =~= c0.union(Set::new(|x: Address| t1.to_set().contains(x)
                    && r0.accounts[x] is Some && r0.accounts[x]->0.just_created)));
                assert(self.scratch.journal@.take(old(self).scratch.journal@.len() as int) == old(self).scratch.journal@);
            }
            i = i + 1;
        }
        proof {
            assert(sd@.take(sd@.len() as int) =~= sd@);
        }
    }

    /// Deletes every listed account that is an existing dead account.
    fn delete_dead_touched(&mut self, t: &Vec<Address>)
        requires
            old(self).inv(),
            t@.no_duplicates(),
        ensures
            final(self).inv(),
            final(self).extends(old(self)),
            final(self).rev() == rev_delete(
                old(self).rev(),
                Set::new(|a: Address| t@.to_set().contains(a) && existing_dead(old(self).rev(), old(self).db(), a)),
            ),
            final(self).logs_view() == old(self).logs_view(),
            final(self).touched_view() == old(self).touched_view(),
            final(self).created_view() == old(self).created_view(),
    {
        let ghost r0 = self.rev();
        let ghost db = self.database;
        proof {
            assert(self.scratch.journal@.take(self.scratch.journal@.len() as int) =~= self.scratch.journal@);
            assert(self.scratch.logs@.take(self.scratch.logs@.len() as int) =~= self.scratch.logs@);
            let d0 = Set::new(|a: Address| t@.take(0).to_set().contains(a) && existing_dead(r0, db, a));
            assert(d0 =~= Set::<Address>::empty());
            assert(rev_delete(r0, d0).accounts =~= r0.accounts);
            assert(rev_delete(r0, d0).slots =~= r0.slots);
            assert(rev_delete(r0, d0).wiped =~= r0.wiped);
            assert(rev_delete(r0, d0) =~= r0);
        }
        let mut i: usize = 0;
        while i < t.len()
            invariant
                i <= t@.len(),
                t@.no_duplicates(),
                self.inv(),
                self.extends(old(self)),
                r0 == old(self).rev(),
                db == old(self).db(),
                self.rev() == rev_delete(r0, Set::new(|a: Address| t@.take(i as int).to_set().contains(a)
                    && existing_dead(r0, db, a))),
                self.logs_view() == old(self).logs_view(),
                self.touched_view() == old(self).touched_view(),
                self.created_view() == old(self).created_view(),
            decreases t@.len() - i,
        {
            let a = t[i];
            let ghost t0 = t@.take(i as int);
            let ghost d0 = Set::new(|x: Address| t0.to_set().contains(x) && existing_dead(r0, db, x));
            proof {
                if t0.to_set().contains(a) {
                    let m = choose|m: int| 0 <= m < i && t0[m] == a;
                    assert(t@[m] == a);
                }
                assert(!d0.contains(a));
                assert(self.rev().accounts[a] == r0.accounts[a]);
            }
            let dead = self.is_existing_dead(&a);
            if dead {
                let ghost prev = *self;
                self.delete_account(&a);
                proof {
                    State::lemma_extends_trans(old(self), &prev, self);
                }
            }
            proof {
                let t1 = t@.take(i + 1);
                assert(t1 =~= t0.push(a));
                t0.lemma_push_to_set_commute(a);
                assert(t1.to_set() == t0.to_set().insert(a));
                let d1 = Set::new(|x: Address| t1.to_set().contains(x) && existing_dead(r0, db, x));
                let rhs = rev_delete(r0, d1);
                if dead {
                    assert(d1 =~= d0.insert(a));
                    let lhs = rev_delete(rev_delete(r0, d0), set![a]);
                    assert(lhs.accounts =~= rhs.accounts);
                    assert(lhs.slots =~= rhs.slots);
                    assert(lhs.wiped =~= rhs.wiped);
                    assert(lhs =~= rhs);
                } else {
                    assert(d1 =~= d0);
                }
            }
            i = i + 1;
        }
        proof {
            assert(t@.take(t@.len() as int) =~= t@);
        }
    }

    /// Materializes an empty account for every listed account that is not self-destructed and
    /// that neither the transaction nor the database has.
    fn materialize_touched(&mut self, t: &Vec<Address>)
        requires
            old(self).inv(),
            t@.no_duplicates(),
        ensures
            final(self).inv(),
            final(self).extends(old(self)),
            final(self).rev() == rev_materialize(
                old(self).rev(),
                Set::new(
                    |a: Address|
                        t@.to_set().contains(a) && !old(self).rev().selfdestructs.contains(a)
                            && old(self).rev().accounts[a] is None && old(self).db().spec_account(a) is None,
                ),
            ),
            final(self).logs_view() == old(self).logs_view(),
            final(self).touched_view() == old(self).touched_view(),
            final(self).created_view() == old(self).created_view(),
    {
        let ghost r0 = self.rev();
        let ghost db = self.database;
        proof {
            assert(self.scratch.journal@.take(self.scratch.journal@.len() as int) =~= self.scratch.journal@);
            assert(self.scratch.logs@.take(self.scratch.logs@.len() as int) =~= self.scratch.logs@);
            let m0 = Set::new(|a: Address| t@.take(0).to_set().contains(a) && !r0.selfdestructs.contains(a)
                && r0.accounts[a] is None && db.spec_account(a) is None);
            assert(m0 =~= Set::<Address>::empty());
            assert(rev_materialize(r0, m0).accounts =~= r0.accounts);
            assert(rev_materialize(r0, m0) =~= r0);
        }
        let mut i: usize = 0;
        while i < t.len()
            invariant
                i <= t@.len(),
                t@.no_duplicates(),
                self.inv(),
                self.extends(old(self)),
                r0 == old(self).rev(),
                db == old(self).db(),
                self.rev() == rev_materialize(r0, Set::new(|a: Address| t@.take(i as int).to_set().contains(a)
                    && !r0.selfdestructs.contains(a) && r0.accounts[a] is None && db.spec_account(a) is None)),
                self.logs_view() == old(self).logs_view(),
                self.touched_view() == old(self).touched_view(),
                self.created_view() == old(self).created_view(),
            decreases t@.len() - i,
        {
            let a = t[i];
            let ghost t0 = t@.take(i as int);
            let ghost m0 = Set::new(|x: Address| t0.to_set().contains(x) && !r0.selfdestructs.contains(x)
                && r0.accounts[x] is None && db.spec_account(x) is None);
            proof {
                if t0.to_set().contains(a) {
                    let m = choose|m: int| 0 <= m < i && t0[m] == a;
                    assert(t@[m] == a);
                }
                assert(!m0.contains(a));
                assert(self.rev().accounts[a] == r0.accounts[a]);
            }
            let ghost prev = *self;
            if !self.scratch.selfdestructs.contains(&a) && !self.account_exists(&a) {
                self.materialize_empty_account(&a);
                proof {
                    State::lemma_extends_trans(old(self), &prev, self);
                }
            }
            proof {
                let t1 = t@.take(i + 1);
                assert(t1 =~= t0.push(a));
                t0.lemma_push_to_set_commute(a);
                assert(t1.to_set() == t0.to_set().insert(a));
                let m1 = Set::new(|x: Address| t1.to_set().contains(x) && !r0.selfdestructs.contains(x)
                    && r0.accounts[x] is None && db.spec_account(x) is None);
                if m1.contains(a) {
                    assert(m1 =~= m0.insert(a));
                    let lhs = rev_materialize(rev_materialize(r0, m0), set![a]);
                    assert(lhs.accounts =~= rev_materialize(r0, m1).accounts);
                    assert(lhs =~= rev_materialize(r0, m1));
                } else {
                    assert(m1 =~= m0);
                }
            }
            i = i + 1;
        }
        proof {
            assert(t@.take(t@.len() as int) =~= t@);
        }
    }
    /// Applies the transaction-end account rules.
    ///
    /// With delayed EIP-7708 burn logs, the `Burn` log of each self-destructed account loaded with
    /// a non-zero balance is appended, in address order. Every self-destructed account is then
    /// deleted with its storage (and recorded as created-and-destroyed when it was created in this
    /// transaction). From EIP-161 on, touched accounts that are dead are deleted too; before it,
    /// touched accounts that do not exist anywhere are materialized as empty accounts. The touched
    /// and self-destructed sets stay for [`State::build_state_changes`].
    pub fn finalize_transaction(&mut self, version: &Version) -> (r: DbResult<()>)
        requires
            old(self).inv(),
        ensures
            final(self).inv(),
            final(self).extends(old(self)),
            r is Ok,
            version.features.eip7708 && version.features.eip7708_delayed_burn ==> burn_logs_appended(
                old(self).logs_view(),
                final(self).logs_view(),
                burn_set(old(self).rev().selfdestructs, old(self).loaded_accounts()),
            ),
            !(version.features.eip7708 && version.features.eip7708_delayed_burn) ==> final(self).logs_view()
                == old(self).logs_view(),
            version.features.eip161 ==> final(self).rev() == rev_delete(
                rev_delete(old(self).rev(), old(self).rev().selfdestructs),
                Set::new(
                    |a: Address|
                        old(self).touched_view().contains(a) && existing_dead(
                            rev_delete(old(self).rev(), old(self).rev().selfdestructs),
                            old(self).db(),
                            a,
                        ),
                ),
            ),
            !version.features.eip161 ==> final(self).rev() == rev_materialize(
                rev_delete(old(self).rev(), old(self).rev().selfdestructs),
                Set::new(
                    |a: Address|
                        old(self).touched_view().contains(a) && !old(self).rev().selfdestructs.contains(a)
                            && old(self).rev().accounts[a] is None && old(self).db().spec_account(a) is None,
                ),
            ),
            final(self).created_view() == old(self).created_view().union(
                Set::new(
                    |a: Address|
                        old(self).rev().selfdestructs.contains(a) && old(self).rev().accounts[a] is Some
                            && old(self).rev().accounts[a]->0.just_created,
                ),
            ),
            final(self).touched_view() == old(self).touched_view(),
    {
        let sd = self.scratch.selfdestructs.elements();
        let touched = self.scratch.touched.elements();
        proof {
            assert(self.scratch.journal@.take(self.scratch.journal@.len() as int) =~= self.scratch.journal@);
            assert(self.scratch.logs@.take(self.scratch.logs@.len() as int) =~= self.scratch.logs@);
        }
        if version.features.eip7708 && version.features.eip7708_delayed_burn {
            self.emit_burn_logs(&sd);
        }
        let ghost s1 = *self;
        self.delete_selfdestructs(&sd);
        let ghost s2 = *self;
        proof {
            State::lemma_extends_trans(old(self), &s1, &s2);
        }
        if version.features.eip161 {
            self.delete_dead_touched(&touched);
            proof {
                State::lemma_extends_trans(old(self), &s2, self);
            }
        } else {
            self.materialize_touched(&touched);
            proof {
                State::lemma_extends_trans(old(self), &s2, self);
                let r0 = old(self).rev();
                let sdset = r0.selfdestructs;
                let db = old(self).db();
                assert(Set::new(|a: Address| touched@.to_set().contains(a) && !s2.rev().selfdestructs.contains(a)
                    && s2.rev().accounts[a] is None && s2.db().spec_account(a) is None)
                    =~= Set::new(|a: Address| old(self).touched_view().contains(a) && !sdset.contains(a)
                    && r0.accounts[a] is None && db.spec_account(a) is None));
            }
        }
        Ok(())
    }
    // ---------------------------------------------------------------- transitions

    /// Builds the transaction's state transition: every loaded account with its info before and
    /// after, its storage overlay and its flags, and the code changed in the transaction. It
    /// neither applies the finalization rules nor touches the logs or the database.
    pub fn build_state_changes(&self) -> (r: StateChanges)
        ensures
            r.accounts_view() == self.changes_view(),
            r.code_view() == self.changed_code_view(),
    {
        let mut changes = StateChanges::new();
        let keys = self.scratch.accounts.keys();
        let mut i: usize = 0;
        while i < keys.len()
            invariant
                i <= keys@.len(),
                keys@.no_duplicates(),
                keys@.to_set() == self.loaded_accounts().dom(),
                forall|a: Address| #[trigger] changes.accounts_view().contains_key(a) <==> keys@.take(i as int).contains(a),
                forall|a: Address| #[trigger] changes.accounts_view().contains_key(a) ==> changes.accounts_view()[a]
                    == self.base_change(a),
                forall|h: B256| #[trigger] changes.code_view().contains_key(h) <==> exists|a: Address|
                    keys@.take(i as int).contains(a) && #[trigger] self.code_contrib(a, h),
                forall|h: B256| #[trigger] changes.code_view().contains_key(h) ==> changes.code_view()[h]
                    == self.codes_view()[h],
            decreases keys@.len() - i,
        {
            let a = keys[i];
            let ghost t0 = keys@.take(i as int);
            proof {
                assert(keys@.to_set().contains(a));
                if t0.contains(a) {
                    let m = choose|m: int| 0 <= m < t0.len() && t0[m] == a;
                    assert(keys@[m] == a);
                }
            }
            let current = match self.scratch.accounts.get(&a) {
                Some(c) => *c,
                None => None,
            };
            let original = self.database.account_info(&a);
            let code = match current {
                Some(acc) => {
                    if acc.code_changed && self.scratch.codes.contains_key(&acc.code_hash) {
                        match self.scratch.codes.get(&acc.code_hash) {
                            Some(c) => Some(c.duplicate()),
                            None => None,
                        }
                    } else if acc.code_hash == B256::keccak_empty() {
                        Some(Bytecode::new())
                    } else {
                        None
                    }
                },
                None => None,
            };
            let created = match current {
                Some(acc) => acc.just_created,
                None => false,
            } || self.scratch.created_selfdestructs.contains(&a);
            let change = AccountChange {
                original,
                current: match current {
                    Some(acc) => Some(acc.info()),
                    None => None,
                },
                code,
                storage: VecMap::new(),
                wipe_storage: false,
                created,
                selfdestructed: self.scratch.selfdestructs.contains(&a),
            };
            proof {
                assert(change@.code == self.base_change(a).code);
                assert(change@ == self.base_change(a));
            }
            let ghost cv0 = changes.code_view();
            let ghost av0 = changes.accounts_view();
            let ghost ch = change@;
            changes.accounts.insert(a, change);
            proof {
                assert(changes.accounts_view() =~= av0.insert(a, ch));
            }
            match current {
                Some(acc) => {
                    let h = acc.code_hash;
                    match self.scratch.codes.get(&h) {
                        Some(c) => {
                            if acc.code_changed && c.bytes.len() > 0 && !h.is_zero() && !(h == B256::keccak_empty())
                                && !changes.code.contains_key(&h) {
                                let d = c.duplicate();
                                changes.code.insert(h, d);
                                proof {
                                    assert(self.codes_view()[h] == c.bytes@);
                                    assert(changes.code_view() =~= cv0.insert(h, self.codes_view()[h]));
                                }
                            }
                        },
                        None => {},
                    }
                },
                None => {},
            }
            proof {
                let t1 = keys@.take(i + 1);
                assert(t1 =~= t0.push(a));
                assert forall|x: Address| #[trigger] changes.accounts_view().contains_key(x) <==> t1.contains(x) by {
                    if t1.contains(x) && x != a {
                        let m = choose|m: int| 0 <= m < t1.len() && t1[m] == x;
                        assert(t0[m] == x);
                    }
                    if t0.contains(x) {
                        let m = choose|m: int| 0 <= m < t0.len() && t0[m] == x;
                        assert(t1[m] == x);
                    }
                    if x == a {
                        assert(t1[i as int] == a);
                    }
                }
                assert forall|h: B256| #[trigger] changes.code_view().contains_key(h) <==> exists|x: Address|
                    t1.contains(x) && #[trigger] self.code_contrib(x, h) by {
                    if changes.code_view().contains_key(h) && !cv0.contains_key(h) {
                        assert(t1[i as int] == a);
                        assert(self.code_contrib(a, h));
                    }
                    if cv0.contains_key(h) {
                        let x = choose|x: Address| t0.contains(x) && #[trigger] self.code_contrib(x, h);
                        let m = choose|m: int| 0 <= m < t0.len() && t0[m] == x;
                        assert(t1[m] == x);
                    }
                    if exists|x: Address| t1.contains(x) && #[trigger] self.code_contrib(x, h) {
                        let x = choose|x: Address| t1.contains(x) && #[trigger] self.code_contrib(x, h);
                        if x != a {
                            let m = choose|m: int| 0 <= m < t1.len() && t1[m] == x;
                            assert(t0[m] == x);
                        } else {
                            assert(self.scratch.codes@.contains_key(h));
                        }
                    }
                }
            }
            i = i + 1;
        }
        proof {
            assert(keys@.take(keys@.len() as int) =~= keys@);
        }
        let skeys = self.scratch.storage.keys();
        let ghost cv = changes.code_view();
        let mut j: usize = 0;
        while j < skeys.len()
            invariant
                j <= skeys@.len(),
                skeys@.no_duplicates(),
                skeys@.to_set() == self.scratch.storage@.dom(),
                changes.code_view() == cv,
                forall|a: Address| #[trigger] changes.accounts_view().contains_key(a) <==> (
                    self.loaded_accounts().contains_key(a) || skeys@.take(j as int).contains(a)),
                forall|a: Address| #[trigger] changes.accounts_view().contains_key(a) ==> changes.accounts_view()[a]
                    == if skeys@.take(j as int).contains(a) { self.change_of(a) } else { self.base_change(a) },
            decreases skeys@.len() - j,
        {
            let a = skeys[j];
            let ghost t0 = skeys@.take(j as int);
            proof {
                assert(skeys@.to_set().contains(a));
                if t0.contains(a) {
                    let m = choose|m: int| 0 <= m < t0.len() && t0[m] == a;
                    assert(skeys@[m] == a);
                }
            }
            let ghost av0 = changes.accounts_view();
            match self.scratch.storage.get(&a) {
                Some(ov) => {
                    let removed = changes.accounts.remove(&a);
                    let ghost av1 = changes.accounts_view();
                    proof {
                        assert(av1 =~= av0.remove(a));
                    }
                    let mut change = match removed {
                        Some(c) => {
                            proof {
                                assert(av0.contains_key(a));
                                assert(c@ == av0[a]);
                                assert(c@ == self.base_change(a));
                            }
                            c
                        },
                        None => {
                            proof {
                                assert(!av0.contains_key(a));
                                assert(!self.loaded_accounts().contains_key(a));
                            }
                            AccountChange::unchanged(self.database.account_info(&a))
                        },
                    };
                    proof {
                        assert(change@ == self.base_change(a));
                    }
                    change.wipe_storage = ov.wiped;
                    change.storage = ov.slots.duplicate();
                    proof {
                        assert(self.overlay(a) == Some(*ov));
                        assert(change@ == self.change_of(a));
                    }
                    let ghost ch = change@;
                    changes.accounts.insert(a, change);
                    proof {
                        assert(changes.accounts_view() =~= av1.insert(a, ch));
                    }
                },
                None => {},
            }
            proof {
                let t1 = skeys@.take(j + 1);
                assert(t1 =~= t0.push(a));
                assert(changes.code_view() =~= cv);
                assert forall|x: Address| #[trigger] changes.accounts_view().contains_key(x) <==> (
                    self.loaded_accounts().contains_key(x) || t1.contains(x)) by {
                    if t1.contains(x) && x != a {
                        let m = choose|m: int| 0 <= m < t1.len() && t1[m] == x;
                        assert(t0[m] == x);
                    }
                    if t0.contains(x) {
                        let m = choose|m: int| 0 <= m < t0.len() && t0[m] == x;
                        assert(t1[m] == x);
                    }
                    if x == a {
                        assert(t1[j as int] == a);
                    }
                }
                assert forall|x: Address| #[trigger] changes.accounts_view().contains_key(x) implies changes.accounts_view()[x]
                    == if t1.contains(x) { self.change_of(x) } else { self.base_change(x) } by {
                    if t1.contains(x) && x != a {
                        let m = choose|m: int| 0 <= m < t1.len() && t1[m] == x;
                        assert(t0[m] == x);
                    }
                    if t0.contains(x) {
                        let m = choose|m: int| 0 <= m < t0.len() && t0[m] == x;
                        assert(t1[m] == x);
                    }
                    if x == a {
                        assert(t1[j as int] == a);
                    }
                }
            }
            j = j + 1;
        }
        proof {
            assert(skeys@.take(skeys@.len() as int) =~= skeys@);
            assert forall|a: Address| #[trigger] changes.accounts_view().contains_key(a) == self.changes_view().contains_key(a) by {
                assert(skeys@.to_set().contains(a) == self.scratch.storage@.contains_key(a));
            }
            assert forall|a: Address| self.overlay(a) is None && changes.accounts_view().contains_key(a) implies
                #[trigger] self.change_of(a) == self.base_change(a) by {
            }
            assert(changes.accounts_view() =~= self.changes_view());
            assert(changes.code_view() =~= self.changed_code_view());
        }
        changes
    }
    /// Accepts the transaction's state transition into the database: changed code is cached,
    /// storage overlays are written back, changed accounts are written (a deleted account is
    /// cached as absent with wiped storage), and the transaction's account and storage overlays
    /// are cleared. Afterwards the database answers every account and storage read as the
    /// transaction saw it. The journal, the logs and the substate sets stay until
    /// [`State::clear_transaction_state`].
    pub fn commit_transaction(&mut self)
        requires
            old(self).inv(),
        ensures
            final(self).db().wf(),
            forall|a: Address| #[trigger] final(self).db().spec_account(a) == info_of(old(self).rev().accounts[a]),
            forall|a: Address, k: Word| #[trigger] final(self).db().spec_storage(a, k) == old(self).rev().slots[
                StorageKey { address: a, key: k }],
            forall|h: B256| #[trigger] final(self).db().spec_code(h) == if old(self).changed_code_view().contains_key(h) {
                Some(old(self).changed_code_view()[h])
            } else {
                old(self).db().spec_code(h)
            },
            final(self).loaded_accounts() == Map::<Address, Option<Account>>::empty(),
            forall|a: Address| #[trigger] final(self).overlay(a) is None,
            final(self).journal_view() == old(self).journal_view(),
            final(self).logs_view() == old(self).logs_view(),
            final(self).touched_view() == old(self).touched_view(),
            final(self).created_view() == old(self).created_view(),
    {
        let ghost r0 = self.rev();
        let ghost db0 = self.database;
        proof {
            assert(rev_consistent(self.database, self.rev())) by {
                assert(self.snaps@[self.scratch.journal@.len() as int] == self.rev());
            }
        }
        // Code.
        let keys = self.scratch.accounts.keys();
        let mut i: usize = 0;
        while i < keys.len()
            invariant
                i <= keys@.len(),
                keys@.to_set() == self.scratch.accounts@.dom(),
                self.scratch == old(self).scratch,
                self.database.cache.accounts@ == db0.cache.accounts@,
                self.database.cache.storage@ == db0.cache.storage@,
                forall|h: B256| #[trigger] self.database.spec_code(h) == if exists|a: Address|
                    keys@.take(i as int).contains(a) && #[trigger] old(self).code_contrib(a, h) {
                    Some(old(self).codes_view()[h])
                } else {
                    db0.spec_code(h)
                },
            decreases keys@.len() - i,
        {
            let a = keys[i];
            let ghost t0 = keys@.take(i as int);
            let ghost db_before = self.database;
            let ghost inserted: bool = false;
            let ghost ih: B256 = B256::spec_zero();
            match self.scratch.accounts.get(&a) {
                Some(entry) => match entry {
                    Some(acc) => {
                        let h = acc.code_hash;
                        match self.scratch.codes.get(&h) {
                            Some(c) => {
                                if acc.code_changed && c.bytes.len() > 0 && !h.is_zero() && !(h
                                    == B256::keccak_empty()) {
                                    let d = c.duplicate();
                                    self.database.cache.contracts.insert(h, d);
                                    proof {
                                        inserted = true;
                                        ih = h;
                                        assert(old(self).code_contrib(a, h));
                                        assert(old(self).codes_view()[h] == c.bytes@);
                                    }
                                } else {
                                    proof {
                                        assert(forall|h2: B256| !old(self).code_contrib(a, h2));
                                    }
                                }
                            },
                            None => {
                                proof {
                                    assert(forall|h2: B256| !old(self).code_contrib(a, h2));
                                }
                            },
                        }
                        proof {
                            assert(forall|h2: B256| old(self).code_contrib(a, h2) ==> h2 == h);
                        }
                    },
                    None => {
                        proof {
                            assert(forall|h2: B256| !old(self).code_contrib(a, h2));
                        }
                    },
                },
                None => {},
            }
            proof {
                let t1 = keys@.take(i + 1);
                assert(t1 =~= t0.push(a));
                assert(keys@.to_set().contains(a));
                assert forall|x: Address| #[trigger] t1.contains(x) <==> (t0.contains(x) || x == a) by {
                    if t1.contains(x) && x != a {
                        let m = choose|m: int| 0 <= m < t1.len() && t1[m] == x;
                        assert(t0[m] == x);
                    }
                    if t0.contains(x) {
                        let m = choose|m: int| 0 <= m < t0.len() && t0[m] == x;
                        assert(t1[m] == x);
                    }
                    if x == a {
                        assert(t1[i as int] == a);
                    }
                }
                assert(inserted ==> old(self).code_contrib(a, ih));
                assert(!inserted ==> forall|h2: B256| !old(self).code_contrib(a, h2));
                assert(inserted ==> forall|h2: B256| old(self).code_contrib(a, h2) ==> h2 == ih);
                assert forall|h: B256| #[trigger] self.database.spec_code(h) == if exists|x: Address|
                    t1.contains(x) && #[trigger] old(self).code_contrib(x, h) {
                    Some(old(self).codes_view()[h])
                } else {
                    db0.spec_code(h)
                } by {
                    let e0 = exists|x: Address| t0.contains(x) && #[trigger] old(self).code_contrib(x, h);
                    let e1 = exists|x: Address| t1.contains(x) && #[trigger] old(self).code_contrib(x, h);
                    if e1 && !e0 {
                        let x = choose|x: Address| t1.contains(x) && #[trigger] old(self).code_contrib(x, h);
                        assert(x == a);
                    }
                    if e0 {
                        let x = choose|x: Address| t0.contains(x) && #[trigger] old(self).code_contrib(x, h);
                        assert(t1.contains(x));
                    }
                    if inserted && h == ih {
                        assert(t1.contains(a) && old(self).code_contrib(a, h));
                    }
                    if !(inserted && h == ih) {
                        assert(self.database.spec_code(h) == db_before.spec_code(h));
                    }
                }
            }
            i = i + 1;
        }
        proof {
            assert(keys@.take(keys@.len() as int) =~= keys@);
            assert forall|h: B256| #[trigger] self.database.spec_code(h) == if old(self).changed_code_view().contains_key(h) {
                Some(old(self).changed_code_view()[h])
            } else {
                db0.spec_code(h)
            } by {
                if exists|x: Address| #[trigger] old(self).code_contrib(x, h) {
                    let x = choose|x: Address| #[trigger] old(self).code_contrib(x, h);
                    assert(keys@.to_set().contains(x));
                    assert(keys@.contains(x));
                }
            }
        }
        let ghost code_done = self.database.cache.contracts@;
        let ghost dbc = self.database;
        // Storage.
        let skeys = self.scratch.storage.keys();
        let mut j: usize = 0;
        while j < skeys.len()
            invariant
                j <= skeys@.len(),
                skeys@.no_duplicates(),
                skeys@.to_set() == self.scratch.storage@.dom(),
                self.scratch == old(self).scratch,
                self.database.cache.accounts@ == db0.cache.accounts@,
                self.database.cache.contracts@ == code_done,
                forall|a: Address, k: Word| #[trigger] self.database.raw_storage(a, k) == if skeys@.take(j as int).contains(a) {
                    committed_slot(db0, a, k, self.scratch.storage@[a])
                } else {
                    db0.raw_storage(a, k)
                },
            decreases skeys@.len() - j,
        {
            let a = skeys[j];
            let ghost t0 = skeys@.take(j as int);
            let ghost dbj = self.database;
            proof {
                assert(skeys@.to_set().contains(a));
                if t0.contains(a) {
                    let m = choose|m: int| 0 <= m < t0.len() && t0[m] == a;
                    assert(skeys@[m] == a);
                }
            }
            match self.scratch.storage.get(&a) {
                Some(o) => {
                    let ov = StorageOverlay { wiped: o.wiped, slots: o.slots.duplicate() };
                    commit_storage_entry(&mut self.database, &a, &ov);
                    proof {
                        assert forall|k: Word| #[trigger] self.database.raw_storage(a, k) == committed_slot(db0, a, k, self.scratch.storage@[a]) by {
                            assert(dbj.raw_storage(a, k) == db0.raw_storage(a, k));
                        }
                    }
                },
                None => {},
            }
            proof {
                let t1 = skeys@.take(j + 1);
                assert(t1 =~= t0.push(a));
                assert forall|x: Address| #[trigger] t1.contains(x) <==> (t0.contains(x) || x == a) by {
                    if t1.contains(x) && x != a {
                        let m = choose|m: int| 0 <= m < t1.len() && t1[m] == x;
                        assert(t0[m] == x);
                    }
                    if t0.contains(x) {
                        let m = choose|m: int| 0 <= m < t0.len() && t0[m] == x;
                        assert(t1[m] == x);
                    }
                    if x == a {
                        assert(t1[j as int] == a);
                    }
                }
            }
            j = j + 1;
        }
        proof {
            assert(skeys@.take(skeys@.len() as int) =~= skeys@);
            assert forall|a: Address, k: Word| #[trigger] self.database.raw_storage(a, k) == r0.slots[StorageKey { address: a, key: k }] by {
                if self.scratch.storage@.contains_key(a) {
                    assert(skeys@.to_set().contains(a));
                    assert(skeys@.contains(a));
                    assert(ov_ok(db0, a, self.scratch.storage@[a]));
                    lemma_committed_slot(db0, a, k, self.scratch.storage@[a]);
                } else {
                    if skeys@.contains(a) {
                        assert(skeys@.to_set().contains(a));
                    }
                    assert(db0.spec_account(a) is None ==> db0.raw_storage(a, k) == Word::spec_zero());
                }
            }
        }
        // Accounts.
        let mut n: usize = 0;
        while n < keys.len()
            invariant
                n <= keys@.len(),
                keys@.no_duplicates(),
                keys@.to_set() == self.scratch.accounts@.dom(),
                self.scratch == old(self).scratch,
                self.database.cache.contracts@ == code_done,
                rev_consistent(db0, r0),
                r0 == old(self).rev(),
                forall|a: Address, k: Word| #[trigger] self.database.raw_storage(a, k) == r0.slots[StorageKey { address: a, key: k }],
                forall|a: Address| #[trigger] self.database.spec_account(a) == if keys@.take(n as int).contains(a) {
                    info_of(r0.accounts[a])
                } else {
                    db0.spec_account(a)
                },
                forall|a: Address| #[trigger] self.database.cache.accounts@.contains_key(a) ==> (
                    db0.cache.accounts@.contains_key(a) || keys@.take(n as int).contains(a)),
                forall|a: Address| !keys@.take(n as int).contains(a) ==> #[trigger] self.database.cache.accounts@.contains_key(a)
                    == db0.cache.accounts@.contains_key(a) && (self.database.cache.accounts@.contains_key(a)
                    ==> self.database.cache.accounts@[a] == db0.cache.accounts@[a]),
            decreases keys@.len() - n,
        {
            let a = keys[n];
            let ghost t0 = keys@.take(n as int);
            proof {
                assert(keys@.to_set().contains(a));
                if t0.contains(a) {
                    let m = choose|m: int| 0 <= m < t0.len() && t0[m] == a;
                    assert(keys@[m] == a);
                }
                assert(self.database.spec_account(a) == db0.spec_account(a));
                assert(r0.accounts[a] == self.scratch.accounts@[a]);
            }
            let original = self.database.account_info(&a);
            let current = match self.scratch.accounts.get(&a) {
                Some(c) => match c {
                    Some(acc) => Some(acc.info()),
                    None => None,
                },
                None => None,
            };
            let changed = match (&original, &current) {
                (Some(x), Some(y)) => !(x.balance == y.balance && x.nonce == y.nonce && x.code_hash
                    == y.code_hash),
                (None, None) => false,
                _ => true,
            };
            let ghost dbn = self.database;
            if changed {
                match current {
                    Some(info) => {
                        self.database.cache.accounts.insert(a, Some(info));
                    },
                    None => {
                        self.database.cache.accounts.insert(a, None);
                        let mut entry = match self.database.cache.storage.remove(&a) {
                            Some(e) => e,
                            None => AccountStorageCache::new(),
                        };
                        entry.wipe();
                        self.database.cache.storage.insert(a, entry);
                        proof {
                            assert forall|k: Word| #[trigger] self.database.raw_storage(a, k) == Word::spec_zero() by {
                            }
                            assert(r0.accounts[a] is None);
                        }
                    },
                }
            }
            proof {
                let t1 = keys@.take(n + 1);
                assert(t1 =~= t0.push(a));
                assert forall|x: Address| #[trigger] t1.contains(x) <==> (t0.contains(x) || x == a) by {
                    if t1.contains(x) && x != a {
                        let m = choose|m: int| 0 <= m < t1.len() && t1[m] == x;
                        assert(t0[m] == x);
                    }
                    if t0.contains(x) {
                        let m = choose|m: int| 0 <= m < t0.len() && t0[m] == x;
                        assert(t1[m] == x);
                    }
                    if x == a {
                        assert(t1[n as int] == a);
                    }
                }
                assert(self.database.spec_account(a) == info_of(r0.accounts[a]));
                assert forall|x: Address| x != a implies #[trigger] self.database.spec_account(x) == dbn.spec_account(x)
                    && self.database.cache.accounts@.contains_key(x) == dbn.cache.accounts@.contains_key(x) && (
                    self.database.cache.accounts@.contains_key(x) ==> self.database.cache.accounts@[x]
                    == dbn.cache.accounts@[x]) by {
                }
                assert forall|x: Address, k: Word| #[trigger] self.database.raw_storage(x, k) == r0.slots[StorageKey { address: x, key: k }] by {
                    if x != a {
                        assert(self.database.raw_storage(x, k) == dbn.raw_storage(x, k));
                    } else if changed && current is None {
                        assert(r0.accounts[a] is None);
                    } else {
                        assert(self.database.raw_storage(x, k) == dbn.raw_storage(x, k));
                    }
                }
            }
            n = n + 1;
        }
        self.scratch.accounts.clear();
        self.scratch.storage.clear();
        proof {
            assert(keys@.take(keys@.len() as int) =~= keys@);
            assert forall|a: Address| #[trigger] self.database.spec_account(a) == info_of(r0.accounts[a]) by {
                if !keys@.contains(a) {
                    assert(!old(self).scratch.accounts@.contains_key(a)) by {
                        if old(self).scratch.accounts@.contains_key(a) {
                            assert(keys@.to_set().contains(a));
                        }
                    }
                } else {
                    assert(keys@.take(keys@.len() as int).contains(a));
                }
            }
            assert forall|a: Address, k: Word| #[trigger] self.database.spec_storage(a, k) == r0.slots[StorageKey { address: a, key: k }] by {
                if self.database.spec_absent(a) {
                    assert(self.database.spec_account(a) == info_of(r0.accounts[a]));
                    assert(r0.accounts[a] is None);
                }
            }
            assert forall|a: Address, k: Word| self.database.spec_account(a) is None implies #[trigger] self.database.raw_storage(a, k)
                == Word::spec_zero() by {
                assert(self.database.spec_account(a) == info_of(r0.accounts[a]));
                assert(r0.accounts[a] is None);
            }
            assert forall|h: B256| #[trigger] self.database.spec_code(h) == dbc.spec_code(h) by {
            }
            assert(self.loaded_accounts() =~= Map::<Address, Option<Account>>::empty());
        }
    }
    /// Clears all transaction-scoped state: overlays, journal, logs, substate sets, warm sets and
    /// transient storage. The database stays.
    pub fn clear_transaction_state(&mut self)
        requires
            old(self).db().wf(),
        ensures
            final(self).inv(),
            final(self).db() == old(self).db(),
            final(self).journal_view().len() == 0,
            final(self).logs_view().len() == 0,
            final(self).touched_view() == Set::<Address>::empty(),
            final(self).created_view() == Set::<Address>::empty(),
            final(self).loaded_accounts() == Map::<Address, Option<Account>>::empty(),
            forall|a: Address| #[trigger] final(self).overlay(a) is None,
            forall|a: Address| #[trigger] final(self).rev().accounts[a] == db_acc(old(self).db(), a),
            forall|sk: StorageKey| #[trigger] final(self).rev().slots[sk] == old(self).db().spec_storage(
                sk.address,
                sk.key,
            ),
            final(self).rev().selfdestructs == Set::<Address>::empty(),
            final(self).rev().warm_accounts == Set::<Address>::empty(),
            final(self).rev().warm_slots == Set::<StorageKey>::empty(),
            final(self).rev().transient == Map::<StorageKey, Word>::empty(),
    {
        self.scratch = TxScratch::new();
        proof {
            self.snaps@ = seq![self.rev()];
            assert(self.rev().touched =~= Set::<Address>::empty());
            assert(self.inv_overlays());
            assert(self.inv_journal());
            assert(self.inv_transient());
            assert forall|a: Address, k: Word| self.rev().accounts[a] is None implies #[trigger] self.rev().slots[
                StorageKey { address: a, key: k }] == Word::spec_zero() by {
                assert(self.database.spec_account(a) is None ==> self.database.raw_storage(a, k) == Word::spec_zero());
            }
            assert(rev_consistent(self.database, self.rev()));
            assert(self.snaps@[0] == self.rev());
            assert(self.inv_chain());
            assert(self.loaded_accounts() =~= Map::<Address, Option<Account>>::empty());
        }
    }

    /// Takes the logs emitted so far, leaving none.
    pub fn take_logs(&mut self) -> (r: Vec<Log>)
        requires
            old(self).inv(),
        ensures
            final(self).inv(),
            r@ == old(self).logs_view(),
            final(self).logs_view().len() == 0,
            final(self).journal_view() == old(self).journal_view(),
            final(self).rev() == old(self).rev(),
            final(self).db() == old(self).db(),
            final(self).loaded_accounts() == old(self).loaded_accounts(),
            final(self).touched_view() == old(self).touched_view(),
            final(self).created_view() == old(self).created_view(),
    {
        let mut logs: Vec<Log> = Vec::new();
        std::mem::swap(&mut logs, &mut self.scratch.logs);
        proof {
            assert(self.rev() =~= old(self).rev());
        }
        logs
    }
    /// The hash of block `number`, if the database knows it.
    pub fn block_hash(&self, number: &Word) -> (r: DbResult<Option<B256>>)
        ensures
            r == Ok::<Option<B256>, DbErrorCode>(if self.db().cache.block_hashes@.contains_key(*number) {
                Some(self.db().cache.block_hashes@[*number])
            } else {
                None
            }),
    {
        match self.database.cache.block_hashes.get(number) {
            Some(h) => Ok(Some(*h)),
            None => Ok(None),
        }
    }

    /// The accepted-state database.
    pub fn overlay_db(&self) -> (r: &CacheDB)
        ensures
            *r == self.db(),
    {
        &self.database
    }
    // ---------------------------------------------------------------- laws

    /// Applying the transaction's transition to the database in the documented order (wipes,
    /// then changed slots, then changed accounts) gives exactly the accounts and slots the
    /// transaction sees, which are what [`State::commit_transaction`] accepts.
    pub proof fn law_transition_applies_as_committed(s: &State)
        requires
            s.inv(),
        ensures
            forall|a: Address| #[trigger] applied_account(s.db(), s.changes_view(), a) == info_of(s.rev().accounts[a]),
            forall|a: Address, k: Word| #[trigger] applied_slot(s.db(), s.changes_view(), a, k) == s.rev().slots[
                StorageKey { address: a, key: k }],
    {
        let db = s.db();
        let cv = s.changes_view();
        let r = s.rev();
        assert(rev_consistent(s.database, r)) by {
            assert(s.snaps@[s.scratch.journal@.len() as int] == r);
        }
        assert forall|a: Address| #[trigger] applied_account(db, cv, a) == info_of(r.accounts[a]) by {
            if s.scratch.accounts@.contains_key(a) {
                assert(cv.contains_key(a));
            } else if cv.contains_key(a) {
                assert(cv[a].original == cv[a].current);
            }
        }
        assert forall|a: Address, k: Word| #[trigger] applied_slot(db, cv, a, k) == r.slots[StorageKey { address: a, key: k }] by {
            assert(applied_account(db, cv, a) == info_of(r.accounts[a]));
            assert(db.spec_account(a) is None ==> db.raw_storage(a, k) == Word::spec_zero());
            if applied_account(db, cv, a) is None {
                assert(r.accounts[a] is None);
            } else if s.scratch.storage@.contains_key(a) {
                let o = s.scratch.storage@[a];
                assert(ov_ok(db, a, o));
                assert(cv.contains_key(a));
                assert(cv[a].storage == o.slots@);
                assert(cv[a].wipe_storage == o.wiped);
                if o.slots@.contains_key(k) {
                    assert(o.slots@[k].original == base_slot(db, a, k, o.wiped));
                }
            } else if cv.contains_key(a) {
                assert(cv[a].storage == Map::<Word, TrackedValue<Word>>::empty());
                assert(!cv[a].wipe_storage);
            }
        }
    }

    /// Whatever journaled operations follow a checkpoint, the view recorded at the checkpoint is
    /// the view the state had then, the logs up to the checkpoint are the logs it had then, and
    /// the database is unchanged; so a rollback to it restores that view and those logs.
    pub proof fn law_rollback_restores_checkpoint(before: &State, after: &State)
        requires
            before.inv(),
            after.inv(),
            after.extends(before),
        ensures
            after.snapshot(before.journal_view().len() as int) == before.rev(),
            before.journal_view().len() <= after.journal_view().len(),
            before.logs_view().len() <= after.logs_view().len(),
            after.logs_view().take(before.logs_view().len() as int) == before.logs_view(),
            after.db() == before.db(),
    {
        State::lemma_extends_db(before, after);
        assert(before.snaps@[before.scratch.journal@.len() as int] == before.rev());
    }
}

} // verus!
