//! Owned, materialized state changes of a transaction.
//!
//! A [`StateChanges`] holds every account and storage slot the transaction loaded, not only the
//! changed ones; consumers filter with [`AccountChange::is_changed`] and
//! [`AccountChange::changed_storage`]. Changes are applied in this order: write the bytecode of
//! [`StateChanges::code`]; delete all storage of each account whose storage is wiped; apply each
//! changed slot (a zero value deletes the slot); upsert or delete each changed account.

use vstd::prelude::*;
use crate::bytecode::Bytecode;
use crate::primitives::{Address, B256, Word};
use crate::state::{
    AccountChangeRef, AccountInfo, SinkEvent, StateChangeSink, StateChangeSource, StorageChange, TrackedValue,
    flat, is_prefix, lemma_flat_prefix, lemma_flat_step, lemma_prefix_of_concat, lemma_prefix_trans,
    lemma_prefix_within, lemma_runs_ok_empty, lemma_visit_step, runs, runs_ok,
};
use crate::vecmap::{VecMap, lemma_sorted_listing, sorted_listing};

verus! {

/// Whether a loaded slot must be written back: it changed, and it is not a zero written over
/// wiped storage.
pub open spec fn slot_changed(wiped: bool, slot: TrackedValue<Word>) -> bool {
    slot.original != slot.current && (!wiped || slot.current != Word::spec_zero())
}

/// What an [`AccountChange`] says, with its storage and code as mathematical values.
pub struct AccountChangeView {
    pub original: Option<AccountInfo>,
    pub current: Option<AccountInfo>,
    pub code: Option<Seq<u8>>,
    pub storage: Map<Word, TrackedValue<Word>>,
    pub wipe_storage: bool,
    pub created: bool,
    pub selfdestructed: bool,
}

/// The state of one account across a transaction.
pub struct AccountChange {
    /// Account info at the start of the transaction; `None`: the account did not exist.
    pub original: Option<AccountInfo>,
    /// Account info after the transaction; `None` is an explicit deletion.
    pub current: Option<AccountInfo>,
    /// The current bytecode, when the transaction knows it: code set in this transaction, or
    /// the empty code.
    pub code: Option<Bytecode>,
    /// Storage slots loaded or changed during the transaction.
    pub storage: VecMap<Word, TrackedValue<Word>>,
    /// Delete all pre-existing storage before applying [`AccountChange::storage`].
    pub wipe_storage: bool,
    /// The account was created during the transaction.
    pub created: bool,
    /// The account was self-destructed during the transaction.
    pub selfdestructed: bool,
}

impl View for AccountChange {
    type V = AccountChangeView;

    open spec fn view(&self) -> AccountChangeView {
        AccountChangeView {
            original: self.original,
            current: self.current,
            code: match self.code {
                Some(c) => Some(c.bytes@),
                None => None,
            },
            storage: self.storage@,
            wipe_storage: self.wipe_storage,
            created: self.created,
            selfdestructed: self.selfdestructed,
        }
    }
}

impl AccountChange {
    /// A change whose account is `original` before and after, with no storage and no flags.
    pub fn unchanged(original: Option<AccountInfo>) -> (r: AccountChange)
        ensures
            r@ == (AccountChangeView {
                original,
                current: original,
                code: None,
                storage: Map::empty(),
                wipe_storage: false,
                created: false,
                selfdestructed: false,
            }),
    {
        AccountChange {
            original,
            current: original,
            code: None,
            storage: VecMap::new(),
            wipe_storage: false,
            created: false,
            selfdestructed: false,
        }
    }

    /// Marks the account's pre-existing storage for deletion.
    pub fn mark_storage_wiped(&mut self)
        ensures
            final(self)@ == (AccountChangeView { wipe_storage: true, ..old(self)@ }),
    {
        self.wipe_storage = true;
    }

    /// Whether all pre-existing storage must be deleted before [`AccountChange::storage`] is
    /// applied.
    pub fn is_storage_wiped(&self) -> (r: bool)
        ensures
            r == self@.wipe_storage,
    {
        self.wipe_storage
    }

    /// Marks the account as created during the transaction.
    pub fn mark_created(&mut self)
        ensures
            final(self)@ == (AccountChangeView { created: true, ..old(self)@ }),
    {
        self.created = true;
    }

    /// Whether the account was created during the transaction.
    pub fn is_created(&self) -> (r: bool)
        ensures
            r == self@.created,
    {
        self.created
    }

    /// Marks the account as self-destructed during the transaction.
    pub fn mark_selfdestruct(&mut self)
        ensures
            final(self)@ == (AccountChangeView { selfdestructed: true, ..old(self)@ }),
    {
        self.selfdestructed = true;
    }

    /// Whether the account was self-destructed during the transaction.
    pub fn is_selfdestructed(&self) -> (r: bool)
        ensures
            r == self@.selfdestructed,
    {
        self.selfdestructed
    }

    /// Whether the account is empty after the transaction; a deleted account is empty.
    pub fn is_empty(&self) -> (r: bool)
        ensures
            r == match self@.current {
                Some(info) => info.spec_is_empty(),
                None => true,
            },
    {
        match &self.current {
            Some(info) => info.is_empty(),
            None => true,
        }
    }

    /// Whether the account's info (existence, balance, nonce or code hash) changed.
    pub fn is_changed(&self) -> (r: bool)
        ensures
            r == (self@.original != self@.current),
    {
        match (&self.original, &self.current) {
            (Some(a), Some(b)) => !(a.balance == b.balance && a.nonce == b.nonce && a.code_hash
                == b.code_hash),
            (None, None) => false,
            _ => true,
        }
    }

    /// The slots that must be written back, each once.
    pub fn changed_storage(&self) -> (r: Vec<(Word, TrackedValue<Word>)>)
        ensures
            r@.no_duplicates(),
            forall|e: (Word, TrackedValue<Word>)| #[trigger] r@.contains(e) <==> (
            self@.storage.contains_key(e.0) && self@.storage[e.0] == e.1 && slot_changed(
                self@.wipe_storage,
                e.1,
            )),
    {
        let keys = self.storage.keys();
        let mut r: Vec<(Word, TrackedValue<Word>)> = Vec::new();
        let mut i: usize = 0;
        while i < keys.len()
            invariant
                i <= keys@.len(),
                keys@.no_duplicates(),
                keys@.to_set() == self.storage@.dom(),
                r@.no_duplicates(),
                forall|e: (Word, TrackedValue<Word>)| #[trigger] r@.contains(e) <==> (
                keys@.take(i as int).contains(e.0) && self.storage@.contains_key(e.0)
                    && self.storage@[e.0] == e.1 && slot_changed(self.wipe_storage, e.1)),
            decreases keys@.len() - i,
        {
            let k = keys[i];
            proof {
                assert(keys@.to_set().contains(k));
                let t0 = keys@.take(i as int);
                if t0.contains(k) {
                    let m = choose|m: int| 0 <= m < t0.len() && t0[m] == k;
                    assert(keys@[m] == k);
                }
            }
            let ghost r0 = r@;
            let ghost pushed: bool = false;
            match self.storage.get(&k) {
                Some(slot) => {
                    let changed = !(slot.original == slot.current) && (!self.wipe_storage
                        || !slot.current.is_zero());
                    if changed {
                        r.push((k, *slot));
                        proof {
                            pushed = true;
                        }
                    }
                    proof {
                        assert(changed == slot_changed(self.wipe_storage, *slot));
                    }
                },
                None => {},
            }
            proof {
                let t1 = keys@.take(i + 1);
                let t0 = keys@.take(i as int);
                assert(t1 =~= t0.push(k));
                assert(pushed ==> r@ == r0.push((k, self.storage@[k])) && slot_changed(self.wipe_storage, self.storage@[k]));
                assert(!pushed ==> r@ == r0 && !slot_changed(self.wipe_storage, self.storage@[k]));
                assert forall|e: (Word, TrackedValue<Word>)| #[trigger] r@.contains(e) <==> (
                t1.contains(e.0) && self.storage@.contains_key(e.0)
                    && self.storage@[e.0] == e.1 && slot_changed(self.wipe_storage, e.1)) by {
                    if e.0 == k {
                        assert(t1[i as int] == k);
                        assert(!r0.contains(e));
                        if pushed && e.1 == self.storage@[k] {
                            assert(r@[r0.len() as int] == e);
                        }
                        if r@.contains(e) {
                            let m = choose|m: int| 0 <= m < r@.len() && r@[m] == e;
                            if m < r0.len() {
                                assert(r0[m] == e);
                            }
                        }
                    } else {
                        if t1.contains(e.0) {
                            let m = choose|m: int| 0 <= m < t1.len() && t1[m] == e.0;
                            assert(m < i);
                            assert(t0[m] == e.0);
                        }
                        if t0.contains(e.0) {
                            let m = choose|m: int| 0 <= m < t0.len() && t0[m] == e.0;
                            assert(t1[m] == e.0);
                        }
                        if r@.contains(e) {
                            let m = choose|m: int| 0 <= m < r@.len() && r@[m] == e;
                            if m < r0.len() {
                                assert(r0[m] == e);
                            }
                        }
                        if r0.contains(e) {
                            let m = choose|m: int| 0 <= m < r0.len() && r0[m] == e;
                            assert(r@[m] == e);
                        }
                    }
                }
                assert forall|a: int, b: int| 0 <= a < b < r@.len() implies r@[a] != r@[b] by {
                    if b == r0.len() {
                        assert(r0.contains(r@[a]));
                    }
                }
            }
            i += 1;
        }
        proof {
            assert(keys@.take(keys@.len() as int) =~= keys@);
            assert forall|e: (Word, TrackedValue<Word>)| self.storage@.contains_key(e.0) implies keys@.contains(
                e.0,
            ) by {
                assert(keys@.to_set().contains(e.0));
            }
        }
        r
    }
}

/// The complete owned state transition of a transaction.
pub struct StateChanges {
    /// Accounts loaded or changed by the transaction.
    pub accounts: VecMap<Address, AccountChange>,
    /// Created or modified bytecode by code hash.
    pub code: VecMap<B256, Bytecode>,
}

impl StateChanges {
    /// The account changes by address.
    pub open spec fn accounts_view(&self) -> Map<Address, AccountChangeView> {
        Map::new(|a: Address| self.accounts@.contains_key(a), |a: Address| self.accounts@[a]@)
    }

    /// The bytecode by code hash.
    pub open spec fn code_view(&self) -> Map<B256, Seq<u8>> {
        Map::new(|h: B256| self.code@.contains_key(h), |h: B256| self.code@[h].bytes@)
    }

    /// Whether an account change carries a change to apply.
    pub open spec fn spec_entry_changed(c: AccountChangeView) -> bool {
        ||| c.original != c.current
        ||| c.wipe_storage
        ||| exists|k: Word| #[trigger] c.storage.contains_key(k) && slot_changed(c.wipe_storage, c.storage[k])
    }

    /// No accounts and no code.
    pub fn new() -> (r: StateChanges)
        ensures
            r.accounts_view() == Map::<Address, AccountChangeView>::empty(),
            r.code_view() == Map::<B256, Seq<u8>>::empty(),
    {
        let r = StateChanges { accounts: VecMap::new(), code: VecMap::new() };
        assert(r.accounts_view() =~= Map::<Address, AccountChangeView>::empty());
        assert(r.code_view() =~= Map::<B256, Seq<u8>>::empty());
        r
    }

    /// Whether the transition holds no account.
    pub fn is_empty(&self) -> (r: bool)
        ensures
            r == (self.accounts_view().dom() == Set::<Address>::empty()),
    {
        let n = self.accounts.len();
        proof {
            assert(self.accounts_view().dom() =~= self.accounts@.dom());
            if n != 0 {
                assert(self.accounts@.dom() != Set::<Address>::empty());
            } else {
                assert(self.accounts@.dom() =~= Set::<Address>::empty());
            }
        }
        n == 0
    }

    /// The accounts that carry a change to apply, each once.
    pub fn changed_accounts(&self) -> (r: Vec<Address>)
        ensures
            r@.no_duplicates(),
            forall|a: Address| #[trigger] r@.contains(a) <==> (self.accounts_view().contains_key(a)
                && StateChanges::spec_entry_changed(self.accounts_view()[a])),
    {
        let keys = self.accounts.keys();
        let mut r: Vec<Address> = Vec::new();
        let mut i: usize = 0;
        while i < keys.len()
            invariant
                i <= keys@.len(),
                keys@.no_duplicates(),
                keys@.to_set() == self.accounts@.dom(),
                r@.no_duplicates(),
                forall|a: Address| #[trigger] r@.contains(a) <==> (keys@.take(i as int).contains(a)
                    && self.accounts_view().contains_key(a) && StateChanges::spec_entry_changed(
                    self.accounts_view()[a],
                )),
            decreases keys@.len() - i,
        {
            let a = keys[i];
            proof {
                assert(keys@.to_set().contains(a));
                let t0 = keys@.take(i as int);
                if t0.contains(a) {
                    let m = choose|m: int| 0 <= m < t0.len() && t0[m] == a;
                    assert(keys@[m] == a);
                }
            }
            let ghost r0 = r@;
            let ghost pushed: bool = false;
            match self.accounts.get(&a) {
                Some(change) => {
                    let changed_storage = change.changed_storage();
                    if change.is_changed() || change.wipe_storage || changed_storage.len() > 0 {
                        proof {
                            if changed_storage.len() > 0 {
                                let e = changed_storage@[0];
                                assert(changed_storage@.contains(e));
                                assert(change@.storage.contains_key(e.0));
                            }
                        }
                        r.push(a);
                        proof {
                            pushed = true;
                        }
                    } else {
                        proof {
                            assert forall|k: Word| #[trigger] change@.storage.contains_key(k) implies !slot_changed(
                                change@.wipe_storage,
                                change@.storage[k],
                            ) by {
                                if slot_changed(change@.wipe_storage, change@.storage[k]) {
                                    assert(changed_storage@.contains((k, change@.storage[k])));
                                }
                            }
                        }
                    }
                },
                None => {},
            }
            proof {
                let t1 = keys@.take(i + 1);
                let t0 = keys@.take(i as int);
                assert(t1 =~= t0.push(a));
                assert(self.accounts_view().contains_key(a));
                assert(pushed ==> r@ == r0.push(a) && StateChanges::spec_entry_changed(self.accounts_view()[a]));
                assert(!pushed ==> r@ == r0 && !StateChanges::spec_entry_changed(self.accounts_view()[a]));
                assert forall|x: Address| #[trigger] r@.contains(x) <==> (t1.contains(x)
                    && self.accounts_view().contains_key(x) && StateChanges::spec_entry_changed(
                    self.accounts_view()[x],
                )) by {
                    if x == a {
                        assert(t1[i as int] == a);
                        assert(!r0.contains(x));
                        if pushed {
                            assert(r@[r0.len() as int] == x);
                        }
                        if r@.contains(x) {
                            let m = choose|m: int| 0 <= m < r@.len() && r@[m] == x;
                            if m < r0.len() {
                                assert(r0[m] == x);
                            }
                        }
                    } else {
                        if t1.contains(x) {
                            let m = choose|m: int| 0 <= m < t1.len() && t1[m] == x;
                            assert(m < i);
                            assert(t0[m] == x);
                        }
                        if t0.contains(x) {
                            let m = choose|m: int| 0 <= m < t0.len() && t0[m] == x;
                            assert(t1[m] == x);
                        }
                        if r@.contains(x) {
                            let m = choose|m: int| 0 <= m < r@.len() && r@[m] == x;
                            if m < r0.len() {
                                assert(r0[m] == x);
                            }
                        }
                        if r0.contains(x) {
                            let m = choose|m: int| 0 <= m < r0.len() && r0[m] == x;
                            assert(r@[m] == x);
                        }
                    }
                }
                assert forall|p: int, q: int| 0 <= p < q < r@.len() implies r@[p] != r@[q] by {
                    if q == r0.len() {
                        assert(r0.contains(r@[p]));
                    }
                }
            }
            i += 1;
        }
        proof {
            assert(keys@.take(keys@.len() as int) =~= keys@);
            assert forall|a: Address| self.accounts_view().contains_key(a) implies keys@.contains(a) by {
                assert(keys@.to_set().contains(a));
            }
        }
        r
    }

    /// Whether the transition holds any account or storage change to apply.
    pub fn is_changed(&self) -> (r: bool)
        ensures
            r == exists|a: Address| #[trigger] self.accounts_view().contains_key(a)
                && StateChanges::spec_entry_changed(self.accounts_view()[a]),
    {
        let changed = self.changed_accounts();
        proof {
            if changed@.len() > 0 {
                assert(changed@.contains(changed@[0]));
            }
            if exists|a: Address| #[trigger] self.accounts_view().contains_key(a)
                && StateChanges::spec_entry_changed(self.accounts_view()[a]) {
                let a = choose|a: Address| #[trigger] self.accounts_view().contains_key(a)
                    && StateChanges::spec_entry_changed(self.accounts_view()[a]);
                assert(changed@.contains(a));
            }
        }
        changed.len() > 0
    }
}

/// The bytecode change of each code hash.
pub open spec fn code_change_events(code: Map<B256, Seq<u8>>) -> spec_fn(B256) -> Seq<SinkEvent> {
    |h: B256| seq![SinkEvent::Bytecode { code_hash: h, code: code[h] }]
}

/// The write-back of each slot of account `address`, for the slots whose value changed (a zero
/// over wiped storage needs none).
pub open spec fn slot_change_events(address: Address, c: AccountChangeView) -> spec_fn(Word) -> Seq<SinkEvent> {
    |k: Word|
        if slot_changed(c.wipe_storage, c.storage[k]) {
            seq![
                SinkEvent::Storage {
                    change: StorageChange {
                        address,
                        key: k,
                        original: c.storage[k].original,
                        current: c.storage[k].current,
                    },
                },
            ]
        } else {
            Seq::empty()
        }
}

/// The storage changes of each account: its storage wipe, if any, then its slot write-backs in
/// slot order.
pub open spec fn storage_change_events(accounts: Map<Address, AccountChangeView>) -> spec_fn(Address) -> Seq<
    SinkEvent,
> {
    |a: Address|
        (if accounts[a].wipe_storage {
            seq![SinkEvent::StorageWipe { address: a }]
        } else {
            Seq::empty()
        }) + flat(sorted_listing(accounts[a].storage.dom()), slot_change_events(a, accounts[a]))
}

/// The account change of each account whose info changed.
pub open spec fn account_change_events(accounts: Map<Address, AccountChangeView>) -> spec_fn(Address) -> Seq<
    SinkEvent,
> {
    |a: Address|
        if accounts[a].original != accounts[a].current {
            seq![
                SinkEvent::Account {
                    change: AccountChangeRef {
                        address: a,
                        original: accounts[a].original,
                        current: accounts[a].current,
                    },
                },
            ]
        } else {
            Seq::empty()
        }
}

/// A transition's changes in application order: bytecode by hash; then, account by account in
/// address order, the storage wipe and the changed slots in slot order; then the changed
/// accounts in address order.
pub open spec fn change_events(accounts: Map<Address, AccountChangeView>, code: Map<B256, Seq<u8>>) -> Seq<
    SinkEvent,
> {
    let ak = sorted_listing(accounts.dom());
    flat(sorted_listing(code.dom()), code_change_events(code)) + flat(ak, storage_change_events(accounts)) + flat(
        ak,
        account_change_events(accounts),
    )
}

impl StateChangeSource for StateChanges {
    open spec fn events(&self) -> Seq<SinkEvent> {
        change_events(self.accounts_view(), self.code_view())
    }

    /// Hands the changes to `sink` in application order (see [`change_events`]). Stops at the
    /// first error.
    fn visit<S: StateChangeSink>(&self, sink: &mut S) -> (r: Result<(), S::Error>) {
        let ghost s0 = *sink;
        let ghost av = self.accounts_view();
        let ghost cv = self.code_view();
        let ghost events = self.events();
        let code = self.code.sorted_keys();
        proof {
            assert(cv.dom() =~= self.code@.dom());
            lemma_sorted_listing(code@);
        }
        let ghost cg = code_change_events(cv);
        let ghost ak = sorted_listing(av.dom());
        let ghost c_all = flat(code@, cg);
        let ghost s_all = flat(ak, storage_change_events(av));
        let ghost a_all = flat(ak, account_change_events(av));
        proof {
            assert(events == c_all + s_all + a_all);
            assert(code@.take(0) =~= Seq::<B256>::empty());
            lemma_runs_ok_empty(s0);
        }
        let mut i: usize = 0;
        while i < code.len()
            invariant
                i <= code@.len(),
                code@.to_set() == cv.dom(),
                cv == self.code_view(),
                cg == code_change_events(cv),
                events == c_all + s_all + a_all,
                events == self.events(),
                s0 == *old(sink),
                c_all == flat(code@, cg),
                runs_ok(s0, flat(code@.take(i as int), cg), *sink),
            decreases code@.len() - i,
        {
            let h = code[i];
            proof {
                assert(code@.to_set().contains(h));
            }
            if let Some(c) = self.code.get(&h) {
                let ghost done = flat(code@.take(i as int), cg);
                let ghost mid = *sink;
                let ghost e = SinkEvent::Bytecode { code_hash: h, code: c.bytes@ };
                let r = sink.bytecode(h, c);
                proof {
                    lemma_flat_step(code@, cg, i as int);
                    assert(cv[h] == c.bytes@);
                    assert(flat(code@.take(i + 1), cg) =~= done.push(e));
                    lemma_flat_prefix(code@, cg, i + 1);
                    lemma_prefix_within(Seq::empty(), done.push(e), c_all, s_all + a_all);
                    assert(Seq::<SinkEvent>::empty() + done.push(e) =~= done.push(e));
                    assert(Seq::<SinkEvent>::empty() + c_all + (s_all + a_all) =~= events);
                    lemma_visit_step(s0, done, mid, e, *sink, r, events);
                }
                if r.is_err() {
                    return r;
                }
            }
            i += 1;
        }
        let addresses = self.accounts.sorted_keys();
        proof {
            assert(code@.take(code@.len() as int) =~= code@);
            assert(av.dom() =~= self.accounts@.dom());
            lemma_sorted_listing(addresses@);
            assert(addresses@.take(0) =~= Seq::<Address>::empty());
            assert(c_all + flat(addresses@.take(0), storage_change_events(av)) =~= c_all);
        }
        let ghost sg = storage_change_events(av);
        let mut i: usize = 0;
        while i < addresses.len()
            invariant
                i <= addresses@.len(),
                addresses@ == ak,
                ak.to_set() == av.dom(),
                av == self.accounts_view(),
                sg == storage_change_events(av),
                events == c_all + s_all + a_all,
                events == self.events(),
                s0 == *old(sink),
                s_all == flat(ak, sg),
                a_all == flat(ak, account_change_events(av)),
                runs_ok(s0, c_all + flat(ak.take(i as int), sg), *sink),
            decreases addresses@.len() - i,
        {
            let address = addresses[i];
            proof {
                assert(ak.to_set().contains(address));
                lemma_flat_step(ak, sg, i as int);
                lemma_flat_prefix(ak, sg, i + 1);
            }
            let ghost f_i = flat(ak.take(i as int), sg);
            let ghost f_next = flat(ak.take(i + 1), sg);
            if let Some(change) = self.accounts.get(&address) {
                let ghost cview = av[address];
                let ghost w = if cview.wipe_storage {
                    seq![SinkEvent::StorageWipe { address }]
                } else {
                    Seq::<SinkEvent>::empty()
                };
                if change.wipe_storage {
                    let ghost mid = *sink;
                    let ghost e = SinkEvent::StorageWipe { address };
                    let r = sink.storage_wipe(address);
                    proof {
                        let rest = flat(sorted_listing(cview.storage.dom()), slot_change_events(address, cview));
                        assert(f_next =~= f_i.push(e) + rest);
                        lemma_prefix_of_concat(f_i.push(e), rest);
                        lemma_prefix_trans(f_i.push(e), f_next, s_all);
                        lemma_prefix_within(c_all, f_i.push(e), s_all, a_all);
                        assert(c_all + f_i.push(e) =~= (c_all + f_i).push(e));
                        lemma_visit_step(s0, c_all + f_i, mid, e, *sink, r, events);
                    }
                    if r.is_err() {
                        return r;
                    }
                }
                proof {
                    assert(c_all + f_i + w =~= if cview.wipe_storage {
                        (c_all + f_i).push(SinkEvent::StorageWipe { address })
                    } else {
                        c_all + f_i
                    });
                }
                let keys = change.storage.sorted_keys();
                let ghost slg = slot_change_events(address, cview);
                proof {
                    assert(keys@.to_set() == cview.storage.dom());
                    lemma_sorted_listing(keys@);
                    assert(keys@.take(0) =~= Seq::<Word>::empty());
                    assert(c_all + f_i + w + flat(keys@.take(0), slg) =~= c_all + f_i + w);
                    assert(f_next =~= f_i + (w + flat(keys@, slg)));
                }
                let mut j: usize = 0;
                while j < keys.len()
                    invariant
                        j <= keys@.len(),
                        keys@.to_set() == cview.storage.dom(),
                        change@ == cview,
                        slg == slot_change_events(address, cview),
                        events == c_all + s_all + a_all,
                        events == self.events(),
                        s0 == *old(sink),
                events == self.events(),
                s0 == *old(sink),
                        f_next == f_i + (w + flat(keys@, slg)),
                        is_prefix(f_next, s_all),
                        runs_ok(s0, c_all + f_i + w + flat(keys@.take(j as int), slg), *sink),
                    decreases keys@.len() - j,
                {
                    let key = keys[j];
                    proof {
                        assert(keys@.to_set().contains(key));
                        lemma_flat_step(keys@, slg, j as int);
                        lemma_flat_prefix(keys@, slg, j + 1);
                    }
                    let ghost done = c_all + f_i + w + flat(keys@.take(j as int), slg);
                    if let Some(slot) = change.storage.get(&key) {
                        if !(slot.original == slot.current) && (!change.wipe_storage
                            || !slot.current.is_zero()) {
                            let sc = StorageChange {
                                address,
                                key,
                                original: slot.original,
                                current: slot.current,
                            };
                            let ghost mid = *sink;
                            let ghost e = SinkEvent::Storage { change: sc };
                            let r = sink.storage(sc);
                            proof {
                                assert(slot_changed(cview.wipe_storage, cview.storage[key]));
                                let p = flat(keys@.take(j + 1), slg);
                                assert(p =~= flat(keys@.take(j as int), slg).push(e));
                                lemma_prefix_within(f_i + w, p, flat(keys@, slg), Seq::empty());
                                assert(f_i + w + flat(keys@, slg) + Seq::<SinkEvent>::empty() =~= f_next);
                                lemma_prefix_trans(f_i + w + p, f_next, s_all);
                                lemma_prefix_within(c_all, f_i + w + p, s_all, a_all);
                                assert(c_all + (f_i + w + p) =~= done.push(e));
                                assert(c_all + s_all + a_all =~= events);
                                lemma_visit_step(s0, done, mid, e, *sink, r, events);
                            }
                            if r.is_err() {
                                return r;
                            }
                        } else {
                            proof {
                                assert(!slot_changed(cview.wipe_storage, cview.storage[key]));
                                assert(flat(keys@.take(j + 1), slg) =~= flat(keys@.take(j as int), slg));
                            }
                        }
                    }
                    j += 1;
                }
                proof {
                    assert(keys@.take(keys@.len() as int) =~= keys@);
                    assert(c_all + f_i + w + flat(keys@, slg) =~= c_all + f_next);
                }
            }
            i += 1;
        }
        proof {
            assert(ak.take(ak.len() as int) =~= ak);
            assert(ak.take(0) =~= Seq::<Address>::empty());
            assert(c_all + s_all + flat(ak.take(0), account_change_events(av)) =~= c_all + s_all);
        }
        let ghost ag = account_change_events(av);
        let mut i: usize = 0;
        while i < addresses.len()
            invariant
                i <= addresses@.len(),
                addresses@ == ak,
                ak.to_set() == av.dom(),
                av == self.accounts_view(),
                ag == account_change_events(av),
                events == c_all + s_all + a_all,
                events == self.events(),
                s0 == *old(sink),
                a_all == flat(ak, ag),
                runs_ok(s0, c_all + s_all + flat(ak.take(i as int), ag), *sink),
            decreases addresses@.len() - i,
        {
            let address = addresses[i];
            proof {
                assert(ak.to_set().contains(address));
                lemma_flat_step(ak, ag, i as int);
                lemma_flat_prefix(ak, ag, i + 1);
            }
            let ghost done = c_all + s_all + flat(ak.take(i as int), ag);
            if let Some(change) = self.accounts.get(&address) {
                if change.is_changed() {
                    let ac = AccountChangeRef {
                        address,
                        original: change.original,
                        current: change.current,
                    };
                    let ghost mid = *sink;
                    let ghost e = SinkEvent::Account { change: ac };
                    let r = sink.account(ac);
                    proof {
                        let p = flat(ak.take(i + 1), ag);
                        assert(p =~= flat(ak.take(i as int), ag).push(e));
                        lemma_prefix_within(c_all + s_all, p, a_all, Seq::empty());
                        assert(c_all + s_all + a_all + Seq::<SinkEvent>::empty() =~= events);
                        assert(c_all + s_all + p =~= done.push(e));
                        lemma_visit_step(s0, done, mid, e, *sink, r, events);
                    }
                    if r.is_err() {
                        return r;
                    }
                } else {
                    proof {
                        assert(flat(ak.take(i + 1), ag) =~= flat(ak.take(i as int), ag));
                    }
                }
            }
            i += 1;
        }
        proof {
            assert(ak.take(ak.len() as int) =~= ak);
        }
        Ok(())
    }
}

} // verus!
