//! Block-level accumulation of transaction state changes.
//!
//! A [`BlockStateAccumulator`] consumes the changes of successive transactions as a
//! [`StateChangeSink`] and keeps, for each account and slot, its value at the start of the block
//! together with its latest value, dropping entries that end where they started.

use vstd::prelude::*;
use core::convert::Infallible;
use crate::bytecode::Bytecode;
use crate::primitives::{Address, B256, Word};
use crate::state::{
    AccountChangeRef, AccountInfo, SinkEvent, StateChangeSink, StateChangeSource, StorageChange, TrackedValue, flat,
    accepted_at, accepted_trace, lemma_flat_prefix, lemma_flat_step, lemma_prefix_within, lemma_runs_ok_empty, lemma_visit_step,
    runs_ok,
};
use crate::vecmap::{MapKey, SortKey, StorageKey, VecMap, VecSet, keys_sorted, lemma_sorted_listing, sorted_listing};

verus! {

/// What a [`BlockStateAccumulator`] holds, as mathematical values.
pub struct BlockStateView {
    /// Account deltas: the account at the start of the block and now.
    pub accounts: Map<Address, TrackedValue<Option<AccountInfo>>>,
    /// Accounts whose storage as of the start of the block must be deleted.
    pub storage_wipes: Set<Address>,
    /// Slot deltas: the slot at the start of the block (or after the wipe) and now.
    pub storage: Map<StorageKey, TrackedValue<Word>>,
    /// Bytecode by code hash.
    pub code: Map<B256, Seq<u8>>,
}

/// `m` without the slots of `address`.
pub open spec fn without_slots_of(m: Map<StorageKey, TrackedValue<Word>>, address: Address) -> Map<
    StorageKey,
    TrackedValue<Word>,
> {
    Map::new(|k: StorageKey| m.contains_key(k) && k.address != address, |k: StorageKey| m[k])
}

/// The accumulator after it observes bytecode: the first code seen for a hash is kept.
pub open spec fn spec_on_bytecode(v: BlockStateView, code_hash: B256, code: Seq<u8>) -> BlockStateView {
    if v.code.contains_key(code_hash) {
        v
    } else {
        BlockStateView { code: v.code.insert(code_hash, code), ..v }
    }
}

/// The account deltas after an account change: the change's current value replaces the delta's,
/// and a delta that ends where it started is dropped.
pub open spec fn accounts_after_change(
    accounts: Map<Address, TrackedValue<Option<AccountInfo>>>,
    c: AccountChangeRef,
) -> Map<Address, TrackedValue<Option<AccountInfo>>> {
    if accounts.contains_key(c.address) {
        let original = accounts[c.address].original;
        if original == c.current {
            accounts.remove(c.address)
        } else {
            accounts.insert(c.address, TrackedValue { original, current: c.current })
        }
    } else if c.original != c.current {
        accounts.insert(c.address, TrackedValue { original: c.original, current: c.current })
    } else {
        accounts
    }
}

/// The accumulator after it observes an account change. Deleting an account drops its storage
/// deltas and its wipe; an account that did not exist at the start of the block needs no wipe.
pub open spec fn spec_on_account(v: BlockStateView, c: AccountChangeRef) -> BlockStateView {
    let accounts = accounts_after_change(v.accounts, c);
    if c.current is None {
        BlockStateView {
            accounts,
            storage_wipes: v.storage_wipes.remove(c.address),
            storage: without_slots_of(v.storage, c.address),
            code: v.code,
        }
    } else if accounts.contains_key(c.address) && accounts[c.address].original is None {
        BlockStateView { accounts, storage_wipes: v.storage_wipes.remove(c.address), ..v }
    } else {
        BlockStateView { accounts, ..v }
    }
}

/// The accumulator after it observes a storage wipe: earlier slot deltas of the account are
/// dropped, and the wipe is recorded unless the account did not exist at the start of the block.
pub open spec fn spec_on_storage_wipe(v: BlockStateView, address: Address) -> BlockStateView {
    let record = !v.accounts.contains_key(address) || v.accounts[address].original is Some;
    BlockStateView {
        storage_wipes: if record {
            v.storage_wipes.insert(address)
        } else {
            v.storage_wipes
        },
        storage: without_slots_of(v.storage, address),
        ..v
    }
}

/// Whether a slot delta with this start value and `current` carries nothing: a zero over wiped
/// storage, or, without a wipe, a value equal to the start value.
pub open spec fn slot_delta_void(wiped: bool, original: Word, current: Word) -> bool {
    (wiped && current == Word::spec_zero()) || (!wiped && original == current)
}

/// The accumulator after it observes a slot change.
pub open spec fn spec_on_storage(v: BlockStateView, c: StorageChange) -> BlockStateView {
    let k = StorageKey { address: c.address, key: c.key };
    let wiped = v.storage_wipes.contains(c.address);
    if v.storage.contains_key(k) {
        let original = v.storage[k].original;
        if slot_delta_void(wiped, original, c.current) {
            BlockStateView { storage: v.storage.remove(k), ..v }
        } else {
            BlockStateView {
                storage: v.storage.insert(k, TrackedValue { original, current: c.current }),
                ..v
            }
        }
    } else if slot_delta_void(wiped, c.original, c.current) {
        v
    } else {
        BlockStateView {
            storage: v.storage.insert(k, TrackedValue { original: c.original, current: c.current }),
            ..v
        }
    }
}

/// Every account delta records a change, and no account that did not exist at the start of the
/// block has a storage wipe recorded.
pub open spec fn block_state_consistent(v: BlockStateView) -> bool {
    &&& forall|a: Address| #[trigger]
        v.accounts.contains_key(a) ==> v.accounts[a].original != v.accounts[a].current
    &&& forall|a: Address| #[trigger]
        v.storage_wipes.contains(a) ==> !(v.accounts.contains_key(a)
            && v.accounts[a].original is None)
}

/// Recording any change keeps the accumulator consistent: account deltas that end where they
/// started are dropped, and a storage wipe is never kept for an account created in the block.
pub proof fn law_block_state_recording_keeps_consistency(
    v: BlockStateView,
    code_hash: B256,
    code: Seq<u8>,
    account: AccountChangeRef,
    wiped: Address,
    slot: StorageChange,
)
    requires
        block_state_consistent(v),
    ensures
        block_state_consistent(spec_on_bytecode(v, code_hash, code)),
        block_state_consistent(spec_on_account(v, account)),
        block_state_consistent(spec_on_storage_wipe(v, wiped)),
        block_state_consistent(spec_on_storage(v, slot)),
{
    let w = spec_on_account(v, account);
    assert forall|a: Address| #[trigger] w.storage_wipes.contains(a) implies !(w.accounts.contains_key(
        a,
    ) && w.accounts[a].original is None) by {
        if a != account.address {
            assert(v.storage_wipes.contains(a));
        }
    }
}

/// Mutable block-level state accumulator.
pub struct BlockStateAccumulator {
    accounts: VecMap<Address, TrackedValue<Option<AccountInfo>>>,
    storage_wipes: VecSet<Address>,
    storage: VecMap<StorageKey, TrackedValue<Word>>,
    code: VecMap<B256, Bytecode>,
}

impl View for BlockStateAccumulator {
    type V = BlockStateView;

    closed spec fn view(&self) -> BlockStateView {
        BlockStateView {
            accounts: self.accounts@,
            storage_wipes: self.storage_wipes@,
            storage: self.storage@,
            code: Map::new(|h: B256| self.code@.contains_key(h), |h: B256| self.code@[h].bytes@),
        }
    }
}

/// Two optional accounts are equal.
fn same_account(a: &Option<AccountInfo>, b: &Option<AccountInfo>) -> (r: bool)
    ensures
        r == (*a == *b),
{
    match (a, b) {
        (Some(x), Some(y)) => x.balance == y.balance && x.nonce == y.nonce && x.code_hash
            == y.code_hash,
        (None, None) => true,
        _ => false,
    }
}

/// Removes the slots of `address` from `storage`.
fn remove_slots_of(storage: &mut VecMap<StorageKey, TrackedValue<Word>>, address: &Address)
    ensures
        final(storage)@ == without_slots_of(old(storage)@, *address),
{
    let keys = storage.keys();
    let mut i: usize = 0;
    while i < keys.len()
        invariant
            i <= keys@.len(),
            keys@.to_set() == old(storage)@.dom(),
            forall|k: StorageKey| #[trigger]
                storage@.contains_key(k) <==> (old(storage)@.contains_key(k) && !(k.address
                    == *address && keys@.take(i as int).contains(k))),
            forall|k: StorageKey| #[trigger] storage@.contains_key(k) ==> storage@[k] == old(storage)@[k],
        decreases keys@.len() - i,
    {
        let k = keys[i];
        if k.address.key_eq(address) {
            storage.remove(&k);
        }
        proof {
            assert(keys@.take(i + 1) =~= keys@.take(i as int).push(k));
            assert forall|x: StorageKey| keys@.take(i + 1).contains(x) <==> (keys@.take(
                i as int,
            ).contains(x) || x == k) by {
                if keys@.take(i + 1).contains(x) && x != k {
                    let m = choose|m: int| 0 <= m < i + 1 && #[trigger] keys@.take(i + 1)[m] == x;
                    assert(keys@.take(i as int)[m] == x);
                }
                if keys@.take(i as int).contains(x) {
                    let m = choose|m: int| 0 <= m < i && #[trigger] keys@.take(i as int)[m] == x;
                    assert(keys@.take(i + 1)[m] == x);
                }
                if x == k {
                    assert(keys@.take(i + 1)[i as int] == x);
                }
            }
        }
        i += 1;
    }
    proof {
        assert(keys@.take(keys@.len() as int) =~= keys@);
        assert forall|k: StorageKey| old(storage)@.contains_key(k) implies keys@.contains(k) by {
            assert(keys@.to_set().contains(k));
        }
        assert(storage@ =~= without_slots_of(old(storage)@, *address));
    }
}

impl BlockStateAccumulator {
    /// An empty accumulator.
    pub fn new() -> (r: BlockStateAccumulator)
        ensures
            block_state_consistent(r@),
            r@ == (BlockStateView {
                accounts: Map::empty(),
                storage_wipes: Set::empty(),
                storage: Map::empty(),
                code: Map::empty(),
            }),
    {
        let r = BlockStateAccumulator {
            accounts: VecMap::new(),
            storage_wipes: VecSet::new(),
            storage: VecMap::new(),
            code: VecMap::new(),
        };
        assert(r@.code =~= Map::<B256, Seq<u8>>::empty());
        r
    }

    /// Whether the accumulator holds no state change.
    pub fn is_empty(&self) -> (r: bool)
        ensures
            r == (self@.accounts.dom() == Set::<Address>::empty() && self@.storage_wipes
                == Set::<Address>::empty() && self@.storage.dom() == Set::<StorageKey>::empty()
                && self@.code.dom() == Set::<B256>::empty()),
    {
        let n_accounts = self.accounts.len();
        let n_wipes = self.storage_wipes.len();
        let n_slots = self.storage.len();
        let n_code = self.code.len();
        proof {
            assert(self@.code.dom() =~= self.code@.dom());
            if n_accounts == 0 {
                self.accounts@.dom().lemma_len0_is_empty();
            }
            if n_wipes == 0 {
                self.storage_wipes@.lemma_len0_is_empty();
            }
            if n_slots == 0 {
                self.storage@.dom().lemma_len0_is_empty();
            }
            if n_code == 0 {
                self.code@.dom().lemma_len0_is_empty();
            }
        }
        let r = n_accounts == 0 && n_wipes == 0 && n_slots == 0 && n_code == 0;
        r
    }

    /// Account deltas in address order.
    pub fn accounts_sorted(&self) -> (r: Vec<(Address, TrackedValue<Option<AccountInfo>>)>)
        ensures
            r@.len() == self@.accounts.dom().len(),
            forall|i: int, j: int|
                0 <= i < j < r@.len() ==> (#[trigger] r@[i]).0.spec_lt((#[trigger] r@[j]).0),
            forall|i: int|
                0 <= i < r@.len() ==> self@.accounts.contains_key((#[trigger] r@[i]).0)
                    && self@.accounts[r@[i].0] == r@[i].1,
            forall|a: Address|
                self@.accounts.contains_key(a) ==> exists|i: int| 0 <= i < r@.len() && (#[trigger] r@[i]).0 == a,
    {
        self.accounts.sorted_entries()
    }

    /// Addresses whose storage is wiped, in address order.
    pub fn storage_wipes_sorted(&self) -> (r: Vec<Address>)
        ensures
            keys_sorted(r@),
            r@.to_set() == self@.storage_wipes,
            r@.len() == self@.storage_wipes.len(),
    {
        self.storage_wipes.sorted_elements()
    }

    /// Slot deltas in address, then slot order.
    pub fn storage_sorted(&self) -> (r: Vec<(StorageKey, TrackedValue<Word>)>)
        ensures
            r@.len() == self@.storage.dom().len(),
            forall|i: int, j: int|
                0 <= i < j < r@.len() ==> (#[trigger] r@[i]).0.spec_before((#[trigger] r@[j]).0),
            forall|i: int|
                0 <= i < r@.len() ==> self@.storage.contains_key((#[trigger] r@[i]).0)
                    && self@.storage[r@[i].0] == r@[i].1,
            forall|k: StorageKey|
                self@.storage.contains_key(k) ==> exists|i: int| 0 <= i < r@.len() && (#[trigger] r@[i]).0 == k,
    {
        self.storage.sorted_entries()
    }

    /// Bytecode entries in code-hash order.
    pub fn code(&self) -> (r: Vec<(B256, Bytecode)>)
        ensures
            r@.len() == self@.code.dom().len(),
            forall|i: int, j: int|
                0 <= i < j < r@.len() ==> (#[trigger] r@[i]).0.spec_lt((#[trigger] r@[j]).0),
            forall|i: int|
                0 <= i < r@.len() ==> self@.code.contains_key((#[trigger] r@[i]).0)
                    && self@.code[r@[i].0] == r@[i].1.bytes@,
            forall|h: B256|
                self@.code.contains_key(h) ==> exists|i: int| 0 <= i < r@.len() && (#[trigger] r@[i]).0 == h,
    {
        let hashes = self.code.sorted_keys();
        let mut r: Vec<(B256, Bytecode)> = Vec::new();
        let mut i: usize = 0;
        while i < hashes.len()
            invariant
                i <= hashes@.len(),
                keys_sorted(hashes@),
                hashes@.to_set() == self.code@.dom(),
                r@.len() == i,
                forall|m: int|
                    0 <= m < i ==> (#[trigger] r@[m]).0 == hashes@[m] && self.code@[hashes@[m]].bytes@
                        == r@[m].1.bytes@,
            decreases hashes@.len() - i,
        {
            let h = hashes[i];
            proof {
                assert(hashes@.to_set().contains(h));
            }
            match self.code.get(&h) {
                Some(c) => {
                    r.push((h, c.duplicate()));
                },
                None => {
                    proof {
                        assert(false);
                    }
                },
            }
            i += 1;
        }
        proof {
            assert(self@.code.dom() =~= self.code@.dom());
            assert forall|m: int| 0 <= m < r@.len() implies self@.code.contains_key((#[trigger] r@[m]).0) by {
                assert(hashes@.to_set().contains(hashes@[m]));
            }
            assert forall|h: B256| self@.code.contains_key(h) implies exists|m: int|
                0 <= m < r@.len() && (#[trigger] r@[m]).0 == h by {
                assert(hashes@.to_set().contains(h));
                let m = choose|m: int| 0 <= m < hashes@.len() && hashes@[m] == h;
                assert(r@[m].0 == h);
            }
        }
        r
    }

    /// Records bytecode; the first code seen for a hash is kept.
    pub fn record_bytecode(&mut self, code_hash: B256, code: &Bytecode)
        ensures
            final(self)@ == spec_on_bytecode(old(self)@, code_hash, code.bytes@),
    {
        if !self.code.contains_key(&code_hash) {
            self.code.insert(code_hash, code.duplicate());
            assert(self@.code =~= old(self)@.code.insert(code_hash, code.bytes@));
        }
    }

    /// Records an account change.
    pub fn record_account(&mut self, change: AccountChangeRef)
        ensures
            final(self)@ == spec_on_account(old(self)@, change),
    {
        let address = change.address;
        let ghost accounts1 = accounts_after_change(old(self)@.accounts, change);
        match self.accounts.get(&address) {
            Some(delta) => {
                let original = delta.original;
                if same_account(&original, &change.current) {
                    self.accounts.remove(&address);
                } else {
                    self.accounts.insert(
                        address,
                        TrackedValue { original, current: change.current },
                    );
                }
            },
            None => {
                if !same_account(&change.original, &change.current) {
                    self.accounts.insert(
                        address,
                        TrackedValue { original: change.original, current: change.current },
                    );
                }
            },
        }
        assert(self.accounts@ == accounts1);
        if change.current.is_none() {
            self.storage_wipes.remove(&address);
            remove_slots_of(&mut self.storage, &address);
        } else {
            let created_in_block = match self.accounts.get(&address) {
                Some(delta) => delta.original.is_none(),
                None => false,
            };
            if created_in_block {
                self.storage_wipes.remove(&address);
            }
        }
        assert(self@.code =~= old(self)@.code);
    }

    /// Records a storage wipe of `address`.
    pub fn record_storage_wipe(&mut self, address: Address)
        ensures
            final(self)@ == spec_on_storage_wipe(old(self)@, address),
    {
        let record = match self.accounts.get(&address) {
            Some(delta) => delta.original.is_some(),
            None => true,
        };
        if record {
            self.storage_wipes.insert(address);
        }
        remove_slots_of(&mut self.storage, &address);
        assert(self@.code =~= old(self)@.code);
    }

    /// Records a slot change.
    pub fn record_storage(&mut self, change: StorageChange)
        ensures
            final(self)@ == spec_on_storage(old(self)@, change),
    {
        let k = StorageKey { address: change.address, key: change.key };
        let wiped = self.storage_wipes.contains(&change.address);
        let zero_current = change.current.is_zero();
        match self.storage.get(&k) {
            Some(delta) => {
                let original = delta.original;
                if (wiped && zero_current) || (!wiped && original == change.current) {
                    self.storage.remove(&k);
                } else {
                    self.storage.insert(k, TrackedValue { original, current: change.current });
                }
            },
            None => {
                if !((wiped && zero_current) || (!wiped && change.original == change.current)) {
                    self.storage.insert(
                        k,
                        TrackedValue { original: change.original, current: change.current },
                    );
                }
            },
        }
        assert(self@.code =~= old(self)@.code);
    }
}

/// The block view after one change is folded into `v`.
pub open spec fn spec_on_event(v: BlockStateView, event: SinkEvent) -> BlockStateView {
    match event {
        SinkEvent::Bytecode { code_hash, code } => spec_on_bytecode(v, code_hash, code),
        SinkEvent::Account { change } => spec_on_account(v, change),
        SinkEvent::StorageWipe { address } => spec_on_storage_wipe(v, address),
        SinkEvent::Storage { change } => spec_on_storage(v, change),
    }
}

/// The block view after `events` are folded into `v`, in order.
pub open spec fn spec_fold_events(v: BlockStateView, events: Seq<SinkEvent>) -> BlockStateView
    decreases events.len(),
{
    if events.len() == 0 {
        v
    } else {
        spec_on_event(spec_fold_events(v, events.drop_last()), events.last())
    }
}

proof fn lemma_trace_folds(
    s0: BlockStateAccumulator,
    events: Seq<SinkEvent>,
    s1: BlockStateAccumulator,
    trace: Seq<BlockStateAccumulator>,
    answers: Seq<Result<(), Infallible>>,
    k: int,
)
    requires
        accepted_trace(s0, events, s1, trace, answers),
        0 <= k <= events.len(),
    ensures
        trace[k]@ == spec_fold_events(s0@, events.take(k)),
    decreases k,
{
    if k == 0 {
        assert(events.take(0) =~= Seq::<SinkEvent>::empty());
    } else {
        lemma_trace_folds(s0, events, s1, trace, answers, k - 1);
        assert(accepted_at(events, trace, answers, k - 1));
        assert(events.take(k).drop_last() =~= events.take(k - 1));
        assert(events.take(k).last() == events[k - 1]);
    }
}

/// Handing changes to an accumulator, every one accepted, leaves it holding exactly its former
/// view with each change folded in, in order.
pub proof fn law_accumulator_folds_events(s0: BlockStateAccumulator, events: Seq<SinkEvent>, s1: BlockStateAccumulator)
    requires
        runs_ok(s0, events, s1),
    ensures
        s1@ == spec_fold_events(s0@, events),
{
    let (trace, answers) = choose|trace: Seq<BlockStateAccumulator>, answers: Seq<Result<(), Infallible>>|
        #[trigger] accepted_trace(s0, events, s1, trace, answers);
    lemma_trace_folds(s0, events, s1, trace, answers, events.len() as int);
    assert(events.take(events.len() as int) =~= events);
}

impl StateChangeSink for BlockStateAccumulator {
    type Error = Infallible;

    /// Every change is accepted and folded in (see [`spec_on_bytecode`], [`spec_on_account`],
    /// [`spec_on_storage_wipe`] and [`spec_on_storage`]).
    open spec fn handles(&self, event: SinkEvent, next: Self, r: Result<(), Infallible>) -> bool {
        &&& r is Ok
        &&& next@ == match event {
            SinkEvent::Bytecode { code_hash, code } => spec_on_bytecode(self@, code_hash, code),
            SinkEvent::Account { change } => spec_on_account(self@, change),
            SinkEvent::StorageWipe { address } => spec_on_storage_wipe(self@, address),
            SinkEvent::Storage { change } => spec_on_storage(self@, change),
        }
    }

    fn bytecode(&mut self, code_hash: B256, code: &Bytecode) -> (r: Result<(), Infallible>)
        ensures
            r is Ok,
            final(self)@ == spec_on_bytecode(old(self)@, code_hash, code.bytes@),
    {
        self.record_bytecode(code_hash, code);
        Ok(())
    }

    fn account(&mut self, change: AccountChangeRef) -> (r: Result<(), Infallible>)
        ensures
            r is Ok,
            final(self)@ == spec_on_account(old(self)@, change),
    {
        self.record_account(change);
        Ok(())
    }

    fn storage_wipe(&mut self, address: Address) -> (r: Result<(), Infallible>)
        ensures
            r is Ok,
            final(self)@ == spec_on_storage_wipe(old(self)@, address),
    {
        self.record_storage_wipe(address);
        Ok(())
    }

    fn storage(&mut self, change: StorageChange) -> (r: Result<(), Infallible>)
        ensures
            r is Ok,
            final(self)@ == spec_on_storage(old(self)@, change),
    {
        self.record_storage(change);
        Ok(())
    }
}

/// The block's bytecode changes, one per code hash.
pub open spec fn block_code_events(v: BlockStateView) -> spec_fn(B256) -> Seq<SinkEvent> {
    |h: B256| seq![SinkEvent::Bytecode { code_hash: h, code: v.code[h] }]
}

/// The block's storage wipes, one per address.
pub open spec fn block_wipe_events() -> spec_fn(Address) -> Seq<SinkEvent> {
    |a: Address| seq![SinkEvent::StorageWipe { address: a }]
}

/// The block's slot deltas, one per slot.
pub open spec fn block_slot_events(v: BlockStateView) -> spec_fn(StorageKey) -> Seq<SinkEvent> {
    |k: StorageKey|
        seq![
            SinkEvent::Storage {
                change: StorageChange {
                    address: k.address,
                    key: k.key,
                    original: v.storage[k].original,
                    current: v.storage[k].current,
                },
            },
        ]
}

/// The block's account deltas, one per address.
pub open spec fn block_account_events(v: BlockStateView) -> spec_fn(Address) -> Seq<SinkEvent> {
    |a: Address|
        seq![
            SinkEvent::Account {
                change: AccountChangeRef { address: a, original: v.accounts[a].original, current: v.accounts[a].current },
            },
        ]
}

/// The accumulated changes in the order they are handed out: bytecode by hash, storage wipes by
/// address, slot deltas by address and slot, then account deltas by address.
pub open spec fn block_events(v: BlockStateView) -> Seq<SinkEvent> {
    flat(sorted_listing(v.code.dom()), block_code_events(v)) + flat(sorted_listing(v.storage_wipes), block_wipe_events())
        + flat(sorted_listing(v.storage.dom()), block_slot_events(v)) + flat(
        sorted_listing(v.accounts.dom()),
        block_account_events(v),
    )
}

impl StateChangeSource for BlockStateAccumulator {
    open spec fn events(&self) -> Seq<SinkEvent> {
        block_events(self@)
    }

    /// Hands the accumulated changes to `sink` in the order of [`block_events`]; stops at the
    /// first error.
    fn visit<S: StateChangeSink>(&self, sink: &mut S) -> (r: Result<(), S::Error>) {
        let ghost s0 = *sink;
        let ghost v = self@;
        let ghost events = self.events();
        let code = self.code.sorted_keys();
        let wipes = self.storage_wipes.sorted_elements();
        let slots = self.storage.sorted_keys();
        let accounts = self.accounts.sorted_keys();
        proof {
            assert(v.code.dom() =~= self.code@.dom());
            lemma_sorted_listing(code@);
            lemma_sorted_listing(wipes@);
            lemma_sorted_listing(slots@);
            lemma_sorted_listing(accounts@);
            lemma_runs_ok_empty(s0);
        }
        let ghost c_all = flat(code@, block_code_events(v));
        let ghost w_all = flat(wipes@, block_wipe_events());
        let ghost k_all = flat(slots@, block_slot_events(v));
        let ghost a_all = flat(accounts@, block_account_events(v));
        proof {
            assert(events == c_all + w_all + k_all + a_all);
            assert(code@.take(0) =~= Seq::<B256>::empty());
        }
        let mut i: usize = 0;
        while i < code.len()
            invariant
                i <= code@.len(),
                code@.to_set() == v.code.dom(),
                v == self@,
                events == self.events(),
                s0 == *old(sink),
                events == c_all + w_all + k_all + a_all,
                c_all == flat(code@, block_code_events(v)),
                runs_ok(s0, flat(code@.take(i as int), block_code_events(v)), *sink),
            decreases code@.len() - i,
        {
            let h = code[i];
            proof {
                assert(code@.to_set().contains(h));
                lemma_flat_step(code@, block_code_events(v), i as int);
                lemma_flat_prefix(code@, block_code_events(v), i + 1);
            }
            if let Some(c) = self.code.get(&h) {
                let ghost done = flat(code@.take(i as int), block_code_events(v));
                let ghost mid = *sink;
                let ghost e = SinkEvent::Bytecode { code_hash: h, code: c.bytes@ };
                let r = sink.bytecode(h, c);
                proof {
                    assert(flat(code@.take(i + 1), block_code_events(v)) =~= done.push(e));
                    lemma_prefix_within(Seq::empty(), done.push(e), c_all, w_all + k_all + a_all);
                    assert(Seq::<SinkEvent>::empty() + done.push(e) =~= done.push(e));
                    assert(Seq::<SinkEvent>::empty() + c_all + (w_all + k_all + a_all) =~= events);
                    lemma_visit_step(s0, done, mid, e, *sink, r, events);
                }
                if r.is_err() {
                    return r;
                }
            }
            i += 1;
        }
        proof {
            assert(code@.take(code@.len() as int) =~= code@);
            assert(wipes@.take(0) =~= Seq::<Address>::empty());
            assert(c_all + flat(wipes@.take(0), block_wipe_events()) =~= c_all);
        }
        let mut i: usize = 0;
        while i < wipes.len()
            invariant
                i <= wipes@.len(),
                events == self.events(),
                s0 == *old(sink),
                events == c_all + w_all + k_all + a_all,
                w_all == flat(wipes@, block_wipe_events()),
                runs_ok(s0, c_all + flat(wipes@.take(i as int), block_wipe_events()), *sink),
            decreases wipes@.len() - i,
        {
            let a = wipes[i];
            let ghost done = c_all + flat(wipes@.take(i as int), block_wipe_events());
            let ghost mid = *sink;
            let ghost e = SinkEvent::StorageWipe { address: a };
            let r = sink.storage_wipe(a);
            proof {
                lemma_flat_step(wipes@, block_wipe_events(), i as int);
                lemma_flat_prefix(wipes@, block_wipe_events(), i + 1);
                let p = flat(wipes@.take(i + 1), block_wipe_events());
                assert(p =~= flat(wipes@.take(i as int), block_wipe_events()).push(e));
                lemma_prefix_within(c_all, p, w_all, k_all + a_all);
                assert(c_all + p =~= done.push(e));
                assert(c_all + w_all + (k_all + a_all) =~= events);
                lemma_visit_step(s0, done, mid, e, *sink, r, events);
            }
            if r.is_err() {
                return r;
            }
            i += 1;
        }
        proof {
            assert(wipes@.take(wipes@.len() as int) =~= wipes@);
            assert(slots@.take(0) =~= Seq::<StorageKey>::empty());
            assert(c_all + w_all + flat(slots@.take(0), block_slot_events(v)) =~= c_all + w_all);
        }
        let mut i: usize = 0;
        while i < slots.len()
            invariant
                i <= slots@.len(),
                slots@.to_set() == v.storage.dom(),
                v == self@,
                events == self.events(),
                s0 == *old(sink),
                events == c_all + w_all + k_all + a_all,
                k_all == flat(slots@, block_slot_events(v)),
                runs_ok(s0, c_all + w_all + flat(slots@.take(i as int), block_slot_events(v)), *sink),
            decreases slots@.len() - i,
        {
            let k = slots[i];
            proof {
                assert(slots@.to_set().contains(k));
                lemma_flat_step(slots@, block_slot_events(v), i as int);
                lemma_flat_prefix(slots@, block_slot_events(v), i + 1);
            }
            if let Some(delta) = self.storage.get(&k) {
                let change = StorageChange {
                    address: k.address,
                    key: k.key,
                    original: delta.original,
                    current: delta.current,
                };
                let ghost done = c_all + w_all + flat(slots@.take(i as int), block_slot_events(v));
                let ghost mid = *sink;
                let ghost e = SinkEvent::Storage { change };
                let r = sink.storage(change);
                proof {
                    let p = flat(slots@.take(i + 1), block_slot_events(v));
                    assert(p =~= flat(slots@.take(i as int), block_slot_events(v)).push(e));
                    lemma_prefix_within(c_all + w_all, p, k_all, a_all);
                    assert(c_all + w_all + p =~= done.push(e));
                    lemma_visit_step(s0, done, mid, e, *sink, r, events);
                }
                if r.is_err() {
                    return r;
                }
            }
            i += 1;
        }
        proof {
            assert(slots@.take(slots@.len() as int) =~= slots@);
            assert(accounts@.take(0) =~= Seq::<Address>::empty());
            assert(c_all + w_all + k_all + flat(accounts@.take(0), block_account_events(v)) =~= c_all + w_all + k_all);
        }
        let mut i: usize = 0;
        while i < accounts.len()
            invariant
                i <= accounts@.len(),
                accounts@.to_set() == v.accounts.dom(),
                v == self@,
                events == self.events(),
                s0 == *old(sink),
                events == c_all + w_all + k_all + a_all,
                a_all == flat(accounts@, block_account_events(v)),
                runs_ok(s0, c_all + w_all + k_all + flat(accounts@.take(i as int), block_account_events(v)), *sink),
            decreases accounts@.len() - i,
        {
            let address = accounts[i];
            proof {
                assert(accounts@.to_set().contains(address));
                lemma_flat_step(accounts@, block_account_events(v), i as int);
                lemma_flat_prefix(accounts@, block_account_events(v), i + 1);
            }
            if let Some(delta) = self.accounts.get(&address) {
                let change = AccountChangeRef { address, original: delta.original, current: delta.current };
                let ghost done = c_all + w_all + k_all + flat(accounts@.take(i as int), block_account_events(v));
                let ghost mid = *sink;
                let ghost e = SinkEvent::Account { change };
                let r = sink.account(change);
                proof {
                    let p = flat(accounts@.take(i + 1), block_account_events(v));
                    assert(p =~= flat(accounts@.take(i as int), block_account_events(v)).push(e));
                    lemma_prefix_within(c_all + w_all + k_all, p, a_all, Seq::empty());
                    assert(c_all + w_all + k_all + a_all + Seq::<SinkEvent>::empty() =~= events);
                    assert(c_all + w_all + k_all + p =~= done.push(e));
                    lemma_visit_step(s0, done, mid, e, *sink, r, events);
                }
                if r.is_err() {
                    return r;
                }
            }
            i += 1;
        }
        proof {
            assert(accounts@.take(accounts@.len() as int) =~= accounts@);
        }
        Ok(())
    }
}

} // verus!
