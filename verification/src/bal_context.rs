//! Block access list state carried beside the database: an attached list consulted on reads,
//! and an optional builder that records committed transactions, both at a shared block access
//! index.

use vstd::prelude::*;
use crate::bal::{BalError, prefix_last, sorted_by_index};
use crate::bal_account::{
    AccountBal, AccountBalView, Bal, empty_account_view, info_histories_sorted, spec_account_update, spec_info_update,
    spec_populate_changes, spec_populated,
};
use crate::bytecode::Bytecode;
use crate::db::DbErrorCode;
use crate::primitives::{Address, B256, Word};
use crate::bal::spec_update;
use crate::bal_account::AccountInfoBalView;
use crate::state::{
    AccountChange, AccountChangeRef, AccountInfo, SinkEvent, StateChangeSink, StateChanges, StorageChange, TrackedValue,
};
use crate::vecmap::VecMap;
use core::convert::Infallible;

verus! {

/// The account fields a block access list supplies at a read position; `None` means the field
/// comes from the backing account, not that it is zero or empty.
#[derive(Clone, Copy, Debug, PartialEq, Eq, Structural)]
pub struct BalAccountInfo {
    pub balance: Option<Word>,
    pub nonce: Option<u64>,
    pub code_hash: Option<B256>,
}

impl BalAccountInfo {
    /// No field is known.
    pub fn is_empty(&self) -> (r: bool)
        ensures
            r == (self.balance is None && self.nonce is None && self.code_hash is None),
    {
        self.balance.is_none() && self.nonce.is_none() && self.code_hash.is_none()
    }

    /// Every field is known.
    pub fn is_complete(&self) -> (r: bool)
        ensures
            r == (self.balance is Some && self.nonce is Some && self.code_hash is Some),
    {
        self.balance.is_some() && self.nonce.is_some() && self.code_hash.is_some()
    }
}

/// Account information available from a block access list at the read position.
#[derive(Debug, PartialEq, Eq)]
pub enum BalAccountLookup {
    /// Every field is known: the account info and the bytecode of its code hash.
    Complete { info: AccountInfo, code: Bytecode },
    /// Only the given fields are known.
    Partial(BalAccountInfo),
    /// No list is attached, or the account is missing and database fallback is enabled.
    NotCovered,
}

/// The attached list, the builder, the block access index, the fallback switch and the last
/// lookup error.
pub struct BalContext {
    bal: Option<Bal>,
    bal_builder: Option<Bal>,
    bal_index: u64,
    allow_db_fallback: bool,
    bal_error: Option<BalError>,
}

/// The builder after recording every account change of `changes` at `bal_index`.
pub open spec fn committed_accounts(
    accounts: Map<Address, AccountBalView>,
    bal_index: u64,
    changes: StateChanges,
) -> Map<Address, AccountBalView> {
    Map::new(
        |a: Address| accounts.contains_key(a) || changes.accounts_view().contains_key(a),
        |a: Address|
            if changes.accounts_view().contains_key(a) {
                spec_account_update(
                    if accounts.contains_key(a) {
                        accounts[a]
                    } else {
                        empty_account_view()
                    },
                    bal_index,
                    changes.accounts_view()[a],
                )
            } else {
                accounts[a]
            },
    )
}

impl BalContext {
    pub closed spec fn spec_bal(&self) -> Option<Bal> {
        self.bal
    }

    pub closed spec fn spec_builder(&self) -> Option<Bal> {
        self.bal_builder
    }

    pub closed spec fn spec_index(&self) -> u64 {
        self.bal_index
    }

    pub closed spec fn spec_fallback(&self) -> bool {
        self.allow_db_fallback
    }

    pub closed spec fn spec_error(&self) -> Option<BalError> {
        self.bal_error
    }

    /// A context with no attached list, no builder, index zero, no fallback and no error.
    pub fn new() -> (r: BalContext)
        ensures
            r.spec_bal() is None,
            r.spec_builder() is None,
            r.spec_index() == 0,
            !r.spec_fallback(),
            r.spec_error() is None,
    {
        BalContext {
            bal: None,
            bal_builder: None,
            bal_index: 0,
            allow_db_fallback: false,
            bal_error: None,
        }
    }

    /// The context with `bal` attached for reads.
    pub fn with_bal(self, bal: Bal) -> (r: BalContext)
        ensures
            r.spec_bal() == Some(bal),
            r.spec_builder() == self.spec_builder(),
            r.spec_index() == self.spec_index(),
            r.spec_fallback() == self.spec_fallback(),
            r.spec_error() == self.spec_error(),
    {
        BalContext { bal: Some(bal), ..self }
    }

    /// Attaches `bal` for reads.
    pub fn set_bal(&mut self, bal: Bal)
        ensures
            final(self).spec_bal() == Some(bal),
            final(self).spec_builder() == old(self).spec_builder(),
            final(self).spec_index() == old(self).spec_index(),
            final(self).spec_fallback() == old(self).spec_fallback(),
            final(self).spec_error() == old(self).spec_error(),
    {
        self.bal = Some(bal);
    }

    /// The attached list, if any.
    pub fn bal(&self) -> (r: Option<&Bal>)
        ensures
            match r {
                Some(b) => self.spec_bal() == Some(*b),
                None => self.spec_bal() is None,
            },
    {
        self.bal.as_ref()
    }

    /// Detaches the read list, so reads resolve from the database again.
    pub fn clear_bal(&mut self)
        ensures
            final(self).spec_bal() is None,
            final(self).spec_builder() == old(self).spec_builder(),
            final(self).spec_index() == old(self).spec_index(),
            final(self).spec_fallback() == old(self).spec_fallback(),
            final(self).spec_error() == old(self).spec_error(),
    {
        self.bal = None;
    }

    /// The context with uncovered reads falling back to the database when `allow` holds.
    pub fn with_allow_db_fallback(self, allow: bool) -> (r: BalContext)
        ensures
            r.spec_fallback() == allow,
            r.spec_bal() == self.spec_bal(),
            r.spec_builder() == self.spec_builder(),
            r.spec_index() == self.spec_index(),
            r.spec_error() == self.spec_error(),
    {
        BalContext { allow_db_fallback: allow, ..self }
    }

    /// Sets whether uncovered reads fall back to the database.
    pub fn set_allow_db_fallback(&mut self, allow: bool)
        ensures
            final(self).spec_fallback() == allow,
            final(self).spec_bal() == old(self).spec_bal(),
            final(self).spec_builder() == old(self).spec_builder(),
            final(self).spec_index() == old(self).spec_index(),
            final(self).spec_error() == old(self).spec_error(),
    {
        self.allow_db_fallback = allow;
    }

    /// The context with an empty builder installed.
    pub fn with_bal_builder(self) -> (r: BalContext)
        ensures
            r.spec_builder() is Some,
            r.spec_builder()->0.accounts_view() == Map::<Address, AccountBalView>::empty(),
            r.spec_bal() == self.spec_bal(),
            r.spec_index() == self.spec_index(),
            r.spec_fallback() == self.spec_fallback(),
            r.spec_error() == self.spec_error(),
    {
        BalContext { bal_builder: Some(Bal::new()), ..self }
    }

    /// Installs an empty builder.
    pub fn enable_bal_builder(&mut self)
        ensures
            final(self).spec_builder() is Some,
            final(self).spec_builder()->0.accounts_view() == Map::<Address, AccountBalView>::empty(),
            final(self).spec_bal() == old(self).spec_bal(),
            final(self).spec_index() == old(self).spec_index(),
            final(self).spec_fallback() == old(self).spec_fallback(),
            final(self).spec_error() == old(self).spec_error(),
    {
        self.bal_builder = Some(Bal::new());
    }

    /// The builder, if construction is enabled.
    pub fn bal_builder(&self) -> (r: Option<&Bal>)
        ensures
            match r {
                Some(b) => self.spec_builder() == Some(*b),
                None => self.spec_builder() is None,
            },
    {
        self.bal_builder.as_ref()
    }

    /// Whether construction is enabled.
    pub fn has_builder(&self) -> (r: bool)
        ensures
            r == self.spec_builder() is Some,
    {
        self.bal_builder.is_some()
    }

    /// The block access index.
    pub fn bal_index(&self) -> (r: u64)
        ensures
            r == self.spec_index(),
    {
        self.bal_index
    }

    /// Resets the index to the pre-execution position, zero.
    pub fn reset_bal_index(&mut self)
        ensures
            final(self).spec_index() == 0,
            final(self).spec_bal() == old(self).spec_bal(),
            final(self).spec_builder() == old(self).spec_builder(),
            final(self).spec_fallback() == old(self).spec_fallback(),
            final(self).spec_error() == old(self).spec_error(),
    {
        self.bal_index = 0;
    }

    /// Sets the index.
    pub fn set_bal_index(&mut self, index: u64)
        ensures
            final(self).spec_index() == index,
            final(self).spec_bal() == old(self).spec_bal(),
            final(self).spec_builder() == old(self).spec_builder(),
            final(self).spec_fallback() == old(self).spec_fallback(),
            final(self).spec_error() == old(self).spec_error(),
    {
        self.bal_index = index;
    }

    /// Moves the index to the next transaction.
    pub fn bump_bal_index(&mut self)
        requires
            old(self).spec_index() < u64::MAX,
        ensures
            final(self).spec_index() == old(self).spec_index() + 1,
            final(self).spec_bal() == old(self).spec_bal(),
            final(self).spec_builder() == old(self).spec_builder(),
            final(self).spec_fallback() == old(self).spec_fallback(),
            final(self).spec_error() == old(self).spec_error(),
    {
        self.bal_index = self.bal_index + 1;
    }

    /// Records every account change of a committed transaction into the builder at the current
    /// index; nothing happens when construction is disabled.
    pub fn commit_pending(&mut self, pending: &StateChanges)
        ensures
            final(self).spec_bal() == old(self).spec_bal(),
            final(self).spec_index() == old(self).spec_index(),
            final(self).spec_fallback() == old(self).spec_fallback(),
            final(self).spec_error() == old(self).spec_error(),
            old(self).spec_builder() is None ==> final(self).spec_builder() is None,
            old(self).spec_builder() is Some ==> final(self).spec_builder() is Some
                && final(self).spec_builder()->0.accounts_view() == committed_accounts(
                old(self).spec_builder()->0.accounts_view(),
                old(self).spec_index(),
                *pending,
            ),
    {
        let index = self.bal_index;
        let mut builder = match self.bal_builder.take() {
            Some(b) => b,
            None => {
                return;
            },
        };
        let ghost start = builder.accounts_view();
        let addresses = pending.accounts.keys();
        let mut i: usize = 0;
        while i < addresses.len()
            invariant
                i <= addresses@.len(),
                addresses@.no_duplicates(),
                addresses@.to_set() == pending.accounts@.dom(),
                forall|a: Address| #[trigger] builder.accounts_view().contains_key(a) <==> (
                start.contains_key(a) || addresses@.take(i as int).contains(a)),
                forall|a: Address|
                    #[trigger] builder.accounts_view().contains_key(a) ==> builder.accounts_view()[a]
                        == if addresses@.take(i as int).contains(a) {
                        committed_accounts(start, index, *pending)[a]
                    } else {
                        start[a]
                    },
            decreases addresses@.len() - i,
        {
            let a = addresses[i];
            proof {
                assert(addresses@.to_set().contains(a));
                if addresses@.take(i as int).contains(a) {
                    let m = choose|m: int| 0 <= m < i && #[trigger] addresses@.take(i as int)[m] == a;
                    assert(addresses@[m] == addresses@[i as int]);
                }
            }
            match pending.accounts.get(&a) {
                Some(change) => {
                    builder.update_account(index, a, change);
                },
                None => {
                    proof {
                        assert(false);
                    }
                },
            }
            proof {
                assert(addresses@.take(i + 1) =~= addresses@.take(i as int).push(a));
                assert forall|x: Address| #[trigger] addresses@.take(i + 1).contains(x) <==> (
                addresses@.take(i as int).contains(x) || x == a) by {
                    if addresses@.take(i + 1).contains(x) && x != a {
                        let m = choose|m: int| 0 <= m < i + 1 && #[trigger] addresses@.take(i + 1)[m] == x;
                        assert(addresses@.take(i as int)[m] == x);
                    }
                    if addresses@.take(i as int).contains(x) {
                        let m = choose|m: int| 0 <= m < i && #[trigger] addresses@.take(i as int)[m] == x;
                        assert(addresses@.take(i + 1)[m] == x);
                    }
                    if x == a {
                        assert(addresses@.take(i + 1)[i as int] == x);
                    }
                }
                assert(pending.accounts_view().contains_key(a));
            }
            i += 1;
        }
        proof {
            assert(addresses@.take(addresses@.len() as int) =~= addresses@);
            assert forall|a: Address| pending.accounts_view().contains_key(a) implies addresses@.contains(a) by {
                assert(addresses@.to_set().contains(a));
            }
            assert(builder.accounts_view() =~= committed_accounts(start, index, *pending));
        }
        self.bal_builder = Some(builder);
    }

    /// Takes the builder, resetting the index to zero.
    pub fn take_bal_builder(&mut self) -> (r: Option<Bal>)
        ensures
            r == old(self).spec_builder(),
            final(self).spec_builder() is None,
            final(self).spec_index() == 0,
            final(self).spec_bal() == old(self).spec_bal(),
            final(self).spec_fallback() == old(self).spec_fallback(),
            final(self).spec_error() == old(self).spec_error(),
    {
        self.bal_index = 0;
        self.bal_builder.take()
    }

    /// The attached list's entry for `address`: `Ok(None)` when no list is attached, or when
    /// the account is missing and fallback is enabled; `AccountNotFound` when it is missing and
    /// fallback is disabled.
    pub fn get_bal_account(&self, address: &Address) -> (r: Result<Option<&AccountBal>, BalError>)
        ensures
            match self.spec_bal() {
                None => r == Ok::<Option<&AccountBal>, BalError>(None),
                Some(bal) => if bal.accounts@.contains_key(*address) {
                    r == Ok::<Option<&AccountBal>, BalError>(Some(&bal.accounts@[*address]))
                } else if self.spec_fallback() {
                    r == Ok::<Option<&AccountBal>, BalError>(None)
                } else {
                    r == Err::<Option<&AccountBal>, BalError>(BalError::AccountNotFound { address: *address })
                },
            },
    {
        match &self.bal {
            None => Ok(None),
            Some(bal) => match bal.accounts.get(address) {
                Some(bal_account) => Ok(Some(bal_account)),
                None => {
                    if self.allow_db_fallback {
                        Ok(None)
                    } else {
                        Err(BalError::AccountNotFound { address: *address })
                    }
                },
            },
        }
    }

    /// The account fields written strictly before the current index: `Complete` when balance,
    /// nonce and code hash are all written (with the bytecode of the hash, empty when the list
    /// holds none), else `Partial` with the written fields; `NotCovered` when no list is
    /// attached or the account is missing with fallback enabled; `AccountNotFound` when it is
    /// missing with fallback disabled.
    pub fn get_bal_account_info(&self, address: &Address) -> (r: Result<BalAccountLookup, BalError>)
        ensures
            match self.spec_bal() {
                None => r == Ok::<BalAccountLookup, BalError>(BalAccountLookup::NotCovered),
                Some(bal) => if !bal.accounts@.contains_key(*address) {
                    if self.spec_fallback() {
                        r == Ok::<BalAccountLookup, BalError>(BalAccountLookup::NotCovered)
                    } else {
                        r == Err::<BalAccountLookup, BalError>(BalError::AccountNotFound { address: *address })
                    }
                } else {
                    let v = bal.accounts@[*address]@.account_info;
                    info_histories_sorted(v) ==> {
                        let balance = prefix_last(v.balance, self.spec_index());
                        let nonce = prefix_last(v.nonce, self.spec_index());
                        let code_hash = prefix_last(v.code, self.spec_index());
                        match r {
                            Ok(BalAccountLookup::Complete { info, code }) => {
                                &&& balance is Some && nonce is Some && code_hash is Some
                                &&& info == (AccountInfo { balance: balance->0, nonce: nonce->0, code_hash: code_hash->0 })
                                &&& code.bytes@ == if v.code_bytes.contains_key(code_hash->0) {
                                    v.code_bytes[code_hash->0]
                                } else {
                                    Seq::empty()
                                }
                            },
                            Ok(BalAccountLookup::Partial(p)) => {
                                &&& !(balance is Some && nonce is Some && code_hash is Some)
                                &&& p == (BalAccountInfo { balance, nonce, code_hash })
                            },
                            _ => false,
                        }
                    }
                },
            },
    {
        let account = match self.get_bal_account(address) {
            Ok(Some(a)) => a,
            Ok(None) => {
                return Ok(BalAccountLookup::NotCovered);
            },
            Err(e) => {
                return Err(e);
            },
        };
        let info = &account.account_info;
        let balance = info.balance.get(self.bal_index);
        let nonce = info.nonce.get(self.bal_index);
        let code_hash = info.code.get(self.bal_index);
        match (balance, nonce, code_hash) {
            (Some(b), Some(n), Some(h)) => {
                let code = match info.code_bytes.get(&h) {
                    Some(c) => c.duplicate(),
                    None => Bytecode::new(),
                };
                proof {
                    if !info.code_bytes@.contains_key(h) {
                        assert(code.bytes@ =~= Seq::<u8>::empty());
                    }
                }
                Ok(BalAccountLookup::Complete { info: AccountInfo { balance: b, nonce: n, code_hash: h }, code })
            },
            _ => Ok(BalAccountLookup::Partial(BalAccountInfo { balance, nonce, code_hash })),
        }
    }

    /// Applies the list's writes before the current index to `account`: a missing account with
    /// no write stays missing; otherwise the account (taken as empty when missing) gets each
    /// written field.
    pub fn populate_bal_account(&self, bal_account: &AccountBal, account: &mut Option<AccountInfo>)
        ensures
            info_histories_sorted(bal_account@.account_info) ==> {
                let v = bal_account@.account_info;
                let base = match *old(account) {
                    Some(i) => i,
                    None => AccountInfo::spec_default(),
                };
                *final(account) == if *old(account) is Some || spec_populate_changes(v, self.spec_index()) {
                    Some(spec_populated(v, self.spec_index(), base))
                } else {
                    None
                }
            },
    {
        let was_present = account.is_some();
        let mut info = match account.take() {
            Some(i) => i,
            None => AccountInfo::default(),
        };
        let changed = bal_account.populate_account_info(self.bal_index, &mut info);
        if changed || was_present {
            *account = Some(info);
        }
    }

    /// The slot's write strictly before the current index: `Ok(Some(v))` when there is one;
    /// `Ok(None)` when no list is attached, when the slot is listed with no such write, or when
    /// the account or slot is missing and fallback is enabled; `AccountNotFound` or
    /// `SlotNotFound` when missing with fallback disabled.
    pub fn bal_storage(&self, address: &Address, key: &Word) -> (r: Result<Option<Word>, BalError>)
        ensures
            match self.spec_bal() {
                None => r == Ok::<Option<Word>, BalError>(None),
                Some(bal) => if !bal.accounts_view().contains_key(*address) {
                    if self.spec_fallback() {
                        r == Ok::<Option<Word>, BalError>(None)
                    } else {
                        r == Err::<Option<Word>, BalError>(BalError::AccountNotFound { address: *address })
                    }
                } else if !bal.accounts_view()[*address].storage.contains_key(*key) {
                    if self.spec_fallback() {
                        r == Ok::<Option<Word>, BalError>(None)
                    } else {
                        r == Err::<Option<Word>, BalError>(BalError::SlotNotFound { address: *address, slot: *key })
                    }
                } else {
                    sorted_by_index(bal.accounts_view()[*address].storage[*key]) ==> r == Ok::<Option<Word>, BalError>(
                        prefix_last(bal.accounts_view()[*address].storage[*key], self.spec_index()),
                    )
                },
            },
    {
        match &self.bal {
            None => Ok(None),
            Some(bal) => match bal.storage(address, *key, self.bal_index) {
                Ok(v) => Ok(v),
                Err(BalError::AccountNotFound { address: a }) => {
                    if self.allow_db_fallback {
                        Ok(None)
                    } else {
                        Err(BalError::AccountNotFound { address: a })
                    }
                },
                Err(e) => {
                    if self.allow_db_fallback {
                        Ok(None)
                    } else {
                        Err(e)
                    }
                },
            },
        }
    }

    /// Stashes a lookup error for [`BalContext::take_bal_error`] and returns the not-covered
    /// database error code.
    pub fn store_error(&mut self, err: BalError) -> (r: DbErrorCode)
        ensures
            r == DbErrorCode::spec_bal_not_covered(),
            final(self).spec_error() == Some(err),
            final(self).spec_bal() == old(self).spec_bal(),
            final(self).spec_builder() == old(self).spec_builder(),
            final(self).spec_index() == old(self).spec_index(),
            final(self).spec_fallback() == old(self).spec_fallback(),
    {
        self.bal_error = Some(err);
        DbErrorCode::bal_not_covered()
    }

    /// Takes the stashed lookup error, if a read left one.
    pub fn take_bal_error(&mut self) -> (r: Option<BalError>)
        ensures
            r == old(self).spec_error(),
            final(self).spec_error() is None,
            final(self).spec_bal() == old(self).spec_bal(),
            final(self).spec_builder() == old(self).spec_builder(),
            final(self).spec_index() == old(self).spec_index(),
            final(self).spec_fallback() == old(self).spec_fallback(),
    {
        self.bal_error.take()
    }
}

/// The builder's entry for `address`: its listed data, or empty data when it is not listed.
pub open spec fn entry_or_empty(accounts: Map<Address, AccountBalView>, address: Address) -> AccountBalView {
    if accounts.contains_key(address) {
        accounts[address]
    } else {
        empty_account_view()
    }
}

/// The account-info histories after a streamed account change at `bal_index`; an account that
/// did not exist, or no longer exists, counts as empty.
pub open spec fn streamed_info_update(
    v: AccountInfoBalView,
    bal_index: u64,
    change: AccountChangeRef,
) -> AccountInfoBalView {
    spec_info_update(
        v,
        bal_index,
        match change.original {
            Some(i) => i,
            None => AccountInfo::spec_default(),
        },
        match change.current {
            Some(i) => i,
            None => AccountInfo::spec_default(),
        },
        None,
    )
}

/// The builder after a streamed account change: the account is listed and its account-info
/// histories record the change; its storage histories stay as they were.
pub open spec fn streamed_account(
    accounts: Map<Address, AccountBalView>,
    bal_index: u64,
    change: AccountChangeRef,
) -> Map<Address, AccountBalView> {
    let prev = entry_or_empty(accounts, change.address);
    accounts.insert(
        change.address,
        AccountBalView {
            account_info: streamed_info_update(prev.account_info, bal_index, change),
            storage: prev.storage,
        },
    )
}

/// The builder after a streamed slot change: the account and the slot are listed, and the
/// slot's history records the change from `original` to `current`.
pub open spec fn streamed_storage(
    accounts: Map<Address, AccountBalView>,
    bal_index: u64,
    change: StorageChange,
) -> Map<Address, AccountBalView> {
    let prev = entry_or_empty(accounts, change.address);
    let h = if prev.storage.contains_key(change.key) {
        prev.storage[change.key]
    } else {
        Seq::empty()
    };
    accounts.insert(
        change.address,
        AccountBalView {
            account_info: prev.account_info,
            storage: prev.storage.insert(change.key, spec_update(h, bal_index, change.original, change.current)),
        },
    )
}

/// Streamed changes fold into the builder at the current index, as a committed transaction
/// does: account changes update the account-info histories, slot changes the slot histories.
/// Bytecode and storage wipes need nothing here. Nothing is recorded when construction is
/// disabled.
impl StateChangeSink for BalContext {
    type Error = Infallible;

    /// Every change is accepted and the list, index, fallback and error stay; an account change
    /// or slot change is folded into the builder when there is one (see [`streamed_account`] and
    /// [`streamed_storage`]); bytecode and storage wipes leave the builder as it was.
    open spec fn handles(&self, event: SinkEvent, next: Self, r: Result<(), Infallible>) -> bool {
        &&& r is Ok
        &&& next.spec_bal() == self.spec_bal()
        &&& next.spec_index() == self.spec_index()
        &&& next.spec_fallback() == self.spec_fallback()
        &&& next.spec_error() == self.spec_error()
        &&& match event {
            SinkEvent::Account { change } => {
                &&& self.spec_builder() is None ==> next.spec_builder() is None
                &&& self.spec_builder() is Some ==> next.spec_builder() is Some
                    && next.spec_builder()->0.accounts_view() == streamed_account(
                    self.spec_builder()->0.accounts_view(),
                    self.spec_index(),
                    change,
                )
            },
            SinkEvent::Storage { change } => {
                &&& self.spec_builder() is None ==> next.spec_builder() is None
                &&& self.spec_builder() is Some ==> next.spec_builder() is Some
                    && next.spec_builder()->0.accounts_view() == streamed_storage(
                    self.spec_builder()->0.accounts_view(),
                    self.spec_index(),
                    change,
                )
            },
            _ => next.spec_builder() == self.spec_builder(),
        }
    }

    fn bytecode(&mut self, code_hash: B256, code: &Bytecode) -> (r: Result<(), Infallible>) {
        Ok(())
    }

    fn storage_wipe(&mut self, address: Address) -> (r: Result<(), Infallible>) {
        Ok(())
    }

    fn account(&mut self, change: AccountChangeRef) -> (r: Result<(), Infallible>)
        ensures
            r is Ok,
            final(self).spec_bal() == old(self).spec_bal(),
            final(self).spec_index() == old(self).spec_index(),
            final(self).spec_fallback() == old(self).spec_fallback(),
            final(self).spec_error() == old(self).spec_error(),
            old(self).spec_builder() is None ==> final(self).spec_builder() is None,
            old(self).spec_builder() is Some ==> final(self).spec_builder() is Some
                && final(self).spec_builder()->0.accounts_view() == streamed_account(
                old(self).spec_builder()->0.accounts_view(),
                old(self).spec_index(),
                change,
            ),
    {
        let index = self.bal_index;
        if let Some(mut builder) = self.bal_builder.take() {
            let ghost start = builder.accounts_view();
            let record = AccountChange {
                original: change.original,
                current: change.current,
                code: None,
                storage: VecMap::new(),
                wipe_storage: false,
                created: false,
                selfdestructed: false,
            };
            builder.update_account(index, change.address, &record);
            proof {
                let prev = entry_or_empty(start, change.address);
                assert(crate::bal_account::pending_histories(prev.storage, index, false, record@.storage)
                    =~= prev.storage);
                assert(builder.accounts_view() =~= streamed_account(start, index, change));
            }
            self.bal_builder = Some(builder);
        }
        Ok(())
    }

    fn storage(&mut self, change: StorageChange) -> (r: Result<(), Infallible>)
        ensures
            r is Ok,
            final(self).spec_bal() == old(self).spec_bal(),
            final(self).spec_index() == old(self).spec_index(),
            final(self).spec_fallback() == old(self).spec_fallback(),
            final(self).spec_error() == old(self).spec_error(),
            old(self).spec_builder() is None ==> final(self).spec_builder() is None,
            old(self).spec_builder() is Some ==> final(self).spec_builder() is Some
                && final(self).spec_builder()->0.accounts_view() == streamed_storage(
                old(self).spec_builder()->0.accounts_view(),
                old(self).spec_index(),
                change,
            ),
    {
        let index = self.bal_index;
        if let Some(mut builder) = self.bal_builder.take() {
            let ghost start = builder.accounts_view();
            let mut entry = match builder.accounts.remove(&change.address) {
                Some(e) => e,
                None => AccountBal::new(),
            };
            let mut slots: VecMap<Word, TrackedValue<Word>> = VecMap::new();
            slots.insert(change.key, TrackedValue::from_parts(change.original, change.current));
            let ghost before = entry@;
            entry.storage.update_slots(index, false, &slots);
            builder.accounts.insert(change.address, entry);
            proof {
                let prev = entry_or_empty(start, change.address);
                assert(before == prev);
                assert(crate::bal_account::histories(entry.storage) =~= streamed_storage(start, index, change)[change.address].storage);
                assert(builder.accounts_view() =~= streamed_storage(start, index, change));
            }
            self.bal_builder = Some(builder);
        }
        Ok(())
    }
}

} // verus!
