//! A database that serves reads through an attached block access list: account fields and slots
//! written before the current block access index come from the list, the rest from the cache
//! database beneath it.

use vstd::prelude::*;
use crate::bal::{BalError, prefix_last, sorted_by_index};
use crate::bal_account::{Bal, info_histories_sorted, spec_populate_changes, spec_populated};
use crate::bal_context::{BalContext, committed_accounts};
use crate::bytecode::Bytecode;
use crate::db::{CacheDB, DbErrorCode, DbResult};
use crate::primitives::{Address, B256, Word};
use crate::state::{AccountInfo, StateChangeSource, StateChanges, runs_ok};

verus! {

/// The account as a database beneath a block access list reports it, after the list's writes
/// before the read position are applied: a missing account with no write stays missing.
pub open spec fn bal_layered_account(
    raw: Option<AccountInfo>,
    ctx: BalContext,
    address: Address,
) -> Option<AccountInfo> {
    let bal = ctx.spec_bal()->0;
    let v = bal.accounts@[address]@.account_info;
    let base = match raw {
        Some(i) => i,
        None => AccountInfo::spec_default(),
    };
    if raw is Some || spec_populate_changes(v, ctx.spec_index()) {
        Some(spec_populated(v, ctx.spec_index(), base))
    } else {
        None
    }
}

/// A cache database with block access list state.
pub struct BalDatabase {
    /// The list read and build state.
    pub bal_context: BalContext,
    /// The database beneath.
    pub db: CacheDB,
}

impl BalDatabase {
    /// A wrapper over `db` with no list attached and no builder.
    pub fn new(db: CacheDB) -> (r: BalDatabase)
        ensures
            r.db == db,
            r.bal_context.spec_bal() is None,
            r.bal_context.spec_builder() is None,
            r.bal_context.spec_index() == 0,
            !r.bal_context.spec_fallback(),
            r.bal_context.spec_error() is None,
    {
        BalDatabase { bal_context: BalContext::new(), db }
    }

    /// The wrapper with `bal` attached for reads.
    pub fn with_bal(self, bal: Bal) -> (r: BalDatabase)
        ensures
            r.db == self.db,
            r.bal_context.spec_bal() == Some(bal),
            r.bal_context.spec_builder() == self.bal_context.spec_builder(),
            r.bal_context.spec_index() == self.bal_context.spec_index(),
            r.bal_context.spec_fallback() == self.bal_context.spec_fallback(),
            r.bal_context.spec_error() == self.bal_context.spec_error(),
    {
        BalDatabase { bal_context: self.bal_context.with_bal(bal), db: self.db }
    }

    /// The wrapper with list building enabled.
    pub fn with_bal_builder(self) -> (r: BalDatabase)
        ensures
            r.db == self.db,
            r.bal_context.spec_builder() is Some,
            r.bal_context.spec_bal() == self.bal_context.spec_bal(),
            r.bal_context.spec_index() == self.bal_context.spec_index(),
            r.bal_context.spec_fallback() == self.bal_context.spec_fallback(),
    {
        BalDatabase { bal_context: self.bal_context.with_bal_builder(), db: self.db }
    }

    /// Commits a transaction's changes: the builder records them at the current index, then the
    /// database beneath applies them.
    pub fn commit(&mut self, changes: &StateChanges)
        ensures
            final(self).bal_context.spec_bal() == old(self).bal_context.spec_bal(),
            final(self).bal_context.spec_index() == old(self).bal_context.spec_index(),
            final(self).bal_context.spec_fallback() == old(self).bal_context.spec_fallback(),
            final(self).bal_context.spec_error() == old(self).bal_context.spec_error(),
            old(self).bal_context.spec_builder() is None ==> final(self).bal_context.spec_builder() is None,
            old(self).bal_context.spec_builder() is Some ==> final(self).bal_context.spec_builder() is Some
                && final(self).bal_context.spec_builder()->0.accounts_view() == committed_accounts(
                old(self).bal_context.spec_builder()->0.accounts_view(),
                old(self).bal_context.spec_index(),
                *changes,
            ),
            runs_ok(old(self).db, changes.events(), final(self).db),
    {
        self.bal_context.commit_pending(changes);
        self.db.commit_source(changes);
    }

    /// Stashes `err` and returns the not-covered code.
    fn refuse(&mut self, err: BalError) -> (r: DbErrorCode)
        ensures
            r == DbErrorCode::spec_bal_not_covered(),
            final(self).db == old(self).db,
            final(self).bal_context.spec_error() == Some(err),
            final(self).bal_context.spec_bal() == old(self).bal_context.spec_bal(),
            final(self).bal_context.spec_builder() == old(self).bal_context.spec_builder(),
            final(self).bal_context.spec_index() == old(self).bal_context.spec_index(),
            final(self).bal_context.spec_fallback() == old(self).bal_context.spec_fallback(),
    {
        self.bal_context.store_error(err)
    }

    /// Loads an account: the database's account with the list's writes before the current index
    /// applied. With a list attached, an account the list does not cover is an error (stashed as
    /// `AccountNotFound`, reported as the not-covered code) unless fallback is enabled, in which
    /// case the database's account is returned.
    pub fn get_account(&mut self, address: &Address) -> (r: DbResult<Option<AccountInfo>>)
        requires
            old(self).db.wf(),
        ensures
            final(self).db.wf(),
            final(self).db.same_reads(&old(self).db),
            final(self).bal_context.spec_bal() == old(self).bal_context.spec_bal(),
            final(self).bal_context.spec_builder() == old(self).bal_context.spec_builder(),
            final(self).bal_context.spec_index() == old(self).bal_context.spec_index(),
            final(self).bal_context.spec_fallback() == old(self).bal_context.spec_fallback(),
            ({
                let ctx = old(self).bal_context;
                let raw = old(self).db.spec_account(*address);
                match ctx.spec_bal() {
                    None => r == Ok::<Option<AccountInfo>, DbErrorCode>(raw),
                    Some(bal) => if !bal.accounts@.contains_key(*address) {
                        if ctx.spec_fallback() {
                            r == Ok::<Option<AccountInfo>, DbErrorCode>(raw)
                        } else {
                            &&& r == Err::<Option<AccountInfo>, DbErrorCode>(DbErrorCode::spec_bal_not_covered())
                            &&& final(self).bal_context.spec_error() == Some(BalError::AccountNotFound { address: *address })
                        }
                    } else {
                        info_histories_sorted(bal.accounts@[*address]@.account_info) ==> r == Ok::<
                            Option<AccountInfo>,
                            DbErrorCode,
                        >(bal_layered_account(raw, ctx, *address))
                    },
                }
            }),
    {
        let mut account = match self.db.get_account(address) {
            Ok(a) => a,
            Err(code) => {
                return Err(code);
            },
        };
        match self.bal_context.get_bal_account(address) {
            Ok(Some(bal_account)) => {
                self.bal_context.populate_bal_account(bal_account, &mut account);
                Ok(account)
            },
            Ok(None) => Ok(account),
            Err(e) => Err(self.refuse(e)),
        }
    }

    /// Loads a slot: the list's write before the current index when there is one, else the
    /// database's slot. With a list attached, a slot the list does not cover (its account
    /// missing, or the slot not listed under it) is an error (stashed, reported as the
    /// not-covered code) unless fallback is enabled.
    pub fn get_storage(&mut self, address: &Address, key: &Word) -> (r: DbResult<Word>)
        requires
            old(self).db.wf(),
        ensures
            final(self).db.wf(),
            final(self).db.same_reads(&old(self).db),
            final(self).bal_context.spec_bal() == old(self).bal_context.spec_bal(),
            final(self).bal_context.spec_builder() == old(self).bal_context.spec_builder(),
            final(self).bal_context.spec_index() == old(self).bal_context.spec_index(),
            final(self).bal_context.spec_fallback() == old(self).bal_context.spec_fallback(),
            ({
                let ctx = old(self).bal_context;
                let raw = old(self).db.spec_storage(*address, *key);
                match ctx.spec_bal() {
                    None => r == Ok::<Word, DbErrorCode>(raw),
                    Some(bal) => if !bal.accounts_view().contains_key(*address) {
                        if ctx.spec_fallback() {
                            r == Ok::<Word, DbErrorCode>(raw)
                        } else {
                            &&& r == Err::<Word, DbErrorCode>(DbErrorCode::spec_bal_not_covered())
                            &&& final(self).bal_context.spec_error() == Some(BalError::AccountNotFound { address: *address })
                        }
                    } else if !bal.accounts_view()[*address].storage.contains_key(*key) {
                        if ctx.spec_fallback() {
                            r == Ok::<Word, DbErrorCode>(raw)
                        } else {
                            &&& r == Err::<Word, DbErrorCode>(DbErrorCode::spec_bal_not_covered())
                            &&& final(self).bal_context.spec_error() == Some(BalError::SlotNotFound { address: *address, slot: *key })
                        }
                    } else {
                        sorted_by_index(bal.accounts_view()[*address].storage[*key]) ==> r == Ok::<Word, DbErrorCode>(
                            match prefix_last(bal.accounts_view()[*address].storage[*key], ctx.spec_index()) {
                                Some(v) => v,
                                None => raw,
                            },
                        )
                    },
                }
            }),
    {
        match self.bal_context.bal_storage(address, key) {
            Ok(Some(value)) => {
                Ok(value)
            },
            Ok(None) => self.db.get_storage(address, key),
            Err(e) => {
                Err(self.refuse(e))
            },
        }
    }

    /// Loads code by hash from the database; unknown code is empty.
    pub fn get_code_by_hash(&mut self, code_hash: &B256) -> (r: DbResult<Bytecode>)
        ensures
            r is Ok,
            r.unwrap().bytes@ == (match old(self).db.spec_code(*code_hash) {
                Some(c) => c,
                None => Seq::<u8>::empty(),
            }),
    {
        self.db.get_code_by_hash(code_hash)
    }

    /// Loads a historical block hash from the database.
    pub fn get_block_hash(&mut self, number: &Word) -> (r: DbResult<Option<B256>>)
        ensures
            r == Ok::<Option<B256>, DbErrorCode>(if old(self).db.cache.block_hashes@.contains_key(
                *number,
            ) {
                Some(old(self).db.cache.block_hashes@[*number])
            } else {
                None
            }),
    {
        self.db.get_block_hash(number)
    }

    /// The lookup error behind a not-covered code, taken once; `None` for any other code.
    pub fn error(&mut self, code: DbErrorCode) -> (r: Option<BalError>)
        ensures
            code == DbErrorCode::spec_bal_not_covered() ==> r == old(self).bal_context.spec_error()
                && final(self).bal_context.spec_error() is None,
            code != DbErrorCode::spec_bal_not_covered() ==> r is None && final(self).bal_context
                == old(self).bal_context,
            final(self).db == old(self).db,
    {
        if code.code == 3 {
            self.bal_context.take_bal_error()
        } else {
            None
        }
    }
}

} // verus!
