//! Account models held by the state overlay and emitted in transitions.

use vstd::prelude::*;
use crate::primitives::{B256, Word};
use crate::vecmap::MapKey;

verus! {

/// Account information as the database holds it: balance, nonce and code hash. Code itself is
/// kept by hash in the database's contract cache.
#[derive(Clone, Copy, Debug, PartialEq, Eq, Hash, Structural)]
pub struct AccountInfo {
    pub balance: Word,
    pub nonce: u64,
    pub code_hash: B256,
}

impl AccountInfo {
    /// Zero balance, zero nonce and the empty-code hash.
    pub open spec fn spec_default() -> AccountInfo {
        AccountInfo { balance: Word::spec_zero(), nonce: 0, code_hash: B256::spec_keccak_empty() }
    }

    /// Creates account info from its fields.
    pub fn new(balance: Word, nonce: u64, code_hash: B256) -> (r: AccountInfo)
        ensures
            r == (AccountInfo { balance, nonce, code_hash }),
    {
        AccountInfo { balance, nonce, code_hash }
    }

    /// The same info with another balance.
    pub fn with_balance(self, balance: Word) -> (r: AccountInfo)
        ensures
            r == (AccountInfo { balance, ..self }),
    {
        AccountInfo { balance, ..self }
    }

    /// The same info with another nonce.
    pub fn with_nonce(self, nonce: u64) -> (r: AccountInfo)
        ensures
            r == (AccountInfo { nonce, ..self }),
    {
        AccountInfo { nonce, ..self }
    }

    pub open spec fn with_code_hash(self, code_hash: B256) -> AccountInfo {
        AccountInfo { code_hash, ..self }
    }

    pub open spec fn spec_is_empty(self) -> bool {
        self.balance.val() == 0 && self.nonce == 0 && self.code_hash == B256::spec_keccak_empty()
    }

    /// Whether the account is empty by the Spurious Dragon definition: zero balance, zero nonce
    /// and no code.
    pub fn is_empty(&self) -> (r: bool)
        ensures
            r == self.spec_is_empty(),
    {
        self.balance.is_zero() && self.nonce == 0 && self.code_hash == B256::keccak_empty()
    }
}

impl Default for AccountInfo {
    fn default() -> (r: AccountInfo)
        ensures
            r == AccountInfo::spec_default(),
    {
        AccountInfo { balance: Word::zero(), nonce: 0, code_hash: B256::keccak_empty() }
    }
}

/// Account state held in the transaction overlay.
#[derive(Clone, Copy, Debug, PartialEq, Eq, Hash, Structural)]
pub struct Account {
    pub nonce: u64,
    pub balance: Word,
    pub code_hash: B256,
    /// Whether the account was created in the current transaction.
    pub just_created: bool,
    /// Whether the account code has been modified.
    pub code_changed: bool,
}

impl Account {
    pub open spec fn spec_from_info(info: AccountInfo) -> Account {
        Account {
            nonce: info.nonce,
            balance: info.balance,
            code_hash: info.code_hash,
            just_created: false,
            code_changed: false,
        }
    }

    /// A freshly materialized empty account.
    pub open spec fn spec_empty() -> Account {
        Account {
            nonce: 0,
            balance: Word::spec_zero(),
            code_hash: B256::spec_keccak_empty(),
            just_created: false,
            code_changed: false,
        }
    }

    /// The account as loaded from database info.
    pub fn from_info(info: AccountInfo) -> (r: Account)
        ensures
            r == Account::spec_from_info(info),
    {
        Account {
            nonce: info.nonce,
            balance: info.balance,
            code_hash: info.code_hash,
            just_created: false,
            code_changed: false,
        }
    }

    /// An empty account.
    pub fn empty() -> (r: Account)
        ensures
            r == Account::spec_empty(),
    {
        Account {
            nonce: 0,
            balance: Word::zero(),
            code_hash: B256::keccak_empty(),
            just_created: false,
            code_changed: false,
        }
    }

    pub open spec fn spec_info(self) -> AccountInfo {
        AccountInfo { balance: self.balance, nonce: self.nonce, code_hash: self.code_hash }
    }

    /// The account's info.
    pub fn info(&self) -> (r: AccountInfo)
        ensures
            r == self.spec_info(),
    {
        AccountInfo { balance: self.balance, nonce: self.nonce, code_hash: self.code_hash }
    }

    pub open spec fn spec_is_empty(self) -> bool {
        self.nonce == 0 && self.balance.val() == 0 && self.code_hash == B256::spec_keccak_empty()
    }

    /// Whether the account is empty: zero nonce, zero balance and no code.
    pub fn is_empty(&self) -> (r: bool)
        ensures
            r == self.spec_is_empty(),
    {
        self.nonce == 0 && self.balance.is_zero() && self.code_hash == B256::keccak_empty()
    }
}

impl MapKey for Option<AccountInfo> {
    fn key_eq(&self, other: &Self) -> (r: bool) {
        match (self, other) {
            (Some(a), Some(b)) => a.balance.key_eq(&b.balance) && a.nonce == b.nonce && a.code_hash.key_eq(&b.code_hash),
            (None, None) => true,
            _ => false,
        }
    }
}

} // verus!
