//! Revert journal entries, checkpoints, storage overlays and logs.

use vstd::prelude::*;
use crate::primitives::{Address, B256, Word};
use crate::state::{Account, TrackedValue};
use crate::vecmap::VecMap;

verus! {

/// Persistent storage overlay for one account.
pub struct StorageOverlay {
    /// Whether all storage the account had before is deleted.
    pub wiped: bool,
    /// Loaded or written slots, each with its transaction-boundary value.
    pub slots: VecMap<Word, TrackedValue<Word>>,
}

impl StorageOverlay {
    /// An unwiped overlay with no slots.
    pub fn new() -> (r: StorageOverlay)
        ensures
            !r.wiped,
            r.slots@ == Map::<Word, TrackedValue<Word>>::empty(),
    {
        StorageOverlay { wiped: false, slots: VecMap::new() }
    }

    /// A wiped overlay with no slots.
    pub fn new_wiped() -> (r: StorageOverlay)
        ensures
            r.wiped,
            r.slots@ == Map::<Word, TrackedValue<Word>>::empty(),
    {
        StorageOverlay { wiped: true, slots: VecMap::new() }
    }
}

/// Storage slot metadata: the loaded value, if any, and whether the slot is warm.
#[derive(Clone, Copy, Debug, Default, PartialEq, Eq, Structural)]
pub struct StorageSlot {
    pub value: Option<TrackedValue<Word>>,
    pub warm: bool,
}

impl StorageSlot {
    /// Whether the slot carries neither a value nor warmth.
    pub fn is_empty(&self) -> (r: bool)
        ensures
            r == (self.value is None && !self.warm),
    {
        self.value.is_none() && !self.warm
    }

    /// Marks the slot warm; returns whether it was cold.
    pub fn mark_warm(&mut self) -> (r: bool)
        ensures
            r == !old(self).warm,
            final(self).warm,
            final(self).value == old(self).value,
    {
        let was_cold = !self.warm;
        self.warm = true;
        was_cold
    }
}

/// A compact record of one state change, enough to undo it.
pub enum JournalEntry {
    /// The account's current value changed from `previous`.
    AccountChange { address: Address, previous: Option<Account> },
    /// The account was loaded into the overlay.
    AccountInserted { address: Address },
    /// The account was touched.
    Touch { address: Address },
    /// The account was self-destructed.
    SelfDestruct { address: Address },
    /// A persistent storage slot changed from `previous`.
    StorageChange { address: Address, key: Word, previous: Word },
    /// A persistent storage slot was written for the first time.
    StorageInserted { address: Address, key: Word },
    /// The account's storage overlay was replaced by a wiped one; `previous` is the overlay
    /// before.
    StorageWipe { address: Address, previous: Option<StorageOverlay> },
    /// A transient storage slot changed from `previous`.
    TransientStorageChange { address: Address, key: Word, previous: Option<Word> },
    /// The account was warmed.
    AccountWarmed { address: Address },
    /// The storage slot was warmed.
    StorageWarmed { address: Address, key: Word },
}

/// A point in the transaction to which the state can be rolled back.
#[derive(Debug, PartialEq, Eq, Structural)]
pub struct StateCheckpoint {
    pub(crate) journal_len: usize,
    pub(crate) logs_len: usize,
}

impl StateCheckpoint {
    pub closed spec fn spec_journal_len(&self) -> usize {
        self.journal_len
    }

    pub closed spec fn spec_logs_len(&self) -> usize {
        self.logs_len
    }

    pub(crate) fn new(journal_len: usize, logs_len: usize) -> (r: StateCheckpoint)
        ensures
            r.spec_journal_len() == journal_len,
            r.spec_logs_len() == logs_len,
    {
        StateCheckpoint { journal_len, logs_len }
    }

    /// Journal length at the checkpoint.
    pub fn journal_len(&self) -> (r: usize)
        ensures
            r == self.spec_journal_len(),
    {
        self.journal_len
    }

    /// Number of logs at the checkpoint.
    pub fn logs_len(&self) -> (r: usize)
        ensures
            r == self.spec_logs_len(),
    {
        self.logs_len
    }
}

/// An emitted log: the emitting address, its topics and its data.
#[derive(Clone, Debug, PartialEq, Eq)]
pub struct Log {
    pub address: Address,
    pub topics: Vec<B256>,
    pub data: Vec<u8>,
}

} // verus!
