//! The in-memory cache database that backs the state overlay.

use vstd::prelude::*;
use crate::bytecode::Bytecode;
use crate::primitives::{Address, B256, Word};
use core::convert::Infallible;
use crate::state::{
    AccountChangeRef, AccountInfo, SinkEvent, StateChangeSink, StateChangeSource, StorageChange, runs, runs_ok,
};
use crate::vecmap::{MapKey, VecMap};

verus! {

/// Numeric code of a failed database operation.
#[derive(Clone, Copy, Debug, PartialEq, Eq, Hash, Structural)]
pub struct DbErrorCode {
    pub code: u32,
}

impl DbErrorCode {
    /// The operation was skipped because it would have needed a cold load.
    pub fn cold_load_skipped() -> (r: DbErrorCode)
        ensures
            r.code == 1,
    {
        DbErrorCode { code: 1 }
    }

    /// The full error is stored by the database that produced it.
    pub fn stored_error() -> (r: DbErrorCode)
        ensures
            r.code == 2,
    {
        DbErrorCode { code: 2 }
    }

    /// A read was not covered by the attached block access list; the lookup error is stored.
    pub open spec fn spec_bal_not_covered() -> DbErrorCode {
        DbErrorCode { code: 3 }
    }

    pub fn bal_not_covered() -> (r: DbErrorCode)
        ensures
            r == DbErrorCode::spec_bal_not_covered(),
    {
        DbErrorCode { code: 3 }
    }
}

/// Result of a database operation.
pub type DbResult<T> = Result<T, DbErrorCode>;

/// The database that holds nothing: every account is absent, every slot is zero, every code is
/// empty and no block hash is known.
#[derive(Clone, Copy, Debug, Default, PartialEq, Eq)]
pub struct EmptyDB {}

impl EmptyDB {
    /// Loads account information: always absent.
    pub fn get_account(&mut self, address: &Address) -> (r: DbResult<Option<AccountInfo>>)
        ensures
            r == Ok::<Option<AccountInfo>, DbErrorCode>(None),
    {
        Ok(None)
    }

    /// Loads a storage slot: always zero.
    pub fn get_storage(&mut self, address: &Address, key: &Word) -> (r: DbResult<Word>)
        ensures
            r == Ok::<Word, DbErrorCode>(Word::spec_zero()),
    {
        Ok(Word::zero())
    }

    /// Loads a block hash: never known.
    pub fn get_block_hash(&mut self, number: &Word) -> (r: DbResult<Option<B256>>)
        ensures
            r == Ok::<Option<B256>, DbErrorCode>(None),
    {
        Ok(None)
    }

    /// Loads code by hash: always empty.
    pub fn get_code_by_hash(&mut self, code_hash: &B256) -> (r: DbResult<Bytecode>)
        ensures
            r is Ok,
            r.unwrap().bytes@.len() == 0,
    {
        Ok(Bytecode::new())
    }
}

/// Counts calls made through a database.
#[derive(Clone, Copy, Debug, Default, PartialEq, Eq, Structural)]
pub struct DbStatsCounts {
    pub get_account: u64,
    pub get_code_by_hash: u64,
    pub get_storage: u64,
    pub get_storage_same_address_repeats: u64,
    pub get_storage_same_address_longest_streak: u64,
    pub get_block_hash: u64,
    pub error: u64,
}

impl DbStatsCounts {
    /// Adds the counts of `rhs`; the longest streak is the larger of the two.
    pub fn add_assign(&mut self, rhs: DbStatsCounts)
        requires
            old(self).get_account + rhs.get_account <= u64::MAX,
            old(self).get_code_by_hash + rhs.get_code_by_hash <= u64::MAX,
            old(self).get_storage + rhs.get_storage <= u64::MAX,
            old(self).get_storage_same_address_repeats + rhs.get_storage_same_address_repeats
                <= u64::MAX,
            old(self).get_block_hash + rhs.get_block_hash <= u64::MAX,
            old(self).error + rhs.error <= u64::MAX,
        ensures
            final(self).get_account == old(self).get_account + rhs.get_account,
            final(self).get_code_by_hash == old(self).get_code_by_hash + rhs.get_code_by_hash,
            final(self).get_storage == old(self).get_storage + rhs.get_storage,
            final(self).get_storage_same_address_repeats == old(
                self,
            ).get_storage_same_address_repeats + rhs.get_storage_same_address_repeats,
            final(self).get_storage_same_address_longest_streak == if old(
                self,
            ).get_storage_same_address_longest_streak
                >= rhs.get_storage_same_address_longest_streak {
                old(self).get_storage_same_address_longest_streak
            } else {
                rhs.get_storage_same_address_longest_streak
            },
            final(self).get_block_hash == old(self).get_block_hash + rhs.get_block_hash,
            final(self).error == old(self).error + rhs.error,
    {
        self.get_account = self.get_account + rhs.get_account;
        self.get_code_by_hash = self.get_code_by_hash + rhs.get_code_by_hash;
        self.get_storage = self.get_storage + rhs.get_storage;
        self.get_storage_same_address_repeats = self.get_storage_same_address_repeats
            + rhs.get_storage_same_address_repeats;
        if rhs.get_storage_same_address_longest_streak
            > self.get_storage_same_address_longest_streak {
            self.get_storage_same_address_longest_streak =
            rhs.get_storage_same_address_longest_streak;
        }
        self.get_block_hash = self.get_block_hash + rhs.get_block_hash;
        self.error = self.error + rhs.error;
    }
}

/// Cached storage for one account.
pub struct AccountStorageCache {
    /// Cached slots.
    pub slots: VecMap<Word, Word>,
    /// Whether slots that are not cached are known to be zero.
    pub wiped: bool,
}

impl AccountStorageCache {
    /// An empty, unwiped storage cache.
    pub fn new() -> (r: AccountStorageCache)
        ensures
            r.slots@ == Map::<Word, Word>::empty(),
            !r.wiped,
    {
        AccountStorageCache { slots: VecMap::new(), wiped: false }
    }

    /// Marks all storage for this account as wiped.
    pub fn wipe(&mut self)
        ensures
            final(self).slots@ == Map::<Word, Word>::empty(),
            final(self).wiped,
    {
        self.slots.clear();
        self.wiped = true;
    }
}

/// The cache of [`CacheDB`]: accounts, code by hash, storage by account, and block hashes.
///
/// A cached `None` account is known to be absent; a wiped storage cache makes every slot it does
/// not hold zero.
pub struct Cache {
    pub accounts: VecMap<Address, Option<AccountInfo>>,
    pub contracts: VecMap<B256, Bytecode>,
    pub storage: VecMap<Address, AccountStorageCache>,
    pub block_hashes: VecMap<Word, B256>,
}

/// The bytes of an optional code.
pub open spec fn code_bytes(code: Option<&Bytecode>) -> Option<Seq<u8>> {
    match code {
        Some(c) => Some(c.bytes@),
        None => None,
    }
}

/// The hash non-empty `code` is cached under: its own hash when the account gives the
/// empty-code hash, else the account's hash.
pub open spec fn hash_for_code(code_hash: B256, code: Seq<u8>) -> B256 {
    if code_hash == B256::spec_keccak_empty() {
        crate::bytecode::keccak256_spec(code)
    } else {
        code_hash
    }
}

/// The code hash an inserted account is stored with: the hash its non-empty code is cached
/// under, and the empty-code hash in place of a zero hash.
pub open spec fn stored_code_hash(code_hash: B256, code: Option<Seq<u8>>) -> B256 {
    let h = match code {
        Some(c) => if c.len() > 0 {
            hash_for_code(code_hash, c)
        } else {
            code_hash
        },
        None => code_hash,
    };
    if h == B256::spec_zero() {
        B256::spec_keccak_empty()
    } else {
        h
    }
}

/// An in-memory database: everything that is not cached is absent, zero or unknown.
pub struct CacheDB {
    pub cache: Cache,
}

/// The database that stores initial state in memory.
pub type InMemoryDB = CacheDB;

impl CacheDB {
    /// The account as the database sees it.
    pub open spec fn spec_account(&self, address: Address) -> Option<AccountInfo> {
        if self.cache.accounts@.contains_key(address) {
            self.cache.accounts@[address]
        } else {
            None
        }
    }

    /// Whether the account is cached as absent.
    pub open spec fn spec_absent(&self, address: Address) -> bool {
        self.cache.accounts@.contains_key(address) && self.cache.accounts@[address] is None
    }

    /// The slot as the storage cache holds it, whether or not the account exists.
    pub open spec fn raw_storage(&self, address: Address, key: Word) -> Word {
        if self.cache.storage@.contains_key(address)
            && self.cache.storage@[address].slots@.contains_key(key) {
            self.cache.storage@[address].slots@[key]
        } else {
            Word::spec_zero()
        }
    }

    /// The committed value of a storage slot.
    pub open spec fn spec_storage(&self, address: Address, key: Word) -> Word {
        if self.spec_absent(address) {
            Word::spec_zero()
        } else {
            self.raw_storage(address, key)
        }
    }

    /// Code cached under `code_hash`.
    pub open spec fn spec_code(&self, code_hash: B256) -> Option<Seq<u8>> {
        if self.cache.contracts@.contains_key(code_hash) {
            Some(self.cache.contracts@[code_hash].bytes@)
        } else {
            None
        }
    }

    /// No non-zero storage is held for an account that does not exist.
    pub open spec fn wf(&self) -> bool {
        forall|a: Address, k: Word|
            self.spec_account(a) is None ==> #[trigger] self.raw_storage(a, k) == Word::spec_zero()
    }

    /// Whether two databases answer every account and storage read alike.
    pub open spec fn same_reads(&self, other: &CacheDB) -> bool {
        &&& forall|a: Address| #[trigger] self.spec_account(a) == other.spec_account(a)
        &&& forall|a: Address, k: Word| #[trigger] self.spec_storage(a, k) == other.spec_storage(
            a,
            k,
        )
    }

    /// An empty database whose contract cache knows the empty code under the empty-code hash and
    /// under the zero hash.
    pub fn new() -> (r: CacheDB)
        ensures
            forall|a: Address| r.spec_account(a) is None,
            forall|a: Address| !r.spec_absent(a),
            forall|a: Address, k: Word| r.spec_storage(a, k) == Word::spec_zero(),
            r.spec_code(B256::spec_keccak_empty()) == Some(Seq::<u8>::empty()),
            r.spec_code(B256::spec_zero()) == Some(Seq::<u8>::empty()),
            r.wf(),
    {
        let mut contracts: VecMap<B256, Bytecode> = VecMap::new();
        contracts.insert(B256::keccak_empty(), Bytecode::new());
        contracts.insert(B256::zero(), Bytecode::new());
        CacheDB {
            cache: Cache {
                accounts: VecMap::new(),
                contracts,
                storage: VecMap::new(),
                block_hashes: VecMap::new(),
            },
        }
    }

    /// Caches the code of an account being inserted and settles the hash it is stored under:
    /// non-empty code given with the empty-code hash takes its own hash, and is cached under the
    /// hash unless code is cached there already; a zero hash becomes the empty-code hash.
    pub fn insert_contract(&mut self, info: &mut AccountInfo, code: Option<&Bytecode>)
        requires
            old(self).wf(),
        ensures
            final(self).wf(),
            *final(info) == (AccountInfo {
                code_hash: stored_code_hash(old(info).code_hash, code_bytes(code)),
                ..*old(info)
            }),
            final(self).cache.accounts@ == old(self).cache.accounts@,
            final(self).cache.storage@ == old(self).cache.storage@,
            final(self).cache.block_hashes@ == old(self).cache.block_hashes@,
            code is None ==> final(self).cache.contracts@ == old(self).cache.contracts@,
            forall|h: B256| #[trigger] final(self).spec_code(h) == match code {
                Some(c) => if c.bytes@.len() > 0 && h == hash_for_code(old(info).code_hash, c.bytes@)
                    && old(self).spec_code(h) is None {
                    Some(c.bytes@)
                } else {
                    old(self).spec_code(h)
                },
                None => old(self).spec_code(h),
            },
    {
        if let Some(c) = code {
            if !c.is_empty() {
                if info.code_hash == B256::keccak_empty() {
                    info.code_hash = c.hash_slow();
                }
                if !self.cache.contracts.contains_key(&info.code_hash) {
                    self.cache.contracts.insert(info.code_hash, c.duplicate());
                }
            }
        }
        if info.code_hash.is_zero() {
            info.code_hash = B256::keccak_empty();
        }
        proof {
            assert forall|a: Address, k: Word| self.spec_account(a) is None implies #[trigger] self.raw_storage(a, k)
                == Word::spec_zero() by {
                assert(old(self).spec_account(a) is None ==> old(self).raw_storage(a, k) == Word::spec_zero());
            }
        }
    }

    /// Inserts account info, settling its code hash as [`CacheDB::insert_contract`] does with no
    /// code; the account exists afterwards.
    pub fn insert_account_info(&mut self, address: &Address, info: AccountInfo)
        requires
            old(self).wf(),
        ensures
            final(self).wf(),
            final(self).cache.accounts@ == old(self).cache.accounts@.insert(
                *address,
                Some(AccountInfo { code_hash: stored_code_hash(info.code_hash, None), ..info }),
            ),
            final(self).cache.storage@ == old(self).cache.storage@,
            final(self).cache.contracts@ == old(self).cache.contracts@,
    {
        let mut info = info;
        self.insert_contract(&mut info, None);
        self.cache.accounts.insert(*address, Some(info));
        proof {
            assert forall|a: Address, k: Word| self.spec_account(a) is None implies #[trigger] self.raw_storage(a, k)
                == Word::spec_zero() by {
                assert(old(self).spec_account(a) is None ==> old(self).raw_storage(a, k) == Word::spec_zero());
            }
        }
    }

    /// Inserts account info together with its code, caching the code as
    /// [`CacheDB::insert_contract`] does; the account exists afterwards.
    pub fn insert_account_info_with_code(
        &mut self,
        address: &Address,
        info: AccountInfo,
        code: Bytecode,
    )
        requires
            old(self).wf(),
        ensures
            final(self).wf(),
            final(self).cache.accounts@ == old(self).cache.accounts@.insert(
                *address,
                Some(AccountInfo { code_hash: stored_code_hash(info.code_hash, Some(code.bytes@)), ..info }),
            ),
            final(self).cache.storage@ == old(self).cache.storage@,
            forall|h: B256| #[trigger] final(self).spec_code(h) == if code.bytes@.len() > 0 && h == hash_for_code(
                info.code_hash,
                code.bytes@,
            ) && old(self).spec_code(h) is None {
                Some(code.bytes@)
            } else {
                old(self).spec_code(h)
            },
    {
        let mut info = info;
        self.insert_contract(&mut info, Some(&code));
        let ghost mid = *self;
        self.cache.accounts.insert(*address, Some(info));
        proof {
            assert forall|h: B256| #[trigger] self.spec_code(h) == mid.spec_code(h) by {}
            assert forall|a: Address, k: Word| self.spec_account(a) is None implies #[trigger] self.raw_storage(a, k)
                == Word::spec_zero() by {
                assert(old(self).spec_account(a) is None ==> old(self).raw_storage(a, k) == Word::spec_zero());
            }
        }
    }

    /// Cached account info, if the account is cached as existing.
    pub fn account_info(&self, address: &Address) -> (r: Option<AccountInfo>)
        ensures
            r == self.spec_account(*address),
    {
        match self.cache.accounts.get(address) {
            Some(entry) => *entry,
            None => None,
        }
    }

    /// Returns whether the account is cached as absent.
    pub fn account_absent(&self, address: &Address) -> (r: bool)
        ensures
            r == self.spec_absent(*address),
    {
        match self.cache.accounts.get(address) {
            Some(entry) => entry.is_none(),
            None => false,
        }
    }

    /// Inserts a storage slot; an account that is not cached becomes an existing default one. An
    /// account cached as absent stays absent.
    pub fn insert_account_storage(&mut self, address: &Address, key: &Word, value: &Word)
        ensures
            old(self).wf() && (old(self).spec_absent(*address) ==> *value == Word::spec_zero())
                ==> final(self).wf(),
            old(self).cache.accounts@.contains_key(*address) ==> final(self).cache.accounts@
                == old(self).cache.accounts@,
            !old(self).cache.accounts@.contains_key(*address) ==> final(self).cache.accounts@
                == old(self).cache.accounts@.insert(*address, Some(AccountInfo::spec_default())),
            final(self).cache.storage@.contains_key(*address),
            final(self).cache.storage@[*address].slots@ == (if old(self).cache.storage@.contains_key(
                *address,
            ) {
                old(self).cache.storage@[*address].slots@
            } else {
                Map::empty()
            }).insert(*key, *value),
            forall|a: Address|
                a != *address ==> #[trigger] final(self).cache.storage@.contains_key(a) == old(
                    self,
                ).cache.storage@.contains_key(a) && (final(self).cache.storage@.contains_key(a)
                    ==> final(self).cache.storage@[a] == old(self).cache.storage@[a]),
            final(self).cache.contracts@ == old(self).cache.contracts@,
    {
        if !self.cache.accounts.contains_key(address) {
            self.cache.accounts.insert(*address, Some(AccountInfo::default()));
        }
        let mut storage = match self.cache.storage.remove(address) {
            Some(s) => s,
            None => AccountStorageCache::new(),
        };
        storage.slots.insert(*key, *value);
        self.cache.storage.insert(*address, storage);
        proof {
            if old(self).wf() && (old(self).spec_absent(*address) ==> *value == Word::spec_zero()) {
                assert forall|a: Address, k: Word| self.spec_account(a) is None implies #[trigger] self.raw_storage(a, k)
                    == Word::spec_zero() by {
                    assert(old(self).spec_account(a) is None ==> old(self).raw_storage(a, k) == Word::spec_zero());
                    if a == *address && k != *key {
                        assert(old(self).raw_storage(a, k) == self.raw_storage(a, k));
                    }
                }
            }
        }
    }

    /// Sets a historical block hash.
    pub fn insert_block_hash(&mut self, number: &Word, hash: &B256)
        requires
            old(self).wf(),
        ensures
            final(self).wf(),
            final(self).cache.block_hashes@ == old(self).cache.block_hashes@.insert(*number, *hash),
            final(self).cache.accounts@ == old(self).cache.accounts@,
            final(self).cache.storage@ == old(self).cache.storage@,
            final(self).cache.contracts@ == old(self).cache.contracts@,
    {
        self.cache.block_hashes.insert(*number, *hash);
        proof {
            assert forall|a: Address, k: Word| self.spec_account(a) is None implies #[trigger] self.raw_storage(a, k)
                == Word::spec_zero() by {
                assert(old(self).spec_account(a) is None ==> old(self).raw_storage(a, k) == Word::spec_zero());
            }
        }
    }

    /// Loads account information, caching an unknown account as absent.
    pub fn get_account(&mut self, address: &Address) -> (r: DbResult<Option<AccountInfo>>)
        requires
            old(self).wf(),
        ensures
            r == Ok::<Option<AccountInfo>, DbErrorCode>(old(self).spec_account(*address)),
            final(self).wf(),
            final(self).same_reads(old(self)),
            final(self).cache.accounts@.contains_key(*address),
            final(self).cache.contracts@ == old(self).cache.contracts@,
    {
        match self.cache.accounts.get(address) {
            Some(entry) => Ok(*entry),
            None => {
                self.cache.accounts.insert(*address, None);
                proof {
                    assert forall|a: Address, k: Word| self.spec_account(a) is None implies #[trigger] self.raw_storage(a, k)
                        == Word::spec_zero() by {
                        assert(old(self).spec_account(a) is None ==> old(self).raw_storage(a, k) == Word::spec_zero());
                    }
                }
                Ok(None)
            },
        }
    }

    /// Loads a storage slot as committed in this database.
    pub fn get_storage(&mut self, address: &Address, key: &Word) -> (r: DbResult<Word>)
        requires
            old(self).wf(),
        ensures
            r == Ok::<Word, DbErrorCode>(old(self).spec_storage(*address, *key)),
            final(self).wf(),
            final(self).same_reads(old(self)),
            final(self).cache.accounts@ == old(self).cache.accounts@,
            final(self).cache.contracts@ == old(self).cache.contracts@,
    {
        if self.account_absent(address) {
            return Ok(Word::zero());
        }
        match self.cache.storage.get(address) {
            Some(storage) => match storage.slots.get(key) {
                Some(value) => Ok(*value),
                None => Ok(Word::zero()),
            },
            None => Ok(Word::zero()),
        }
    }

    /// The committed value of a storage slot, without touching the cache.
    pub fn storage_ref(&self, address: &Address, key: &Word) -> (r: Word)
        ensures
            r == self.spec_storage(*address, *key),
    {
        if self.account_absent(address) {
            return Word::zero();
        }
        match self.cache.storage.get(address) {
            Some(storage) => match storage.slots.get(key) {
                Some(value) => *value,
                None => Word::zero(),
            },
            None => Word::zero(),
        }
    }

    /// Loads code by hash; unknown code is empty.
    pub fn get_code_by_hash(&mut self, code_hash: &B256) -> (r: DbResult<Bytecode>)
        ensures
            r is Ok,
            r.unwrap().bytes@ == (match old(self).spec_code(*code_hash) {
                Some(c) => c,
                None => Seq::<u8>::empty(),
            }),
            final(self).cache.accounts@ == old(self).cache.accounts@,
            final(self).cache.storage@ == old(self).cache.storage@,
            forall|h: B256| #[trigger] final(self).spec_code(h) == (if h == *code_hash {
                Some(r.unwrap().bytes@)
            } else {
                old(self).spec_code(h)
            }),
    {
        match self.cache.contracts.get(code_hash) {
            Some(code) => Ok(code.duplicate()),
            None => {
                let code = Bytecode::new();
                self.cache.contracts.insert(*code_hash, code.duplicate());
                Ok(code)
            },
        }
    }

    /// Loads a historical block hash.
    pub fn get_block_hash(&mut self, number: &Word) -> (r: DbResult<Option<B256>>)
        ensures
            r == Ok::<Option<B256>, DbErrorCode>(if old(self).cache.block_hashes@.contains_key(
                *number,
            ) {
                Some(old(self).cache.block_hashes@[*number])
            } else {
                None
            }),
    {
        match self.cache.block_hashes.get(number) {
            Some(hash) => Ok(Some(*hash)),
            None => Ok(None),
        }
    }
}


impl CacheDB {
    /// Applies the changes of `source` to the cache, in the source's order: the cache ends as
    /// the cache takes every change of [`StateChangeSource::events`] in turn (see
    /// [`cache_handles`]).
    pub fn commit_source<S: StateChangeSource>(&mut self, source: &S)
        ensures
            runs_ok(*old(self), source.events(), *final(self)),
    {
        let r = source.visit(self);
        proof {
            if r is Err {
                assert(runs(*old(self), source.events(), *self, r));
            }
        }
    }

    /// The account's storage cache, or a fresh one.
    fn take_storage(&mut self, address: &Address) -> (r: AccountStorageCache)
        ensures
            final(self).cache.accounts@ == old(self).cache.accounts@,
            final(self).cache.contracts@ == old(self).cache.contracts@,
            final(self).cache.block_hashes@ == old(self).cache.block_hashes@,
            final(self).cache.storage@ == old(self).cache.storage@.remove(*address),
            old(self).cache.storage@.contains_key(*address) ==> r == old(self).cache.storage@[*address],
            !old(self).cache.storage@.contains_key(*address) ==> r.slots@ == Map::<Word, Word>::empty()
                && !r.wiped,
    {
        match self.cache.storage.remove(address) {
            Some(st) => st,
            None => AccountStorageCache::new(),
        }
    }
}

/// The cache after taking `event`: bytecode is cached by hash; a storage wipe empties the
/// account's storage cache and marks it wiped; a slot change writes the slot (a zero over wiped
/// storage removes it); an account change writes the account, a deletion caching it as absent
/// with wiped storage. Nothing else changes, and a well-formed cache stays well formed (for a
/// slot change, when the account exists or the value is zero).
pub open spec fn cache_handles(db: CacheDB, event: SinkEvent, next: CacheDB) -> bool {
    &&& next.cache.block_hashes@ == db.cache.block_hashes@
    &&& match event {
        SinkEvent::Bytecode { code_hash, code } => {
            &&& next.cache.accounts@ == db.cache.accounts@
            &&& next.cache.storage@ == db.cache.storage@
            &&& forall|h: B256| #[trigger] next.spec_code(h) == if h == code_hash {
                Some(code)
            } else {
                db.spec_code(h)
            }
            &&& db.wf() ==> next.wf()
        },
        SinkEvent::StorageWipe { address } => {
            &&& next.cache.accounts@ == db.cache.accounts@
            &&& next.cache.contracts@ == db.cache.contracts@
            &&& next.cache.storage@.contains_key(address)
            &&& next.cache.storage@[address].slots@ == Map::<Word, Word>::empty()
            &&& next.cache.storage@[address].wiped
            &&& forall|x: Address| x != address ==> (#[trigger] next.cache.storage@.contains_key(x)
                <==> db.cache.storage@.contains_key(x))
            &&& forall|x: Address| x != address && #[trigger] db.cache.storage@.contains_key(x)
                ==> next.cache.storage@[x] == db.cache.storage@[x]
            &&& db.wf() ==> next.wf()
        },
        SinkEvent::Storage { change } => {
            let wiped = db.cache.storage@.contains_key(change.address) && db.cache.storage@[change.address].wiped;
            let slots = if db.cache.storage@.contains_key(change.address) {
                db.cache.storage@[change.address].slots@
            } else {
                Map::<Word, Word>::empty()
            };
            &&& next.cache.accounts@ == db.cache.accounts@
            &&& next.cache.contracts@ == db.cache.contracts@
            &&& next.cache.storage@.contains_key(change.address)
            &&& next.cache.storage@[change.address].wiped == wiped
            &&& next.cache.storage@[change.address].slots@ == if wiped && change.current == Word::spec_zero() {
                slots.remove(change.key)
            } else {
                slots.insert(change.key, change.current)
            }
            &&& forall|x: Address| x != change.address ==> (#[trigger] next.cache.storage@.contains_key(x)
                <==> db.cache.storage@.contains_key(x))
            &&& forall|x: Address| x != change.address && #[trigger] db.cache.storage@.contains_key(x)
                ==> next.cache.storage@[x] == db.cache.storage@[x]
            &&& db.wf() && (db.spec_account(change.address) is Some || change.current == Word::spec_zero())
                ==> next.wf()
        },
        SinkEvent::Account { change } => {
            &&& next.cache.contracts@ == db.cache.contracts@
            &&& next.cache.accounts@ == db.cache.accounts@.insert(change.address, change.current)
            &&& change.current is Some ==> next.cache.storage@ == db.cache.storage@
            &&& change.current is None ==> {
                &&& next.cache.storage@.contains_key(change.address)
                &&& next.cache.storage@[change.address].slots@ == Map::<Word, Word>::empty()
                &&& next.cache.storage@[change.address].wiped
                &&& forall|x: Address| x != change.address ==> (#[trigger] next.cache.storage@.contains_key(x)
                    <==> db.cache.storage@.contains_key(x))
                &&& forall|x: Address| x != change.address && #[trigger] db.cache.storage@.contains_key(x)
                    ==> next.cache.storage@[x] == db.cache.storage@[x]
            }
            &&& db.wf() ==> next.wf()
        },
    }
}

impl StateChangeSink for CacheDB {
    type Error = Infallible;

    open spec fn handles(&self, event: SinkEvent, next: Self, r: Result<(), Infallible>) -> bool {
        r is Ok && cache_handles(*self, event, next)
    }

    fn bytecode(&mut self, code_hash: B256, code: &Bytecode) -> (r: Result<(), Infallible>)
        ensures
            r is Ok,
            final(self).cache.accounts@ == old(self).cache.accounts@,
            final(self).cache.storage@ == old(self).cache.storage@,
            forall|h: B256| #[trigger] final(self).spec_code(h) == if h == code_hash {
                Some(code.bytes@)
            } else {
                old(self).spec_code(h)
            },
            old(self).wf() ==> final(self).wf(),
    {
        let c = code.duplicate();
        self.cache.contracts.insert(code_hash, c);
        proof {
            if old(self).wf() {
                assert forall|a: Address, k: Word| self.spec_account(a) is None implies #[trigger] self.raw_storage(a, k)
                    == Word::spec_zero() by {
                    assert(old(self).spec_account(a) is None ==> old(self).raw_storage(a, k) == Word::spec_zero());
                }
            }
        }
        Ok(())
    }

    fn storage_wipe(&mut self, address: Address) -> (r: Result<(), Infallible>)
        ensures
            r is Ok,
            final(self).cache.accounts@ == old(self).cache.accounts@,
            final(self).cache.contracts@ == old(self).cache.contracts@,
            final(self).cache.storage@.contains_key(address),
            final(self).cache.storage@[address].slots@ == Map::<Word, Word>::empty(),
            final(self).cache.storage@[address].wiped,
            forall|x: Address| x != address ==> (#[trigger] final(self).cache.storage@.contains_key(x)
                <==> old(self).cache.storage@.contains_key(x)),
            forall|x: Address| x != address && #[trigger] old(self).cache.storage@.contains_key(x)
                ==> final(self).cache.storage@[x] == old(self).cache.storage@[x],
            old(self).wf() ==> final(self).wf(),
    {
        let mut st = self.take_storage(&address);
        st.wipe();
        self.cache.storage.insert(address, st);
        proof {
            assert forall|a: Address, k: Word| self.spec_account(a) is None && old(self).wf() implies #[trigger] self.raw_storage(a, k)
                == Word::spec_zero() by {
                assert(old(self).spec_account(a) is None ==> old(self).raw_storage(a, k) == Word::spec_zero());
            }
        }
        Ok(())
    }

    fn storage(&mut self, change: StorageChange) -> (r: Result<(), Infallible>)
        ensures
            r is Ok,
            final(self).cache.accounts@ == old(self).cache.accounts@,
            final(self).cache.contracts@ == old(self).cache.contracts@,
            final(self).cache.storage@.contains_key(change.address),
            ({
                let wiped = old(self).cache.storage@.contains_key(change.address)
                    && old(self).cache.storage@[change.address].wiped;
                let slots = if old(self).cache.storage@.contains_key(change.address) {
                    old(self).cache.storage@[change.address].slots@
                } else {
                    Map::<Word, Word>::empty()
                };
                &&& final(self).cache.storage@[change.address].wiped == wiped
                &&& final(self).cache.storage@[change.address].slots@ == if wiped && change.current
                    == Word::spec_zero() {
                    slots.remove(change.key)
                } else {
                    slots.insert(change.key, change.current)
                }
            }),
            forall|x: Address| x != change.address ==> (#[trigger] final(self).cache.storage@.contains_key(x)
                <==> old(self).cache.storage@.contains_key(x)),
            forall|x: Address| x != change.address && #[trigger] old(self).cache.storage@.contains_key(x)
                ==> final(self).cache.storage@[x] == old(self).cache.storage@[x],
            old(self).wf() && (old(self).spec_account(change.address) is Some || change.current
                == Word::spec_zero()) ==> final(self).wf(),
    {
        let mut st = self.take_storage(&change.address);
        if st.wiped && change.current.is_zero() {
            st.slots.remove(&change.key);
        } else {
            st.slots.insert(change.key, change.current);
        }
        self.cache.storage.insert(change.address, st);
        proof {
            if old(self).wf() && (old(self).spec_account(change.address) is Some || change.current
                == Word::spec_zero()) {
                assert forall|a: Address, k: Word| self.spec_account(a) is None implies #[trigger] self.raw_storage(a, k)
                    == Word::spec_zero() by {
                    assert(old(self).spec_account(a) is None ==> old(self).raw_storage(a, k) == Word::spec_zero());
                }
            }
        }
        Ok(())
    }

    fn account(&mut self, change: AccountChangeRef) -> (r: Result<(), Infallible>)
        ensures
            r is Ok,
            final(self).cache.contracts@ == old(self).cache.contracts@,
            final(self).cache.accounts@ == old(self).cache.accounts@.insert(change.address, change.current),
            change.current is Some ==> final(self).cache.storage@ == old(self).cache.storage@,
            change.current is None ==> {
                &&& final(self).cache.storage@.contains_key(change.address)
                &&& final(self).cache.storage@[change.address].slots@ == Map::<Word, Word>::empty()
                &&& final(self).cache.storage@[change.address].wiped
                &&& forall|x: Address| x != change.address ==> (#[trigger] final(self).cache.storage@.contains_key(x)
                    <==> old(self).cache.storage@.contains_key(x))
                &&& forall|x: Address| x != change.address && #[trigger] old(self).cache.storage@.contains_key(x)
                    ==> final(self).cache.storage@[x] == old(self).cache.storage@[x]
            },
            old(self).wf() ==> final(self).wf(),
    {
        match change.current {
            Some(info) => {
                self.cache.accounts.insert(change.address, Some(info));
            },
            None => {
                self.cache.accounts.insert(change.address, None);
                let mut st = self.take_storage(&change.address);
                st.wipe();
                self.cache.storage.insert(change.address, st);
            },
        }
        proof {
            if old(self).wf() {
                assert forall|a: Address, k: Word| self.spec_account(a) is None implies #[trigger] self.raw_storage(a, k)
                    == Word::spec_zero() by {
                    assert(old(self).spec_account(a) is None ==> old(self).raw_storage(a, k) == Word::spec_zero());
                }
            }
        }
        Ok(())
    }
}


/// A cache database that counts the loads made through it, and how storage loads cluster by
/// address.
pub struct DbStats {
    db: CacheDB,
    counts: DbStatsCounts,
    last_storage_address: Option<Address>,
    storage_address_streak: u64,
}

/// The counts after a storage load of `address`, with the last loaded address and the current run
/// of loads of it.
pub open spec fn counts_after_storage_load(
    counts: DbStatsCounts,
    last: Option<Address>,
    streak: u64,
    address: Address,
) -> (DbStatsCounts, Option<Address>, u64) {
    let repeat = last == Some(address);
    let new_streak = if repeat { (streak + 1) as u64 } else { 1u64 };
    (
        DbStatsCounts {
            get_storage: (counts.get_storage + 1) as u64,
            get_storage_same_address_repeats: if repeat {
                (counts.get_storage_same_address_repeats + 1) as u64
            } else {
                counts.get_storage_same_address_repeats
            },
            get_storage_same_address_longest_streak: if counts.get_storage_same_address_longest_streak
                >= new_streak {
                counts.get_storage_same_address_longest_streak
            } else {
                new_streak
            },
            ..counts
        },
        Some(address),
        new_streak,
    )
}

impl DbStats {
    /// The current run never exceeds the longest run, which never exceeds the storage loads;
    /// every repeat is a load after the first of its run; there is a run exactly when a storage
    /// load was made.
    pub closed spec fn wf(&self) -> bool {
        &&& (self.last_storage_address is None) == (self.storage_address_streak == 0)
        &&& self.storage_address_streak <= self.counts.get_storage_same_address_longest_streak
        &&& self.counts.get_storage_same_address_longest_streak <= self.counts.get_storage
        &&& self.counts.get_storage_same_address_repeats + (if self.last_storage_address is None { 0int } else { 1int })
            <= self.counts.get_storage
    }

    pub closed spec fn spec_db(&self) -> CacheDB {
        self.db
    }

    pub closed spec fn spec_counts(&self) -> DbStatsCounts {
        self.counts
    }

    pub closed spec fn spec_last(&self) -> Option<Address> {
        self.last_storage_address
    }

    pub closed spec fn spec_streak(&self) -> u64 {
        self.storage_address_streak
    }

    /// A counting wrapper around `db`, with all counts zero.
    pub fn new(db: CacheDB) -> (r: DbStats)
        ensures
            r.spec_db() == db,
            r.spec_counts() == (DbStatsCounts {
                get_account: 0,
                get_code_by_hash: 0,
                get_storage: 0,
                get_storage_same_address_repeats: 0,
                get_storage_same_address_longest_streak: 0,
                get_block_hash: 0,
                error: 0,
            }),
            r.spec_last() is None,
            r.spec_streak() == 0,
            r.wf(),
    {
        DbStats {
            db,
            counts: DbStatsCounts {
                get_account: 0,
                get_code_by_hash: 0,
                get_storage: 0,
                get_storage_same_address_repeats: 0,
                get_storage_same_address_longest_streak: 0,
                get_block_hash: 0,
                error: 0,
            },
            last_storage_address: None,
            storage_address_streak: 0,
        }
    }

    /// The wrapped database.
    pub fn inner(&self) -> (r: &CacheDB)
        ensures
            *r == self.spec_db(),
    {
        &self.db
    }

    /// Consumes the wrapper and returns the wrapped database.
    pub fn into_inner(self) -> (r: CacheDB)
        ensures
            r == self.spec_db(),
    {
        self.db
    }

    /// The recorded counts.
    pub fn counts(&self) -> (r: DbStatsCounts)
        ensures
            r == self.spec_counts(),
    {
        self.counts
    }

    fn record_storage_load(&mut self, address: &Address)
        requires
            old(self).wf(),
            old(self).spec_counts().get_storage < u64::MAX,
        ensures
            final(self).wf(),
            (final(self).spec_counts(), final(self).spec_last(), final(self).spec_streak())
                == counts_after_storage_load(
                old(self).spec_counts(),
                old(self).spec_last(),
                old(self).spec_streak(),
                *address,
            ),
            final(self).spec_db() == old(self).spec_db(),
    {
        let repeat = match &self.last_storage_address {
            Some(last) => last.key_eq(address),
            None => false,
        };
        let mut counts = self.counts;
        counts.get_storage = counts.get_storage + 1;
        let streak: u64 = if repeat {
            counts.get_storage_same_address_repeats = counts.get_storage_same_address_repeats + 1;
            self.storage_address_streak + 1
        } else {
            1
        };
        if counts.get_storage_same_address_longest_streak < streak {
            counts.get_storage_same_address_longest_streak = streak;
        }
        self.counts = counts;
        self.last_storage_address = Some(*address);
        self.storage_address_streak = streak;
    }

    /// Loads an account, counting the load.
    pub fn get_account(&mut self, address: &Address) -> (r: DbResult<Option<AccountInfo>>)
        requires
            old(self).wf(),
            old(self).spec_db().wf(),
            old(self).spec_counts().get_account < u64::MAX,
        ensures
            final(self).wf(),
            r == Ok::<Option<AccountInfo>, DbErrorCode>(old(self).spec_db().spec_account(*address)),
            final(self).spec_db().wf(),
            final(self).spec_db().same_reads(&old(self).spec_db()),
            final(self).spec_counts() == (DbStatsCounts {
                get_account: (old(self).spec_counts().get_account + 1) as u64,
                ..old(self).spec_counts()
            }),
            final(self).spec_last() == old(self).spec_last(),
            final(self).spec_streak() == old(self).spec_streak(),
    {
        self.counts.get_account = self.counts.get_account + 1;
        self.db.get_account(address)
    }

    /// Loads code by hash, counting the load.
    pub fn get_code_by_hash(&mut self, code_hash: &B256) -> (r: DbResult<Bytecode>)
        requires
            old(self).spec_counts().get_code_by_hash < u64::MAX,
            old(self).wf(),
        ensures
            final(self).wf(),
            r is Ok,
            r.unwrap().bytes@ == (match old(self).spec_db().spec_code(*code_hash) {
                Some(c) => c,
                None => Seq::<u8>::empty(),
            }),
            final(self).spec_counts() == (DbStatsCounts {
                get_code_by_hash: (old(self).spec_counts().get_code_by_hash + 1) as u64,
                ..old(self).spec_counts()
            }),
            final(self).spec_last() == old(self).spec_last(),
            final(self).spec_streak() == old(self).spec_streak(),
    {
        self.counts.get_code_by_hash = self.counts.get_code_by_hash + 1;
        self.db.get_code_by_hash(code_hash)
    }

    /// Loads a storage slot, counting the load and how it continues the run of loads of one
    /// address.
    pub fn get_storage(&mut self, address: &Address, key: &Word) -> (r: DbResult<Word>)
        requires
            old(self).wf(),
            old(self).spec_db().wf(),
            old(self).spec_counts().get_storage < u64::MAX,
        ensures
            final(self).wf(),
            r == Ok::<Word, DbErrorCode>(old(self).spec_db().spec_storage(*address, *key)),
            final(self).spec_db().wf(),
            final(self).spec_db().same_reads(&old(self).spec_db()),
            (final(self).spec_counts(), final(self).spec_last(), final(self).spec_streak())
                == counts_after_storage_load(
                old(self).spec_counts(),
                old(self).spec_last(),
                old(self).spec_streak(),
                *address,
            ),
    {
        self.record_storage_load(address);
        self.db.get_storage(address, key)
    }

    /// Loads a block hash, counting the load.
    pub fn get_block_hash(&mut self, number: &Word) -> (r: DbResult<Option<B256>>)
        requires
            old(self).wf(),
            old(self).spec_counts().get_block_hash < u64::MAX,
        ensures
            final(self).wf(),
            r == Ok::<Option<B256>, DbErrorCode>(if old(self).spec_db().cache.block_hashes@.contains_key(
                *number,
            ) {
                Some(old(self).spec_db().cache.block_hashes@[*number])
            } else {
                None
            }),
            final(self).spec_counts() == (DbStatsCounts {
                get_block_hash: (old(self).spec_counts().get_block_hash + 1) as u64,
                ..old(self).spec_counts()
            }),
            final(self).spec_last() == old(self).spec_last(),
            final(self).spec_streak() == old(self).spec_streak(),
    {
        self.counts.get_block_hash = self.counts.get_block_hash + 1;
        self.db.get_block_hash(number)
    }

    /// The longest run of storage loads of one address covers the current run, and neither it
    /// nor the repeats exceed the storage loads.
    pub proof fn law_streaks_bounded(stats: DbStats)
        requires
            stats.wf(),
        ensures
            stats.spec_streak() <= stats.spec_counts().get_storage_same_address_longest_streak,
            stats.spec_counts().get_storage_same_address_longest_streak <= stats.spec_counts().get_storage,
            stats.spec_counts().get_storage_same_address_repeats <= stats.spec_counts().get_storage,
    {
    }
}

} // verus!
