use evm2::primitives::{Address, Word};
use evm2::state::{
    AccountChange, AccountChangeRef, AccountInfo, BlockStateAccumulator, NoopChangeSink,
    StateChangeSource, StateChanges, StorageChange, Tee, TrackedValue,
};
use evm2::vecmap::VecMap;

fn repeated(b: u8) -> Address {
    Address::new(u64::from_ne_bytes([b; 8]), u64::from_ne_bytes([b; 8]), u32::from_ne_bytes([b; 4]))
}

fn slot(address: Address, key: Word, original: Word, current: Word) -> StorageChange {
    StorageChange { address, key, original, current }
}

fn account(
    address: Address,
    original: Option<AccountInfo>,
    current: Option<AccountInfo>,
) -> AccountChangeRef {
    AccountChangeRef { address, original, current }
}

#[test]
fn block_accumulator_collapses_create_then_delete() {
    let address = repeated(0x50);
    let key = Word::from_u64(1);
    let created = AccountInfo::default().with_nonce(1);
    let mut accumulator = BlockStateAccumulator::new();

    accumulator.record_storage_wipe(address);
    accumulator.record_storage(slot(address, key, Word::zero(), Word::from_u64(7)));
    accumulator.record_account(account(address, None, Some(created)));

    accumulator.record_storage_wipe(address);
    accumulator.record_account(account(address, Some(created), None));

    assert!(accumulator.accounts_sorted().is_empty());
    assert!(accumulator.storage_wipes_sorted().is_empty());
    assert!(accumulator.storage_sorted().is_empty());
    assert!(accumulator.is_empty());
}

#[test]
fn block_accumulator_preserves_original_for_delete_then_recreate() {
    let address = repeated(0x51);
    let key = Word::from_u64(1);
    let original = AccountInfo::default().with_balance(Word::from_u64(3));
    let recreated = AccountInfo::default().with_nonce(1);
    let mut accumulator = BlockStateAccumulator::new();

    accumulator.record_storage_wipe(address);
    accumulator.record_account(account(address, Some(original), None));

    accumulator.record_storage_wipe(address);
    accumulator.record_storage(slot(address, key, Word::zero(), Word::from_u64(7)));
    accumulator.record_account(account(address, None, Some(recreated)));

    let accounts = accumulator.accounts_sorted();
    assert_eq!(accounts.len(), 1);
    assert_eq!(accounts[0].1.original, Some(original));
    assert_eq!(accounts[0].1.current, Some(recreated));
    assert_eq!(accumulator.storage_wipes_sorted(), [address]);

    let storage = accumulator.storage_sorted();
    assert_eq!(storage.len(), 1);
    assert_eq!(storage[0].0.key, key);
    assert_eq!(storage[0].1.current, Word::from_u64(7));
}

#[test]
fn block_accumulator_keeps_nonzero_write_after_storage_wipe() {
    let address = repeated(0x52);
    let key = Word::from_u64(1);
    let mut accumulator = BlockStateAccumulator::new();

    accumulator.record_storage_wipe(address);
    accumulator.record_storage(slot(address, key, Word::from_u64(5), Word::from_u64(5)));

    assert!(accumulator.accounts_sorted().is_empty());
    assert_eq!(accumulator.storage_wipes_sorted(), [address]);

    let storage = accumulator.storage_sorted();
    assert_eq!(storage.len(), 1);
    assert_eq!(storage[0].0.key, key);
    assert_eq!(storage[0].1.current, Word::from_u64(5));
}

#[test]
fn block_accumulator_deletion_subsumes_storage_writes() {
    let address = repeated(0x56);
    let key = Word::from_u64(1);
    let original = AccountInfo::default().with_balance(Word::from_u64(3));
    let mut accumulator = BlockStateAccumulator::new();

    accumulator.record_storage_wipe(address);
    accumulator.record_storage(slot(address, key, Word::from_u64(5), Word::from_u64(7)));
    accumulator.record_account(account(address, Some(original), None));

    let accounts = accumulator.accounts_sorted();
    assert_eq!(accounts.len(), 1);
    assert_eq!(accounts[0].0, address);
    assert!(accounts[0].1.current.is_none());
    assert!(accumulator.storage_wipes_sorted().is_empty());
    assert!(accumulator.storage_sorted().is_empty());
}

#[test]
fn block_accumulator_collapses_storage_wipe_write_wipe() {
    let address = repeated(0x52);
    let key = Word::from_u64(1);
    let mut accumulator = BlockStateAccumulator::new();

    accumulator.record_storage_wipe(address);
    accumulator.record_storage(slot(address, key, Word::from_u64(5), Word::from_u64(7)));
    accumulator.record_storage_wipe(address);

    assert!(accumulator.accounts_sorted().is_empty());
    assert_eq!(accumulator.storage_wipes_sorted(), [address]);
    assert!(accumulator.storage_sorted().is_empty());
}

#[test]
fn block_accumulator_keeps_account_only_and_storage_only_changes_separate() {
    let account_address = repeated(0x53);
    let storage_address = repeated(0x54);
    let key = Word::from_u64(1);
    let original = AccountInfo::default().with_balance(Word::from_u64(1));
    let current = AccountInfo::default().with_balance(Word::from_u64(2));
    let mut accumulator = BlockStateAccumulator::new();

    accumulator.record_account(account(account_address, Some(original), Some(current)));
    accumulator.record_storage(slot(storage_address, key, Word::from_u64(3), Word::from_u64(4)));

    let accounts = accumulator.accounts_sorted();
    assert_eq!(accounts.len(), 1);
    assert_eq!(accounts[0].0, account_address);
    assert_eq!(accounts[0].1.original, Some(original));
    assert_eq!(accounts[0].1.current, Some(current));
    assert!(accumulator.storage_wipes_sorted().is_empty());

    let storage = accumulator.storage_sorted();
    assert_eq!(storage.len(), 1);
    assert_eq!(storage[0].0.address, storage_address);
    assert_eq!(storage[0].0.key, key);
    assert_eq!(storage[0].1.original, Word::from_u64(3));
    assert_eq!(storage[0].1.current, Word::from_u64(4));
}

fn slots(entries: &[(u64, u64, u64)]) -> VecMap<Word, TrackedValue<Word>> {
    let mut m = VecMap::new();
    for &(k, o, c) in entries {
        m.insert(Word::from_u64(k), TrackedValue::from_parts(Word::from_u64(o), Word::from_u64(c)));
    }
    m
}

fn change(
    original: Option<AccountInfo>,
    current: Option<AccountInfo>,
    storage: VecMap<Word, TrackedValue<Word>>,
    wipe_storage: bool,
) -> AccountChange {
    AccountChange {
        original,
        current,
        code: None,
        storage,
        wipe_storage,
        created: false,
        selfdestructed: false,
    }
}

#[test]
fn transaction_changes_visit_into_block_accumulator() {
    let a = repeated(0x60);
    let b = repeated(0x61);
    let before = AccountInfo::default().with_balance(Word::from_u64(1));
    let after = AccountInfo::default().with_balance(Word::from_u64(9));
    let mut changes = StateChanges::new();
    // Slot 1 changes, slot 2 is only loaded, slot 3 is written back to zero.
    changes.accounts.insert(
        a,
        change(Some(before), Some(after), slots(&[(1, 0, 5), (2, 4, 4), (3, 6, 0)]), false),
    );
    // Loaded but unchanged: no event at all.
    changes.accounts.insert(b, change(Some(before), Some(before), slots(&[(1, 2, 2)]), false));

    let mut accumulator = BlockStateAccumulator::new();
    changes.visit(&mut accumulator).unwrap();

    let accounts = accumulator.accounts_sorted();
    assert_eq!(accounts.len(), 1);
    assert_eq!(accounts[0].0, a);
    assert_eq!(accounts[0].1.original, Some(before));
    assert_eq!(accounts[0].1.current, Some(after));
    let storage = accumulator.storage_sorted();
    assert_eq!(storage.len(), 2);
    assert_eq!(storage[0].0.key, Word::from_u64(1));
    assert_eq!(storage[0].1.current, Word::from_u64(5));
    assert_eq!(storage[1].0.key, Word::from_u64(3));
    assert_eq!(storage[1].1.current, Word::zero());

    // A second transaction restores the account and slot 1: both deltas drop out.
    let mut undo = StateChanges::new();
    undo.accounts.insert(a, change(Some(after), Some(before), slots(&[(1, 5, 0)]), false));
    undo.visit(&mut accumulator).unwrap();
    assert!(accumulator.accounts_sorted().is_empty());
    let storage = accumulator.storage_sorted();
    assert_eq!(storage.len(), 1);
    assert_eq!(storage[0].0.key, Word::from_u64(3));
}

#[test]
fn block_accumulator_storage_is_listed_by_address_then_slot() {
    let low = repeated(0x10);
    let high = repeated(0x20);
    let mut accumulator = BlockStateAccumulator::new();
    accumulator.record_storage(slot(high, Word::from_u64(1), Word::zero(), Word::from_u64(1)));
    accumulator.record_storage(slot(low, Word::from_u64(9), Word::zero(), Word::from_u64(1)));
    accumulator.record_storage(slot(low, Word::from_u64(2), Word::zero(), Word::from_u64(1)));
    accumulator.record_storage_wipe(high);
    accumulator.record_storage_wipe(low);

    let storage = accumulator.storage_sorted();
    assert!(storage.is_empty());
    assert_eq!(accumulator.storage_wipes_sorted(), [low, high]);

    accumulator.record_storage(slot(high, Word::from_u64(1), Word::zero(), Word::from_u64(1)));
    accumulator.record_storage(slot(low, Word::from_u64(9), Word::zero(), Word::from_u64(1)));
    accumulator.record_storage(slot(low, Word::from_u64(2), Word::zero(), Word::from_u64(1)));
    // A zero written over wiped storage is no delta.
    accumulator.record_storage(slot(low, Word::from_u64(4), Word::from_u64(3), Word::zero()));
    let storage = accumulator.storage_sorted();
    let keys: Vec<(Address, Word)> = storage.iter().map(|(k, _)| (k.address, k.key)).collect();
    assert_eq!(
        keys,
        [(low, Word::from_u64(2)), (low, Word::from_u64(9)), (high, Word::from_u64(1))]
    );
}

#[test]
fn tee_forwards_block_changes_to_both_sinks() {
    let a = repeated(0x70);
    let mut source = BlockStateAccumulator::new();
    source.record_account(account(a, None, Some(AccountInfo::default().with_nonce(1))));
    source.record_storage(slot(a, Word::from_u64(1), Word::zero(), Word::from_u64(2)));

    let mut tee = Tee::new(BlockStateAccumulator::new(), BlockStateAccumulator::new());
    source.visit(&mut tee).unwrap();
    let (left, right) = tee.into_parts();
    for copy in [left, right] {
        assert_eq!(copy.accounts_sorted(), source.accounts_sorted());
        assert_eq!(copy.storage_sorted(), source.storage_sorted());
        assert_eq!(copy.storage_wipes_sorted(), source.storage_wipes_sorted());
    }
    assert!(source.visit(&mut NoopChangeSink::new()).is_ok());
}
