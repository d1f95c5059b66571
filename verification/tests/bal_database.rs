use evm2::bal::{BalError, BalWrites};
use evm2::bal_account::{AccountBal, Bal};
use evm2::bal_database::BalDatabase;
use evm2::db::{CacheDB, DbErrorCode};
use evm2::primitives::{Address, Word};
use evm2::state::{AccountChange, AccountInfo, StateChanges, TrackedValue};
use evm2::vecmap::VecMap;

fn w(x: u64) -> Word {
    Word::from_u64(x)
}

/// A database holding, at addresses 1 and 2, an account with balance 100 and nonce 3, and at
/// address 1 the value 9 in slots 7 and 9.
fn database() -> CacheDB {
    let mut db = CacheDB::new();
    let info = AccountInfo::default().with_balance(w(100)).with_nonce(3);
    db.insert_account_info(&Address::with_last_byte(1), info);
    db.insert_account_info(&Address::with_last_byte(2), info);
    db.insert_account_storage(&Address::with_last_byte(1), &w(7), &w(9));
    db.insert_account_storage(&Address::with_last_byte(1), &w(9), &w(9));
    db
}

/// A list covering `address`: a balance write and a write to slot 7, both at index 1.
fn read_bal(address: Address) -> Bal {
    let mut account = AccountBal::new();
    account.account_info.balance = BalWrites { writes: vec![(1, w(500))] };
    account.storage.storage.insert(w(7), BalWrites { writes: vec![(1, w(42))] });
    let mut bal = Bal::new();
    bal.accounts.insert(address, account);
    bal
}

fn database_with_read_bal(address: Address, allow_db_fallback: bool) -> BalDatabase {
    let mut db = BalDatabase::new(database()).with_bal(read_bal(address));
    db.bal_context.set_allow_db_fallback(allow_db_fallback);
    db.bal_context.set_bal_index(2);
    db
}

#[test]
fn attached_bal_serves_account_and_storage_reads() {
    let address = Address::with_last_byte(1);
    let mut db = database_with_read_bal(address, false);

    let account = db.get_account(&address).unwrap().unwrap();
    assert_eq!(account.balance, w(500));
    assert_eq!(account.nonce, 3);

    assert_eq!(db.get_storage(&address, &w(7)).unwrap(), w(42));
}

#[test]
fn uncovered_read_errors_without_fallback() {
    let address = Address::with_last_byte(1);
    let mut db = database_with_read_bal(address, false);

    let code = db.get_storage(&address, &w(9)).unwrap_err();
    assert_eq!(code, DbErrorCode::bal_not_covered());
    assert_eq!(db.error(code), Some(BalError::SlotNotFound { address, slot: w(9) }));

    let missing = Address::with_last_byte(2);
    let code = db.get_account(&missing).unwrap_err();
    assert_eq!(code, DbErrorCode::bal_not_covered());
    assert_eq!(db.error(code), Some(BalError::AccountNotFound { address: missing }));
    assert_eq!(db.error(code), None);
}

#[test]
fn uncovered_read_falls_back_to_database_when_allowed() {
    let address = Address::with_last_byte(1);
    let mut db = database_with_read_bal(address, true);

    assert_eq!(db.get_storage(&address, &w(9)).unwrap(), w(9));
    assert_eq!(db.get_storage(&address, &w(7)).unwrap(), w(42));

    let missing = Address::with_last_byte(2);
    let account = db.get_account(&missing).unwrap().unwrap();
    assert_eq!(account.balance, w(100));
}

#[test]
fn no_attached_bal_reads_straight_from_database() {
    let address = Address::with_last_byte(1);
    let mut db = BalDatabase::new(database());

    let account = db.get_account(&address).unwrap().unwrap();
    assert_eq!(account.balance, w(100));
    assert_eq!(db.get_storage(&address, &w(7)).unwrap(), w(9));
}

#[test]
fn bal_database_overlays_prior_account_and_storage_writes() {
    let address = Address::with_last_byte(0x11);
    let slot = w(1);
    let mut storage = VecMap::new();
    storage.insert(slot, TrackedValue::from_parts(Word::zero(), w(9)));
    let change = AccountChange {
        original: None,
        current: Some(AccountInfo::default().with_balance(w(7))),
        code: None,
        storage,
        wipe_storage: false,
        created: true,
        selfdestructed: false,
    };
    let mut bal = Bal::new();
    bal.update_account(1, address, &change);

    let mut db = BalDatabase::new(CacheDB::new()).with_bal(bal);
    db.bal_context.set_bal_index(2);

    assert_eq!(db.get_account(&address).unwrap().map(|account| account.balance), Some(w(7)));
    assert_eq!(db.get_storage(&address, &slot).unwrap(), w(9));
}

#[test]
fn reads_before_the_write_index_see_the_database() {
    let address = Address::with_last_byte(1);
    let mut db = database_with_read_bal(address, false);
    db.bal_context.set_bal_index(1);
    assert_eq!(db.get_account(&address).unwrap().unwrap().balance, w(100));
    assert_eq!(db.get_storage(&address, &w(7)).unwrap(), w(9));
}

#[test]
fn commit_records_into_the_builder_and_applies_to_the_database() {
    let a = Address::with_last_byte(1);
    let mut db = BalDatabase::new(database()).with_bal_builder();
    db.bal_context.set_bal_index(1);
    let before = AccountInfo::default().with_balance(w(100)).with_nonce(3);
    let after = AccountInfo::default().with_balance(w(60)).with_nonce(4);
    let mut storage = VecMap::new();
    storage.insert(w(7), TrackedValue::from_parts(w(9), w(11)));
    let mut changes = StateChanges::new();
    changes.accounts.insert(
        a,
        AccountChange {
            original: Some(before),
            current: Some(after),
            code: None,
            storage,
            wipe_storage: false,
            created: false,
            selfdestructed: false,
        },
    );
    db.commit(&changes);

    assert_eq!(db.db.get_account(&a), Ok(Some(after)));
    assert_eq!(db.db.get_storage(&a, &w(7)), Ok(w(11)));
    assert_eq!(db.db.get_storage(&a, &w(9)), Ok(w(9)));
    let built = db.bal_context.take_bal_builder().unwrap();
    let account = built.accounts.get(&a).unwrap();
    assert_eq!(account.account_info.balance.writes, vec![(1, w(60))]);
    assert_eq!(account.account_info.nonce.writes, vec![(1, 4)]);
    assert_eq!(account.storage.storage.get(&w(7)).unwrap().writes, vec![(1, w(11))]);
}
