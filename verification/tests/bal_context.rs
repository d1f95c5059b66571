use evm2::bal::{BalError, BalWrites};
use evm2::bal_account::{AccountBal, Bal};
use evm2::bal_context::{BalAccountInfo, BalAccountLookup, BalContext};
use evm2::bytecode::Bytecode;
use evm2::db::DbErrorCode;
use evm2::primitives::{Address, Word};
use evm2::state::{
    AccountChange, AccountChangeRef, AccountInfo, StateChangeSink, StateChanges, StorageChange, TrackedValue,
};
use evm2::vecmap::VecMap;

fn address() -> Address {
    Address::new(u64::from_ne_bytes([0xab; 8]), u64::from_ne_bytes([0xab; 8]), u32::from_ne_bytes([0xab; 4]))
}

fn w(x: u64) -> Word {
    Word::from_u64(x)
}

#[test]
fn account_info_lookup_obeys_coverage_and_fallback() {
    let a = address();
    let mut context = BalContext::new();
    assert_eq!(context.get_bal_account_info(&a), Ok(BalAccountLookup::NotCovered));

    context.set_bal(Bal::new());
    assert_eq!(context.get_bal_account_info(&a), Err(BalError::AccountNotFound { address: a }));
    context.set_allow_db_fallback(true);
    assert_eq!(context.get_bal_account_info(&a), Ok(BalAccountLookup::NotCovered));

    let mut bal = Bal::new();
    bal.accounts.insert(a, AccountBal::new());
    context.set_bal(bal);
    context.set_allow_db_fallback(false);
    assert_eq!(
        context.get_bal_account_info(&a),
        Ok(BalAccountLookup::Partial(BalAccountInfo { balance: None, nonce: None, code_hash: None })),
    );
}

#[test]
fn account_info_lookup_uses_exclusive_index_and_includes_post_execution() {
    let a = address();
    let code = Bytecode::new_legacy(vec![0x60, 0x01]);
    let hash = code.hash_slow();
    let mut account = AccountBal::new();
    account.account_info.balance = BalWrites::new(vec![(0, w(1)), (1, w(7)), (3, w(42))]);
    account.account_info.nonce = BalWrites::new(vec![(2, 5)]);
    account.account_info.code = BalWrites::new(vec![(3, hash)]);
    account.account_info.code_bytes.insert(hash, code.clone());
    let mut bal = Bal::new();
    bal.accounts.insert(a, account);
    let mut context = BalContext::new().with_bal(bal);

    for (index, balance, nonce) in
        [(0, None, None), (1, Some(w(1)), None), (2, Some(w(7)), None), (3, Some(w(7)), Some(5))]
    {
        context.set_bal_index(index);
        assert_eq!(
            context.get_bal_account_info(&a),
            Ok(BalAccountLookup::Partial(BalAccountInfo { balance, nonce, code_hash: None })),
        );
    }

    context.set_bal_index(4);
    let BalAccountLookup::Complete { info, code: found } = context.get_bal_account_info(&a).unwrap()
    else {
        panic!("all fields must be known after post-execution");
    };
    assert_eq!(info.balance, w(42));
    assert_eq!(info.nonce, 5);
    assert_eq!(info.code_hash, hash);
    assert_eq!(found, code);
}

#[test]
fn account_info_lookup_distinguishes_missing_fields_from_empty_values() {
    let a = address();
    for fields in 0..8 {
        let index = 1;
        let code = Bytecode::new();
        let mut account = AccountBal::new();
        let mut expected = BalAccountInfo { balance: None, nonce: None, code_hash: None };
        if fields & 1 != 0 {
            account.account_info.balance = BalWrites::new(vec![(index, Word::zero())]);
            expected.balance = Some(Word::zero());
        }
        if fields & 2 != 0 {
            account.account_info.nonce = BalWrites::new(vec![(index, 0)]);
            expected.nonce = Some(0);
        }
        if fields & 4 != 0 {
            expected.code_hash = Some(code.hash_slow());
            account.account_info.code = BalWrites::new(vec![(index, code.hash_slow())]);
            account.account_info.code_bytes.insert(code.hash_slow(), code.clone());
        }
        let mut bal = Bal::new();
        bal.accounts.insert(a, account);
        let mut context = BalContext::new().with_bal(bal);
        context.set_bal_index(2);

        let lookup = context.get_bal_account_info(&a).unwrap();
        if expected.is_complete() {
            let BalAccountLookup::Complete { info, code: found } = lookup else {
                panic!("all three recorded fields must produce a complete account");
            };
            assert!(info.is_empty());
            assert_eq!(found, code);
        } else {
            assert_eq!(lookup, BalAccountLookup::Partial(expected));
        }
    }
}

#[test]
fn clear_bal_restores_database_reads() {
    let a = address();
    let mut context = BalContext::new().with_bal(Bal::new());

    assert!(context.get_bal_account(&a).is_err());

    context.clear_bal();

    assert_eq!(context.get_bal_account(&a).map(|found| found.is_none()), Ok(true));
    assert!(context.bal().is_none());
}

#[test]
fn take_bal_error_returns_the_stashed_lookup_failure() {
    let a = address();
    let mut context = BalContext::new().with_bal(Bal::new());

    let err = context.get_bal_account(&a).map(|_| ()).unwrap_err();
    let code = context.store_error(err);
    assert_eq!(code, DbErrorCode::bal_not_covered());

    assert_eq!(context.take_bal_error(), Some(BalError::AccountNotFound { address: a }));
    assert_eq!(context.take_bal_error(), None);
}

#[test]
fn bal_storage_follows_coverage_and_fallback() {
    let a = address();
    let mut account = AccountBal::new();
    account.storage.storage.insert(w(1), BalWrites::new(vec![(1, w(9))]));
    let mut bal = Bal::new();
    bal.accounts.insert(a, account);
    let mut context = BalContext::new();
    assert_eq!(context.bal_storage(&a, &w(1)), Ok(None));

    context.set_bal(bal);
    context.set_bal_index(1);
    assert_eq!(context.bal_storage(&a, &w(1)), Ok(None));
    context.bump_bal_index();
    assert_eq!(context.bal_storage(&a, &w(1)), Ok(Some(w(9))));
    assert_eq!(context.bal_storage(&a, &w(2)), Err(BalError::SlotNotFound { address: a, slot: w(2) }));
    let other = Address::with_last_byte(1);
    assert_eq!(context.bal_storage(&other, &w(1)), Err(BalError::AccountNotFound { address: other }));
    context.set_allow_db_fallback(true);
    assert_eq!(context.bal_storage(&a, &w(2)), Ok(None));
    assert_eq!(context.bal_storage(&other, &w(1)), Ok(None));
}

#[test]
fn populate_bal_account_keeps_missing_accounts_missing() {
    let context = BalContext::new().with_bal(Bal::new());
    let empty = AccountBal::new();
    let mut missing: Option<AccountInfo> = None;
    context.populate_bal_account(&empty, &mut missing);
    assert_eq!(missing, None);

    let mut written = AccountBal::new();
    written.account_info.balance = BalWrites::new(vec![(0, w(5))]);
    let mut context = context;
    context.set_bal_index(1);
    context.populate_bal_account(&written, &mut missing);
    assert_eq!(missing, Some(AccountInfo::default().with_balance(w(5))));
}

#[test]
fn committed_transactions_build_the_list() {
    let a = address();
    let mut context = BalContext::new().with_bal_builder();
    context.bump_bal_index();
    let mut changes = StateChanges::new();
    let mut storage = VecMap::new();
    storage.insert(w(1), TrackedValue::from_parts(Word::zero(), w(3)));
    changes.accounts.insert(
        a,
        AccountChange {
            original: None,
            current: Some(AccountInfo::default().with_nonce(1)),
            code: None,
            storage,
            wipe_storage: false,
            created: true,
            selfdestructed: false,
        },
    );
    context.commit_pending(&changes);

    let built = context.take_bal_builder().unwrap();
    assert_eq!(context.bal_index(), 0);
    assert!(!context.has_builder());
    let account = built.accounts.get(&a).unwrap();
    assert_eq!(account.account_info.nonce.writes, vec![(1, 1)]);
    assert_eq!(account.storage.storage.get(&w(1)).unwrap().writes, vec![(1, w(3))]);

    // A context without a builder ignores commits.
    let mut plain = BalContext::new();
    plain.commit_pending(&changes);
    assert!(plain.bal_builder().is_none());
}

#[test]
fn streamed_changes_fold_into_the_builder() {
    let a = address();
    let mut context = BalContext::new().with_bal_builder();
    context.set_bal_index(1);
    let before = AccountInfo::default().with_balance(w(10)).with_nonce(1);
    let after = AccountInfo::default().with_balance(w(25)).with_nonce(1);
    assert_eq!(context.account(AccountChangeRef { address: a, original: Some(before), current: Some(after) }), Ok(()));
    assert_eq!(context.storage(StorageChange { address: a, key: w(7), original: w(1), current: w(2) }), Ok(()));
    assert_eq!(context.storage(StorageChange { address: a, key: w(8), original: w(3), current: w(3) }), Ok(()));

    let built = context.take_bal_builder().unwrap();
    let account = built.accounts.get(&a).unwrap();
    assert_eq!(account.account_info.balance.writes, vec![(1, w(25))]);
    assert!(account.account_info.nonce.writes.is_empty());
    assert_eq!(account.storage.storage.get(&w(7)).unwrap().writes, vec![(1, w(2))]);
    // A loaded but unchanged slot is listed as a read.
    assert!(account.storage.storage.get(&w(8)).unwrap().writes.is_empty());
}

#[test]
fn streamed_account_creation_counts_from_an_empty_account() {
    let a = address();
    let mut context = BalContext::new().with_bal_builder();
    context.set_bal_index(3);
    let created = AccountInfo::default().with_nonce(1);
    assert_eq!(context.account(AccountChangeRef { address: a, original: None, current: Some(created) }), Ok(()));
    let built = context.take_bal_builder().unwrap();
    let account = built.accounts.get(&a).unwrap();
    assert_eq!(account.account_info.nonce.writes, vec![(3, 1)]);
    assert!(account.account_info.balance.writes.is_empty());
    assert_eq!(account.storage.storage.len(), 0);
}

#[test]
fn streamed_changes_are_ignored_without_a_builder() {
    let a = address();
    let mut context = BalContext::new();
    assert_eq!(context.storage(StorageChange { address: a, key: w(7), original: w(1), current: w(2) }), Ok(()));
    assert_eq!(context.account(AccountChangeRef { address: a, original: None, current: None }), Ok(()));
    assert!(context.bal_builder().is_none());
}
