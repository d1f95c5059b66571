use evm2::bal::{BalChangeKind, BalDecodeError, BalError, BalWrites, SlotChanges, StorageBal};
use evm2::bal_account::{AccountBal, AccountInfoBal, Bal};
use evm2::bytecode::Bytecode;
use evm2::primitives::{Address, Word, B256};
use evm2::state::{AccountChange, AccountInfo, TrackedValue};
use evm2::vecmap::VecMap;

fn change(original: Option<AccountInfo>, current: Option<AccountInfo>) -> AccountChange {
    AccountChange {
        original,
        current,
        code: None,
        storage: VecMap::new(),
        wipe_storage: false,
        created: false,
        selfdestructed: false,
    }
}

fn w(x: u64) -> Word {
    Word::from_u64(x)
}

#[test]
fn update_account_builds_bal_from_account_change() {
    let address = Address::with_last_byte(1);

    let mut change = change(None, Some(AccountInfo::default().with_nonce(1).with_balance(w(100))));
    change.storage.insert(w(5), TrackedValue::from_parts(Word::zero(), w(42)));
    change.storage.insert(w(6), TrackedValue::new(w(7)));

    let mut bal = Bal::new();
    bal.update_account(1, address, &change);

    let account = bal.accounts.get(&address).unwrap();
    assert_eq!(account.account_info.nonce.writes, vec![(1, 1)]);
    assert_eq!(account.account_info.balance.writes, vec![(1, w(100))]);
    assert!(account.account_info.code.writes.is_empty());
    assert_eq!(account.storage.storage.get(&w(5)).unwrap().writes, vec![(1, w(42))]);
    assert!(account.storage.storage.get(&w(6)).unwrap().writes.is_empty());
}

#[test]
fn update_account_selfdestruct_uses_finalized_post_state() {
    let address = Address::with_last_byte(1);

    let mut change = change(Some(AccountInfo::default().with_balance(w(100))), None);
    change.mark_selfdestruct();
    change.storage.insert(w(5), TrackedValue::new(w(42)));

    let mut bal = Bal::new();
    bal.update_account(2, address, &change);

    let account = bal.accounts.get(&address).unwrap();
    assert_eq!(account.account_info.balance.writes, vec![(2, Word::zero())]);
    assert!(account.storage.storage.get(&w(5)).unwrap().writes.is_empty());
}

#[test]
fn bal_reads_back_recorded_changes_at_later_indices() {
    let address = Address::with_last_byte(9);
    let before = AccountInfo::default().with_balance(w(10));
    let after = AccountInfo::default().with_balance(w(11)).with_nonce(1);
    let mut c = change(Some(before), Some(after));
    c.storage.insert(w(1), TrackedValue::from_parts(w(3), w(4)));
    let mut bal = Bal::new();
    bal.update_account(1, address, &c);

    let mut at_one = before;
    assert_eq!(bal.populate_account_info(&address, 1, &mut at_one), Ok(false));
    assert_eq!(at_one, before);
    let mut at_two = before;
    assert_eq!(bal.populate_account_info(&address, 2, &mut at_two), Ok(true));
    assert_eq!(at_two, after);

    assert_eq!(bal.storage(&address, w(1), 1), Ok(None));
    assert_eq!(bal.storage(&address, w(1), 2), Ok(Some(w(4))));
    let mut value = w(3);
    assert_eq!(bal.populate_storage_slot(address, 5, w(1), &mut value), Ok(()));
    assert_eq!(value, w(4));

    let other = Address::with_last_byte(8);
    assert_eq!(bal.storage(&other, w(1), 2), Err(BalError::AccountNotFound { address: other }));
    assert_eq!(
        bal.storage(&address, w(2), 2),
        Err(BalError::SlotNotFound { address, slot: w(2) })
    );
    let mut untouched = w(77);
    assert!(bal.populate_storage_slot(other, 2, w(1), &mut untouched).is_err());
    assert_eq!(untouched, w(77));
}

#[test]
fn storage_wipe_turns_earlier_slots_into_reads() {
    let address = Address::with_last_byte(3);
    let info = AccountInfo::default().with_balance(w(1));
    let mut first = change(Some(info), Some(info));
    first.storage.insert(w(1), TrackedValue::from_parts(Word::zero(), w(9)));
    let mut bal = Bal::new();
    bal.update_account(1, address, &first);

    let mut wipe = change(Some(info), Some(info));
    wipe.wipe_storage = true;
    wipe.storage.insert(w(2), TrackedValue::from_parts(Word::zero(), w(5)));
    wipe.storage.insert(w(3), TrackedValue::from_parts(w(8), Word::zero()));
    bal.update_account(2, address, &wipe);

    let storage = &bal.accounts.get(&address).unwrap().storage.storage;
    assert!(storage.get(&w(1)).unwrap().writes.is_empty());
    assert_eq!(storage.get(&w(2)).unwrap().writes, vec![(2, w(5))]);
    assert!(storage.get(&w(3)).unwrap().writes.is_empty());
}

#[test]
fn storage_into_vecs_lists_reads_and_writes_in_slot_order() {
    let mut storage = StorageBal::new();
    storage.update_reads(&vec![w(3), w(1)]);
    let mut slots = VecMap::new();
    slots.insert(w(4), TrackedValue::from_parts(Word::zero(), w(80)));
    slots.insert(w(2), TrackedValue::from_parts(Word::zero(), w(20)));
    storage.update_slots(6, false, &slots);

    let (reads, writes) = storage.into_vecs();
    assert_eq!(reads, vec![w(1), w(3)]);
    assert_eq!(writes.len(), 2);
    assert_eq!(writes[0].0, w(2));
    assert_eq!(writes[0].1.writes, vec![(6, w(20))]);
    assert_eq!(writes[1].0, w(4));
}

#[test]
fn storage_extend_merges_histories_by_index() {
    let mut a = StorageBal::new();
    a.storage.insert(w(1), BalWrites::new(vec![(3, w(30))]));
    let mut b = StorageBal::new();
    b.storage.insert(w(1), BalWrites::new(vec![(1, w(10))]));
    b.storage.insert(w(2), BalWrites::new(vec![]));
    a.extend(b);
    assert_eq!(a.storage.get(&w(1)).unwrap().writes, vec![(1, w(10)), (3, w(30))]);
    assert!(a.storage.get(&w(2)).unwrap().writes.is_empty());
}

#[test]
fn account_info_code_changes_record_hash_and_bytecode() {
    let mut info = AccountInfoBal::new();
    let original = AccountInfo::default();
    let code = Bytecode::new_legacy(vec![0x60, 0x00]);
    let hash = code.hash_slow();
    let present = AccountInfo::new(Word::zero(), 0, hash);
    info.update(4, &original, &present, Some(&code));
    assert_eq!(info.code.writes, vec![(4, hash)]);
    assert_eq!(info.code_bytes.get(&hash).unwrap().bytes, vec![0x60, 0x00]);
    assert!(info.nonce.writes.is_empty());

    let mut other = AccountInfoBal::new();
    other.nonce_update(2, &0, 5);
    other.balance_update(7, &Word::zero(), w(1));
    info.extend(other);
    assert_eq!(info.nonce.writes, vec![(2, 5)]);
    assert_eq!(info.balance.writes, vec![(7, w(1))]);

    let mut account = AccountInfo::default();
    assert!(AccountBal { account_info: info, storage: StorageBal::new() }
        .populate_account_info(5, &mut account));
    assert_eq!(account.nonce, 5);
    assert_eq!(account.code_hash, hash);
    assert_eq!(account.balance, Word::zero());
    assert_ne!(hash, B256::keccak_empty());
}

#[test]
fn decoded_account_entry_imports_histories() {
    let address = Address::with_last_byte(1);
    let code = Bytecode::new_legacy(vec![0x60, 0x00]);
    let account = AccountBal::try_from_changes(
        address,
        vec![(3, 30)],
        vec![(2, w(20))],
        vec![(4, code.clone())],
        vec![SlotChanges { slot: w(1), changes: vec![(1, w(10))] }],
        vec![w(2)],
    )
    .unwrap();
    assert_eq!(account.account_info.nonce.writes, vec![(3, 30)]);
    assert_eq!(account.account_info.balance.writes, vec![(2, w(20))]);
    assert_eq!(account.account_info.code.writes, vec![(4, code.hash_slow())]);
    assert_eq!(account.account_info.code_bytes.get(&code.hash_slow()).unwrap().bytes, code.bytes);
    assert_eq!(account.storage.storage.get(&w(1)).unwrap().writes, vec![(1, w(10))]);
    assert!(account.storage.storage.get(&w(2)).unwrap().writes.is_empty());

    // The nonce list is checked first, then balance, code and storage.
    let err = AccountBal::try_from_changes(
        address,
        vec![(2, 1), (2, 2)],
        vec![(5, w(1)), (4, w(2))],
        Vec::new(),
        Vec::new(),
        Vec::new(),
    )
    .err();
    assert_eq!(
        err,
        Some(BalDecodeError::DuplicateBlockAccessIndex { address, kind: BalChangeKind::Nonce, index: 2 })
    );
    let err = AccountBal::try_from_changes(
        address,
        Vec::new(),
        Vec::new(),
        vec![(1u64 << 32, code)],
        Vec::new(),
        Vec::new(),
    )
    .err();
    assert_eq!(
        err,
        Some(BalDecodeError::BlockAccessIndexOutOfRange {
            address,
            kind: BalChangeKind::Code,
            index: 1u64 << 32
        })
    );
}

#[test]
fn canonical_changes_sort_slots_reads_and_writes() {
    let mut storage = evm2::bal::StorageBal::new();
    storage.storage.insert(Word::from_u64(9), evm2::bal::BalWrites { writes: vec![(4, Word::from_u64(1)), (1, Word::from_u64(2))] });
    storage.storage.insert(Word::from_u64(7), evm2::bal::BalWrites { writes: vec![] });
    storage.storage.insert(Word::from_u64(3), evm2::bal::BalWrites { writes: vec![(2, Word::from_u64(5))] });
    storage.storage.insert(Word::from_u64(1), evm2::bal::BalWrites { writes: vec![] });
    let code = Bytecode::new_legacy(vec![0x60, 0x00]);
    let mut code_bytes = evm2::vecmap::VecMap::new();
    code_bytes.insert(code.hash_slow(), code.clone());
    let account = AccountBal {
        account_info: evm2::bal_account::AccountInfoBal {
            nonce: evm2::bal::BalWrites { writes: vec![(3, 8), (1, 7)] },
            balance: evm2::bal::BalWrites { writes: vec![(6, Word::from_u64(60)), (2, Word::from_u64(20))] },
            code: evm2::bal::BalWrites { writes: vec![(5, code.hash_slow()), (4, B256::zero())] },
            code_bytes,
        },
        storage,
    };
    let c = account.into_canonical_changes();
    assert_eq!(c.storage_reads, vec![Word::from_u64(1), Word::from_u64(7)]);
    assert_eq!(
        c.storage_changes,
        vec![
            (Word::from_u64(3), vec![(2, Word::from_u64(5))]),
            (Word::from_u64(9), vec![(1, Word::from_u64(2)), (4, Word::from_u64(1))]),
        ]
    );
    assert_eq!(c.nonce_changes, vec![(1, 7), (3, 8)]);
    assert_eq!(c.balance_changes, vec![(2, Word::from_u64(20)), (6, Word::from_u64(60))]);
    assert_eq!(c.code_changes, vec![(4, vec![]), (5, vec![0x60, 0x00])]);
}

#[test]
fn dump_lists_accounts_writes_and_slots() {
    let empty = Bal::new();
    assert_eq!(
        evm2::bal_dump::dump_lines(&empty),
        vec!["=== Block Access List (BAL) ===".to_string(), "Total accounts: 0".to_string(), String::new(), "(empty)".to_string()]
    );

    let mut storage = StorageBal::new();
    storage.storage.insert(Word::from_u64(0x20), BalWrites { writes: vec![(3, Word::from_u64(5))] });
    storage.storage.insert(Word::from_u64(0x10), BalWrites { writes: vec![] });
    let account = AccountBal {
        account_info: AccountInfoBal {
            nonce: BalWrites { writes: vec![(1, 7)] },
            balance: BalWrites { writes: vec![] },
            code: BalWrites { writes: vec![] },
            code_bytes: VecMap::new(),
        },
        storage,
    };
    let mut bal = Bal::new();
    bal.accounts.insert(Address::with_last_byte(2), account);
    let lines = evm2::bal_dump::dump_lines(&bal);
    let address = alloy_primitives::Address::with_last_byte(2);
    let expected: Vec<String> = vec![
        "=== Block Access List (BAL) ===".to_string(),
        "Total accounts: 1".to_string(),
        String::new(),
        format!("Account #0 - Address: {address:?}"),
        "  Account Info:".to_string(),
        "    Nonce writes:".to_string(),
        "      [1] -> 7".to_string(),
        "    Balance: (read-only, no writes)".to_string(),
        "    Code: (read-only, no writes)".to_string(),
        "  Storage:".to_string(),
        "    Total slots: 2".to_string(),
        "    Slot: 0x10".to_string(),
        "      (read-only, no writes)".to_string(),
        "    Slot: 0x20".to_string(),
        "      Writes:".to_string(),
        format!("        [3] -> {:?}", alloy_primitives::U256::from(5u64)),
        String::new(),
        "=== End of BAL ===".to_string(),
    ];
    assert_eq!(lines, expected);
}
