use evm2::bal::{
    check_change_index, check_storage_key_order, checked_changes, checked_storage, AccountId,
    BalChangeKind, BalDecodeError, BalError, BalWrites, SlotChanges,
};
use evm2::primitives::{Address, Word};

fn w(x: u64) -> Word {
    Word::from_u64(x)
}

#[test]
fn bal_writes_return_previous_value() {
    let writes = BalWrites::new(vec![(1, w(10)), (3, w(30))]);

    assert_eq!(writes.get(0), None);
    assert_eq!(writes.get(1), None);
    assert_eq!(writes.get(2), Some(w(10)));
    assert_eq!(writes.get(3), Some(w(10)));
    assert_eq!(writes.get(4), Some(w(30)));
}

#[test]
fn bal_writes_sort_on_construction_and_search_long_lists() {
    let writes = BalWrites::new(vec![(9, w(90)), (1, w(10)), (5, w(50)), (3, w(30)), (7, w(70)), (11, w(110))]);
    assert_eq!(writes.writes.iter().map(|x| x.0).collect::<Vec<_>>(), vec![1, 3, 5, 7, 9, 11]);
    assert_eq!(writes.get(1), None);
    assert_eq!(writes.get(2), Some(w(10)));
    assert_eq!(writes.get(6), Some(w(50)));
    assert_eq!(writes.get(9), Some(w(70)));
    assert_eq!(writes.get(100), Some(w(110)));
}

#[test]
fn bal_writes_update_skips_unchanged_and_collapses_reverts() {
    let mut writes: BalWrites<Word> = BalWrites::new(Vec::new());
    writes.update(1, &w(0), w(0));
    assert!(writes.is_empty());
    writes.update(1, &w(0), w(5));
    assert_eq!(writes.writes, vec![(1, w(5))]);
    writes.update(2, &w(0), w(5));
    assert_eq!(writes.writes, vec![(1, w(5))]);
    writes.update(2, &w(0), w(6));
    assert_eq!(writes.writes, vec![(1, w(5)), (2, w(6))]);
    writes.update(2, &w(0), w(7));
    assert_eq!(writes.writes, vec![(1, w(5)), (2, w(7))]);
    writes.update(2, &w(0), w(5));
    assert_eq!(writes.writes, vec![(1, w(5))]);
    writes.update(1, &w(0), w(0));
    assert!(writes.is_empty());
}

#[test]
fn bal_writes_force_update_replaces_same_index() {
    let mut writes: BalWrites<u64> = BalWrites::new(Vec::new());
    writes.force_update(1, 3);
    writes.force_update(1, 3);
    assert_eq!(writes.writes, vec![(1, 3)]);
    writes.force_update(2, 3);
    assert_eq!(writes.writes, vec![(1, 3), (2, 3)]);
    assert_eq!(writes.get(3), Some(3));
}

#[test]
fn bal_writes_extend_merges_in_index_order() {
    let mut writes = BalWrites::new(vec![(2, w(2)), (6, w(6))]);
    writes.extend(BalWrites::new(vec![(4, w(4))]));
    assert_eq!(writes.writes, vec![(2, w(2)), (4, w(4)), (6, w(6))]);
}

#[test]
fn change_indices_must_increase_and_fit_u32() {
    let address = Address::with_last_byte(1);
    let mut previous = None;
    assert!(check_change_index(address, BalChangeKind::Nonce, &mut previous, 1).is_ok());
    assert_eq!(previous, Some(1));
    assert_eq!(
        check_change_index(address, BalChangeKind::Nonce, &mut previous, 1),
        Err(BalDecodeError::DuplicateBlockAccessIndex { address, kind: BalChangeKind::Nonce, index: 1 })
    );
    assert!(check_change_index(address, BalChangeKind::Nonce, &mut previous, 4).is_ok());
    assert_eq!(
        check_change_index(address, BalChangeKind::Nonce, &mut previous, 2),
        Err(BalDecodeError::ChangeIndicesOutOfOrder { address, kind: BalChangeKind::Nonce, previous: 4, index: 2 })
    );
    assert_eq!(
        check_change_index(address, BalChangeKind::Code, &mut previous, 1 << 32),
        Err(BalDecodeError::BlockAccessIndexOutOfRange { address, kind: BalChangeKind::Code, index: 1 << 32 })
    );
    assert_eq!(previous, Some(4));
}

#[test]
fn storage_keys_must_increase() {
    let address = Address::with_last_byte(2);
    let mut previous = None;
    assert!(check_storage_key_order(address, &mut previous, w(3)).is_ok());
    assert_eq!(
        check_storage_key_order(address, &mut previous, w(3)),
        Err(BalDecodeError::DuplicateStorageKey { address, slot: w(3) })
    );
    assert_eq!(
        check_storage_key_order(address, &mut previous, w(1)),
        Err(BalDecodeError::StorageKeysOutOfOrder { address, previous: w(3), slot: w(1) })
    );
}

#[test]
fn checked_changes_returns_first_error() {
    let address = Address::with_last_byte(3);
    let ok = checked_changes(address, BalChangeKind::Balance, vec![(1, w(1)), (2, w(2))]).unwrap();
    assert_eq!(ok.writes, vec![(1, w(1)), (2, w(2))]);
    assert_eq!(
        checked_changes(address, BalChangeKind::Balance, vec![(3, w(1)), (2, w(2)), (2, w(3))]).err(),
        Some(BalDecodeError::ChangeIndicesOutOfOrder { address, kind: BalChangeKind::Balance, previous: 3, index: 2 })
    );
}

#[test]
fn checked_storage_imports_changes_and_reads() {
    let address = Address::with_last_byte(4);
    let changes = vec![
        SlotChanges { slot: w(1), changes: vec![(1, w(10))] },
        SlotChanges { slot: w(5), changes: vec![(2, w(50)), (4, w(51))] },
    ];
    let storage = checked_storage(address, changes, vec![w(2), w(9)]).unwrap();
    assert_eq!(storage.storage.len(), 4);
    assert_eq!(storage.get(&address, w(5), 3), Ok(Some(w(50))));
    assert_eq!(storage.get(&address, w(5), 5), Ok(Some(w(51))));
    assert_eq!(storage.get(&address, w(2), 5), Ok(None));
    assert_eq!(storage.get(&address, w(7), 5), Err(BalError::SlotNotFound { address, slot: w(7) }));
}

#[test]
fn checked_storage_rejects_bad_input() {
    let address = Address::with_last_byte(5);
    let empty = vec![SlotChanges { slot: w(1), changes: Vec::new() }];
    assert_eq!(checked_storage(address, empty, Vec::new()).err(), Some(BalDecodeError::EmptyStorageChanges { address, slot: w(1) }));

    let both = vec![SlotChanges { slot: w(1), changes: vec![(1, w(1))] }];
    assert_eq!(checked_storage(address, both, vec![w(1)]).err(), Some(BalDecodeError::DuplicateStorageKey { address, slot: w(1) }));

    let unordered = vec![
        SlotChanges { slot: w(4), changes: vec![(1, w(1))] },
        SlotChanges { slot: w(2), changes: vec![(1, w(1))] },
    ];
    assert_eq!(
        checked_storage(address, unordered, Vec::new()).err(),
        Some(BalDecodeError::StorageKeysOutOfOrder { address, previous: w(4), slot: w(2) })
    );

    assert_eq!(
        checked_storage(address, Vec::new(), vec![w(3), w(3)]).err(),
        Some(BalDecodeError::DuplicateStorageKey { address, slot: w(3) })
    );
}

#[test]
fn account_id_round_trips() {
    assert_eq!(AccountId::new(7).get(), 7);
}

#[test]
fn change_kind_names() {
    assert_eq!(BalChangeKind::Storage.as_str(), "storage");
    assert_eq!(BalChangeKind::Balance.as_str(), "balance");
    assert_eq!(BalChangeKind::Nonce.as_str(), "nonce");
    assert_eq!(BalChangeKind::Code.as_str(), "code");
}

#[test]
fn account_ids_compare_as_their_indices() {
    assert!(AccountId::new(1) < AccountId::new(2));
    assert_eq!(AccountId::new(3), AccountId::new(3));
    assert_eq!(AccountId::new(AccountId::new(5).get()), AccountId::new(5));
    assert!(AccountId::new(9) > AccountId::new(2));
}
