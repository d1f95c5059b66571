use evm2::bytecode::Bytecode;
use evm2::config::{SpecId, Version};
use evm2::db::CacheDB;
use evm2::eip7708::{address_topic, burn_topic};
use evm2::primitives::{Address, Word, B256};
use evm2::state::{AccountInfo, Log, State};

fn repeated(b: u8) -> Address {
    Address::new(u64::from_ne_bytes([b; 8]), u64::from_ne_bytes([b; 8]), u32::from_ne_bytes([b; 4]))
}

fn log_with(address: Address, data: u8) -> Log {
    Log { address, topics: Vec::new(), data: vec![data] }
}

#[test]
fn mod_storage_change_rolls_back_to_checkpoint() {
    let address = repeated(0x11);
    let mut database = CacheDB::new();
    database.insert_account_info(&address, AccountInfo::default());
    database.insert_account_storage(&address, &Word::from_u64(1), &Word::from_u64(10));
    let mut state = State::new(database);

    let checkpoint = state.checkpoint();
    state.set_storage(&address, &Word::from_u64(1), &Word::from_u64(20)).unwrap();
    state.set_storage(&address, &Word::from_u64(1), &Word::from_u64(30)).unwrap();

    assert_eq!(state.read_storage(&address, &Word::from_u64(1)).unwrap(), Word::from_u64(30));
    state.rollback(checkpoint, Version::base(SpecId::FRONTIER).features);
    assert_eq!(state.read_storage(&address, &Word::from_u64(1)).unwrap(), Word::from_u64(10));
}

#[test]
fn mod_transient_storage_change_rolls_back_to_checkpoint() {
    let address = repeated(0x22);
    let mut state = State::new(CacheDB::new());

    state.set_transient_storage(&address, &Word::from_u64(1), &Word::from_u64(10));
    let checkpoint = state.checkpoint();
    state.set_transient_storage(&address, &Word::from_u64(1), &Word::from_u64(20));

    assert_eq!(state.transient_storage(&address, &Word::from_u64(1)), Word::from_u64(20));
    state.rollback(checkpoint, Version::base(SpecId::FRONTIER).features);
    assert_eq!(state.transient_storage(&address, &Word::from_u64(1)), Word::from_u64(10));
}

#[test]
fn mod_destruct_change_rolls_back_to_checkpoint() {
    let address = repeated(0x33);
    let mut state = State::new(CacheDB::new());

    let checkpoint = state.checkpoint();
    state.mark_destructed(&address);

    assert!(state.is_selfdestructed(&address));
    state.rollback(checkpoint, Version::base(SpecId::FRONTIER).features);
    assert!(!state.is_selfdestructed(&address));
}

#[test]
fn journal_destruct_change_rolls_back_to_checkpoint() {
    let address = repeated(0x33);
    let mut state = State::new(CacheDB::new());

    let checkpoint = state.checkpoint();
    state.mark_destructed(&address);

    assert!(state.is_selfdestructed(&address));
    state.rollback(checkpoint, Version::base(SpecId::FRONTIER).features);
    assert!(!state.is_selfdestructed(&address));
}

#[test]
fn mod_log_rolls_back_to_checkpoint() {
    let mut state = State::new(CacheDB::new());
    let kept = log_with(repeated(0x44), 0x01);
    let reverted = log_with(repeated(0x55), 0x02);

    state.log(kept.clone());
    let checkpoint = state.checkpoint();
    state.log(reverted);

    assert_eq!(state.logs(), &vec![kept.clone(), log_with(repeated(0x55), 0x02)]);
    state.rollback(checkpoint, Version::base(SpecId::FRONTIER).features);
    assert_eq!(state.logs(), &vec![kept]);
}

#[test]
fn journal_log_rolls_back_to_checkpoint() {
    let mut state = State::new(CacheDB::new());
    let kept = log_with(repeated(0x44), 0x01);
    let reverted = log_with(repeated(0x55), 0x02);

    state.log(kept.clone());
    let checkpoint = state.checkpoint();
    state.log(reverted);

    assert_eq!(state.logs(), &vec![kept.clone(), log_with(repeated(0x55), 0x02)]);
    state.rollback(checkpoint, Version::base(SpecId::FRONTIER).features);
    assert_eq!(state.logs(), &vec![kept]);
}

#[test]
fn mod_spurious_dragon_rollback_preserves_precompile3_touch() {
    let precompile3 = Address::with_last_byte(3);
    let other = Address::with_last_byte(4);
    let mut database = CacheDB::new();
    database.insert_account_info(&precompile3, AccountInfo::default());
    database.insert_account_info(&other, AccountInfo::default());
    let mut state = State::new(database);

    let checkpoint = state.checkpoint();
    state.touch(&precompile3);
    state.touch(&other);

    state.rollback(checkpoint, Version::base(SpecId::SPURIOUS_DRAGON).features);
    assert!(state.is_touched(&precompile3));
    assert!(!state.is_touched(&other));
}

#[test]
fn journal_spurious_dragon_rollback_preserves_precompile3_touch() {
    let precompile3 = Address::with_last_byte(3);
    let other = Address::with_last_byte(4);
    let mut database = CacheDB::new();
    database.insert_account_info(&precompile3, AccountInfo::default());
    database.insert_account_info(&other, AccountInfo::default());
    let mut state = State::new(database);

    let checkpoint = state.checkpoint();
    state.touch(&precompile3);
    state.touch(&other);

    state.rollback(checkpoint, Version::base(SpecId::SPURIOUS_DRAGON).features);
    assert!(state.is_touched(&precompile3));
    assert!(!state.is_touched(&other));
}

#[test]
fn frontier_rollback_reverts_precompile3_touch() {
    let precompile3 = Address::with_last_byte(3);
    let mut state = State::new(CacheDB::new());

    let checkpoint = state.checkpoint();
    state.touch(&precompile3);
    state.rollback(checkpoint, Version::base(SpecId::FRONTIER).features);
    assert!(!state.is_touched(&precompile3));
}

#[test]
fn mod_non_revertible_warmth_is_not_journaled_or_rolled_back() {
    let base_account = Address::with_last_byte(0x10);
    let frame_account = Address::with_last_byte(0x11);
    let base_storage = Address::with_last_byte(0x12);
    let frame_storage = Address::with_last_byte(0x13);
    let key = Word::from_u64(1);
    let mut state = State::new(CacheDB::new());

    state.warm_account_non_revertible(&base_account);
    assert!(state.warm_storage_non_revertible(&base_storage, &key));
    assert!(state.journal().is_empty());

    let checkpoint = state.checkpoint();
    assert!(state.warm_account(&frame_account));
    assert!(state.warm_storage(&frame_storage, &key));
    assert_eq!(state.journal().len(), 2);

    state.rollback(checkpoint, Version::base(SpecId::FRONTIER).features);
    assert!(state.is_account_warm(&base_account));
    assert!(state.is_storage_warm(&base_storage, &key));
    assert!(!state.is_account_warm(&frame_account));
    assert!(!state.is_storage_warm(&frame_storage, &key));
}

#[test]
fn journal_non_revertible_warmth_is_not_journaled_or_rolled_back() {
    let base_account = Address::with_last_byte(0x10);
    let frame_account = Address::with_last_byte(0x11);
    let base_storage = Address::with_last_byte(0x12);
    let frame_storage = Address::with_last_byte(0x13);
    let key = Word::from_u64(1);
    let mut state = State::new(CacheDB::new());

    state.warm_account_non_revertible(&base_account);
    assert!(state.warm_storage_non_revertible(&base_storage, &key));
    assert!(state.journal().is_empty());

    let checkpoint = state.checkpoint();
    assert!(state.warm_account(&frame_account));
    assert!(state.warm_storage(&frame_storage, &key));
    assert_eq!(state.journal().len(), 2);

    state.rollback(checkpoint, Version::base(SpecId::FRONTIER).features);
    assert!(state.is_account_warm(&base_account));
    assert!(state.is_storage_warm(&base_storage, &key));
    assert!(!state.is_account_warm(&frame_account));
    assert!(!state.is_storage_warm(&frame_storage, &key));
}

#[test]
fn warm_only_entries_do_not_emit_state_changes() {
    let account = Address::with_last_byte(0x14);
    let storage_account = Address::with_last_byte(0x15);
    let key = Word::from_u64(1);
    let mut state = State::new(CacheDB::new());

    state.warm_account_non_revertible(&account);
    assert!(state.warm_storage_non_revertible(&storage_account, &key));

    let changes = state.build_state_changes();
    assert!(changes.is_empty());
    assert!(state.is_account_warm(&account));
    assert!(state.is_storage_warm(&storage_account, &key));

    state.clear_transaction_state();
    assert!(!state.is_account_warm(&account));
    assert!(!state.is_storage_warm(&storage_account, &key));
}

#[test]
fn rollback_reverts_storage_warmth_without_discarding_cached_value() {
    let account = Address::with_last_byte(0x18);
    let key = Word::from_u64(1);
    let value = Word::from_u64(9);
    let mut database = CacheDB::new();
    database.insert_account_info(&account, AccountInfo::default().with_balance(Word::from_u64(1)));
    database.insert_account_storage(&account, &key, &value);
    let mut state = State::new(database);

    let checkpoint = state.checkpoint();
    assert!(state.warm_storage(&account, &key));
    assert_eq!(state.load_storage(&account, &key).unwrap(), value);

    state.rollback(checkpoint, Version::base(SpecId::FRONTIER).features);
    assert!(!state.is_storage_warm(&account, &key));
    assert_eq!(state.get_storage(&account, &key), Some(value));

    assert!(state.warm_storage(&account, &key));
}

#[test]
fn read_committed_storage_ignores_transaction_overlay() {
    let address = Address::with_last_byte(0x11);
    let key = Word::from_u64(0x22);
    let mut database = CacheDB::new();
    database.insert_account_info(&address, AccountInfo::default());
    database.insert_account_storage(&address, &key, &Word::from_u64(1));
    let mut state = State::new(database);

    let _ = state.set_storage(&address, &key, &Word::from_u64(2)).unwrap();

    assert_eq!(state.read_storage(&address, &key).unwrap(), Word::from_u64(2));
    assert_eq!(state.read_committed_storage(&address, &key).unwrap(), Word::from_u64(1));
}

#[test]
fn build_state_changes_leaves_logs_on_transaction_state() {
    let mut state = State::new(CacheDB::new());
    let log = log_with(repeated(0x66), 0x03);

    state.log(log.clone());
    state.finalize_transaction(&Version::base(SpecId::SPURIOUS_DRAGON)).unwrap();
    let changes = state.build_state_changes();
    assert!(changes.is_empty());
    assert_eq!(state.logs(), &vec![log]);

    state.commit_transaction();
    state.clear_transaction_state();
    assert!(state.logs().is_empty());
}

#[test]
fn mod_transfer_to_self_requires_balance() {
    let address = repeated(0x77);
    let mut database = CacheDB::new();
    database.insert_account_info(&address, AccountInfo::default().with_balance(Word::from_u64(3)));
    let mut state = State::new(database);

    assert!(!state.transfer(&address, &address, &Word::from_u64(4)).unwrap());
    assert!(state.transfer(&address, &address, &Word::from_u64(3)).unwrap());
}

#[test]
fn spurious_dragon_deletes_touched_empty_existing_account() {
    let address = repeated(0x44);
    let empty = AccountInfo::default();
    let mut database = CacheDB::new();
    database.insert_account_info(&address, empty);
    let mut state = State::new(database);

    state.touch(&address);
    state.finalize_transaction(&Version::base(SpecId::SPURIOUS_DRAGON)).unwrap();
    let changes = state.build_state_changes();

    let change = changes.accounts.get(&address).expect("touched empty account is deleted");
    assert_eq!(change.original, Some(empty));
    assert_eq!(change.current, None);
    assert!(change.is_storage_wiped());
}

#[test]
fn homestead_preserves_touched_empty_existing_account() {
    let address = repeated(0x45);
    let mut database = CacheDB::new();
    database.insert_account_info(&address, AccountInfo::default());
    let mut state = State::new(database);

    state.touch(&address);
    state.finalize_transaction(&Version::base(SpecId::HOMESTEAD)).unwrap();
    let changes = state.build_state_changes();

    assert!(changes.accounts.get(&address).map_or(true, |change| !change.is_changed()));
}

#[test]
fn homestead_materializes_touched_empty_new_account() {
    let address = repeated(0x46);
    let mut state = State::new(CacheDB::new());

    state.touch(&address);
    state.finalize_transaction(&Version::base(SpecId::HOMESTEAD)).unwrap();
    let changes = state.build_state_changes();

    let change = changes.accounts.get(&address).expect("pre-spurious empty touch creates account");
    assert_eq!(change.original, None);
    let current = change.current.as_ref().expect("created empty account");
    assert!(current.is_empty());
}

#[test]
fn spurious_dragon_ignores_touched_empty_new_account() {
    let address = repeated(0x47);
    let mut state = State::new(CacheDB::new());

    state.touch(&address);
    state.finalize_transaction(&Version::base(SpecId::SPURIOUS_DRAGON)).unwrap();
    let changes = state.build_state_changes();

    assert!(changes.accounts.get(&address).map_or(true, |change| !change.is_changed()));
}

#[test]
fn build_state_changes_deduplicates_code() {
    let code = Bytecode::new_legacy(vec![0x00]);
    let code_hash = code.hash_slow();
    let first = repeated(0x48);
    let second = repeated(0x49);
    let mut state = State::new(CacheDB::new());

    state.set_code(&first, code.duplicate()).unwrap();
    state.set_code(&second, code.duplicate()).unwrap();
    state.finalize_transaction(&Version::base(SpecId::SPURIOUS_DRAGON)).unwrap();
    let changes = state.build_state_changes();

    assert_eq!(changes.code.len(), 1);
    assert_eq!(changes.code.get(&code_hash), Some(&code));
    for address in [first, second] {
        let change = changes.accounts.get(&address).unwrap();
        let current = change.current.as_ref().unwrap();
        assert_eq!(current.code_hash, code_hash);
        assert_eq!(change.code.as_ref(), Some(&code));
    }
}

#[test]
fn selfdestruct_deletes_account_and_wipes_storage() {
    let address = repeated(0x48);
    let mut database = CacheDB::new();
    database.insert_account_info(&address, AccountInfo::default().with_balance(Word::from_u64(1)));
    database.insert_account_storage(&address, &Word::from_u64(1), &Word::from_u64(2));
    let mut state = State::new(database);

    state.mark_destructed(&address);
    state.finalize_transaction(&Version::base(SpecId::SPURIOUS_DRAGON)).unwrap();
    let changes = state.build_state_changes();

    let change = changes.accounts.get(&address).expect("selfdestruct deletes account");
    assert!(change.original.is_some());
    assert_eq!(change.current, None);
    assert!(change.is_selfdestructed());
    assert!(change.is_storage_wiped());
}

#[test]
fn code_respects_deleted_transaction_overlay() {
    let address = repeated(0x4a);
    let code = Bytecode::new_legacy(vec![0x00]);
    let mut database = CacheDB::new();
    database.insert_account_info_with_code(&address, AccountInfo::default(), code.duplicate());
    let mut state = State::new(database);

    assert_eq!(state.read_code(&address).unwrap(), code);
    state.mark_destructed(&address);
    state.finalize_transaction(&Version::base(SpecId::SPURIOUS_DRAGON)).unwrap();

    assert_eq!(state.read_code(&address).unwrap(), Bytecode::new());
    assert_eq!(state.read_code(&address).unwrap(), Bytecode::new());
}

#[test]
fn selfdestruct_emits_created_account_deletion() {
    let caller = repeated(0x48);
    let address = repeated(0x49);
    let mut database = CacheDB::new();
    database.insert_account_info(&caller, AccountInfo::default().with_balance(Word::from_u64(1)));
    let mut state = State::new(database);

    state
        .create_account(&caller, &address, &Word::zero(), Version::base(SpecId::SPURIOUS_DRAGON).features)
        .unwrap()
        .unwrap();
    state.mark_destructed(&address);
    state.finalize_transaction(&Version::base(SpecId::SPURIOUS_DRAGON)).unwrap();
    let changes = state.build_state_changes();

    let change = changes.accounts.get(&address).expect("created selfdestruct is deleted");
    assert_eq!(change.original, None);
    assert_eq!(change.current, None);
    assert!(change.is_created());
    assert!(change.is_selfdestructed());
}

#[test]
fn eip7708_delayed_burn_logs_selfdestructs_sorted() {
    let high = repeated(0x22);
    let low = repeated(0x11);
    let mut database = CacheDB::new();
    database.insert_account_info(&high, AccountInfo::default().with_balance(Word::from_u64(2)));
    database.insert_account_info(&low, AccountInfo::default().with_balance(Word::from_u64(1)));
    let mut state = State::new(database);

    state.mark_destructed(&high);
    state.mark_destructed(&low);
    state.finalize_transaction(&Version::base(SpecId::AMSTERDAM)).unwrap();

    let logs = state.take_logs();
    assert_eq!(logs.len(), 2);
    assert_eq!(logs[0].topics, vec![burn_topic(), address_topic(&low)]);
    assert_eq!(logs[0].data, Word::from_u64(1).to_be_bytes());
    assert_eq!(logs[1].topics, vec![burn_topic(), address_topic(&high)]);
    assert_eq!(logs[1].data, Word::from_u64(2).to_be_bytes());
}

#[test]
fn commit_transaction_accepts_the_transaction_view() {
    let address = repeated(0x31);
    let key = Word::from_u64(5);
    let mut database = CacheDB::new();
    database.insert_account_info(&address, AccountInfo::default().with_balance(Word::from_u64(10)));
    let mut state = State::new(database);

    state.set_storage(&address, &key, &Word::from_u64(7)).unwrap();
    state.add_balance(&address, &Word::from_u64(5)).unwrap();
    state.commit_transaction();
    state.clear_transaction_state();

    assert_eq!(state.read_committed_storage(&address, &key).unwrap(), Word::from_u64(7));
    let info = state.read_account_info(&address).unwrap().unwrap();
    assert_eq!(info.balance, Word::from_u64(15));
}

#[test]
fn commit_transaction_deletes_selfdestructed_account() {
    let address = repeated(0x32);
    let key = Word::from_u64(1);
    let mut database = CacheDB::new();
    database.insert_account_info(&address, AccountInfo::default().with_balance(Word::from_u64(1)));
    database.insert_account_storage(&address, &key, &Word::from_u64(2));
    let mut state = State::new(database);

    state.mark_destructed(&address);
    state.finalize_transaction(&Version::base(SpecId::CANCUN)).unwrap();
    state.commit_transaction();
    state.clear_transaction_state();

    assert_eq!(state.read_account_info(&address).unwrap(), None);
    assert_eq!(state.read_committed_storage(&address, &key).unwrap(), Word::zero());
}

#[test]
fn rollback_after_nested_changes_restores_balances() {
    let from = repeated(0x61);
    let to = repeated(0x62);
    let mut database = CacheDB::new();
    database.insert_account_info(&from, AccountInfo::default().with_balance(Word::from_u64(100)));
    let mut state = State::new(database);

    let checkpoint = state.checkpoint();
    assert!(state.transfer(&from, &to, &Word::from_u64(40)).unwrap());
    state.increment_nonce(&from).unwrap();
    assert_eq!(state.read_account_info(&to).unwrap().unwrap().balance, Word::from_u64(40));
    state.rollback(checkpoint, Version::base(SpecId::CANCUN).features);
    assert_eq!(state.read_account_info(&from).unwrap().unwrap().balance, Word::from_u64(100));
    assert_eq!(state.read_account_info(&from).unwrap().unwrap().nonce, 0);
    assert_eq!(state.read_account_info(&to).unwrap(), None);
}

#[test]
fn transfer_without_funds_changes_nothing() {
    let from = repeated(0x63);
    let to = repeated(0x64);
    let mut database = CacheDB::new();
    database.insert_account_info(&from, AccountInfo::default().with_balance(Word::from_u64(5)));
    let mut state = State::new(database);

    assert!(!state.transfer(&from, &to, &Word::from_u64(6)).unwrap());
    assert_eq!(state.read_account_info(&from).unwrap().unwrap().balance, Word::from_u64(5));
    assert_eq!(state.read_account_info(&to).unwrap(), None);
}

#[test]
fn account_transfer_to_self_requires_balance() {
    let address = repeated(0x77);
    let mut database = CacheDB::new();
    database.insert_account_info(&address, AccountInfo::default().with_balance(Word::from_u64(3)));
    let mut state = State::new(database);

    assert!(!state.transfer(&address, &address, &Word::from_u64(4)).unwrap());
    assert!(state.transfer(&address, &address, &Word::from_u64(3)).unwrap());
}

#[test]
fn storage_storage_change_rolls_back_to_checkpoint() {
    let address = repeated(0x11);
    let mut database = CacheDB::new();
    database.insert_account_info(&address, AccountInfo::default());
    database.insert_account_storage(&address, &Word::from_u64(1), &Word::from_u64(10));
    let mut state = State::new(database);

    let checkpoint = state.checkpoint();
    state.set_storage(&address, &Word::from_u64(1), &Word::from_u64(20)).unwrap();
    state.set_storage(&address, &Word::from_u64(1), &Word::from_u64(30)).unwrap();

    assert_eq!(state.load_storage(&address, &Word::from_u64(1)).unwrap(), Word::from_u64(30));
    state.rollback(checkpoint, Version::base(SpecId::FRONTIER).features);
    assert_eq!(state.load_storage(&address, &Word::from_u64(1)).unwrap(), Word::from_u64(10));
}

#[test]
fn storage_transient_storage_change_rolls_back_to_checkpoint() {
    let address = repeated(0x22);
    let mut state = State::new(CacheDB::new());

    state.set_transient_storage(&address, &Word::from_u64(1), &Word::from_u64(10));
    let checkpoint = state.checkpoint();
    state.set_transient_storage(&address, &Word::from_u64(1), &Word::from_u64(20));

    assert_eq!(state.transient_storage(&address, &Word::from_u64(1)), Word::from_u64(20));
    state.rollback(checkpoint, Version::base(SpecId::FRONTIER).features);
    assert_eq!(state.transient_storage(&address, &Word::from_u64(1)), Word::from_u64(10));
}

#[test]
fn storage_wipe_preserves_warm_slots_in_merged_storage_map() {
    let account = Address::with_last_byte(0x19);
    let warm_key = Word::from_u64(1);
    let cold_key = Word::from_u64(2);
    let mut database = CacheDB::new();
    database.insert_account_info(&account, AccountInfo::default().with_balance(Word::from_u64(1)));
    database.insert_account_storage(&account, &warm_key, &Word::from_u64(3));
    database.insert_account_storage(&account, &cold_key, &Word::from_u64(4));
    let mut state = State::new(database);

    assert!(state.warm_storage_non_revertible(&account, &warm_key));
    state.set_storage(&account, &cold_key, &Word::from_u64(5)).unwrap();

    state.wipe_storage(&account);
    assert!(state.is_storage_warm(&account, &warm_key));
    assert!(!state.is_storage_warm(&account, &cold_key));
    assert_eq!(state.get_storage(&account, &warm_key), Some(Word::zero()));
    assert_eq!(state.get_storage(&account, &cold_key), Some(Word::zero()));

    let changes = state.build_state_changes();
    let change = changes.accounts.get(&account).expect("wipe must be emitted");
    assert!(change.is_storage_wiped());
    assert!(change.changed_storage().is_empty());
}


fn seeded_database(a: Address) -> CacheDB {
    let mut database = CacheDB::new();
    database.insert_account_info(&a, AccountInfo::default().with_balance(Word::from_u64(10)));
    database.insert_account_storage(&a, &Word::from_u64(1), &Word::from_u64(5));
    database
}

#[test]
fn committing_state_changes_to_a_cache_matches_the_committed_state() {
    let a = repeated(0x31);
    let b = repeated(0x32);
    let mut state = State::new(seeded_database(a));
    assert!(state.transfer(&a, &b, &Word::from_u64(3)).unwrap());
    state.set_storage(&a, &Word::from_u64(1), &Word::zero()).unwrap();
    state.set_storage(&a, &Word::from_u64(2), &Word::from_u64(8)).unwrap();
    let changes = state.build_state_changes();

    let mut copy = seeded_database(a);
    copy.commit_source(&changes);
    state.commit_transaction();

    for address in [a, b] {
        assert_eq!(copy.account_info(&address), state.overlay_db().account_info(&address));
        for key in [1, 2, 3] {
            assert_eq!(
                copy.storage_ref(&address, &Word::from_u64(key)),
                state.overlay_db().storage_ref(&address, &Word::from_u64(key))
            );
        }
    }
    assert_eq!(copy.account_info(&b).unwrap().balance, Word::from_u64(3));
    assert_eq!(copy.storage_ref(&a, &Word::from_u64(2)), Word::from_u64(8));
}

#[test]
fn transfer_moves_value() {
    let from = Address::new(u64::from_ne_bytes([0x01; 8]), u64::from_ne_bytes([0x01; 8]), u32::from_ne_bytes([0x01; 4]));
    let to = Address::new(u64::from_ne_bytes([0x02; 8]), u64::from_ne_bytes([0x02; 8]), u32::from_ne_bytes([0x02; 4]));
    let mut state = State::new(CacheDB::new());
    state.add_balance(&from, &Word::from_u64(10)).unwrap();

    assert!(state.transfer(&from, &to, &Word::from_u64(7)).unwrap());
    assert_eq!(state.read_account_info(&from).unwrap().expect("sender account should exist").balance, Word::from_u64(3));
    assert_eq!(state.read_account_info(&to).unwrap().expect("recipient account should exist").balance, Word::from_u64(7));
}

#[test]
fn tracked_value_is_changed_exactly_when_it_differs() {
    let mut t = evm2::state::TrackedValue::new(Word::from_u64(4));
    assert!(!t.is_changed());
    t.set_current(Word::from_u64(5));
    assert!(t.is_changed());
    t.set_current(Word::from_u64(4));
    assert!(!t.is_changed());
    let info = AccountInfo::default().with_balance(Word::from_u64(1));
    assert!(evm2::state::TrackedValue::from_parts(None, Some(info)).is_changed());
    assert!(!evm2::state::TrackedValue::from_parts(Some(info), Some(info)).is_changed());
}
