use evm2::db::{CacheDB, DbStats, DbStatsCounts};
use evm2::primitives::{Address, Word, B256};
use evm2::bytecode::Bytecode;
use evm2::state::AccountInfo;

#[test]
fn db_stats_count_loads_and_storage_runs() {
    let a = Address::with_last_byte(1);
    let b = Address::with_last_byte(2);
    let mut database = CacheDB::new();
    database.insert_account_info(&a, AccountInfo::default().with_balance(Word::from_u64(4)));
    database.insert_account_storage(&a, &Word::from_u64(1), &Word::from_u64(7));
    let mut stats = DbStats::new(database);

    assert_eq!(stats.get_account(&a).unwrap().unwrap().balance, Word::from_u64(4));
    assert_eq!(stats.get_storage(&a, &Word::from_u64(1)).unwrap(), Word::from_u64(7));
    assert_eq!(stats.get_storage(&a, &Word::from_u64(2)).unwrap(), Word::zero());
    assert_eq!(stats.get_storage(&a, &Word::from_u64(1)).unwrap(), Word::from_u64(7));
    assert_eq!(stats.get_storage(&b, &Word::from_u64(1)).unwrap(), Word::zero());
    assert_eq!(stats.get_storage(&a, &Word::from_u64(1)).unwrap(), Word::from_u64(7));
    assert_eq!(stats.get_block_hash(&Word::from_u64(3)).unwrap(), None);
    assert!(stats.get_code_by_hash(&B256::keccak_empty()).unwrap().is_empty());

    let counts = stats.counts();
    assert_eq!(counts.get_account, 1);
    assert_eq!(counts.get_storage, 5);
    assert_eq!(counts.get_storage_same_address_repeats, 2);
    assert_eq!(counts.get_storage_same_address_longest_streak, 3);
    assert_eq!(counts.get_block_hash, 1);
    assert_eq!(counts.get_code_by_hash, 1);

    let mut total = DbStatsCounts::default();
    total.add_assign(counts);
    total.add_assign(counts);
    assert_eq!(total.get_storage, 10);
    assert_eq!(total.get_storage_same_address_longest_streak, 3);
    assert_eq!(stats.into_inner().storage_ref(&a, &Word::from_u64(1)), Word::from_u64(7));
}

#[test]
fn inserted_code_is_cached_under_its_hash() {
    let a = Address::with_last_byte(1);
    let code = Bytecode::new_legacy(vec![0x60, 0x01, 0x00]);
    let mut database = CacheDB::new();
    database.insert_account_info_with_code(&a, AccountInfo::default(), code.duplicate());
    let info = database.account_info(&a).unwrap();
    assert_eq!(info.code_hash, code.hash_slow());
    assert_eq!(database.get_code_by_hash(&info.code_hash).unwrap(), code);
}

#[test]
fn inserted_code_keeps_a_given_hash_and_an_earlier_contract() {
    let a = Address::with_last_byte(1);
    let b = Address::with_last_byte(2);
    let tag = B256 { w0: 1, w1: 2, w2: 3, w3: 4 };
    let first = Bytecode::new_legacy(vec![0x01]);
    let second = Bytecode::new_legacy(vec![0x02]);
    let mut database = CacheDB::new();
    database.insert_account_info_with_code(&a, AccountInfo::new(Word::zero(), 0, tag), first.duplicate());
    database.insert_account_info_with_code(&b, AccountInfo::new(Word::zero(), 0, tag), second);
    assert_eq!(database.account_info(&b).unwrap().code_hash, tag);
    assert_eq!(database.get_code_by_hash(&tag).unwrap(), first);
}

#[test]
fn a_zero_code_hash_is_stored_as_the_empty_code_hash() {
    let a = Address::with_last_byte(1);
    let mut database = CacheDB::new();
    database.insert_account_info(&a, AccountInfo::new(Word::zero(), 0, B256::zero()));
    assert_eq!(database.account_info(&a).unwrap().code_hash, B256::keccak_empty());
    // Empty code leaves the given hash alone, and is not cached.
    let mut info = AccountInfo::default();
    database.insert_contract(&mut info, Some(&Bytecode::new()));
    assert_eq!(info.code_hash, B256::keccak_empty());
}
