use evm2::block::{
    BlockOmmer, ONE_ETHER, Withdrawal, base_block_reward, block_reward, ommer_reward,
    saturating_to_u64,
};
use evm2::config::{EvmFeatures, SpecId};
use evm2::db::CacheDB;
use evm2::eip7708::{address_topic, burn_topic, system_address, transfer_topic};
use evm2::evm::{BlockEnv, BlockExecutionError, BlockExecutionResult, BlockLoopAction, BlockLoopEvent, Evm};
use evm2::host::{InstrStop, message_gas, validate_create_output};
use evm2::primitives::{Address, Word, B256};
use evm2::state::AccountInfo;
use evm2::vecmap::VecMap;
use evm2::system::{BlockSystemCall, SYSTEM_CALL_GAS_LIMIT, collect_system_call_requests, system_call_gas_used};
use evm2::transaction::{Transaction, intrinsic_gas};

fn word128(x: u128) -> Word {
    Word::from_u128(x)
}

#[test]
fn post_block_balance_increments_include_rewards_and_ommers() {
    let beneficiary = Address::with_last_byte(0x01);
    let ommer_beneficiary = Address::with_last_byte(0x02);
    let block = BlockEnv { number: Word::from_u64(10), beneficiary, ..BlockEnv::default() };
    let evm = Evm::new(SpecId::HOMESTEAD, block, CacheDB::new());

    let increments = evm
        .post_block_balance_increments(&vec![BlockOmmer { beneficiary: ommer_beneficiary, number: 9 }], None);

    assert_eq!(
        *increments.get(&beneficiary).unwrap(),
        word128(ONE_ETHER * 5 + ((ONE_ETHER * 5) >> 5))
    );
    assert_eq!(
        *increments.get(&ommer_beneficiary).unwrap(),
        word128(((8 + 9 - 10) * ONE_ETHER * 5) >> 3)
    );
}

#[test]
fn apply_post_block_balance_increments_applies_withdrawals() {
    let address = Address::with_last_byte(0x03);
    let mut evm = Evm::new(SpecId::SHANGHAI, BlockEnv::default(), CacheDB::new());
    let withdrawals = vec![Withdrawal { index: 0, validator_index: 0, address, amount: 2 }];

    let changes = evm.apply_post_block_balance_increments(&Vec::new(), Some(&withdrawals)).unwrap();

    assert_eq!(
        changes.accounts.get(&address).unwrap().current.as_ref().unwrap().balance,
        Word::from_u64(2_000_000_000)
    );
}

#[test]
fn withdrawals_are_ignored_before_shanghai_and_rewards_stop_at_the_merge() {
    let address = Address::with_last_byte(0x04);
    let withdrawals = vec![Withdrawal { index: 0, validator_index: 0, address, amount: 7 }];
    let merged = Evm::new(SpecId::MERGE, BlockEnv::default(), CacheDB::new());
    let increments = merged.post_block_balance_increments(&Vec::new(), Some(&withdrawals));
    assert_eq!(increments.len(), 0);

    let shanghai = Evm::new(SpecId::SHANGHAI, BlockEnv::default(), CacheDB::new());
    let increments = shanghai.post_block_balance_increments(&Vec::new(), Some(&withdrawals));
    assert_eq!(increments.len(), 1);
    assert_eq!(*increments.get(&address).unwrap(), Word::from_u64(7_000_000_000));

    // A zero withdrawal adds no entry.
    let zero = vec![Withdrawal { index: 1, validator_index: 0, address, amount: 0 }];
    assert_eq!(shanghai.post_block_balance_increments(&Vec::new(), Some(&zero)).len(), 0);
}

#[test]
fn block_reward_formulas() {
    assert_eq!(base_block_reward(SpecId::FRONTIER), Some(5 * ONE_ETHER));
    assert_eq!(base_block_reward(SpecId::BYZANTIUM), Some(3 * ONE_ETHER));
    assert_eq!(base_block_reward(SpecId::CONSTANTINOPLE), Some(3 * ONE_ETHER));
    assert_eq!(base_block_reward(SpecId::PETERSBURG), Some(2 * ONE_ETHER));
    assert_eq!(base_block_reward(SpecId::MERGE), None);
    assert_eq!(block_reward(2 * ONE_ETHER, 2), 2 * ONE_ETHER + (2 * ONE_ETHER / 32) * 2);
    assert_eq!(ommer_reward(2 * ONE_ETHER, 100, 99), 7 * 2 * ONE_ETHER / 8);
    assert_eq!(saturating_to_u64(&Word::from_u64(42)), 42);
    assert_eq!(saturating_to_u64(&word128(u128::MAX)), u64::MAX);
}

#[test]
fn intrinsic_gas_counts_data_and_creation() {
    let tx = Transaction {
        caller: Address::zero(),
        to: Some(Address::with_last_byte(1)),
        nonce: 0,
        gas_limit: 100_000,
        gas_price: Word::zero(),
        value: Word::zero(),
        data: vec![0, 1],
    };
    assert_eq!(intrinsic_gas(SpecId::ISTANBUL, &tx), 21_000 + 4 + 16);
    assert_eq!(intrinsic_gas(SpecId::BYZANTIUM, &tx), 21_000 + 4 + 68);
    let create = Transaction { to: None, data: Vec::new(), ..tx };
    assert_eq!(intrinsic_gas(SpecId::HOMESTEAD, &create), 53_000);
    assert_eq!(intrinsic_gas(SpecId::FRONTIER, &create), 21_000);
}

#[test]
fn sload_is_cold_once_under_berlin() {
    let address = Address::with_last_byte(0x10);
    let mut database = CacheDB::new();
    database.insert_account_info(&address, AccountInfo::default());
    database.insert_account_storage(&address, &Word::from_u64(1), &Word::from_u64(5));
    let mut evm = Evm::new(SpecId::BERLIN, BlockEnv::default(), database);

    assert_eq!(evm.sload(&address, &Word::from_u64(1), true), Err(InstrStop::OutOfGas));
    let warm = evm.sload(&address, &Word::from_u64(1), true).unwrap();
    assert_eq!(warm.value, Word::from_u64(5));
    assert!(!warm.is_cold);

    let cold = evm.sload(&address, &Word::from_u64(2), false).unwrap();
    assert_eq!(cold.value, Word::zero());
    assert!(cold.is_cold);
}

#[test]
fn sstore_reports_original_present_and_new_values() {
    let address = Address::with_last_byte(0x11);
    let mut database = CacheDB::new();
    database.insert_account_info(&address, AccountInfo::default());
    database.insert_account_storage(&address, &Word::from_u64(1), &Word::from_u64(5));
    let mut evm = Evm::new(SpecId::ISTANBUL, BlockEnv::default(), database);

    let first = evm.sstore(&address, &Word::from_u64(1), &Word::from_u64(6), false).unwrap();
    assert_eq!(first.original_value, Word::from_u64(5));
    assert_eq!(first.present_value, Word::from_u64(5));
    assert_eq!(first.new_value, Word::from_u64(6));
    assert!(!first.is_cold);
    assert!(!first.is_noop());

    let second = evm.sstore(&address, &Word::from_u64(1), &Word::from_u64(5), false).unwrap();
    assert_eq!(second.original_value, Word::from_u64(5));
    assert_eq!(second.present_value, Word::from_u64(6));
    assert!(second.resets_original());
    assert_eq!(evm.sload(&address, &Word::from_u64(1), false).unwrap().value, Word::from_u64(5));
}

#[test]
fn transient_storage_reads_back_and_defaults_to_zero() {
    let address = Address::with_last_byte(0x12);
    let mut evm = Evm::new(SpecId::CANCUN, BlockEnv::default(), CacheDB::new());
    assert_eq!(evm.tload(&address, &Word::from_u64(1)), Word::zero());
    evm.tstore(&address, &Word::from_u64(1), &Word::from_u64(9));
    assert_eq!(evm.tload(&address, &Word::from_u64(1)), Word::from_u64(9));
    assert_eq!(evm.tload(&address, &Word::from_u64(2)), Word::zero());
}

#[test]
fn load_account_reports_existence_and_warmth() {
    let present = Address::with_last_byte(0x13);
    let absent = Address::with_last_byte(0x14);
    let mut database = CacheDB::new();
    database.insert_account_info(&present, AccountInfo::default().with_balance(Word::from_u64(4)));
    let mut evm = Evm::new(SpecId::BERLIN, BlockEnv::default(), database);

    let loaded = evm.load_account(&present, false, false).unwrap();
    assert!(loaded.exists);
    assert!(loaded.is_cold);
    assert_eq!(loaded.balance, Word::from_u64(4));
    assert!(!loaded.is_empty);

    let again = evm.load_account(&present, false, true).unwrap();
    assert!(!again.is_cold);

    let missing = evm.load_account(&absent, false, false).unwrap();
    assert!(!missing.exists);
    assert_eq!(missing.code_hash, B256::zero());
    assert!(missing.is_empty);
}

#[test]
fn selfdestruct_moves_the_balance_to_the_target() {
    let contract = Address::with_last_byte(0x20);
    let target = Address::with_last_byte(0x21);
    let mut database = CacheDB::new();
    database.insert_account_info(&contract, AccountInfo::default().with_balance(Word::from_u64(30)));
    let mut evm = Evm::new(SpecId::LONDON, BlockEnv::default(), database);

    let result = evm.selfdestruct(&contract, &target, false).unwrap();
    assert!(result.had_value);
    assert_eq!(result.value, Word::from_u64(30));
    assert!(result.target_is_empty);
    assert!(result.is_cold);
    assert!(!result.previously_destroyed);
    assert_eq!(evm.load_account(&target, false, false).unwrap().balance, Word::from_u64(30));
    assert_eq!(evm.load_account(&contract, false, false).unwrap().balance, Word::zero());
}

#[test]
fn amsterdam_selfdestruct_transfer_emits_eip7708_log() {
    let contract = Address::with_last_byte(0x22);
    let target = Address::with_last_byte(0x23);
    let mut database = CacheDB::new();
    database.insert_account_info(&contract, AccountInfo::default().with_balance(Word::from_u64(3)));
    let mut evm = Evm::new(SpecId::AMSTERDAM, BlockEnv::default(), database);

    evm.selfdestruct(&contract, &target, false).unwrap();
    let logs = evm.logs();
    assert_eq!(logs.len(), 1);
    assert_eq!(logs[0].address, system_address());
    assert_eq!(
        logs[0].topics,
        vec![transfer_topic(), address_topic(&contract), address_topic(&target)]
    );
    assert_eq!(logs[0].data, Word::from_u64(3).to_be_bytes());
}

#[test]
fn eip7708_topics_are_distinct_event_hashes() {
    assert_ne!(transfer_topic(), burn_topic());
    assert_ne!(transfer_topic(), B256::zero());
    assert_ne!(burn_topic(), B256::keccak_empty());
    let a = Address::new(0x0102030405060708, 0x090a0b0c0d0e0f10, 0x11121314);
    let topic = address_topic(&a);
    assert_eq!(topic.w0, 0);
    assert_eq!(topic.w1, 0x0102030405060708 >> 32);
    assert_eq!(system_address(), Address::new(u64::MAX, u64::MAX, 0xffff_fffe));
}

#[test]
fn word_bytes_are_big_endian() {
    let bytes = Word::from_u64(0x0102).to_be_bytes();
    assert_eq!(bytes.len(), 32);
    assert_eq!(bytes[30], 1);
    assert_eq!(bytes[31], 2);
    assert!(bytes[..30].iter().all(|b| *b == 0));
    let max = word128(u128::MAX);
    assert_eq!(max.wrapping_add(&Word::from_u64(1)), Word { l0: 0, l1: 0, l2: 1, l3: 0 });
    assert_eq!(Word::zero().wrapping_sub(&Word::from_u64(1)), Word { l0: u64::MAX, l1: u64::MAX, l2: u64::MAX, l3: u64::MAX });
    assert_eq!(Word::from_u64(3).checked_sub(&Word::from_u64(4)), None);
    assert!(Word::from_u64(3).lt(&word128(1u128 << 64)));
}

#[test]
fn execute_block_transactions_rejects_tx_over_remaining_block_gas() {
    let block = BlockEnv { gas_limit: Word::from_u64(10), ..BlockEnv::default() };
    let evm = Evm::new(SpecId::OSAKA, block, CacheDB::new());

    let err = evm.check_transaction_gas(&BlockExecutionResult::new(), 11, 1 << 24).unwrap_err();

    assert_eq!(
        err,
        BlockExecutionError::TransactionGasLimitMoreThanAvailableBlockGas {
            transaction_gas_limit: 11,
            block_available_gas: 10,
        }
    );
}

#[test]
fn capped_tx_gas_is_checked_against_remaining_block_gas() {
    let cap: u64 = 1 << 24;
    let block = BlockEnv { gas_limit: Word::from_u64(cap), ..BlockEnv::default() };
    let evm = Evm::new(SpecId::AMSTERDAM, block, CacheDB::new());
    let mut result = BlockExecutionResult::new();
    assert!(evm.check_transaction_gas(&result, cap + 1, cap).is_ok());

    // Under EIP-8037 the block's gas used is the larger of regular and state gas, and only
    // regular gas counts against the block.
    evm.record_block_transaction(&mut result, 100, 300, 7);
    assert_eq!(result.block_regular_gas_used, 100);
    assert_eq!(result.block_state_gas_used, 300);
    assert_eq!(result.gas_used, 300);
    assert_eq!(result.blob_gas_used, 7);
    assert!(evm.check_transaction_gas(&result, cap - 100, cap).is_ok());
    assert!(evm.check_transaction_gas(&result, cap - 99, cap).is_err());
}

#[test]
fn block_gas_before_eip8037_is_cumulative_and_saturates() {
    let block = BlockEnv { gas_limit: Word::from_u64(50), ..BlockEnv::default() };
    let evm = Evm::new(SpecId::BERLIN, block, CacheDB::new());
    let mut result = BlockExecutionResult::new();
    evm.record_block_transaction(&mut result, 60, 0, 9);
    assert_eq!(result.gas_used, 60);
    assert_eq!(result.blob_gas_used, 0);
    // More gas used than the limit leaves nothing available.
    assert_eq!(
        evm.check_transaction_gas(&result, 1, u64::MAX),
        Err(BlockExecutionError::TransactionGasLimitMoreThanAvailableBlockGas {
            transaction_gas_limit: 1,
            block_available_gas: 0,
        })
    );
    evm.record_block_transaction(&mut result, u64::MAX, 0, 0);
    assert_eq!(result.cumulative_tx_gas_used, u64::MAX);
}

#[test]
fn create_output_rules_follow_the_fork() {
    let frontier = EvmFeatures::for_spec(SpecId::FRONTIER);
    let homestead = EvmFeatures::for_spec(SpecId::HOMESTEAD);
    let london = EvmFeatures::for_spec(SpecId::LONDON);

    // Enough gas: the deposit is charged.
    let mut code = vec![0x60, 0x00];
    assert_eq!(validate_create_output(london, 24_576, 200, 400, &mut code), Ok(400));
    assert_eq!(code, vec![0x60, 0x00]);

    // Too little gas: Frontier keeps the account with empty code, Homestead fails.
    let mut code = vec![0x60, 0x00];
    assert_eq!(validate_create_output(frontier, 24_576, 200, 399, &mut code), Ok(0));
    assert!(code.is_empty());
    let mut code = vec![0x60, 0x00];
    assert_eq!(validate_create_output(homestead, 24_576, 200, 399, &mut code), Err(InstrStop::OutOfGas));

    // Code size and the 0xEF prefix.
    let mut big = vec![0u8; 24_577];
    assert_eq!(
        validate_create_output(london, 24_576, 200, u64::MAX, &mut big),
        Err(InstrStop::CreateContractSizeLimit)
    );
    let mut ef = vec![0xef];
    assert_eq!(
        validate_create_output(london, 24_576, 200, u64::MAX, &mut ef),
        Err(InstrStop::CreateContractStartingWithEF)
    );
    let mut ef = vec![0xef];
    assert_eq!(validate_create_output(homestead, 24_576, 200, u64::MAX, &mut ef), Ok(200));
}

fn hash_byte(b: u8) -> B256 {
    B256 { w0: 0, w1: 0, w2: 0, w3: b as u64 }
}

#[test]
fn pre_block_system_calls_follow_the_fork() {
    let block = BlockEnv { number: Word::from_u64(5), ..BlockEnv::default() };
    let parent = hash_byte(1);
    let root = hash_byte(2);

    let shanghai = Evm::new(SpecId::SHANGHAI, block, CacheDB::new());
    let (calls, outcome) = shanghai.pre_block_system_calls(parent, None);
    assert!(calls.is_empty());
    assert_eq!(outcome, Ok(()));

    let cancun = Evm::new(SpecId::CANCUN, block, CacheDB::new());
    let (calls, outcome) = cancun.pre_block_system_calls(parent, None);
    assert!(calls.is_empty());
    assert_eq!(outcome, Err(BlockExecutionError::MissingParentBeaconBlockRoot));
    let (calls, outcome) = cancun.pre_block_system_calls(parent, Some(root));
    assert_eq!(calls, vec![BlockSystemCall::BeaconRoots { parent_beacon_block_root: root }]);
    assert_eq!(outcome, Ok(()));

    let prague = Evm::new(SpecId::PRAGUE, block, CacheDB::new());
    let (calls, outcome) = prague.pre_block_system_calls(parent, Some(root));
    assert_eq!(
        calls,
        vec![
            BlockSystemCall::HistoryStorage { parent_block_hash: parent },
            BlockSystemCall::BeaconRoots { parent_beacon_block_root: root },
        ]
    );
    assert_eq!(outcome, Ok(()));
    assert_eq!(calls[0].label(), "eip2935");
    assert_eq!(calls[1].input(), Some(root));

    // At genesis no call is made, and the beacon root must be zero.
    let genesis = Evm::new(SpecId::PRAGUE, BlockEnv::default(), CacheDB::new());
    let (calls, outcome) = genesis.pre_block_system_calls(parent, Some(root));
    assert!(calls.is_empty());
    assert_eq!(
        outcome,
        Err(BlockExecutionError::CancunGenesisParentBeaconBlockRootNotZero { parent_beacon_block_root: root })
    );
    assert_eq!(genesis.pre_block_system_calls(parent, Some(B256::zero())).1, Ok(()));
}

#[test]
fn post_block_system_calls_collect_requests_from_prague() {
    let cancun = Evm::new(SpecId::CANCUN, BlockEnv::default(), CacheDB::new());
    assert!(cancun.post_block_system_calls().is_empty());
    let prague = Evm::new(SpecId::PRAGUE, BlockEnv::default(), CacheDB::new());
    let calls = prague.post_block_system_calls();
    assert_eq!(calls, vec![BlockSystemCall::WithdrawalRequests, BlockSystemCall::ConsolidationRequests]);
    assert_eq!(calls[0].label(), "eip7002");
    assert_eq!(calls[1].input(), None);
}

#[test]
fn system_contract_addresses_match_their_eips() {
    let parse = |s: &str| -> Address {
        let a: alloy_primitives::Address = s.parse().unwrap();
        let b = a.as_slice();
        Address::new(
            u64::from_be_bytes(b[0..8].try_into().unwrap()),
            u64::from_be_bytes(b[8..16].try_into().unwrap()),
            u32::from_be_bytes(b[16..20].try_into().unwrap()),
        )
    };
    let zero = B256::zero();
    assert_eq!(
        BlockSystemCall::BeaconRoots { parent_beacon_block_root: zero }.address(),
        parse("0x000F3df6D732807Ef1319fB7B8bB8522d0Beac02")
    );
    assert_eq!(
        BlockSystemCall::HistoryStorage { parent_block_hash: zero }.address(),
        parse("0x0000F90827F1C53a10cb7A02335B175320002935")
    );
    assert_eq!(
        BlockSystemCall::WithdrawalRequests.address(),
        parse("0x00000961Ef480Eb55e80D19ad83579A64c007002")
    );
    assert_eq!(
        BlockSystemCall::ConsolidationRequests.address(),
        parse("0x0000BBdDc7CE488642fb579F8B00f3a590007251")
    );
    assert_eq!(evm2::system::system_address(), parse("0xfffffffffffffffffffffffffffffffffffffffe"));
}

/// A database with balance 5 at address 0x21 (and slot 1 set to 4) and balance 7 at 0x22.
fn increment_database() -> CacheDB {
    let mut db = CacheDB::new();
    db.insert_account_info(&Address::with_last_byte(0x21), AccountInfo::default().with_balance(Word::from_u64(5)));
    db.insert_account_info(&Address::with_last_byte(0x22), AccountInfo::default().with_balance(Word::from_u64(7)));
    db.insert_account_storage(&Address::with_last_byte(0x21), &Word::from_u64(1), &Word::from_u64(4));
    db
}

#[test]
fn balance_increment_transition_replays_onto_the_prior_database() {
    let a = Address::with_last_byte(0x21);
    let b = Address::with_last_byte(0x22);
    let c = Address::with_last_byte(0x23);
    let mut evm = Evm::new(SpecId::CANCUN, BlockEnv::default(), increment_database());
    let mut increments = VecMap::new();
    increments.insert(a, Word::from_u64(10));
    increments.insert(b, Word::zero());
    increments.insert(c, Word::from_u64(3));
    let changes = evm.apply_balance_increments(&increments).unwrap();

    let committed = evm.state().overlay_db();
    assert_eq!(committed.account_info(&a).unwrap().balance, Word::from_u64(15));
    assert_eq!(committed.account_info(&b).unwrap().balance, Word::from_u64(7));
    assert_eq!(committed.account_info(&c).unwrap().balance, Word::from_u64(3));

    let mut replay = increment_database();
    replay.commit_source(&changes);
    for x in [a, b, c, Address::with_last_byte(0x24)] {
        assert_eq!(replay.account_info(&x), committed.account_info(&x));
    }
    assert_eq!(replay.storage_ref(&a, &Word::from_u64(1)), Word::from_u64(4));
}

fn pending_database(a: Address) -> CacheDB {
    let mut db = CacheDB::new();
    db.insert_account_info(&a, AccountInfo::default().with_balance(Word::from_u64(1)));
    db
}

#[test]
fn pending_transaction_is_committed_discarded_or_detached() {
    let a = Address::with_last_byte(0x31);
    let key = Word::from_u64(1);

    let mut evm = Evm::new(SpecId::CANCUN, BlockEnv::default(), pending_database(a));
    evm.sstore(&a, &key, &Word::from_u64(5), false).unwrap();
    evm.finalize_transaction().unwrap();
    evm.commit_pending();
    assert_eq!(evm.state().overlay_db().storage_ref(&a, &key), Word::from_u64(5));
    assert!(evm.state().journal().is_empty());

    let mut evm = Evm::new(SpecId::CANCUN, BlockEnv::default(), pending_database(a));
    evm.sstore(&a, &key, &Word::from_u64(5), false).unwrap();
    evm.discard_pending();
    assert_eq!(evm.state().overlay_db().storage_ref(&a, &key), Word::zero());
    assert_eq!(evm.sload(&a, &key, false).unwrap().value, Word::zero());

    let mut evm = Evm::new(SpecId::CANCUN, BlockEnv::default(), pending_database(a));
    evm.sstore(&a, &key, &Word::from_u64(5), false).unwrap();
    let changes = evm.detach_pending();
    let slot = changes.accounts.get(&a).unwrap().storage.get(&key).unwrap();
    assert_eq!(slot.original, Word::zero());
    assert_eq!(slot.current, Word::from_u64(5));
    assert_eq!(evm.state().overlay_db().storage_ref(&a, &key), Word::zero());
}

struct RefusingSink;

impl evm2::state::StateChangeSink for RefusingSink {
    type Error = u8;

    fn bytecode(&mut self, _code_hash: evm2::primitives::B256, _code: &evm2::bytecode::Bytecode) -> Result<(), u8> {
        Ok(())
    }

    fn account(&mut self, _change: evm2::state::AccountChangeRef) -> Result<(), u8> {
        Ok(())
    }

    fn storage_wipe(&mut self, _address: Address) -> Result<(), u8> {
        Ok(())
    }

    fn storage(&mut self, _change: evm2::state::StorageChange) -> Result<(), u8> {
        Err(7)
    }
}

#[test]
fn pending_transaction_streams_before_it_is_committed() {
    let a = Address::with_last_byte(0x32);
    let key = Word::from_u64(2);

    let mut evm = Evm::new(SpecId::CANCUN, BlockEnv::default(), pending_database(a));
    evm.sstore(&a, &key, &Word::from_u64(9), false).unwrap();
    let mut block_state = evm2::state::BlockStateAccumulator::new();
    evm.commit_pending_to(&mut block_state);
    assert_eq!(evm.state().overlay_db().storage_ref(&a, &key), Word::from_u64(9));
    let slots = block_state.storage_sorted();
    assert_eq!(slots.len(), 1);
    assert_eq!(slots[0].1.current, Word::from_u64(9));

    // A sink that fails leaves the database as it was.
    let mut evm = Evm::new(SpecId::CANCUN, BlockEnv::default(), pending_database(a));
    evm.sstore(&a, &key, &Word::from_u64(9), false).unwrap();
    assert_eq!(evm.commit_pending_with(&mut RefusingSink), Err(7));
    assert_eq!(evm.state().overlay_db().storage_ref(&a, &key), Word::zero());
    assert!(evm.state().journal().is_empty());
}

#[test]
fn request_types_follow_their_eips() {
    assert_eq!(BlockSystemCall::WithdrawalRequests.request_type(), Some(1));
    assert_eq!(BlockSystemCall::ConsolidationRequests.request_type(), Some(2));
    assert_eq!(BlockSystemCall::HistoryStorage { parent_block_hash: B256::zero() }.request_type(), None);
    assert_eq!(BlockSystemCall::BeaconRoots { parent_beacon_block_root: B256::zero() }.request_type(), None);
}

#[test]
fn system_call_gas_is_spent_less_refund_on_success() {
    assert_eq!(system_call_gas_used(SYSTEM_CALL_GAS_LIMIT - 50_000, 4_800, true), 45_200);
    assert_eq!(system_call_gas_used(SYSTEM_CALL_GAS_LIMIT - 50_000, 4_800, false), 50_000);
    assert_eq!(system_call_gas_used(SYSTEM_CALL_GAS_LIMIT - 50_000, -7, true), 50_000);
    assert_eq!(system_call_gas_used(SYSTEM_CALL_GAS_LIMIT - 10, 100, true), 0);
    assert_eq!(system_call_gas_used(u64::MAX, 0, true), 0);
}

#[test]
fn post_block_requests_carry_their_type_byte() {
    let calls = vec![BlockSystemCall::WithdrawalRequests, BlockSystemCall::ConsolidationRequests];
    let out = collect_system_call_requests(&calls, &vec![InstrStop::Stop, InstrStop::Return], &vec![vec![0xaa, 0xbb], vec![]]);
    assert_eq!(out, Ok(vec![vec![1, 0xaa, 0xbb]]));
    let out = collect_system_call_requests(&calls, &vec![InstrStop::Stop, InstrStop::Return], &vec![vec![7], vec![8, 9]]);
    assert_eq!(out, Ok(vec![vec![1, 7], vec![2, 8, 9]]));
    let out = collect_system_call_requests(&calls, &vec![InstrStop::Stop, InstrStop::Return], &vec![vec![], vec![]]);
    assert_eq!(out, Ok(vec![]));
}

#[test]
fn failed_post_block_call_names_the_first_failure() {
    let calls = vec![BlockSystemCall::WithdrawalRequests, BlockSystemCall::ConsolidationRequests];
    let out = collect_system_call_requests(&calls, &vec![InstrStop::Return, InstrStop::Revert], &vec![vec![1], vec![2]]);
    let consolidation = BlockSystemCall::ConsolidationRequests;
    assert_eq!(
        out,
        Err(BlockExecutionError::SystemCall { call: consolidation, address: consolidation.address(), stop: InstrStop::Revert })
    );
    let out = collect_system_call_requests(&calls, &vec![InstrStop::OutOfGas, InstrStop::Revert], &vec![vec![], vec![]]);
    let withdrawal = BlockSystemCall::WithdrawalRequests;
    assert_eq!(
        out,
        Err(BlockExecutionError::SystemCall { call: withdrawal, address: withdrawal.address(), stop: InstrStop::OutOfGas })
    );
    assert_eq!(withdrawal.label(), "eip7002");
}

#[test]
fn message_gas_drops_what_a_stop_forfeits() {
    assert_eq!(message_gas(700, 40, true, false), (700, 40));
    assert_eq!(message_gas(700, 40, false, false), (700, 0));
    assert_eq!(message_gas(700, 40, false, true), (0, 0));
    assert_eq!(message_gas(700, -3, true, false), (700, -3));
}

#[test]
fn block_loop_runs_transactions_until_the_first_error() {
    let block = BlockEnv { gas_limit: Word::from_u64(100), ..BlockEnv::default() };
    let evm = Evm::new(SpecId::CANCUN, block, CacheDB::new());
    let mut result = BlockExecutionResult::new();
    let next = |gas_limit| BlockLoopEvent::NextTransaction { gas_limit, tx_gas_limit_cap: u64::MAX };
    assert_eq!(evm.block_loop_step(&mut result, next(60)), BlockLoopAction::Execute);
    let executed = BlockLoopEvent::Executed { gas_used: 50, state_gas_used: 0, blob_gas_used: 3 };
    assert_eq!(evm.block_loop_step(&mut result, executed), BlockLoopAction::Next);
    assert_eq!((result.gas_used, result.cumulative_tx_gas_used, result.blob_gas_used), (50, 50, 3));
    assert_eq!(
        evm.block_loop_step(&mut result, next(51)),
        BlockLoopAction::Fail {
            error: BlockExecutionError::TransactionGasLimitMoreThanAvailableBlockGas {
                transaction_gas_limit: 51,
                block_available_gas: 50,
            },
        }
    );
    assert_eq!(evm.block_loop_step(&mut result, next(50)), BlockLoopAction::Execute);
    let failed = BlockLoopEvent::Failed { error: BlockExecutionError::MissingParentBeaconBlockRoot };
    assert_eq!(
        evm.block_loop_step(&mut result, failed),
        BlockLoopAction::Fail { error: BlockExecutionError::MissingParentBeaconBlockRoot }
    );
    assert_eq!(evm.block_loop_step(&mut result, BlockLoopEvent::Finished), BlockLoopAction::Done { result });
}
