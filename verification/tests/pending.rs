use evm2::config::SpecId;
use evm2::db::CacheDB;
use evm2::evm::{BlockEnv, Evm};
use evm2::host::TxGas;
use evm2::primitives::{Address, Word};
use evm2::state::{AccountInfo, BlockStateAccumulator, Log, Tee};

fn lifecycle_account() -> Address {
    Address::with_last_byte(0x7a)
}

fn lifecycle_key() -> Word {
    Word::from_u64(1)
}

/// An EVM whose database holds the lifecycle account with balance 1 and the value 1 in the
/// lifecycle slot.
fn lifecycle_evm() -> Evm {
    let mut database = CacheDB::new();
    database.insert_account_info(&lifecycle_account(), AccountInfo::default().with_balance(Word::from_u64(1)));
    database.insert_account_storage(&lifecycle_account(), &lifecycle_key(), &Word::from_u64(1));
    Evm::new(SpecId::OSAKA, BlockEnv::default(), database)
}

/// The lifecycle transaction: writes `value` to the lifecycle slot and emits one log, then is
/// concluded; returns its logs and gas.
fn run_lifecycle_tx(evm: &mut Evm, value: u64) -> (Vec<Log>, TxGas) {
    evm.sstore(&lifecycle_account(), &lifecycle_key(), &Word::from_u64(value), false).unwrap();
    evm.log(Log { address: lifecycle_account(), topics: Vec::new(), data: Vec::new() });
    let logs = evm.conclude_transaction().unwrap();
    (logs, TxGas::from_tx_gas_used(value))
}

fn accepted_slot(evm: &Evm) -> Word {
    evm.state().overlay_db().storage_ref(&lifecycle_account(), &lifecycle_key())
}

#[test]
fn pending_transaction_discard_drops_state_but_keeps_outcome_logs() {
    let mut evm = lifecycle_evm();
    let (logs, gas) = run_lifecycle_tx(&mut evm, 7);
    evm.discard_pending();

    assert_eq!(gas.tx_gas_used, 7);
    assert_eq!(logs.len(), 1);
    assert_eq!(accepted_slot(&evm), Word::from_u64(1));
}

#[test]
fn pending_transaction_detach_materializes_without_committing() {
    let mut evm = lifecycle_evm();
    let (logs, _) = run_lifecycle_tx(&mut evm, 7);
    let changes = evm.detach_pending();

    assert_eq!(logs.len(), 1);
    let account = changes.accounts.get(&lifecycle_account()).expect("storage change should be present");
    let slot = account.storage.get(&lifecycle_key()).expect("storage slot should be present");
    assert_eq!(slot.original, Word::from_u64(1));
    assert_eq!(slot.current, Word::from_u64(7));
    assert_eq!(accepted_slot(&evm), Word::from_u64(1));
}

#[test]
fn pending_transaction_commit_updates_accepted_overlay() {
    let mut evm = lifecycle_evm();
    let (logs, _) = run_lifecycle_tx(&mut evm, 7);
    evm.commit_pending();

    assert_eq!(logs.len(), 1);
    assert_eq!(accepted_slot(&evm), Word::from_u64(7));

    run_lifecycle_tx(&mut evm, 9);
    evm.commit_pending();
    assert_eq!(accepted_slot(&evm), Word::from_u64(9));
}

#[test]
fn pending_transaction_commit_to_accumulates_block_state() {
    let mut evm = lifecycle_evm();
    let mut block_state = BlockStateAccumulator::new();

    run_lifecycle_tx(&mut evm, 7);
    evm.commit_pending_to(&mut block_state);
    run_lifecycle_tx(&mut evm, 9);
    evm.commit_pending_to(&mut block_state);

    let storage = block_state.storage_sorted();
    assert_eq!(storage.len(), 1);
    assert_eq!(storage[0].1.original, Word::from_u64(1));
    assert_eq!(storage[0].1.current, Word::from_u64(9));
    assert_eq!(accepted_slot(&evm), Word::from_u64(9));
}

#[test]
fn pending_transaction_commit_with_tee_fans_out_changes() {
    let mut evm = lifecycle_evm();
    let mut tee = Tee::new(BlockStateAccumulator::new(), BlockStateAccumulator::new());

    run_lifecycle_tx(&mut evm, 7);
    evm.commit_pending_with(&mut tee).expect("block accumulators are infallible");

    let (left, right) = tee.into_parts();
    assert_eq!(left.storage_sorted()[0].1.current, Word::from_u64(7));
    assert_eq!(right.storage_sorted()[0].1.current, Word::from_u64(7));
}

#[test]
fn dropped_pending_transaction_discards_state() {
    let mut evm = lifecycle_evm();
    run_lifecycle_tx(&mut evm, 7);
    evm.discard_pending();

    assert_eq!(accepted_slot(&evm), Word::from_u64(1));
}

#[test]
fn tee_hands_each_change_to_both_sinks() {
    let mut tee = Tee::new(BlockStateAccumulator::new(), BlockStateAccumulator::new());
    let change = evm2::state::StorageChange {
        address: lifecycle_account(),
        key: lifecycle_key(),
        original: Word::from_u64(1),
        current: Word::from_u64(4),
    };
    assert_eq!(evm2::state::StateChangeSink::storage(&mut tee, change), Ok(()));
    let (left, right) = tee.into_parts();
    assert_eq!(left.storage_sorted(), right.storage_sorted());
    assert_eq!(left.storage_sorted()[0].1.current, Word::from_u64(4));
}

#[test]
fn visiting_an_accumulator_replays_it_into_another() {
    let mut evm = lifecycle_evm();
    let mut block_state = BlockStateAccumulator::new();
    run_lifecycle_tx(&mut evm, 7);
    evm.commit_pending_to(&mut block_state);

    let mut copy = BlockStateAccumulator::new();
    assert_eq!(evm2::state::StateChangeSource::visit(&block_state, &mut copy), Ok(()));
    assert_eq!(copy.storage_sorted(), block_state.storage_sorted());
    assert_eq!(copy.accounts_sorted(), block_state.accounts_sorted());
}
