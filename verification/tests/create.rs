use evm2::bytecode::Bytecode;
use evm2::config::SpecId;
use evm2::create::{CreateKind, CreateMessage};
use evm2::db::CacheDB;
use evm2::eip7708::{address_topic, transfer_topic};
use evm2::evm::{BlockEnv, CallKind, CallMessage, CreateFinish, Evm};
use evm2::host::InstrStop;
use evm2::primitives::{Address, Word, B256};
use evm2::state::AccountInfo;

fn parse(s: &str) -> Address {
    let a: alloy_primitives::Address = s.parse().unwrap();
    from_alloy(&a)
}

fn from_alloy(a: &alloy_primitives::Address) -> Address {
    let b = a.as_slice();
    Address::new(
        u64::from_be_bytes(b[0..8].try_into().unwrap()),
        u64::from_be_bytes(b[8..16].try_into().unwrap()),
        u32::from_be_bytes(b[16..20].try_into().unwrap()),
    )
}

fn message(caller: Address, value: u64, depth: u64, kind: CreateKind) -> CreateMessage {
    CreateMessage {
        caller,
        destination: Address::with_last_byte(0x99),
        value: Word::from_u64(value),
        depth,
        kind,
        salt: B256::zero(),
    }
}

fn evm_with(caller: Address, info: AccountInfo, spec: SpecId) -> Evm {
    let mut database = CacheDB::new();
    database.insert_account_info(&caller, info);
    Evm::new(spec, BlockEnv::default(), database)
}

#[test]
fn create_address_uses_the_callers_nonce() {
    let sender = parse("0xb20a608c624Ca5003905aA834De7156C68b2E1d0");
    let mut evm = evm_with(sender, AccountInfo::default().with_nonce(1), SpecId::CANCUN);
    let code = Bytecode::new();

    let nested = evm.create_address(&code, &message(sender, 0, 1, CreateKind::Create)).unwrap();
    assert_eq!(nested, parse("0xe33c6e89e69d085897f98e92b06ebd541d1daa99"));

    // A creation transaction keeps its destination.
    let top = evm.create_address(&code, &message(sender, 0, 0, CreateKind::Create)).unwrap();
    assert_eq!(top, Address::with_last_byte(0x99));
}

#[test]
fn create2_address_uses_salt_and_init_code_hash() {
    let sender = parse("0x5C69bEe701ef814a2B6a3EDD4B1652CB9cc5aA6f");
    let mut evm = evm_with(sender, AccountInfo::default(), SpecId::CANCUN);
    let code = Bytecode::new_legacy(vec![0x60, 0x00]);
    let salt: alloy_primitives::B256 =
        "0x2b2f5776e38002e0c013d0d89828fdb06fee595ea2d5ed4b194e3883e823e350".parse().unwrap();
    let s = salt.as_slice();
    let mut m = message(sender, 0, 1, CreateKind::Create2);
    m.salt = B256 {
        w0: u64::from_be_bytes(s[0..8].try_into().unwrap()),
        w1: u64::from_be_bytes(s[8..16].try_into().unwrap()),
        w2: u64::from_be_bytes(s[16..24].try_into().unwrap()),
        w3: u64::from_be_bytes(s[24..32].try_into().unwrap()),
    };
    let expected = alloy_primitives::Address::from_slice(&sender_bytes(&sender))
        .create2(salt, alloy_primitives::keccak256([0x60u8, 0x00]));
    assert_eq!(evm.create_address(&code, &m).unwrap(), from_alloy(&expected));
}

fn sender_bytes(a: &Address) -> Vec<u8> {
    [&a.hi.to_be_bytes()[..], &a.mid.to_be_bytes()[..], &a.lo.to_be_bytes()[..]].concat()
}

#[test]
fn create_address_checks_funds_and_nonce_cap() {
    let sender = Address::with_last_byte(0x10);
    let mut evm = evm_with(sender, AccountInfo::default().with_balance(Word::from_u64(5)), SpecId::CANCUN);
    let code = Bytecode::new();
    assert_eq!(
        evm.create_address(&code, &message(sender, 6, 0, CreateKind::Create)),
        Err(InstrStop::OutOfFunds)
    );
    assert!(evm.create_address(&code, &message(sender, 5, 0, CreateKind::Create)).is_ok());

    let capped = Address::with_last_byte(0x11);
    let mut evm = evm_with(capped, AccountInfo::default().with_nonce(u64::MAX), SpecId::CANCUN);
    assert_eq!(
        evm.create_address(&code, &message(capped, 0, 1, CreateKind::Create)),
        Err(InstrStop::Return)
    );
    // The cap only applies to nested creations.
    assert!(evm.create_address(&code, &message(capped, 0, 0, CreateKind::Create)).is_ok());
}

#[test]
fn prepare_create_message_sets_destination_and_bumps_nested_nonce() {
    let sender = Address::with_last_byte(0x12);
    let mut evm = evm_with(sender, AccountInfo::default().with_nonce(4), SpecId::BERLIN);
    let mut m = message(sender, 0, 1, CreateKind::Create);
    evm.prepare_create_message(&Bytecode::new(), &mut m).unwrap();
    assert_ne!(m.destination, Address::with_last_byte(0x99));
    assert_eq!(evm.account_info(&sender).unwrap().unwrap().nonce, 5);
    assert!(!evm.load_account(&m.destination, false, false).unwrap().is_cold);

    let mut top = message(sender, 0, 0, CreateKind::Create);
    evm.prepare_create_message(&Bytecode::new(), &mut top).unwrap();
    assert_eq!(top.destination, Address::with_last_byte(0x99));
    assert_eq!(evm.account_info(&sender).unwrap().unwrap().nonce, 5);
}

#[test]
fn create_message_account_endows_the_new_account() {
    let sender = Address::with_last_byte(0x13);
    let mut evm = evm_with(sender, AccountInfo::default().with_balance(Word::from_u64(9)), SpecId::AMSTERDAM);
    let m = message(sender, 4, 0, CreateKind::Create);
    evm.create_message_account(&m).unwrap();
    let created = evm.account_info(&m.destination).unwrap().unwrap();
    assert_eq!(created.balance, Word::from_u64(4));
    assert_eq!(created.nonce, 1);
    assert_eq!(evm.account_info(&sender).unwrap().unwrap().balance, Word::from_u64(5));
    let logs = evm.logs();
    assert_eq!(logs.len(), 1);
    assert_eq!(logs[0].topics, vec![transfer_topic(), address_topic(&sender), address_topic(&m.destination)]);

    // A second creation at the same place collides.
    assert_eq!(evm.create_message_account(&m), Err(InstrStop::CreateCollision));
    // A creation the caller cannot pay for fails.
    let other = CreateMessage { destination: Address::with_last_byte(0x98), value: Word::from_u64(6), ..m };
    assert_eq!(evm.create_message_account(&other), Err(InstrStop::OutOfFunds));
}

#[test]
fn finished_creation_installs_the_returned_code() {
    let sender = Address::with_last_byte(0x14);
    let mut evm = evm_with(sender, AccountInfo::default().with_balance(Word::from_u64(9)), SpecId::CANCUN);
    let m = message(sender, 4, 0, CreateKind::Create);
    let checkpoint = evm.state().checkpoint();
    evm.create_message_account(&m).unwrap();
    let mut output = vec![0x60, 0x00, 0x00];
    let finish = evm.finish_create_message_run(checkpoint, &m.destination, true, false, 1_000, 0, 24_576, 200, &mut output);
    assert_eq!(finish.finish, CreateFinish::Created { deposit: 600 });
    let code = Bytecode::new_legacy(vec![0x60, 0x00, 0x00]);
    let created = evm.account_info(&m.destination).unwrap().unwrap();
    assert_eq!(created.code_hash, code.hash_slow());
    assert_eq!(created.balance, Word::from_u64(4));
    assert_eq!(evm.account_code(&m.destination).unwrap(), code);
}

#[test]
fn refused_or_failed_creation_rolls_back_to_the_checkpoint() {
    let sender = Address::with_last_byte(0x15);
    let mut evm = evm_with(sender, AccountInfo::default().with_balance(Word::from_u64(9)), SpecId::CANCUN);
    let m = message(sender, 4, 0, CreateKind::Create);

    // Code starting with 0xEF is refused under EIP-3541.
    let checkpoint = evm.state().checkpoint();
    evm.create_message_account(&m).unwrap();
    let mut output = vec![0xef, 0x00];
    let finish = evm.finish_create_message_run(checkpoint, &m.destination, true, false, 1_000, 0, 24_576, 200, &mut output);
    assert_eq!(finish.finish, CreateFinish::Refused { stop: InstrStop::CreateContractStartingWithEF });
    assert_eq!(evm.account_info(&m.destination).unwrap(), None);
    assert_eq!(evm.account_info(&sender).unwrap().unwrap().balance, Word::from_u64(9));

    // Not enough gas for the deposit fails under EIP-2.
    let checkpoint = evm.state().checkpoint();
    evm.create_message_account(&m).unwrap();
    let mut output = vec![0x00; 10];
    let finish = evm.finish_create_message_run(checkpoint, &m.destination, true, false, 1_999, 0, 24_576, 200, &mut output);
    assert_eq!(finish.finish, CreateFinish::Refused { stop: InstrStop::OutOfGas });
    assert_eq!(evm.account_info(&m.destination).unwrap(), None);

    // An init code that did not succeed unwinds the endowment.
    let checkpoint = evm.state().checkpoint();
    evm.create_message_account(&m).unwrap();
    let mut output = vec![0x01];
    let finish = evm.finish_create_message_run(checkpoint, &m.destination, false, false, 1_000, 0, 24_576, 200, &mut output);
    assert_eq!(finish.finish, CreateFinish::Unwound);
    assert_eq!(output, vec![0x01]);
    assert_eq!(evm.account_info(&m.destination).unwrap(), None);
    assert_eq!(evm.account_info(&sender).unwrap().unwrap().balance, Word::from_u64(9));
}

#[test]
fn frontier_creation_without_deposit_gas_keeps_empty_code() {
    let sender = Address::with_last_byte(0x16);
    let mut evm = evm_with(sender, AccountInfo::default(), SpecId::FRONTIER);
    let m = message(sender, 0, 0, CreateKind::Create);
    let checkpoint = evm.state().checkpoint();
    evm.create_message_account(&m).unwrap();
    let mut output = vec![0x60, 0x00];
    let finish = evm.finish_create_message_run(checkpoint, &m.destination, true, false, 10, 0, 24_576, 200, &mut output);
    assert_eq!(finish.finish, CreateFinish::Created { deposit: 0 });
    assert!(output.is_empty());
    assert_eq!(evm.account_info(&m.destination).unwrap().unwrap().code_hash, Bytecode::new().hash_slow());
}

#[test]
fn concluded_transaction_hands_back_its_logs_and_keeps_its_changes_pending() {
    let sender = Address::with_last_byte(0x17);
    let mut evm = evm_with(sender, AccountInfo::default().with_balance(Word::from_u64(9)), SpecId::AMSTERDAM);
    let m = message(sender, 4, 0, CreateKind::Create);
    evm.create_message_account(&m).unwrap();
    let logs = evm.conclude_transaction().unwrap();
    assert_eq!(logs.len(), 1);
    assert_eq!(logs[0].topics, vec![transfer_topic(), address_topic(&sender), address_topic(&m.destination)]);
    assert!(evm.logs().is_empty());
    assert_eq!(evm.account_info(&m.destination).unwrap().unwrap().balance, Word::from_u64(4));
    let changes = evm.detach_pending();
    assert_eq!(changes.accounts.get(&m.destination).unwrap().current.unwrap().balance, Word::from_u64(4));
    assert_eq!(evm.account_info(&m.destination).unwrap(), None);
}

#[test]
fn begun_creation_keeps_the_prepared_nonce_bump_when_it_fails() {
    let sender = Address::with_last_byte(0x18);
    let mut evm = evm_with(sender, AccountInfo::default().with_balance(Word::from_u64(9)).with_nonce(2), SpecId::CANCUN);
    let mut m = message(sender, 4, 1, CreateKind::Create);
    let checkpoint = evm.begin_create_message(&Bytecode::new(), &mut m).unwrap();
    assert_ne!(m.destination, Address::with_last_byte(0x99));
    assert_eq!(evm.account_info(&m.destination).unwrap().unwrap().balance, Word::from_u64(4));

    // The init code failed: the endowment is undone, the nested nonce bump stays.
    let mut output = Vec::new();
    assert_eq!(
        evm.finish_create_message_run(checkpoint, &m.destination, false, false, 0, 0, 24_576, 200, &mut output).finish,
        CreateFinish::Unwound
    );
    assert_eq!(evm.account_info(&m.destination).unwrap(), None);
    let caller = evm.account_info(&sender).unwrap().unwrap();
    assert_eq!(caller.balance, Word::from_u64(9));
    assert_eq!(caller.nonce, 3);

    // A creation the caller cannot pay for fails before any account is created.
    let mut poor = message(sender, 100, 0, CreateKind::Create);
    assert_eq!(evm.begin_create_message(&Bytecode::new(), &mut poor), Err(InstrStop::OutOfFunds));
    assert_eq!(evm.account_info(&poor.destination).unwrap(), None);
}

#[test]
fn begun_call_moves_value_and_a_failed_call_rolls_it_back() {
    let sender = Address::with_last_byte(0x19);
    let target = Address::with_last_byte(0x1a);
    let mut evm = evm_with(sender, AccountInfo::default().with_balance(Word::from_u64(9)), SpecId::AMSTERDAM);
    let call = CallMessage { caller: sender, destination: target, value: Word::from_u64(3), kind: CallKind::Call, gas_limit: 100_000 };
    let checkpoint = evm.begin_call_message(&call).unwrap();
    assert_eq!(evm.account_info(&target).unwrap().unwrap().balance, Word::from_u64(3));
    assert_eq!(evm.logs().len(), 1);
    evm.finish_call_message_run(checkpoint, false, false, 0, 0);
    assert_eq!(evm.account_info(&target).unwrap(), None);
    assert_eq!(evm.account_info(&sender).unwrap().unwrap().balance, Word::from_u64(9));
    assert!(evm.logs().is_empty());

    // A delegate call moves nothing; an unaffordable call fails.
    let delegate = CallMessage { kind: CallKind::DelegateCall, value: Word::from_u64(100), ..call };
    let checkpoint = evm.begin_call_message(&delegate).unwrap();
    evm.finish_call_message_run(checkpoint, true, false, 0, 0);
    assert_eq!(evm.account_info(&target).unwrap(), None);
    let costly = CallMessage { value: Word::from_u64(100), ..call };
    let refused = evm.begin_call_message(&costly).unwrap_err();
    assert_eq!(refused.stop, InstrStop::OutOfFunds);
    assert_eq!(refused.gas_remaining, 100_000);
    assert_eq!(refused.gas_refunded, 0);
    assert!(refused.output.is_empty());
    assert_eq!(refused.created_address, None);
}

fn repeated(byte: u8) -> Address {
    Address::new(u64::from_ne_bytes([byte; 8]), u64::from_ne_bytes([byte; 8]), u32::from_ne_bytes([byte; 4]))
}

/// Init code `PUSH1 1 PUSH1 0 RETURN` run with a gas limit of 50 returns one zero byte and
/// leaves 41 gas, too little for the 200-gas deposit.
#[test]
fn frontier_code_deposit_oog_creates_empty_contract() {
    let caller = repeated(0x11);
    let created = repeated(0x22);
    let mut evm = evm_with(caller, AccountInfo::default().with_balance(Word::from_u64(1)), SpecId::FRONTIER);
    let mut m = CreateMessage { destination: created, ..message(caller, 0, 0, CreateKind::Create) };

    let checkpoint = evm.begin_create_message(&Bytecode::new_legacy(vec![0x60, 1, 0x60, 0, 0xf3]), &mut m).unwrap();
    let mut output = vec![0x00];
    let finish = evm.finish_create_message_run(checkpoint, &m.destination, true, false, 41, 0, 24_576, 200, &mut output);
    assert_eq!(finish.finish, CreateFinish::Created { deposit: 0 });

    evm.finalize_transaction().unwrap();
    let changes = evm.detach_pending();
    let account = changes.accounts.get(&created).and_then(|change| change.current).unwrap();
    assert_eq!(account.code_hash, B256::keccak_empty());
}

/// A static call into code that stops at once.
#[test]
fn staticcall_touches_empty_existing_destination() {
    let target = repeated(0x11);
    let mut database = CacheDB::new();
    database.insert_account_info(&target, AccountInfo::default());
    database.insert_account_storage(&target, &Word::zero(), &Word::from_u64(1));
    let mut evm = Evm::new(SpecId::SPURIOUS_DRAGON, BlockEnv::default(), database);
    let call = CallMessage { caller: Address::with_last_byte(0), destination: target, value: Word::zero(), kind: CallKind::StaticCall, gas_limit: 100_000 };

    let checkpoint = evm.begin_call_message(&call).unwrap();
    evm.finish_call_message_run(checkpoint, true, false, 0, 0);

    evm.finalize_transaction().unwrap();
    let changes = evm.detach_pending();
    let account = changes.accounts.get(&target).expect("empty destination should be deleted");
    assert!(account.original.is_some());
    assert_eq!(account.current, None);
    assert!(account.wipe_storage);
}

/// A delegate call into code that stops at once.
#[test]
fn delegatecall_does_not_touch_empty_code_address() {
    let destination = repeated(0x11);
    let code_address = repeated(0x22);
    let mut database = CacheDB::new();
    database.insert_account_info(&destination, AccountInfo::default().with_balance(Word::from_u64(1)));
    database.insert_account_info(&code_address, AccountInfo::default());
    database.insert_account_storage(&code_address, &Word::zero(), &Word::from_u64(1));
    let mut evm = Evm::new(SpecId::SPURIOUS_DRAGON, BlockEnv::default(), database);
    let call = CallMessage { caller: Address::with_last_byte(0), destination, value: Word::zero(), kind: CallKind::DelegateCall, gas_limit: 100_000 };

    let checkpoint = evm.begin_call_message(&call).unwrap();
    evm.finish_call_message_run(checkpoint, true, false, 0, 0);

    evm.finalize_transaction().unwrap();
    let changes = evm.detach_pending();
    assert!(changes.accounts.get(&code_address).is_none());
}

/// A value-bearing call into code that stops at once.
#[test]
fn amsterdam_call_value_emits_eip7708_log() {
    let caller = repeated(0x01);
    let target = repeated(0x02);
    let mut evm = evm_with(caller, AccountInfo::default().with_balance(Word::from_u64(10)), SpecId::AMSTERDAM);
    let call = CallMessage { caller, destination: target, value: Word::from_u64(7), kind: CallKind::Call, gas_limit: 100_000 };

    let checkpoint = evm.begin_call_message(&call).unwrap();
    evm.finish_call_message_run(checkpoint, true, false, 0, 0);

    let logs = evm.conclude_transaction().unwrap();
    let _changes = evm.detach_pending();
    assert_eq!(logs.len(), 1);
    let log = &logs[0];
    assert_eq!(log.address, evm2::eip7708::system_address());
    assert_eq!(log.topics, vec![transfer_topic(), address_topic(&caller), address_topic(&target)]);
    assert_eq!(log.data, Word::from_u64(7).to_be_bytes());
}

#[test]
fn finished_creation_reports_its_gas_and_address() {
    let sender = Address::with_last_byte(0x31);
    let mut evm = evm_with(sender, AccountInfo::default().with_balance(Word::from_u64(9)), SpecId::CANCUN);
    let m = message(sender, 4, 0, CreateKind::Create);

    // Created: the deposit is charged and the refund kept.
    let checkpoint = evm.state().checkpoint();
    evm.create_message_account(&m).unwrap();
    let mut output = vec![0x60, 0x00, 0x00];
    let done = evm.finish_create_message_run(checkpoint, &m.destination, true, false, 1_000, 25, 24_576, 200, &mut output);
    assert_eq!(done.finish, CreateFinish::Created { deposit: 600 });
    assert_eq!((done.gas_remaining, done.gas_refunded), (400, 25));
    assert_eq!(done.created_address, Some(m.destination));

    // Refused code halts: no gas left and no refund.
    let checkpoint = evm.state().checkpoint();
    let mut output = vec![0xef];
    let done = evm.finish_create_message_run(checkpoint, &m.destination, true, false, 1_000, 25, 24_576, 200, &mut output);
    assert_eq!((done.gas_remaining, done.gas_refunded, done.created_address), (0, 0, None));

    // A reverted init code keeps its gas but not its refund; a halted one keeps neither.
    let checkpoint = evm.state().checkpoint();
    let mut output = Vec::new();
    let done = evm.finish_create_message_run(checkpoint, &m.destination, false, false, 700, 25, 24_576, 200, &mut output);
    assert_eq!((done.finish, done.gas_remaining, done.gas_refunded), (CreateFinish::Unwound, 700, 0));
    let checkpoint = evm.state().checkpoint();
    let done = evm.finish_create_message_run(checkpoint, &m.destination, false, true, 700, 25, 24_576, 200, &mut output);
    assert_eq!((done.gas_remaining, done.gas_refunded, done.created_address), (0, 0, None));
}

#[test]
fn finished_call_reports_its_gas() {
    let sender = Address::with_last_byte(0x32);
    let target = Address::with_last_byte(0x33);
    let mut evm = evm_with(sender, AccountInfo::default().with_balance(Word::from_u64(9)), SpecId::CANCUN);
    let call = CallMessage { caller: sender, destination: target, value: Word::from_u64(1), kind: CallKind::Call, gas_limit: 5_000 };
    let checkpoint = evm.begin_call_message(&call).unwrap();
    assert_eq!(evm.finish_call_message_run(checkpoint, true, false, 3_000, 40), (3_000, 40));
    let checkpoint = evm.begin_call_message(&call).unwrap();
    assert_eq!(evm.finish_call_message_run(checkpoint, false, false, 3_000, 40), (3_000, 0));
    let checkpoint = evm.begin_call_message(&call).unwrap();
    assert_eq!(evm.finish_call_message_run(checkpoint, false, true, 3_000, 40), (0, 0));
    assert!(InstrStop::Return.is_success() && !InstrStop::Return.is_halt());
    assert!(InstrStop::OutOfGas.is_halt() && !InstrStop::OutOfGas.is_success());
}
