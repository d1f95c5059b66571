//! The EVM host: the state operations that opcodes perform, with the fork's access-cost and
//! account-lifetime rules, and block-level balance increments.

use vstd::prelude::*;
use crate::block::{
    BlockOmmer, Withdrawal, amounts, post_block_balance_increments, saturating_to_u64,
    spec_base_block_reward, spec_post_block_balance_increments,
};
use crate::bytecode::Bytecode;
use crate::create::{CreateMessage, spec_create_address};
use crate::config::{EvmFeatures, SpecId, Version};
use crate::db::{CacheDB, DbErrorCode};
use crate::eip7708::{eip7708_burn_log, eip7708_transfer_log, is_burn_log, is_transfer_log};
use crate::host::{
    InstrStop, SLoad, SStore, SelfDestructResult, create_output_check, message_gas, spec_message_gas, validate_create_output,
};
use crate::primitives::{Address, B256, Word};
use crate::system::BlockSystemCall;
use crate::state::{
    Account, AccountInfo, BlockStateAccumulator, Log, RevView, State, StateChangeSink, StateChangeSource, StateChanges,
    StateCheckpoint, account_or_empty, applied_account, applied_slot, change_events, law_accumulator_folds_events, runs,
    runs_ok, spec_fold_events,
    transfer_outcome, balance_of, burn_logs_appended, burn_set, existing_dead, info_of, precompile3, rev_delete,
    rev_materialize,
};
use crate::vecmap::{StorageKey, VecMap};

verus! {

/// Block values visible to opcodes.
#[derive(Clone, Copy, Debug, PartialEq, Eq, Structural)]
pub struct BlockEnv {
    pub number: Word,
    pub beneficiary: Address,
    pub timestamp: Word,
    pub gas_limit: Word,
    pub basefee: Word,
    pub difficulty: Word,
    pub prevrandao: Word,
    pub blob_basefee: Word,
    pub slot_num: Word,
}

impl Default for BlockEnv {
    /// Block zero at timestamp one, with a `u64::MAX` gas limit and a blob base fee of one.
    fn default() -> (r: BlockEnv)
        ensures
            r.number.val() == 0,
            r.beneficiary == Address::spec_with_last_byte(0),
            r.timestamp.val() == 1,
            r.gas_limit.val() == u64::MAX,
            r.basefee.val() == 0,
            r.difficulty.val() == 0,
            r.prevrandao.val() == 0,
            r.blob_basefee.val() == 1,
            r.slot_num.val() == 0,
    {
        BlockEnv {
            number: Word::zero(),
            beneficiary: Address::with_last_byte(0),
            timestamp: Word::from_u64(1),
            gas_limit: Word::from_u64(u64::MAX),
            basefee: Word::zero(),
            difficulty: Word::zero(),
            prevrandao: Word::zero(),
            blob_basefee: Word::from_u64(1),
            slot_num: Word::zero(),
        }
    }
}

/// Loaded account information.
pub struct AccountLoad {
    pub balance: Word,
    pub code_hash: B256,
    pub code: Bytecode,
    pub exists: bool,
    pub is_empty: bool,
    pub is_cold: bool,
}

/// Block execution error.
#[derive(Clone, Copy, Debug, PartialEq, Eq, Structural)]
pub enum BlockExecutionError {
    /// A database operation failed.
    Database(DbErrorCode),
    /// A transaction's gas limit exceeds the gas left in the block.
    TransactionGasLimitMoreThanAvailableBlockGas { transaction_gas_limit: u64, block_available_gas: u64 },
    /// A Cancun block lacks its parent beacon block root.
    MissingParentBeaconBlockRoot,
    /// A Cancun genesis block has a non-zero parent beacon block root.
    CancunGenesisParentBeaconBlockRootNotZero { parent_beacon_block_root: B256 },
    /// A system call around the block failed; [`BlockSystemCall::label`] names it.
    SystemCall { call: BlockSystemCall, address: Address, stop: InstrStop },
}

/// The gas accounting of the transactions of a block executed so far.
#[derive(Clone, Copy, Debug, PartialEq, Eq, Structural)]
pub struct BlockExecutionResult {
    /// Total gas used by the block's transactions.
    pub gas_used: u64,
    /// Cumulative transaction gas used after refunds.
    pub cumulative_tx_gas_used: u64,
    /// Regular gas used by the block's transactions.
    pub block_regular_gas_used: u64,
    /// State gas used by the block's transactions.
    pub block_state_gas_used: u64,
    /// Blob gas used by the block's transactions.
    pub blob_gas_used: u64,
}

/// What the block's transaction loop reports to [`Evm::block_loop_step`].
#[derive(Clone, Copy, Debug, PartialEq, Eq, Structural)]
pub enum BlockLoopEvent {
    /// A transaction is next, with its gas limit and the version's transaction gas cap.
    NextTransaction { gas_limit: u64, tx_gas_limit_cap: u64 },
    /// The transaction last allowed ran, using this gas and blob gas.
    Executed { gas_used: u64, state_gas_used: u64, blob_gas_used: u64 },
    /// The transaction last allowed could not be executed.
    Failed { error: BlockExecutionError },
    /// No transaction is left.
    Finished,
}

/// What the block's transaction loop does next.
#[derive(Clone, Copy, Debug, PartialEq, Eq, Structural)]
pub enum BlockLoopAction {
    /// Execute the transaction just announced.
    Execute,
    /// Announce the next transaction, or that none is left.
    Next,
    /// End the block with its gas accounting.
    Done { result: BlockExecutionResult },
    /// End the block with an error.
    Fail { error: BlockExecutionError },
}

/// The gas accounting after one more executed transaction (see
/// [`BlockExecutionResult::record_transaction`]).
pub open spec fn recorded(
    eip8037: bool,
    cancun: bool,
    r: BlockExecutionResult,
    gas_used: u64,
    state_gas_used: u64,
    blob_gas_used: u64,
) -> BlockExecutionResult {
    let cumulative = sat_add(r.cumulative_tx_gas_used, gas_used);
    let regular = sat_add(r.block_regular_gas_used, gas_used);
    let state = sat_add(r.block_state_gas_used, state_gas_used);
    BlockExecutionResult {
        gas_used: if eip8037 {
            if regular >= state { regular } else { state }
        } else {
            cumulative
        },
        cumulative_tx_gas_used: cumulative,
        block_regular_gas_used: regular,
        block_state_gas_used: state,
        blob_gas_used: if cancun { sat_add(r.blob_gas_used, blob_gas_used) } else { r.blob_gas_used },
    }
}

/// Recording transactions one after another adds up their gas: while nothing saturates, two
/// recordings equal one of the summed amounts; the cumulative and regular gas grow by the gas
/// used, the state gas by the state gas used, and the blob gas by the blob gas from Cancun on
/// (not before); the block's gas used is the larger of regular and state gas under EIP-8037,
/// and the cumulative gas otherwise.
pub proof fn law_block_gas_adds_up(
    eip8037: bool,
    cancun: bool,
    r: BlockExecutionResult,
    gas1: u64,
    state1: u64,
    blob1: u64,
    gas2: u64,
    state2: u64,
    blob2: u64,
)
    requires
        r.cumulative_tx_gas_used + gas1 + gas2 <= u64::MAX,
        r.block_regular_gas_used + gas1 + gas2 <= u64::MAX,
        r.block_state_gas_used + state1 + state2 <= u64::MAX,
        r.blob_gas_used + blob1 + blob2 <= u64::MAX,
    ensures
        recorded(eip8037, cancun, recorded(eip8037, cancun, r, gas1, state1, blob1), gas2, state2, blob2) == recorded(
            eip8037,
            cancun,
            r,
            (gas1 + gas2) as u64,
            (state1 + state2) as u64,
            (blob1 + blob2) as u64,
        ),
        ({
            let t = recorded(eip8037, cancun, r, gas1, state1, blob1);
            &&& t.cumulative_tx_gas_used == r.cumulative_tx_gas_used + gas1
            &&& t.block_regular_gas_used == r.block_regular_gas_used + gas1
            &&& t.block_state_gas_used == r.block_state_gas_used + state1
            &&& t.blob_gas_used == r.blob_gas_used + (if cancun { blob1 as int } else { 0int })
            &&& eip8037 ==> t.gas_used == (if r.block_regular_gas_used + gas1 >= r.block_state_gas_used + state1 {
                r.block_regular_gas_used + gas1
            } else {
                r.block_state_gas_used + state1
            })
            &&& !eip8037 ==> t.gas_used == r.cumulative_tx_gas_used + gas1
        }),
{
}

/// `a + b`, saturating at `u64::MAX`.
pub open spec fn sat_add(a: u64, b: u64) -> u64 {
    if a + b <= u64::MAX {
        (a + b) as u64
    } else {
        u64::MAX
    }
}

impl BlockExecutionResult {
    /// Nothing executed yet.
    pub fn new() -> (r: BlockExecutionResult)
        ensures
            r == (BlockExecutionResult {
                gas_used: 0,
                cumulative_tx_gas_used: 0,
                block_regular_gas_used: 0,
                block_state_gas_used: 0,
                blob_gas_used: 0,
            }),
    {
        BlockExecutionResult {
            gas_used: 0,
            cumulative_tx_gas_used: 0,
            block_regular_gas_used: 0,
            block_state_gas_used: 0,
            blob_gas_used: 0,
        }
    }

    /// The block gas the transactions have used: regular gas under EIP-8037, else cumulative
    /// transaction gas.
    pub open spec fn spec_block_gas_used(self, eip8037: bool) -> u64 {
        if eip8037 {
            self.block_regular_gas_used
        } else {
            self.cumulative_tx_gas_used
        }
    }

    /// The gas left in a block with gas limit `block_gas_limit`, zero when it is used up.
    pub open spec fn spec_available_gas(self, eip8037: bool, block_gas_limit: Word) -> int {
        if block_gas_limit.val() >= self.spec_block_gas_used(eip8037) {
            block_gas_limit.val() - self.spec_block_gas_used(eip8037)
        } else {
            0
        }
    }

    /// Checks that a transaction fits in what is left of the block: its gas limit, capped at
    /// `tx_gas_limit_cap`, must not exceed the available block gas. The error reports the
    /// transaction's gas limit and the available gas, saturated to `u64`.
    pub fn check_transaction_gas(
        &self,
        eip8037: bool,
        block_gas_limit: &Word,
        tx_gas_limit: u64,
        tx_gas_limit_cap: u64,
    ) -> (r: Result<(), BlockExecutionError>)
        ensures
            ({
                let available = self.spec_available_gas(eip8037, *block_gas_limit);
                let max_usage = if tx_gas_limit <= tx_gas_limit_cap { tx_gas_limit } else { tx_gas_limit_cap };
                if max_usage > available {
                    r == Err::<(), BlockExecutionError>(
                        BlockExecutionError::TransactionGasLimitMoreThanAvailableBlockGas {
                            transaction_gas_limit: tx_gas_limit,
                            block_available_gas: if available <= u64::MAX { available as u64 } else { u64::MAX },
                        },
                    )
                } else {
                    r is Ok
                }
            }),
    {
        let used: u64 = if eip8037 {
            self.block_regular_gas_used
        } else {
            self.cumulative_tx_gas_used
        };
        let available = match block_gas_limit.checked_sub(&Word::from_u64(used)) {
            Some(d) => d,
            None => Word::zero(),
        };
        let max_usage: u64 = if tx_gas_limit <= tx_gas_limit_cap {
            tx_gas_limit
        } else {
            tx_gas_limit_cap
        };
        if available.lt(&Word::from_u64(max_usage)) {
            return Err(BlockExecutionError::TransactionGasLimitMoreThanAvailableBlockGas {
                transaction_gas_limit: tx_gas_limit,
                block_available_gas: saturating_to_u64(&available),
            });
        }
        Ok(())
    }

    /// Records an executed transaction: the gas counters grow, saturating at `u64::MAX`; the
    /// block's gas used is the larger of regular and state gas under EIP-8037, else the
    /// cumulative transaction gas; blob gas counts from Cancun on.
    pub fn record_transaction(
        &mut self,
        eip8037: bool,
        cancun: bool,
        gas_used: u64,
        state_gas_used: u64,
        blob_gas_used: u64,
    )
        ensures
            final(self).cumulative_tx_gas_used == sat_add(old(self).cumulative_tx_gas_used, gas_used),
            final(self).block_regular_gas_used == sat_add(old(self).block_regular_gas_used, gas_used),
            final(self).block_state_gas_used == sat_add(old(self).block_state_gas_used, state_gas_used),
            final(self).gas_used == if eip8037 {
                if final(self).block_regular_gas_used >= final(self).block_state_gas_used {
                    final(self).block_regular_gas_used
                } else {
                    final(self).block_state_gas_used
                }
            } else {
                final(self).cumulative_tx_gas_used
            },
            final(self).blob_gas_used == if cancun {
                sat_add(old(self).blob_gas_used, blob_gas_used)
            } else {
                old(self).blob_gas_used
            },
    {
        self.cumulative_tx_gas_used = self.cumulative_tx_gas_used.saturating_add(gas_used);
        self.block_regular_gas_used = self.block_regular_gas_used.saturating_add(gas_used);
        self.block_state_gas_used = self.block_state_gas_used.saturating_add(state_gas_used);
        self.gas_used = if eip8037 {
            if self.block_regular_gas_used >= self.block_state_gas_used {
                self.block_regular_gas_used
            } else {
                self.block_state_gas_used
            }
        } else {
            self.cumulative_tx_gas_used
        };
        if cancun {
            self.blob_gas_used = self.blob_gas_used.saturating_add(blob_gas_used);
        }
    }
}

/// The balance of an account in a view, as a word; an absent account has none.
pub open spec fn balance_word(r: RevView, a: Address) -> Word {
    match r.accounts[a] {
        Some(acc) => acc.balance,
        None => Word::spec_zero(),
    }
}

/// Whether the account is empty or absent for new-account gas, as the state reports it.
pub open spec fn target_empty(r: RevView, touched: Set<Address>, a: Address, features: EvmFeatures) -> bool {
    if features.eip161 {
        match r.accounts[a] {
            Some(acc) => acc.spec_is_empty(),
            None => true,
        }
    } else {
        r.accounts[a] is None && !touched.contains(a)
    }
}

/// The account was created in the current transaction.
pub open spec fn created_in_tx(r: RevView, a: Address) -> bool {
    r.accounts[a] is Some && r.accounts[a]->0.just_created
}

/// The view after the transaction-end rules: self-destructed accounts are deleted; from
/// EIP-161 on, touched accounts left dead are deleted too, and before it, touched accounts that
/// exist nowhere are materialized empty.
pub open spec fn finalized_rev(s0: State, f: EvmFeatures) -> RevView {
    let survivors = rev_delete(s0.rev(), s0.rev().selfdestructs);
    if f.eip161 {
        rev_delete(
            survivors,
            Set::new(|a: Address| s0.touched_view().contains(a) && existing_dead(survivors, s0.db(), a)),
        )
    } else {
        rev_materialize(
            survivors,
            Set::new(
                |a: Address|
                    s0.touched_view().contains(a) && !s0.rev().selfdestructs.contains(a)
                        && s0.rev().accounts[a] is None && s0.db().spec_account(a) is None,
            ),
        )
    }
}

/// `logs` are the transaction's logs after the transaction-end rules: with delayed EIP-7708 burn
/// logs, the burns of self-destructed accounts are appended; otherwise they are unchanged.
pub open spec fn finalized_logs(s0: State, f: EvmFeatures, logs: Seq<Log>) -> bool {
    if f.eip7708 && f.eip7708_delayed_burn {
        burn_logs_appended(s0.logs_view(), logs, burn_set(s0.rev().selfdestructs, s0.loaded_accounts()))
    } else {
        logs == s0.logs_view()
    }
}

/// The accounts recorded as created after the transaction-end rules: those before, and the
/// self-destructed accounts that were created in the transaction.
pub open spec fn finalized_created(s0: State) -> Set<Address> {
    s0.created_view().union(
        Set::new(
            |a: Address|
                s0.rev().selfdestructs.contains(a) && s0.rev().accounts[a] is Some
                    && s0.rev().accounts[a]->0.just_created,
        ),
    )
}

/// The view after a creation is prepared at address `a`: the address is warm, and a nested
/// creation bumps the caller's nonce (held at its maximum) and touches the caller.
pub open spec fn prepared_rev(r0: RevView, m: CreateMessage, a: Address) -> RevView {
    let caller = account_or_empty(r0, m.caller);
    if m.depth > 0 {
        RevView {
            warm_accounts: r0.warm_accounts.insert(a),
            accounts: r0.accounts.insert(
                m.caller,
                Some(Account {
                    nonce: if caller.nonce < u64::MAX {
                        (caller.nonce + 1) as u64
                    } else {
                        u64::MAX
                    },
                    ..caller
                }),
            ),
            touched: r0.touched.insert(m.caller).remove(precompile3()),
            ..r0
        }
    } else {
        RevView { warm_accounts: r0.warm_accounts.insert(a), ..r0 }
    }
}

/// Creating the account of `message` from view `r0` and logs `logs0` ended in `r1`, `logs1`
/// (with `touched1` touched) and result `r`: a nonce or code at the address is a collision and an
/// unaffordable endowment is out of funds, both changing nothing; otherwise the new account has
/// nonce one (zero before EIP-161), no code, wiped storage and the endowment, and under EIP-7708 a
/// non-zero endowment between distinct accounts logs a `Transfer`.
pub open spec fn create_account_outcome(
    r0: RevView,
    logs0: Seq<Log>,
    r1: RevView,
    logs1: Seq<Log>,
    touched1: Set<Address>,
    message: CreateMessage,
    features: EvmFeatures,
    r: Result<(), InstrStop>,
) -> bool {
    let caller = message.caller;
    let address = message.destination;
    let value = message.value;
    let collision = match r0.accounts[address] {
        Some(a) => a.nonce != 0 || a.code_hash != B256::spec_keccak_empty(),
        None => false,
    };
    let can_pay = value.val() == 0 || value.val() <= balance_of(r0, caller);
    let logged = features.eip7708 && value.val() != 0 && caller != address;
    &&& collision ==> r == Err::<(), InstrStop>(InstrStop::CreateCollision) && r1 == r0
    &&& !collision && !can_pay ==> r == Err::<(), InstrStop>(InstrStop::OutOfFunds) && r1 == r0
    &&& r is Err ==> logs1 == logs0
    &&& !collision && can_pay ==> {
        &&& r is Ok
        &&& r1.accounts[address] is Some
        &&& r1.accounts[address].unwrap().nonce == (if features.eip161 { 1u64 } else { 0u64 })
        &&& r1.accounts[address].unwrap().code_hash == B256::spec_keccak_empty()
        &&& r1.accounts[address].unwrap().just_created
        &&& r1.accounts[address].unwrap().balance.val() == if caller == address || value.val() == 0 {
            balance_of(r0, address) as int
        } else if balance_of(r0, address) + value.val() < crate::primitives::word_modulus() {
            (balance_of(r0, address) + value.val()) as int
        } else {
            crate::primitives::word_modulus() - 1
        }
        &&& r1.wiped[address]
        &&& forall|k: Word| #[trigger] r1.slots[StorageKey { address, key: k }] == Word::spec_zero()
        &&& touched1.contains(address)
        &&& (value.val() != 0 && caller != address) ==> r1.accounts[caller] is Some
            && r1.accounts[caller].unwrap().balance.val() == balance_of(r0, caller) - value.val()
        &&& logged ==> {
            &&& logs1.len() == logs0.len() + 1
            &&& logs1.drop_last() == logs0
            &&& is_transfer_log(logs1.last(), caller, address, value)
        }
        &&& !logged ==> logs1 == logs0
    }
}

/// The kinds of message call.
#[derive(Clone, Copy, Debug, PartialEq, Eq, Structural)]
pub enum CallKind {
    /// `CALL`.
    Call,
    /// `CALLCODE`.
    CallCode,
    /// `DELEGATECALL`: runs another account's code with the caller's value, moving nothing.
    DelegateCall,
    /// `STATICCALL`.
    StaticCall,
}

/// What a call message carries for moving its value.
#[derive(Clone, Copy, Debug, PartialEq, Eq, Structural)]
pub struct CallMessage {
    pub caller: Address,
    pub destination: Address,
    pub value: Word,
    pub kind: CallKind,
    /// Gas the message may spend.
    pub gas_limit: u64,
}

/// The result of a message that ended without running code: its stop, and all of its gas left.
#[derive(Clone, Debug, PartialEq, Eq)]
pub struct MessageResult {
    pub stop: InstrStop,
    /// Gas left to the caller.
    pub gas_remaining: u64,
    /// Gas refunded.
    pub gas_refunded: i64,
    /// Returned data.
    pub output: Vec<u8>,
    /// The account created, for a creation that succeeded.
    pub created_address: Option<Address>,
}

/// The result of a message stopped by `stop` before running code: the whole `gas_remaining`
/// is handed back, with no refund, no output and nothing created.
pub fn error_message_result(stop: InstrStop, gas_remaining: u64) -> (r: MessageResult)
    ensures
        r.stop == stop,
        r.gas_remaining == gas_remaining,
        r.gas_refunded == 0,
        r.output@.len() == 0,
        r.created_address is None,
{
    MessageResult { stop, gas_remaining, gas_refunded: 0, output: Vec::new(), created_address: None }
}

/// How a creation ended once its init code had run, with the gas it reports and the account
/// it created.
#[derive(Clone, Copy, Debug, PartialEq, Eq, Structural)]
pub struct CreateOutcome {
    pub finish: CreateFinish,
    /// Gas left to the creator.
    pub gas_remaining: u64,
    /// Gas refunded.
    pub gas_refunded: i64,
    /// The new contract's address, when the creation succeeded.
    pub created_address: Option<Address>,
}

/// How a creation ended once its init code had run.
#[derive(Clone, Copy, Debug, PartialEq, Eq, Structural)]
pub enum CreateFinish {
    /// The returned code was installed at the new address, charging `deposit` gas.
    Created { deposit: u64 },
    /// The returned code was refused, and the state rolled back to the checkpoint.
    Refused { stop: InstrStop },
    /// The init code did not succeed, and the state was rolled back to the checkpoint.
    Unwound,
}

/// The view after `code` is installed at `address`: the account (empty when absent) takes the
/// code's hash and is marked as having changed code.
pub open spec fn code_installed(r: RevView, address: Address, code: Seq<u8>) -> RevView {
    RevView {
        accounts: r.accounts.insert(
            address,
            Some(Account {
                code_hash: crate::bytecode::keccak256_spec(code),
                code_changed: true,
                ..account_or_empty(r, address)
            }),
        ),
        ..r
    }
}

/// The EVM host over an in-memory state.
pub struct Evm {
    spec_id: SpecId,
    version: Version,
    block: BlockEnv,
    state: State,
    db_error_code: Option<DbErrorCode>,
}

impl Evm {
    pub closed spec fn spec_state(&self) -> State {
        self.state
    }

    pub closed spec fn spec_version(&self) -> Version {
        self.version
    }

    pub closed spec fn spec_spec_id(&self) -> SpecId {
        self.spec_id
    }

    pub closed spec fn spec_block(&self) -> BlockEnv {
        self.block
    }

    pub closed spec fn spec_db_error_code(&self) -> Option<DbErrorCode> {
        self.db_error_code
    }

    /// The host's invariant: the state's.
    pub open spec fn wf(&self) -> bool {
        self.spec_state().inv()
    }

    /// An EVM for `spec_id` at `block` over `database`.
    pub fn new(spec_id: SpecId, block: BlockEnv, database: CacheDB) -> (r: Evm)
        requires
            database.wf(),
        ensures
            r.wf(),
            r.spec_spec_id() == spec_id,
            r.spec_version().spec_id == spec_id,
            r.spec_version().features == EvmFeatures::spec_for_spec(spec_id),
            r.spec_block() == block,
            r.spec_state().db() == database,
            r.spec_state().journal_view().len() == 0,
            r.spec_state().logs_view().len() == 0,
    {
        Evm { spec_id, version: Version::base(spec_id), block, state: State::new(database), db_error_code: None }
    }

    /// The state.
    pub fn state(&self) -> (r: &State)
        ensures
            *r == self.spec_state(),
    {
        &self.state
    }

    /// The logs emitted so far.
    pub fn logs(&self) -> (r: &Vec<Log>)
        ensures
            r@ == self.spec_state().logs_view(),
    {
        self.state.logs()
    }

    /// The active version.
    pub fn version(&self) -> (r: Version)
        ensures
            r == self.spec_version(),
    {
        self.version
    }

    /// The active features.
    pub fn features(&self) -> (r: EvmFeatures)
        ensures
            r == self.spec_version().features,
    {
        self.version.features
    }

    /// The active fork.
    pub fn spec_id(&self) -> (r: SpecId)
        ensures
            r == self.spec_spec_id(),
    {
        self.spec_id
    }

    /// The block environment.
    pub fn block(&self) -> (r: &BlockEnv)
        ensures
            *r == self.spec_block(),
    {
        &self.block
    }

    /// Replaces the block environment.
    pub fn set_block(&mut self, block: BlockEnv)
        ensures
            final(self).spec_block() == block,
            final(self).spec_state() == old(self).spec_state(),
            final(self).spec_version() == old(self).spec_version(),
            final(self).spec_spec_id() == old(self).spec_spec_id(),
    {
        self.block = block;
    }

    /// The code of the last database error, if any.
    pub fn db_error_code(&self) -> (r: Option<DbErrorCode>)
        ensures
            r == self.spec_db_error_code(),
    {
        self.db_error_code
    }

    /// Account information as the transaction sees it; the account is loaded.
    pub fn account_info(&mut self, address: &Address) -> (r: Result<Option<AccountInfo>, DbErrorCode>)
        requires
            old(self).wf(),
        ensures
            final(self).wf(),
            final(self).spec_state().extends(&old(self).spec_state()),
            final(self).spec_state().rev() == old(self).spec_state().rev(),
            final(self).spec_state().logs_view() == old(self).spec_state().logs_view(),
            final(self).spec_version() == old(self).spec_version(),
            final(self).spec_spec_id() == old(self).spec_spec_id(),
            final(self).spec_block() == old(self).spec_block(),
            r == Ok::<Option<AccountInfo>, DbErrorCode>(info_of(old(self).spec_state().rev().accounts[*address])),
    {
        self.state.load_account_info(address)
    }

    /// The account's code as the transaction sees it.
    pub fn account_code(&mut self, address: &Address) -> (r: Result<Bytecode, DbErrorCode>)
        requires
            old(self).wf(),
        ensures
            final(self).wf(),
            final(self).spec_state().rev() == old(self).spec_state().rev(),
            r is Ok,
            r.unwrap().bytes@ == old(self).spec_state().visible_code(*address),
    {
        self.state.read_code(address)
    }

    /// Marks the account warm; returns whether the access is cold under EIP-2929 (never before
    /// it).
    fn access_account(&mut self, address: &Address) -> (is_cold: bool)
        requires
            old(self).wf(),
        ensures
            final(self).wf(),
            final(self).spec_state().extends(&old(self).spec_state()),
            is_cold == (old(self).spec_version().features.eip2929 && !old(self).spec_state().rev().warm_accounts.contains(*address)),
            final(self).spec_state().rev() == (RevView {
                warm_accounts: old(self).spec_state().rev().warm_accounts.insert(*address),
                ..old(self).spec_state().rev()
            }),
            final(self).spec_state().logs_view() == old(self).spec_state().logs_view(),
            final(self).spec_state().touched_view() == old(self).spec_state().touched_view(),
            final(self).spec_state().loaded_accounts() == old(self).spec_state().loaded_accounts(),
            final(self).spec_state().codes_view() == old(self).spec_state().codes_view(),
            final(self).spec_version() == old(self).spec_version(),
    {
        let was_cold = self.state.warm_account(address);
        if self.version.features.eip2929 {
            was_cold
        } else {
            false
        }
    }

    /// Loads an account for an opcode: its balance, code hash (zero for an absent account),
    /// code when asked, existence, emptiness and access cost. A cold access that the caller asked
    /// to skip fails with out-of-gas, after the account was warmed.
    pub fn load_account(&mut self, address: &Address, load_code: bool, skip_cold_load: bool) -> (r: Result<AccountLoad, InstrStop>)
        requires
            old(self).wf(),
        ensures
            final(self).wf(),
            final(self).spec_state().extends(&old(self).spec_state()),
            final(self).spec_state().rev() == (RevView {
                warm_accounts: old(self).spec_state().rev().warm_accounts.insert(*address),
                ..old(self).spec_state().rev()
            }),
            ({
                let is_cold = old(self).spec_version().features.eip2929 && !old(self).spec_state().rev().warm_accounts.contains(*address);
                let acc = old(self).spec_state().rev().accounts[*address];
                &&& (skip_cold_load && is_cold) ==> r == Err::<AccountLoad, InstrStop>(InstrStop::OutOfGas)
                &&& !(skip_cold_load && is_cold) ==> r is Ok
                &&& r matches Ok(l) ==> {
                    &&& l.is_cold == is_cold
                    &&& l.exists == acc is Some
                    &&& l.balance == balance_word(old(self).spec_state().rev(), *address)
                    &&& l.code_hash == match acc {
                        Some(a) => a.code_hash,
                        None => B256::spec_zero(),
                    }
                    &&& l.is_empty == (account_or_empty(old(self).spec_state().rev(), *address).spec_info().spec_is_empty()
                        || acc is None)
                    &&& load_code ==> l.code.bytes@ == old(self).spec_state().visible_code(*address)
                    &&& !load_code ==> l.code.bytes@.len() == 0
                }
            }),
    {
        let ghost r0 = self.state.rev();
        let is_cold = self.access_account(address);
        if skip_cold_load && is_cold {
            return Err(InstrStop::OutOfGas);
        }
        let ghost s1 = self.state;
        let info = match self.state.load_account_info(address) {
            Ok(i) => i,
            Err(code) => {
                return Err(InstrStop::OutOfGas);
            },
        };
        proof {
            State::lemma_extends_trans(&old(self).spec_state(), &s1, &self.state);
        }
        let exists = info.is_some();
        let (balance, code_hash, is_empty) = match info {
            Some(i) => (i.balance, i.code_hash, i.is_empty()),
            None => (Word::zero(), B256::zero(), true),
        };
        proof {
            assert(self.state.rev().accounts[*address] == old(self).spec_state().rev().accounts[*address]);
            assert(self.state.codes_view() == old(self).spec_state().codes_view());
            State::lemma_extends_db(&old(self).spec_state(), &self.state);
            assert(self.state.db() == old(self).spec_state().db());
            assert(self.state.visible_code(*address) == old(self).spec_state().visible_code(*address));
        }
        let code = if load_code {
            match self.state.read_code(address) {
                Ok(c) => c,
                Err(code) => {
                    return Err(InstrStop::OutOfGas);
                },
            }
        } else {
            Bytecode::new()
        };
        Ok(AccountLoad { balance, code_hash, code, exists, is_empty, is_cold })
    }

    /// Whether the account counts as empty for new-account gas.
    pub fn target_is_empty_for_new_account_gas(&self, address: &Address, features: EvmFeatures) -> (r: Result<bool, InstrStop>)
        requires
            self.wf(),
        ensures
            r == Ok::<bool, InstrStop>(target_empty(
                self.spec_state().rev(),
                self.spec_state().touched_view(),
                *address,
                features,
            )),
    {
        match self.state.target_is_empty_for_new_account_gas(address, features) {
            Ok(b) => Ok(b),
            Err(code) => Err(InstrStop::OutOfGas),
        }
    }

    /// The hash of block `number`, if known.
    pub fn block_hash(&self, number: &Word) -> (r: Result<Option<B256>, InstrStop>)
        ensures
            r == Ok::<Option<B256>, InstrStop>(if self.spec_state().db().cache.block_hashes@.contains_key(*number) {
                Some(self.spec_state().db().cache.block_hashes@[*number])
            } else {
                None
            }),
    {
        match self.state.block_hash(number) {
            Ok(h) => Ok(h),
            Err(code) => Err(InstrStop::OutOfGas),
        }
    }

    /// `SLOAD`: the slot's value as the transaction sees it, and whether the access is cold under
    /// EIP-2929. A cold access that the caller asked to skip fails with out-of-gas, after the slot
    /// was warmed.
    pub fn sload(&mut self, address: &Address, key: &Word, skip_cold_load: bool) -> (r: Result<SLoad, InstrStop>)
        requires
            old(self).wf(),
        ensures
            final(self).wf(),
            final(self).spec_state().extends(&old(self).spec_state()),
            ({
                let sk = StorageKey { address: *address, key: *key };
                let is_cold = old(self).spec_version().features.eip2929 && !old(self).spec_state().rev().warm_slots.contains(sk);
                &&& (skip_cold_load && is_cold) ==> r == Err::<SLoad, InstrStop>(InstrStop::OutOfGas)
                &&& !(skip_cold_load && is_cold) ==> r == Ok::<SLoad, InstrStop>(SLoad { value: old(self).spec_state().rev().slots[sk], is_cold })
                &&& old(self).spec_version().features.eip2929 ==> final(self).spec_state().rev() == (RevView {
                    warm_slots: old(self).spec_state().rev().warm_slots.insert(sk),
                    ..old(self).spec_state().rev()
                })
                &&& !old(self).spec_version().features.eip2929 ==> final(self).spec_state().rev() == old(self).spec_state().rev()
            }),
    {
        let ghost s0 = self.state;
        let is_cold = if self.version.features.eip2929 {
            self.state.warm_storage(address, key)
        } else {
            proof {
                State::lemma_extends_refl(&self.state);
            }
            false
        };
        if skip_cold_load && is_cold {
            return Err(InstrStop::OutOfGas);
        }
        let ghost s1 = self.state;
        let value = match self.state.load_storage(address, key) {
            Ok(v) => v,
            Err(code) => {
                return Err(InstrStop::OutOfGas);
            },
        };
        proof {
            State::lemma_extends_trans(&s0, &s1, &self.state);
        }
        Ok(SLoad { value, is_cold })
    }
    /// `SSTORE`: writes the slot and returns the values gas metering needs, with whether the
    /// access is cold under EIP-2929. A cold access that the caller asked to skip fails with
    /// out-of-gas, after the slot was warmed.
    pub fn sstore(&mut self, address: &Address, key: &Word, value: &Word, skip_cold_load: bool) -> (r: Result<SStore, InstrStop>)
        requires
            old(self).wf(),
        ensures
            final(self).wf(),
            final(self).spec_state().extends(&old(self).spec_state()),
            ({
                let sk = StorageKey { address: *address, key: *key };
                let r0 = old(self).spec_state().rev();
                let is_cold = old(self).spec_version().features.eip2929 && !r0.warm_slots.contains(sk);
                &&& (skip_cold_load && is_cold) ==> r == Err::<SStore, InstrStop>(InstrStop::OutOfGas)
                &&& !(skip_cold_load && is_cold) ==> r == Ok::<SStore, InstrStop>(SStore {
                    original_value: crate::state::base_slot(old(self).spec_state().db(), *address, *key, r0.wiped[*address]),
                    present_value: r0.slots[sk],
                    new_value: *value,
                    is_cold,
                })
                &&& r is Ok ==> final(self).spec_state().rev().slots[sk] == *value
                    && final(self).spec_state().rev().accounts[*address] is Some
                    && final(self).spec_state().touched_view().contains(*address)
            }),
    {
        let ghost s0 = self.state;
        let is_cold = if self.version.features.eip2929 {
            self.state.warm_storage(address, key)
        } else {
            proof {
                State::lemma_extends_refl(&self.state);
            }
            false
        };
        if skip_cold_load && is_cold {
            return Err(InstrStop::OutOfGas);
        }
        let ghost s1 = self.state;
        proof {
            State::lemma_extends_db(&s0, &s1);
        }
        let mut result = match self.state.set_storage(address, key, value) {
            Ok(res) => res,
            Err(code) => {
                return Err(InstrStop::OutOfGas);
            },
        };
        proof {
            State::lemma_extends_trans(&s0, &s1, &self.state);
        }
        result.is_cold = is_cold;
        Ok(result)
    }

    /// `TLOAD`: the transient slot's value, zero when unset.
    pub fn tload(&self, address: &Address, key: &Word) -> (r: Word)
        ensures
            r == (if self.spec_state().rev().transient.contains_key(StorageKey { address: *address, key: *key }) {
                self.spec_state().rev().transient[StorageKey { address: *address, key: *key }]
            } else {
                Word::spec_zero()
            }),
    {
        self.state.transient_storage(address, key)
    }

    /// `TSTORE`: sets the transient slot.
    pub fn tstore(&mut self, address: &Address, key: &Word, value: &Word)
        requires
            old(self).wf(),
        ensures
            final(self).wf(),
            final(self).spec_state().extends(&old(self).spec_state()),
            final(self).spec_state().rev() == (RevView {
                transient: if *value == Word::spec_zero() {
                    old(self).spec_state().rev().transient.remove(StorageKey { address: *address, key: *key })
                } else {
                    old(self).spec_state().rev().transient.insert(StorageKey { address: *address, key: *key }, *value)
                },
                ..old(self).spec_state().rev()
            }),
    {
        self.state.set_transient_storage(address, key, value);
    }

    /// Records a log.
    pub fn log(&mut self, log: Log)
        requires
            old(self).wf(),
        ensures
            final(self).wf(),
            final(self).spec_state().extends(&old(self).spec_state()),
            final(self).spec_state().logs_view() == old(self).spec_state().logs_view().push(log),
            final(self).spec_state().rev() == old(self).spec_state().rev(),
    {
        self.state.log(log);
    }

    /// Emits the EIP-7708 `Transfer` log of a value transfer when EIP-7708 is active and the
    /// transfer moves a non-zero value between two accounts.
    fn log_eip7708_transfer(&mut self, from: &Address, to: &Address, value: &Word)
        requires
            old(self).wf(),
        ensures
            final(self).wf(),
            final(self).spec_state().extends(&old(self).spec_state()),
            final(self).spec_state().rev() == old(self).spec_state().rev(),
            final(self).spec_version() == old(self).spec_version(),
            final(self).spec_state().loaded_accounts() == old(self).spec_state().loaded_accounts(),
            final(self).spec_state().touched_view() == old(self).spec_state().touched_view(),
            old(self).spec_version().features.eip7708 && value.val() != 0 && *from != *to ==> {
                &&& final(self).spec_state().logs_view().len() == old(self).spec_state().logs_view().len() + 1
                &&& final(self).spec_state().logs_view().drop_last() == old(self).spec_state().logs_view()
                &&& is_transfer_log(final(self).spec_state().logs_view().last(), *from, *to, *value)
            },
            !(old(self).spec_version().features.eip7708 && value.val() != 0 && *from != *to) ==> final(self).spec_state().logs_view()
                == old(self).spec_state().logs_view(),
    {
        if self.version.features.eip7708 {
            match eip7708_transfer_log(from, to, value) {
                Some(log) => {
                    self.state.log(log);
                    proof {
                        assert(self.state.logs_view().drop_last() =~= old(self).spec_state().logs_view());
                    }
                    return;
                },
                None => {},
            }
        }
        proof {
            State::lemma_extends_refl(&self.state);
        }
    }

    /// Moves a self-destructing contract's balance: to the target when it is another account, or
    /// burned when the contract destroys itself.
    fn selfdestruct_move_balance(&mut self, contract: &Address, target: &Address, balance: &Word, should_destroy: bool)
        requires
            old(self).wf(),
            *balance == balance_word(old(self).spec_state().rev(), *contract),
        ensures
            final(self).wf(),
            final(self).spec_state().extends(&old(self).spec_state()),
            final(self).spec_version() == old(self).spec_version(),
            ({
                let r0 = old(self).spec_state().rev();
                let r1 = final(self).spec_state().rev();
                &&& r1.selfdestructs == r0.selfdestructs
                &&& r1.warm_accounts == r0.warm_accounts
                &&& *contract != *target ==> balance_of(r1, *contract) == 0
                    && balance_of(r1, *target) == if balance_of(r0, *target) + balance.val() < crate::primitives::word_modulus() {
                        (balance_of(r0, *target) + balance.val()) as int
                    } else {
                        crate::primitives::word_modulus() - 1
                    }
                &&& *contract == *target && should_destroy ==> balance_of(r1, *contract) == 0
                &&& *contract == *target && !(should_destroy && balance.val() != 0) ==> r1 == r0
                &&& *contract != *target ==> transfer_outcome(r0, r1, *contract, *target, *balance, true)
                &&& *contract == *target && should_destroy && balance.val() != 0 ==> {
                    &&& r1.accounts[*contract] is Some
                    &&& r1 == (RevView {
                        accounts: r0.accounts.insert(
                            *contract,
                            Some(Account { balance: r1.accounts[*contract].unwrap().balance, ..account_or_empty(r0, *contract) }),
                        ),
                        touched: r0.touched.insert(*contract).remove(precompile3()),
                        ..r0
                    })
                }
            }),
            ({
                let logs0 = old(self).spec_state().logs_view();
                let logs1 = final(self).spec_state().logs_view();
                let f = old(self).spec_version().features;
                let transfer_logged = *contract != *target && f.eip7708 && balance.val() != 0;
                let burn_logged = *contract == *target && should_destroy && f.eip7708 && balance.val() != 0;
                &&& transfer_logged ==> logs1 == logs0.push(logs1.last()) && is_transfer_log(
                    logs1.last(),
                    *contract,
                    *target,
                    *balance,
                )
                &&& burn_logged ==> logs1 == logs0.push(logs1.last()) && is_burn_log(logs1.last(), *contract, *balance)
                &&& !transfer_logged && !burn_logged ==> logs1 == logs0
            }),
    {
        let ghost s2 = self.state;
        if !(*contract == *target) {
            let transferred = match self.state.transfer(contract, target, balance) {
                Ok(t) => t,
                Err(code) => {
                    return;
                },
            };
            let ghost s3 = self.state;
            if transferred {
                self.log_eip7708_transfer(contract, target, balance);
                proof {
                    State::lemma_extends_trans(&s2, &s3, &self.state);
                }
            }
        } else if should_destroy && !balance.is_zero() {
            let ghost s3 = self.state;
            if self.version.features.eip7708 {
                match eip7708_burn_log(contract, balance) {
                    Some(log) => {
                        self.state.log(log);
                    },
                    None => {
                        proof {
                            State::lemma_extends_refl(&self.state);
                        }
                    },
                }
            } else {
                proof {
                    State::lemma_extends_refl(&self.state);
                }
            }
            let ghost s4 = self.state;
            let burn = Word::zero().wrapping_sub(balance);
            proof {
                crate::primitives::lemma_word_val_bound(*balance);
                assert(burn.val() == crate::primitives::word_modulus() - balance.val()) by {
                    vstd::arithmetic::div_mod::lemma_mod_add_multiples_vanish(
                        (0 - balance.val()) as int,
                        crate::primitives::word_modulus(),
                    );
                    vstd::arithmetic::div_mod::lemma_small_mod(
                        (crate::primitives::word_modulus() - balance.val()) as nat,
                        crate::primitives::word_modulus() as nat,
                    );
                }
            }
            match self.state.add_balance(contract, &burn) {
                Ok(()) => {},
                Err(code) => {
                    return;
                },
            }
            proof {
                State::lemma_extends_refl(&s2);
                State::lemma_extends_trans(&s2, &s3, &s4);
                State::lemma_extends_trans(&s2, &s4, &self.state);
                vstd::arithmetic::div_mod::lemma_mod_self_0(crate::primitives::word_modulus());
            }
        } else {
            proof {
                State::lemma_extends_refl(&self.state);
            }
        }
    }

    /// `SELFDESTRUCT` of `contract` in favour of `target`: the target is warmed (a cold access
    /// that the caller asked to skip fails with out-of-gas); the contract's whole balance moves
    /// to the target, or, when the target is the contract itself and it is destroyed, is burned
    /// (with an EIP-7708 `Burn` log); the contract is destroyed unless EIP-6780 is active and it
    /// was not created in this transaction.
    pub fn selfdestruct(&mut self, contract: &Address, target: &Address, skip_cold_load: bool) -> (r: Result<SelfDestructResult, InstrStop>)
        requires
            old(self).wf(),
        ensures
            final(self).wf(),
            final(self).spec_state().extends(&old(self).spec_state()),
            ({
                let r0 = old(self).spec_state().rev();
                let features = old(self).spec_version().features;
                let is_cold = features.eip2929 && !r0.warm_accounts.contains(*target);
                let balance = balance_word(r0, *contract);
                let destroy = !features.eip6780 || created_in_tx(r0, *contract);
                let r1 = final(self).spec_state().rev();
                &&& (skip_cold_load && is_cold) ==> r == Err::<SelfDestructResult, InstrStop>(InstrStop::OutOfGas)
                &&& !(skip_cold_load && is_cold) ==> r == Ok::<SelfDestructResult, InstrStop>(SelfDestructResult {
                    had_value: balance.val() != 0,
                    value: balance,
                    target_is_empty: target_empty(r0, old(self).spec_state().touched_view(), *target, features),
                    is_cold,
                    previously_destroyed: r0.selfdestructs.contains(*contract),
                })
                &&& r1.warm_accounts.contains(*target)
                &&& r is Err ==> r1 == (RevView { warm_accounts: r0.warm_accounts.insert(*target), ..r0 })
                    && final(self).spec_state().logs_view() == old(self).spec_state().logs_view()
                &&& r1.selfdestructs == if r is Ok && destroy {
                    r0.selfdestructs.insert(*contract)
                } else {
                    r0.selfdestructs
                }
                &&& r is Ok ==> ({
                    let logs0 = old(self).spec_state().logs_view();
                    let logs1 = final(self).spec_state().logs_view();
                    let transfer_logged = *contract != *target && features.eip7708 && balance.val() != 0;
                    let burn_logged = *contract == *target && destroy && features.eip7708 && balance.val() != 0;
                    &&& transfer_logged ==> logs1 == logs0.push(logs1.last()) && is_transfer_log(
                        logs1.last(),
                        *contract,
                        *target,
                        balance,
                    )
                    &&& burn_logged ==> logs1 == logs0.push(logs1.last()) && is_burn_log(logs1.last(), *contract, balance)
                    &&& !transfer_logged && !burn_logged ==> logs1 == logs0
                })
                &&& r is Ok && *contract != *target ==> balance_of(r1, *contract) == 0
                    && balance_of(r1, *target) == if balance_of(r0, *target) + balance.val() < crate::primitives::word_modulus() {
                        (balance_of(r0, *target) + balance.val()) as int
                    } else {
                        crate::primitives::word_modulus() - 1
                    }
                &&& r is Ok && *contract == *target && destroy ==> balance_of(r1, *contract) == 0
                &&& r is Ok && *contract == *target && !destroy ==> balance_of(r1, *contract) == balance.val()
                &&& r is Ok ==> {
                    let moved = *contract != *target && balance.val() != 0;
                    let burned = *contract == *target && destroy && balance.val() != 0;
                    let touched_by_move = if *contract != *target {
                        (if balance.val() != 0 {
                            r0.touched.insert(*contract).insert(*target)
                        } else {
                            r0.touched.insert(*target)
                        }).remove(precompile3())
                    } else if burned {
                        r0.touched.insert(*contract).remove(precompile3())
                    } else {
                        r0.touched
                    };
                    &&& moved ==> r1.accounts[*contract] == Some(
                        Account { balance: r1.accounts[*contract].unwrap().balance, ..account_or_empty(r0, *contract) },
                    ) && r1.accounts[*target] == Some(
                        Account { balance: r1.accounts[*target].unwrap().balance, ..account_or_empty(r0, *target) },
                    )
                    &&& burned ==> r1.accounts[*contract] == Some(
                        Account { balance: r1.accounts[*contract].unwrap().balance, ..account_or_empty(r0, *contract) },
                    )
                    &&& r1 == (RevView {
                        accounts: if moved {
                            r0.accounts.insert(*contract, r1.accounts[*contract]).insert(*target, r1.accounts[*target])
                        } else if burned {
                            r0.accounts.insert(*contract, r1.accounts[*contract])
                        } else {
                            r0.accounts
                        },
                        touched: if destroy {
                            touched_by_move.insert(*contract).remove(precompile3())
                        } else {
                            touched_by_move
                        },
                        selfdestructs: if destroy {
                            r0.selfdestructs.insert(*contract)
                        } else {
                            r0.selfdestructs
                        },
                        warm_accounts: r0.warm_accounts.insert(*target),
                        ..r0
                    })
                }
            }),
    {
        let ghost s0 = self.state;
        let ghost r0 = self.state.rev();
        let is_cold = self.access_account(target);
        if skip_cold_load && is_cold {
            return Err(InstrStop::OutOfGas);
        }
        let ghost s1 = self.state;
        let features = self.version.features;
        let target_is_empty = match self.state.target_is_empty_for_new_account_gas(target, features) {
            Ok(b) => b,
            Err(code) => {
                return Err(InstrStop::OutOfGas);
            },
        };
        let previously_destroyed = self.state.is_selfdestructed(contract);
        let balance = match self.state.load_account_info(contract) {
            Ok(Some(info)) => info.balance,
            _ => Word::zero(),
        };
        let ghost s2 = self.state;
        proof {
            State::lemma_extends_trans(&s0, &s1, &s2);
            State::lemma_loaded_is_visible(&s0, *contract);
            State::lemma_loaded_is_visible(&s2, *contract);
        }
        let should_destroy = !features.eip6780 || self.state.is_created_in_transaction(contract);
        proof {
            assert(should_destroy == (!features.eip6780 || created_in_tx(r0, *contract)));
        }
        self.selfdestruct_move_balance(contract, target, &balance, should_destroy);
        proof {
            State::lemma_extends_trans(&s0, &s2, &self.state);
        }
        let ghost s5 = self.state;
        if should_destroy {
            self.state.mark_destructed(contract);
            proof {
                State::lemma_extends_trans(&s0, &s5, &self.state);
            }
        }
        Ok(SelfDestructResult {
            had_value: !balance.is_zero(),
            value: balance,
            target_is_empty,
            is_cold,
            previously_destroyed,
        })
    }
    /// Applies the transaction-end account rules of the active version (see
    /// [`State::finalize_transaction`]).
    pub fn finalize_transaction(&mut self) -> (r: Result<(), InstrStop>)
        requires
            old(self).wf(),
        ensures
            final(self).wf(),
            final(self).spec_state().extends(&old(self).spec_state()),
            r is Ok,
            final(self).spec_version() == old(self).spec_version(),
            final(self).spec_state().rev() == finalized_rev(old(self).spec_state(), old(self).spec_version().features),
            finalized_logs(old(self).spec_state(), old(self).spec_version().features, final(self).spec_state().logs_view()),
            final(self).spec_state().created_view() == finalized_created(old(self).spec_state()),
            final(self).spec_state().touched_view() == old(self).spec_state().touched_view(),
    {
        let version = self.version;
        match self.state.finalize_transaction(&version) {
            Ok(()) => Ok(()),
            Err(code) => Err(InstrStop::OutOfGas),
        }
    }

    /// Concludes a transaction whose handler has returned: applies the transaction-end rules and
    /// hands back the logs the transaction emitted, its changes staying pending for
    /// [`Evm::commit_pending`], [`Evm::discard_pending`] or [`Evm::detach_pending`]. When the
    /// rules cannot be applied, the transaction's state is cleared and the stop returned.
    pub fn conclude_transaction(&mut self) -> (r: Result<Vec<Log>, InstrStop>)
        requires
            old(self).wf(),
        ensures
            final(self).wf(),
            final(self).spec_version() == old(self).spec_version(),
            r is Ok,
            finalized_logs(old(self).spec_state(), old(self).spec_version().features, r->Ok_0@),
            final(self).spec_state().logs_view().len() == 0,
            final(self).spec_state().rev() == finalized_rev(old(self).spec_state(), old(self).spec_version().features),
            final(self).spec_state().db() == old(self).spec_state().db(),
            final(self).spec_state().created_view() == finalized_created(old(self).spec_state()),
            final(self).spec_state().touched_view() == old(self).spec_state().touched_view(),
    {
        match self.finalize_transaction() {
            Ok(()) => {
                proof {
                    State::lemma_extends_db(&old(self).spec_state(), &self.spec_state());
                }
                let logs = self.state.take_logs();
                Ok(logs)
            },
            Err(stop) => {
                proof {
                    State::lemma_inv_db_wf(&self.state);
                }
                self.state.clear_transaction_state();
                Err(stop)
            },
        }
    }

    /// Accepts a concluded transaction: the database takes every account, slot and changed code
    /// as the transaction left them, and the transaction state is cleared.
    pub fn commit_pending(&mut self)
        requires
            old(self).wf(),
        ensures
            final(self).wf(),
            final(self).spec_version() == old(self).spec_version(),
            forall|a: Address| #[trigger] final(self).spec_state().db().spec_account(a) == info_of(
                old(self).spec_state().rev().accounts[a],
            ),
            forall|a: Address, k: Word| #[trigger] final(self).spec_state().db().spec_storage(a, k)
                == old(self).spec_state().rev().slots[StorageKey { address: a, key: k }],
            forall|h: B256| #[trigger] final(self).spec_state().db().spec_code(h)
                == if old(self).spec_state().changed_code_view().contains_key(h) {
                Some(old(self).spec_state().changed_code_view()[h])
            } else {
                old(self).spec_state().db().spec_code(h)
            },
            final(self).spec_state().journal_view().len() == 0,
            final(self).spec_state().logs_view().len() == 0,
            final(self).spec_state().loaded_accounts() == Map::<Address, Option<Account>>::empty(),
    {
        self.state.commit_transaction();
        self.state.clear_transaction_state();
    }

    /// Streams a concluded transaction's transition to `sink`, then accepts it as
    /// [`Evm::commit_pending`] does; when the sink fails, the transaction is dropped instead, the
    /// database left as it was, and the sink's error returned.
    pub fn commit_pending_with<S: StateChangeSink>(&mut self, sink: &mut S) -> (r: Result<(), S::Error>)
        requires
            old(self).wf(),
        ensures
            final(self).wf(),
            runs(
                *old(sink),
                change_events(old(self).spec_state().changes_view(), old(self).spec_state().changed_code_view()),
                *final(sink),
                r,
            ),
            final(self).spec_version() == old(self).spec_version(),
            r is Ok ==> {
                &&& forall|a: Address| #[trigger] final(self).spec_state().db().spec_account(a) == info_of(
                    old(self).spec_state().rev().accounts[a],
                )
                &&& forall|a: Address, k: Word| #[trigger] final(self).spec_state().db().spec_storage(a, k)
                    == old(self).spec_state().rev().slots[StorageKey { address: a, key: k }]
                &&& forall|h: B256| #[trigger] final(self).spec_state().db().spec_code(h)
                    == if old(self).spec_state().changed_code_view().contains_key(h) {
                    Some(old(self).spec_state().changed_code_view()[h])
                } else {
                    old(self).spec_state().db().spec_code(h)
                }
            },
            r is Err ==> final(self).spec_state().db() == old(self).spec_state().db(),
            final(self).spec_state().journal_view().len() == 0,
            final(self).spec_state().logs_view().len() == 0,
            final(self).spec_state().loaded_accounts() == Map::<Address, Option<Account>>::empty(),
    {
        let changes = self.state.build_state_changes();
        match changes.visit(sink) {
            Ok(()) => {
                self.state.commit_transaction();
                self.state.clear_transaction_state();
                Ok(())
            },
            Err(e) => {
                proof {
                    State::lemma_inv_db_wf(&self.state);
                }
                self.state.clear_transaction_state();
                Err(e)
            },
        }
    }

    /// Records a concluded transaction's transition in the block accumulator, then accepts it as
    /// [`Evm::commit_pending`] does.
    pub fn commit_pending_to(&mut self, block_state: &mut BlockStateAccumulator)
        requires
            old(self).wf(),
        ensures
            final(self).wf(),
            runs_ok(
                *old(block_state),
                change_events(old(self).spec_state().changes_view(), old(self).spec_state().changed_code_view()),
                *final(block_state),
            ),
            final(block_state)@ == spec_fold_events(
                old(block_state)@,
                change_events(old(self).spec_state().changes_view(), old(self).spec_state().changed_code_view()),
            ),
            final(self).spec_version() == old(self).spec_version(),
            forall|a: Address| #[trigger] final(self).spec_state().db().spec_account(a) == info_of(
                old(self).spec_state().rev().accounts[a],
            ),
            forall|a: Address, k: Word| #[trigger] final(self).spec_state().db().spec_storage(a, k)
                == old(self).spec_state().rev().slots[StorageKey { address: a, key: k }],
            forall|h: B256| #[trigger] final(self).spec_state().db().spec_code(h)
                == if old(self).spec_state().changed_code_view().contains_key(h) {
                Some(old(self).spec_state().changed_code_view()[h])
            } else {
                old(self).spec_state().db().spec_code(h)
            },
            final(self).spec_state().journal_view().len() == 0,
            final(self).spec_state().logs_view().len() == 0,
            final(self).spec_state().loaded_accounts() == Map::<Address, Option<Account>>::empty(),
    {
        let changes = self.state.build_state_changes();
        let visited = changes.visit(block_state);
        proof {
            if visited is Err {
                assert(runs(*old(block_state), changes.events(), *block_state, visited));
            }
            law_accumulator_folds_events(*old(block_state), changes.events(), *block_state);
        }
        self.state.commit_transaction();
        self.state.clear_transaction_state();
    }

    /// Drops a concluded transaction: the database is left as it was and the transaction state
    /// is cleared.
    pub fn discard_pending(&mut self)
        requires
            old(self).wf(),
        ensures
            final(self).wf(),
            final(self).spec_version() == old(self).spec_version(),
            final(self).spec_state().db() == old(self).spec_state().db(),
            final(self).spec_state().journal_view().len() == 0,
            final(self).spec_state().logs_view().len() == 0,
            final(self).spec_state().loaded_accounts() == Map::<Address, Option<Account>>::empty(),
    {
        proof {
            State::lemma_inv_db_wf(&self.state);
        }
        self.state.clear_transaction_state();
    }

    /// Hands a concluded transaction back as its transition without accepting it: the database
    /// is left as it was and the transaction state is cleared.
    pub fn detach_pending(&mut self) -> (r: StateChanges)
        requires
            old(self).wf(),
        ensures
            final(self).wf(),
            final(self).spec_version() == old(self).spec_version(),
            r.accounts_view() == old(self).spec_state().changes_view(),
            r.code_view() == old(self).spec_state().changed_code_view(),
            final(self).spec_state().db() == old(self).spec_state().db(),
            final(self).spec_state().journal_view().len() == 0,
            final(self).spec_state().logs_view().len() == 0,
            final(self).spec_state().loaded_accounts() == Map::<Address, Option<Account>>::empty(),
    {
        let changes = self.state.build_state_changes();
        proof {
            State::lemma_inv_db_wf(&self.state);
        }
        self.state.clear_transaction_state();
        changes
    }

    /// Prepares a creation: derives the new contract's address into the message, warms it, and,
    /// for a nested creation, increments the caller's nonce.
    pub fn prepare_create_message(&mut self, bytecode: &Bytecode, message: &mut CreateMessage) -> (r: Result<(), InstrStop>)
        requires
            old(self).wf(),
        ensures
            final(self).wf(),
            final(self).spec_state().extends(&old(self).spec_state()),
            final(self).spec_state().logs_view() == old(self).spec_state().logs_view(),
            final(self).spec_version() == old(self).spec_version(),
            ({
                let r0 = old(self).spec_state().rev();
                let m = *old(message);
                match spec_create_address(r0, bytecode.bytes@, m) {
                    Err(e) => {
                        &&& r == Err::<(), InstrStop>(e)
                        &&& *final(message) == m
                        &&& final(self).spec_state().rev() == r0
                    },
                    Ok(a) => {
                        &&& r is Ok
                        &&& *final(message) == (CreateMessage { destination: a, ..m })
                        &&& final(self).spec_state().rev() == prepared_rev(r0, m, a)
                    },
                }
            }),
    {
        let address = match self.create_address(bytecode, message) {
            Ok(a) => a,
            Err(e) => {
                return Err(e);
            },
        };
        message.destination = address;
        let ghost s1 = self.spec_state();
        let _ = self.state.warm_account(&address);
        if message.depth > 0 {
            let ghost s2 = self.spec_state();
            let _ = self.state.increment_nonce(&message.caller);
            proof {
                State::lemma_extends_trans(&s1, &s2, &self.spec_state());
            }
        }
        proof {
            State::lemma_extends_trans(&old(self).spec_state(), &s1, &self.spec_state());
        }
        Ok(())
    }

    /// Creates the new account of a creation and moves the endowment to it: fails with
    /// `CreateCollision` when an account with a nonce or code lives there, with `OutOfFunds` when
    /// the caller cannot pay; under EIP-7708 a non-zero endowment logs a `Transfer`.
    pub fn create_message_account(&mut self, message: &CreateMessage) -> (r: Result<(), InstrStop>)
        requires
            old(self).wf(),
        ensures
            final(self).wf(),
            final(self).spec_state().extends(&old(self).spec_state()),
            final(self).spec_version() == old(self).spec_version(),
            create_account_outcome(
                old(self).spec_state().rev(),
                old(self).spec_state().logs_view(),
                final(self).spec_state().rev(),
                final(self).spec_state().logs_view(),
                final(self).spec_state().touched_view(),
                *message,
                old(self).spec_version().features,
                r,
            ),
    {
        let features = self.version.features;
        let created = match self.state.create_account(&message.caller, &message.destination, &message.value, features) {
            Ok(c) => c,
            Err(code) => {
                return Err(InstrStop::OutOfGas);
            },
        };
        match created {
            Ok(()) => {},
            Err(e) => {
                return Err(e);
            },
        }
        let ghost s1 = self.spec_state();
        self.log_eip7708_transfer(&message.caller, &message.destination, &message.value);
        proof {
            State::lemma_extends_trans(&old(self).spec_state(), &s1, &self.spec_state());
        }
        Ok(())
    }

    /// Starts a call up to running its code: takes the checkpoint the call rolls back to, and,
    /// for every kind but `DELEGATECALL`, moves the value from caller to destination (which
    /// touches the destination even for a zero value), failing with `OutOfFunds` when the
    /// caller cannot pay; under EIP-7708 a non-zero value between distinct accounts logs a
    /// `Transfer`. The checkpoint is handed back for [`Evm::finish_call_message_run`].
    pub fn begin_call_message(&mut self, message: &CallMessage) -> (r: Result<StateCheckpoint, MessageResult>)
        requires
            old(self).wf(),
        ensures
            final(self).wf(),
            final(self).spec_version() == old(self).spec_version(),
            final(self).spec_state().db() == old(self).spec_state().db(),
            ({
                let r0 = old(self).spec_state().rev();
                let logs0 = old(self).spec_state().logs_view();
                let s1 = final(self).spec_state();
                let moves = !(message.kind is DelegateCall);
                let can_pay = message.value.val() == 0 || message.value.val() <= balance_of(r0, message.caller);
                let logged = old(self).spec_version().features.eip7708 && message.value.val() != 0
                    && message.caller != message.destination;
                &&& !moves ==> r is Ok && s1.rev() == r0 && s1.logs_view() == logs0
                &&& moves && !can_pay ==> {
                    &&& r matches Err(m) && m.stop == InstrStop::OutOfFunds && m.gas_remaining == message.gas_limit
                        && m.gas_refunded == 0 && m.output@.len() == 0 && m.created_address is None
                    &&& s1.rev() == r0 && s1.logs_view() == logs0
                }
                &&& moves && can_pay ==> {
                    &&& r is Ok
                    &&& transfer_outcome(r0, s1.rev(), message.caller, message.destination, message.value, true)
                    &&& logged ==> {
                        &&& s1.logs_view().len() == logs0.len() + 1
                        &&& s1.logs_view().drop_last() == logs0
                        &&& is_transfer_log(s1.logs_view().last(), message.caller, message.destination, message.value)
                    }
                    &&& !logged ==> s1.logs_view() == logs0
                }
                &&& r matches Ok(cp) ==> {
                    &&& cp.spec_journal_len() <= s1.journal_view().len()
                    &&& cp.spec_logs_len() == logs0.len()
                    &&& s1.snapshot(cp.spec_journal_len() as int) == r0
                }
            }),
    {
        let checkpoint = self.state.checkpoint();
        let moves = match message.kind {
            CallKind::DelegateCall => false,
            _ => true,
        };
        if !moves {
            proof {
                State::lemma_extends_refl(&self.spec_state());
            }
            return Ok(checkpoint);
        }
        let ghost s0 = self.spec_state();
        let paid = match self.state.transfer(&message.caller, &message.destination, &message.value) {
            Ok(p) => p,
            Err(code) => {
                proof {
                    assert(false);
                }
                false
            },
        };
        proof {
            State::lemma_extends_db(&s0, &self.spec_state());
        }
        if !paid {
            proof {
                State::law_rollback_restores_checkpoint(&s0, &self.spec_state());
            }
            return Err(error_message_result(InstrStop::OutOfFunds, message.gas_limit));
        }
        let ghost s1 = self.spec_state();
        self.log_eip7708_transfer(&message.caller, &message.destination, &message.value);
        proof {
            State::lemma_extends_trans(&s0, &s1, &self.spec_state());
            State::law_rollback_restores_checkpoint(&s0, &self.spec_state());
            State::lemma_extends_db(&s0, &self.spec_state());
        }
        Ok(checkpoint)
    }

    /// Ends a call whose code ran from `checkpoint` and stopped with the gas `gas_remaining` and
    /// refund `gas_refunded` left: a call that did not succeed rolls the state back to the
    /// checkpoint; a successful one keeps it. Returns the gas the call reports (see
    /// [`message_gas`]): none after a halt, and no refund unless it succeeded.
    pub fn finish_call_message_run(
        &mut self,
        checkpoint: StateCheckpoint,
        succeeded: bool,
        halted: bool,
        gas_remaining: u64,
        gas_refunded: i64,
    ) -> (r: (u64, i64))
        requires
            old(self).wf(),
            checkpoint.spec_journal_len() <= old(self).spec_state().journal_view().len(),
            checkpoint.spec_logs_len() <= old(self).spec_state().logs_view().len(),
        ensures
            final(self).wf(),
            final(self).spec_version() == old(self).spec_version(),
            r == spec_message_gas(gas_remaining, gas_refunded, succeeded, halted),
            succeeded ==> final(self).spec_state() == old(self).spec_state(),
            !succeeded ==> {
                &&& final(self).spec_state().db() == old(self).spec_state().db()
                &&& final(self).spec_state().rev() == old(self).spec_state().snapshot(checkpoint.spec_journal_len() as int)
                &&& final(self).spec_state().logs_view() == old(self).spec_state().logs_view().take(
                    checkpoint.spec_logs_len() as int,
                )
            },
    {
        if !succeeded {
            let features = self.version.features;
            self.state.rollback(checkpoint, features);
        }
        message_gas(gas_remaining, gas_refunded, succeeded, halted)
    }

    /// Starts a creation up to running its init code: prepares it (see
    /// [`Evm::prepare_create_message`]), takes the checkpoint the creation rolls back to, and
    /// creates the account (see [`Evm::create_message_account`]), rolling back to the checkpoint
    /// when that fails. The checkpoint is handed back for [`Evm::finish_create_message_run`].
    pub fn begin_create_message(&mut self, bytecode: &Bytecode, message: &mut CreateMessage) -> (r: Result<
        StateCheckpoint,
        InstrStop,
    >)
        requires
            old(self).wf(),
        ensures
            final(self).wf(),
            final(self).spec_version() == old(self).spec_version(),
            final(self).spec_state().db() == old(self).spec_state().db(),
            ({
                let r0 = old(self).spec_state().rev();
                let logs0 = old(self).spec_state().logs_view();
                let s1 = final(self).spec_state();
                let m = *old(message);
                match spec_create_address(r0, bytecode.bytes@, m) {
                    Err(e) => {
                        &&& r == Err::<StateCheckpoint, InstrStop>(e)
                        &&& *final(message) == m
                        &&& s1.rev() == r0
                        &&& s1.logs_view() == logs0
                    },
                    Ok(a) => {
                        let m1 = CreateMessage { destination: a, ..m };
                        let p = prepared_rev(r0, m, a);
                        &&& *final(message) == m1
                        &&& create_account_outcome(
                            p,
                            logs0,
                            s1.rev(),
                            s1.logs_view(),
                            s1.touched_view(),
                            m1,
                            old(self).spec_version().features,
                            match r {
                                Ok(_) => Ok::<(), InstrStop>(()),
                                Err(e) => Err::<(), InstrStop>(e),
                            },
                        )
                        &&& r matches Ok(cp) ==> {
                            &&& cp.spec_journal_len() <= s1.journal_view().len()
                            &&& cp.spec_logs_len() == logs0.len()
                            &&& cp.spec_logs_len() <= s1.logs_view().len()
                            &&& s1.snapshot(cp.spec_journal_len() as int) == p
                        }
                    },
                }
            }),
    {
        match self.prepare_create_message(bytecode, message) {
            Ok(()) => {},
            Err(e) => {
                proof {
                    State::lemma_extends_db(&old(self).spec_state(), &self.spec_state());
                }
                return Err(e);
            },
        }
        let ghost s1 = self.spec_state();
        proof {
            State::lemma_extends_db(&old(self).spec_state(), &s1);
        }
        let checkpoint = self.state.checkpoint();
        let m = *message;
        match self.create_message_account(&m) {
            Ok(()) => {
                proof {
                    State::law_rollback_restores_checkpoint(&s1, &self.spec_state());
                    State::lemma_extends_db(&s1, &self.spec_state());
                }
                Ok(checkpoint)
            },
            Err(e) => {
                proof {
                    State::law_rollback_restores_checkpoint(&s1, &self.spec_state());
                    State::lemma_extends_db(&s1, &self.spec_state());
                }
                let features = self.version.features;
                self.state.rollback(checkpoint, features);
                Err(e)
            },
        }
    }

    /// Ends a creation whose init code ran from `checkpoint`: when it succeeded, the returned
    /// code is checked and its deposit charged (see [`validate_create_output`]) and the code is
    /// installed at `address`; a refused code, or an init code that did not succeed, rolls the
    /// state back to the checkpoint. `succeeded` and `halted` classify how the init code
    /// stopped, with `gas_remaining` and `gas_refunded` left; the outcome reports the gas as
    /// [`message_gas`] does for the final stop (after the deposit for a created contract) and
    /// the address exactly when the contract was created.
    pub fn finish_create_message_run(
        &mut self,
        checkpoint: StateCheckpoint,
        address: &Address,
        succeeded: bool,
        halted: bool,
        gas_remaining: u64,
        gas_refunded: i64,
        max_code_size: usize,
        code_deposit_cost: u64,
        output: &mut Vec<u8>,
    ) -> (r: CreateOutcome)
        requires
            old(self).wf(),
            checkpoint.spec_journal_len() <= old(self).spec_state().journal_view().len(),
            checkpoint.spec_logs_len() <= old(self).spec_state().logs_view().len(),
        ensures
            final(self).wf(),
            final(self).spec_version() == old(self).spec_version(),
            final(self).spec_state().db() == old(self).spec_state().db(),
            ({
                let s0 = old(self).spec_state();
                let s1 = final(self).spec_state();
                let rolled_back = s1.rev() == s0.snapshot(checkpoint.spec_journal_len() as int)
                    && s1.logs_view() == s0.logs_view().take(checkpoint.spec_logs_len() as int);
                let checked = create_output_check(
                    old(self).spec_version().features,
                    max_code_size,
                    code_deposit_cost,
                    gas_remaining,
                    old(output)@,
                );
                &&& (r.created_address is Some) == (r.finish is Created)
                &&& r.finish is Created ==> r.created_address == Some(*address)
                &&& if !succeeded {
                    &&& r.finish == CreateFinish::Unwound && rolled_back && final(output)@ == old(output)@
                    &&& (r.gas_remaining, r.gas_refunded) == spec_message_gas(gas_remaining, gas_refunded, false, halted)
                } else {
                    &&& final(output)@ == checked.1
                    &&& match checked.0 {
                        Err(stop) => {
                            &&& r.finish == (CreateFinish::Refused { stop })
                            &&& rolled_back
                            &&& (r.gas_remaining, r.gas_refunded) == spec_message_gas(
                                gas_remaining,
                                gas_refunded,
                                stop.spec_is_success(),
                                stop.spec_is_halt(),
                            )
                        },
                        Ok(deposit) => {
                            &&& r.finish == (CreateFinish::Created { deposit })
                            &&& deposit <= gas_remaining
                            &&& (r.gas_remaining, r.gas_refunded) == spec_message_gas(
                                (gas_remaining - deposit) as u64,
                                gas_refunded,
                                true,
                                false,
                            )
                            &&& s1.rev() == code_installed(s0.rev(), *address, checked.1)
                            &&& s1.logs_view() == s0.logs_view()
                        },
                    }
                }
            }),
    {
        let features = self.version.features;
        if !succeeded {
            self.state.rollback(checkpoint, features);
            let gas = message_gas(gas_remaining, gas_refunded, false, halted);
            return CreateOutcome {
                finish: CreateFinish::Unwound,
                gas_remaining: gas.0,
                gas_refunded: gas.1,
                created_address: None,
            };
        }
        match validate_create_output(features, max_code_size, code_deposit_cost, gas_remaining, output) {
            Err(stop) => {
                self.state.rollback(checkpoint, features);
                let gas = message_gas(gas_remaining, gas_refunded, stop.is_success(), stop.is_halt());
                CreateOutcome { finish: CreateFinish::Refused { stop }, gas_remaining: gas.0, gas_refunded: gas.1, created_address: None }
            },
            Ok(deposit) => {
                let code = Bytecode::new_legacy(output.clone());
                let _ = self.state.set_code(address, code);
                proof {
                    State::lemma_extends_db(&old(self).spec_state(), &self.spec_state());
                }
                let gas = message_gas(gas_remaining - deposit, gas_refunded, true, false);
                CreateOutcome {
                    finish: CreateFinish::Created { deposit },
                    gas_remaining: gas.0,
                    gas_refunded: gas.1,
                    created_address: Some(*address),
                }
            },
        }
    }

    /// The block-gas check made before each transaction of the block: the transaction's gas
    /// limit, capped at `tx_gas_limit_cap`, must fit in the gas the block has left.
    pub fn check_transaction_gas(&self, result: &BlockExecutionResult, tx_gas_limit: u64, tx_gas_limit_cap: u64) -> (r: Result<(), BlockExecutionError>)
        ensures
            ({
                let available = result.spec_available_gas(self.spec_version().features.eip8037, self.spec_block().gas_limit);
                let max_usage = if tx_gas_limit <= tx_gas_limit_cap { tx_gas_limit } else { tx_gas_limit_cap };
                if max_usage > available {
                    r == Err::<(), BlockExecutionError>(
                        BlockExecutionError::TransactionGasLimitMoreThanAvailableBlockGas {
                            transaction_gas_limit: tx_gas_limit,
                            block_available_gas: if available <= u64::MAX { available as u64 } else { u64::MAX },
                        },
                    )
                } else {
                    r is Ok
                }
            }),
    {
        result.check_transaction_gas(self.version.features.eip8037, &self.block.gas_limit, tx_gas_limit, tx_gas_limit_cap)
    }

    /// Records an executed transaction of the block in `result`, with the active fork's rules.
    pub fn record_block_transaction(&self, result: &mut BlockExecutionResult, gas_used: u64, state_gas_used: u64, blob_gas_used: u64)
        ensures
            final(result).cumulative_tx_gas_used == sat_add(old(result).cumulative_tx_gas_used, gas_used),
            final(result).block_regular_gas_used == sat_add(old(result).block_regular_gas_used, gas_used),
            final(result).block_state_gas_used == sat_add(old(result).block_state_gas_used, state_gas_used),
            final(result).gas_used == if self.spec_version().features.eip8037 {
                if final(result).block_regular_gas_used >= final(result).block_state_gas_used {
                    final(result).block_regular_gas_used
                } else {
                    final(result).block_state_gas_used
                }
            } else {
                final(result).cumulative_tx_gas_used
            },
            final(result).blob_gas_used == if self.spec_spec_id().spec_enables(SpecId::CANCUN) {
                sat_add(old(result).blob_gas_used, blob_gas_used)
            } else {
                old(result).blob_gas_used
            },
            *final(result) == recorded(
                self.spec_version().features.eip8037,
                self.spec_spec_id().spec_enables(SpecId::CANCUN),
                *old(result),
                gas_used,
                state_gas_used,
                blob_gas_used,
            ),
    {
        let cancun = self.spec_id.enables(SpecId::CANCUN);
        result.record_transaction(self.version.features.eip8037, cancun, gas_used, state_gas_used, blob_gas_used);
    }

    /// One step of the block's transaction loop, which runs the transactions in order and stops
    /// at the first error: an announced transaction is executed when its gas limit, capped, fits
    /// in the gas the block has left, and otherwise ends the block with the gas error; an
    /// executed transaction is recorded in `result`; a transaction that could not be executed
    /// ends the block with its error; once none is left the block ends with `result`.
    pub fn block_loop_step(&self, result: &mut BlockExecutionResult, event: BlockLoopEvent) -> (r: BlockLoopAction)
        ensures
            match event {
                BlockLoopEvent::NextTransaction { gas_limit, tx_gas_limit_cap } => {
                    let available = old(result).spec_available_gas(
                        self.spec_version().features.eip8037,
                        self.spec_block().gas_limit,
                    );
                    let max_usage = if gas_limit <= tx_gas_limit_cap { gas_limit } else { tx_gas_limit_cap };
                    &&& *final(result) == *old(result)
                    &&& if max_usage > available {
                        r == (BlockLoopAction::Fail {
                            error: BlockExecutionError::TransactionGasLimitMoreThanAvailableBlockGas {
                                transaction_gas_limit: gas_limit,
                                block_available_gas: if available <= u64::MAX { available as u64 } else { u64::MAX },
                            },
                        })
                    } else {
                        r == BlockLoopAction::Execute
                    }
                },
                BlockLoopEvent::Executed { gas_used, state_gas_used, blob_gas_used } => {
                    &&& r == BlockLoopAction::Next
                    &&& *final(result) == recorded(
                        self.spec_version().features.eip8037,
                        self.spec_spec_id().spec_enables(SpecId::CANCUN),
                        *old(result),
                        gas_used,
                        state_gas_used,
                        blob_gas_used,
                    )
                },
                BlockLoopEvent::Failed { error } => r == (BlockLoopAction::Fail { error })
                    && *final(result) == *old(result),
                BlockLoopEvent::Finished => r == (BlockLoopAction::Done { result: *old(result) })
                    && *final(result) == *old(result),
            },
    {
        match event {
            BlockLoopEvent::NextTransaction { gas_limit, tx_gas_limit_cap } => {
                match self.check_transaction_gas(result, gas_limit, tx_gas_limit_cap) {
                    Ok(()) => BlockLoopAction::Execute,
                    Err(e) => BlockLoopAction::Fail { error: e },
                }
            },
            BlockLoopEvent::Executed { gas_used, state_gas_used, blob_gas_used } => {
                self.record_block_transaction(result, gas_used, state_gas_used, blob_gas_used);
                BlockLoopAction::Next
            },
            BlockLoopEvent::Failed { error } => BlockLoopAction::Fail { error },
            BlockLoopEvent::Finished => BlockLoopAction::Done { result: *result },
        }
    }

    /// Adds each increment to its account's balance (modulo two to the 256th power), accepts the
    /// result into the database and clears the transaction state; returns the transition.
    pub fn apply_balance_increments(&mut self, increments: &VecMap<Address, Word>) -> (r: Result<StateChanges, BlockExecutionError>)
        requires
            old(self).wf(),
        ensures
            final(self).wf(),
            r is Ok,
            final(self).spec_state().journal_view().len() == 0,
            final(self).spec_state().logs_view().len() == 0,
            forall|a: Address| #[trigger] increments@.contains_key(a) ==> final(self).spec_state().db().spec_account(a) is Some
                || increments@[a].val() == 0 && old(self).spec_state().rev().accounts[a] is None,
            forall|a: Address| #[trigger] increments@.contains_key(a) ==> committed_balance(final(self).spec_state().db(), a)
                == (balance_of(old(self).spec_state().rev(), a) + increments@[a].val()) as int % crate::primitives::word_modulus(),
            forall|a: Address| !increments@.contains_key(a) ==> #[trigger] final(self).spec_state().db().spec_account(a) == info_of(
                old(self).spec_state().rev().accounts[a],
            ),
            forall|a: Address, k: Word| #[trigger] final(self).spec_state().db().spec_storage(a, k) == old(self).spec_state().rev().slots[
                StorageKey { address: a, key: k }],
            forall|a: Address| #[trigger] applied_account(old(self).spec_state().db(), r->Ok_0.accounts_view(), a)
                == final(self).spec_state().db().spec_account(a),
            forall|a: Address, k: Word| #[trigger] applied_slot(old(self).spec_state().db(), r->Ok_0.accounts_view(), a, k)
                == final(self).spec_state().db().spec_storage(a, k),
    {
        let ghost r0 = self.state.rev();
        let keys = increments.keys();
        let mut i: usize = 0;
        while i < keys.len()
            invariant
                i <= keys@.len(),
                keys@.no_duplicates(),
                keys@.to_set() == increments@.dom(),
                self.state.inv(),
                self.state.db() == old(self).spec_state().db(),
                r0 == old(self).spec_state().rev(),
                forall|a: Address| #[trigger] balance_of(self.state.rev(), a) == if keys@.take(i as int).contains(a) {
                    ((balance_of(r0, a) + increments@[a].val()) as int % crate::primitives::word_modulus()) as nat
                } else {
                    balance_of(r0, a)
                },
                forall|a: Address| keys@.take(i as int).contains(a) && increments@[a].val() != 0 ==> #[trigger] self.state.rev().accounts[a] is Some,
                forall|a: Address| !keys@.take(i as int).contains(a) ==> #[trigger] self.state.rev().accounts[a] == r0.accounts[a],
                forall|a: Address| keys@.take(i as int).contains(a) && increments@[a].val() == 0 ==> #[trigger] self.state.rev().accounts[a] == r0.accounts[a],
                forall|sk: StorageKey| #[trigger] self.state.rev().slots[sk] == r0.slots[sk],
            decreases keys@.len() - i,
        {
            let a = keys[i];
            let ghost t0 = keys@.take(i as int);
            let ghost rb = self.state.rev();
            proof {
                assert(keys@.to_set().contains(a));
                if t0.contains(a) {
                    let m = choose|m: int| 0 <= m < t0.len() && t0[m] == a;
                    assert(keys@[m] == a);
                }
                crate::primitives::lemma_word_val_bound(account_or_empty(r0, a).balance);
            }
            let amount = match increments.get(&a) {
                Some(v) => *v,
                None => Word::zero(),
            };
            let ghost before_add = self.state;
            match self.state.add_balance(&a, &amount) {
                Ok(()) => {},
                Err(code) => {
                    proof {
                        assert(false);
                    }
                },
            }
            proof {
                State::lemma_extends_db(&before_add, &self.state);
            }
            proof {
                let t1 = keys@.take(i + 1);
                assert(t1 =~= t0.push(a));
                assert forall|x: Address| #[trigger] t1.contains(x) <==> (t0.contains(x) || x == a) by {
                    if t1.contains(x) && x != a {
                        let m = choose|m: int| 0 <= m < t1.len() && t1[m] == x;
                        assert(t0[m] == x);
                    }
                    if t0.contains(x) {
                        let m = choose|m: int| 0 <= m < t0.len() && t0[m] == x;
                        assert(t1[m] == x);
                    }
                    if x == a {
                        assert(t1[i as int] == a);
                    }
                }
                assert(amount == increments@[a]);
                crate::primitives::lemma_word_val_bound(balance_word(r0, a));
                assert(balance_of(r0, a) == balance_word(r0, a).val());
                assert(balance_of(rb, a) == balance_of(r0, a));
                if amount.val() == 0 {
                    vstd::arithmetic::div_mod::lemma_small_mod(balance_of(r0, a), crate::primitives::word_modulus() as nat);
                    assert(balance_of(self.state.rev(), a) == balance_of(rb, a));
                } else {
                    assert(account_or_empty(rb, a).balance.val() == balance_of(rb, a));
                }
                assert forall|x: Address| x != a implies #[trigger] balance_of(self.state.rev(), x) == balance_of(rb, x)
                    && self.state.rev().accounts[x] == rb.accounts[x] by {
                }
            }
            i += 1;
        }
        proof {
            assert(keys@.take(keys@.len() as int) =~= keys@);
        }
        let ghost r1 = self.state.rev();
        proof {
            State::law_transition_applies_as_committed(&self.state);
        }
        let changes = self.state.build_state_changes();
        self.state.commit_transaction();
        self.state.clear_transaction_state();
        proof {
            assert forall|a: Address| #[trigger] increments@.contains_key(a) implies committed_balance(self.state.db(), a)
                == (balance_of(r0, a) + increments@[a].val()) as int % crate::primitives::word_modulus() by {
                assert(keys@.to_set().contains(a));
                assert(keys@.contains(a));
                assert(self.state.db().spec_account(a) == info_of(r1.accounts[a]));
                assert(committed_balance(self.state.db(), a) == balance_of(r1, a));
            }
            assert forall|a: Address| #[trigger] increments@.contains_key(a) implies self.state.db().spec_account(a) is Some
                || increments@[a].val() == 0 && r0.accounts[a] is None by {
                assert(keys@.to_set().contains(a));
                assert(keys@.contains(a));
            }
            assert forall|a: Address| !increments@.contains_key(a) implies #[trigger] self.state.db().spec_account(a) == info_of(
                r0.accounts[a]) by {
                if keys@.contains(a) {
                    assert(keys@.to_set().contains(a));
                }
            }
        }
        Ok(changes)
    }
    /// The balance increments for rewards and withdrawals after the current block.
    pub fn post_block_balance_increments(&self, ommers: &Vec<BlockOmmer>, withdrawals: Option<&Vec<Withdrawal>>) -> (r: VecMap<Address, Word>)
        requires
            spec_base_block_reward(self.spec_spec_id()) is Some ==> forall|i: int|
                0 <= i < ommers@.len() ==> #[trigger] ommers@[i].number + 8 <= u64::MAX && (if self.spec_block().number.val()
                    <= u64::MAX {
                    self.spec_block().number.val()
                } else {
                    u64::MAX as nat
                }) <= ommers@[i].number + 8,
        ensures
            amounts(r@) == spec_post_block_balance_increments(
                self.spec_spec_id(),
                (if self.spec_block().number.val() <= u64::MAX {
                    self.spec_block().number.val()
                } else {
                    u64::MAX as nat
                }) as u64,
                self.spec_block().beneficiary,
                ommers@,
                match withdrawals {
                    Some(ws) => Some(ws@),
                    None => None,
                },
            ),
    {
        post_block_balance_increments(self.spec_id, &self.block.number, &self.block.beneficiary, ommers, withdrawals)
    }

    /// Applies the post-block balance increments and returns the transition.
    pub fn apply_post_block_balance_increments(&mut self, ommers: &Vec<BlockOmmer>, withdrawals: Option<&Vec<Withdrawal>>) -> (r: Result<StateChanges, BlockExecutionError>)
        requires
            old(self).wf(),
            spec_base_block_reward(old(self).spec_spec_id()) is Some ==> forall|i: int|
                0 <= i < ommers@.len() ==> #[trigger] ommers@[i].number + 8 <= u64::MAX && (if old(self).spec_block().number.val()
                    <= u64::MAX {
                    old(self).spec_block().number.val()
                } else {
                    u64::MAX as nat
                }) <= ommers@[i].number + 8,
        ensures
            final(self).wf(),
            r is Ok,
            ({
                let inc = spec_post_block_balance_increments(
                    old(self).spec_spec_id(),
                    (if old(self).spec_block().number.val() <= u64::MAX {
                        old(self).spec_block().number.val()
                    } else {
                        u64::MAX as nat
                    }) as u64,
                    old(self).spec_block().beneficiary,
                    ommers@,
                    match withdrawals {
                        Some(ws) => Some(ws@),
                        None => None,
                    },
                );
                &&& forall|a: Address| #[trigger] inc.contains_key(a) ==> committed_balance(final(self).spec_state().db(), a)
                    == (balance_of(old(self).spec_state().rev(), a) + inc[a]) as int % crate::primitives::word_modulus()
                &&& forall|a: Address| !inc.contains_key(a) ==> #[trigger] final(self).spec_state().db().spec_account(a) == info_of(
                    old(self).spec_state().rev().accounts[a],
                )
            }),
            forall|a: Address, k: Word| #[trigger] final(self).spec_state().db().spec_storage(a, k) == old(self).spec_state().rev().slots[
                StorageKey { address: a, key: k }],
            forall|a: Address| #[trigger] applied_account(old(self).spec_state().db(), r->Ok_0.accounts_view(), a)
                == final(self).spec_state().db().spec_account(a),
            forall|a: Address, k: Word| #[trigger] applied_slot(old(self).spec_state().db(), r->Ok_0.accounts_view(), a, k)
                == final(self).spec_state().db().spec_storage(a, k),
    {
        let increments = self.post_block_balance_increments(ommers, withdrawals);
        let r = self.apply_balance_increments(&increments);
        proof {
            let inc = amounts(increments@);
            assert forall|a: Address| #[trigger] inc.contains_key(a) implies committed_balance(self.spec_state().db(), a)
                == (balance_of(old(self).spec_state().rev(), a) + inc[a]) as int % crate::primitives::word_modulus() by {
                assert(increments@.contains_key(a));
            }
        }
        r
    }
}


/// The balance of an account as the database commits it; an absent account has none.
pub open spec fn committed_balance(db: CacheDB, a: Address) -> nat {
    match db.spec_account(a) {
        Some(info) => info.balance.val(),
        None => 0,
    }
}

} // verus!
