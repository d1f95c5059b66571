//! Results of host operations and transaction gas accounting.

use vstd::prelude::*;
use crate::config::EvmFeatures;
use crate::primitives::Word;

verus! {

/// Why execution stopped.
#[derive(Clone, Copy, Debug, PartialEq, Eq, Hash, Structural)]
pub enum InstrStop {
    /// Execution stopped (`STOP`).
    Stop,
    /// Execution ended by `SELFDESTRUCT`.
    SelfDestruct,
    /// Execution reverted; the remaining gas is handed back.
    Revert,
    /// The call stack is too deep.
    CallTooDeep,
    /// The designated invalid opcode `0xFE`.
    InvalidFEOpcode,
    /// Memory expansion ran out of gas.
    MemoryOOG,
    /// A precompile failed.
    PrecompileError,
    /// A precompile ran out of gas.
    PrecompileOOG,
    /// An outside failure, such as a database error.
    FatalExternalError,
    /// A contract already lives at the creation address.
    CreateCollision,
    /// The caller cannot pay the transferred value.
    OutOfFunds,
    /// Not enough gas.
    OutOfGas,
    /// Created contract code exceeds the code size limit.
    CreateContractSizeLimit,
    /// Created contract code starts with the reserved `0xEF` byte.
    CreateContractStartingWithEF,
    /// Execution returned; a creation also ends so, without creating, when the creator's nonce is
    /// at its maximum (EIP-2681).
    Return,
}

impl InstrStop {
    pub open spec fn spec_is_success(self) -> bool {
        self is Stop || self is Return || self is SelfDestruct
    }

    /// Whether the stop is a success: `STOP`, `RETURN` or `SELFDESTRUCT`.
    pub fn is_success(&self) -> (r: bool)
        ensures
            r == self.spec_is_success(),
    {
        match self {
            InstrStop::Stop | InstrStop::Return | InstrStop::SelfDestruct => true,
            _ => false,
        }
    }

    pub open spec fn spec_is_halt(self) -> bool {
        !self.spec_is_success() && !(self is Revert)
    }

    /// Whether the stop is a halt, an exceptional end that consumes the message's gas: neither
    /// a success nor a revert.
    pub fn is_halt(&self) -> (r: bool)
        ensures
            r == self.spec_is_halt(),
    {
        match self {
            InstrStop::Stop | InstrStop::Return | InstrStop::SelfDestruct | InstrStop::Revert => false,
            _ => true,
        }
    }
}

/// Result of an `SLOAD` host operation.
#[derive(Clone, Copy, Debug, PartialEq, Eq, Hash, Structural)]
pub struct SLoad {
    /// Storage slot value.
    pub value: Word,
    /// Whether the storage slot access was cold.
    pub is_cold: bool,
}

/// Result of an `SSTORE` host operation.
#[derive(Clone, Copy, Debug, PartialEq, Eq, Hash, Structural)]
pub struct SStore {
    /// Storage value at the start of the transaction.
    pub original_value: Word,
    /// Storage value immediately before this `SSTORE`.
    pub present_value: Word,
    /// Storage value written by this `SSTORE`.
    pub new_value: Word,
    /// Whether the storage slot access was cold.
    pub is_cold: bool,
}

impl SStore {
    /// Whether this `SSTORE` leaves the slot unchanged (`new == present`).
    pub fn is_noop(&self) -> (r: bool)
        ensures
            r == (self.new_value == self.present_value),
    {
        self.new_value == self.present_value
    }

    /// Whether the slot is clean (`original == present`).
    pub fn is_clean(&self) -> (r: bool)
        ensures
            r == (self.original_value == self.present_value),
    {
        self.original_value == self.present_value
    }

    /// Whether this `SSTORE` restores the slot to its original value (`new == original`).
    pub fn resets_original(&self) -> (r: bool)
        ensures
            r == (self.original_value == self.new_value),
    {
        self.original_value == self.new_value
    }

    /// Whether the original value is zero.
    pub fn original_is_zero(&self) -> (r: bool)
        ensures
            r == (self.original_value.val() == 0),
    {
        self.original_value.is_zero()
    }

    /// Whether the present value is zero.
    pub fn present_is_zero(&self) -> (r: bool)
        ensures
            r == (self.present_value.val() == 0),
    {
        self.present_value.is_zero()
    }

    /// Whether the new value is zero.
    pub fn new_is_zero(&self) -> (r: bool)
        ensures
            r == (self.new_value.val() == 0),
    {
        self.new_value.is_zero()
    }
}

/// Result of a `SELFDESTRUCT` host operation.
#[derive(Clone, Copy, Debug, PartialEq, Eq, Hash, Structural)]
pub struct SelfDestructResult {
    /// Whether the destroyed account had non-zero value.
    pub had_value: bool,
    /// Balance transferred or cleared by the destruction.
    pub value: Word,
    /// Whether the beneficiary is empty or absent for new-account gas checks.
    pub target_is_empty: bool,
    /// Whether the beneficiary access was cold.
    pub is_cold: bool,
    /// Whether this account was already destroyed in this transaction.
    pub previously_destroyed: bool,
}

/// Gas accounting values reported by transaction execution.
#[derive(Clone, Copy, Debug, Default, PartialEq, Eq, Hash, Structural)]
pub struct TxGas {
    /// Gas used by the transaction.
    pub tx_gas_used: u64,
    /// Regular gas contribution to block gas accounting.
    pub block_regular_gas_used: u64,
    /// State gas contribution to block gas accounting.
    pub block_state_gas_used: u64,
    /// Total gas spent before caller-specific fee accounting.
    pub total_spent: u64,
    /// Gas refunded before final refund caps are applied.
    pub refunded: u64,
    /// Floor gas used for forks that apply floor-gas rules.
    pub floor_gas: u64,
}

impl TxGas {
    /// Gas accounting from a single gas-used value: it counts as regular block gas and as the
    /// total spent, with no state gas, refund or floor gas.
    pub fn from_tx_gas_used(tx_gas_used: u64) -> (r: TxGas)
        ensures
            r == (TxGas {
                tx_gas_used,
                block_regular_gas_used: tx_gas_used,
                block_state_gas_used: 0,
                total_spent: tx_gas_used,
                refunded: 0,
                floor_gas: 0,
            }),
    {
        TxGas {
            tx_gas_used,
            block_regular_gas_used: tx_gas_used,
            block_state_gas_used: 0,
            total_spent: tx_gas_used,
            refunded: 0,
            floor_gas: 0,
        }
    }
}

/// The gas to deposit `len` bytes of created code at `cost` per byte, saturating at `u64::MAX`.
pub open spec fn code_deposit_gas(len: nat, cost: u64) -> u64 {
    if len * cost <= u64::MAX {
        (len * cost) as u64
    } else {
        u64::MAX
    }
}

/// The outcome of checking the code `output` that a creation returned, with the code kept:
/// code over `max_code_size` (with the size check active) or starting with `0xEF` (with
/// EIP-3541) is refused; the deposit gas is charged when `gas_remaining` covers it; otherwise the
/// creation runs out of gas under EIP-2, and before it keeps empty code at no charge.
pub open spec fn create_output_check(
    features: EvmFeatures,
    max_code_size: usize,
    code_deposit_cost: u64,
    gas_remaining: u64,
    output: Seq<u8>,
) -> (Result<u64, InstrStop>, Seq<u8>) {
    let len = output.len();
    let deposit = code_deposit_gas(len, code_deposit_cost);
    if features.code_size_check && len > max_code_size {
        (Err(InstrStop::CreateContractSizeLimit), output)
    } else if features.eip3541 && len > 0 && output[0] == 0xef {
        (Err(InstrStop::CreateContractStartingWithEF), output)
    } else if gas_remaining >= deposit {
        (Ok(deposit), output)
    } else if features.eip2 {
        (Err(InstrStop::OutOfGas), output)
    } else {
        (Ok(0), Seq::empty())
    }
}

/// Checks the code a creation returned and charges its deposit: code over `max_code_size` (with
/// the size check active) or starting with `0xEF` (with EIP-3541) is refused; the deposit gas is
/// spent when `gas_remaining` covers it, and returned; otherwise creation fails with out-of-gas
/// under EIP-2, and before it succeeds with empty code and no deposit.
pub fn validate_create_output(
    features: EvmFeatures,
    max_code_size: usize,
    code_deposit_cost: u64,
    gas_remaining: u64,
    output: &mut Vec<u8>,
) -> (r: Result<u64, InstrStop>)
    ensures
        (r, final(output)@) == create_output_check(
            features,
            max_code_size,
            code_deposit_cost,
            gas_remaining,
            old(output)@,
        ),
{
    let len = output.len();
    if features.code_size_check && len > max_code_size {
        return Err(InstrStop::CreateContractSizeLimit);
    }
    if features.eip3541 && len > 0 && output[0] == 0xef {
        return Err(InstrStop::CreateContractStartingWithEF);
    }
    let len_wide: u128 = len as u128;
    let cost_wide: u128 = code_deposit_cost as u128;
    assert(len_wide * cost_wide <= u128::MAX) by (nonlinear_arith)
        requires
            len_wide <= u64::MAX,
            cost_wide <= u64::MAX,
    ;
    let wide: u128 = len_wide * cost_wide;
    let deposit: u64 = if wide <= u64::MAX as u128 {
        wide as u64
    } else {
        u64::MAX
    };
    if gas_remaining >= deposit {
        return Ok(deposit);
    }
    if features.eip2 {
        return Err(InstrStop::OutOfGas);
    }
    *output = Vec::new();
    Ok(0)
}

/// The gas a message reports when it stops, from what its run left: no gas after a halt, and
/// no refund unless it succeeded.
pub open spec fn spec_message_gas(remaining: u64, refunded: i64, success: bool, halt: bool) -> (u64, i64) {
    (if halt { 0u64 } else { remaining }, if success { refunded } else { 0i64 })
}

/// The gas a message reports when it stops, from what its run left (`remaining`, `refunded`): a
/// halt leaves it no gas, and a stop that is not a success keeps no refund.
pub fn message_gas(remaining: u64, refunded: i64, success: bool, halt: bool) -> (r: (u64, i64))
    ensures
        r == spec_message_gas(remaining, refunded, success, halt),
{
    let mut gas = (remaining, refunded);
    if halt {
        gas.0 = 0;
    }
    if !success {
        gas.1 = 0;
    }
    gas
}

} // verus!
