//! Transactions as the simple executor sees them, their validation errors, and intrinsic gas.

use vstd::prelude::*;
use crate::config::SpecId;
use crate::primitives::{Address, Word};

verus! {

/// A transaction: sender, destination (`None` creates a contract), nonce, gas limit, gas price,
/// transferred value and input data.
pub struct Transaction {
    pub caller: Address,
    pub to: Option<Address>,
    pub nonce: u64,
    pub gas_limit: u64,
    pub gas_price: Word,
    pub value: Word,
    pub data: Vec<u8>,
}

/// Transaction validation or execution error.
#[derive(Clone, Copy, Debug, PartialEq, Eq, Structural)]
pub enum Error {
    /// The sender's nonce is not the transaction's.
    InvalidNonce { expected: u64, got: u64 },
    /// The gas limit is below the intrinsic gas.
    IntrinsicGasTooLow { required: u64, got: u64 },
    /// The sender cannot pay the value plus the maximum gas cost.
    InsufficientFunds,
    /// Contract creation is not supported.
    CreateUnsupported,
}

/// The gas charged for input data: 4 per zero byte and `non_zero` per other byte.
pub open spec fn data_gas(data: Seq<u8>, non_zero: int) -> int
    decreases data.len(),
{
    if data.len() == 0 {
        0
    } else {
        data_gas(data.drop_last(), non_zero) + if data.last() == 0 { 4 } else { non_zero }
    }
}

/// The intrinsic gas of a transaction at a fork: 21000, plus the data gas (a non-zero byte
/// costs 16 from Istanbul on, 68 before), plus 32000 for a contract creation from Homestead on.
pub open spec fn spec_intrinsic_gas(spec: SpecId, to: Option<Address>, data: Seq<u8>) -> int {
    21_000 + data_gas(data, if spec.spec_enables(SpecId::ISTANBUL) { 16 } else { 68 }) + if to is None
        && spec.spec_enables(SpecId::HOMESTEAD) {
        32_000int
    } else {
        0int
    }
}

proof fn lemma_data_gas_bound(data: Seq<u8>, non_zero: int)
    requires
        4 <= non_zero,
    ensures
        0 <= data_gas(data, non_zero) <= non_zero * data.len(),
    decreases data.len(),
{
    if data.len() > 0 {
        lemma_data_gas_bound(data.drop_last(), non_zero);
        assert(non_zero * (data.len() - 1) + non_zero == non_zero * data.len()) by (nonlinear_arith);
    }
}

/// Calculates the intrinsic gas of `tx` at `spec`.
pub fn intrinsic_gas(spec: SpecId, tx: &Transaction) -> (r: u64)
    requires
        53_000 + 68 * tx.data@.len() <= u64::MAX,
    ensures
        r == spec_intrinsic_gas(spec, tx.to, tx.data@),
{
    let non_zero_multiplier: u64 = if spec.enables(SpecId::ISTANBUL) { 16 } else { 68 };
    let mut data_gas_total: u64 = 0;
    let mut i: usize = 0;
    while i < tx.data.len()
        invariant
            i <= tx.data@.len(),
            non_zero_multiplier == 16 || non_zero_multiplier == 68,
            53_000 + 68 * tx.data@.len() <= u64::MAX,
            data_gas_total == data_gas(tx.data@.take(i as int), non_zero_multiplier as int),
        decreases tx.data@.len() - i,
    {
        proof {
            lemma_data_gas_bound(tx.data@.take(i as int), non_zero_multiplier as int);
            assert(non_zero_multiplier * i <= 68 * tx.data@.len()) by (nonlinear_arith)
                requires
                    non_zero_multiplier <= 68,
                    i <= tx.data@.len(),
            ;
            assert(tx.data@.take(i + 1).drop_last() =~= tx.data@.take(i as int));
        }
        let cost: u64 = if tx.data[i] == 0 { 4 } else { non_zero_multiplier };
        data_gas_total = data_gas_total + cost;
        i += 1;
    }
    proof {
        assert(tx.data@.take(tx.data@.len() as int) =~= tx.data@);
        lemma_data_gas_bound(tx.data@, non_zero_multiplier as int);
        assert(non_zero_multiplier * tx.data@.len() <= 68 * tx.data@.len()) by (nonlinear_arith)
            requires
                non_zero_multiplier <= 68,
        ;
    }
    let create: u64 = if tx.to.is_none() && spec.enables(SpecId::HOMESTEAD) { 32_000 } else { 0 };
    21_000 + data_gas_total + create
}

/// The number of zero bytes of `data`.
pub open spec fn zero_bytes(data: Seq<u8>) -> nat {
    data.filter(|b: u8| b == 0).len()
}

proof fn lemma_data_gas_counts(data: Seq<u8>, non_zero: int)
    ensures
        data_gas(data, non_zero) == 4 * zero_bytes(data) + non_zero * (data.len() - zero_bytes(data)),
        zero_bytes(data) <= data.len(),
    decreases data.len(),
{
    reveal(Seq::filter);
    if data.len() == 0 {
        assert(zero_bytes(data) == 0);
        assert(non_zero * 0 == 0);
    } else {
        lemma_data_gas_counts(data.drop_last(), non_zero);
        let z = zero_bytes(data.drop_last());
        let n = data.len();
        let f = |b: u8| b == 0;
        assert(data.filter(f) == if f(data.last()) {
            data.drop_last().filter(f).push(data.last())
        } else {
            data.drop_last().filter(f)
        });
        assert(zero_bytes(data) == z + if data.last() == 0 { 1int } else { 0int });
        let a = n - 1 - z;
        assert(non_zero * a + non_zero == non_zero * (a + 1)) by (nonlinear_arith);
        assert(data_gas(data, non_zero) == data_gas(data.drop_last(), non_zero) + if data.last() == 0 {
            4
        } else {
            non_zero
        });
        if data.last() == 0 {
            assert(n - zero_bytes(data) == a);
        } else {
            assert(n - zero_bytes(data) == a + 1);
        }
    }
}

/// The intrinsic gas of a transaction is 21000, plus 4 per zero data byte and 16 (from Istanbul
/// on; 68 before) per other data byte, plus, for a contract creation from Homestead on, 32000
/// more than the same transaction sent to any address; before Homestead a creation costs the
/// same as a call.
pub proof fn law_intrinsic_gas(spec: SpecId, data: Seq<u8>, destination: Address)
    ensures
        spec_intrinsic_gas(spec, Some(destination), data) == 21_000 + 4 * zero_bytes(data) + (if spec.spec_enables(
            SpecId::ISTANBUL,
        ) {
            16int
        } else {
            68int
        }) * (data.len() - zero_bytes(data)),
        spec.spec_enables(SpecId::HOMESTEAD) ==> spec_intrinsic_gas(spec, None, data) == spec_intrinsic_gas(
            spec,
            Some(destination),
            data,
        ) + 32_000,
        !spec.spec_enables(SpecId::HOMESTEAD) ==> spec_intrinsic_gas(spec, None, data) == spec_intrinsic_gas(
            spec,
            Some(destination),
            data,
        ),
{
    lemma_data_gas_counts(data, if spec.spec_enables(SpecId::ISTANBUL) { 16 } else { 68 });
}

} // verus!
