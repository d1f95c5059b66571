//! Contract creation messages: the new contract's address, the preparation of the creating
//! account, and the creation of the new account with its endowment.

use vstd::prelude::*;
use crate::bytecode::{Bytecode, keccak256_spec};
use crate::evm::Evm;
use crate::host::InstrStop;
use crate::primitives::{Address, B256, Word};
use alloy_primitives::{Address as AlloyAddress, B256 as AlloyB256};
use crate::state::{RevView, State, balance_of, info_of};

verus! {

/// The address `alloy_primitives::Address::create` derives for a creator and nonce.
pub uninterp spec fn create_address_spec(caller: Address, nonce: u64) -> Address;

/// The address `alloy_primitives::Address::create2` derives for a creator, salt and init code
/// hash.
pub uninterp spec fn create2_address_spec(caller: Address, salt: B256, init_code_hash: B256) -> Address;

/// Derives a `CREATE` address with `alloy_primitives::Address::create` (the Keccak-256 hash of the
/// RLP list of creator and nonce). Claims only that the address is a function of its inputs,
/// named `create_address_spec`.
#[verifier::external_body]
fn create_address_of(caller: &Address, nonce: u64) -> (r: Address)
    ensures
        r == create_address_spec(*caller, nonce),
{
    let c = [&caller.hi.to_be_bytes()[..], &caller.mid.to_be_bytes()[..], &caller.lo.to_be_bytes()[..]].concat();
    let o = AlloyAddress::from_slice(&c).create(nonce);
    Address {
        hi: u64::from_be_bytes(o[0..8].try_into().unwrap()),
        mid: u64::from_be_bytes(o[8..16].try_into().unwrap()),
        lo: u32::from_be_bytes(o[16..20].try_into().unwrap()),
    }
}

/// Derives a `CREATE2` address with `alloy_primitives::Address::create2`. Claims only that the
/// address is a function of its inputs, named `create2_address_spec`.
#[verifier::external_body]
fn create2_address_of(caller: &Address, salt: &B256, init_code_hash: &B256) -> (r: Address)
    ensures
        r == create2_address_spec(*caller, *salt, *init_code_hash),
{
    let w = |h: &B256| AlloyB256::from_slice(&[h.w0, h.w1, h.w2, h.w3].map(u64::to_be_bytes).concat());
    let c = [&caller.hi.to_be_bytes()[..], &caller.mid.to_be_bytes()[..], &caller.lo.to_be_bytes()[..]].concat();
    let o = AlloyAddress::from_slice(&c).create2(w(salt), w(init_code_hash));
    let p = |k: usize| u64::from_be_bytes(o[k..k + 8].try_into().unwrap());
    Address { hi: p(0), mid: p(8), lo: u32::from_be_bytes(o[16..20].try_into().unwrap()) }
}

/// How a contract is created.
#[derive(Clone, Copy, Debug, PartialEq, Eq, Structural)]
pub enum CreateKind {
    /// `CREATE`, or a creation transaction.
    Create,
    /// `CREATE2`.
    Create2,
}

/// What a contract-creation message carries for addressing and funding the new contract.
#[derive(Clone, Copy, Debug, PartialEq, Eq, Structural)]
pub struct CreateMessage {
    /// The creating account.
    pub caller: Address,
    /// The new contract; a creation transaction (depth zero) fixes it in advance.
    pub destination: Address,
    /// The endowment.
    pub value: Word,
    /// The call depth; zero for the transaction itself.
    pub depth: u64,
    pub kind: CreateKind,
    /// The `CREATE2` salt.
    pub salt: B256,
}

/// The outcome of deriving the new contract's address: the caller's funds and nonce are checked
/// when the message moves value or is nested, the nonce is capped (EIP-2681), and the address is
/// fixed by a creation transaction, or derived from the caller's nonce (`CREATE`) or from salt and
/// init code hash (`CREATE2`).
pub open spec fn spec_create_address(r: RevView, init_code: Seq<u8>, m: CreateMessage) -> Result<Address, InstrStop> {
    let info = if m.value.val() > 0 || m.depth > 0 {
        info_of(r.accounts[m.caller])
    } else {
        None
    };
    if m.value.val() > 0 && (info is None || info->0.balance.val() < m.value.val()) {
        Err(InstrStop::OutOfFunds)
    } else if m.depth > 0 && info is Some && info->0.nonce == u64::MAX {
        Err(InstrStop::Return)
    } else {
        Ok(match m.kind {
            CreateKind::Create => if m.depth == 0 {
                m.destination
            } else {
                create_address_spec(
                    m.caller,
                    match info {
                        Some(i) => i.nonce,
                        None => 0,
                    },
                )
            },
            CreateKind::Create2 => create2_address_spec(m.caller, m.salt, keccak256_spec(init_code)),
        })
    }
}

impl Evm {
    /// The new contract's address for `message` with init code `bytecode`; see
    /// [`spec_create_address`]. Reading the caller loads it into the overlay.
    pub fn create_address(&mut self, bytecode: &Bytecode, message: &CreateMessage) -> (r: Result<Address, InstrStop>)
        requires
            old(self).wf(),
        ensures
            final(self).wf(),
            final(self).spec_state().extends(&old(self).spec_state()),
            final(self).spec_state().rev() == old(self).spec_state().rev(),
            final(self).spec_state().logs_view() == old(self).spec_state().logs_view(),
            final(self).spec_version() == old(self).spec_version(),
            r == spec_create_address(old(self).spec_state().rev(), bytecode.bytes@, *message),
    {
        let needs_info = !message.value.is_zero() || message.depth > 0;
        let info = if needs_info {
            match self.account_info(&message.caller) {
                Ok(i) => i,
                Err(code) => {
                    return Err(InstrStop::OutOfGas);
                },
            }
        } else {
            proof {
                State::lemma_extends_refl(&self.spec_state());
            }
            None
        };
        if !message.value.is_zero() {
            let short = match &info {
                Some(i) => i.balance.lt(&message.value),
                None => true,
            };
            if short {
                return Err(InstrStop::OutOfFunds);
            }
        }
        if message.depth > 0 {
            if let Some(i) = &info {
                if i.nonce == u64::MAX {
                    return Err(InstrStop::Return);
                }
            }
        }
        let address = match message.kind {
            CreateKind::Create => {
                if message.depth == 0 {
                    message.destination
                } else {
                    let nonce = match &info {
                        Some(i) => i.nonce,
                        None => 0,
                    };
                    create_address_of(&message.caller, nonce)
                }
            },
            CreateKind::Create2 => {
                let hash = bytecode.hash_slow();
                create2_address_of(&message.caller, &message.salt, &hash)
            },
        };
        Ok(address)
    }

}

/// At any depth, a creation whose value is more than the caller holds (an absent caller holds
/// nothing) is refused with `OutOfFunds`.
pub proof fn law_create_refuses_unaffordable_value(r: RevView, init_code: Seq<u8>, m: CreateMessage)
    requires
        m.value.val() > 0,
        balance_of(r, m.caller) < m.value.val(),
    ensures
        spec_create_address(r, init_code, m) == Err::<Address, InstrStop>(InstrStop::OutOfFunds),
{
}

/// A creation the caller can afford goes ahead, except a nested one whose existing caller has
/// the highest nonce (EIP-2681), which ends with `Return`. A creation transaction (`CREATE` at
/// depth zero) takes its given address; a nested `CREATE` derives it from the caller and its
/// nonce (zero for an absent caller); `CREATE2` from the caller, salt and init code hash, at
/// any depth.
pub proof fn law_create_address_outcomes(r: RevView, init_code: Seq<u8>, m: CreateMessage)
    requires
        m.value.val() == 0 || balance_of(r, m.caller) >= m.value.val(),
    ensures
        m.depth > 0 && r.accounts[m.caller] is Some && r.accounts[m.caller]->0.nonce == u64::MAX ==> spec_create_address(
            r,
            init_code,
            m,
        ) == Err::<Address, InstrStop>(InstrStop::Return),
        !(m.depth > 0 && r.accounts[m.caller] is Some && r.accounts[m.caller]->0.nonce == u64::MAX) ==> spec_create_address(
            r,
            init_code,
            m,
        ) == Ok::<Address, InstrStop>(
            match m.kind {
                CreateKind::Create => if m.depth == 0 {
                    m.destination
                } else {
                    create_address_spec(
                        m.caller,
                        match r.accounts[m.caller] {
                            Some(a) => a.nonce,
                            None => 0,
                        },
                    )
                },
                CreateKind::Create2 => create2_address_spec(m.caller, m.salt, keccak256_spec(init_code)),
            },
        ),
{
}

} // verus!
