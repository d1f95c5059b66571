//! EIP-7708 logs for ether movements: `Transfer` logs for value transfers and `Burn` logs for the
//! balance of self-destructed accounts removed at transaction end.

use vstd::prelude::*;
use crate::bytecode::{keccak256, keccak256_spec};
use crate::primitives::{Address, B256, Word, be_val};
use crate::state::Log;

verus! {

/// The system address `0xff..fe`, which emits EIP-7708 logs.
pub open spec fn spec_system_address() -> Address {
    Address { hi: 0xffff_ffff_ffff_ffff, mid: 0xffff_ffff_ffff_ffff, lo: 0xffff_fffe }
}

/// The system address `0xff..fe`.
pub fn system_address() -> (r: Address)
    ensures
        r == spec_system_address(),
{
    Address { hi: 0xffff_ffff_ffff_ffff, mid: 0xffff_ffff_ffff_ffff, lo: 0xffff_fffe }
}

/// The address left-padded with twelve zero bytes to 32 bytes: bytes `12..20` of the result are
/// `hi`, bytes `20..28` are `mid` and bytes `28..32` are `lo`.
pub open spec fn spec_address_topic(a: Address) -> B256 {
    B256 {
        w0: 0,
        w1: a.hi >> 32u64,
        w2: ((a.hi & 0xffff_ffffu64) << 32u64) | (a.mid >> 32u64),
        w3: ((a.mid & 0xffff_ffffu64) << 32u64) | (a.lo as u64),
    }
}

/// The address as a log topic: left-padded with zeros to 32 bytes.
pub fn address_topic(a: &Address) -> (r: B256)
    ensures
        r == spec_address_topic(*a),
{
    B256 {
        w0: 0,
        w1: a.hi >> 32u64,
        w2: ((a.hi & 0xffff_ffffu64) << 32u64) | (a.mid >> 32u64),
        w3: ((a.mid & 0xffff_ffffu64) << 32u64) | (a.lo as u64),
    }
}

/// The ASCII bytes of the event signature `Transfer(address,address,uint256)`.
pub open spec fn transfer_signature() -> Seq<u8> {
    seq![
        0x54u8, 0x72, 0x61, 0x6e, 0x73, 0x66, 0x65, 0x72, 0x28, 0x61, 0x64, 0x64, 0x72, 0x65, 0x73,
        0x73, 0x2c, 0x61, 0x64, 0x64, 0x72, 0x65, 0x73, 0x73, 0x2c, 0x75, 0x69, 0x6e, 0x74, 0x32,
        0x35, 0x36, 0x29,
    ]
}

/// The ASCII bytes of the event signature `Burn(address,uint256)`.
pub open spec fn burn_signature() -> Seq<u8> {
    seq![
        0x42u8, 0x75, 0x72, 0x6e, 0x28, 0x61, 0x64, 0x64, 0x72, 0x65, 0x73, 0x73, 0x2c, 0x75, 0x69,
        0x6e, 0x74, 0x32, 0x35, 0x36, 0x29,
    ]
}

/// The `Transfer` topic: the Keccak-256 digest of its event signature.
pub fn transfer_topic() -> (r: B256)
    ensures
        r == keccak256_spec(transfer_signature()),
{
    let sig: Vec<u8> = vec![
        0x54u8, 0x72, 0x61, 0x6e, 0x73, 0x66, 0x65, 0x72, 0x28, 0x61, 0x64, 0x64, 0x72, 0x65, 0x73,
        0x73, 0x2c, 0x61, 0x64, 0x64, 0x72, 0x65, 0x73, 0x73, 0x2c, 0x75, 0x69, 0x6e, 0x74, 0x32,
        0x35, 0x36, 0x29,
    ];
    assert(sig@ =~= transfer_signature());
    keccak256(&sig)
}

/// The `Burn` topic: the Keccak-256 digest of its event signature.
pub fn burn_topic() -> (r: B256)
    ensures
        r == keccak256_spec(burn_signature()),
{
    let sig: Vec<u8> = vec![
        0x42u8, 0x75, 0x72, 0x6e, 0x28, 0x61, 0x64, 0x64, 0x72, 0x65, 0x73, 0x73, 0x2c, 0x75, 0x69,
        0x6e, 0x74, 0x32, 0x35, 0x36, 0x29,
    ];
    assert(sig@ =~= burn_signature());
    keccak256(&sig)
}

/// `log` is the EIP-7708 `Transfer` log of `value` from `from` to `to`.
pub open spec fn is_transfer_log(log: Log, from: Address, to: Address, value: Word) -> bool {
    &&& log.address == spec_system_address()
    &&& log.topics@ == seq![
        keccak256_spec(transfer_signature()),
        spec_address_topic(from),
        spec_address_topic(to),
    ]
    &&& log.data@.len() == 32
    &&& be_val(log.data@) == value.val()
}

/// `log` is the EIP-7708 `Burn` log of `value` at `address`.
pub open spec fn is_burn_log(log: Log, address: Address, value: Word) -> bool {
    &&& log.address == spec_system_address()
    &&& log.topics@ == seq![keccak256_spec(burn_signature()), spec_address_topic(address)]
    &&& log.data@.len() == 32
    &&& be_val(log.data@) == value.val()
}

/// The `Transfer` log of a value transfer; none for a zero value or a transfer to oneself.
pub fn eip7708_transfer_log(from: &Address, to: &Address, value: &Word) -> (r: Option<Log>)
    ensures
        r is None <==> (value.val() == 0 || *from == *to),
        r matches Some(log) ==> is_transfer_log(log, *from, *to, *value),
{
    if value.is_zero() || *from == *to {
        return None;
    }
    let mut topics: Vec<B256> = Vec::new();
    topics.push(transfer_topic());
    topics.push(address_topic(from));
    topics.push(address_topic(to));
    let log = Log { address: system_address(), topics, data: value.to_be_bytes() };
    assert(log.topics@ =~= seq![
        keccak256_spec(transfer_signature()),
        spec_address_topic(*from),
        spec_address_topic(*to),
    ]);
    Some(log)
}

/// The `Burn` log of a removed balance; none for a zero balance.
pub fn eip7708_burn_log(address: &Address, value: &Word) -> (r: Option<Log>)
    ensures
        r is None <==> value.val() == 0,
        r matches Some(log) ==> is_burn_log(log, *address, *value),
{
    if value.is_zero() {
        return None;
    }
    let mut topics: Vec<B256> = Vec::new();
    topics.push(burn_topic());
    topics.push(address_topic(address));
    let log = Log { address: system_address(), topics, data: value.to_be_bytes() };
    assert(log.topics@ =~= seq![keccak256_spec(burn_signature()), spec_address_topic(*address)]);
    Some(log)
}

} // verus!
