//! The transaction-initial warm set: precompiles, the coinbase (EIP-3651) and the EIP-2930
//! access list. Warmth gained while executing is tracked by the state.
//!
//! Precompiles are usually tiny addresses; those whose first eighteen bytes are zero and whose
//! last two bytes are below [`SHORT_ADDRESS_CAP`] are also kept in a bit vector indexed by that
//! value, for fast lookups.

use vstd::prelude::*;
use bitvec::vec::BitVec;
use crate::primitives::{Address, Word};
use crate::vecmap::{VecMap, VecSet};

verus! {

/// Short-address cap: short addresses have a last-two-byte value below it.
pub const SHORT_ADDRESS_CAP: usize = 300;

/// A `bitvec::vec::BitVec` (of the default `usize` store and `Lsb0` order), held opaquely.
#[verifier::external_body]
pub struct ShortBits {
    bits: BitVec,
}

/// The bits of a `bitvec::vec::BitVec`, in index order.
pub uninterp spec fn bitvec_bits(b: ShortBits) -> Seq<bool>;

/// A bit vector of `len` cleared bits, made by `BitVec::repeat(false, len)`.
#[verifier::external_body]
fn bitvec_zeros(len: usize) -> (r: ShortBits)
    ensures
        bitvec_bits(r) == Seq::new(len as nat, |i: int| false),
{
    ShortBits { bits: BitVec::repeat(false, len) }
}

/// The number of bits, by `BitSlice::len`.
#[verifier::external_body]
fn bitvec_len(b: &ShortBits) -> (r: usize)
    ensures
        r == bitvec_bits(*b).len(),
{
    b.bits.len()
}

/// The bit at `index`, by indexing the `BitSlice`; out-of-range indexing panics.
#[verifier::external_body]
fn bitvec_get(b: &ShortBits, index: usize) -> (r: bool)
    requires
        index < bitvec_bits(*b).len(),
    ensures
        r == bitvec_bits(*b)[index as int],
{
    b.bits[index]
}

/// Writes the bit at `index`, by `BitSlice::set`, which panics when `index` is out of range.
#[verifier::external_body]
fn bitvec_set(b: &mut ShortBits, index: usize, value: bool)
    requires
        index < bitvec_bits(*old(b)).len(),
    ensures
        bitvec_bits(*final(b)) == bitvec_bits(*old(b)).update(index as int, value),
{
    b.bits.set(index, value)
}

/// Sets every bit to `value`, by `BitSlice::fill`.
#[verifier::external_body]
fn bitvec_fill(b: &mut ShortBits, value: bool)
    ensures
        bitvec_bits(*final(b)) == Seq::new(bitvec_bits(*old(b)).len(), |i: int| value),
{
    b.bits.fill(value)
}

/// Whether some bit of `bits` is set.
pub open spec fn any_set(bits: Seq<bool>) -> bool {
    exists|i: int| 0 <= i < bits.len() && bits[i]
}

/// Whether any bit is set, by `BitSlice::any`.
#[verifier::external_body]
fn bitvec_any(b: &ShortBits) -> (r: bool)
    ensures
        r == any_set(bitvec_bits(*b)),
{
    b.bits.any()
}

/// Whether the address is short: eighteen leading zero bytes and a last-two-byte value below
/// the cap.
pub open spec fn is_short(a: Address) -> bool {
    a.hi == 0 && a.mid == 0 && a.lo < SHORT_ADDRESS_CAP
}

/// The short-address index of an address, if it qualifies: its last-two-byte value.
pub fn short_address(address: &Address) -> (r: Option<usize>)
    ensures
        is_short(*address) ==> r == Some(address.lo as usize),
        !is_short(*address) ==> r is None,
{
    if address.hi == 0 && address.mid == 0 && address.lo < 65536u32 {
        let value = address.lo as usize;
        if value < SHORT_ADDRESS_CAP {
            return Some(value);
        }
    }
    None
}

/// The addresses that are warm before execution begins.
pub struct WarmAddresses {
    precompile_set: VecSet<Address>,
    precompile_short_addresses: ShortBits,
    precompile_all_short_addresses: bool,
    coinbase: Option<Address>,
    access_list: VecMap<Address, VecSet<Word>>,
}

impl WarmAddresses {
    /// The precompile addresses.
    pub closed spec fn spec_precompiles(&self) -> Set<Address> {
        self.precompile_set@
    }

    /// The coinbase address, if set.
    pub closed spec fn spec_coinbase(&self) -> Option<Address> {
        self.coinbase
    }

    /// The access list: each listed address with its warm slots.
    pub closed spec fn spec_access_list(&self) -> Map<Address, Set<Word>> {
        Map::new(|a: Address| self.access_list@.contains_key(a), |a: Address| self.access_list@[a]@)
    }

    /// The short-address bits agree with the precompile set.
    pub closed spec fn wf(&self) -> bool {
        let bits = bitvec_bits(self.precompile_short_addresses);
        &&& bits.len() == SHORT_ADDRESS_CAP
        &&& forall|i: int| 0 <= i < SHORT_ADDRESS_CAP ==> #[trigger] bits[i] == self.precompile_set@.contains(
            Address { hi: 0, mid: 0, lo: i as u32 },
        )
        &&& self.precompile_all_short_addresses == forall|a: Address| #[trigger] self.precompile_set@.contains(a) ==> is_short(a)
    }

    /// An empty warm set.
    pub fn new() -> (r: WarmAddresses)
        ensures
            r.wf(),
            r.spec_precompiles() == Set::<Address>::empty(),
            r.spec_coinbase() is None,
            r.spec_access_list() == Map::<Address, Set<Word>>::empty(),
    {
        let r = WarmAddresses {
            precompile_set: VecSet::new(),
            precompile_short_addresses: bitvec_zeros(SHORT_ADDRESS_CAP),
            precompile_all_short_addresses: true,
            coinbase: None,
            access_list: VecMap::new(),
        };
        assert(r.spec_access_list() =~= Map::<Address, Set<Word>>::empty());
        r
    }

    /// The precompile addresses.
    pub fn precompiles(&self) -> (r: &VecSet<Address>)
        ensures
            r@ == self.spec_precompiles(),
    {
        &self.precompile_set
    }

    /// The coinbase address.
    pub fn coinbase(&self) -> (r: Option<Address>)
        ensures
            r == self.spec_coinbase(),
    {
        self.coinbase
    }

    /// The number of short-address bits.
    pub fn short_address_bits_len(&self) -> (r: usize)
        requires
            self.wf(),
        ensures
            r == SHORT_ADDRESS_CAP,
    {
        bitvec_len(&self.precompile_short_addresses)
    }

    /// Whether the short-address bit `index` is set: the short address `index` is a precompile.
    pub fn is_short_address_bit_set(&self, index: usize) -> (r: bool)
        requires
            self.wf(),
            index < SHORT_ADDRESS_CAP,
        ensures
            r == self.spec_precompiles().contains(Address { hi: 0, mid: 0, lo: index as u32 }),
    {
        bitvec_get(&self.precompile_short_addresses, index)
    }

    /// Whether any short-address bit is set: some precompile is a short address.
    pub fn any_short_address_bit(&self) -> (r: bool)
        requires
            self.wf(),
        ensures
            r == exists|a: Address| #[trigger] self.spec_precompiles().contains(a) && is_short(a),
    {
        let r = bitvec_any(&self.precompile_short_addresses);
        proof {
            let bits = bitvec_bits(self.precompile_short_addresses);
            if r {
                let i = choose|i: int| 0 <= i < bits.len() && bits[i];
                let a = Address { hi: 0, mid: 0, lo: i as u32 };
                assert(self.spec_precompiles().contains(a) && is_short(a));
            }
            if exists|a: Address| #[trigger] self.spec_precompiles().contains(a) && is_short(a) {
                let a = choose|a: Address| #[trigger] self.spec_precompiles().contains(a) && is_short(a);
                assert(bits[a.lo as int]);
            }
        }
        r
    }

    /// Replaces the precompile addresses and rebuilds the short-address bits.
    pub fn set_precompile_addresses(&mut self, addresses: &VecSet<Address>)
        requires
            old(self).wf(),
        ensures
            final(self).wf(),
            final(self).spec_precompiles() == addresses@,
            final(self).spec_coinbase() == old(self).spec_coinbase(),
            final(self).spec_access_list() == old(self).spec_access_list(),
    {
        bitvec_fill(&mut self.precompile_short_addresses, false);
        let elements = addresses.elements();
        let mut all_short_addresses = true;
        let mut i: usize = 0;
        while i < elements.len()
            invariant
                i <= elements@.len(),
                elements@.to_set() == addresses@,
                bitvec_bits(self.precompile_short_addresses).len() == SHORT_ADDRESS_CAP,
                forall|j: int| 0 <= j < SHORT_ADDRESS_CAP ==> #[trigger] bitvec_bits(self.precompile_short_addresses)[j]
                    == elements@.take(i as int).contains(Address { hi: 0, mid: 0, lo: j as u32 }),
                all_short_addresses == forall|k: int| 0 <= k < i ==> is_short(#[trigger] elements@[k]),
                self.coinbase == old(self).coinbase,
                self.access_list == old(self).access_list,
            decreases elements@.len() - i,
        {
            let address = elements[i];
            let ghost t0 = elements@.take(i as int);
            match short_address(&address) {
                Some(index) => {
                    bitvec_set(&mut self.precompile_short_addresses, index, true);
                },
                None => {
                    all_short_addresses = false;
                },
            }
            proof {
                let t1 = elements@.take(i + 1);
                assert(t1 =~= t0.push(address));
                assert forall|j: int| 0 <= j < SHORT_ADDRESS_CAP implies #[trigger] bitvec_bits(self.precompile_short_addresses)[j]
                    == t1.contains(Address { hi: 0, mid: 0, lo: j as u32 }) by {
                    let a = Address { hi: 0, mid: 0, lo: j as u32 };
                    if t1.contains(a) && !t0.contains(a) {
                        let m = choose|m: int| 0 <= m < t1.len() && t1[m] == a;
                        if m < i {
                            assert(t0[m] == a);
                        }
                        assert(address == a);
                    }
                    if t0.contains(a) {
                        let m = choose|m: int| 0 <= m < t0.len() && t0[m] == a;
                        assert(t1[m] == a);
                    }
                    if is_short(address) && address.lo == j {
                        assert(address == a);
                        assert(t1[i as int] == a);
                    }
                }
            }
            i += 1;
        }
        self.precompile_all_short_addresses = all_short_addresses;
        self.precompile_set = addresses.duplicate();
        proof {
            assert(elements@.take(elements@.len() as int) =~= elements@);
            assert forall|j: int| 0 <= j < SHORT_ADDRESS_CAP implies #[trigger] bitvec_bits(self.precompile_short_addresses)[j]
                == self.precompile_set@.contains(Address { hi: 0, mid: 0, lo: j as u32 }) by {
                let a = Address { hi: 0, mid: 0, lo: j as u32 };
                assert(elements@.contains(a) == elements@.to_set().contains(a));
            }
            assert(i == elements@.len());
            if all_short_addresses {
                assert forall|a: Address| #[trigger] self.precompile_set@.contains(a) implies is_short(a) by {
                    assert(elements@.to_set().contains(a));
                    assert(elements@.contains(a));
                    let m = choose|m: int| 0 <= m < elements@.len() && elements@[m] == a;
                    assert(is_short(elements@[m]));
                }
            } else {
                assert(!(forall|k: int| 0 <= k < i ==> is_short(#[trigger] elements@[k])));
                let k = choose|k: int| !(0 <= k < i ==> is_short(#[trigger] elements@[k]));
                assert(elements@.to_set().contains(elements@[k]));
                assert(self.precompile_set@.contains(elements@[k]) && !is_short(elements@[k]));
            }
        }
    }

    /// Sets the coinbase address.
    pub fn set_coinbase(&mut self, address: Address)
        requires
            old(self).wf(),
        ensures
            final(self).wf(),
            final(self).spec_coinbase() == Some(address),
            final(self).spec_precompiles() == old(self).spec_precompiles(),
            final(self).spec_access_list() == old(self).spec_access_list(),
    {
        let ghost before = *self;
        self.coinbase = Some(address);
        assert(self.precompile_short_addresses == before.precompile_short_addresses);
        assert(self.precompile_set == before.precompile_set);
    }

    /// Replaces the access list.
    pub fn set_access_list(&mut self, access_list: VecMap<Address, VecSet<Word>>)
        requires
            old(self).wf(),
        ensures
            final(self).wf(),
            final(self).spec_access_list() == Map::new(|a: Address| access_list@.contains_key(a), |a: Address| access_list@[a]@),
            final(self).spec_precompiles() == old(self).spec_precompiles(),
            final(self).spec_coinbase() == old(self).spec_coinbase(),
    {
        let ghost before = *self;
        self.access_list = access_list;
        assert(self.precompile_short_addresses == before.precompile_short_addresses);
        assert(self.precompile_set == before.precompile_set);
    }

    /// The access list.
    pub fn access_list(&self) -> (r: &VecMap<Address, VecSet<Word>>)
        ensures
            Map::new(|a: Address| r@.contains_key(a), |a: Address| r@[a]@) == self.spec_access_list(),
    {
        &self.access_list
    }

    /// Clears the coinbase address.
    pub fn clear_coinbase(&mut self)
        requires
            old(self).wf(),
        ensures
            final(self).wf(),
            final(self).spec_coinbase() is None,
            final(self).spec_precompiles() == old(self).spec_precompiles(),
            final(self).spec_access_list() == old(self).spec_access_list(),
    {
        let ghost before = *self;
        self.coinbase = None;
        assert(self.precompile_short_addresses == before.precompile_short_addresses);
        assert(self.precompile_set == before.precompile_set);
    }

    /// Clears the coinbase address and the access list, keeping the precompiles.
    pub fn clear_coinbase_and_access_list(&mut self)
        requires
            old(self).wf(),
        ensures
            final(self).wf(),
            final(self).spec_coinbase() is None,
            final(self).spec_access_list() == Map::<Address, Set<Word>>::empty(),
            final(self).spec_precompiles() == old(self).spec_precompiles(),
    {
        let ghost before = *self;
        self.coinbase = None;
        self.access_list.clear();
        assert(self.precompile_short_addresses == before.precompile_short_addresses);
        assert(self.precompile_set == before.precompile_set);
        assert(self.spec_access_list() =~= Map::<Address, Set<Word>>::empty());
    }

    /// Whether the address is warm before execution: the coinbase, an access-list address, or a
    /// precompile.
    pub fn is_warm(&self, address: &Address) -> (r: bool)
        requires
            self.wf(),
        ensures
            r == (self.spec_coinbase() == Some(*address) || self.spec_access_list().contains_key(*address)
                || self.spec_precompiles().contains(*address)),
    {
        match self.coinbase {
            Some(c) => {
                if c == *address {
                    return true;
                }
            },
            None => {},
        }
        if self.access_list.contains_key(address) {
            return true;
        }
        if self.precompile_set.len() == 0 {
            proof {
                if self.precompile_set@.contains(*address) {
                    assert(self.precompile_set@.len() > 0) by {
                        vstd::set_lib::lemma_set_empty_equivalency_len(self.precompile_set@);
                    }
                }
            }
            return false;
        }
        match short_address(address) {
            Some(index) => {
                proof {
                    assert(*address == Address { hi: 0, mid: 0, lo: index as u32 });
                }
                return bitvec_get(&self.precompile_short_addresses, index);
            },
            None => {},
        }
        if !self.precompile_all_short_addresses {
            return self.precompile_set.contains(address);
        }
        false
    }

    /// Whether the slot is warm through the access list.
    pub fn is_storage_warm(&self, address: &Address, key: &Word) -> (r: bool)
        ensures
            r == (self.spec_access_list().contains_key(*address) && self.spec_access_list()[*address].contains(*key)),
    {
        match self.access_list.get(address) {
            Some(slots) => slots.contains(key),
            None => false,
        }
    }

    /// Whether the address is cold before execution.
    pub fn is_cold(&self, address: &Address) -> (r: bool)
        requires
            self.wf(),
        ensures
            r == !(self.spec_coinbase() == Some(*address) || self.spec_access_list().contains_key(*address)
                || self.spec_precompiles().contains(*address)),
    {
        !self.is_warm(address)
    }
}

impl Default for WarmAddresses {
    fn default() -> (r: WarmAddresses)
        ensures
            r.wf(),
            r.spec_precompiles() == Set::<Address>::empty(),
            r.spec_coinbase() is None,
            r.spec_access_list() == Map::<Address, Set<Word>>::empty(),
    {
        WarmAddresses::new()
    }
}

} // verus!
