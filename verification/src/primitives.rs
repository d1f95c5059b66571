//! Plain-value primitives: 20-byte addresses, 256-bit words and 32-byte hashes.
//!
//! Each type holds its bytes as unsigned integers so that equality is structural and ordering is
//! the ordinary lexicographic byte order.

use vstd::prelude::*;
use alloy_primitives::U256;

verus! {

/// Two to the sixty-fourth power.
pub open spec fn limb_base() -> int {
    0x1_0000_0000_0000_0000
}

/// Two to the 256th power: one past the largest 256-bit word.
pub open spec fn word_modulus() -> int {
    limb_base() * limb_base() * limb_base() * limb_base()
}

/// A 20-byte account address, held big-endian: `hi` is bytes `0..8`, `mid` bytes `8..16` and
/// `lo` bytes `16..20`.
#[derive(Clone, Copy, Debug, PartialEq, Eq, Hash, Structural)]
pub struct Address {
    pub hi: u64,
    pub mid: u64,
    pub lo: u32,
}

impl Address {
    /// The zero address.
    pub fn zero() -> (r: Address)
        ensures
            r.hi == 0 && r.mid == 0 && r.lo == 0,
    {
        Address { hi: 0, mid: 0, lo: 0 }
    }

    /// Builds an address from its three big-endian parts.
    pub fn new(hi: u64, mid: u64, lo: u32) -> (r: Address)
        ensures
            r == (Address { hi, mid, lo }),
    {
        Address { hi, mid, lo }
    }

    /// The address whose first nineteen bytes are zero and whose last byte is `byte`.
    pub fn with_last_byte(byte: u8) -> (r: Address)
        ensures
            r == Address::spec_with_last_byte(byte),
    {
        Address { hi: 0, mid: 0, lo: byte as u32 }
    }

    pub open spec fn spec_with_last_byte(byte: u8) -> Address {
        Address { hi: 0, mid: 0, lo: byte as u32 }
    }

    /// Lexicographic (big-endian byte) order on addresses.
    pub open spec fn spec_lt(self, other: Address) -> bool {
        ||| self.hi < other.hi
        ||| self.hi == other.hi && self.mid < other.mid
        ||| self.hi == other.hi && self.mid == other.mid && self.lo < other.lo
    }

    /// Returns whether `self` sorts strictly before `other`.
    pub fn lt(&self, other: &Address) -> (r: bool)
        ensures
            r == self.spec_lt(*other),
    {
        self.hi < other.hi || (self.hi == other.hi && self.mid < other.mid) || (self.hi
            == other.hi && self.mid == other.mid && self.lo < other.lo)
    }
}

/// A 32-byte hash, held big-endian in four 8-byte parts.
#[derive(Clone, Copy, Debug, PartialEq, Eq, Hash, Structural)]
pub struct B256 {
    pub w0: u64,
    pub w1: u64,
    pub w2: u64,
    pub w3: u64,
}

impl B256 {
    /// The all-zero hash.
    pub fn zero() -> (r: B256)
        ensures
            r == B256::spec_zero(),
    {
        B256 { w0: 0, w1: 0, w2: 0, w3: 0 }
    }

    pub open spec fn spec_zero() -> B256 {
        B256 { w0: 0, w1: 0, w2: 0, w3: 0 }
    }

    /// Keccak-256 of the empty byte string,
    /// `c5d2460186f7233c927e7db2dcc703c0e500b653ca82273b7bfad8045d85a470`.
    pub fn keccak_empty() -> (r: B256)
        ensures
            r == B256::spec_keccak_empty(),
    {
        B256 {
            w0: 0xc5d2460186f7233c,
            w1: 0x927e7db2dcc703c0,
            w2: 0xe500b653ca82273b,
            w3: 0x7bfad8045d85a470,
        }
    }

    pub open spec fn spec_keccak_empty() -> B256 {
        B256 {
            w0: 0xc5d2460186f7233c,
            w1: 0x927e7db2dcc703c0,
            w2: 0xe500b653ca82273b,
            w3: 0x7bfad8045d85a470,
        }
    }

    /// Returns whether every byte is zero.
    pub fn is_zero(&self) -> (r: bool)
        ensures
            r == (*self == B256::spec_zero()),
    {
        self.w0 == 0 && self.w1 == 0 && self.w2 == 0 && self.w3 == 0
    }

    /// Lexicographic order on hashes.
    pub open spec fn spec_lt(self, other: B256) -> bool {
        ||| self.w0 < other.w0
        ||| self.w0 == other.w0 && self.w1 < other.w1
        ||| self.w0 == other.w0 && self.w1 == other.w1 && self.w2 < other.w2
        ||| self.w0 == other.w0 && self.w1 == other.w1 && self.w2 == other.w2 && self.w3
            < other.w3
    }

    /// Returns whether `self` sorts strictly before `other`.
    pub fn lt(&self, other: &B256) -> (r: bool)
        ensures
            r == self.spec_lt(*other),
    {
        if self.w0 != other.w0 {
            self.w0 < other.w0
        } else if self.w1 != other.w1 {
            self.w1 < other.w1
        } else if self.w2 != other.w2 {
            self.w2 < other.w2
        } else {
            self.w3 < other.w3
        }
    }
}

/// An unsigned 256-bit word, held as four 64-bit limbs, least significant first.
#[derive(Clone, Copy, Debug, PartialEq, Eq, Hash, Structural)]
pub struct Word {
    pub l0: u64,
    pub l1: u64,
    pub l2: u64,
    pub l3: u64,
}

impl Word {
    /// The numeric value of the word.
    pub open spec fn val(self) -> nat {
        (self.l0 + limb_base() * (self.l1 + limb_base() * (self.l2 + limb_base()
            * self.l3))) as nat
    }

    pub open spec fn spec_zero() -> Word {
        Word { l0: 0, l1: 0, l2: 0, l3: 0 }
    }

    pub open spec fn spec_from_u64(x: u64) -> Word {
        Word { l0: x, l1: 0, l2: 0, l3: 0 }
    }

    /// The zero word.
    pub fn zero() -> (r: Word)
        ensures
            r == Word::spec_zero(),
            r.val() == 0,
    {
        Word { l0: 0, l1: 0, l2: 0, l3: 0 }
    }

    /// The word holding `x`.
    pub fn from_u64(x: u64) -> (r: Word)
        ensures
            r == Word::spec_from_u64(x),
            r.val() == x,
    {
        Word { l0: x, l1: 0, l2: 0, l3: 0 }
    }

    /// The word holding `x`.
    pub fn from_u128(x: u128) -> (r: Word)
        ensures
            r.val() == x,
    {
        let lo = (x % 0x1_0000_0000_0000_0000) as u64;
        let hi = (x / 0x1_0000_0000_0000_0000) as u64;
        let r = Word { l0: lo, l1: hi, l2: 0, l3: 0 };
        assert(r.val() == x) by {
            assert(lo + limb_base() * hi == x) by (nonlinear_arith)
                requires
                    lo == x % 0x1_0000_0000_0000_0000,
                    hi == x / 0x1_0000_0000_0000_0000,
            ;
        }
        r
    }

    /// Returns whether the word is zero.
    pub fn is_zero(&self) -> (r: bool)
        ensures
            r == (*self == Word::spec_zero()),
            r == (self.val() == 0),
    {
        proof {
            lemma_word_val_injective(*self, Word::spec_zero());
        }
        self.l0 == 0 && self.l1 == 0 && self.l2 == 0 && self.l3 == 0
    }

    /// Returns whether `self` is numerically less than `other`.
    pub fn lt(&self, other: &Word) -> (r: bool)
        ensures
            r == (self.val() < other.val()),
    {
        u256_lt(*self, *other)
    }

    /// `self - rhs`, or `None` when `rhs` exceeds `self`.
    pub fn checked_sub(&self, rhs: &Word) -> (r: Option<Word>)
        ensures
            match r {
                Some(d) => rhs.val() <= self.val() && d.val() == self.val() - rhs.val(),
                None => self.val() < rhs.val(),
            },
    {
        let (d, borrow) = u256_overflowing_sub(*self, *rhs);
        if borrow {
            None
        } else {
            proof {
                lemma_word_val_bound(*self);
                vstd::arithmetic::div_mod::lemma_small_mod(
                    (self.val() - rhs.val()) as nat,
                    word_modulus() as nat,
                );
            }
            Some(d)
        }
    }

    /// `self + rhs`, or the largest word when the sum does not fit.
    pub fn saturating_add(&self, rhs: &Word) -> (r: Word)
        ensures
            self.val() + rhs.val() < word_modulus() ==> r.val() == self.val() + rhs.val(),
            self.val() + rhs.val() >= word_modulus() ==> r.val() == word_modulus() - 1,
    {
        let (s, carry) = u256_overflowing_add(*self, *rhs);
        if carry {
            let m = Word { l0: u64::MAX, l1: u64::MAX, l2: u64::MAX, l3: u64::MAX };
            assert(m.val() == word_modulus() - 1);
            m
        } else {
            proof {
                vstd::arithmetic::div_mod::lemma_small_mod(
                    (self.val() + rhs.val()) as nat,
                    word_modulus() as nat,
                );
            }
            s
        }
    }

    /// `self - rhs` modulo two to the 256th power.
    pub fn wrapping_sub(&self, rhs: &Word) -> (r: Word)
        ensures
            r.val() == (self.val() - rhs.val()) % word_modulus(),
    {
        let (d, _) = u256_overflowing_sub(*self, *rhs);
        d
    }

    /// `self + rhs` modulo two to the 256th power.
    pub fn wrapping_add(&self, rhs: &Word) -> (r: Word)
        ensures
            r.val() == (self.val() + rhs.val()) as int % word_modulus(),
    {
        let (s, _) = u256_overflowing_add(*self, *rhs);
        s
    }
}

/// The number a byte string denotes read big-endian.
pub open spec fn be_val(s: Seq<u8>) -> nat
    decreases s.len(),
{
    if s.len() == 0 {
        0
    } else {
        be_val(s.drop_last()) * 256 + s.last() as nat
    }
}

impl Word {
    /// The 32-byte big-endian encoding of the word.
    pub fn to_be_bytes(&self) -> (r: Vec<u8>)
        ensures
            r@.len() == 32,
            be_val(r@) == self.val(),
    {
        u256_to_be_bytes(*self)
    }
}

/// A word whose upper limbs are zero is its lowest limb; otherwise it exceeds `u64::MAX`.
pub proof fn lemma_word_val_ge_limbs(w: Word)
    ensures
        (w.l1 == 0 && w.l2 == 0 && w.l3 == 0) ==> w.val() == w.l0,
        (w.l1 != 0 || w.l2 != 0 || w.l3 != 0) ==> w.val() > u64::MAX,
{
    let b = limb_base();
    let x = w.l1 + b * (w.l2 + b * w.l3);
    assert(x >= 0) by (nonlinear_arith)
        requires
            b > 0,
            w.l1 >= 0,
            w.l2 >= 0,
            w.l3 >= 0,
            x == w.l1 + b * (w.l2 + b * w.l3),
    ;
    assert((w.l1 != 0 || w.l2 != 0 || w.l3 != 0) ==> x >= 1) by (nonlinear_arith)
        requires
            b > 0,
            w.l1 >= 0,
            w.l2 >= 0,
            w.l3 >= 0,
            x == w.l1 + b * (w.l2 + b * w.l3),
    ;
    assert(x >= 1 ==> b * x >= b) by (nonlinear_arith)
        requires
            b > 0,
    ;
}

/// Every word's value lies below two to the 256th power.
pub proof fn lemma_word_val_bound(w: Word)
    ensures
        w.val() < word_modulus(),
{
    let b = limb_base();
    let x3 = w.l3 as int;
    let x2 = w.l2 + b * x3;
    let x1 = w.l1 + b * x2;
    assert(x2 < b * b) by (nonlinear_arith)
        requires
            x2 == w.l2 + b * x3,
            0 <= w.l2 < b,
            0 <= x3 < b,
    ;
    assert(x1 < b * b * b) by (nonlinear_arith)
        requires
            x1 == w.l1 + b * x2,
            0 <= w.l1 < b,
            0 <= x2 < b * b,
    ;
    assert(w.val() < b * b * b * b) by (nonlinear_arith)
        requires
            w.val() == w.l0 + b * x1,
            0 <= w.l0 < b,
            0 <= x1 < b * b * b,
    ;
}

/// Two words with the same value are the same word.
pub proof fn lemma_word_val_injective(a: Word, b: Word)
    ensures
        (a.val() == b.val()) == (a == b),
{
    if a.val() == b.val() {
        let base = limb_base();
        let a2 = a.l2 + base * a.l3;
        let b2 = b.l2 + base * b.l3;
        let a1 = a.l1 + base * a2;
        let b1 = b.l1 + base * b2;
        vstd::arithmetic::div_mod::lemma_fundamental_div_mod_converse(
            a.val() as int,
            base,
            a1,
            a.l0 as int,
        );
        vstd::arithmetic::div_mod::lemma_fundamental_div_mod_converse(
            b.val() as int,
            base,
            b1,
            b.l0 as int,
        );
        vstd::arithmetic::div_mod::lemma_fundamental_div_mod_converse(a1, base, a2, a.l1 as int);
        vstd::arithmetic::div_mod::lemma_fundamental_div_mod_converse(b1, base, b2, b.l1 as int);
        vstd::arithmetic::div_mod::lemma_fundamental_div_mod_converse(
            a2,
            base,
            a.l3 as int,
            a.l2 as int,
        );
        vstd::arithmetic::div_mod::lemma_fundamental_div_mod_converse(
            b2,
            base,
            b.l3 as int,
            b.l2 as int,
        );
    }
}

/// Compares two words through ruint's `Uint<256, 4>`.
///
/// Claims that `<` on `alloy_primitives::U256` built by `from_limbs` is the numeric order of the
/// little-endian limb values.
#[verifier::external_body]
fn u256_lt(a: Word, b: Word) -> (r: bool)
    ensures
        r == (a.val() < b.val()),
{
    U256::from_limbs([a.l0, a.l1, a.l2, a.l3]) < U256::from_limbs([b.l0, b.l1, b.l2, b.l3])
}

/// Adds two words through ruint's `Uint::overflowing_add`.
///
/// Claims what ruint documents: the sum modulo two to the 256th power, and a flag that is set
/// exactly when the true sum does not fit.
#[verifier::external_body]
fn u256_overflowing_add(a: Word, b: Word) -> (r: (Word, bool))
    ensures
        r.0.val() == (a.val() + b.val()) as int % word_modulus(),
        r.1 == (a.val() + b.val() >= word_modulus()),
{
    let (s, o) = U256::from_limbs([a.l0, a.l1, a.l2, a.l3]).overflowing_add(
        U256::from_limbs([b.l0, b.l1, b.l2, b.l3]),
    );
    let l = s.into_limbs();
    (Word { l0: l[0], l1: l[1], l2: l[2], l3: l[3] }, o)
}

/// Subtracts two words through ruint's `Uint::overflowing_sub`.
///
/// Claims what ruint documents: the difference modulo two to the 256th power, and a flag that is
/// set exactly when `b` exceeds `a`.
#[verifier::external_body]
fn u256_overflowing_sub(a: Word, b: Word) -> (r: (Word, bool))
    ensures
        r.0.val() == (a.val() - b.val()) % word_modulus(),
        r.1 == (a.val() < b.val()),
{
    let (s, o) = U256::from_limbs([a.l0, a.l1, a.l2, a.l3]).overflowing_sub(
        U256::from_limbs([b.l0, b.l1, b.l2, b.l3]),
    );
    let l = s.into_limbs();
    (Word { l0: l[0], l1: l[1], l2: l[2], l3: l[3] }, o)
}

/// Encodes a word through ruint's `Uint::to_be_bytes::<32>`.
///
/// Claims what ruint documents: the 32 bytes of the value, most significant first.
#[verifier::external_body]
fn u256_to_be_bytes(a: Word) -> (r: Vec<u8>)
    ensures
        r@.len() == 32,
        be_val(r@) == a.val(),
{
    U256::from_limbs([a.l0, a.l1, a.l2, a.l3]).to_be_bytes::<32>().to_vec()
}

} // verus!
