//! Block access lists (EIP-7928): per-item write histories keyed by block access index, and the
//! validation of decoded account entries.
//!
//! A block access index numbers the points of a block: `0` before the first transaction, `i`
//! after the `i`-th transaction. A write history lists, in increasing index order, the value an
//! item takes at each index where it changes; reading the item "at" an index yields the latest
//! write strictly before it.

use vstd::prelude::*;
use crate::bytecode::{Bytecode, keccak256_spec};
use crate::primitives::{Address, B256, Word, lemma_word_val_injective};
use crate::vecmap::{MapKey, VecMap};
use core::cmp::Ordering;
use vstd::std_specs::cmp::{PartialOrdSpec, PartialOrdSpecImpl};

verus! {

/// Positional account id inside a block access list; ids compare as their raw indices.
#[derive(Clone, Copy, Debug, PartialEq, Eq, Hash, Ord, Structural)]
pub struct AccountId {
    id: usize,
}

impl AccountId {
    pub closed spec fn spec_get(self) -> usize {
        self.id
    }

    /// Creates an account id.
    pub fn new(id: usize) -> (r: AccountId)
        ensures
            r.spec_get() == id,
    {
        AccountId { id }
    }

    /// The raw account id.
    pub fn get(self) -> (r: usize)
        ensures
            r == self.spec_get(),
    {
        self.id
    }

    /// Ids are their raw indices: two ids are equal exactly when their indices are (so
    /// `AccountId::new(x.get()) == x`), and ids are ordered as their indices.
    pub proof fn law_account_id_is_its_index(a: AccountId, b: AccountId)
        ensures
            (a == b) <==> (a.spec_get() == b.spec_get()),
            (PartialOrdSpec::partial_cmp_spec(&a, &b) == Some(Ordering::Less)) <==> a.spec_get() < b.spec_get(),
            (PartialOrdSpec::partial_cmp_spec(&a, &b) == Some(Ordering::Equal)) <==> a.spec_get() == b.spec_get(),
            (PartialOrdSpec::partial_cmp_spec(&a, &b) == Some(Ordering::Greater)) <==> a.spec_get() > b.spec_get(),
    {
    }
}

impl PartialOrd for AccountId {
    fn partial_cmp(&self, other: &AccountId) -> (r: Option<Ordering>) {
        if self.id < other.id {
            Some(Ordering::Less)
        } else if self.id == other.id {
            Some(Ordering::Equal)
        } else {
            Some(Ordering::Greater)
        }
    }
}

impl PartialOrdSpecImpl for AccountId {
    open spec fn obeys_partial_cmp_spec() -> bool {
        true
    }

    open spec fn partial_cmp_spec(&self, other: &AccountId) -> Option<Ordering> {
        if self.spec_get() < other.spec_get() {
            Some(Ordering::Less)
        } else if self.spec_get() == other.spec_get() {
            Some(Ordering::Equal)
        } else {
            Some(Ordering::Greater)
        }
    }
}

/// Error returned when a BAL lookup cannot find expected data.
#[derive(Clone, Copy, Debug, PartialEq, Eq, Structural)]
pub enum BalError {
    /// The address is not in the BAL's accounts.
    AccountNotFound { address: Address },
    /// The account id is out of range for the BAL's accounts.
    InvalidAccountId { account_id: AccountId },
    /// The account is in the BAL but the slot is not listed under it.
    SlotNotFound { address: Address, slot: Word },
}

/// A change list within an EIP-7928 account entry.
#[derive(Clone, Copy, Debug, PartialEq, Eq, Structural)]
pub enum BalChangeKind {
    /// Storage changes for one slot.
    Storage,
    /// Account balance changes.
    Balance,
    /// Account nonce changes.
    Nonce,
    /// Account code changes.
    Code,
}

impl BalChangeKind {
    /// The kind's name: `storage`, `balance`, `nonce` or `code`.
    pub fn as_str(&self) -> (r: &'static str)
        ensures
            *self == BalChangeKind::Storage ==> r@ == "storage"@,
            *self == BalChangeKind::Balance ==> r@ == "balance"@,
            *self == BalChangeKind::Nonce ==> r@ == "nonce"@,
            *self == BalChangeKind::Code ==> r@ == "code"@,
    {
        match self {
            BalChangeKind::Storage => "storage",
            BalChangeKind::Balance => "balance",
            BalChangeKind::Nonce => "nonce",
            BalChangeKind::Code => "code",
        }
    }
}

/// Error returned when decoded EIP-7928 data is not canonical.
#[derive(Clone, Copy, Debug, PartialEq, Eq, Structural)]
pub enum BalDecodeError {
    /// The same account occurs more than once.
    DuplicateAccount { address: Address },
    /// Account entries are not ordered by address.
    AccountsOutOfOrder { previous: Address, address: Address },
    /// The same storage key occurs more than once, or in both storage lists.
    DuplicateStorageKey { address: Address, slot: Word },
    /// Storage keys in one of the account's lists are not in increasing order.
    StorageKeysOutOfOrder { address: Address, previous: Word, slot: Word },
    /// A slot's change list is empty.
    EmptyStorageChanges { address: Address, slot: Word },
    /// The same block access index occurs more than once in one change list.
    DuplicateBlockAccessIndex { address: Address, kind: BalChangeKind, index: u64 },
    /// A change list is not ordered by block access index.
    ChangeIndicesOutOfOrder { address: Address, kind: BalChangeKind, previous: u64, index: u64 },
    /// A block access index does not fit in 32 bits.
    BlockAccessIndexOutOfRange { address: Address, kind: BalChangeKind, index: u64 },
    /// A block access index is past the block's post-execution index.
    BlockAccessIndexExceedsBlock { address: Address, kind: BalChangeKind, index: u64, max: u64 },
}

// ------------------------------------------------------------------------------ write histories

/// The writes are in non-decreasing index order.
pub open spec fn sorted_by_index<T>(s: Seq<(u64, T)>) -> bool {
    forall|i: int, j: int| 0 <= i < j < s.len() ==> (#[trigger] s[i]).0 <= (#[trigger] s[j]).0
}

/// The value of the last write in the longest prefix of writes whose indices are all below
/// `bal_index`.
pub open spec fn prefix_last<T>(s: Seq<(u64, T)>, bal_index: u64) -> Option<T>
    decreases s.len(),
{
    if s.len() == 0 {
        None
    } else if s[0].0 >= bal_index {
        None
    } else {
        match prefix_last(s.drop_first(), bal_index) {
            Some(v) => Some(v),
            None => Some(s[0].1),
        }
    }
}

/// `r` is the value of the latest write strictly before `bal_index` in sorted writes `s`.
pub open spec fn latest_before<T>(s: Seq<(u64, T)>, bal_index: u64, r: Option<T>) -> bool {
    match r {
        None => forall|i: int| 0 <= i < s.len() ==> (#[trigger] s[i]).0 >= bal_index,
        Some(v) => exists|i: int|
            0 <= i < s.len() && (#[trigger] s[i]).0 < bal_index && s[i].1 == v && forall|j: int|
                i < j < s.len() ==> (#[trigger] s[j]).0 >= bal_index,
    }
}

/// The item's value after its writes, given its value before them.
pub open spec fn final_value<T>(s: Seq<(u64, T)>, original: T) -> T {
    if s.len() == 0 {
        original
    } else {
        s.last().1
    }
}

/// No write repeats the value before it (the first compared with `original`).
pub open spec fn canonical<T>(s: Seq<(u64, T)>, original: T) -> bool {
    &&& s.len() > 0 ==> s[0].1 != original
    &&& forall|i: int| 0 < i < s.len() ==> (#[trigger] s[i]).1 != s[i - 1].1
}

/// Writes are strictly increasing in index.
pub open spec fn strictly_sorted_by_index<T>(s: Seq<(u64, T)>) -> bool {
    forall|i: int, j: int| 0 <= i < j < s.len() ==> (#[trigger] s[i]).0 < (#[trigger] s[j]).0
}

/// The writes after recording `value` at `index` unconditionally.
pub open spec fn spec_force_update<T>(s: Seq<(u64, T)>, index: u64, value: T) -> Seq<(u64, T)> {
    if s.len() > 0 && s.last().0 == index {
        s.update(s.len() - 1, (index, value))
    } else {
        s.push((index, value))
    }
}

/// The writes after recording `value` at `index` unless the item's value stays as it was.
pub open spec fn spec_update<T>(s: Seq<(u64, T)>, index: u64, original: T, value: T) -> Seq<(u64, T)> {
    let n = s.len();
    if n > 0 && s.last().0 != index {
        if s.last().1 != value { s.push((index, value)) } else { s }
    } else if n == 0 {
        if original != value { seq![(index, value)] } else { Seq::empty() }
    } else {
        let previous = if n >= 2 { s[n - 2].1 } else { original };
        if previous == value { s.drop_last() } else { s.update(n - 1, (index, value)) }
    }
}

/// After an update the item's value is the written value; an update keeps a history canonical,
/// and keeps it sorted when it writes at or after the last write's index.
pub proof fn law_update_reaches_value<T>(s: Seq<(u64, T)>, index: u64, original: T, value: T)
    ensures
        final_value(spec_update(s, index, original, value), original) == value,
        canonical(s, original) ==> canonical(spec_update(s, index, original, value), original),
        sorted_by_index(s) && (s.len() == 0 || s.last().0 <= index) ==> sorted_by_index(
            spec_update(s, index, original, value),
        ),
{
    let t = spec_update(s, index, original, value);
    let n = s.len();
    if canonical(s, original) {
        assert forall|i: int| 0 < i < t.len() implies (#[trigger] t[i]).1 != t[i - 1].1 by {
            if n > 0 && s.last().0 != index {
                if i < n {
                    assert(t[i] == s[i] && t[i - 1] == s[i - 1]);
                }
            } else if n > 0 {
                if i < n - 1 {
                    assert(t[i] == s[i] && t[i - 1] == s[i - 1]);
                } else if n >= 2 {
                    assert(t[i - 1] == s[n - 2]);
                }
            }
        }
        if t.len() > 0 {
            if n > 1 {
                assert(t[0] == s[0]);
            }
        }
    }
    if sorted_by_index(s) && (s.len() == 0 || s.last().0 <= index) {
        assert forall|i: int, j: int| 0 <= i < j < t.len() implies (#[trigger] t[i]).0 <= (#[trigger] t[j]).0 by {
            if n > 0 && s.last().0 != index {
                if j < n {
                    assert(t[i] == s[i] && t[j] == s[j]);
                } else {
                    assert(t[i] == s[i]);
                    assert(s[i].0 <= s[n - 1].0);
                }
            } else if n > 0 {
                if j < n - 1 {
                    assert(t[i] == s[i] && t[j] == s[j]);
                } else if j == n - 1 {
                    assert(t[i] == s[i]);
                    assert(s[i].0 <= s[n - 1].0);
                }
            }
        }
    }
}

/// The writes after recording `value` at `index`, compared through `key`, unless the item's
/// key stays as it was (the first write is compared with `original`, a key).
pub open spec fn spec_update_with_key<T, K>(
    s: Seq<(u64, T)>,
    index: u64,
    original: K,
    value: T,
    key: spec_fn(T) -> K,
) -> Seq<(u64, T)> {
    let n = s.len();
    if n > 0 && s.last().0 != index {
        if key(s.last().1) != key(value) { s.push((index, value)) } else { s }
    } else if n == 0 {
        if original != key(value) { seq![(index, value)] } else { Seq::empty() }
    } else {
        let previous = if n >= 2 { key(s[n - 2].1) } else { original };
        if previous == key(value) { s.drop_last() } else { s.update(n - 1, (index, value)) }
    }
}

/// The item's key after its writes, given its key before them.
pub open spec fn final_key<T, K>(s: Seq<(u64, T)>, original: K, key: spec_fn(T) -> K) -> K {
    if s.len() == 0 { original } else { key(s.last().1) }
}

/// No write repeats the key before it (the first compared with `original`).
pub open spec fn canonical_by<T, K>(s: Seq<(u64, T)>, original: K, key: spec_fn(T) -> K) -> bool {
    &&& s.len() > 0 ==> key(s[0].1) != original
    &&& forall|i: int| 0 < i < s.len() ==> key((#[trigger] s[i]).1) != key(s[i - 1].1)
}

/// [`spec_update`] is the update compared through the value itself.
pub proof fn lemma_update_is_identity_keyed<T>(s: Seq<(u64, T)>, index: u64, original: T, value: T)
    ensures
        spec_update(s, index, original, value) == spec_update_with_key(s, index, original, value, |t: T| t),
{
}

/// On a history strictly sorted by index whose last write is not after `index`, an update
/// compared through any key function leaves the item's key at the value's key; keeps every
/// write before `index` in place; keeps the history strictly sorted with at most its last write
/// at `index`; and keeps a history canonical by key canonical.
pub proof fn law_update_with_key<T, K>(s: Seq<(u64, T)>, index: u64, original: K, value: T, key: spec_fn(T) -> K)
    requires
        strictly_sorted_by_index(s),
        s.len() == 0 || s.last().0 <= index,
    ensures
        ({
            let t = spec_update_with_key(s, index, original, value, key);
            &&& final_key(t, original, key) == key(value)
            &&& forall|i: int| 0 <= i < s.len() && (#[trigger] s[i]).0 < index ==> i < t.len() && t[i] == s[i]
            &&& strictly_sorted_by_index(t)
            &&& forall|i: int| 0 <= i < t.len() && (#[trigger] t[i]).0 == index ==> i == t.len() - 1
            &&& canonical_by(s, original, key) ==> canonical_by(t, original, key)
        }),
{
    let t = spec_update_with_key(s, index, original, value, key);
    let n = s.len();
    if n > 0 && s.last().0 == index {
        assert forall|i: int| 0 <= i < s.len() && (#[trigger] s[i]).0 < index implies i < t.len() && t[i] == s[i] by {
            if i == n - 1 {
                assert(false);
            }
        }
        if n >= 2 {
            assert(s[n - 2].0 < s[n - 1].0);
        }
    }
    assert forall|i: int, j: int| 0 <= i < j < t.len() implies (#[trigger] t[i]).0 < (#[trigger] t[j]).0 by {
        if j < n - 1 || (j < n && !(n > 0 && s.last().0 == index)) {
            assert(t[i] == s[i] && t[j] == s[j]);
        } else if i < n {
            assert(t[i] == s[i]);
            if i < n - 1 {
                assert(s[i].0 < s[n - 1].0);
            }
        }
    }
    assert forall|i: int| 0 <= i < t.len() && (#[trigger] t[i]).0 == index implies i == t.len() - 1 by {
        if i < t.len() - 1 {
            assert(t[i].0 < t[t.len() - 1].0);
        }
    }
    if canonical_by(s, original, key) {
        assert forall|i: int| 0 < i < t.len() implies key((#[trigger] t[i]).1) != key(t[i - 1].1) by {
            if n > 0 && s.last().0 != index {
                if i < n {
                    assert(t[i] == s[i] && t[i - 1] == s[i - 1]);
                }
            } else if n > 0 {
                if i < n - 1 {
                    assert(t[i] == s[i] && t[i - 1] == s[i - 1]);
                } else if n >= 2 {
                    assert(t[i - 1] == s[n - 2]);
                }
            }
        }
        if t.len() > 0 && n > 1 {
            assert(t[0] == s[0]);
        }
    }
}

/// On a sorted history whose last write is not after `index`, a forced write at `index` is the
/// value read at every later index.
pub proof fn law_force_update_then_get<T>(s: Seq<(u64, T)>, index: u64, value: T, later: u64)
    requires
        sorted_by_index(s),
        s.len() == 0 || s.last().0 <= index,
        index < later,
    ensures
        sorted_by_index(spec_force_update(s, index, value)),
        latest_before(spec_force_update(s, index, value), later, Some(value)),
{
    let t = spec_force_update(s, index, value);
    let n = s.len();
    assert forall|i: int, j: int| 0 <= i < j < t.len() implies (#[trigger] t[i]).0 <= (#[trigger] t[j]).0 by {
        if j < n - 1 || (j < n && !(n > 0 && s.last().0 == index)) {
            assert(t[i] == s[i] && t[j] == s[j]);
        } else {
            if i < n {
                assert(t[i] == s[i]);
                assert(s[i].0 <= s[n - 1].0);
            }
        }
    }
    assert(t[t.len() - 1] == (index, value));
}

/// The list of block-indexed writes of one state item.
pub struct BalWrites<T: MapKey> {
    /// Writes by block access index.
    pub writes: Vec<(u64, T)>,
}

impl<T: MapKey> View for BalWrites<T> {
    type V = Seq<(u64, T)>;

    open spec fn view(&self) -> Seq<(u64, T)> {
        self.writes@
    }
}

/// The latest write in `s[..hi]` with index below `bal_index` can be found in `s[..hi]` as
/// `prefix_last`, and agrees with `latest_before` when `s` is sorted.
proof fn lemma_prefix_last_sorted<T>(s: Seq<(u64, T)>, bal_index: u64)
    requires
        sorted_by_index(s),
    ensures
        latest_before(s, bal_index, prefix_last(s, bal_index)),
    decreases s.len(),
{
    if s.len() == 0 {
    } else if s[0].0 >= bal_index {
        assert forall|i: int| 0 <= i < s.len() implies (#[trigger] s[i]).0 >= bal_index by {
            if i > 0 {
                assert(s[0].0 <= s[i].0);
            }
        }
    } else {
        let t = s.drop_first();
        assert(sorted_by_index(t)) by {
            assert forall|i: int, j: int| 0 <= i < j < t.len() implies (#[trigger] t[i]).0 <= (#[trigger] t[j]).0 by {
                assert(t[i] == s[i + 1]);
                assert(t[j] == s[j + 1]);
            }
        }
        lemma_prefix_last_sorted(t, bal_index);
        match prefix_last(t, bal_index) {
            Some(v) => {
                let k = choose|k: int|
                    0 <= k < t.len() && (#[trigger] t[k]).0 < bal_index && t[k].1 == v && forall|j: int|
                        k < j < t.len() ==> (#[trigger] t[j]).0 >= bal_index;
                assert(s[k + 1] == t[k]);
                assert forall|j: int| k + 1 < j < s.len() implies (#[trigger] s[j]).0 >= bal_index by {
                    assert(s[j] == t[j - 1]);
                }
            },
            None => {
                assert forall|j: int| 0 < j < s.len() implies (#[trigger] s[j]).0 >= bal_index by {
                    assert(s[j] == t[j - 1]);
                }
            },
        }
    }
}

/// At most one value is the latest write before an index.
proof fn lemma_latest_before_unique<T>(s: Seq<(u64, T)>, bal_index: u64, a: Option<T>, b: Option<T>)
    requires
        latest_before(s, bal_index, a),
        latest_before(s, bal_index, b),
    ensures
        a == b,
{
    match (a, b) {
        (Some(x), Some(y)) => {
            let i = choose|i: int|
                0 <= i < s.len() && (#[trigger] s[i]).0 < bal_index && s[i].1 == x && forall|j: int|
                    i < j < s.len() ==> (#[trigger] s[j]).0 >= bal_index;
            let k = choose|k: int|
                0 <= k < s.len() && (#[trigger] s[k]).0 < bal_index && s[k].1 == y && forall|j: int|
                    k < j < s.len() ==> (#[trigger] s[j]).0 >= bal_index;
            if i < k {
                assert(s[k].0 >= bal_index);
            } else if k < i {
                assert(s[i].0 >= bal_index);
            }
        },
        (Some(x), None) => {
            let i = choose|i: int|
                0 <= i < s.len() && (#[trigger] s[i]).0 < bal_index && s[i].1 == x && forall|j: int|
                    i < j < s.len() ==> (#[trigger] s[j]).0 >= bal_index;
            assert(s[i].0 >= bal_index);
        },
        (None, Some(y)) => {
            let k = choose|k: int|
                0 <= k < s.len() && (#[trigger] s[k]).0 < bal_index && s[k].1 == y && forall|j: int|
                    k < j < s.len() ==> (#[trigger] s[j]).0 >= bal_index;
            assert(s[k].0 >= bal_index);
        },
        (None, None) => {},
    }
}

impl<T: MapKey> BalWrites<T> {
    /// A write list sorted by block access index.
    pub fn new(writes: Vec<(u64, T)>) -> (r: BalWrites<T>)
        ensures
            sorted_by_index(r@),
            r@.to_multiset() == writes@.to_multiset(),
    {
        let mut sorted: Vec<(u64, T)> = Vec::new();
        let mut i: usize = 0;
        proof {
            assert(sorted@ =~= writes@.take(0));
        }
        while i < writes.len()
            invariant
                i <= writes@.len(),
                sorted_by_index(sorted@),
                sorted@.to_multiset() == writes@.take(i as int).to_multiset(),
            decreases writes@.len() - i,
        {
            let w = writes[i];
            insert_by_index(&mut sorted, w);
            proof {
                assert(writes@.take(i + 1) =~= writes@.take(i as int).push(w));
                vstd::seq_lib::to_multiset_build(writes@.take(i as int), w);
            }
            i += 1;
        }
        proof {
            assert(writes@.take(writes@.len() as int) =~= writes@);
        }
        BalWrites { writes: sorted }
    }

    /// The latest write before `bal_index`, by a forward scan: the last write of the longest
    /// prefix whose indices are all below `bal_index`.
    pub fn get_linear_search(&self, bal_index: u64) -> (r: Option<T>)
        ensures
            r == prefix_last(self@, bal_index),
    {
        let mut last_item: Option<T> = None;
        let mut i: usize = 0;
        proof {
            assert(self@.skip(0) =~= self@);
        }
        while i < self.writes.len()
            invariant
                i <= self@.len(),
                prefix_last(self@, bal_index) == match prefix_last(self@.skip(i as int), bal_index) {
                    Some(v) => Some(v),
                    None => last_item,
                },
                forall|k: int| 0 <= k < i ==> (#[trigger] self@[k]).0 < bal_index,
                i > 0 ==> last_item == Some(self@[i - 1].1),
                i == 0 ==> last_item is None,
            decreases self@.len() - i,
        {
            let (index, item) = self.writes[i];
            proof {
                let t = self@.skip(i as int);
                assert(t[0] == self@[i as int]);
                assert(t.drop_first() =~= self@.skip(i + 1));
            }
            if index >= bal_index {
                return last_item;
            }
            last_item = Some(item);
            i += 1;
        }
        proof {
            assert(self@.skip(i as int).len() == 0);
        }
        last_item
    }

    /// A binary search for the first position whose index is at least `bal_index`; exact on
    /// sorted writes.
    fn lower_bound(&self, bal_index: u64) -> (r: usize)
        ensures
            r <= self@.len(),
            sorted_by_index(self@) ==> forall|k: int| 0 <= k < r ==> (#[trigger] self@[k]).0 < bal_index,
            sorted_by_index(self@) ==> forall|k: int| r <= k < self@.len() ==> (#[trigger] self@[k]).0 >= bal_index,
    {
        let mut lo: usize = 0;
        let mut hi: usize = self.writes.len();
        while lo < hi
            invariant
                lo <= hi <= self@.len(),
                sorted_by_index(self@) ==> forall|k: int| 0 <= k < lo ==> (#[trigger] self@[k]).0 < bal_index,
                sorted_by_index(self@) ==> forall|k: int| hi <= k < self@.len() ==> (#[trigger] self@[k]).0 >= bal_index,
            decreases hi - lo,
        {
            let mid = lo + (hi - lo) / 2;
            if self.writes[mid].0 < bal_index {
                proof {
                    if sorted_by_index(self@) {
                        assert forall|k: int| 0 <= k <= mid implies (#[trigger] self@[k]).0 < bal_index by {
                            if k < mid {
                                assert(self@[k].0 <= self@[mid as int].0);
                            }
                        }
                    }
                }
                lo = mid + 1;
            } else {
                proof {
                    if sorted_by_index(self@) {
                        assert forall|k: int| mid <= k < self@.len() implies (#[trigger] self@[k]).0 >= bal_index by {
                            if k > mid {
                                assert(self@[mid as int].0 <= self@[k].0);
                            }
                        }
                    }
                }
                hi = mid;
            }
        }
        lo
    }

    /// The latest write before `bal_index`. Short lists are scanned; longer ones are searched.
    pub fn get(&self, bal_index: u64) -> (r: Option<T>)
        ensures
            self@.len() < 5 ==> r == prefix_last(self@, bal_index),
            sorted_by_index(self@) ==> latest_before(self@, bal_index, r),
            sorted_by_index(self@) ==> r == prefix_last(self@, bal_index),
    {
        let r = self.get_inner(bal_index);
        proof {
            if sorted_by_index(self@) {
                lemma_prefix_last_sorted(self@, bal_index);
                lemma_latest_before_unique(self@, bal_index, r, prefix_last(self@, bal_index));
            }
        }
        r
    }

    fn get_inner(&self, bal_index: u64) -> (r: Option<T>)
        ensures
            self@.len() < 5 ==> r == prefix_last(self@, bal_index),
            sorted_by_index(self@) ==> latest_before(self@, bal_index, r),
    {
        if self.writes.len() < 5 {
            let r = self.get_linear_search(bal_index);
            proof {
                if sorted_by_index(self@) {
                    lemma_prefix_last_sorted(self@, bal_index);
                }
            }
            return r;
        }
        let i = self.lower_bound(bal_index);
        if i == 0 {
            None
        } else {
            let r = self.writes[i - 1].1;
            proof {
                if sorted_by_index(self@) {
                    assert(self@[i - 1].0 < bal_index);
                }
            }
            Some(r)
        }
    }

    /// Adds the writes of `other` and sorts all writes by index.
    pub fn extend(&mut self, other: BalWrites<T>)
        ensures
            sorted_by_index(final(self)@),
            final(self)@.to_multiset() == old(self)@.to_multiset().add(other@.to_multiset()),
    {
        let mut all: Vec<(u64, T)> = Vec::new();
        std::mem::swap(&mut all, &mut self.writes);
        let mut more = other.writes;
        let ghost a = all@;
        let ghost b = more@;
        all.append(&mut more);
        proof {
            assert(all@ =~= a + b);
            vstd::seq_lib::lemma_multiset_commutative(a, b);
        }
        let sorted = BalWrites::new(all);
        self.writes = sorted.writes;
    }

    /// Whether the item has no writes.
    pub fn is_empty(&self) -> (r: bool)
        ensures
            r == (self@.len() == 0),
    {
        self.writes.len() == 0
    }

    /// Records `value` at `index` without comparing it to earlier values: a write at the same
    /// index as the last one replaces it.
    pub fn force_update(&mut self, index: u64, value: T)
        ensures
            final(self)@ == spec_force_update(old(self)@, index, value),
    {
        let n = self.writes.len();
        if n > 0 && self.writes[n - 1].0 == index {
            self.writes.set(n - 1, (index, value));
            return;
        }
        self.writes.push((index, value));
    }

    /// Records `value` at `index` unless it leaves the item's value as it was: a write at a new
    /// index is added when it differs from the last value; a write at the last write's index
    /// replaces that write, or removes it when the value goes back to the one before it (the
    /// first write is compared with `original_value`).
    pub fn update(&mut self, index: u64, original_value: &T, value: T)
        ensures
            final(self)@ == spec_update(old(self)@, index, *original_value, value),
    {
        let n = self.writes.len();
        if n > 0 && self.writes[n - 1].0 != index {
            if !self.writes[n - 1].1.key_eq(&value) {
                self.writes.push((index, value));
            }
            return;
        }
        if n == 0 {
            if !original_value.key_eq(&value) {
                self.writes.push((index, value));
                assert(self@ =~= seq![(index, value)]);
            }
            return;
        }
        let previous = if n >= 2 {
            self.writes[n - 2].1
        } else {
            *original_value
        };
        if previous.key_eq(&value) {
            self.writes.pop();
        } else {
            self.writes.set(n - 1, (index, value));
        }
    }
}

/// Inserts `w` after every write whose index is not above its own.
fn insert_by_index<T: MapKey>(v: &mut Vec<(u64, T)>, w: (u64, T))
    requires
        sorted_by_index(old(v)@),
    ensures
        sorted_by_index(final(v)@),
        final(v)@.to_multiset() == old(v)@.to_multiset().insert(w),
{
    let mut p: usize = 0;
    while p < v.len()
        invariant
            p <= v@.len(),
            v@ == old(v)@,
            forall|i: int| 0 <= i < p ==> (#[trigger] v@[i]).0 <= w.0,
        ensures
            p <= v@.len(),
            v@ == old(v)@,
            forall|i: int| 0 <= i < p ==> (#[trigger] v@[i]).0 <= w.0,
            p == v@.len() || v@[p as int].0 > w.0,
        decreases v@.len() - p,
    {
        if v[p].0 > w.0 {
            break;
        }
        p = p + 1;
    }
    let ghost s0 = v@;
    v.insert(p, w);
    proof {
        let s1 = v@;
        assert(s1 =~= s0.insert(p as int, w));
        assert forall|i: int, j: int| 0 <= i < j < s1.len() implies (#[trigger] s1[i]).0 <= (#[trigger] s1[j]).0 by {
            if j < p {
            } else if j == p {
            } else if i < p {
                assert(s1[j] == s0[j - 1]);
                assert(s0[p as int].0 <= s0[j - 1].0);
            } else if i == p {
                assert(s1[j] == s0[j - 1]);
                assert(s0[p as int].0 <= s0[j - 1].0);
            } else {
                assert(s1[i] == s0[i - 1]);
                assert(s1[j] == s0[j - 1]);
            }
        }
        vstd::seq_lib::to_multiset_insert(s0, p as int, w);
    }
}

// ------------------------------------------------------------------------------ validation

/// The first failure of `step` along `s`, where each element is checked after its predecessor.
pub open spec fn first_err<A>(s: Seq<A>, step: spec_fn(Option<A>, A) -> Result<(), BalDecodeError>) -> Result<(), BalDecodeError>
    decreases s.len(),
{
    if s.len() == 0 {
        Ok(())
    } else {
        match first_err(s.drop_last(), step) {
            Err(e) => Err(e),
            Ok(_) => step(if s.len() > 1 { Some(s[s.len() - 2]) } else { None }, s.last()),
        }
    }
}

/// Checking one more element extends the check of the prefix.
proof fn lemma_first_err_take<A>(s: Seq<A>, k: int, step: spec_fn(Option<A>, A) -> Result<(), BalDecodeError>)
    requires
        0 <= k < s.len(),
    ensures
        first_err(s.take(k + 1), step) == match first_err(s.take(k), step) {
            Err(e) => Err(e),
            Ok(_) => step(if k > 0 { Some(s[k - 1]) } else { None }, s[k]),
        },
{
    assert(s.take(k + 1).drop_last() =~= s.take(k));
}

/// A failure in a prefix is the failure of the whole sequence.
proof fn lemma_first_err_err<A>(s: Seq<A>, k: int, step: spec_fn(Option<A>, A) -> Result<(), BalDecodeError>)
    requires
        0 <= k <= s.len(),
        first_err(s.take(k), step) is Err,
    ensures
        first_err(s, step) == first_err(s.take(k), step),
    decreases s.len() - k,
{
    if k == s.len() {
        assert(s.take(k) =~= s);
    } else {
        lemma_first_err_take(s, k, step);
        lemma_first_err_err(s, k + 1, step);
    }
}

/// The check of one block access index after `previous`: it must fit in 32 bits and be above
/// `previous`.
pub open spec fn change_index_step(address: Address, kind: BalChangeKind, previous: Option<u64>, index: u64) -> Result<(), BalDecodeError> {
    if index > u32::MAX {
        Err(BalDecodeError::BlockAccessIndexOutOfRange { address, kind, index })
    } else {
        match previous {
            Some(p) => if p == index {
                Err(BalDecodeError::DuplicateBlockAccessIndex { address, kind, index })
            } else if p > index {
                Err(BalDecodeError::ChangeIndicesOutOfOrder { address, kind, previous: p, index })
            } else {
                Ok(())
            },
            None => Ok(()),
        }
    }
}

/// Checks one block access index of a change list after the previous one, which it replaces on
/// success.
pub fn check_change_index(address: Address, kind: BalChangeKind, previous: &mut Option<u64>, index: u64) -> (r: Result<(), BalDecodeError>)
    ensures
        r == change_index_step(address, kind, *old(previous), index),
        r is Ok ==> *final(previous) == Some(index),
        r is Err ==> *final(previous) == *old(previous),
{
    if index > 0xffff_ffffu64 {
        return Err(BalDecodeError::BlockAccessIndexOutOfRange { address, kind, index });
    }
    match *previous {
        Some(p) => {
            if p == index {
                return Err(BalDecodeError::DuplicateBlockAccessIndex { address, kind, index });
            }
            if p > index {
                return Err(BalDecodeError::ChangeIndicesOutOfOrder { address, kind, previous: p, index });
            }
        },
        None => {},
    }
    *previous = Some(index);
    Ok(())
}

/// The indices of a change list.
pub open spec fn change_indices<T>(changes: Seq<(u64, T)>) -> Seq<u64> {
    changes.map_values(|c: (u64, T)| c.0)
}

/// The outcome of checking a change list's indices in order.
pub open spec fn change_list_check<T>(address: Address, kind: BalChangeKind, changes: Seq<(u64, T)>) -> Result<(), BalDecodeError> {
    first_err(change_indices(changes), |p: Option<u64>, i: u64| change_index_step(address, kind, p, i))
}

/// Validates a change list: indices fit in 32 bits and strictly increase. The first failure is
/// returned; on success the list becomes a write history as it is.
pub fn checked_changes<T: MapKey>(address: Address, kind: BalChangeKind, changes: Vec<(u64, T)>) -> (r: Result<BalWrites<T>, BalDecodeError>)
    ensures
        match r {
            Ok(w) => change_list_check(address, kind, changes@) is Ok && w@ == changes@,
            Err(e) => change_list_check(address, kind, changes@) == Err::<(), BalDecodeError>(e),
        },
{
    let ghost idx = change_indices(changes@);
    let ghost step = |p: Option<u64>, i: u64| change_index_step(address, kind, p, i);
    let mut previous: Option<u64> = None;
    let mut i: usize = 0;
    proof {
        assert(idx.take(0) =~= Seq::<u64>::empty());
    }
    while i < changes.len()
        invariant
            i <= changes@.len(),
            idx == change_indices(changes@),
            idx.len() == changes@.len(),
            step == (|p: Option<u64>, j: u64| change_index_step(address, kind, p, j)),
            first_err(idx.take(i as int), step) is Ok,
            previous == if i > 0 { Some(idx[i - 1]) } else { None::<u64> },
        decreases changes@.len() - i,
    {
        let index = changes[i].0;
        proof {
            lemma_first_err_take(idx, i as int, step);
        }
        match check_change_index(address, kind, &mut previous, index) {
            Ok(()) => {},
            Err(e) => {
                proof {
                    lemma_first_err_err(idx, i + 1, step);
                }
                return Err(e);
            },
        }
        i += 1;
    }
    proof {
        assert(idx.take(idx.len() as int) =~= idx);
    }
    Ok(BalWrites { writes: changes })
}

/// The code-hash history of code changes: each change's index with the hash of its code.
pub open spec fn code_hashes(changes: Seq<(u64, Bytecode)>) -> Seq<(u64, B256)> {
    changes.map_values(|c: (u64, Bytecode)| (c.0, keccak256_spec(c.1.bytes@)))
}

/// Validates a code change list as [`checked_changes`] does; on success returns the code-hash
/// history and the bytecode of each hash.
pub fn checked_code_changes(address: Address, changes: Vec<(u64, Bytecode)>) -> (r: Result<(BalWrites<B256>, VecMap<B256, Bytecode>), BalDecodeError>)
    ensures
        match r {
            Ok((w, bytes)) => {
                &&& change_list_check(address, BalChangeKind::Code, changes@) is Ok
                &&& w@ == code_hashes(changes@)
                &&& forall|h: B256| #[trigger] bytes@.contains_key(h) <==> exists|j: int|
                    0 <= j < changes@.len() && keccak256_spec((#[trigger] changes@[j]).1.bytes@) == h
                &&& forall|h: B256| #[trigger] bytes@.contains_key(h) ==> keccak256_spec(bytes@[h].bytes@) == h
            },
            Err(e) => change_list_check(address, BalChangeKind::Code, changes@) == Err::<(), BalDecodeError>(e),
        },
{
    let ghost idx = change_indices(changes@);
    let ghost step = |p: Option<u64>, i: u64| change_index_step(address, BalChangeKind::Code, p, i);
    let mut previous: Option<u64> = None;
    let mut writes: Vec<(u64, B256)> = Vec::new();
    let mut bytes: VecMap<B256, Bytecode> = VecMap::new();
    let mut i: usize = 0;
    proof {
        assert(idx.take(0) =~= Seq::<u64>::empty());
    }
    while i < changes.len()
        invariant
            i <= changes@.len(),
            idx == change_indices(changes@),
            idx.len() == changes@.len(),
            step == (|p: Option<u64>, j: u64| change_index_step(address, BalChangeKind::Code, p, j)),
            first_err(idx.take(i as int), step) is Ok,
            previous == if i > 0 { Some(idx[i - 1]) } else { None::<u64> },
            writes@ == code_hashes(changes@.take(i as int)),
            forall|h: B256| #[trigger] bytes@.contains_key(h) <==> exists|j: int|
                0 <= j < i && keccak256_spec((#[trigger] changes@[j]).1.bytes@) == h,
            forall|h: B256| #[trigger] bytes@.contains_key(h) ==> keccak256_spec(bytes@[h].bytes@) == h,
        decreases changes@.len() - i,
    {
        let index = changes[i].0;
        proof {
            lemma_first_err_take(idx, i as int, step);
        }
        match check_change_index(address, BalChangeKind::Code, &mut previous, index) {
            Ok(()) => {},
            Err(e) => {
                proof {
                    lemma_first_err_err(idx, i + 1, step);
                }
                return Err(e);
            },
        }
        let hash = changes[i].1.hash_slow();
        writes.push((index, hash));
        bytes.insert(hash, changes[i].1.duplicate());
        proof {
            assert(changes@.take(i + 1) =~= changes@.take(i as int).push(changes@[i as int]));
            assert(writes@ =~= code_hashes(changes@.take(i + 1)));
            assert forall|h: B256| #[trigger] bytes@.contains_key(h) <==> exists|j: int|
                0 <= j < i + 1 && keccak256_spec((#[trigger] changes@[j]).1.bytes@) == h by {
                if h == hash {
                    assert(keccak256_spec(changes@[i as int].1.bytes@) == h);
                }
            }
        }
        i += 1;
    }
    proof {
        assert(idx.take(idx.len() as int) =~= idx);
        assert(changes@.take(changes@.len() as int) =~= changes@);
    }
    Ok((BalWrites { writes }, bytes))
}

/// The check of one storage key after `previous` in the same list: it must be above it.
pub open spec fn key_order_step(address: Address, previous: Option<Word>, slot: Word) -> Result<(), BalDecodeError> {
    match previous {
        Some(p) => if p == slot {
            Err(BalDecodeError::DuplicateStorageKey { address, slot })
        } else if p.val() > slot.val() {
            Err(BalDecodeError::StorageKeysOutOfOrder { address, previous: p, slot })
        } else {
            Ok(())
        },
        None => Ok(()),
    }
}

/// Checks one storage key of a list after the previous one, which it replaces on success.
pub fn check_storage_key_order(address: Address, previous: &mut Option<Word>, slot: Word) -> (r: Result<(), BalDecodeError>)
    ensures
        r == key_order_step(address, *old(previous), slot),
        r is Ok ==> *final(previous) == Some(slot),
        r is Err ==> *final(previous) == *old(previous),
{
    match *previous {
        Some(p) => {
            if p == slot {
                return Err(BalDecodeError::DuplicateStorageKey { address, slot });
            }
            if slot.lt(&p) {
                return Err(BalDecodeError::StorageKeysOutOfOrder { address, previous: p, slot });
            }
        },
        None => {},
    }
    *previous = Some(slot);
    Ok(())
}

/// The storage changes of one slot (EIP-7928 `SlotChanges`): the slot and its writes by block
/// access index.
pub struct SlotChanges {
    pub slot: Word,
    pub changes: Vec<(u64, Word)>,
}

/// The check of one slot's changes after the previous slot: key order, a non-empty change list,
/// and the list's indices.
pub open spec fn slot_step(address: Address, previous: Option<(Word, Seq<(u64, Word)>)>, s: (Word, Seq<(u64, Word)>)) -> Result<(), BalDecodeError> {
    match key_order_step(address, match previous { Some(p) => Some(p.0), None => None }, s.0) {
        Err(e) => Err(e),
        Ok(_) => if s.1.len() == 0 {
            Err(BalDecodeError::EmptyStorageChanges { address, slot: s.0 })
        } else {
            change_list_check(address, BalChangeKind::Storage, s.1)
        },
    }
}

/// The check of one read slot after the previous one: key order, and not a changed slot.
pub open spec fn read_step(address: Address, changed: Set<Word>, previous: Option<Word>, slot: Word) -> Result<(), BalDecodeError> {
    match key_order_step(address, previous, slot) {
        Err(e) => Err(e),
        Ok(_) => if changed.contains(slot) {
            Err(BalDecodeError::DuplicateStorageKey { address, slot })
        } else {
            Ok(())
        },
    }
}

/// The slots and change lists of storage changes.
pub open spec fn slot_views(changes: Seq<SlotChanges>) -> Seq<(Word, Seq<(u64, Word)>)> {
    changes.map_values(|s: SlotChanges| (s.slot, s.changes@))
}

/// The outcome of validating an account's storage changes and reads.
pub open spec fn storage_check(address: Address, changes: Seq<SlotChanges>, reads: Seq<Word>) -> Result<(), BalDecodeError> {
    match first_err(slot_views(changes), |p: Option<(Word, Seq<(u64, Word)>)>, s: (Word, Seq<(u64, Word)>)| slot_step(address, p, s)) {
        Err(e) => Err(e),
        Ok(_) => first_err(
            reads,
            |p: Option<Word>, r: Word| read_step(address, slot_views(changes).map_values(|v: (Word, Seq<(u64, Word)>)| v.0).to_set(), p, r),
        ),
    }
}

/// Storage BAL data of an account: every slot with writes or reads, and its write history.
pub struct StorageBal {
    pub storage: VecMap<Word, BalWrites<Word>>,
}

impl StorageBal {
    /// The write history of `key`, or `SlotNotFound` when the slot is not listed.
    pub fn get_bal_writes(&self, address: &Address, key: Word) -> (r: Result<&BalWrites<Word>, BalError>)
        ensures
            match r {
                Ok(w) => self.storage@.contains_key(key) && *w == self.storage@[key],
                Err(e) => !self.storage@.contains_key(key) && e == (BalError::SlotNotFound { address: *address, slot: key }),
            },
    {
        match self.storage.get(&key) {
            Some(w) => Ok(w),
            None => Err(BalError::SlotNotFound { address: *address, slot: key }),
        }
    }

    /// The latest write of `key` before `bal_index`, or `SlotNotFound` when the slot is not
    /// listed.
    pub fn get(&self, address: &Address, key: Word, bal_index: u64) -> (r: Result<Option<Word>, BalError>)
        ensures
            !self.storage@.contains_key(key) ==> r == Err::<Option<Word>, BalError>(BalError::SlotNotFound { address: *address, slot: key }),
            self.storage@.contains_key(key) ==> r is Ok,
            self.storage@.contains_key(key) && sorted_by_index(self.storage@[key]@) ==> latest_before(
                self.storage@[key]@,
                bal_index,
                r.unwrap(),
            ),
    {
        match self.get_bal_writes(address, key) {
            Ok(w) => Ok(w.get(bal_index)),
            Err(e) => Err(e),
        }
    }
}

/// A copy of a change list.
fn copy_changes(v: &Vec<(u64, Word)>) -> (r: Vec<(u64, Word)>)
    ensures
        r@ == v@,
{
    let mut r: Vec<(u64, Word)> = Vec::new();
    let mut i: usize = 0;
    while i < v.len()
        invariant
            i <= v@.len(),
            r@ == v@.take(i as int),
        decreases v@.len() - i,
    {
        r.push(v[i]);
        i += 1;
        assert(r@ =~= v@.take(i as int));
    }
    assert(r@ =~= v@);
    r
}

/// The changed slots of storage changes.
pub open spec fn changed_slots(changes: Seq<SlotChanges>) -> Set<Word> {
    slot_views(changes).map_values(|v: (Word, Seq<(u64, Word)>)| v.0).to_set()
}

/// Validates and imports an account's storage: changed slots and read slots must each be in
/// strictly increasing order, no slot may be listed twice (within or across the two lists),
/// change lists must be non-empty with valid indices. The first failure, in list order, is
/// returned; on success every changed slot maps to its writes and every read slot to no writes.
pub fn checked_storage(address: Address, storage_changes: Vec<SlotChanges>, storage_reads: Vec<Word>) -> (r: Result<StorageBal, BalDecodeError>)
    ensures
        match r {
            Ok(sb) => {
                &&& storage_check(address, storage_changes@, storage_reads@) is Ok
                &&& forall|k: Word| #[trigger] sb.storage@.contains_key(k) <==> (changed_slots(storage_changes@).contains(k)
                    || storage_reads@.contains(k))
                &&& forall|j: int| 0 <= j < storage_changes@.len() ==> sb.storage@[(#[trigger] storage_changes@[j]).slot]@
                    == storage_changes@[j].changes@
                &&& forall|j: int| 0 <= j < storage_reads@.len() ==> sb.storage@[#[trigger] storage_reads@[j]]@
                    == Seq::<(u64, Word)>::empty()
            },
            Err(e) => storage_check(address, storage_changes@, storage_reads@) == Err::<(), BalDecodeError>(e),
        },
{
    let ghost sv = slot_views(storage_changes@);
    let ghost step1 = |p: Option<(Word, Seq<(u64, Word)>)>, x: (Word, Seq<(u64, Word)>)| slot_step(address, p, x);
    let mut storage: VecMap<Word, BalWrites<Word>> = VecMap::new();
    let mut previous: Option<Word> = None;
    let mut i: usize = 0;
    proof {
        assert(sv.take(0) =~= Seq::<(Word, Seq<(u64, Word)>)>::empty());
    }
    while i < storage_changes.len()
        invariant
            i <= storage_changes@.len(),
            sv == slot_views(storage_changes@),
            sv.len() == storage_changes@.len(),
            step1 == (|p: Option<(Word, Seq<(u64, Word)>)>, x: (Word, Seq<(u64, Word)>)| slot_step(address, p, x)),
            first_err(sv.take(i as int), step1) is Ok,
            previous == if i > 0 { Some(sv[i - 1].0) } else { None::<Word> },
            forall|a: int, b: int| 0 <= a < b < i ==> (#[trigger] sv[a]).0.val() < (#[trigger] sv[b]).0.val(),
            forall|k: Word| #[trigger] storage@.contains_key(k) <==> exists|j: int| 0 <= j < i && sv[j].0 == k,
            forall|j: int| 0 <= j < i ==> storage@[(#[trigger] sv[j]).0]@ == sv[j].1,
        decreases storage_changes@.len() - i,
    {
        let slot = storage_changes[i].slot;
        proof {
            lemma_first_err_take(sv, i as int, step1);
            assert(sv[i as int] == (storage_changes@[i as int].slot, storage_changes@[i as int].changes@));
        }
        match check_storage_key_order(address, &mut previous, slot) {
            Ok(()) => {},
            Err(e) => {
                proof {
                    lemma_first_err_err(sv, i + 1, step1);
                }
                return Err(e);
            },
        }
        if storage_changes[i].changes.len() == 0 {
            proof {
                lemma_first_err_err(sv, i + 1, step1);
            }
            return Err(BalDecodeError::EmptyStorageChanges { address, slot });
        }
        let writes = copy_changes(&storage_changes[i].changes);
        let checked = checked_changes(address, BalChangeKind::Storage, writes);
        match checked {
            Ok(w) => {
                proof {
                    if i > 0 {
                        lemma_word_val_injective(sv[i - 1].0, slot);
                    }
                    assert forall|a: int| 0 <= a < i implies (#[trigger] sv[a]).0.val() < slot.val() by {
                        if a < i - 1 {
                            assert(sv[a].0.val() < sv[i - 1].0.val());
                        }
                    }
                    if storage@.contains_key(slot) {
                        let j = choose|j: int| 0 <= j < i && sv[j].0 == slot;
                        assert(sv[j].0.val() < slot.val());
                    }
                }
                let ghost before = storage@;
                storage.insert(slot, w);
                proof {
                    assert(storage@ == before.insert(slot, w));
                    assert forall|k: Word| #[trigger] storage@.contains_key(k) <==> exists|j: int| 0 <= j < i + 1 && sv[j].0 == k by {
                        if storage@.contains_key(k) && k != slot {
                            let j = choose|j: int| 0 <= j < i && sv[j].0 == k;
                            assert(0 <= j < i + 1 && sv[j].0 == k);
                        }
                        if k == slot {
                            assert(sv[i as int].0 == k);
                        }
                    }
                    assert forall|j: int| 0 <= j < i + 1 implies storage@[(#[trigger] sv[j]).0]@ == sv[j].1 by {
                        if j < i {
                            assert(sv[j].0 != slot);
                        }
                    }
                }
            },
            Err(e) => {
                proof {
                    lemma_first_err_err(sv, i + 1, step1);
                }
                return Err(e);
            },
        }
        i += 1;
    }
    proof {
        assert(sv.take(sv.len() as int) =~= sv);
    }
    let ghost changed = changed_slots(storage_changes@);
    let ghost step2 = |p: Option<Word>, x: Word| read_step(address, changed, p, x);
    proof {
        assert forall|k: Word| #[trigger] changed.contains(k) <==> exists|j: int| 0 <= j < sv.len() && sv[j].0 == k by {
            let m = sv.map_values(|v: (Word, Seq<(u64, Word)>)| v.0);
            if changed.contains(k) {
                assert(m.contains(k));
                let j = choose|j: int| 0 <= j < m.len() && m[j] == k;
                assert(sv[j].0 == k);
            }
            if exists|j: int| 0 <= j < sv.len() && sv[j].0 == k {
                let j = choose|j: int| 0 <= j < sv.len() && sv[j].0 == k;
                assert(m[j] == k);
            }
        }
        assert(storage_reads@.take(0) =~= Seq::<Word>::empty());
        assert(first_err(sv, step1) is Ok);
        let literal = |p: Option<Word>, r: Word| read_step(address, slot_views(storage_changes@).map_values(|v: (Word, Seq<(u64, Word)>)| v.0).to_set(), p, r);
        assert(step2 =~= literal);
        assert(storage_check(address, storage_changes@, storage_reads@) == first_err(storage_reads@, step2));
    }
    let mut previous: Option<Word> = None;
    let mut k: usize = 0;
    while k < storage_reads.len()
        invariant
            k <= storage_reads@.len(),
            sv == slot_views(storage_changes@),
            sv.len() == storage_changes@.len(),
            changed == changed_slots(storage_changes@),
            storage_check(address, storage_changes@, storage_reads@) == first_err(storage_reads@, step2),
            step2 == (|p: Option<Word>, x: Word| read_step(address, changed, p, x)),
            forall|c: Word| #[trigger] changed.contains(c) <==> exists|j: int| 0 <= j < sv.len() && sv[j].0 == c,
            first_err(storage_reads@.take(k as int), step2) is Ok,
            previous == if k > 0 { Some(storage_reads@[k - 1]) } else { None::<Word> },
            forall|a: int, b: int| 0 <= a < b < k ==> (#[trigger] storage_reads@[a]).val() < (#[trigger] storage_reads@[b]).val(),
            forall|a: int| 0 <= a < k ==> !changed.contains(#[trigger] storage_reads@[a]),
            forall|c: Word| #[trigger] storage@.contains_key(c) <==> (changed.contains(c) || exists|j: int| 0 <= j < k && storage_reads@[j] == c),
            forall|j: int| 0 <= j < sv.len() ==> storage@[(#[trigger] sv[j]).0]@ == sv[j].1,
            forall|j: int| 0 <= j < k ==> storage@[#[trigger] storage_reads@[j]]@ == Seq::<(u64, Word)>::empty(),
        decreases storage_reads@.len() - k,
    {
        let slot = storage_reads[k];
        proof {
            lemma_first_err_take(storage_reads@, k as int, step2);
        }
        match check_storage_key_order(address, &mut previous, slot) {
            Ok(()) => {},
            Err(e) => {
                proof {
                    lemma_first_err_err(storage_reads@, k + 1, step2);
                }
                return Err(e);
            },
        }
        proof {
            if k > 0 {
                lemma_word_val_injective(storage_reads@[k - 1], slot);
            }
            assert forall|a: int| 0 <= a < k implies (#[trigger] storage_reads@[a]).val() < slot.val() by {
                if a < k - 1 {
                    assert(storage_reads@[a].val() < storage_reads@[k - 1].val());
                }
            }
        }
        if storage.contains_key(&slot) {
            proof {
                if !changed.contains(slot) {
                    let j = choose|j: int| 0 <= j < k && storage_reads@[j] == slot;
                    assert(storage_reads@[j].val() < slot.val());
                }
                lemma_first_err_err(storage_reads@, k + 1, step2);
            }
            return Err(BalDecodeError::DuplicateStorageKey { address, slot });
        }
        proof {
            assert(!changed.contains(slot));
        }
        storage.insert(slot, BalWrites { writes: Vec::new() });
        proof {
            assert forall|c: Word| #[trigger] storage@.contains_key(c) <==> (changed.contains(c) || exists|j: int| 0 <= j < k + 1 && storage_reads@[j] == c) by {
                if c == slot {
                    assert(storage_reads@[k as int] == c);
                } else if exists|j: int| 0 <= j < k + 1 && storage_reads@[j] == c {
                    let j = choose|j: int| 0 <= j < k + 1 && storage_reads@[j] == c;
                    assert(j < k);
                }
            }
            assert forall|j: int| 0 <= j < sv.len() implies storage@[(#[trigger] sv[j]).0]@ == sv[j].1 by {
                assert(changed.contains(sv[j].0));
                assert(sv[j].0 != slot);
            }
            assert forall|j: int| 0 <= j < k + 1 implies storage@[#[trigger] storage_reads@[j]]@ == Seq::<(u64, Word)>::empty() by {
                if j < k {
                    assert(storage_reads@[j] != slot);
                }
            }
        }
        k += 1;
    }
    proof {
        assert(storage_reads@.take(storage_reads@.len() as int) =~= storage_reads@);
        assert forall|j: int| 0 <= j < storage_changes@.len() implies storage@[(#[trigger] storage_changes@[j]).slot]@
            == storage_changes@[j].changes@ by {
            assert(sv[j].0 == storage_changes@[j].slot);
        }
        assert forall|c: Word| #[trigger] storage@.contains_key(c) <==> (changed.contains(c) || storage_reads@.contains(c)) by {
            if storage_reads@.contains(c) {
                let j = choose|j: int| 0 <= j < storage_reads@.len() && storage_reads@[j] == c;
                assert(exists|j2: int| 0 <= j2 < storage_reads@.len() && storage_reads@[j2] == c);
            }
        }
    }
    Ok(StorageBal { storage })
}

} // verus!
