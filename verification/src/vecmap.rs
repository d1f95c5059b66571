//! Small association-list maps and sets with a `Map`/`Set` view.
//!
//! Keys are plain values compared structurally; each key occurs at most once, which is the
//! type invariant of [`VecMap`].

use vstd::prelude::*;
use crate::primitives::{Address, B256, Word, lemma_word_val_injective};

verus! {

/// A key that can be compared for equality in executable code.
pub trait MapKey: Copy + Sized {
    fn key_eq(&self, other: &Self) -> (r: bool)
        ensures
            r == (*self == *other),
    ;
}

impl MapKey for Address {
    fn key_eq(&self, other: &Self) -> (r: bool) {
        self.hi == other.hi && self.mid == other.mid && self.lo == other.lo
    }
}

impl MapKey for Word {
    fn key_eq(&self, other: &Self) -> (r: bool) {
        self.l0 == other.l0 && self.l1 == other.l1 && self.l2 == other.l2 && self.l3 == other.l3
    }
}

impl MapKey for B256 {
    fn key_eq(&self, other: &Self) -> (r: bool) {
        self.w0 == other.w0 && self.w1 == other.w1 && self.w2 == other.w2 && self.w3 == other.w3
    }
}

impl MapKey for u64 {
    fn key_eq(&self, other: &Self) -> (r: bool) {
        *self == *other
    }
}

/// A storage location: an account address and a slot key.
#[derive(Clone, Copy, Debug, PartialEq, Eq, Hash, Structural)]
pub struct StorageKey {
    pub address: Address,
    pub key: Word,
}

impl MapKey for StorageKey {
    fn key_eq(&self, other: &Self) -> (r: bool) {
        self.address.key_eq(&other.address) && self.key.key_eq(&other.key)
    }
}

/// Whether no key repeats in `s`.
pub open spec fn seq_unique<K, V>(s: Seq<(K, V)>) -> bool {
    forall|i: int, j: int| 0 <= i < j < s.len() ==> #[trigger] s[i].0 != #[trigger] s[j].0
}

/// Whether some pair in `s` has key `k`.
pub open spec fn seq_has<K, V>(s: Seq<(K, V)>, k: K) -> bool {
    exists|i: int| 0 <= i < s.len() && #[trigger] s[i].0 == k
}

/// A position in `s` of a pair with key `k`.
pub open spec fn seq_idx<K, V>(s: Seq<(K, V)>, k: K) -> int {
    choose|i: int| 0 <= i < s.len() && #[trigger] s[i].0 == k
}

/// The map that the pairs of `s` describe.
pub open spec fn seq_view<K, V>(s: Seq<(K, V)>) -> Map<K, V> {
    Map::new(|k: K| seq_has(s, k), |k: K| s[seq_idx(s, k)].1)
}

proof fn lemma_index_is_key<K, V>(s: Seq<(K, V)>, i: int)
    requires
        seq_unique(s),
        0 <= i < s.len(),
    ensures
        seq_view(s).contains_key(s[i].0),
        seq_view(s)[s[i].0] == s[i].1,
{
    let k = s[i].0;
    assert(seq_has(s, k));
    let j = seq_idx(s, k);
    assert(s[j].0 == k);
    if i != j {
        if i < j {
            assert(s[i].0 != s[j].0);
        } else {
            assert(s[j].0 != s[i].0);
        }
    }
}

proof fn lemma_seq_len<K, V>(s: Seq<(K, V)>)
    requires
        seq_unique(s),
    ensures
        seq_view(s).dom().finite(),
        seq_view(s).dom().len() == s.len(),
{
    let keys = s.map_values(|e: (K, V)| e.0);
    assert forall|i: int, j: int| 0 <= i < j < keys.len() implies keys[i] != keys[j] by {
        assert(s[i].0 != s[j].0);
    }
    assert(keys.no_duplicates());
    keys.unique_seq_to_set();
    assert forall|k: K| #[trigger] seq_view(s).dom().contains(k) <==> keys.to_set().contains(k) by {
        if seq_view(s).dom().contains(k) {
            let i = seq_idx(s, k);
            assert(keys[i] == k);
        }
        if keys.to_set().contains(k) {
            let i = choose|i: int| 0 <= i < keys.len() && keys[i] == k;
            assert(s[i].0 == k);
        }
    }
    assert(seq_view(s).dom() =~= keys.to_set());
}

proof fn lemma_seq_remove<K, V>(s: Seq<(K, V)>, i: int)
    requires
        seq_unique(s),
        0 <= i < s.len(),
    ensures
        seq_unique(s.remove(i)),
        seq_view(s.remove(i)) == seq_view(s).remove(s[i].0),
{
    let t = s.remove(i);
    let k = s[i].0;
    assert forall|a: int, b: int| 0 <= a < b < t.len() implies t[a].0 != t[b].0 by {
        let sa = if a < i { a } else { a + 1 };
        let sb = if b < i { b } else { b + 1 };
        assert(s[sa].0 != s[sb].0);
    }
    assert forall|kk: K| #[trigger] seq_view(t).contains_key(kk) == seq_view(s).remove(
        k,
    ).contains_key(kk) by {
        if seq_view(t).contains_key(kk) {
            let j = seq_idx(t, kk);
            let sj = if j < i { j } else { j + 1 };
            assert(s[sj].0 == kk);
            lemma_index_is_key(s, sj);
            if sj < i {
                assert(s[sj].0 != s[i].0);
            } else {
                assert(s[i].0 != s[sj].0);
            }
        }
        if seq_view(s).remove(k).contains_key(kk) {
            let j = seq_idx(s, kk);
            assert(j != i);
            if j < i {
                assert(t[j].0 == kk);
            } else {
                assert(t[j - 1].0 == kk);
            }
        }
    }
    assert forall|kk: K| #[trigger] seq_view(t).contains_key(kk) implies seq_view(t)[kk]
        == seq_view(s)[kk] by {
        let j = seq_idx(t, kk);
        lemma_index_is_key(t, j);
        if j < i {
            lemma_index_is_key(s, j);
        } else {
            lemma_index_is_key(s, j + 1);
        }
    }
    assert(seq_view(t) =~= seq_view(s).remove(k));
}

proof fn lemma_seq_push<K, V>(s: Seq<(K, V)>, k: K, v: V)
    requires
        seq_unique(s),
        !seq_view(s).contains_key(k),
    ensures
        seq_unique(s.push((k, v))),
        seq_view(s.push((k, v))) == seq_view(s).insert(k, v),
{
    let t = s.push((k, v));
    let n = s.len() as int;
    assert forall|a: int, b: int| 0 <= a < b < t.len() implies t[a].0 != t[b].0 by {
        if b == n {
            if s[a].0 == k {
                lemma_index_is_key(s, a);
            }
        } else {
            assert(s[a].0 != s[b].0);
        }
    }
    lemma_index_is_key(t, n);
    assert forall|kk: K| #[trigger] seq_view(t).contains_key(kk) == seq_view(s).insert(
        k,
        v,
    ).contains_key(kk) by {
        if seq_view(s).contains_key(kk) {
            let j = seq_idx(s, kk);
            assert(t[j].0 == kk);
        }
        if seq_view(t).contains_key(kk) && kk != k {
            let j = seq_idx(t, kk);
            assert(j != n);
            assert(s[j].0 == kk);
        }
    }
    assert forall|kk: K| #[trigger] seq_view(t).contains_key(kk) && kk != k implies seq_view(t)[kk]
        == seq_view(s)[kk] by {
        let j = seq_idx(t, kk);
        lemma_index_is_key(t, j);
        assert(j != n);
        assert(s[j].0 == kk);
        lemma_index_is_key(s, j);
    }
    assert(seq_view(t) =~= seq_view(s).insert(k, v));
}

/// A map held as a vector of key/value pairs in which no key repeats.
pub struct VecMap<K: MapKey, V> {
    entries: Vec<(K, V)>,
}

impl<K: MapKey, V> VecMap<K, V> {
    #[verifier::type_invariant]
    closed spec fn unique_keys(&self) -> bool {
        seq_unique(self.entries@)
    }

    /// The map of keys to values.
    pub closed spec fn view(&self) -> Map<K, V> {
        seq_view(self.entries@)
    }

    /// An empty map.
    pub fn new() -> (r: Self)
        ensures
            r.view() == Map::<K, V>::empty(),
    {
        let r = VecMap { entries: Vec::new() };
        assert(r.view() =~= Map::<K, V>::empty());
        r
    }

    fn find_in(entries: &Vec<(K, V)>, k: &K) -> (r: Option<usize>)
        requires
            seq_unique(entries@),
        ensures
            match r {
                Some(i) => i < entries@.len() && entries@[i as int].0 == *k,
                None => !seq_view(entries@).contains_key(*k),
            },
    {
        let mut i: usize = 0;
        while i < entries.len()
            invariant
                i <= entries@.len(),
                forall|j: int| 0 <= j < i ==> #[trigger] entries@[j].0 != *k,
            decreases entries@.len() - i,
        {
            if entries[i].0.key_eq(k) {
                return Some(i);
            }
            i += 1;
        }
        None
    }

    /// Number of entries.
    pub fn len(&self) -> (r: usize)
        ensures
            r == self.view().dom().len(),
            self.view().dom().finite(),
    {
        proof {
            use_type_invariant(self);
            lemma_seq_len(self.entries@);
        }
        self.entries.len()
    }

    /// Returns whether `k` has a value.
    pub fn contains_key(&self, k: &K) -> (r: bool)
        ensures
            r == self.view().contains_key(*k),
    {
        proof {
            use_type_invariant(self);
        }
        match Self::find_in(&self.entries, k) {
            Some(i) => {
                proof {
                    lemma_index_is_key(self.entries@, i as int);
                }
                true
            },
            None => false,
        }
    }

    /// The value of `k`, if any.
    pub fn get(&self, k: &K) -> (r: Option<&V>)
        ensures
            match r {
                Some(v) => self.view().contains_key(*k) && *v == self.view()[*k],
                None => !self.view().contains_key(*k),
            },
    {
        proof {
            use_type_invariant(self);
        }
        match Self::find_in(&self.entries, k) {
            Some(i) => {
                proof {
                    lemma_index_is_key(self.entries@, i as int);
                }
                Some(&self.entries[i].1)
            },
            None => None,
        }
    }

    /// Removes `k`, returning its value if it had one.
    pub fn remove(&mut self, k: &K) -> (r: Option<V>)
        ensures
            final(self).view() == old(self).view().remove(*k),
            match r {
                Some(v) => old(self).view().contains_key(*k) && v == old(self).view()[*k],
                None => !old(self).view().contains_key(*k),
            },
    {
        proof {
            use_type_invariant(&*self);
        }
        let mut entries: Vec<(K, V)> = Vec::new();
        std::mem::swap(&mut entries, &mut self.entries);
        let r = match Self::find_in(&entries, k) {
            Some(i) => {
                proof {
                    lemma_index_is_key(entries@, i as int);
                    lemma_seq_remove(entries@, i as int);
                }
                let (_, v) = entries.remove(i);
                Some(v)
            },
            None => {
                assert(seq_view(entries@) =~= seq_view(entries@).remove(*k));
                None
            },
        };
        self.entries = entries;
        r
    }

    /// Sets the value of `k`, returning the value it replaced.
    pub fn insert(&mut self, k: K, v: V) -> (r: Option<V>)
        ensures
            final(self).view() == old(self).view().insert(k, v),
            match r {
                Some(p) => old(self).view().contains_key(k) && p == old(self).view()[k],
                None => !old(self).view().contains_key(k),
            },
    {
        let r = self.remove(&k);
        proof {
            use_type_invariant(&*self);
        }
        let mut entries: Vec<(K, V)> = Vec::new();
        std::mem::swap(&mut entries, &mut self.entries);
        proof {
            lemma_seq_push(entries@, k, v);
        }
        entries.push((k, v));
        self.entries = entries;
        proof {
            assert(old(self).view().remove(k).insert(k, v) =~= old(self).view().insert(k, v));
        }
        r
    }

    /// Removes every entry.
    pub fn clear(&mut self)
        ensures
            final(self).view() == Map::<K, V>::empty(),
    {
        self.entries = Vec::new();
        assert(self.view() =~= Map::<K, V>::empty());
    }

    /// A copy with the same entries.
    pub fn duplicate(&self) -> (r: Self)
        where V: Copy
        ensures
            r.view() == self.view(),
    {
        proof {
            use_type_invariant(self);
        }
        let mut entries: Vec<(K, V)> = Vec::new();
        let mut i: usize = 0;
        while i < self.entries.len()
            invariant
                i <= self.entries@.len(),
                entries@ == self.entries@.take(i as int),
            decreases self.entries@.len() - i,
        {
            entries.push(self.entries[i]);
            i += 1;
            assert(entries@ =~= self.entries@.take(i as int));
        }
        assert(entries@ =~= self.entries@);
        VecMap { entries }
    }

    /// The keys, each once, in storage order.
    pub fn keys(&self) -> (r: Vec<K>)
        ensures
            r@.no_duplicates(),
            r@.to_set() == self.view().dom(),
            r@.len() == self.view().dom().len(),
    {
        proof {
            use_type_invariant(self);
            lemma_seq_len(self.entries@);
        }
        let mut r: Vec<K> = Vec::new();
        let mut i: usize = 0;
        while i < self.entries.len()
            invariant
                i <= self.entries@.len(),
                r@.len() == i,
                forall|j: int| 0 <= j < i ==> r@[j] == #[trigger] self.entries@[j].0,
            decreases self.entries@.len() - i,
        {
            r.push(self.entries[i].0);
            i += 1;
        }
        proof {
            let s = self.entries@;
            assert forall|a: int, b: int| 0 <= a < b < r@.len() implies r@[a] != r@[b] by {
                assert(s[a].0 != s[b].0);
            }
            assert forall|k: K| #[trigger] r@.to_set().contains(k) <==> self.view().dom().contains(
                k,
            ) by {
                if r@.to_set().contains(k) {
                    let j = choose|j: int| 0 <= j < r@.len() && r@[j] == k;
                    assert(s[j].0 == k);
                }
                if self.view().dom().contains(k) {
                    let j = seq_idx(s, k);
                    assert(r@[j] == k);
                }
            }
            assert(r@.to_set() =~= self.view().dom());
            r@.unique_seq_to_set();
        }
        r
    }
}

impl<K: MapKey, V> View for VecMap<K, V> {
    type V = Map<K, V>;

    open spec fn view(&self) -> Map<K, V> {
        VecMap::view(self)
    }
}

/// A set held as a [`VecMap`] with unit values.
pub struct VecSet<K: MapKey> {
    map: VecMap<K, ()>,
}

impl<K: MapKey> VecSet<K> {
    /// The members.
    pub closed spec fn view(&self) -> Set<K> {
        self.map.view().dom()
    }

    /// An empty set.
    pub fn new() -> (r: Self)
        ensures
            r.view() == Set::<K>::empty(),
    {
        let r = VecSet { map: VecMap::new() };
        assert(r.view() =~= Set::<K>::empty());
        r
    }

    /// Returns whether `k` is a member.
    pub fn contains(&self, k: &K) -> (r: bool)
        ensures
            r == self.view().contains(*k),
    {
        self.map.contains_key(k)
    }

    /// Adds `k`; returns whether it was absent before.
    pub fn insert(&mut self, k: K) -> (r: bool)
        ensures
            final(self).view() == old(self).view().insert(k),
            r == !old(self).view().contains(k),
    {
        let prev = self.map.insert(k, ());
        assert(self.view() =~= old(self).view().insert(k));
        prev.is_none()
    }

    /// Removes `k`; returns whether it was present.
    pub fn remove(&mut self, k: &K) -> (r: bool)
        ensures
            final(self).view() == old(self).view().remove(*k),
            r == old(self).view().contains(*k),
    {
        let prev = self.map.remove(k);
        assert(self.view() =~= old(self).view().remove(*k));
        prev.is_some()
    }

    /// Removes every member.
    pub fn clear(&mut self)
        ensures
            final(self).view() == Set::<K>::empty(),
    {
        self.map.clear();
        assert(self.view() =~= Set::<K>::empty());
    }

    /// Number of members.
    pub fn len(&self) -> (r: usize)
        ensures
            r == self.view().len(),
            self.view().finite(),
    {
        self.map.len()
    }

    /// A copy with the same members.
    pub fn duplicate(&self) -> (r: Self)
        ensures
            r.view() == self.view(),
    {
        VecSet { map: self.map.duplicate() }
    }

    /// The members, each once.
    pub fn elements(&self) -> (r: Vec<K>)
        ensures
            r@.no_duplicates(),
            r@.to_set() == self.view(),
            r@.len() == self.view().len(),
    {
        self.map.keys()
    }
}

impl<K: MapKey> View for VecSet<K> {
    type V = Set<K>;

    open spec fn view(&self) -> Set<K> {
        VecSet::view(self)
    }
}


/// A key with a strict total order, used to list map contents deterministically.
pub trait SortKey: MapKey {
    /// Whether `self` sorts strictly before `other`.
    spec fn spec_before(self, other: Self) -> bool;

    /// `spec_before` is irreflexive, transitive and total on distinct keys.
    proof fn lemma_strict_total_order(a: Self, b: Self, c: Self)
        ensures
            !a.spec_before(a),
            a.spec_before(b) && b.spec_before(c) ==> a.spec_before(c),
            a != b ==> a.spec_before(b) || b.spec_before(a),
    ;

    fn before(&self, other: &Self) -> (r: bool)
        ensures
            r == self.spec_before(*other),
    ;
}

impl SortKey for Address {
    open spec fn spec_before(self, other: Self) -> bool {
        self.spec_lt(other)
    }

    proof fn lemma_strict_total_order(a: Self, b: Self, c: Self) {
    }

    fn before(&self, other: &Self) -> (r: bool) {
        self.lt(other)
    }
}

impl SortKey for B256 {
    open spec fn spec_before(self, other: Self) -> bool {
        self.spec_lt(other)
    }

    proof fn lemma_strict_total_order(a: Self, b: Self, c: Self) {
    }

    fn before(&self, other: &Self) -> (r: bool) {
        self.lt(other)
    }
}

impl SortKey for Word {
    open spec fn spec_before(self, other: Self) -> bool {
        self.val() < other.val()
    }

    proof fn lemma_strict_total_order(a: Self, b: Self, c: Self) {
        lemma_word_val_injective(a, b);
    }

    fn before(&self, other: &Self) -> (r: bool) {
        self.lt(other)
    }
}

impl SortKey for StorageKey {
    /// By address, then by slot.
    open spec fn spec_before(self, other: Self) -> bool {
        ||| self.address.spec_lt(other.address)
        ||| self.address == other.address && self.key.val() < other.key.val()
    }

    proof fn lemma_strict_total_order(a: Self, b: Self, c: Self) {
        lemma_word_val_injective(a.key, b.key);
    }

    fn before(&self, other: &Self) -> (r: bool) {
        self.address.lt(&other.address) || (self.address.key_eq(&other.address) && self.key.lt(
            &other.key,
        ))
    }
}

/// The keys are in strictly increasing order.
pub open spec fn keys_sorted<K: SortKey>(s: Seq<K>) -> bool {
    forall|i: int, j: int| 0 <= i < j < s.len() ==> (#[trigger] s[i]).spec_before(#[trigger] s[j])
}

/// The keys of `s` in increasing order.
pub open spec fn sorted_listing<K: SortKey>(s: Set<K>) -> Seq<K> {
    choose|q: Seq<K>| keys_sorted(q) && q.to_set() == s
}

/// Two increasing lists of the same keys are the same list.
proof fn lemma_sorted_unique<K: SortKey>(a: Seq<K>, b: Seq<K>)
    requires
        keys_sorted(a),
        keys_sorted(b),
        a.to_set() == b.to_set(),
    ensures
        a == b,
    decreases a.len(),
{
    if a.len() == 0 {
        if b.len() > 0 {
            assert(b.to_set().contains(b[0]));
            assert(a.to_set().contains(b[0]));
        }
        assert(a =~= b);
    } else {
        assert(a.to_set().contains(a[0]));
        assert(b.to_set().contains(a[0]));
        let k = choose|k: int| 0 <= k < b.len() && b[k] == a[0];
        assert(b.to_set().contains(b[0]));
        assert(a.to_set().contains(b[0]));
        let m = choose|m: int| 0 <= m < a.len() && a[m] == b[0];
        if k > 0 {
            assert(b[0].spec_before(b[k]));
            if m > 0 {
                assert(a[0].spec_before(a[m]));
                K::lemma_strict_total_order(b[0], a[0], b[0]);
            } else {
                K::lemma_strict_total_order(b[0], b[0], b[0]);
            }
        }
        assert(a[0] == b[0]);
        let a1 = a.drop_first();
        let b1 = b.drop_first();
        assert forall|x: K| #[trigger] a1.to_set().contains(x) <==> b1.to_set().contains(x) by {
            if a1.to_set().contains(x) {
                let i = choose|i: int| 0 <= i < a1.len() && a1[i] == x;
                assert(a[i + 1] == x);
                assert(a.to_set().contains(x));
                assert(b.to_set().contains(x));
                let j = choose|j: int| 0 <= j < b.len() && b[j] == x;
                assert(a[0].spec_before(a[i + 1]));
                K::lemma_strict_total_order(x, x, x);
                assert(j != 0);
                assert(b1[j - 1] == x);
            }
            if b1.to_set().contains(x) {
                let j = choose|j: int| 0 <= j < b1.len() && b1[j] == x;
                assert(b[j + 1] == x);
                assert(b.to_set().contains(x));
                assert(a.to_set().contains(x));
                let i = choose|i: int| 0 <= i < a.len() && a[i] == x;
                assert(b[0].spec_before(b[j + 1]));
                K::lemma_strict_total_order(x, x, x);
                assert(i != 0);
                assert(a1[i - 1] == x);
            }
        }
        assert(a1.to_set() =~= b1.to_set());
        assert forall|i: int, j: int| 0 <= i < j < a1.len() implies (#[trigger] a1[i]).spec_before(#[trigger] a1[j]) by {
            assert(a1[i] == a[i + 1] && a1[j] == a[j + 1]);
        }
        assert forall|i: int, j: int| 0 <= i < j < b1.len() implies (#[trigger] b1[i]).spec_before(#[trigger] b1[j]) by {
            assert(b1[i] == b[i + 1] && b1[j] == b[j + 1]);
        }
        lemma_sorted_unique(a1, b1);
        assert(a =~= b) by {
            assert forall|i: int| 0 <= i < a.len() implies a[i] == b[i] by {
                if i > 0 {
                    assert(a[i] == a1[i - 1] && b[i] == b1[i - 1]);
                }
            }
        }
    }
}

/// An increasing list is the sorted listing of its keys.
pub proof fn lemma_sorted_listing<K: SortKey>(q: Seq<K>)
    requires
        keys_sorted(q),
    ensures
        sorted_listing(q.to_set()) == q,
{
    let c = sorted_listing(q.to_set());
    assert(keys_sorted(c) && c.to_set() == q.to_set());
    lemma_sorted_unique(c, q);
}

/// Inserts `x` at its place in a sorted list that does not hold it.
fn insert_in_order<K: SortKey>(v: &mut Vec<K>, x: K)
    requires
        keys_sorted(old(v)@),
        !old(v)@.contains(x),
    ensures
        keys_sorted(final(v)@),
        final(v)@.len() == old(v)@.len() + 1,
        final(v)@.to_set() == old(v)@.to_set().insert(x),
{
    let mut p: usize = 0;
    while p < v.len()
        invariant
            p <= v@.len(),
            v@ == old(v)@,
            forall|i: int| 0 <= i < p ==> (#[trigger] v@[i]).spec_before(x),
        ensures
            p <= v@.len(),
            v@ == old(v)@,
            forall|i: int| 0 <= i < p ==> (#[trigger] v@[i]).spec_before(x),
            p == v@.len() || !v@[p as int].spec_before(x),
        decreases v@.len() - p,
    {
        if !v[p].before(&x) {
            break;
        }
        p = p + 1;
    }
    let ghost s0 = v@;
    proof {
        assert forall|j: int| p <= j < s0.len() implies x.spec_before(#[trigger] s0[j]) by {
            assert(s0[p as int] != x);
            K::lemma_strict_total_order(s0[p as int], x, s0[j]);
            K::lemma_strict_total_order(x, s0[p as int], s0[j]);
            if j == p {
            } else {
                assert(s0[p as int].spec_before(s0[j]));
            }
        }
    }
    v.insert(p, x);
    proof {
        let s1 = v@;
        assert(s1 =~= s0.insert(p as int, x));
        assert forall|i: int, j: int| 0 <= i < j < s1.len() implies (#[trigger] s1[i]).spec_before(
            #[trigger] s1[j],
        ) by {
            if j < p {
            } else if j == p {
            } else if i < p {
                assert(s1[j] == s0[j - 1]);
                K::lemma_strict_total_order(s0[i], x, s0[j - 1]);
            } else if i == p {
                assert(s1[j] == s0[j - 1]);
            } else {
                assert(s1[i] == s0[i - 1]);
                assert(s1[j] == s0[j - 1]);
            }
        }
        assert forall|e: K| #[trigger] s1.to_set().contains(e) <==> s0.to_set().insert(x).contains(e) by {
            if s1.contains(e) {
                let k = choose|k: int| 0 <= k < s1.len() && s1[k] == e;
                if k < p {
                    assert(s0[k] == e);
                } else if k > p {
                    assert(s0[k - 1] == e);
                }
            }
            if s0.contains(e) {
                let k = choose|k: int| 0 <= k < s0.len() && s0[k] == e;
                if k < p {
                    assert(s1[k] == e);
                } else {
                    assert(s1[k + 1] == e);
                }
            }
            if e == x {
                assert(s1[p as int] == e);
            }
        }
        assert(s1.to_set() =~= s0.to_set().insert(x));
    }
}

/// A strictly sorted list holds no key twice.
proof fn lemma_sorted_no_duplicates<K: SortKey>(s: Seq<K>)
    requires
        keys_sorted(s),
    ensures
        s.no_duplicates(),
{
    assert forall|i: int, j: int| 0 <= i < s.len() && 0 <= j < s.len() && i != j implies s[i] != s[j] by {
        K::lemma_strict_total_order(s[i], s[j], s[i]);
        if i < j {
            assert(s[i].spec_before(s[j]));
        } else {
            assert(s[j].spec_before(s[i]));
        }
    }
}

/// The keys of `keys`, in strictly increasing order.
fn sort_keys<K: SortKey>(keys: &Vec<K>) -> (r: Vec<K>)
    requires
        keys@.no_duplicates(),
    ensures
        keys_sorted(r@),
        r@.no_duplicates(),
        r@.to_set() == keys@.to_set(),
        r@.len() == keys@.len(),
{
    let mut r: Vec<K> = Vec::new();
    let mut i: usize = 0;
    while i < keys.len()
        invariant
            i <= keys@.len(),
            keys@.no_duplicates(),
            keys_sorted(r@),
            r@.len() == i,
            r@.to_set() == keys@.take(i as int).to_set(),
        decreases keys@.len() - i,
    {
        let k = keys[i];
        proof {
            if r@.contains(k) {
                assert(r@.to_set().contains(k));
                assert(keys@.take(i as int).contains(k));
                let m = choose|m: int| 0 <= m < i && keys@.take(i as int)[m] == k;
                assert(keys@[m] == keys@[i as int]);
            }
        }
        insert_in_order(&mut r, k);
        proof {
            assert(keys@.take(i + 1) =~= keys@.take(i as int).push(k));
            keys@.take(i as int).lemma_push_to_set_commute(k);
        }
        i += 1;
    }
    proof {
        assert(keys@.take(keys@.len() as int) =~= keys@);
        lemma_sorted_no_duplicates(r@);
    }
    r
}

impl<K: SortKey, V> VecMap<K, V> {
    /// The keys in strictly increasing order.
    pub fn sorted_keys(&self) -> (r: Vec<K>)
        ensures
            keys_sorted(r@),
            r@.no_duplicates(),
            r@.to_set() == self.view().dom(),
            r@.len() == self.view().dom().len(),
    {
        let keys = self.keys();
        sort_keys(&keys)
    }
}

impl<K: SortKey, V: Copy> VecMap<K, V> {
    /// The entries in strictly increasing key order.
    pub fn sorted_entries(&self) -> (r: Vec<(K, V)>)
        ensures
            r@.len() == self.view().dom().len(),
            forall|i: int, j: int|
                0 <= i < j < r@.len() ==> (#[trigger] r@[i]).0.spec_before((#[trigger] r@[j]).0),
            forall|i: int|
                0 <= i < r@.len() ==> self.view().contains_key((#[trigger] r@[i]).0)
                    && self.view()[r@[i].0] == r@[i].1,
            forall|k: K|
                self.view().contains_key(k) ==> exists|i: int| 0 <= i < r@.len() && (#[trigger] r@[i]).0 == k,
    {
        let keys = self.sorted_keys();
        let mut r: Vec<(K, V)> = Vec::new();
        let mut i: usize = 0;
        while i < keys.len()
            invariant
                i <= keys@.len(),
                keys_sorted(keys@),
                keys@.to_set() == self.view().dom(),
                r@.len() == i,
                forall|m: int| 0 <= m < i ==> (#[trigger] r@[m]).0 == keys@[m] && self.view()[keys@[m]] == r@[m].1,
            decreases keys@.len() - i,
        {
            let k = keys[i];
            proof {
                assert(keys@.to_set().contains(k));
            }
            match self.get(&k) {
                Some(v) => {
                    r.push((k, *v));
                },
                None => {
                    proof {
                        assert(false);
                    }
                },
            }
            i += 1;
        }
        proof {
            assert forall|m: int| 0 <= m < r@.len() implies self.view().contains_key((#[trigger] r@[m]).0) by {
                assert(keys@.to_set().contains(keys@[m]));
            }
            assert forall|k: K| self.view().contains_key(k) implies exists|m: int| 0 <= m < r@.len() && (#[trigger] r@[m]).0 == k by {
                assert(keys@.to_set().contains(k));
                let m = choose|m: int| 0 <= m < keys@.len() && keys@[m] == k;
                assert(r@[m].0 == k);
            }
        }
        r
    }
}

impl<K: SortKey> VecSet<K> {
    /// The members in strictly increasing order.
    pub fn sorted_elements(&self) -> (r: Vec<K>)
        ensures
            keys_sorted(r@),
            r@.no_duplicates(),
            r@.to_set() == self.view(),
            r@.len() == self.view().len(),
    {
        let elements = self.elements();
        sort_keys(&elements)
    }
}

} // verus!
