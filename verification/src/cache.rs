//! Memo of property answers keyed by the state they were asked for, with
//! least-recently-used eviction.
use vstd::prelude::*;
use crate::props::{Prop, StateVar};

verus! {

broadcast use vstd::string::group_string_axioms;

/// One input of a query: the state variable and the bit pattern of its
/// value.
#[derive(Debug, Clone, Copy, PartialEq, Eq, Hash, Structural)]
pub struct KeyInput {
    pub var: StateVar,
    pub value_bits: u64,
}

/// A query reduced to what identifies it: the fluid, the output property
/// and the two inputs in canonical order, so that swapping the inputs gives
/// the same key.
#[derive(Debug, Clone, PartialEq, Eq, Hash)]
pub struct CacheKey {
    pub fluid: String,
    pub out: Prop,
    pub in_low: KeyInput,
    pub in_high: KeyInput,
}

pub struct SpecCacheKey {
    pub fluid: Seq<char>,
    pub out: Prop,
    pub in_low: KeyInput,
    pub in_high: KeyInput,
}

impl View for CacheKey {
    type V = SpecCacheKey;

    open spec fn view(&self) -> SpecCacheKey {
        SpecCacheKey { fluid: self.fluid@, out: self.out, in_low: self.in_low, in_high: self.in_high }
    }
}

pub open spec fn var_rank(v: StateVar) -> int {
    match v {
        StateVar::T => 0,
        StateVar::P => 1,
        StateVar::H => 2,
        StateVar::S => 3,
        StateVar::D => 4,
    }
}

/// Inputs ordered by state variable (T, P, H, S, D), then by value bits.
pub open spec fn input_le(a: KeyInput, b: KeyInput) -> bool {
    var_rank(a.var) < var_rank(b.var) || (var_rank(a.var) == var_rank(b.var) && a.value_bits
        <= b.value_bits)
}

pub open spec fn cache_key_spec(fluid: Seq<char>, out: Prop, in1: KeyInput, in2: KeyInput) -> SpecCacheKey {
    if input_le(in1, in2) {
        SpecCacheKey { fluid, out, in_low: in1, in_high: in2 }
    } else {
        SpecCacheKey { fluid, out, in_low: in2, in_high: in1 }
    }
}

fn rank(v: StateVar) -> (r: u8)
    ensures
        r == var_rank(v),
{
    match v {
        StateVar::T => 0,
        StateVar::P => 1,
        StateVar::H => 2,
        StateVar::S => 3,
        StateVar::D => 4,
    }
}

pub fn input_less_or_equal(a: KeyInput, b: KeyInput) -> (r: bool)
    ensures
        r == input_le(a, b),
{
    let ra = rank(a.var);
    let rb = rank(b.var);
    ra < rb || (ra == rb && a.value_bits <= b.value_bits)
}

impl CacheKey {
    /// The key of a query for `out` of `fluid` at the inputs `in1`, `in2`.
    pub fn new(fluid: String, out: Prop, in1: KeyInput, in2: KeyInput) -> (k: Self)
        ensures
            k@ == cache_key_spec(fluid@, out, in1, in2),
    {
        if input_less_or_equal(in1, in2) {
            CacheKey { fluid, out, in_low: in1, in_high: in2 }
        } else {
            CacheKey { fluid, out, in_low: in2, in_high: in1 }
        }
    }

    pub fn same_as(&self, other: &CacheKey) -> (b: bool)
        ensures
            b == (self@ == other@),
    {
        self.fluid == other.fluid && self.out == other.out && self.in_low == other.in_low
            && self.in_high == other.in_high
    }
}

/// Whether `k` is the key of some entry.
pub open spec fn has_key<V>(s: Seq<(SpecCacheKey, V)>, k: SpecCacheKey) -> bool {
    exists|i: int| 0 <= i < s.len() && #[trigger] s[i].0 == k
}

pub open spec fn keys_distinct<V>(s: Seq<(SpecCacheKey, V)>) -> bool {
    forall|i: int, j: int| 0 <= i < s.len() && 0 <= j < s.len() && i != j ==> #[trigger] s[i].0
        != #[trigger] s[j].0
}

/// Memoized answers, least recently used first.
#[derive(Debug)]
pub struct QueryCache<V> {
    entries: Vec<(CacheKey, V)>,
    capacity: usize,
}

pub open spec fn entries_view<V>(es: Seq<(CacheKey, V)>) -> Seq<(SpecCacheKey, V)> {
    es.map_values(|e: (CacheKey, V)| (e.0@, e.1))
}

impl<V: Copy> QueryCache<V> {
    /// The entries, least recently used first.
    pub closed spec fn view(&self) -> Seq<(SpecCacheKey, V)> {
        entries_view(self.entries@)
    }

    pub closed spec fn capacity_spec(&self) -> nat {
        self.capacity as nat
    }

    /// Never more entries than the capacity, and no key twice.
    pub closed spec fn wf(&self) -> bool {
        &&& self.entries.len() <= self.capacity
        &&& keys_distinct(self.view())
    }

    pub fn new(capacity: usize) -> (c: Self)
        ensures
            c.wf(),
            c.view() == Seq::<(SpecCacheKey, V)>::empty(),
            c.capacity_spec() == capacity,
    {
        let c = QueryCache { entries: Vec::new(), capacity };
        assert(c.view() =~= Seq::<(SpecCacheKey, V)>::empty());
        c
    }

    fn position(&self, key: &CacheKey) -> (r: Option<usize>)
        ensures
            r matches Some(i) ==> i < self.entries.len() && self.view()[i as int].0 == key@,
            r is None ==> !has_key(self.view(), key@),
    {
        let mut i: usize = 0;
        while i < self.entries.len()
            invariant
                i <= self.entries.len(),
                forall|j: int| 0 <= j < i ==> self.view()[j].0 != key@,
            decreases self.entries.len() - i,
        {
            if self.entries[i].0.same_as(key) {
                return Some(i);
            }
            i = i + 1;
        }
        None
    }

    /// The answer memoized for `key`, which then counts as the most
    /// recently used.
    pub fn get(&mut self, key: &CacheKey) -> (r: Option<V>)
        requires
            old(self).wf(),
        ensures
            final(self).wf(),
            final(self).capacity_spec() == old(self).capacity_spec(),
            cache_get(old(self).view(), key@) == (r, final(self).view()),
    {
        match self.position(key) {
            None => {
                proof {
                    lemma_lookup_none(self.view(), key@);
                }
                None
            },
            Some(i) => {
                let ghost s = self.view();
                let entry = self.entries.remove(i);
                let value = entry.1;
                self.entries.push(entry);
                proof {
                    lemma_lookup_some(s, i as int, key@);
                    assert(self.view() =~= s.remove(i as int).push(s[i as int]));
                    lemma_move_to_back_distinct(s, i as int);
                }
                Some(value)
            },
        }
    }

    /// Memoizes `value` for `key` as the most recently used answer,
    /// evicting the least recently used one when the cache is full.
    pub fn insert(&mut self, key: CacheKey, value: V)
        requires
            old(self).wf(),
        ensures
            final(self).wf(),
            final(self).capacity_spec() == old(self).capacity_spec(),
            final(self).view() == cache_insert(
                old(self).view(),
                old(self).capacity_spec(),
                key@,
                value,
            ),
    {
        if self.capacity == 0 {
            return;
        }
        let ghost s = self.view();
        let ghost k = key@;
        match self.position(&key) {
            Some(i) => {
                proof {
                    lemma_lookup_some(s, i as int, k);
                }
                self.entries.remove(i);
                self.entries.push((key, value));
                proof {
                    assert(self.view() =~= s.remove(i as int).push((k, value)));
                    lemma_replace_at_back_distinct(s, i as int, value);
                }
            },
            None => {
                proof {
                    lemma_lookup_none(s, k);
                }
                self.entries.push((key, value));
                assert(self.view() =~= s.push((k, value)));
                proof {
                    lemma_push_distinct(s, k, value);
                }
                if self.entries.len() > self.capacity {
                    self.entries.remove(0);
                    assert(self.view() =~= s.push((k, value)).drop_first());
                    proof {
                        lemma_drop_first_distinct(s.push((k, value)));
                    }
                }
            },
        }
    }
}

/// The index of the entry with key `k`, if any.
pub open spec fn lookup<V>(s: Seq<(SpecCacheKey, V)>, k: SpecCacheKey) -> Option<int> {
    if has_key(s, k) {
        Some(choose|i: int| 0 <= i < s.len() && #[trigger] s[i].0 == k)
    } else {
        None
    }
}

/// Looking up `k`: its value, with its entry moved to the back; or nothing,
/// with the entries unchanged.
pub open spec fn cache_get<V>(s: Seq<(SpecCacheKey, V)>, k: SpecCacheKey) -> (Option<V>, Seq<(SpecCacheKey, V)>) {
    match lookup(s, k) {
        Some(i) => (Some(s[i].1), s.remove(i).push(s[i])),
        None => (None, s),
    }
}

/// Storing `v` under `k`: nothing with capacity zero; the entry for `k`
/// replaced and moved to the back; or a new entry at the back, the front
/// one evicted when the capacity is exceeded.
pub open spec fn cache_insert<V>(
    s: Seq<(SpecCacheKey, V)>,
    capacity: nat,
    k: SpecCacheKey,
    v: V,
) -> Seq<(SpecCacheKey, V)> {
    if capacity == 0 {
        s
    } else {
        match lookup(s, k) {
            Some(i) => s.remove(i).push((k, v)),
            None => if s.len() + 1 > capacity {
                s.push((k, v)).drop_first()
            } else {
                s.push((k, v))
            },
        }
    }
}

proof fn lemma_lookup_some<V>(s: Seq<(SpecCacheKey, V)>, i: int, k: SpecCacheKey)
    requires
        keys_distinct(s),
        0 <= i < s.len(),
        s[i].0 == k,
    ensures
        lookup(s, k) == Some(i),
{
    assert(has_key(s, k));
    let j = choose|j: int| 0 <= j < s.len() && #[trigger] s[j].0 == k;
    assert(j == i);
}

proof fn lemma_lookup_none<V>(s: Seq<(SpecCacheKey, V)>, k: SpecCacheKey)
    requires
        !has_key(s, k),
    ensures
        lookup(s, k) is None,
{
}

proof fn lemma_move_to_back_distinct<V>(s: Seq<(SpecCacheKey, V)>, i: int)
    requires
        keys_distinct(s),
        0 <= i < s.len(),
    ensures
        keys_distinct(s.remove(i).push(s[i])),
{
    let t = s.remove(i).push(s[i]);
    assert forall|a: int, b: int| 0 <= a < t.len() && 0 <= b < t.len() && a != b implies #[trigger] t[a].0
        != #[trigger] t[b].0 by {
        let ia = if a == t.len() - 1 { i } else if a < i { a } else { a + 1 };
        let ib = if b == t.len() - 1 { i } else if b < i { b } else { b + 1 };
        assert(t[a] == s[ia]);
        assert(t[b] == s[ib]);
    }
}

proof fn lemma_replace_at_back_distinct<V>(s: Seq<(SpecCacheKey, V)>, i: int, v: V)
    requires
        keys_distinct(s),
        0 <= i < s.len(),
    ensures
        keys_distinct(s.remove(i).push((s[i].0, v))),
{
    let t = s.remove(i).push((s[i].0, v));
    assert forall|a: int, b: int| 0 <= a < t.len() && 0 <= b < t.len() && a != b implies #[trigger] t[a].0
        != #[trigger] t[b].0 by {
        let ia = if a == t.len() - 1 { i } else if a < i { a } else { a + 1 };
        let ib = if b == t.len() - 1 { i } else if b < i { b } else { b + 1 };
        assert(t[a].0 == s[ia].0);
        assert(t[b].0 == s[ib].0);
    }
}

proof fn lemma_push_distinct<V>(s: Seq<(SpecCacheKey, V)>, k: SpecCacheKey, v: V)
    requires
        keys_distinct(s),
        !has_key(s, k),
    ensures
        keys_distinct(s.push((k, v))),
{
    let t = s.push((k, v));
    assert forall|a: int, b: int| 0 <= a < t.len() && 0 <= b < t.len() && a != b implies #[trigger] t[a].0
        != #[trigger] t[b].0 by {
        if a < s.len() && b < s.len() {
            assert(t[a] == s[a] && t[b] == s[b]);
        } else if a < s.len() {
            assert(t[a] == s[a]);
        } else {
            assert(t[b] == s[b]);
        }
    }
}

proof fn lemma_drop_first_distinct<V>(s: Seq<(SpecCacheKey, V)>)
    requires
        keys_distinct(s),
        s.len() > 0,
    ensures
        keys_distinct(s.drop_first()),
{
    let t = s.drop_first();
    assert forall|a: int, b: int| 0 <= a < t.len() && 0 <= b < t.len() && a != b implies #[trigger] t[a].0
        != #[trigger] t[b].0 by {
        assert(t[a] == s[a + 1] && t[b] == s[b + 1]);
    }
}

} // verus!

verus! {

// ---------------------------------------------------------------------------
// Laws of the memo
// ---------------------------------------------------------------------------

/// A query's key does not depend on the order of its two inputs: (T, P) and
/// (P, T) are the same state.
pub proof fn lemma_key_ignores_input_order(fluid: Seq<char>, out: Prop, a: KeyInput, b: KeyInput)
    ensures
        cache_key_spec(fluid, out, a, b) == cache_key_spec(fluid, out, b, a),
{
    if input_le(a, b) && input_le(b, a) {
        assert(var_rank(a.var) == var_rank(b.var));
        assert(a.var == b.var);
        assert(a == b);
    }
}

/// Storing keeps the entries within the capacity and their keys distinct.
pub proof fn lemma_insert_keeps_invariant<V>(s: Seq<(SpecCacheKey, V)>, capacity: nat, k: SpecCacheKey, v: V)
    requires
        s.len() <= capacity,
        keys_distinct(s),
    ensures
        cache_insert(s, capacity, k, v).len() <= capacity,
        keys_distinct(cache_insert(s, capacity, k, v)),
{
    if capacity > 0 {
        match lookup(s, k) {
            Some(i) => {
                assert(s[i].0 == k);
                lemma_replace_at_back_distinct(s, i, v);
            },
            None => {
                assert(!has_key(s, k));
                lemma_push_distinct(s, k, v);
                if s.len() + 1 > capacity {
                    lemma_drop_first_distinct(s.push((k, v)));
                }
            },
        }
    }
}

/// What was stored is what is found: right after storing `v` under `k` in a
/// memo of positive capacity, looking up `k` gives `v`.
pub proof fn lemma_get_after_insert<V>(s: Seq<(SpecCacheKey, V)>, capacity: nat, k: SpecCacheKey, v: V)
    requires
        capacity > 0,
        s.len() <= capacity,
        keys_distinct(s),
    ensures
        cache_get(cache_insert(s, capacity, k, v), k).0 == Some(v),
{
    lemma_insert_keeps_invariant(s, capacity, k, v);
    let t = cache_insert(s, capacity, k, v);
    assert(t.len() > 0 && t.last() == (k, v)) by {
        match lookup(s, k) {
            Some(i) => {},
            None => {
                if s.len() + 1 > capacity {
                    assert(s.push((k, v)).drop_first().last() == (k, v));
                }
            },
        }
    }
    lemma_lookup_some(t, t.len() - 1, k);
}

/// A full memo that stores a new key evicts exactly its least recently used
/// entry, the first.
pub proof fn lemma_insert_evicts_least_recent<V>(s: Seq<(SpecCacheKey, V)>, capacity: nat, k: SpecCacheKey, v: V)
    requires
        capacity > 0,
        s.len() == capacity,
        !has_key(s, k),
    ensures
        cache_insert(s, capacity, k, v) == s.drop_first().push((k, v)),
{
    lemma_lookup_none(s, k);
    assert(s.push((k, v)).drop_first() =~= s.drop_first().push((k, v)));
}

/// Looking up a key that is not stored changes nothing.
pub proof fn lemma_get_miss_changes_nothing<V>(s: Seq<(SpecCacheKey, V)>, k: SpecCacheKey)
    requires
        !has_key(s, k),
    ensures
        cache_get(s, k) == (None::<V>, s),
{
}

} // verus!
