//! A small map keyed by names, in which a later binding replaces an
//! earlier one.
use vstd::prelude::*;

verus! {

broadcast use vstd::string::group_string_axioms;

/// Bindings from names to values.
pub struct NameMap<V> {
    entries: Vec<(String, V)>,
}

/// The value bound to `key` by the first entry that names it.
pub open spec fn first_binding<V>(entries: Seq<(String, V)>, key: Seq<char>) -> Option<V>
    decreases entries.len(),
{
    if entries.len() == 0 {
        None
    } else if entries[0].0@ == key {
        Some(entries[0].1)
    } else {
        first_binding(entries.drop_first(), key)
    }
}

pub proof fn lemma_first_binding_index<V>(entries: Seq<(String, V)>, key: Seq<char>)
    ensures
        first_binding(entries, key) is Some <==> exists|i: int|
            0 <= i < entries.len() && #[trigger] entries[i].0@ == key,
        first_binding(entries, key) is None ==> forall|i: int|
            0 <= i < entries.len() ==> #[trigger] entries[i].0@ != key,
    decreases entries.len(),
{
    if entries.len() > 0 {
        lemma_first_binding_index(entries.drop_first(), key);
        if entries[0].0@ != key {
            assert forall|i: int| 0 < i < entries.len() implies (#[trigger] entries[i].0@ == key
                <==> entries.drop_first()[i - 1].0@ == key) by {}
            if first_binding(entries, key) is Some {
                let j = choose|j: int|
                    0 <= j < entries.drop_first().len() && #[trigger] entries.drop_first()[j].0@
                        == key;
                assert(entries[j + 1].0@ == key);
            }
        }
    }
}

impl<V> NameMap<V> {
    pub closed spec fn lookup(&self, key: Seq<char>) -> Option<V> {
        first_binding(self.entries@, key)
    }

    /// The bindings as a map.
    pub closed spec fn view(&self) -> Map<Seq<char>, V> {
        Map::new(|k: Seq<char>| self.lookup(k) is Some, |k: Seq<char>| self.lookup(k).unwrap())
    }

    pub fn new() -> (m: Self)
        ensures
            m.view() == Map::<Seq<char>, V>::empty(),
    {
        let m = NameMap { entries: Vec::new() };
        assert(m.view() =~= Map::<Seq<char>, V>::empty());
        m
    }

    /// The value bound to `key`.
    pub fn get(&self, key: &String) -> (r: Option<&V>)
        ensures
            r matches Some(v) ==> self.view().contains_key(key@) && self.view()[key@] == *v,
            r is None ==> !self.view().contains_key(key@),
    {
        let mut i: usize = 0;
        assert(self.entries@.skip(0) =~= self.entries@);
        while i < self.entries.len()
            invariant
                i <= self.entries.len(),
                first_binding(self.entries@.skip(i as int), key@) == first_binding(
                    self.entries@,
                    key@,
                ),
            decreases self.entries.len() - i,
        {
            if self.entries[i].0 == *key {
                return Some(&self.entries[i].1);
            }
            assert(self.entries@.skip(i as int).drop_first() =~= self.entries@.skip(i + 1));
            i = i + 1;
        }
        None
    }

    /// Binds `key` to `value`, replacing an earlier binding.
    pub fn insert(&mut self, key: String, value: V)
        ensures
            final(self).view() == old(self).view().insert(key@, value),
    {
        let ghost old_entries = self.entries@;
        let mut i: usize = 0;
        assert(self.entries@.skip(0) =~= self.entries@);
        while i < self.entries.len()
            invariant
                i <= self.entries.len(),
                self.entries@ == old_entries,
                old_entries == old(self).entries@,
                forall|j: int| 0 <= j < i ==> #[trigger] old_entries[j].0@ != key@,
            decreases self.entries.len() - i,
        {
            if self.entries[i].0 == key {
                let ghost target = i as int;
                let ghost k = key;
                self.entries.set(i, (key, value));
                proof {
                    lemma_replace_first(old_entries, target, k, value);
                }
                assert(self.entries@ == old_entries.update(target, (k, value)));
                assert(self.view() =~= old(self).view().insert(k@, value));
                return;
            }
            i = i + 1;
        }
        self.entries.push((key, value));
        proof {
            lemma_push_new(old_entries, self.entries@.last(), value);
        }
        assert(self.view() =~= old(self).view().insert(self.entries@.last().0@, value));
    }
}

proof fn lemma_replace_first<V>(entries: Seq<(String, V)>, i: int, new_key: String, value: V)
    requires
        0 <= i < entries.len(),
        new_key@ == entries[i].0@,
        forall|j: int| 0 <= j < i ==> #[trigger] entries[j].0@ != entries[i].0@,
    ensures
        forall|k: Seq<char>| #[trigger] first_binding(entries.update(i, (new_key, value)), k) == if k
            == entries[i].0@ {
            Some(value)
        } else {
            first_binding(entries, k)
        },
    decreases i,
{
    let n = entries.update(i, (new_key, value));
    if i == 0 {
        assert(n.drop_first() =~= entries.drop_first());
        assert forall|k: Seq<char>| #[trigger] first_binding(n, k) == if k == entries[i].0@ {
            Some(value)
        } else {
            first_binding(entries, k)
        } by {
            assert(n[0] == (new_key, value));
        }
    } else {
        lemma_replace_first(entries.drop_first(), i - 1, new_key, value);
        assert(n.drop_first() =~= entries.drop_first().update(i - 1, (new_key, value)));
        assert(entries.drop_first()[i - 1] == entries[i]);
        assert forall|k: Seq<char>| #[trigger] first_binding(n, k) == if k == entries[i].0@ {
            Some(value)
        } else {
            first_binding(entries, k)
        } by {
            assert(n[0] == entries[0]);
            assert(first_binding(entries.drop_first().update(i - 1, (new_key, value)), k)
                == if k == entries[i].0@ {
                Some(value)
            } else {
                first_binding(entries.drop_first(), k)
            });
        }
    }
}

proof fn lemma_push_new<V>(entries: Seq<(String, V)>, e: (String, V), value: V)
    requires
        e.1 == value,
        forall|j: int| 0 <= j < entries.len() ==> #[trigger] entries[j].0@ != e.0@,
    ensures
        forall|k: Seq<char>| #[trigger] first_binding(entries.push(e), k) == if k == e.0@ {
            Some(value)
        } else {
            first_binding(entries, k)
        },
    decreases entries.len(),
{
    let n = entries.push(e);
    if entries.len() > 0 {
        lemma_push_new(entries.drop_first(), e, value);
        assert(n.drop_first() =~= entries.drop_first().push(e));
        assert forall|k: Seq<char>| #[trigger] first_binding(n, k) == if k == e.0@ {
            Some(value)
        } else {
            first_binding(entries, k)
        } by {
            assert(n[0] == entries[0]);
            assert(first_binding(entries.drop_first().push(e), k) == if k == e.0@ {
                Some(value)
            } else {
                first_binding(entries.drop_first(), k)
            });
        }
    } else {
        assert(n.drop_first() =~= Seq::<(String, V)>::empty());
        assert forall|k: Seq<char>| #[trigger] first_binding(n, k) == if k == e.0@ {
            Some(value)
        } else {
            first_binding(entries, k)
        } by {
            assert(n[0] == e);
            assert(first_binding(n.drop_first(), k) is None);
        }
    }
}

} // verus!
