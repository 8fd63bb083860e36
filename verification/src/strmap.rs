//! A small string-keyed map kept as a vector of entries with pairwise
//! distinct keys. Its mathematical view is a `Map` from character sequences
//! to values, so contracts can speak of lookups and insertions directly.

use vstd::map::*;
use vstd::prelude::*;

use crate::strutil::str_eq;

verus! {

/// A map from string names to values, with insertion order retained and each
/// key held at most once.
#[derive(Debug, Clone, PartialEq)]
pub struct StrMap<V> {
    entries: Vec<(String, V)>,
}

/// The map described by a sequence of entries, later entries winning.
pub open spec fn entries_map<V>(s: Seq<(String, V)>) -> Map<Seq<char>, V>
    decreases s.len(),
{
    if s.len() == 0 {
        Map::empty()
    } else {
        entries_map(s.drop_last()).insert(s.last().0@, s.last().1)
    }
}

/// The keys of a sequence of entries are pairwise distinct.
pub open spec fn distinct_keys<V>(s: Seq<(String, V)>) -> bool {
    forall|i: int, j: int| 0 <= i < j < s.len() ==> s[i].0@ != s[j].0@
}

/// The domain of `entries_map` is exactly the keys that occur, and each key
/// that occurs maps to the value beside its last occurrence; with distinct
/// keys, to the value beside its only occurrence.
pub proof fn lemma_entries_map_props<V>(s: Seq<(String, V)>)
    requires
        distinct_keys(s),
    ensures
        forall|k: Seq<char>|
            entries_map(s).contains_key(k) ==> exists|i: int| 0 <= i < s.len() && s[i].0@ == k,
        forall|i: int|
            0 <= i < s.len() ==> entries_map(s).contains_key(#[trigger] s[i].0@) && entries_map(
                s,
            )[s[i].0@] == s[i].1,
    decreases s.len(),
{
    if s.len() > 0 {
        let t = s.drop_last();
        assert(distinct_keys(t));
        lemma_entries_map_props(t);
        assert forall|i: int| 0 <= i < s.len() implies entries_map(s).contains_key(
            #[trigger] s[i].0@,
        ) && entries_map(s)[s[i].0@] == s[i].1 by {
            if i < s.len() - 1 {
                assert(t[i] == s[i]);
                assert(s[i].0@ != s.last().0@);
            }
        }
        assert forall|k: Seq<char>| entries_map(s).contains_key(k) implies exists|i: int|
            0 <= i < s.len() && s[i].0@ == k by {
            if k != s.last().0@ {
                assert(entries_map(t).contains_key(k));
                let i = choose|i: int| 0 <= i < t.len() && t[i].0@ == k;
                assert(s[i].0@ == k);
            } else {
                assert(s[s.len() - 1].0@ == k);
            }
        }
    }
}

impl<V> StrMap<V> {
    /// Well-formed: the keys are pairwise distinct. `new` establishes this
    /// and `insert` preserves it.
    pub closed spec fn wf(self) -> bool {
        distinct_keys(self.entries@)
    }
}

impl<V: Copy> StrMap<V> {
    /// The entries in insertion order, as viewed pairs.
    pub closed spec fn spec_pairs(self) -> Seq<(Seq<char>, V)> {
        self.entries@.map_values(|e: (String, V)| (e.0@, e.1))
    }

    /// An empty map.
    pub fn new() -> (r: Self)
        ensures
            r.wf(),
            r@ == Map::<Seq<char>, V>::empty(),
            r.spec_pairs() == Seq::<(Seq<char>, V)>::empty(),
    {
        let r = StrMap { entries: Vec::new() };
        proof {
            assert(r.spec_pairs() =~= Seq::<(Seq<char>, V)>::empty());
        }
        r
    }

    /// The number of entries.
    pub fn len(&self) -> (n: usize)
        ensures
            n == self.spec_pairs().len(),
    {
        self.entries.len()
    }

    /// The map is exactly what its own pairs describe: rebuilding it from
    /// them, later pairs winning, loses nothing.
    pub proof fn lemma_pairs_describe(&self)
        ensures
            pairs_map(self.spec_pairs()) == self@,
    {
        lemma_pairs_map_entries(self.entries@);
    }

    /// The entries as name-value pairs, in insertion order.
    pub fn entries_vec(&self) -> (r: &Vec<(String, V)>)
        ensures
            r@.map_values(|e: (String, V)| (e.0@, e.1)) == self.spec_pairs(),
    {
        &self.entries
    }

    /// The name and value of the entry at position `i`.
    pub fn entry_at(&self, i: usize) -> (r: (&String, V))
        requires
            i < self.spec_pairs().len(),
        ensures
            r.0@ == self.spec_pairs()[i as int].0,
            r.1 == self.spec_pairs()[i as int].1,
    {
        let e = &self.entries[i];
        (&e.0, e.1)
    }

    /// With distinct keys, the entry sequence and the map view agree: each
    /// entry binds its key to its value, distinct entries bind distinct
    /// keys, and every bound key stands beside some entry.
    pub proof fn lemma_pairs(&self)
        requires
            self.wf(),
        ensures
            forall|j: int|
                0 <= j < self.spec_pairs().len() ==> self@.contains_key(
                    #[trigger] self.spec_pairs()[j].0,
                ) && self@[self.spec_pairs()[j].0] == self.spec_pairs()[j].1,
            forall|k: Seq<char>|
                self@.contains_key(k) ==> exists|j: int|
                    0 <= j < self.spec_pairs().len() && (#[trigger] self.spec_pairs()[j]).0 == k,
            forall|a: int, b: int|
                0 <= a < b < self.spec_pairs().len() ==> self.spec_pairs()[a].0
                    != self.spec_pairs()[b].0,
    {
        lemma_entries_map_props(self.entries@);
        assert(forall|j: int|
            0 <= j < self.entries@.len() ==> (#[trigger] self.spec_pairs()[j]) == (
                self.entries@[j].0@,
                self.entries@[j].1,
            ));
        assert forall|k: Seq<char>| self@.contains_key(k) implies exists|j: int|
            0 <= j < self.spec_pairs().len() && (#[trigger] self.spec_pairs()[j]).0 == k by {
            let j = choose|j: int| 0 <= j < self.entries@.len() && self.entries@[j].0@ == k;
            assert(self.spec_pairs()[j].0 == k);
        }
    }

    /// Looks a name up, returning its value when the name is bound.
    pub fn get(&self, name: &str) -> (r: Option<V>)
        requires
            self.wf(),
        ensures
            match r {
                Some(v) => self@.contains_key(name@) && v == self@[name@],
                None => !self@.contains_key(name@),
            },
    {
        proof {
            lemma_entries_map_props(self.entries@);
        }
        let n = self.entries.len();
        let mut i: usize = 0;
        while i < n
            invariant
                i <= n,
                n == self.entries@.len(),
                distinct_keys(self.entries@),
                self@ == entries_map(self.entries@),
                forall|j: int| 0 <= j < i ==> self.entries@[j].0@ != name@,
                forall|j: int|
                    0 <= j < n ==> entries_map(self.entries@).contains_key(
                        #[trigger] self.entries@[j].0@,
                    ) && entries_map(self.entries@)[self.entries@[j].0@] == self.entries@[j].1,
                forall|k: Seq<char>|
                    entries_map(self.entries@).contains_key(k) ==> exists|j: int|
                        0 <= j < n && self.entries@[j].0@ == k,
            decreases n - i,
        {
            if str_eq(self.entries[i].0.as_str(), name) {
                return Some(self.entries[i].1);
            }
            i += 1;
        }
        proof {
            if self@.contains_key(name@) {
                let j = choose|j: int| 0 <= j < n && self.entries@[j].0@ == name@;
                assert(false);
            }
        }
        None
    }

    /// Binds `name` to `v`, replacing any earlier binding of the same name.
    pub fn insert(&mut self, name: &str, v: V)
        requires
            old(self).wf(),
        ensures
            final(self).wf(),
            final(self)@ == old(self)@.insert(name@, v),
    {
        proof {
            lemma_entries_map_props(self.entries@);
        }
        let ghost entries0 = self.entries@;
        let n = self.entries.len();
        let mut i: usize = 0;
        while i < n
            invariant
                i <= n,
                n == self.entries@.len(),
                self.entries@ == entries0,
                entries0 == old(self).entries@,
                distinct_keys(entries0),
                forall|j: int| 0 <= j < i ==> entries0[j].0@ != name@,
            decreases n - i,
        {
            if str_eq(self.entries[i].0.as_str(), name) {
                let ghost removed = entries0.remove(i as int);
                self.entries.remove(i);
                self.entries.push((name.to_owned(), v));
                proof {
                    lemma_remove_distinct(entries0, i as int);
                    lemma_entries_map_remove(entries0, i as int);
                    let e = self.entries@.last();
                    assert(self.entries@ == removed.push(e));
                    assert(e.0@ == name@ && e.1 == v);
                    assert(distinct_keys(removed.push(e))) by {
                        assert(forall|j: int|
                            0 <= j < removed.len() ==> (#[trigger] removed[j]).0@ != name@);
                        assert(forall|j: int|
                            0 <= j < removed.len() ==> (#[trigger] removed.push(e)[j])
                                == removed[j]);
                    }
                    assert(removed.push(e).drop_last() =~= removed);
                    assert(entries_map(removed.push(e)) == entries_map(removed).insert(name@, v));
                    assert(entries_map(entries0).remove(name@).insert(name@, v) =~= entries_map(
                        entries0,
                    ).insert(name@, v));
                }
                return ;
            }
            i += 1;
        }
        self.entries.push((name.to_owned(), v));
        proof {
            let e = self.entries@.last();
            assert(self.entries@ == entries0.push(e));
            assert(e.0@ == name@ && e.1 == v);
            assert(distinct_keys(entries0.push(e))) by {
                assert(forall|j: int| 0 <= j < entries0.len() ==> entries0[j].0@ != name@);
                assert(forall|j: int|
                    0 <= j < entries0.len() ==> (#[trigger] entries0.push(e)[j]) == entries0[j]);
            }
            assert(entries0.push(e).drop_last() =~= entries0);
        }
    }
}

/// Removing an entry keeps the remaining keys pairwise distinct.
proof fn lemma_remove_distinct<V>(s: Seq<(String, V)>, i: int)
    requires
        distinct_keys(s),
        0 <= i < s.len(),
    ensures
        distinct_keys(s.remove(i)),
{
    let r = s.remove(i);
    assert forall|a: int, b: int| 0 <= a < b < r.len() implies r[a].0@ != r[b].0@ by {
        let sa = if a < i {
            a
        } else {
            a + 1
        };
        let sb = if b < i {
            b
        } else {
            b + 1
        };
        assert(r[a] == s[sa]);
        assert(r[b] == s[sb]);
    }
}

/// Removing the single entry that binds a key removes that key from the map.
proof fn lemma_entries_map_remove<V>(s: Seq<(String, V)>, i: int)
    requires
        distinct_keys(s),
        0 <= i < s.len(),
    ensures
        entries_map(s.remove(i)) == entries_map(s).remove(s[i].0@),
    decreases s.len(),
{
    lemma_entries_map_props(s);
    lemma_remove_distinct(s, i);
    lemma_entries_map_props(s.remove(i));
    let r = s.remove(i);
    let lhs = entries_map(r);
    let rhs = entries_map(s).remove(s[i].0@);
    assert_maps_equal!(lhs, rhs, k => {
        if lhs.contains_key(k) {
            let a = choose|a: int| 0 <= a < r.len() && r[a].0@ == k;
            let sa = if a < i {
                a
            } else {
                a + 1
            };
            assert(r[a] == s[sa]);
            assert(lhs[k] == r[a].1);
            assert(entries_map(s).contains_key(k) && entries_map(s)[k] == s[sa].1);
            assert(k != s[i].0@);
        } else if rhs.contains_key(k) {
            let b = choose|b: int| 0 <= b < s.len() && s[b].0@ == k;
            assert(b != i);
            let rb = if b < i {
                b
            } else {
                b - 1
            };
            assert(r[rb] == s[b]);
            assert(lhs.contains_key(r[rb].0@));
        }
    });
}

/// The map described by viewed name-value pairs, later pairs winning.
pub open spec fn pairs_map<V>(pairs: Seq<(Seq<char>, V)>) -> Map<Seq<char>, V>
    decreases pairs.len(),
{
    if pairs.len() == 0 {
        Map::empty()
    } else {
        pairs_map(pairs.drop_last()).insert(pairs.last().0, pairs.last().1)
    }
}

/// A sequence of entries describes the same map as its viewed pairs.
proof fn lemma_pairs_map_entries<V>(entries: Seq<(String, V)>)
    ensures
        pairs_map(entries.map_values(|e: (String, V)| (e.0@, e.1))) == entries_map(entries),
    decreases entries.len(),
{
    let pairs = entries.map_values(|e: (String, V)| (e.0@, e.1));
    if entries.len() > 0 {
        lemma_pairs_map_entries(entries.drop_last());
        assert(pairs.drop_last() =~= entries.drop_last().map_values(
            |e: (String, V)| (e.0@, e.1),
        ));
        assert(pairs.last() == (entries.last().0@, entries.last().1));
    } else {
        assert(pairs.len() == 0);
    }
}

impl<V: Copy> View for StrMap<V> {
    type V = Map<Seq<char>, V>;

    closed spec fn view(&self) -> Map<Seq<char>, V> {
        entries_map(self.entries@)
    }
}

} // verus!
