//! A map keyed by names that keeps its entries in the order of first insertion.

use vstd::prelude::*;
use crate::text::{chars_equal, chars_of};

verus! {

/// A map from names to values; entries stay in the order in which their names were
/// first inserted.
#[derive(Debug)]
pub struct NameMap<V> {
    entries: Vec<(String, V)>,
}

/// No name occurs twice among the entries.
pub open spec fn names_distinct<V>(e: Seq<(String, V)>) -> bool {
    forall|i: int, j: int| 0 <= i < j < e.len() ==> e[i].0@ != e[j].0@
}

/// The map described by a list of entries with distinct names.
pub open spec fn entries_map<V>(e: Seq<(String, V)>) -> Map<Seq<char>, V>
    decreases e.len(),
{
    if e.len() == 0 {
        Map::empty()
    } else {
        entries_map(e.drop_last()).insert(e.last().0@, e.last().1)
    }
}

impl<V> NameMap<V> {
    /// The entries, in order of first insertion.
    pub closed spec fn entry_seq(self) -> Seq<(String, V)> {
        self.entries@
    }

    /// The map from names to values.
    pub closed spec fn map(self) -> Map<Seq<char>, V> {
        entries_map(self.entries@)
    }

    /// The names, in order of first insertion.
    pub closed spec fn names(self) -> Seq<Seq<char>> {
        self.entries@.map_values(|e: (String, V)| e.0@)
    }

    /// No name occurs twice.
    pub closed spec fn wf(self) -> bool {
        names_distinct(self.entries@)
    }

    /// An empty map.
    pub fn new() -> (m: Self)
        ensures
            m.wf(),
            m.map() == Map::<Seq<char>, V>::empty(),
            m.names() == Seq::<Seq<char>>::empty(),
    {
        let m = NameMap { entries: Vec::new() };
        assert(m.names() =~= Seq::<Seq<char>>::empty());
        m
    }

    /// The number of names.
    pub fn len(&self) -> (n: usize)
        requires
            self.wf(),
        ensures
            n == self.map().dom().len(),
            n == self.names().len(),
    {
        proof {
            lemma_entries_map_dom(self.entries@);
        }
        self.entries.len()
    }

    /// The position of a name among the entries.
    fn position(&self, name: &Vec<char>) -> (r: Option<usize>)
        requires
            self.wf(),
        ensures
            r matches Some(i) ==> i < self.entries@.len() && self.entries@[i as int].0@ == name@,
            r is None ==> forall|i: int|
                0 <= i < self.entries@.len() ==> self.entries@[i].0@ != name@,
    {
        let mut i: usize = 0;
        while i < self.entries.len()
            invariant
                i <= self.entries@.len(),
                forall|j: int| 0 <= j < i ==> self.entries@[j].0@ != name@,
            decreases self.entries@.len() - i,
        {
            let k = chars_of(self.entries[i].0.as_str());
            if chars_equal(&k, name) {
                return Some(i);
            }
            i = i + 1;
        }
        None
    }

    /// Whether the map has a value for `name`.
    pub fn contains_key(&self, name: &str) -> (b: bool)
        requires
            self.wf(),
        ensures
            b == self.map().dom().contains(name@),
    {
        let k = chars_of(name);
        proof {
            lemma_entries_map_dom(self.entries@);
        }
        self.position(&k).is_some()
    }

    /// The value for `name`, if any.
    pub fn get(&self, name: &str) -> (r: Option<&V>)
        requires
            self.wf(),
        ensures
            r matches Some(v) ==> self.map().dom().contains(name@) && self.map()[name@] == *v,
            r is None ==> !self.map().dom().contains(name@),
    {
        let k = chars_of(name);
        proof {
            lemma_entries_map_dom(self.entries@);
        }
        match self.position(&k) {
            Some(i) => {
                proof {
                    lemma_entries_map_value(self.entries@, i as int);
                }
                Some(&self.entries[i].1)
            },
            None => None,
        }
    }

    /// Maps `name` to `value`, replacing an earlier value for it; a new name goes last.
    pub fn insert(&mut self, name: String, value: V)
        requires
            old(self).wf(),
        ensures
            final(self).wf(),
            final(self).map() == old(self).map().insert(name@, value),
            old(self).map().dom().contains(name@) ==> final(self).names() == old(self).names(),
            !old(self).map().dom().contains(name@) ==> final(self).names() == old(
                self,
            ).names().push(name@),
    {
        let k = chars_of(name.as_str());
        let ghost old_entries = self.entries@;
        proof {
            lemma_entries_map_dom(old_entries);
        }
        match self.position(&k) {
            Some(i) => {
                self.entries.set(i, (name, value));
                proof {
                    lemma_entries_map_set(old_entries, i as int, (name, value));
                    assert(self.names() =~= old(self).names());
                }
            },
            None => {
                self.entries.push((name, value));
                proof {
                    assert(self.entries@.drop_last() =~= old_entries);
                    assert(self.names() =~= old(self).names().push(name@));
                }
            },
        }
    }

    /// The value for `name`, to be changed in place, if any.
    pub fn get_mut(&mut self, name: &str) -> (r: Option<&mut V>)
        requires
            old(self).wf(),
        ensures
            final(self).wf(),
            final(self).names() == old(self).names(),
            r matches Some(v) ==> old(self).map().dom().contains(name@) && *v == old(self).map()[name@]
                && final(self).map() == old(self).map().insert(name@, *final(v)),
            r is None ==> !old(self).map().dom().contains(name@) && *final(self) == *old(self),
    {
        let k = chars_of(name);
        let ghost old_entries = self.entries@;
        proof {
            lemma_entries_map_dom(old_entries);
        }
        match self.position(&k) {
            Some(i) => {
                proof {
                    lemma_entries_map_value(old_entries, i as int);
                }
                let entry = &mut self.entries[i];
                let v = &mut entry.1;
                proof {
                    lemma_entries_map_set(old_entries, i as int, (old_entries[i as int].0, *final(v)));
                }
                Some(v)
            },
            None => None,
        }
    }

    /// The map has finitely many names.
    pub proof fn lemma_map_finite(self)
        ensures
            self.map().dom().finite(),
    {
        lemma_entries_map_dom(self.entries@);
    }

    /// Names at two different places of the name list differ.
    pub proof fn lemma_distinct_names(self, i: int, j: int)
        requires
            self.wf(),
            0 <= i < self.names().len(),
            0 <= j < self.names().len(),
            i != j,
        ensures
            self.names()[i] != self.names()[j],
    {
        if i < j {
            assert(self.entries@[i].0@ != self.entries@[j].0@);
        } else {
            assert(self.entries@[j].0@ != self.entries@[i].0@);
        }
    }

    /// The entries, in order of first insertion.
    pub fn entries(&self) -> (e: &Vec<(String, V)>)
        ensures
            e@ == self.entry_seq(),
    {
        &self.entries
    }

    /// The entries form the map, and the names are theirs in order.
    pub proof fn lemma_entries(self)
        requires
            self.wf(),
        ensures
            self.entry_seq().len() == self.names().len(),
            forall|i: int|
                0 <= i < self.entry_seq().len() ==> #[trigger] self.names()[i]
                    == self.entry_seq()[i].0@ && self.map().dom().contains(self.names()[i])
                    && self.map()[self.names()[i]] == self.entry_seq()[i].1,
            forall|k: Seq<char>|
                self.map().dom().contains(k) ==> exists|i: int|
                    0 <= i < self.entry_seq().len() && #[trigger] self.entry_seq()[i].0@ == k,
    {
        lemma_entries_map_dom(self.entries@);
        assert forall|i: int| 0 <= i < self.entry_seq().len() implies #[trigger] self.names()[i]
            == self.entry_seq()[i].0@ && self.map().dom().contains(self.names()[i])
            && self.map()[self.names()[i]] == self.entry_seq()[i].1 by {
            lemma_entries_map_value(self.entries@, i);
        }
    }
}

/// The keys of the map are the names of the entries.
pub proof fn lemma_entries_map_dom<V>(e: Seq<(String, V)>)
    ensures
        forall|k: Seq<char>|
            entries_map(e).dom().contains(k) <==> exists|i: int|
                0 <= i < e.len() && #[trigger] e[i].0@ == k,
        entries_map(e).dom().finite(),
        names_distinct(e) ==> entries_map(e).dom().len() == e.len(),
    decreases e.len(),
{
    if e.len() > 0 {
        let d = e.drop_last();
        lemma_entries_map_dom(d);
        assert forall|k: Seq<char>|
            entries_map(e).dom().contains(k) <==> exists|i: int|
                0 <= i < e.len() && #[trigger] e[i].0@ == k by {
            if entries_map(e).dom().contains(k) {
                if k == e.last().0@ {
                    assert(e[e.len() - 1].0@ == k);
                } else {
                    let i = choose|i: int| 0 <= i < d.len() && #[trigger] d[i].0@ == k;
                    assert(e[i].0@ == k);
                }
            }
            if exists|i: int| 0 <= i < e.len() && #[trigger] e[i].0@ == k {
                let i = choose|i: int| 0 <= i < e.len() && #[trigger] e[i].0@ == k;
                if i < e.len() - 1 {
                    assert(d[i].0@ == k);
                }
            }
        }
        if names_distinct(e) {
            assert(names_distinct(d));
            assert(!entries_map(d).dom().contains(e.last().0@)) by {
                if entries_map(d).dom().contains(e.last().0@) {
                    let i = choose|i: int| 0 <= i < d.len() && #[trigger] d[i].0@ == e.last().0@;
                    assert(e[i].0@ == e[e.len() - 1].0@);
                }
            }
        }
    }
}

/// The value of an entry's name is the entry's value when names are distinct.
pub proof fn lemma_entries_map_value<V>(e: Seq<(String, V)>, i: int)
    requires
        names_distinct(e),
        0 <= i < e.len(),
    ensures
        entries_map(e).dom().contains(e[i].0@),
        entries_map(e)[e[i].0@] == e[i].1,
    decreases e.len(),
{
    let d = e.drop_last();
    if i < e.len() - 1 {
        assert(d[i] == e[i]);
        lemma_entries_map_value(d, i);
        assert(e[i].0@ != e[e.len() - 1].0@);
    }
}

/// Replacing the value of an entry replaces the value of its name.
pub proof fn lemma_entries_map_set<V>(e: Seq<(String, V)>, i: int, x: (String, V))
    requires
        names_distinct(e),
        0 <= i < e.len(),
        x.0@ == e[i].0@,
    ensures
        names_distinct(e.update(i, x)),
        entries_map(e.update(i, x)) == entries_map(e).insert(x.0@, x.1),
    decreases e.len(),
{
    let u = e.update(i, x);
    assert(names_distinct(u)) by {
        assert forall|a: int, b: int| 0 <= a < b < u.len() implies u[a].0@ != u[b].0@ by {
            assert(e[a].0@ != e[b].0@);
        }
    }
    if i < e.len() - 1 {
        assert(u.drop_last() =~= e.drop_last().update(i, x));
        lemma_entries_map_set(e.drop_last(), i, x);
        assert(e.drop_last()[i].0@ != e.last().0@);
        assert(entries_map(u) =~= entries_map(e).insert(x.0@, x.1));
    } else {
        assert(u.drop_last() =~= e.drop_last());
        assert(entries_map(u) =~= entries_map(e).insert(x.0@, x.1));
    }
}

} // verus!
