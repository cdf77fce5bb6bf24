//! A small map from channel names to values that keeps the order in which
//! the names came in.

use crate::text::{lemma_filter_step, str_eq};
use vstd::prelude::*;
use vstd::string::*;

verus! {

/// The value stored under a name: that of the first entry of that name.
pub open spec fn lookup<V>(entries: Seq<(Seq<char>, V)>, name: Seq<char>) -> Option<V>
    decreases entries.len(),
{
    if entries.len() == 0 {
        None
    } else if entries[0].0 == name {
        Some(entries[0].1)
    } else {
        lookup(entries.drop_first(), name)
    }
}

/// Where the first entry of a name stands, or the number of entries where
/// there is none.
pub open spec fn place<V>(entries: Seq<(Seq<char>, V)>, name: Seq<char>) -> int
    decreases entries.len(),
{
    if entries.len() == 0 {
        0
    } else if entries[0].0 == name {
        0
    } else {
        1 + place(entries.drop_first(), name)
    }
}

/// The entries after a value was stored under a name: it takes the place
/// of the first entry of that name, or goes to the end where there is none.
pub open spec fn stored<V>(entries: Seq<(Seq<char>, V)>, name: Seq<char>, value: V) -> Seq<
    (Seq<char>, V),
> {
    if place(entries, name) < entries.len() {
        entries.update(place(entries, name), (name, value))
    } else {
        entries.push((name, value))
    }
}

/// Whether an entry stands under another name.
pub open spec fn under_other_name<V>(name: Seq<char>) -> spec_fn((Seq<char>, V)) -> bool {
    |entry: (Seq<char>, V)| entry.0 != name
}

/// The entries without those of a name.
pub open spec fn without<V>(entries: Seq<(Seq<char>, V)>, name: Seq<char>) -> Seq<(Seq<char>, V)> {
    entries.filter(under_other_name(name))
}

/// The first entry of a name stands where `place` says and holds what
/// `lookup` says; a name before which no entry of that name stands.
pub proof fn lemma_place<V>(entries: Seq<(Seq<char>, V)>, name: Seq<char>)
    ensures
        0 <= place(entries, name) <= entries.len(),
        place(entries, name) < entries.len() ==> entries[place(entries, name)].0 == name
            && lookup(entries, name) == Some(entries[place(entries, name)].1),
        place(entries, name) == entries.len() ==> lookup(entries, name) is None,
        forall|i: int| 0 <= i < place(entries, name) ==> (#[trigger] entries[i]).0 != name,
    decreases entries.len(),
{
    if entries.len() > 0 && entries[0].0 != name {
        lemma_place(entries.drop_first(), name);
        assert forall|i: int| 0 <= i < place(entries, name) implies (#[trigger] entries[i]).0
            != name by {
            if i > 0 {
                assert(entries.drop_first()[i - 1] == entries[i]);
            }
        }
    }
}

/// After a value was stored under a name, it is what is found under that
/// name, and what is found under any other name is what it was.
pub proof fn lemma_stored<V>(
    entries: Seq<(Seq<char>, V)>,
    name: Seq<char>,
    value: V,
    other: Seq<char>,
)
    ensures
        lookup(stored(entries, name, value), name) == Some(value),
        other != name ==> lookup(stored(entries, name, value), other) == lookup(entries, other),
    decreases entries.len(),
{
    let after = stored(entries, name, value);
    lemma_place(entries, name);
    if entries.len() == 0 {
        assert(after =~= seq![(name, value)]);
        assert(after.drop_first() =~= Seq::<(Seq<char>, V)>::empty());
        assert(lookup(after.drop_first(), other) is None);
    } else if entries[0].0 == name {
        assert(place(entries, name) == 0);
        assert(after[0] == (name, value));
        assert(after.drop_first() =~= entries.drop_first());
    } else {
        let rest = entries.drop_first();
        lemma_stored(rest, name, value, other);
        lemma_place(rest, name);
        assert(place(entries, name) == 1 + place(rest, name));
        assert(after.drop_first() =~= stored(rest, name, value));
        assert(after[0] == entries[0]);
        assert(after.len() > 0);
    }
}

/// A map from names to values. Looking a name up finds the first entry of
/// that name; storing under a name replaces that entry or adds one at the end.
#[derive(Debug)]
pub struct NameMap<V> {
    entries: Vec<(String, V)>,
}

impl<V> NameMap<V> {
    /// The entries, in order: each name with its value.
    pub closed spec fn entries(&self) -> Seq<(Seq<char>, V)> {
        self.entries@.map_values(|e: (String, V)| (e.0@, e.1))
    }

    /// An empty map.
    pub fn new() -> (map: Self)
        ensures
            map.entries().len() == 0,
    {
        Self { entries: Vec::new() }
    }

    /// The number of entries.
    pub fn len(&self) -> (n: usize)
        ensures
            n == self.entries().len(),
    {
        self.entries.len()
    }

    /// Whether the map holds no entry.
    pub fn is_empty(&self) -> (empty: bool)
        ensures
            empty == (self.entries().len() == 0),
    {
        self.entries.len() == 0
    }

    /// Where the first entry of a name stands, if there is one.
    pub fn find(&self, name: &str) -> (found: Option<usize>)
        ensures
            found matches Some(i) ==> i == place(self.entries(), name@) && i < self.entries().len(),
            found is None ==> place(self.entries(), name@) == self.entries().len(),
    {
        let ghost all = self.entries();
        let mut i: usize = 0;
        assert(all.skip(0) =~= all);
        while i < self.entries.len()
            invariant
                i <= self.entries.len(),
                all == self.entries(),
                place(all, name@) == i + place(all.skip(i as int), name@),
            decreases self.entries.len() - i,
        {
            assert(all.skip(i as int)[0] == all[i as int]);
            assert(all.skip(i as int).drop_first() =~= all.skip(i + 1));
            if str_eq(self.entries[i].0.as_str(), name) {
                return Some(i);
            }
            i += 1;
        }
        None
    }

    /// The name of the entry at a place.
    pub fn name_at(&self, i: usize) -> (name: &str)
        requires
            i < self.entries().len(),
        ensures
            name@ == self.entries()[i as int].0,
    {
        self.entries[i].0.as_str()
    }

    /// The value of the entry at a place.
    pub fn value_at(&self, i: usize) -> (value: &V)
        requires
            i < self.entries().len(),
        ensures
            *value == self.entries()[i as int].1,
    {
        &self.entries[i].1
    }

    /// The value stored under a name, if any.
    pub fn get(&self, name: &str) -> (value: Option<&V>)
        ensures
            value matches Some(v) ==> lookup(self.entries(), name@) == Some(*v),
            value is None ==> lookup(self.entries(), name@) is None,
    {
        proof {
            lemma_place(self.entries(), name@);
        }
        match self.find(name) {
            Some(i) => Some(&self.entries[i].1),
            None => None,
        }
    }

    /// Stores a value under a name.
    pub fn insert(&mut self, name: &str, value: V)
        ensures
            final(self).entries() == stored(old(self).entries(), name@, value),
    {
        let ghost before = self.entries();
        match self.find(name) {
            Some(i) => {
                self.entries[i] = (name.to_owned(), value);
                assert(self.entries() =~= before.update(i as int, (name@, value)));
            },
            None => {
                self.entries.push((name.to_owned(), value));
                assert(self.entries() =~= before.push((name@, value)));
            },
        }
    }

    /// Takes the entry at a place out of the map and hands its value out.
    pub fn take_at(&mut self, i: usize) -> (value: V)
        requires
            i < old(self).entries().len(),
        ensures
            value == old(self).entries()[i as int].1,
            final(self).entries() == old(self).entries().remove(i as int),
    {
        let ghost before = self.entries();
        let entry = self.entries.remove(i);
        assert(self.entries() =~= before.remove(i as int));
        entry.1
    }

    /// Puts an entry in at a place.
    pub fn put_at(&mut self, i: usize, name: &str, value: V)
        requires
            i <= old(self).entries().len(),
        ensures
            final(self).entries() == old(self).entries().insert(i as int, (name@, value)),
    {
        let ghost before = self.entries();
        self.entries.insert(i, (name.to_owned(), value));
        assert(self.entries() =~= before.insert(i as int, (name@, value)));
    }

    /// Takes every entry of a name out of the map.
    pub fn remove(&mut self, name: &str)
        ensures
            final(self).entries() == without(old(self).entries(), name@),
    {
        let ghost before = self.entries();
        let ghost keep = under_other_name::<V>(name@);
        let ghost mut j: int = 0;
        let mut i: usize = 0;
        assert(before.take(0).filter(keep) =~= Seq::<(Seq<char>, V)>::empty()) by {
            reveal(Seq::filter);
        }
        assert(self.entries().take(0) =~= Seq::<(Seq<char>, V)>::empty());
        assert(self.entries().skip(0) =~= before.skip(0));
        while i < self.entries.len()
            invariant
                0 <= i <= j <= before.len(),
                i <= self.entries.len(),
                keep == under_other_name::<V>(name@),
                self.entries().len() - i == before.len() - j,
                self.entries().take(i as int) == before.take(j).filter(keep),
                self.entries().skip(i as int) == before.skip(j),
            decreases self.entries.len() - i,
        {
            let ghost now = self.entries();
            proof {
                lemma_filter_step(before, keep, j);
                assert(now.skip(i as int)[0] == now[i as int]);
                assert(before.skip(j)[0] == before[j]);
                assert(now.skip(i + 1) =~= now.skip(i as int).drop_first());
                assert(before.skip(j + 1) =~= before.skip(j).drop_first());
            }
            if str_eq(self.entries[i].0.as_str(), name) {
                let _ = self.entries.remove(i);
                proof {
                    let after = self.entries();
                    assert(after =~= now.remove(i as int));
                    assert(after.take(i as int) =~= now.take(i as int));
                    assert(after.skip(i as int) =~= now.skip(i + 1));
                }
            } else {
                proof {
                    assert(now.take(i + 1) =~= now.take(i as int).push(now[i as int]));
                }
                i += 1;
            }
            proof {
                j = j + 1;
            }
        }
        proof {
            let now = self.entries();
            assert(before.take(before.len() as int) =~= before);
            assert(now.take(now.len() as int) =~= now);
        }
    }

    /// Empties the map.
    pub fn clear(&mut self)
        ensures
            final(self).entries().len() == 0,
    {
        self.entries.clear();
    }
}

/// The newest `max` of the lines: all of them where they are no more.
pub open spec fn newest<T>(lines: Seq<T>, max: nat) -> Seq<T> {
    if lines.len() > max {
        lines.skip(lines.len() - max)
    } else {
        lines
    }
}

/// Keeps the newest `max` of the lines.
pub fn keep_newest<T>(lines: &mut Vec<T>, max: usize)
    ensures
        final(lines)@ == newest(old(lines)@, max as nat),
{
    assert(lines@.skip(0) =~= lines@);
    while lines.len() > max
        invariant
            lines.len() <= old(lines).len(),
            old(lines).len() > max ==> lines.len() >= max,
            old(lines).len() <= max ==> lines.len() == old(lines).len(),
            lines@ == old(lines)@.skip(old(lines).len() - lines.len()),
        decreases lines.len(),
    {
        let ghost before = lines@;
        let _ = lines.remove(0);
        assert(lines@ =~= old(lines)@.skip(old(lines).len() - lines.len()));
    }
    assert(old(lines)@.skip(0) =~= old(lines)@);
}

} // verus!
