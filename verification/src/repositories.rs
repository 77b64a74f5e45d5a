//! Values by repository, in the order in which repositories turned up.

use vstd::prelude::*;

verus! {

/// Holds a value for each of some repositories.
#[derive(Debug)]
pub struct RepoMap<V> {
    entries: Vec<(String, V)>,
}

/// Whether `entries` has an entry for `name`.
pub open spec fn has_name<V>(entries: Seq<(String, V)>, name: Seq<char>) -> bool {
    exists|i: int| 0 <= i < entries.len() && (#[trigger] entries[i]).0@ == name
}

/// The value that `entries` has for `name`.
pub open spec fn value_of<V>(entries: Seq<(String, V)>, name: Seq<char>) -> V {
    entries[choose|i: int| 0 <= i < entries.len() && (#[trigger] entries[i]).0@ == name].1
}

/// Whether no two of `entries` are for the same repository.
pub open spec fn distinct_names<V>(entries: Seq<(String, V)>) -> bool {
    forall|i: int, j: int|
        0 <= i < j < entries.len() ==> (#[trigger] entries[i]).0@ != (#[trigger] entries[j]).0@
}

impl<V> View for RepoMap<V> {
    type V = Map<Seq<char>, V>;

    open spec fn view(&self) -> Map<Seq<char>, V> {
        Map::new(
            |name: Seq<char>| has_name(self.entries(), name),
            |name: Seq<char>| value_of(self.entries(), name),
        )
    }
}

impl<V> RepoMap<V> {
    /// The names of the repositories with their values, in order.
    pub closed spec fn entries(self) -> Seq<(String, V)> {
        self.entries@
    }

    /// The names of the repositories, in order.
    pub open spec fn names(self) -> Seq<Seq<char>> {
        self.entries().map_values(|entry: (String, V)| entry.0@)
    }

    /// Whether each repository has at most one value.
    pub open spec fn well_formed(self) -> bool {
        distinct_names(self.entries())
    }

    /// A map without repositories.
    pub fn new() -> (map: Self)
        ensures
            map.well_formed(),
            map.entries() == Seq::<(String, V)>::empty(),
            map@ == Map::<Seq<char>, V>::empty(),
    {
        let map = RepoMap { entries: Vec::new() };
        assert(map@ =~= Map::<Seq<char>, V>::empty());
        map
    }

    /// The number of repositories.
    pub fn len(&self) -> (len: usize)
        ensures
            len == self.entries().len(),
    {
        self.entries.len()
    }

    /// The name of the repository at position `i`.
    pub fn name(&self, i: usize) -> (name: &str)
        requires
            i < self.entries().len(),
        ensures
            name@ == self.entries()[i as int].0@,
    {
        self.entries[i].0.as_str()
    }

    /// The value for the repository at position `i`.
    pub fn value(&self, i: usize) -> (value: &V)
        requires
            i < self.entries().len(),
        ensures
            *value == self.entries()[i as int].1,
    {
        &self.entries[i].1
    }

    /// The position of the repository called `name`.
    fn position(&self, name: &String) -> (position: Option<usize>)
        ensures
            match position {
                Some(i) => i < self.entries().len() && self.entries()[i as int].0@ == name@,
                None => !has_name(self.entries(), name@),
            },
    {
        let mut i: usize = 0;
        while i < self.entries.len()
            invariant
                i <= self.entries.len(),
                forall|j: int|
                    0 <= j < i ==> (#[trigger] self.entries@[j]).0@ != name@,
            decreases self.entries.len() - i,
        {
            if self.entries[i].0 == *name {
                return Some(i);
            }
            i = i + 1;
        }
        None
    }

    /// The value for the repository called `name`.
    pub fn get(&self, name: &String) -> (value: Option<&V>)
        requires
            self.well_formed(),
        ensures
            match value {
                Some(v) => self@.contains_key(name@) && *v == self@[name@],
                None => !self@.contains_key(name@),
            },
    {
        match self.position(name) {
            Some(i) => {
                proof {
                    lemma_value_of(self.entries(), i as int);
                }
                Some(&self.entries[i].1)
            },
            None => None,
        }
    }

    /// Sets the value for the repository called `name`.
    pub fn insert(&mut self, name: String, value: V)
        requires
            old(self).well_formed(),
        ensures
            final(self).well_formed(),
            final(self)@ == old(self)@.insert(name@, value),
            final(self).names() == (if old(self)@.contains_key(name@) {
                old(self).names()
            } else {
                old(self).names().push(name@)
            }),
    {
        let ghost before = self.entries@;
        let ghost key = name@;
        match self.position(&name) {
            Some(i) => {
                self.entries.set(i, (name, value));
                proof {
                    lemma_one_entry_changed(before, i as int, self.entries@[i as int]);
                }
            },
            None => {
                self.entries.push((name, value));
                proof {
                    lemma_one_entry_changed(before, before.len() as int, self.entries@.last());
                }
            },
        }
        assert(self@ =~= old(self)@.insert(key, value));
        assert(self.names() =~= (if old(self)@.contains_key(key) {
            old(self).names()
        } else {
            old(self).names().push(key)
        }));
    }
}

impl<T> RepoMap<Vec<T>> {
    /// Adds a value to those for the repository called `name`.
    pub fn push(&mut self, name: String, value: T)
        requires
            old(self).well_formed(),
        ensures
            final(self).well_formed(),
            final(self)@.dom() == old(self)@.dom().insert(name@),
            final(self)@[name@]@ == (if old(self)@.contains_key(name@) {
                old(self)@[name@]@.push(value)
            } else {
                seq![value]
            }),
            forall|other: Seq<char>|
                other != name@ && old(self)@.contains_key(other) ==> #[trigger] final(self)@[other]
                    == old(self)@[other],
            final(self).names() == (if old(self)@.contains_key(name@) {
                old(self).names()
            } else {
                old(self).names().push(name@)
            }),
    {
        let ghost before = self.entries@;
        let ghost key = name@;
        match self.position(&name) {
            Some(i) => {
                self.entries[i].1.push(value);
                proof {
                    lemma_value_of(before, i as int);
                    lemma_one_entry_changed(before, i as int, self.entries@[i as int]);
                    assert(self.entries@ == with_entry(before, i as int, self.entries@[i as int]));
                }
            },
            None => {
                let mut values: Vec<T> = Vec::new();
                values.push(value);
                self.entries.push((name, values));
                proof {
                    lemma_one_entry_changed(before, before.len() as int, self.entries@.last());
                }
            },
        }
        assert(self@.dom() =~= old(self)@.dom().insert(key));
        assert(self.names() =~= (if old(self)@.contains_key(key) {
            old(self).names()
        } else {
            old(self).names().push(key)
        }));
    }
}

/// With distinct names, the value for a name is the one that stands beside it.
proof fn lemma_value_of<V>(entries: Seq<(String, V)>, i: int)
    requires
        distinct_names(entries),
        0 <= i < entries.len(),
    ensures
        has_name(entries, entries[i].0@),
        value_of(entries, entries[i].0@) == entries[i].1,
{
    let name = entries[i].0@;
    let j = choose|j: int| 0 <= j < entries.len() && (#[trigger] entries[j]).0@ == name;
    assert(entries[i].0@ == name);
    assert(i == j);
}

/// `entries` with `entry` in place of the one at position `i`, or at the end.
pub open spec fn with_entry<V>(entries: Seq<(String, V)>, i: int, entry: (String, V)) -> Seq<
    (String, V),
> {
    if i < entries.len() {
        entries.update(i, entry)
    } else {
        entries.push(entry)
    }
}

/// Giving a repository a value changes nothing for the others.
proof fn lemma_one_entry_changed<V>(entries: Seq<(String, V)>, i: int, entry: (String, V))
    requires
        distinct_names(entries),
        0 <= i <= entries.len(),
        i < entries.len() ==> entries[i].0@ == entry.0@,
        i == entries.len() ==> !has_name(entries, entry.0@),
    ensures
        distinct_names(with_entry(entries, i, entry)),
        value_of(with_entry(entries, i, entry), entry.0@) == entry.1,
        forall|name: Seq<char>| #[trigger]
            has_name(with_entry(entries, i, entry), name) <==> name == entry.0@ || has_name(
                entries,
                name,
            ),
        forall|name: Seq<char>|
            name != entry.0@ && has_name(entries, name) ==> #[trigger] value_of(
                with_entry(entries, i, entry),
                name,
            ) == value_of(entries, name),
{
    let after = with_entry(entries, i, entry);
    assert(after[i] == entry);
    assert(forall|j: int| 0 <= j < entries.len() && j != i ==> after[j] == entries[j]);
    assert(distinct_names(after)) by {
        assert forall|j: int, k: int| 0 <= j < k < after.len() implies (#[trigger] after[j]).0@ != (
        #[trigger] after[k]).0@ by {
            if k < entries.len() {
                assert(entries[j].0@ != entries[k].0@);
            } else {
                assert(entries[j].0@ != entry.0@);
            }
        }
    }
    lemma_value_of(after, i);
    assert forall|name: Seq<char>| #[trigger]
        has_name(after, name) <==> name == entry.0@ || has_name(entries, name) by {
        if has_name(after, name) && name != entry.0@ {
            let j = choose|j: int| 0 <= j < after.len() && (#[trigger] after[j]).0@ == name;
            assert(entries[j].0@ == name);
        }
        if has_name(entries, name) && name != entry.0@ {
            let j = choose|j: int| 0 <= j < entries.len() && (#[trigger] entries[j]).0@ == name;
            assert(after[j].0@ == name);
        }
    }
    assert forall|name: Seq<char>| name != entry.0@ && has_name(entries, name) implies #[trigger]
        value_of(after, name) == value_of(entries, name) by {
        let j = choose|j: int| 0 <= j < entries.len() && (#[trigger] entries[j]).0@ == name;
        lemma_value_of(entries, j);
        lemma_value_of(after, j);
    }
}

/// A map gives for each name the value that stands beside it, has nothing for other
/// names, and no name twice.
pub proof fn law_map_gives_what_stands_beside_the_name<V>(map: RepoMap<V>)
    requires
        map.well_formed(),
    ensures
        map.names().len() == map.entries().len(),
        forall|i: int|
            0 <= i < map.entries().len() ==> {
                &&& map.names()[i] == (#[trigger] map.entries()[i]).0@
                &&& map@.contains_key(map.entries()[i].0@)
                &&& map@[map.entries()[i].0@] == map.entries()[i].1
            },
        forall|name: Seq<char>| #[trigger]
            map@.contains_key(name) ==> exists|i: int|
                0 <= i < map.entries().len() && (#[trigger] map.entries()[i]).0@ == name,
        forall|i: int, j: int|
            0 <= i < map.entries().len() && 0 <= j < map.entries().len() && (
            #[trigger] map.entries()[i]).0@ == (#[trigger] map.entries()[j]).0@ ==> i == j,
{
    let entries = map.entries();
    assert forall|i: int| 0 <= i < entries.len() implies {
        &&& map.names()[i] == (#[trigger] entries[i]).0@
        &&& map@.contains_key(entries[i].0@)
        &&& map@[entries[i].0@] == entries[i].1
    } by {
        lemma_value_of(entries, i);
    }
    assert forall|i: int, j: int|
        0 <= i < entries.len() && 0 <= j < entries.len() && (#[trigger] entries[i]).0@ == (
        #[trigger] entries[j]).0@ implies i == j by {
        if i < j {
            assert(entries[i].0@ != entries[j].0@);
        }
        if j < i {
            assert(entries[j].0@ != entries[i].0@);
        }
    }
}

/// A map in which no name stands twice is well-formed.
pub proof fn law_distinct_names_are_enough<V>(map: RepoMap<V>)
    requires
        map.names().no_duplicates(),
    ensures
        map.well_formed(),
{
    let entries = map.entries();
    assert forall|i: int, j: int| 0 <= i < j < entries.len() implies (#[trigger] entries[i]).0@ != (
    #[trigger] entries[j]).0@ by {
        assert(map.names()[i] != map.names()[j]);
    }
}

} // verus!
