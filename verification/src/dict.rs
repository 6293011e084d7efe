//! A table from names to values in which no name stands twice.

use vstd::prelude::*;
use crate::text::same_text;

verus! {

/// A value that can be copied with all that it holds.
pub trait Duplicate: DeepView + Sized {
    /// A copy that holds what `self` holds.
    fn duplicate(&self) -> (copy: Self)
        ensures
            copy.deep_view() == self.deep_view(),
    ;
}

impl Duplicate for Option<String> {
    fn duplicate(&self) -> (copy: Option<String>) {
        match self {
            Some(text) => Some(text.clone()),
            None => None,
        }
    }
}

/// The first index of `entries` that holds `name`, or their number where
/// none does.
pub open spec fn index_of<V>(entries: Seq<(String, V)>, name: Seq<char>) -> int
    decreases entries.len(),
{
    if entries.len() == 0 {
        0
    } else if entries[0].0@ == name {
        0
    } else {
        1 + index_of(entries.drop_first(), name)
    }
}

/// `index_of` names an entry that holds `name`, the first one, or the number
/// of entries where none holds it.
pub proof fn lemma_index_of<V>(entries: Seq<(String, V)>, name: Seq<char>)
    ensures
        0 <= index_of(entries, name) <= entries.len(),
        index_of(entries, name) < entries.len() ==> entries[index_of(entries, name)].0@ == name,
        forall|k: int| 0 <= k < index_of(entries, name) ==> entries[k].0@ != name,
    decreases entries.len(),
{
    if entries.len() > 0 && entries[0].0@ != name {
        let rest = entries.drop_first();
        lemma_index_of(rest, name);
        assert forall|k: int| 0 <= k < index_of(entries, name) implies entries[k].0@ != name by {
            if k > 0 {
                assert(rest[k - 1] == entries[k]);
            }
        }
    }
}

/// `index_of` is `k` where `k` is the first entry that holds `name`, or the
/// number of entries and none holds it.
pub proof fn lemma_index_is<V>(entries: Seq<(String, V)>, name: Seq<char>, k: int)
    requires
        0 <= k <= entries.len(),
        forall|j: int| 0 <= j < k ==> entries[j].0@ != name,
        k < entries.len() ==> entries[k].0@ == name,
    ensures
        index_of(entries, name) == k,
{
    lemma_index_of(entries, name);
    let r = index_of(entries, name);
    if r < k {
        assert(entries[r].0@ == name);
    }
}

/// Whether no two of `entries` hold the same name.
pub open spec fn names_differ<V>(entries: Seq<(String, V)>) -> bool {
    forall|i: int, j: int| 0 <= i < j < entries.len() ==> entries[i].0@ != entries[j].0@
}

/// What `entries` stand for: each name with what its first entry holds.
pub open spec fn table_of<V: DeepView>(entries: Seq<(String, V)>) -> Map<Seq<char>, V::V> {
    Map::new(
        |name: Seq<char>| index_of(entries, name) < entries.len(),
        |name: Seq<char>| entries[index_of(entries, name)].1.deep_view(),
    )
}

/// From the first `i` of `names` to the first `i + 1`: the name at `i` comes
/// in, and it was not among them.
pub proof fn lemma_next_name(names: Seq<Seq<char>>, i: int)
    requires
        0 <= i < names.len(),
        names.no_duplicates(),
    ensures
        !names.take(i).contains(names[i]),
        forall|x: Seq<char>|
            names.take(i + 1).contains(x) <==> (names.take(i).contains(x) || x == names[i]),
        names.take(i + 1).to_set() == names.take(i).to_set().insert(names[i]),
{
    let shorter = names.take(i);
    let longer = names.take(i + 1);
    if shorter.contains(names[i]) {
        let j = choose|j: int| 0 <= j < shorter.len() && shorter[j] == names[i];
        assert(names[j] == names[i]);
    }
    assert forall|x: Seq<char>| longer.contains(x) <==> (shorter.contains(x) || x
        == names[i]) by {
        if shorter.contains(x) {
            let j = choose|j: int| 0 <= j < shorter.len() && shorter[j] == x;
            assert(longer[j] == x);
        }
        if x == names[i] {
            assert(longer[i] == x);
        }
        if longer.contains(x) {
            let j = choose|j: int| 0 <= j < longer.len() && longer[j] == x;
            if j < i {
                assert(shorter[j] == x);
            }
        }
    }
    assert(longer.to_set() =~= shorter.to_set().insert(names[i]));
}

/// A table from names to values. A name stands in it once: a second
/// `insert` under a name replaces what the first one put there.
#[derive(Debug)]
pub struct NameMap<V> {
    entries: Vec<(String, V)>,
}

impl<V: DeepView> View for NameMap<V> {
    type V = Map<Seq<char>, V::V>;

    closed spec fn view(&self) -> Map<Seq<char>, V::V> {
        table_of(self.entries@)
    }
}

impl<V: DeepView> DeepView for NameMap<V> {
    type V = Map<Seq<char>, V::V>;

    open spec fn deep_view(&self) -> Map<Seq<char>, V::V> {
        self.view()
    }
}

impl<V> NameMap<V> {
    #[verifier::type_invariant]
    spec fn well_formed(&self) -> bool {
        names_differ(self.entries@)
    }
}

impl<V: DeepView> NameMap<V> {
    /// The names of the table in the order in which they came.
    pub closed spec fn names(&self) -> Seq<Seq<char>> {
        Seq::new(self.entries@.len(), |i: int| self.entries@[i].0@)
    }

    /// A table without entries.
    pub fn new() -> (table: NameMap<V>)
        ensures
            table@ == Map::<Seq<char>, V::V>::empty(),
            table.names().len() == 0,
    {
        let table = NameMap { entries: Vec::new() };
        assert(table@ =~= Map::<Seq<char>, V::V>::empty());
        table
    }

    /// The number of names in the table.
    pub fn len(&self) -> (count: usize)
        ensures
            count == self.names().len(),
            self.names().no_duplicates(),
            forall|name: Seq<char>| self@.contains_key(name) <==> self.names().contains(name),
    {
        proof {
            use_type_invariant(self);
            self.lemma_names();
        }
        self.entries.len()
    }

    /// The name at `i` in the order of `names`.
    pub fn name_at(&self, i: usize) -> (name: &String)
        requires
            i < self.names().len(),
        ensures
            name@ == self.names()[i as int],
    {
        &self.entries[i].0
    }

    /// The value that stands under the name at `i`.
    pub fn value_at(&self, i: usize) -> (value: &V)
        requires
            i < self.names().len(),
        ensures
            self@.contains_key(self.names()[i as int]),
            value.deep_view() == self@[self.names()[i as int]],
    {
        proof {
            use_type_invariant(self);
            lemma_index_of(self.entries@, self.entries@[i as int].0@);
        }
        &self.entries[i].1
    }

    /// The value that stands under `name`, if any does.
    pub fn get(&self, name: &str) -> (found: Option<&V>)
        ensures
            match found {
                Some(value) => self@.contains_key(name@) && value.deep_view() == self@[name@],
                None => !self@.contains_key(name@),
            },
    {
        let at: usize = self.position(name);
        if at < self.entries.len() {
            Some(&self.entries[at].1)
        } else {
            None
        }
    }

    /// Whether a value stands under `name`.
    pub fn contains_key(&self, name: &str) -> (found: bool)
        ensures
            found == self@.contains_key(name@),
    {
        self.position(name) < self.entries.len()
    }

    /// Puts `value` under `name`, in place of what stood there.
    pub fn insert(&mut self, name: String, value: V)
        ensures
            final(self)@ == old(self)@.insert(name@, value.deep_view()),
    {
        proof {
            use_type_invariant(&*self);
        }
        let at: usize = self.position(name.as_str());
        let ghost before = self.entries@;
        let ghost key = name@;
        let ghost held = value.deep_view();
        proof {
            lemma_index_of(before, key);
        }
        let mut entries: Vec<(String, V)> = Vec::new();
        core::mem::swap(&mut self.entries, &mut entries);
        if at < entries.len() {
            entries.set(at, (name, value));
        } else {
            entries.push((name, value));
        }
        self.entries = entries;
        proof {
            let after = self.entries@;
            lemma_index_is(after, key, at as int);
            assert forall|other: Seq<char>| other != key implies ((#[trigger] index_of(
                after,
                other,
            ) < after.len()) <==> (index_of(before, other) < before.len())) && (index_of(
                before,
                other,
            ) < before.len() ==> after[index_of(after, other)].1 == before[index_of(
                before,
                other,
            )].1) by {
                lemma_index_of(before, other);
                let r = index_of(before, other);
                if r < before.len() {
                    lemma_index_is(after, other, r);
                } else {
                    lemma_index_is(after, other, after.len() as int);
                }
            }
            assert(table_of(after) =~= table_of(before).insert(key, held));
        }
    }

    /// The first index that holds `name`, or the number of entries.
    fn position(&self, name: &str) -> (at: usize)
        ensures
            at == index_of(self.entries@, name@),
            at <= self.entries@.len(),
    {
        proof {
            lemma_index_of(self.entries@, name@);
        }
        let mut i: usize = 0;
        while i < self.entries.len() && !same_text(self.entries[i].0.as_str(), name)
            invariant
                i <= self.entries@.len(),
                forall|k: int| 0 <= k < i ==> self.entries@[k].0@ != name@,
            decreases self.entries@.len() - i,
        {
            i = i + 1;
        }
        i
    }

    /// The names are those of the entries, each once.
    proof fn lemma_names(&self)
        requires
            names_differ(self.entries@),
        ensures
            self.names().no_duplicates(),
            forall|name: Seq<char>| self@.contains_key(name) <==> self.names().contains(name),
    {
        assert forall|name: Seq<char>| self@.contains_key(name) <==> self.names().contains(
            name,
        ) by {
            lemma_index_of(self.entries@, name);
            if self@.contains_key(name) {
                assert(self.names()[index_of(self.entries@, name)] == name);
            }
        }
    }
}

impl<V: Duplicate> Duplicate for NameMap<V> {
    fn duplicate(&self) -> (copy: NameMap<V>) {
        proof {
            use_type_invariant(self);
        }
        let mut entries: Vec<(String, V)> = Vec::new();
        let mut i: usize = 0;
        while i < self.entries.len()
            invariant
                i <= self.entries@.len(),
                entries@.len() == i,
                forall|k: int|
                    0 <= k < i ==> entries@[k].0@ == self.entries@[k].0@
                        && entries@[k].1.deep_view() == self.entries@[k].1.deep_view(),
            decreases self.entries@.len() - i,
        {
            entries.push((self.entries[i].0.clone(), self.entries[i].1.duplicate()));
            i = i + 1;
        }
        proof {
            assert forall|name: Seq<char>| #[trigger]
                index_of(entries@, name) == index_of(self.entries@, name) && (index_of(
                    entries@,
                    name,
                ) < entries@.len() ==> entries@[index_of(entries@, name)].1.deep_view()
                    == self.entries@[index_of(self.entries@, name)].1.deep_view()) by {
                lemma_index_of(self.entries@, name);
                lemma_index_is(entries@, name, index_of(self.entries@, name));
            }
            assert(table_of(entries@) =~= table_of(self.entries@));
        }
        NameMap { entries }
    }
}

} // verus!
