//! Finite maps and sets keyed by name.
//!
//! Names are strings, compared by their characters. A [`NameMap`] keeps its
//! entries in the order in which their names were first inserted and never
//! holds a name twice; its view is the mathematical map from the characters
//! of each name to the value bound to it.

use vstd::prelude::*;

verus! {

/// In a sequence without duplicates, an element is found at its own index.
pub proof fn lemma_index_of_unique<T>(s: Seq<T>, i: int)
    requires
        s.no_duplicates(),
        0 <= i < s.len(),
    ensures
        s.contains(s[i]),
        s.index_of(s[i]) == i,
{
    let j = s.index_of(s[i]);
    assert(0 <= j < s.len() && s[j] == s[i]);
}

/// A sequence without duplicates has as many elements as its set.
pub proof fn lemma_distinct_count<T>(s: Seq<T>)
    requires
        s.no_duplicates(),
    ensures
        s.to_set().finite(),
        s.to_set().len() == s.len(),
{
    vstd::seq_lib::seq_to_set_is_finite(s);
    s.unique_seq_to_set();
}

/// The names that a sequence of strings spells, in its order.
pub open spec fn names_of(strings: Seq<String>) -> Seq<Seq<char>> {
    Seq::new(strings.len(), |i: int| strings[i]@)
}

/// The map that binds each of `names` to the value at the same index.
pub open spec fn bindings<V>(names: Seq<Seq<char>>, values: Seq<V>) -> Map<Seq<char>, V> {
    Map::new(|k: Seq<char>| names.contains(k), |k: Seq<char>| values[names.index_of(k)])
}

/// Replacing the value at one index rebinds that index's name.
pub proof fn lemma_bindings_update<V>(names: Seq<Seq<char>>, values: Seq<V>, i: int, value: V)
    requires
        names.no_duplicates(),
        names.len() == values.len(),
        0 <= i < names.len(),
    ensures
        bindings(names, values.update(i, value)) == bindings(names, values).insert(names[i], value),
{
    let a = bindings(names, values.update(i, value));
    let b = bindings(names, values).insert(names[i], value);
    lemma_index_of_unique(names, i);
    assert forall|k: Seq<char>| #[trigger] a.dom().contains(k) == b.dom().contains(k) by {}
    assert forall|k: Seq<char>| #[trigger] a.dom().contains(k) implies a[k] == b[k] by {
        let j = names.index_of(k);
        assert(0 <= j < names.len() && names[j] == k);
    }
    assert(a =~= b);
}

/// Appending a name that is not yet held adds one binding and keeps the
/// names distinct.
pub proof fn lemma_bindings_push<V>(names: Seq<Seq<char>>, values: Seq<V>, name: Seq<char>, value: V)
    requires
        names.no_duplicates(),
        names.len() == values.len(),
        !names.contains(name),
    ensures
        names.push(name).no_duplicates(),
        bindings(names.push(name), values.push(value)) == bindings(names, values).insert(
            name,
            value,
        ),
{
    let grown = names.push(name);
    let a = bindings(grown, values.push(value));
    let b = bindings(names, values).insert(name, value);
    let last = names.len() as int;
    assert forall|x: int, y: int| 0 <= x < grown.len() && 0 <= y < grown.len() && x != y implies grown[x]
        != grown[y] by {
        if x < last {
            assert(names[x] == grown[x]);
        }
        if y < last {
            assert(names[y] == grown[y]);
        }
    }
    assert forall|k: Seq<char>| #[trigger] a.dom().contains(k) == b.dom().contains(k) by {
        if grown.contains(k) {
            let j = grown.index_of(k);
            assert(0 <= j < grown.len() && grown[j] == k);
            if j < last {
                assert(names[j] == k);
            }
        }
        if names.contains(k) {
            let j = names.index_of(k);
            assert(0 <= j < names.len() && names[j] == k);
            assert(grown[j] == k);
        }
        if k == name {
            assert(grown[last] == k);
        }
    }
    assert forall|k: Seq<char>| #[trigger] a.dom().contains(k) implies a[k] == b[k] by {
        let j = grown.index_of(k);
        assert(0 <= j < grown.len() && grown[j] == k);
        lemma_index_of_unique(grown, j);
        if j < last {
            assert(names[j] == k);
            lemma_index_of_unique(names, j);
        }
    }
    assert(a =~= b);
}

/// A finite map from names to values of type `V`.
#[derive(Debug)]
pub struct NameMap<V> {
    entries: Vec<(String, V)>,
}

impl<V> View for NameMap<V> {
    type V = Map<Seq<char>, V>;

    /// The map from each name held to the value bound to it.
    open spec fn view(&self) -> Map<Seq<char>, V> {
        bindings(self.names(), self.values())
    }
}

impl<V> NameMap<V> {
    /// The names held, in the order of their first insertion.
    pub closed spec fn names(&self) -> Seq<Seq<char>> {
        Seq::new(self.entries@.len(), |i: int| self.entries@[i].0@)
    }

    /// The values held, each at the index of its name in [`Self::names`].
    pub closed spec fn values(&self) -> Seq<V> {
        Seq::new(self.entries@.len(), |i: int| self.entries@[i].1)
    }

    #[verifier::type_invariant]
    spec fn distinct_names(&self) -> bool {
        self.names().no_duplicates()
    }

    /// What every map that exists at run time satisfies: no name is held
    /// twice, so the view has one binding per entry, at the entry's index.
    pub open spec fn indexed(&self) -> bool {
        &&& self.names().len() == self.values().len()
        &&& self.names().no_duplicates()
        &&& self@.dom() == self.names().to_set()
        &&& self@.dom().finite()
        &&& self@.len() == self.names().len()
        &&& forall|i: int|
            0 <= i < self.names().len() ==> self@.contains_key(#[trigger] self.names()[i])
                && self@[self.names()[i]] == self.values()[i]
    }

    proof fn lemma_indexed(&self)
        requires
            self.names().no_duplicates(),
        ensures
            self.indexed(),
    {
        let names = self.names();
        assert(self@.dom() =~= names.to_set());
        lemma_distinct_count(names);
        assert forall|i: int| 0 <= i < names.len() implies self@.contains_key(
            #[trigger] names[i],
        ) && self@[names[i]] == self.values()[i] by {
            lemma_index_of_unique(names, i);
        }
    }

    /// The empty map.
    pub fn new() -> (m: Self)
        ensures
            m@ == Map::<Seq<char>, V>::empty(),
            m.names() == Seq::<Seq<char>>::empty(),
            m.values() == Seq::<V>::empty(),
    {
        let m = NameMap { entries: Vec::new() };
        assert(m.names() =~= Seq::<Seq<char>>::empty());
        assert(m.values() =~= Seq::<V>::empty());
        assert(m@ =~= Map::<Seq<char>, V>::empty());
        m
    }

    /// The number of names held.
    pub fn len(&self) -> (n: usize)
        ensures
            n == self@.len(),
            n == self.names().len(),
            self.indexed(),
    {
        proof {
            use_type_invariant(self);
            self.lemma_indexed();
        }
        self.entries.len()
    }

    /// The name at index `i`.
    pub fn name_at(&self, i: usize) -> (name: &String)
        requires
            i < self.names().len(),
        ensures
            name@ == self.names()[i as int],
    {
        &self.entries[i].0
    }

    /// The value at index `i`.
    pub fn value_at(&self, i: usize) -> (value: &V)
        requires
            i < self.names().len(),
        ensures
            *value == self.values()[i as int],
    {
        &self.entries[i].1
    }

    /// The index of `name` among the names held, if it is held.
    pub fn position(&self, name: &String) -> (r: Option<usize>)
        ensures
            self.indexed(),
            match r {
                Some(i) => i < self.names().len() && self.names()[i as int] == name@,
                None => !self@.contains_key(name@),
            },
    {
        proof {
            use_type_invariant(self);
            self.lemma_indexed();
        }
        let n: usize = self.entries.len();
        let mut i: usize = 0;
        while i < n
            invariant
                i <= n,
                n == self.entries@.len(),
                n == self.names().len(),
                self.indexed(),
                forall|j: int| 0 <= j < i ==> self.names()[j] != name@,
            decreases n - i,
        {
            if self.entries[i].0 == *name {
                return Some(i);
            }
            i += 1;
        }
        None
    }

    /// Whether `name` is bound.
    pub fn contains_key(&self, name: &String) -> (r: bool)
        ensures
            r == self@.contains_key(name@),
    {
        self.position(name).is_some()
    }

    /// The value bound to `name`, if any.
    pub fn get(&self, name: &String) -> (r: Option<&V>)
        ensures
            match r {
                Some(value) => self@.contains_key(name@) && *value == self@[name@],
                None => !self@.contains_key(name@),
            },
    {
        match self.position(name) {
            Some(i) => Some(&self.entries[i].1),
            None => None,
        }
    }

    /// Binds `name` to `value` and returns the value that was bound to it
    /// before, if any. A name already held keeps its place; a new name goes
    /// to the end.
    pub fn insert(&mut self, name: String, value: V) -> (previous: Option<V>)
        ensures
            final(self)@ == old(self)@.insert(name@, value),
            previous == (if old(self)@.contains_key(name@) {
                Some(old(self)@[name@])
            } else {
                None
            }),
            old(self)@.contains_key(name@) ==> final(self).names() == old(self).names(),
            !old(self)@.contains_key(name@) ==> final(self).names() == old(self).names().push(
                name@,
            ) && final(self).values() == old(self).values().push(value),
    {
        proof {
            use_type_invariant(&*self);
        }
        let found = self.position(&name);
        let ghost before = *self;
        let ghost key = name@;
        let mut entries: Vec<(String, V)> = Vec::new();
        std::mem::swap(&mut entries, &mut self.entries);
        let previous = match found {
            Some(i) => {
                let mut entry = (name, value);
                entries.set_and_swap(i, &mut entry);
                Some(entry.1)
            },
            None => {
                entries.push((name, value));
                None
            },
        };
        let ghost after = NameMap { entries };
        proof {
            match found {
                Some(i) => {
                    assert(after.names() =~= before.names());
                    assert(after.values() =~= before.values().update(i as int, value));
                    lemma_bindings_update(before.names(), before.values(), i as int, value);
                },
                None => {
                    assert(after.names() =~= before.names().push(key));
                    assert(after.values() =~= before.values().push(value));
                    lemma_bindings_push(before.names(), before.values(), key, value);
                },
            }
        }
        self.entries = entries;
        previous
    }

    /// A copy of the names held, in their order.
    pub fn keys(&self) -> (r: Vec<String>)
        ensures
            self.indexed(),
            names_of(r@) == self.names(),
    {
        let n: usize = self.len();
        let mut r: Vec<String> = Vec::new();
        let mut i: usize = 0;
        while i < n
            invariant
                i <= n,
                n == self.names().len(),
                r@.len() == i,
                forall|j: int| 0 <= j < i ==> (#[trigger] r@[j])@ == self.names()[j],
            decreases n - i,
        {
            r.push(self.name_at(i).clone());
            i += 1;
        }
        assert(names_of(r@) =~= self.names());
        r
    }
}

/// A finite set of names.
#[derive(Debug)]
pub struct NameSet {
    members: NameMap<()>,
}

impl View for NameSet {
    type V = Set<Seq<char>>;

    /// The set of the names held.
    open spec fn view(&self) -> Set<Seq<char>> {
        self.names().to_set()
    }
}

impl NameSet {
    /// The names held, in the order of their insertion.
    pub closed spec fn names(&self) -> Seq<Seq<char>> {
        self.members.names()
    }

    /// What every set that exists at run time satisfies: no name is held
    /// twice, so the view has one member per entry.
    pub open spec fn indexed(&self) -> bool {
        &&& self.names().no_duplicates()
        &&& self@.finite()
        &&& self@.len() == self.names().len()
    }

    /// The empty set.
    pub fn new() -> (s: Self)
        ensures
            s@ == Set::<Seq<char>>::empty(),
            s.names() == Seq::<Seq<char>>::empty(),
    {
        let s = NameSet { members: NameMap::new() };
        assert(s@ =~= Set::<Seq<char>>::empty());
        s
    }

    /// The number of names held.
    pub fn len(&self) -> (n: usize)
        ensures
            n == self@.len(),
            n == self.names().len(),
            self.indexed(),
    {
        self.members.len()
    }

    /// The name at index `i`.
    pub fn name_at(&self, i: usize) -> (name: &String)
        requires
            i < self.names().len(),
        ensures
            name@ == self.names()[i as int],
            self@.contains(name@),
    {
        self.members.name_at(i)
    }

    /// Whether `name` is a member.
    pub fn contains(&self, name: &String) -> (r: bool)
        ensures
            r == self@.contains(name@),
    {
        self.members.contains_key(name)
    }

    /// Adds `name`; a name already held stays where it is.
    pub fn insert(&mut self, name: String)
        ensures
            final(self)@ == old(self)@.insert(name@),
            old(self)@.contains(name@) ==> final(self).names() == old(self).names(),
            !old(self)@.contains(name@) ==> final(self).names() == old(self).names().push(name@),
    {
        let ghost before = self.members@;
        let _ = self.members.insert(name, ());
        assert(self.members@.dom() == before.insert(name@, ()).dom());
        assert(self@ =~= old(self)@.insert(name@));
    }

    /// Whether no name is a member of both sets.
    pub fn is_disjoint(&self, other: &NameSet) -> (r: bool)
        ensures
            r == self@.disjoint(other@),
    {
        let n: usize = self.len();
        let mut i: usize = 0;
        while i < n
            invariant
                i <= n,
                n == self.names().len(),
                forall|j: int| 0 <= j < i ==> !other@.contains(self.names()[j]),
            decreases n - i,
        {
            if other.contains(self.name_at(i)) {
                return false;
            }
            i += 1;
        }
        assert forall|k: Seq<char>| self@.contains(k) implies !other@.contains(k) by {
            let j = self.names().index_of(k);
            assert(0 <= j < n && self.names()[j] == k);
        }
        true
    }

    /// A copy of the names held, in their order.
    pub fn to_vec(&self) -> (r: Vec<String>)
        ensures
            names_of(r@) == self.names(),
            names_of(r@).to_set() == self@,
    {
        self.members.keys()
    }
}

} // verus!
