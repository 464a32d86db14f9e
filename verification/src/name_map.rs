//! A map from names to values: no name twice.

use vstd::prelude::*;

verus! {

/// A name with the value filed under it.
#[derive(Debug)]
pub struct Entry<V> {
    pub name: String,
    pub value: V,
}

/// The names of `entries`, each as the characters it is made of.
pub open spec fn names_of<V>(entries: Seq<Entry<V>>) -> Seq<Seq<char>> {
    entries.map_values(|entry: Entry<V>| entry.name@)
}

/// Where every name occurs once, a name is found at its own place.
proof fn lemma_found_where_it_stands(keys: Seq<Seq<char>>, at: int)
    requires
        keys.no_duplicates(),
        0 <= at < keys.len(),
    ensures
        keys.contains(keys[at]),
        keys.index_of(keys[at]) == at,
{
    let found = keys.index_of(keys[at]);
    assert(0 <= found < keys.len() && keys[found] == keys[at]);
}

/// A map from names to values, with one value to a name.
#[derive(Debug)]
pub struct NameMap<V> {
    entries: Vec<Entry<V>>,
}

impl<V> View for NameMap<V> {
    type V = Map<Seq<char>, V>;

    closed spec fn view(&self) -> Map<Seq<char>, V> {
        Map::new(
            |name: Seq<char>| names_of(self.entries@).contains(name),
            |name: Seq<char>| self.entries@[names_of(self.entries@).index_of(name)].value,
        )
    }
}

impl<V> NameMap<V> {
    /// Every name stands once.
    #[verifier::type_invariant]
    closed spec fn well_formed(&self) -> bool {
        names_of(self.entries@).no_duplicates()
    }

    /// What the map holds is what stands under its names.
    proof fn lemma_view(&self)
        requires
            self.well_formed(),
        ensures
            self@.dom() == names_of(self.entries@).to_set(),
            self@.dom().finite(),
            self@.len() == self.entries@.len(),
            forall|i: int|
                0 <= i < self.entries@.len() ==> self@.contains_key(
                    #[trigger] self.entries@[i].name@,
                ) && self@[self.entries@[i].name@] == self.entries@[i].value,
    {
        let keys = names_of(self.entries@);
        assert(self@.dom() =~= keys.to_set());
        keys.unique_seq_to_set();
        vstd::seq_lib::seq_to_set_is_finite(keys);
        assert forall|i: int| 0 <= i < self.entries@.len() implies self@.contains_key(
            #[trigger] self.entries@[i].name@,
        ) && self@[self.entries@[i].name@] == self.entries@[i].value by {
            assert(keys[i] == self.entries@[i].name@);
            lemma_found_where_it_stands(keys, i);
        }
    }

    /// An empty map.
    pub fn new() -> (map: NameMap<V>)
        ensures
            map@ == Map::<Seq<char>, V>::empty(),
    {
        let map = NameMap { entries: Vec::new() };
        assert(map@ =~= Map::<Seq<char>, V>::empty());
        map
    }

    /// How many names the map holds.
    pub fn len(&self) -> (count: usize)
        ensures
            count == self@.len(),
            self@.dom().finite(),
    {
        proof {
            use_type_invariant(self);
            self.lemma_view();
        }
        self.entries.len()
    }

    /// Whether the map holds nothing.
    pub fn is_empty(&self) -> (empty: bool)
        ensures
            empty == (self@.len() == 0),
            empty == (self@ == Map::<Seq<char>, V>::empty()),
            self@.dom().finite(),
    {
        proof {
            use_type_invariant(self);
            self.lemma_view();
            if self.entries@.len() == 0 {
                assert(self@ =~= Map::<Seq<char>, V>::empty());
            } else {
                assert(self@.contains_key(self.entries@[0].name@));
            }
        }
        self.entries.len() == 0
    }

    /// The place at which `name` stands.
    fn position(&self, name: &String) -> (place: Option<usize>)
        ensures
            place is Some <==> self@.contains_key(name@),
            place matches Some(at) ==> at < self.entries@.len() && self.entries@[at as int].name@
                == name@ && self@[name@] == self.entries@[at as int].value,
    {
        proof {
            use_type_invariant(self);
            self.lemma_view();
        }
        let ghost keys = names_of(self.entries@);
        let mut at: usize = 0;
        while at < self.entries.len()
            invariant
                at <= self.entries@.len(),
                keys == names_of(self.entries@),
                forall|i: int| 0 <= i < at ==> keys[i] != name@,
            decreases self.entries@.len() - at,
        {
            if self.entries[at].name == *name {
                proof {
                    use_type_invariant(self);
                    self.lemma_view();
                }
                return Some(at);
            }
            assert(keys[at as int] == self.entries@[at as int].name@);
            at += 1;
        }
        None
    }

    /// Whether the map holds `name`.
    pub fn contains_key(&self, name: &str) -> (found: bool)
        ensures
            found == self@.contains_key(name@),
    {
        let name = name.to_owned();
        self.position(&name).is_some()
    }

    /// The value under `name`.
    pub fn get(&self, name: &str) -> (found: Option<&V>)
        ensures
            found is Some <==> self@.contains_key(name@),
            found matches Some(value) ==> *value == self@[name@],
    {
        let name = name.to_owned();
        match self.position(&name) {
            Some(at) => Some(&self.entries[at].value),
            None => None,
        }
    }

    /// Files `value` under `name` unless the name is taken, and says whether
    /// it was filed. What stands under a taken name stays.
    pub fn insert_if_absent(&mut self, name: String, value: V) -> (filed: bool)
        ensures
            filed == !old(self)@.contains_key(name@),
            final(self)@ == (if filed {
                old(self)@.insert(name@, value)
            } else {
                old(self)@
            }),
    {
        proof {
            use_type_invariant(&*self);
            self.lemma_view();
        }
        if self.position(&name).is_some() {
            return false;
        }
        let ghost before = *self;
        let ghost key = name@;
        let mut entries = Vec::new();
        std::mem::swap(&mut entries, &mut self.entries);
        entries.push(Entry { name, value });
        proof {
            let keys = names_of(before.entries@);
            let grown = names_of(entries@);
            assert(grown == keys.push(key));
            assert forall|i: int, j: int| 0 <= i < grown.len() && 0 <= j < grown.len() && i
                != j implies grown[i] != grown[j] by {
                if i < keys.len() {
                    assert(keys.contains(keys[i]));
                }
                if j < keys.len() {
                    assert(keys.contains(keys[j]));
                }
            }
        }
        self.entries = entries;
        proof {
            self.lemma_view();
            let keys = names_of(before.entries@);
            let grown = names_of(self.entries@);
            let wanted = before@.insert(key, value);
            assert forall|name: Seq<char>| self@.contains_key(name) <==> wanted.contains_key(
                name,
            ) by {
                if grown.contains(name) {
                    let at = grown.index_of(name);
                    if at < keys.len() {
                        assert(keys[at] == name);
                    }
                }
                if keys.contains(name) {
                    let at = keys.index_of(name);
                    assert(grown[at] == name);
                }
                assert(grown[keys.len() as int] == key);
            }
            assert forall|name: Seq<char>| self@.contains_key(name) implies self@[name]
                == wanted[name] by {
                let at = grown.index_of(name);
                lemma_found_where_it_stands(grown, at);
                if at < keys.len() {
                    assert(keys[at] == name);
                    lemma_found_where_it_stands(keys, at);
                }
            }
            assert(self@ =~= wanted);
        }
        true
    }

    /// Takes `name` out of the map and hands back what stood under it.
    pub fn remove(&mut self, name: &str) -> (taken: Option<V>)
        ensures
            taken is Some <==> old(self)@.contains_key(name@),
            taken matches Some(value) ==> value == old(self)@[name@],
            final(self)@ == old(self)@.remove(name@),
    {
        proof {
            use_type_invariant(&*self);
            self.lemma_view();
        }
        let ghost before = *self;
        let owned = name.to_owned();
        let at = match self.position(&owned) {
            Some(at) => at,
            None => {
                assert(self@ =~= self@.remove(name@));
                return None;
            },
        };
        let mut entries = Vec::new();
        std::mem::swap(&mut entries, &mut self.entries);
        let entry = entries.remove(at);
        proof {
            let keys = names_of(before.entries@);
            let fewer = names_of(entries@);
            assert(fewer == keys.remove(at as int));
            assert forall|i: int, j: int| 0 <= i < fewer.len() && 0 <= j < fewer.len() && i
                != j implies fewer[i] != fewer[j] by {
                let from_i = if i < at { i } else { i + 1 };
                let from_j = if j < at { j } else { j + 1 };
                assert(fewer[i] == keys[from_i]);
                assert(fewer[j] == keys[from_j]);
            }
        }
        self.entries = entries;
        proof {
            self.lemma_view();
            let keys = names_of(before.entries@);
            let fewer = names_of(self.entries@);
            let wanted = before@.remove(name@);
            assert(keys[at as int] == name@);
            assert forall|key: Seq<char>| self@.contains_key(key) <==> wanted.contains_key(
                key,
            ) by {
                if fewer.contains(key) {
                    let i = fewer.index_of(key);
                    let from = if i < at { i } else { i + 1 };
                    assert(keys[from] == key);
                }
                if keys.contains(key) && key != name@ {
                    let i = keys.index_of(key);
                    let to = if i < at { i } else { i - 1 };
                    assert(fewer[to] == key);
                }
            }
            assert forall|key: Seq<char>| self@.contains_key(key) implies self@[key]
                == wanted[key] by {
                let i = fewer.index_of(key);
                lemma_found_where_it_stands(fewer, i);
                let from = if i < at { i } else { i + 1 };
                assert(keys[from] == key);
                lemma_found_where_it_stands(keys, from);
            }
            assert(self@ =~= wanted);
        }
        Some(entry.value)
    }

    /// The names with their values, one entry to a name.
    pub fn entries(&self) -> (entries: &Vec<Entry<V>>)
        ensures
            entries@.len() == self@.len(),
            names_of(entries@).no_duplicates(),
            forall|i: int|
                0 <= i < entries@.len() ==> self@.contains_key(#[trigger] entries@[i].name@)
                    && self@[entries@[i].name@] == entries@[i].value,
            forall|name: Seq<char>|
                self@.contains_key(name) ==> names_of(entries@).contains(name),
    {
        proof {
            use_type_invariant(self);
            self.lemma_view();
        }
        &self.entries
    }
}

} // verus!
