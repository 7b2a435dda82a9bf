//! A map from names to values that remembers the order in which names came in.
use crate::text;
use vstd::prelude::*;

verus! {

/// A map from names to values. A name occurs at most once; names keep the
/// order in which they were first inserted.
#[derive(Debug)]
pub struct NameMap<V> {
    entries: Vec<(String, V)>,
}

/// The names of a list of entries, in order.
spec fn names_of<V>(entries: Seq<(String, V)>) -> Seq<Seq<char>> {
    Seq::new(entries.len(), |i: int| entries[i].0@)
}

/// The contents of a list of entries, as a map.
spec fn map_of<V>(entries: Seq<(String, V)>) -> Map<Seq<char>, V> {
    Map::new(
        |k: Seq<char>| names_of(entries).contains(k),
        |k: Seq<char>| entries[names_of(entries).index_of(k)].1,
    )
}

/// In a list without repeated names, an entry is found under its name.
proof fn lemma_lookup<V>(entries: Seq<(String, V)>, i: int)
    requires
        names_of(entries).no_duplicates(),
        0 <= i < entries.len(),
    ensures
        map_of(entries).dom().contains(entries[i].0@),
        map_of(entries)[entries[i].0@] == entries[i].1,
{
    let names = names_of(entries);
    assert(names[i] == entries[i].0@);
    let j = names.index_of(names[i]);
    assert(0 <= j < names.len() && names[j] == names[i]);
}

impl<V> View for NameMap<V> {
    type V = Map<Seq<char>, V>;

    closed spec fn view(&self) -> Map<Seq<char>, V> {
        map_of(self.entries@)
    }
}

impl<V> NameMap<V> {
    /// The names, in the order in which they came in.
    pub closed spec fn names(&self) -> Seq<Seq<char>> {
        names_of(self.entries@)
    }

    #[verifier::type_invariant]
    spec fn distinct(&self) -> bool {
        names_of(self.entries@).no_duplicates()
    }

    /// The names of a map are those it has a value for.
    pub proof fn lemma_names(&self)
        ensures
            forall|k: Seq<char>| #[trigger] self@.dom().contains(k) <==> self.names().contains(k),
    {
        assert(self@.dom() =~= self.names().to_set());

    }

    /// A map has finitely many names.
    pub proof fn lemma_finite(&self)
        ensures
            self@.dom().finite(),
    {
        let names = self.names();
        assert(self@.dom() =~= names.to_set());
        vstd::seq_lib::seq_to_set_is_finite(names);
    }

    /// A map without entries.
    pub fn new() -> (r: Self)
        ensures
            r@ == Map::<Seq<char>, V>::empty(),
            r.names() == Seq::<Seq<char>>::empty(),
    {
        let r = NameMap { entries: Vec::new() };
        proof {
            assert(r@ =~= Map::<Seq<char>, V>::empty());
            assert(r.names() =~= Seq::<Seq<char>>::empty());
        }
        r
    }

    /// The number of names.
    pub fn len(&self) -> (r: usize)
        ensures
            r == self.names().len(),
            self.names().no_duplicates(),
    {
        proof {
            use_type_invariant(self);
        }
        self.entries.len()
    }

    /// Whether there are no entries.
    pub fn is_empty(&self) -> (r: bool)
        ensures
            r == (self.names().len() == 0),
            r == (self@ == Map::<Seq<char>, V>::empty()),
    {
        proof {
            if self.entries@.len() == 0 {
                assert(self@ =~= Map::<Seq<char>, V>::empty());
            } else {
                use_type_invariant(self);
                lemma_lookup(self.entries@, 0);
            }
        }
        self.entries.len() == 0
    }

    /// The name at a position.
    pub fn name_at(&self, i: usize) -> (r: &String)
        requires
            i < self.names().len(),
        ensures
            r@ == self.names()[i as int],
            self@.dom().contains(r@),
            self.names().no_duplicates(),
    {
        proof {
            use_type_invariant(self);
            lemma_lookup(self.entries@, i as int);
        }
        &self.entries[i].0
    }

    /// The value at a position.
    pub fn value_at(&self, i: usize) -> (r: &V)
        requires
            i < self.names().len(),
        ensures
            self@.dom().contains(self.names()[i as int]),
            *r == self@[self.names()[i as int]],
    {
        proof {
            use_type_invariant(self);
            lemma_lookup(self.entries@, i as int);
        }
        &self.entries[i].1
    }

    /// The position of a name.
    pub fn position(&self, name: &str) -> (r: Option<usize>)
        ensures
            match r {
                Some(i) => i < self.names().len() && self.names()[i as int] == name@,
                None => !self.names().contains(name@),
            },
    {
        let mut i: usize = 0;
        while i < self.entries.len()
            invariant
                i <= self.entries.len(),
                forall|j: int| 0 <= j < i ==> self.entries@[j].0@ != name@,
            decreases self.entries.len() - i,
        {
            if text::same(self.entries[i].0.as_str(), name) {
                return Some(i);
            }
            i += 1;
        }
        None
    }

    /// Whether a name has a value.
    pub fn contains_key(&self, name: &str) -> (r: bool)
        ensures
            r == self@.dom().contains(name@),
    {
        match self.position(name) {
            Some(i) => {
                proof {
                    assert(self.names()[i as int] == name@);
                }
                true
            },
            None => false,
        }
    }

    /// The value of a name.
    pub fn get(&self, name: &str) -> (r: Option<&V>)
        ensures
            match r {
                Some(v) => self@.dom().contains(name@) && *v == self@[name@],
                None => !self@.dom().contains(name@),
            },
    {
        match self.position(name) {
            Some(i) => {
                proof {
                    use_type_invariant(self);
                    lemma_lookup(self.entries@, i as int);
                }
                Some(&self.entries[i].1)
            },
            None => None,
        }
    }

    /// Gives a name a value, in place of the one it had.
    pub fn insert(&mut self, name: String, value: V)
        ensures
            final(self)@ == old(self)@.insert(name@, value),
            final(self).names() == if old(self)@.dom().contains(name@) {
                old(self).names()
            } else {
                old(self).names().push(name@)
            },
    {
        proof {
            use_type_invariant(&*self);
        }
        let found = self.position(name.as_str());
        let ghost before = self.entries@;
        let ghost old_map = self@;
        let mut entries: Vec<(String, V)> = Vec::new();
        std::mem::swap(&mut entries, &mut self.entries);
        let ghost key = name@;
        match found {
            Some(i) => {
                entries.set(i, (name, value));
                proof {
                    let after = entries@;
                    assert(names_of(after) =~= names_of(before));
                    assert(names_of(before)[i as int] == key);
                    assert forall|k: Seq<char>| #[trigger]
                        map_of(after).dom().contains(k) implies map_of(after)[k] == old_map.insert(
                        key,
                        value,
                    )[k] by {
                        let j = names_of(after).index_of(k);
                        assert(names_of(after)[j] == k);
                        if k == key {
                            assert(j == i);
                        }
                    }
                    assert(map_of(after) =~= old_map.insert(key, value));
                }
            },
            None => {
                entries.push((name, value));
                proof {
                    let after = entries@;
                    assert(names_of(after) =~= names_of(before).push(key));
                    assert(names_of(after)[before.len() as int] == key);
                    assert forall|k: Seq<char>| #[trigger]
                        map_of(after).dom().contains(k) <==> old_map.insert(
                            key,
                            value,
                        ).dom().contains(k) by {
                        if names_of(before).contains(k) {
                            let j = names_of(before).index_of(k);
                            assert(names_of(after)[j] == k);
                        }
                        if names_of(after).contains(k) && k != key {
                            let j = names_of(after).index_of(k);
                            assert(names_of(before)[j] == k);
                        }
                    }
                    assert forall|k: Seq<char>| #[trigger]
                        map_of(after).dom().contains(k) implies map_of(after)[k] == old_map.insert(
                        key,
                        value,
                    )[k] by {
                        let j = names_of(after).index_of(k);
                        assert(names_of(after)[j] == k);
                        if k == key {
                            assert(j == before.len());
                        } else {
                            assert(names_of(before)[j] == k);
                            let j2 = names_of(before).index_of(k);
                            assert(names_of(before)[j2] == k);
                            assert(j == j2);
                        }
                    }
                    assert(map_of(after) =~= old_map.insert(key, value));
                }
            },
        }
        self.entries = entries;
    }

    /// Takes the entry at a position out.
    pub fn take_at(&mut self, i: usize) -> (r: (String, V))
        requires
            i < old(self).names().len(),
        ensures
            r.0@ == old(self).names()[i as int],
            old(self)@.dom().contains(r.0@),
            r.1 == old(self)@[r.0@],
            final(self)@ == old(self)@.remove(r.0@),
            final(self).names() == old(self).names().remove(i as int),
    {
        proof {
            use_type_invariant(&*self);
        }
        let ghost before = self.entries@;
        let ghost old_map = self@;
        let mut entries: Vec<(String, V)> = Vec::new();
        std::mem::swap(&mut entries, &mut self.entries);
        let r = entries.remove(i);
        let ghost after = entries@;
        let ghost key = r.0@;
        proof {
            let names = names_of(before);
            assert(names_of(after) =~= names.remove(i as int));
            assert(names[i as int] == key);
            lemma_lookup(before, i as int);
            assert forall|x: int, y: int|
                0 <= x < y < after.len() implies names_of(after)[x] != names_of(after)[y] by {
                let x2 = if x < i {
                    x
                } else {
                    x + 1
                };
                let y2 = if y < i {
                    y
                } else {
                    y + 1
                };
                assert(names[x2] == names_of(after)[x]);
                assert(names[y2] == names_of(after)[y]);
            }
            assert forall|k: Seq<char>| #[trigger]
                map_of(after).dom().contains(k) <==> old_map.remove(key).dom().contains(k) by {
                if names_of(after).contains(k) {
                    let j = names_of(after).index_of(k);
                    let j2 = if j < i {
                        j
                    } else {
                        j + 1
                    };
                    assert(names[j2] == k);
                }
                if names.contains(k) && k != key {
                    let j = names.index_of(k);
                    assert(names[j] == k);
                    let j2 = if j < i {
                        j
                    } else {
                        j - 1
                    };
                    assert(names_of(after)[j2] == k);
                }
            }
            assert forall|k: Seq<char>| #[trigger]
                map_of(after).dom().contains(k) implies map_of(after)[k] == old_map.remove(key)[k] by {
                let j = names_of(after).index_of(k);
                assert(names_of(after)[j] == k);
                let j2 = if j < i {
                    j
                } else {
                    j + 1
                };
                lemma_lookup(before, j2);
                assert(before[j2] == after[j]);
            }
            assert(map_of(after) =~= old_map.remove(key));
        }
        self.entries = entries;
        r
    }

    /// Puts an entry in at a position.
    pub fn put_at(&mut self, i: usize, name: String, value: V)
        requires
            i <= old(self).names().len(),
            !old(self)@.dom().contains(name@),
        ensures
            final(self)@ == old(self)@.insert(name@, value),
            final(self).names() == old(self).names().insert(i as int, name@),
    {
        proof {
            use_type_invariant(&*self);
        }
        let ghost before = self.entries@;
        let ghost old_map = self@;
        let ghost key = name@;
        let mut entries: Vec<(String, V)> = Vec::new();
        std::mem::swap(&mut entries, &mut self.entries);
        entries.insert(i, (name, value));
        let ghost after = entries@;
        proof {
            let names = names_of(before);
            assert(names_of(after) =~= names.insert(i as int, key));
            assert(names_of(after)[i as int] == key);
            assert(!names.contains(key));
            assert forall|x: int, y: int|
                0 <= x < y < after.len() implies names_of(after)[x] != names_of(after)[y] by {
                if x != i && y != i {
                    let x2 = if x < i {
                        x
                    } else {
                        x - 1
                    };
                    let y2 = if y < i {
                        y
                    } else {
                        y - 1
                    };
                    assert(names[x2] == names_of(after)[x]);
                    assert(names[y2] == names_of(after)[y]);
                } else if x == i {
                    assert(names[y - 1] == names_of(after)[y]);
                } else {
                    assert(names[x] == names_of(after)[x]);
                }
            }
            assert forall|k: Seq<char>| #[trigger]
                map_of(after).dom().contains(k) <==> old_map.insert(
                    key,
                    value,
                ).dom().contains(k) by {
                if names.contains(k) {
                    let j = names.index_of(k);
                    assert(names[j] == k);
                    let j2 = if j < i {
                        j
                    } else {
                        j + 1
                    };
                    assert(names_of(after)[j2] == k);
                }
                if names_of(after).contains(k) && k != key {
                    let j = names_of(after).index_of(k);
                    assert(names_of(after)[j] == k);
                    let j2 = if j < i {
                        j
                    } else {
                        j - 1
                    };
                    assert(names[j2] == k);
                }
            }
            assert forall|k: Seq<char>| #[trigger]
                map_of(after).dom().contains(k) implies map_of(after)[k] == old_map.insert(
                key,
                value,
            )[k] by {
                let j = names_of(after).index_of(k);
                assert(names_of(after)[j] == k);
                if k == key {
                    assert(j == i);
                } else {
                    let j2 = if j < i {
                        j
                    } else {
                        j - 1
                    };
                    assert(before[j2] == after[j]);
                    lemma_lookup(before, j2);
                }
            }
            assert(map_of(after) =~= old_map.insert(key, value));
        }
        self.entries = entries;
    }
}

} // verus!
