//! The values to put in the place of variables.

use vstd::prelude::*;
use crate::text::str_eq;

verus! {

/// Some entry of `pairs` has the key `key`.
pub open spec fn holds_key(pairs: Seq<(Seq<char>, Seq<char>)>, key: Seq<char>) -> bool {
    exists|i: int| 0 <= i < pairs.len() && #[trigger] pairs[i].0 == key
}

/// The place of an entry of `pairs` with the key `key`.
pub open spec fn place_of(pairs: Seq<(Seq<char>, Seq<char>)>, key: Seq<char>) -> int {
    choose|i: int| 0 <= i < pairs.len() && #[trigger] pairs[i].0 == key
}

/// No two entries of `pairs` have the same key.
pub open spec fn distinct_keys(pairs: Seq<(Seq<char>, Seq<char>)>) -> bool {
    forall|i: int, j: int|
        0 <= i < pairs.len() && 0 <= j < pairs.len() && i != j ==> #[trigger] pairs[i].0
            != #[trigger] pairs[j].0
}

/// The map that a list of entries with distinct keys stands for.
pub open spec fn map_of(pairs: Seq<(Seq<char>, Seq<char>)>) -> Map<Seq<char>, Seq<char>> {
    Map::new(|key: Seq<char>| holds_key(pairs, key), |key: Seq<char>| pairs[place_of(pairs, key)].1)
}

/// The keys of `pairs`, in order.
pub open spec fn keys_of(pairs: Seq<(Seq<char>, Seq<char>)>) -> Seq<Seq<char>> {
    Seq::new(pairs.len(), |i: int| pairs[i].0)
}

/// A list of entries with distinct keys stands for a finite map with
/// as many keys as the list is long.
proof fn lemma_map_of(pairs: Seq<(Seq<char>, Seq<char>)>)
    requires
        distinct_keys(pairs),
    ensures
        map_of(pairs).dom().finite(),
        map_of(pairs).dom().len() == pairs.len(),
        forall|i: int|
            0 <= i < pairs.len() ==> map_of(pairs).dom().contains(#[trigger] pairs[i].0) && map_of(
                pairs,
            )[pairs[i].0] == pairs[i].1,
{
    let keys = keys_of(pairs);
    assert(keys.no_duplicates()) by {
        assert forall|i: int, j: int| 0 <= i < keys.len() && 0 <= j < keys.len() && i != j implies keys[i]
            != keys[j] by {
            assert(pairs[i].0 != pairs[j].0);
        }
    }
    assert(map_of(pairs).dom() =~= keys.to_set()) by {
        assert forall|key: Seq<char>| holds_key(pairs, key) <==> keys.contains(key) by {
            if holds_key(pairs, key) {
                let i = place_of(pairs, key);
                assert(keys[i] == key);
            }
            if keys.contains(key) {
                let i = choose|i: int| 0 <= i < keys.len() && keys[i] == key;
                assert(pairs[i].0 == key);
            }
        }
    }
    keys.unique_seq_to_set();
    vstd::seq_lib::seq_to_set_is_finite(keys);
    assert forall|i: int| 0 <= i < pairs.len() implies map_of(pairs).dom().contains(
        #[trigger] pairs[i].0,
    ) && map_of(pairs)[pairs[i].0] == pairs[i].1 by {
        let j = place_of(pairs, pairs[i].0);
        assert(pairs[j].0 == pairs[i].0);
    }
}

/// A map from variable names to the values that replace them.
#[derive(Debug)]
pub struct Substitutions {
    entries: Vec<(String, String)>,
}

impl View for Substitutions {
    type V = Map<Seq<char>, Seq<char>>;

    closed spec fn view(&self) -> Map<Seq<char>, Seq<char>> {
        map_of(self.pairs())
    }
}

impl Substitutions {
    /// The entries in the order in which they are held.
    pub closed spec fn pairs(&self) -> Seq<(Seq<char>, Seq<char>)> {
        Seq::new(self.entries@.len(), |i: int| (self.entries@[i].0@, self.entries@[i].1@))
    }

    #[verifier::type_invariant]
    spec fn each_key_once(self) -> bool {
        distinct_keys(self.pairs())
    }

    /// The map without entries.
    pub fn new() -> (map: Self)
        ensures
            map@ == Map::<Seq<char>, Seq<char>>::empty(),
    {
        let map = Substitutions { entries: Vec::new() };
        assert(map@ =~= Map::empty());
        map
    }

    /// The number of entries.
    pub fn len(&self) -> (n: usize)
        ensures
            n == self@.dom().len(),
            self@.dom().finite(),
    {
        proof {
            use_type_invariant(self);
            lemma_map_of(self.pairs());
        }
        self.entries.len()
    }

    /// Tests whether the map has no entry.
    pub fn is_empty(&self) -> (b: bool)
        ensures
            b == (self@ == Map::<Seq<char>, Seq<char>>::empty()),
    {
        proof {
            use_type_invariant(self);
            lemma_map_of(self.pairs());
            if self.entries@.len() > 0 {
                assert(self@.dom().contains(self.pairs()[0].0));
            } else {
                assert(self@ =~= Map::empty());
            }
        }
        self.entries.len() == 0
    }

    /// The place of the entry for `key`, if there is one.
    fn find(&self, key: &str) -> (r: Option<usize>)
        ensures
            r is Some ==> r.unwrap() < self.pairs().len() && self.pairs()[r.unwrap() as int].0
                == key@,
            r is None ==> !holds_key(self.pairs(), key@),
    {
        let mut i: usize = 0;
        while i < self.entries.len()
            invariant
                i <= self.entries.len(),
                forall|j: int| 0 <= j < i ==> (#[trigger] self.pairs()[j]).0 != key@,
            decreases self.entries.len() - i,
        {
            if str_eq(self.entries[i].0.as_str(), key) {
                return Some(i);
            }
            i += 1;
        }
        None
    }

    /// Tests whether the map has an entry for `key`.
    pub fn contains_key(&self, key: &str) -> (b: bool)
        ensures
            b == self@.dom().contains(key@),
    {
        self.find(key).is_some()
    }

    /// The value for `key`, if the map has one.
    pub fn get(&self, key: &str) -> (value: Option<&String>)
        ensures
            value is Some <==> self@.dom().contains(key@),
            value is Some ==> value.unwrap()@ == self@[key@],
    {
        match self.find(key) {
            Some(i) => {
                proof {
                    use_type_invariant(self);
                    lemma_map_of(self.pairs());
                }
                Some(&self.entries[i].1)
            },
            None => None,
        }
    }

    /// Gives `key` the value `value`, in place of the one it had if it
    /// had one.
    pub fn insert(&mut self, key: String, value: String)
        ensures
            final(self)@ == old(self)@.insert(key@, value@),
    {
        proof {
            use_type_invariant(&*self);
            lemma_map_of(self.pairs());
        }
        let ghost before = self.pairs();
        let found = self.find(key.as_str());
        // The list is taken out, changed and put back whole.
        let mut held = Substitutions::new();
        core::mem::swap(self, &mut held);
        let mut entries = held.entries;
        let ghost pair = (key@, value@);
        match found {
            Some(i) => {
                entries.set(i, (key, value));
            },
            None => {
                entries.push((key, value));
            },
        }
        proof {
            let after = Seq::new(entries@.len(), |i: int| (entries@[i].0@, entries@[i].1@));
            match found {
                Some(i) => {
                    assert(after =~= before.update(i as int, pair));
                },
                None => {
                    assert(after =~= before.push(pair));
                },
            }
            assert(distinct_keys(after));
            lemma_map_of(after);
            assert(map_of(after) =~= map_of(before).insert(pair.0, pair.1)) by {
                assert forall|k: Seq<char>| holds_key(after, k) <==> (holds_key(before, k) || k
                    == pair.0) by {
                    if holds_key(after, k) {
                        let j = place_of(after, k);
                        if k != pair.0 {
                            assert(before[j].0 == k);
                        }
                    }
                    if holds_key(before, k) {
                        let j = place_of(before, k);
                        assert(after[j].0 == k);
                    }
                    if k == pair.0 {
                        match found {
                            Some(i) => {
                                assert(after[i as int].0 == k);
                            },
                            None => {
                                assert(after[before.len() as int].0 == k);
                            },
                        }
                    }
                }
                assert forall|k: Seq<char>| holds_key(after, k) implies map_of(after)[k] == map_of(
                    before,
                ).insert(pair.0, pair.1)[k] by {
                    let j = place_of(after, k);
                    assert(after[j].0 == k);
                    if k != pair.0 {
                        assert(before[j].0 == k);
                        assert(before[j].1 == after[j].1);
                    }
                }
            }
        }
        *self = Substitutions { entries };
    }
}

} // verus!
