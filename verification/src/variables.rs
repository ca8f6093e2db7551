//! The set of variable names found in a text.

use vstd::prelude::*;
use crate::text::str_eq;

verus! {

/// A set of variable names. Each name is held once; the names come out
/// in the order in which they were first put in.
#[derive(Debug)]
pub struct VariableSet {
    names: Vec<String>,
}

impl View for VariableSet {
    type V = Set<Seq<char>>;

    closed spec fn view(&self) -> Set<Seq<char>> {
        self.listed().to_set()
    }
}

impl VariableSet {
    /// The names in the order in which they are held.
    pub closed spec fn listed(&self) -> Seq<Seq<char>> {
        Seq::new(self.names@.len(), |i: int| self.names@[i]@)
    }

    #[verifier::type_invariant]
    spec fn each_name_once(self) -> bool {
        self.listed().no_duplicates()
    }

    /// The empty set: it holds no name and lists none.
    pub fn new() -> (set: Self)
        ensures
            set@ == Set::<Seq<char>>::empty(),
            set.listed() == Seq::<Seq<char>>::empty(),
    {
        let set = VariableSet { names: Vec::new() };
        assert(set.listed() =~= Seq::empty());
        assert(set@ =~= Set::empty());
        set
    }

    /// The number of names.
    pub fn len(&self) -> (n: usize)
        ensures
            n == self@.len(),
            self@.finite(),
    {
        proof {
            use_type_invariant(self);
            self.listed().unique_seq_to_set();
            vstd::seq_lib::seq_to_set_is_finite(self.listed());
        }
        self.names.len()
    }

    /// Tests whether the set holds no name.
    pub fn is_empty(&self) -> (b: bool)
        ensures
            b == (self@ == Set::<Seq<char>>::empty()),
    {
        proof {
            if self.names@.len() > 0 {
                assert(self.listed().contains(self.listed()[0]));
                assert(self@.contains(self.listed()[0]));
            } else {
                assert(self@ =~= Set::empty());
            }
        }
        self.names.len() == 0
    }

    /// Tests whether the set holds `name`.
    pub fn contains(&self, name: &str) -> (b: bool)
        ensures
            b == self@.contains(name@),
    {
        let mut i: usize = 0;
        while i < self.names.len()
            invariant
                i <= self.names.len(),
                forall|j: int| 0 <= j < i ==> self.listed()[j] != name@,
            decreases self.names.len() - i,
        {
            if str_eq(self.names[i].as_str(), name) {
                assert(self.listed()[i as int] == name@);
                return true;
            }
            i += 1;
        }
        false
    }

    /// Puts `name` into the set and tells whether it was new. A new
    /// name comes last in the list.
    pub fn insert(&mut self, name: String) -> (fresh: bool)
        ensures
            final(self)@ == old(self)@.insert(name@),
            fresh == !old(self)@.contains(name@),
            fresh ==> final(self).listed() == old(self).listed().push(name@),
            !fresh ==> final(self).listed() == old(self).listed(),
    {
        if self.contains(name.as_str()) {
            assert(self@.insert(name@) =~= self@);
            false
        } else {
            proof {
                use_type_invariant(&*self);
            }
            let ghost before = self.listed();
            // The list is taken out, made longer and put back whole.
            let mut held = VariableSet::new();
            core::mem::swap(self, &mut held);
            let mut names = held.names;
            names.push(name);
            proof {
                let after = Seq::new(names@.len(), |i: int| names@[i]@);
                assert(after =~= before.push(name@));
                assert(!before.contains(name@));
                assert(after.no_duplicates());
                assert(after.to_set() =~= before.to_set().insert(name@)) by {
                    assert forall|x: Seq<char>| after.contains(x) <==> (before.contains(x) || x
                        == name@) by {
                        if before.contains(x) {
                            let j = choose|j: int| 0 <= j < before.len() && before[j] == x;
                            assert(after[j] == x);
                        }
                        if x == name@ {
                            assert(after[before.len() as int] == x);
                        }
                    }
                }
            }
            *self = VariableSet { names };
            true
        }
    }

    /// The names, each once, in the order in which they were first put
    /// in.
    pub fn names(&self) -> (list: &Vec<String>)
        ensures
            self.listed() == Seq::new(list@.len(), |i: int| list@[i]@),
            self.listed().no_duplicates(),
            self.listed().to_set() == self@,
            self@.finite(),
            self@.len() == list@.len(),
    {
        proof {
            use_type_invariant(self);
            self.listed().unique_seq_to_set();
            vstd::seq_lib::seq_to_set_is_finite(self.listed());
        }
        &self.names
    }
}

} // verus!
