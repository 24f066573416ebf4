//! Sets of names.

use vstd::prelude::*;

use crate::text;

verus! {

/// A set of names.
#[derive(Debug)]
pub struct NameSet {
    names: Vec<String>,
}

impl View for NameSet {
    type V = Set<Seq<char>>;

    closed spec fn view(&self) -> Set<Seq<char>> {
        text::texts_view(self.names@).to_set()
    }
}

impl NameSet {
    /// No name is held twice.
    #[verifier::type_invariant]
    spec fn distinct(self) -> bool {
        text::texts_view(self.names@).no_duplicates()
    }

    /// The set without names.
    pub fn new() -> (names: NameSet)
        ensures
            names@ == Set::<Seq<char>>::empty(),
    {
        let names: Vec<String> = Vec::new();
        assert(text::texts_view(names@).to_set() =~= Set::<Seq<char>>::empty());
        NameSet { names }
    }

    /// Tells whether a name is in the set.
    pub fn contains(&self, name: &str) -> (found: bool)
        ensures
            found == self@.contains(name@),
    {
        let ghost views = text::texts_view(self.names@);
        for i in 0..self.names.len()
            invariant
                views == text::texts_view(self.names@),
                forall|j: int| 0 <= j < i ==> #[trigger] views[j] != name@,
        {
            assert(views[i as int] == self.names@[i as int]@);
            if text::same_text(self.names[i].as_str(), name) {
                return true;
            }
        }
        false
    }

    /// Puts a name into the set.
    pub fn insert(&mut self, name: &str)
        ensures
            final(self)@ == old(self)@.insert(name@),
    {
        if self.contains(name) {
            assert(self@.insert(name@) =~= self@);
            return;
        }
        proof {
            use_type_invariant(&*self);
        }
        let ghost before = text::texts_view(self.names@);
        let mut names: Vec<String> = Vec::new();
        std::mem::swap(&mut names, &mut self.names);
        names.push(name.to_owned());
        proof {
            let after = text::texts_view(names@);
            assert(after =~= before.push(name@));
            assert(after.to_set() =~= before.to_set().insert(name@)) by {
                assert(after[before.len() as int] == name@);
                assert forall|one: Seq<char>| before.contains(one) implies after.contains(one) by {
                    let i = choose|i: int| 0 <= i < before.len() && before[i] == one;
                    assert(after[i] == one);
                }
            }
        }
        self.names = names;
    }
}

impl Default for NameSet {
    fn default() -> (names: Self)
        ensures
            names@ == Set::<Seq<char>>::empty(),
    {
        NameSet::new()
    }
}

} // verus!
