//! A set of characters.
//!
//! The set is held as a list without repeats. A hash set of `char`s would
//! serve as well at run time, but nothing could be proved of one: there is no
//! model of how a `char` is hashed.

use vstd::prelude::*;
use vstd::seq_lib::*;
use vstd::set_lib::*;

verus! {

/// A finite set of characters. Its view is the set itself.
pub struct CharSet {
    chars: Vec<char>,
}

impl View for CharSet {
    type V = Set<char>;

    closed spec fn view(&self) -> Set<char> {
        self.chars@.to_set()
    }
}

impl CharSet {
    #[verifier::type_invariant]
    spec fn distinct(self) -> bool {
        self.chars@.no_duplicates()
    }

    /// The empty set.
    pub fn new() -> (set: CharSet)
        ensures
            set@ == Set::<char>::empty(),
    {
        let set = CharSet { chars: Vec::new() };
        set
    }

    /// Whether `c` is in the set.
    pub fn contains(&self, c: char) -> (found: bool)
        ensures
            found == self@.contains(c),
    {
        let mut i: usize = 0;
        while i < self.chars.len()
            invariant
                i <= self.chars.len(),
                forall|j: int| 0 <= j < i ==> self.chars@[j] != c,
            decreases self.chars.len() - i,
        {
            if self.chars[i] == c {
                return true;
            }
            i += 1;
        }
        false
    }

    /// Adds `c` to the set; the result says whether it was new.
    pub fn insert(&mut self, c: char) -> (added: bool)
        ensures
            final(self)@ == old(self)@.insert(c),
            added == !old(self)@.contains(c),
    {
        proof {
            use_type_invariant(&*self);
        }
        if self.contains(c) {
            false
        } else {
            let mut chars: Vec<char> = Vec::new();
            std::mem::swap(&mut chars, &mut self.chars);
            chars.push(c);
            proof {
                old(self).chars@.lemma_push_to_set_commute(c);
            }
            self.chars = chars;
            true
        }
    }

    /// How many characters the set holds.
    pub fn len(&self) -> (count: usize)
        ensures
            count == self@.len(),
    {
        proof {
            use_type_invariant(self);
            self.chars@.unique_seq_to_set();
        }
        self.chars.len()
    }

    /// The characters of the set, each once.
    pub fn to_vec(&self) -> (chars: Vec<char>)
        ensures
            chars@.no_duplicates(),
            chars@.to_set() == self@,
    {
        proof {
            use_type_invariant(self);
        }
        let mut chars: Vec<char> = Vec::new();
        let mut i: usize = 0;
        while i < self.chars.len()
            invariant
                i <= self.chars.len(),
                chars@ == self.chars@.take(i as int),
            decreases self.chars.len() - i,
        {
            chars.push(self.chars[i]);
            i += 1;
        }
        assert(self.chars@.take(self.chars@.len() as int) =~= self.chars@);
        chars
    }

    /// How many characters this set and `other` have in common.
    pub fn common(&self, other: &CharSet) -> (count: usize)
        ensures
            count == self@.intersect(other@).len(),
    {
        proof {
            use_type_invariant(self);
        }
        let mut count: usize = 0;
        let mut i: usize = 0;
        assert(self.chars@.take(0).to_set().intersect(other@) =~= Set::<char>::empty());
        while i < self.chars.len()
            invariant
                i <= self.chars.len(),
                count <= i,
                self.chars@.no_duplicates(),
                count == self.chars@.take(i as int).to_set().intersect(other@).len(),
            decreases self.chars.len() - i,
        {
            let c = self.chars[i];
            let shared = other.contains(c);
            proof {
                let seen = self.chars@.take(i as int);
                let next = self.chars@.take(i + 1);
                assert(next =~= seen.push(c));
                seen.lemma_push_to_set_commute(c);
                seq_to_set_is_finite(seen);
                let met = seen.to_set().intersect(other@);
                if shared {
                    assert(next.to_set().intersect(other@) =~= met.insert(c));
                } else {
                    assert(next.to_set().intersect(other@) =~= met);
                }
            }
            if shared {
                count += 1;
            }
            i += 1;
        }
        assert(self.chars@.take(self.chars@.len() as int) =~= self.chars@);
        count
    }
}

impl Clone for CharSet {
    fn clone(&self) -> (copy: CharSet)
        ensures
            copy@ == self@,
    {
        proof {
            use_type_invariant(self);
        }
        let chars = self.to_vec();
        proof {
            chars@.unique_seq_to_set();
        }
        CharSet { chars }
    }
}

} // verus!
