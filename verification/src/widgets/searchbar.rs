use vstd::prelude::*;

verus! {

/// `String::push` appends the character to the end of the string.
pub assume_specification[ String::push ](s: &mut String, ch: char)
    ensures
        final(s)@ == old(s)@.push(ch),
;

/// `String::pop` removes the last character of the string and returns it;
/// it returns `None` and removes nothing where the string is empty.
pub assume_specification[ String::pop ](s: &mut String) -> (last: Option<char>)
    ensures
        old(s)@.len() == 0 ==> last is None && final(s)@ == old(s)@,
        old(s)@.len() > 0 ==> last == Some(old(s)@.last()) && final(s)@ == old(s)@.drop_last(),
;

/// `String::clear` removes all the contents of the string.
pub assume_specification[ String::clear ](s: &mut String)
    ensures
        final(s)@ == Seq::<char>::empty(),
;

/// The bar in which the prompt is typed. Its view is the prompt.
pub struct Searchbar {
    search: String,
}

impl View for Searchbar {
    type V = Seq<char>;

    closed spec fn view(&self) -> Seq<char> {
        self.search@
    }
}

impl Default for Searchbar {
    fn default() -> (bar: Searchbar)
        ensures
            bar@ == Seq::<char>::empty(),
    {
        Searchbar { search: String::new() }
    }
}

impl Searchbar {
    /// The prompt as it stands.
    pub fn content(&self) -> (content: &str)
        ensures
            content@ == self@,
    {
        self.search.as_str()
    }

    /// Adds `c` to the end of the prompt.
    pub fn push(&mut self, c: char)
        ensures
            final(self)@ == old(self)@.push(c),
    {
        self.search.push(c);
    }

    /// Takes the last character off the prompt; an empty prompt stays empty.
    pub fn pop(&mut self)
        ensures
            final(self)@ == if old(self)@.len() == 0 {
                old(self)@
            } else {
                old(self)@.drop_last()
            },
    {
        self.search.pop();
    }

    /// Empties the prompt.
    pub fn clear(&mut self)
        ensures
            final(self)@ == Seq::<char>::empty(),
    {
        self.search.clear();
    }
}

} // verus!
