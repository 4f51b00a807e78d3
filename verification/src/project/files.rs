//! The files of a project, in the order in which they are listed.

use vstd::prelude::*;
use crate::order::{arrange, in_order, views, Key};
use crate::project::Project;
use crate::text::{chars_of, lowercased, to_lowercase};

verus! {

/// A file or a directory inside a project.
#[derive(Debug)]
pub struct FileEntry {
    /// How the path of the file is written.
    pub path: String,
    /// How the name of the file is written.
    pub name: String,
    /// Whether it is a directory.
    pub is_dir: bool,
}

/// A file or a directory inside a project, as texts.
pub struct File {
    /// How the path of the file is written.
    pub path: Seq<char>,
    /// How the name of the file is written.
    pub name: Seq<char>,
    /// Whether it is a directory.
    pub is_dir: bool,
}

impl View for FileEntry {
    type V = File;

    open spec fn view(&self) -> File {
        File { path: self.path@, name: self.name@, is_dir: self.is_dir }
    }
}

/// Whether the text `a` comes no later than the text `b` where texts are
/// ordered character by character: at the first place where the two differ
/// `a` has the smaller character, or `a` ends there.
pub open spec fn text_no_later(a: Seq<char>, b: Seq<char>) -> bool
    decreases a.len(),
{
    if a.len() == 0 {
        true
    } else if b.len() == 0 {
        false
    } else if a[0] != b[0] {
        a[0] < b[0]
    } else {
        text_no_later(a.drop_first(), b.drop_first())
    }
}

/// Of two texts one comes no later than the other.
pub proof fn lemma_texts_are_comparable(a: Seq<char>, b: Seq<char>)
    ensures
        text_no_later(a, b) || text_no_later(b, a),
    decreases a.len(),
{
    if a.len() > 0 && b.len() > 0 && a[0] == b[0] {
        lemma_texts_are_comparable(a.drop_first(), b.drop_first());
    }
}

/// A text that comes no later than a second, which comes no later than a
/// third, comes no later than the third.
pub proof fn lemma_text_order_is_transitive(a: Seq<char>, b: Seq<char>, c: Seq<char>)
    requires
        text_no_later(a, b),
        text_no_later(b, c),
    ensures
        text_no_later(a, c),
    decreases a.len(),
{
    if a.len() > 0 && b.len() > 0 && c.len() > 0 && a[0] == b[0] && b[0] == c[0] {
        lemma_text_order_is_transitive(a.drop_first(), b.drop_first(), c.drop_first());
    }
}

/// `s` without the dots at its start.
pub open spec fn without_leading_dots(s: Seq<char>) -> Seq<char>
    decreases s.len(),
{
    if s.len() > 0 && s[0] == '.' {
        without_leading_dots(s.drop_first())
    } else {
        s
    }
}

/// What a file is listed by: whether it is a directory, and its name in
/// lower case without the dots at its start.
pub struct ListingKey {
    is_dir: bool,
    name: Vec<char>,
}

impl View for ListingKey {
    type V = (bool, Seq<char>);

    closed spec fn view(&self) -> (bool, Seq<char>) {
        (self.is_dir, self.name@)
    }
}

/// What the file `file` is listed by.
pub open spec fn listing_key(file: File) -> (bool, Seq<char>) {
    (file.is_dir, without_leading_dots(lowercased(file.name)))
}

impl Key for ListingKey {
    /// Directories come before files; among directories, and among files,
    /// the names decide.
    open spec fn no_later(a: (bool, Seq<char>), b: (bool, Seq<char>)) -> bool {
        if a.0 == b.0 {
            text_no_later(a.1, b.1)
        } else {
            a.0
        }
    }

    proof fn lemma_keys_are_ordered(
        a: (bool, Seq<char>),
        b: (bool, Seq<char>),
        c: (bool, Seq<char>),
    ) {
        lemma_texts_are_comparable(a.1, b.1);
        if Self::no_later(a, b) && Self::no_later(b, c) && a.0 == b.0 && b.0 == c.0 {
            lemma_text_order_is_transitive(a.1, b.1, c.1);
        }
    }

    fn is_no_later(&self, other: &ListingKey) -> (holds: bool) {
        if self.is_dir != other.is_dir {
            return self.is_dir;
        }
        let mut i: usize = 0;
        assert(self.name@.skip(0) =~= self.name@);
        assert(other.name@.skip(0) =~= other.name@);
        loop
            invariant
                self.is_dir == other.is_dir,
                i <= self.name.len(),
                i <= other.name.len(),
                text_no_later(self.name@, other.name@) == text_no_later(
                    self.name@.skip(i as int),
                    other.name@.skip(i as int),
                ),
            decreases self.name.len() - i,
        {
            if i == self.name.len() {
                return true;
            }
            if i == other.name.len() {
                return false;
            }
            if self.name[i] != other.name[i] {
                return self.name[i] < other.name[i];
            }
            assert(self.name@.skip(i as int).drop_first() =~= self.name@.skip(i + 1));
            assert(other.name@.skip(i as int).drop_first() =~= other.name@.skip(i + 1));
            i += 1;
        }
    }
}

impl ListingKey {
    /// What `file` is listed by.
    pub fn of(file: &FileEntry) -> (key: ListingKey)
        ensures
            key@ == listing_key(file@),
    {
        let lower = to_lowercase(file.name.as_str());
        let chars = chars_of(lower.as_str());
        let mut start: usize = 0;
        assert(chars@.skip(0) =~= chars@);
        while start < chars.len() && chars[start] == '.'
            invariant
                start <= chars.len(),
                without_leading_dots(chars@) == without_leading_dots(chars@.skip(start as int)),
            decreases chars.len() - start,
        {
            assert(chars@.skip(start as int).drop_first() =~= chars@.skip(start + 1));
            start += 1;
        }
        let mut name: Vec<char> = Vec::new();
        let mut i: usize = start;
        while i < chars.len()
            invariant
                start <= i <= chars.len(),
                name@ == chars@.subrange(start as int, i as int),
            decreases chars.len() - i,
        {
            name.push(chars[i]);
            i += 1;
        }
        ListingKey { is_dir: file.is_dir, name }
    }
}

/// Whether `files` are in the order in which they are listed: directories
/// first, and then by name, whatever the case of the names and whatever dots
/// they begin with.
pub open spec fn in_listing_order(files: Seq<File>) -> bool {
    in_order::<File, ListingKey>(files, |file: File| listing_key(file))
}

impl Project {
    /// `files` in the order in which they are listed. In what order files
    /// come out that are listed by the same is not promised, except that
    /// files that are in order already stay as they stand.
    pub fn sorted_files(files: Vec<FileEntry>) -> (sorted: Vec<FileEntry>)
        ensures
            views(sorted@).to_multiset() == views(files@).to_multiset(),
            in_listing_order(views(sorted@)),
            in_listing_order(views(files@)) ==> views(sorted@) == views(files@),
    {
        let mut keys: Vec<ListingKey> = Vec::new();
        let mut i: usize = 0;
        while i < files.len()
            invariant
                i <= files.len(),
                keys@.len() == i,
                forall|j: int| 0 <= j < i ==> (#[trigger] keys@[j])@ == listing_key(files@[j]@),
            decreases files.len() - i,
        {
            keys.push(ListingKey::of(&files[i]));
            i += 1;
        }
        arrange(files, keys, Ghost(|file: File| listing_key(file)))
    }
}

} // verus!
