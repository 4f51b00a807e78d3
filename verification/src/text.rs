//! Strings as sequences of characters: the model the rest of the library
//! states its contracts over, and the few operations it needs on them.
//!
//! Every length and every offset in this library counts characters, not bytes.

use vstd::prelude::*;

verus! {

/// The text that `str::to_lowercase` gives for the text `s`.
pub uninterp spec fn lowercased(s: Seq<char>) -> Seq<char>;

/// Whether `char::is_uppercase` holds of `c`.
pub uninterp spec fn is_upper(c: char) -> bool;

/// Whether `c` is white space: one of the characters with Unicode's
/// `White_Space` property.
pub open spec fn is_space(c: char) -> bool {
    ||| '\u{0009}' <= c <= '\u{000D}'
    ||| c == '\u{0020}'
    ||| c == '\u{0085}'
    ||| c == '\u{00A0}'
    ||| c == '\u{1680}'
    ||| '\u{2000}' <= c <= '\u{200A}'
    ||| c == '\u{2028}'
    ||| c == '\u{2029}'
    ||| c == '\u{202F}'
    ||| c == '\u{205F}'
    ||| c == '\u{3000}'
}

/// Calls `str::to_lowercase`. Nothing is claimed of the result but that it is
/// the lower-case form of `s`, which [`lowercased`] names: the mapping is
/// Unicode's and is not written out here.
#[verifier::external_body]
pub(crate) fn to_lowercase(s: &str) -> (lower: String)
    ensures
        lower@ == lowercased(s@),
{
    s.to_lowercase()
}

/// Calls `char::is_uppercase`. Nothing is claimed of the result but that it
/// is what [`is_upper`] names: Unicode's `Uppercase` property of `c`.
#[verifier::external_body]
pub(crate) fn is_uppercase(c: char) -> (upper: bool)
    ensures
        upper == is_upper(c),
{
    c.is_uppercase()
}

/// Calls `char::is_whitespace`, which says whether `c` has Unicode's
/// `White_Space` property: the claim is that these are the characters that
/// [`is_space`] lists.
#[verifier::external_body]
pub(crate) fn is_whitespace(c: char) -> (space: bool)
    ensures
        space == is_space(c),
{
    c.is_whitespace()
}

/// The characters of `s`, in order.
pub fn chars_of(s: &str) -> (chars: Vec<char>)
    ensures
        chars@ == s@,
{
    let mut chars: Vec<char> = Vec::new();
    for c in it: s.chars()
        invariant
            chars@ == it.seq().take(it.index()),
            it.seq() == s@,
    {
        chars.push(c);
    }
    chars
}

/// `needle` stands in `hay` at offset `at`.
pub open spec fn occurs_at(hay: Seq<char>, needle: Seq<char>, at: int) -> bool {
    &&& 0 <= at
    &&& at + needle.len() <= hay.len()
    &&& hay.subrange(at, at + needle.len()) == needle
}

/// `needle` stands somewhere in `hay`.
pub open spec fn occurs(hay: Seq<char>, needle: Seq<char>) -> bool {
    exists|at: int| occurs_at(hay, needle, at)
}

/// `needle` stands in `hay` at offset `at` and at no smaller offset.
pub open spec fn is_first_occurrence(hay: Seq<char>, needle: Seq<char>, at: int) -> bool {
    &&& occurs_at(hay, needle, at)
    &&& forall|before: int| 0 <= before < at ==> !occurs_at(hay, needle, before)
}

/// The smallest offset at which `needle` stands in `hay`, if it stands there
/// at all. The empty text stands at offset 0 of every text.
pub open spec fn first_occurrence(hay: Seq<char>, needle: Seq<char>) -> Option<int> {
    if exists|at: int| is_first_occurrence(hay, needle, at) {
        Some(choose|at: int| is_first_occurrence(hay, needle, at))
    } else {
        None
    }
}

/// What follows the last `separator` in `line`; `None` where `line` holds no
/// `separator`.
pub open spec fn tail_of(line: Seq<char>, separator: char) -> Option<Seq<char>> {
    match line.index_of_last(separator) {
        Some(at) => Some(line.skip(at + 1)),
        None => None,
    }
}

/// The pieces of `s` that are `len` characters long, one for each offset at
/// which such a piece starts, in the order of their offsets. Neighbours
/// overlap in all but one character. A text shorter than `len` has none.
pub open spec fn ngrams(s: Seq<char>, len: nat) -> Seq<Seq<char>> {
    if s.len() < len {
        Seq::empty()
    } else {
        Seq::new((s.len() - len + 1) as nat, |at: int| s.subrange(at, at + len))
    }
}

/// `s` without the white space at its two ends.
pub open spec fn trimmed(s: Seq<char>) -> Seq<char>
    decreases s.len(),
{
    if s.len() > 0 && is_space(s.first()) {
        trimmed(s.drop_first())
    } else if s.len() > 0 && is_space(s.last()) {
        trimmed(s.drop_last())
    } else {
        s
    }
}

/// A text at least `len` characters long has one n-gram for each of its
/// offsets but the last `len - 1`; each is `len` characters long and stands
/// in the text at its offset, so that each but the first begins with the
/// last `len - 1` characters of the one before it.
pub proof fn lemma_ngrams_shape(s: Seq<char>, len: nat)
    requires
        len <= s.len(),
    ensures
        ngrams(s, len).len() == s.len() - len + 1,
        forall|at: int|
            0 <= at < ngrams(s, len).len() ==> {
                &&& (#[trigger] ngrams(s, len)[at]).len() == len
                &&& occurs_at(s, ngrams(s, len)[at], at)
            },
        forall|at: int|
            0 < at < ngrams(s, len).len() && len > 0 ==> (#[trigger] ngrams(s, len)[at]).take(
                len - 1,
            ) == ngrams(s, len)[at - 1].skip(1),
{
}

/// The upper-case characters that `s` holds.
pub open spec fn uppers(s: Seq<char>) -> Set<char> {
    Set::new(|c: char| s.contains(c) && is_upper(c))
}

/// A first occurrence is the only one of its kind, so it is the one that
/// [`first_occurrence`] picks.
pub proof fn lemma_first_occurrence_is(hay: Seq<char>, needle: Seq<char>, at: int)
    requires
        is_first_occurrence(hay, needle, at),
    ensures
        first_occurrence(hay, needle) == Some(at),
{
    let picked = choose|at: int| is_first_occurrence(hay, needle, at);
    assert(is_first_occurrence(hay, needle, picked));
}

/// Where `needle` stands nowhere in `hay`, [`first_occurrence`] finds nothing.
pub proof fn lemma_first_occurrence_none(hay: Seq<char>, needle: Seq<char>)
    requires
        !occurs(hay, needle),
    ensures
        first_occurrence(hay, needle) is None,
{
    if exists|at: int| is_first_occurrence(hay, needle, at) {
        let at = choose|at: int| is_first_occurrence(hay, needle, at);
        assert(occurs_at(hay, needle, at));
    }
}

/// Whatever occurs has a first occurrence.
pub proof fn lemma_occurs_has_first(hay: Seq<char>, needle: Seq<char>, at: int)
    requires
        occurs_at(hay, needle, at),
    ensures
        first_occurrence(hay, needle) is Some,
        0 <= first_occurrence(hay, needle)->0 <= at,
        is_first_occurrence(hay, needle, first_occurrence(hay, needle)->0),
    decreases at,
{
    if exists|before: int| 0 <= before < at && occurs_at(hay, needle, before) {
        let before = choose|before: int| 0 <= before < at && occurs_at(hay, needle, before);
        lemma_occurs_has_first(hay, needle, before);
    } else {
        lemma_first_occurrence_is(hay, needle, at);
    }
}

/// Whether `needle` stands in `hay` at offset `at`.
pub fn matches_at(hay: &Vec<char>, needle: &Vec<char>, at: usize) -> (found: bool)
    ensures
        found == occurs_at(hay@, needle@, at as int),
{
    let len = needle.len();
    if at > hay.len() || len > hay.len() - at {
        return false;
    }
    let mut i: usize = 0;
    while i < len
        invariant
            len == needle.len(),
            at + len <= hay.len(),
            i <= len,
            forall|j: int| 0 <= j < i ==> hay@[at + j] == needle@[j],
        decreases len - i,
    {
        if hay[at + i] != needle[i] {
            proof {
                let part = hay@.subrange(at as int, at + len);
                assert(part[i as int] == hay@[at + i]);
            }
            return false;
        }
        i += 1;
    }
    assert(hay@.subrange(at as int, at + len) =~= needle@);
    true
}

/// The offset of the first occurrence of `needle` in `hay`, counted in
/// characters.
pub fn find(hay: &Vec<char>, needle: &Vec<char>) -> (found: Option<usize>)
    ensures
        match found {
            Some(at) => first_occurrence(hay@, needle@) == Some(at as int),
            None => first_occurrence(hay@, needle@) is None,
        },
{
    let len = needle.len();
    if len > hay.len() {
        proof {
            lemma_first_occurrence_none(hay@, needle@);
        }
        return None;
    }
    let last = hay.len() - len;
    let mut at: usize = 0;
    loop
        invariant
            len == needle.len(),
            last + len == hay.len(),
            at <= last,
            forall|before: int| 0 <= before < at ==> !occurs_at(hay@, needle@, before),
        decreases last - at,
    {
        if matches_at(hay, needle, at) {
            proof {
                lemma_first_occurrence_is(hay@, needle@, at as int);
            }
            return Some(at);
        }
        if at == last {
            proof {
                lemma_first_occurrence_none(hay@, needle@);
            }
            return None;
        }
        at += 1;
    }
}

/// Whether `needle` stands somewhere in `hay`.
pub fn contains(hay: &Vec<char>, needle: &Vec<char>) -> (found: bool)
    ensures
        found == occurs(hay@, needle@),
{
    let at = find(hay, needle);
    proof {
        if occurs(hay@, needle@) {
            let somewhere = choose|at: int| occurs_at(hay@, needle@, at);
            lemma_occurs_has_first(hay@, needle@, somewhere);
        }
        if first_occurrence(hay@, needle@) is Some {
            let first = choose|at: int| is_first_occurrence(hay@, needle@, at);
            assert(occurs_at(hay@, needle@, first));
        }
    }
    at.is_some()
}

/// What follows the last `separator` in `line`, if `line` holds one.
pub fn tail(line: &Vec<char>, separator: char) -> (rest: Option<Vec<char>>)
    ensures
        match rest {
            Some(rest) => tail_of(line@, separator) == Some(rest@),
            None => tail_of(line@, separator) is None,
        },
{
    let mut at: usize = line.len();
    while at > 0
        invariant
            at <= line@.len(),
            forall|j: int| at <= j < line@.len() ==> line@[j] != separator,
        decreases at,
    {
        if line[at - 1] == separator {
            let mut rest: Vec<char> = Vec::new();
            let mut i: usize = at;
            while i < line.len()
                invariant
                    at <= i <= line@.len(),
                    rest@ == line@.subrange(at as int, i as int),
                decreases line@.len() - i,
            {
                rest.push(line[i]);
                i += 1;
            }
            proof {
                line@.index_of_last_ensures(separator);
                assert(line@.index_of_last(separator) == Some(at - 1));
            }
            return Some(rest);
        }
        at -= 1;
    }
    proof {
        line@.index_of_last_ensures(separator);
        if line@.contains(separator) {
            let j = choose|j: int| 0 <= j < line@.len() && line@[j] == separator;
            assert(line@[j] != separator);
        }
    }
    None
}

/// `s` without the white space at its two ends.
pub fn trim(s: &Vec<char>) -> (rest: Vec<char>)
    ensures
        rest@ == trimmed(s@),
{
    let len = s.len();
    let mut start: usize = 0;
    assert(s@.skip(0) =~= s@);
    loop
        invariant_except_break
            start <= len,
        invariant
            len == s.len(),
            trimmed(s@) == trimmed(s@.skip(start as int)),
        ensures
            start <= len,
            start < len ==> !is_space(s@[start as int]),
        decreases len - start,
    {
        if start == len {
            break ;
        }
        if !is_whitespace(s[start]) {
            break ;
        }
        assert(s@.skip(start as int).drop_first() =~= s@.skip(start + 1));
        start += 1;
    }
    let mut end: usize = len;
    loop
        invariant_except_break
            start <= end <= len,
        invariant
            len == s.len(),
            start < len ==> !is_space(s@[start as int]),
            trimmed(s@) == trimmed(s@.subrange(start as int, end as int)),
        ensures
            start <= end <= len,
            start < end ==> !is_space(s@[end - 1]),
        decreases end - start,
    {
        if end == start {
            break ;
        }
        if !is_whitespace(s[end - 1]) {
            break ;
        }
        assert(s@.subrange(start as int, end as int).drop_last() =~= s@.subrange(
            start as int,
            end - 1,
        ));
        end -= 1;
    }
    let mut rest: Vec<char> = Vec::new();
    let mut i: usize = start;
    while i < end
        invariant
            start <= i <= end <= s.len(),
            rest@ == s@.subrange(start as int, i as int),
        decreases end - i,
    {
        rest.push(s[i]);
        i += 1;
    }
    rest
}

} // verus!
