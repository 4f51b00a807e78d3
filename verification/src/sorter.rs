//! The ranking engine: scores lines against a prompt and orders them.

use vstd::prelude::*;
use vstd::hash_map::StringHashMap;
use crate::order::{arrange, views};
use crate::sorter::charset::CharSet;
use crate::sorter::score::{
    measure, relevance, tally, too_short, Score, Signals, Tally, NEUTRAL_KEY,
};
use crate::text::{
    chars_of, contains, find, is_upper, is_uppercase, lowercased, ngrams, tail, to_lowercase,
    uppers,
};

pub mod charset;
pub mod natural;
pub mod score;

verus! {

/// What can be ranked: a value with a text, which is all the engine reads of
/// it, and of which the engine can make copies. A candidate is known by its
/// view.
pub trait Candidate: View + Sized {
    /// The text by which a candidate with the view `v` is ranked.
    spec fn line(v: Self::V) -> Seq<char>;

    /// The text by which the candidate is ranked.
    fn to_text(&self) -> (text: String)
        ensures
            text@ == Self::line(self@),
    ;

    /// A copy of the candidate.
    fn duplicate(&self) -> (copy: Self)
        ensures
            copy@ == self@,
    ;
}

impl Candidate for String {
    open spec fn line(v: Seq<char>) -> Seq<char> {
        v
    }

    fn to_text(&self) -> (text: String) {
        self.clone()
    }

    fn duplicate(&self) -> (copy: String) {
        self.clone()
    }
}

/// Reads `std::path::MAIN_SEPARATOR`, the character that parts the
/// components of a path on the platform the library was built for. Nothing
/// is claimed of it.
#[verifier::external_body]
fn main_separator() -> (separator: char) {
    std::path::MAIN_SEPARATOR
}

/// Ranks lines by how well they match a prompt.
///
/// What it has computed of a text it keeps, and computes it once only.
pub struct Sorter {
    ngram_len: usize,
    separator: char,
    cached_ngrams: StringHashMap<Vec<String>>,
    cached_uppers: StringHashMap<CharSet>,
}

impl Default for Sorter {
    /// A sorter that cuts prompts into n-grams of two characters.
    fn default() -> (sorter: Sorter)
        ensures
            sorter@.ngram_len == 2,
            sorter@.cached_ngrams == Map::<Seq<char>, Seq<Seq<char>>>::empty(),
            sorter@.cached_uppers == Map::<Seq<char>, Set<char>>::empty(),
    {
        Sorter::new(2)
    }
}

/// What can be seen of a [`Sorter`] from outside.
pub struct SorterState {
    /// The length of the n-grams that prompts are cut into.
    pub ngram_len: nat,
    /// The character after which the tail of a line begins.
    pub separator: char,
    /// The n-grams that are kept, by the texts that they are the n-grams of.
    pub cached_ngrams: Map<Seq<char>, Seq<Seq<char>>>,
    /// The sets of upper-case characters that are kept, by the texts that
    /// hold them.
    pub cached_uppers: Map<Seq<char>, Set<char>>,
}

impl SorterState {
    /// Whether what is kept is right: under each text stand the n-grams of
    /// that text, and the upper-case characters of that text. This holds of
    /// every sorter at all times.
    pub open spec fn holds_what_is_computed(self) -> bool {
        &&& forall|s: Seq<char>| #[trigger]
            self.cached_ngrams.contains_key(s) ==> self.cached_ngrams[s] == ngrams(
                s,
                self.ngram_len,
            )
        &&& forall|s: Seq<char>| #[trigger]
            self.cached_uppers.contains_key(s) ==> self.cached_uppers[s] == uppers(s)
    }

    /// The state once the n-grams of `s` were asked for.
    pub open spec fn with_ngrams_of(self, s: Seq<char>) -> SorterState {
        SorterState {
            cached_ngrams: self.cached_ngrams.insert(s, ngrams(s, self.ngram_len)),
            ..self
        }
    }

    /// The state once the upper-case characters of `s` were asked for.
    pub open spec fn with_uppers_of(self, s: Seq<char>) -> SorterState {
        SorterState { cached_uppers: self.cached_uppers.insert(s, uppers(s)), ..self }
    }

    /// The state once `line` was scored for `prompt`: nothing new is kept for
    /// a prompt too short to rank by.
    pub open spec fn after_score(self, prompt: Seq<char>, line: Seq<char>) -> SorterState {
        if too_short(prompt, self.ngram_len) {
            self
        } else {
            self.with_ngrams_of(lowercased(prompt)).with_uppers_of(prompt).with_uppers_of(line)
        }
    }

    /// The state once lines with the texts `lines` were ranked for `prompt`:
    /// the n-grams of the lower-cased prompt are kept, and the upper-case
    /// characters of the prompt and of each line.
    pub open spec fn after_sort(self, prompt: Seq<char>, lines: Set<Seq<char>>) -> SorterState {
        if too_short(prompt, self.ngram_len) || lines == Set::<Seq<char>>::empty() {
            self
        } else {
            SorterState {
                cached_uppers: self.cached_uppers.union_prefer_right(
                    uppers_of_all(lines.insert(prompt)),
                ),
                ..self.with_ngrams_of(lowercased(prompt))
            }
        }
    }
}

/// The upper-case characters of each of `texts`, by the text.
pub open spec fn uppers_of_all(texts: Set<Seq<char>>) -> Map<Seq<char>, Set<char>> {
    Map::new(|s: Seq<char>| texts.contains(s), |s: Seq<char>| uppers(s))
}

impl View for Sorter {
    type V = SorterState;

    closed spec fn view(&self) -> SorterState {
        SorterState {
            ngram_len: self.ngram_len as nat,
            separator: self.separator,
            cached_ngrams: self.cached_ngrams@.map_values(|grams: Vec<String>| grams.deep_view()),
            cached_uppers: self.cached_uppers@.map_values(|set: CharSet| set@),
        }
    }
}

/// Whether a candidate is a match for `prompt`.
pub open spec fn accepts<I: Candidate>(
    prompt: Seq<char>,
    ngram_len: nat,
    separator: char,
) -> spec_fn(I::V) -> bool {
    |c: I::V| relevance(prompt, I::line(c), ngram_len, separator).is_match()
}

/// The key by which a candidate is ordered among the matches of `prompt`.
pub open spec fn key_of<I: Candidate>(
    prompt: Seq<char>,
    ngram_len: nat,
    separator: char,
) -> spec_fn(I::V) -> int {
    |c: I::V| relevance(prompt, I::line(c), ngram_len, separator).key()
}

/// The texts of the candidates in `array`.
pub open spec fn texts<I: Candidate>(array: Seq<I::V>) -> Set<Seq<char>> {
    Set::new(|s: Seq<char>| exists|i: int| 0 <= i < array.len() && I::line(array[i]) == s)
}

/// Whether `ranked` is what ranking `array` for `prompt` may give: the
/// matches among `array`, each as often as it stands there, the one with
/// the smaller key first; and the whole of `array` as it stands, where the
/// prompt is too short to rank by.
pub open spec fn is_ranking<I: Candidate>(
    ranked: Seq<I::V>,
    array: Seq<I::V>,
    prompt: Seq<char>,
    ngram_len: nat,
    separator: char,
) -> bool {
    &&& ranked.to_multiset() == array.filter(
        accepts::<I>(prompt, ngram_len, separator),
    ).to_multiset()
    &&& forall|a: int, b: int|
        0 <= a < b < ranked.len() ==> key_of::<I>(prompt, ngram_len, separator)(ranked[a])
            <= key_of::<I>(prompt, ngram_len, separator)(ranked[b])
    &&& too_short(prompt, ngram_len) ==> ranked == array
}

impl Sorter {
    #[verifier::type_invariant]
    spec fn caches_hold_what_is_computed(self) -> bool {
        &&& forall|s: Seq<char>| #[trigger]
            self.cached_ngrams@.contains_key(s) ==> self.cached_ngrams@[s].deep_view() == ngrams(
                s,
                self.ngram_len as nat,
            )
        &&& forall|s: Seq<char>| #[trigger]
            self.cached_uppers@.contains_key(s) ==> self.cached_uppers@[s]@ == uppers(s)
    }

    /// A sorter that cuts prompts into n-grams of `ngram_len` characters. It
    /// has nothing kept yet, and takes the tails of lines after the path
    /// separator of the platform.
    pub fn new(ngram_len: usize) -> (sorter: Sorter)
        ensures
            sorter@.ngram_len == ngram_len,
            sorter@.cached_ngrams == Map::<Seq<char>, Seq<Seq<char>>>::empty(),
            sorter@.cached_uppers == Map::<Seq<char>, Set<char>>::empty(),
            sorter@.holds_what_is_computed(),
    {
        Sorter::with_separator(ngram_len, main_separator())
    }

    /// A sorter that cuts prompts into n-grams of `ngram_len` characters and
    /// takes the tails of lines after `separator`. It has nothing kept yet.
    pub fn with_separator(ngram_len: usize, separator: char) -> (sorter: Sorter)
        ensures
            sorter@ == (SorterState {
                ngram_len: ngram_len as nat,
                separator,
                cached_ngrams: Map::<Seq<char>, Seq<Seq<char>>>::empty(),
                cached_uppers: Map::<Seq<char>, Set<char>>::empty(),
            }),
    {
        let sorter = Sorter {
            ngram_len,
            separator,
            cached_ngrams: StringHashMap::new(),
            cached_uppers: StringHashMap::new(),
        };
        assert(sorter@.cached_ngrams =~= Map::<Seq<char>, Seq<Seq<char>>>::empty());
        assert(sorter@.cached_uppers =~= Map::<Seq<char>, Set<char>>::empty());
        sorter
    }

    /// The length of the n-grams that prompts are cut into.
    pub fn ngram_len(&self) -> (len: usize)
        ensures
            len == self@.ngram_len,
    {
        self.ngram_len
    }

    /// The character after which the tail of a line begins.
    pub fn separator(&self) -> (separator: char)
        ensures
            separator == self@.separator,
    {
        self.separator
    }

    /// Whether the n-grams of `s` are kept.
    pub fn has_cached_ngrams(&self, s: &str) -> (kept: bool)
        ensures
            kept == self@.cached_ngrams.contains_key(s@),
    {
        self.cached_ngrams.contains_key(s)
    }

    /// Whether the upper-case characters of `s` are kept.
    pub fn has_cached_uppers(&self, s: &str) -> (kept: bool)
        ensures
            kept == self@.cached_uppers.contains_key(s@),
    {
        self.cached_uppers.contains_key(s)
    }

    /// The n-grams of `s`: every piece of `s` that is as long as an n-gram,
    /// in the order of their offsets; none where `s` is shorter than that.
    /// They are kept for the next call with the same text.
    pub fn overlapping_ngrams(&mut self, s: &str) -> (grams: Vec<String>)
        ensures
            grams.deep_view() == ngrams(s@, old(self)@.ngram_len),
            final(self)@ == old(self)@.with_ngrams_of(s@),
            final(self)@.holds_what_is_computed(),
    {
        proof {
            use_type_invariant(&*self);
        }
        match self.cached_ngrams.get(s) {
            Some(kept) => {
                let grams = kept.clone();
                assert(self@.cached_ngrams.insert(s@, ngrams(s@, self@.ngram_len))
                    =~= self@.cached_ngrams);
                return grams;
            },
            None => {},
        }
        let len = self.ngram_len;
        let total = s.unicode_len();
        let mut grams: Vec<String> = Vec::new();
        if len <= total {
            let last = total - len;
            let mut at: usize = 0;
            loop
                invariant_except_break
                    at <= last,
                    grams@.len() == at,
                invariant
                    last + len == total,
                    total == s@.len(),
                    forall|i: int|
                        0 <= i < grams@.len() ==> (#[trigger] grams@[i])@ == s@.subrange(
                            i,
                            i + len,
                        ),
                ensures
                    grams@.len() == last + 1,
                decreases last - at,
            {
                let gram = s.substring_char(at, at + len).to_owned();
                grams.push(gram);
                if at == last {
                    break ;
                }
                at += 1;
            }
        }
        assert(grams.deep_view() =~= ngrams(s@, len as nat));
        let copy = grams.clone();
        let mut cache: StringHashMap<Vec<String>> = StringHashMap::new();
        std::mem::swap(&mut cache, &mut self.cached_ngrams);
        cache.insert(s.to_owned(), copy);
        self.cached_ngrams = cache;
        proof {
            use_type_invariant(&*self);
            assert(self@.cached_ngrams =~= old(self)@.cached_ngrams.insert(
                s@,
                ngrams(s@, len as nat),
            ));
            assert(self@.cached_uppers =~= old(self)@.cached_uppers);
        }
        grams
    }

    /// The upper-case characters that `s` holds, each once. They are kept for
    /// the next call with the same text.
    pub fn get_uppers(&mut self, s: &str) -> (set: CharSet)
        ensures
            set@ == uppers(s@),
            final(self)@ == old(self)@.with_uppers_of(s@),
            final(self)@.holds_what_is_computed(),
    {
        proof {
            use_type_invariant(&*self);
        }
        match self.cached_uppers.get(s) {
            Some(kept) => {
                let set = kept.clone();
                assert(self@.cached_uppers.insert(s@, uppers(s@)) =~= self@.cached_uppers);
                return set;
            },
            None => {},
        }
        let chars = chars_of(s);
        let mut set = CharSet::new();
        let mut i: usize = 0;
        while i < chars.len()
            invariant
                i <= chars.len(),
                set@ == uppers(chars@.take(i as int)),
            decreases chars.len() - i,
        {
            let c = chars[i];
            proof {
                let seen = chars@.take(i as int);
                let next = chars@.take(i + 1);
                assert forall|x: char| next.contains(x) <==> seen.contains(x) || x == c by {
                    if next.contains(x) {
                        let j = choose|j: int| 0 <= j < next.len() && next[j] == x;
                        assert(j < seen.len() ==> seen[j] == x);
                    }
                    if seen.contains(x) {
                        let j = choose|j: int| 0 <= j < seen.len() && seen[j] == x;
                        assert(next[j] == x);
                    }
                    if x == c {
                        assert(next[i as int] == x);
                    }
                }
            }
            if is_uppercase(c) {
                set.insert(c);
            }
            i += 1;
        }
        assert(chars@.take(chars@.len() as int) =~= chars@);
        let copy = set.clone();
        let mut cache: StringHashMap<CharSet> = StringHashMap::new();
        std::mem::swap(&mut cache, &mut self.cached_uppers);
        cache.insert(s.to_owned(), copy);
        self.cached_uppers = cache;
        proof {
            use_type_invariant(&*self);
            assert(self@.cached_uppers =~= old(self)@.cached_uppers.insert(s@, uppers(s@)));
            assert(self@.cached_ngrams =~= old(self)@.cached_ngrams);
        }
        set
    }

    /// The relevance of `line` for `prompt`.
    ///
    /// A prompt that is empty, or shorter than an n-gram, is matched alike by
    /// every line. Otherwise the line is measured: where the lower-cased
    /// prompt stands in the lower-cased line, which upper-case characters the
    /// two share, whether the tail of the line holds the prompt, and how the
    /// n-grams of the lower-cased prompt are found in the lower-cased line.
    pub fn score(&mut self, prompt: &str, line: &str) -> (score: Score)
        ensures
            score@ == relevance(prompt@, line@, old(self)@.ngram_len, old(self)@.separator),
            final(self)@ == old(self)@.after_score(prompt@, line@),
            final(self)@.holds_what_is_computed(),
    {
        proof {
            use_type_invariant(&*self);
        }
        let prompt_chars = chars_of(prompt);
        let prompt_len = prompt_chars.len();
        if prompt_len == 0 || prompt_len < self.ngram_len {
            return Score::Neutral;
        }
        let line_chars = chars_of(line);
        let lower_prompt = to_lowercase(prompt);
        let lower_line = to_lowercase(line);
        let lower_prompt_chars = chars_of(lower_prompt.as_str());
        let lower_line_chars = chars_of(lower_line.as_str());

        let grams = self.overlapping_ngrams(lower_prompt.as_str());
        let substring_offset = find(&lower_line_chars, &lower_prompt_chars);

        let prompt_uppers = self.get_uppers(prompt);
        let line_uppers = self.get_uppers(line);
        let uppercase_overlap = prompt_uppers.common(&line_uppers);

        let tail_match = match tail(&line_chars, self.separator) {
            Some(rest) => contains(&rest, &prompt_chars),
            None => false,
        };

        let ghost all = grams.deep_view();
        let mut match_count: usize = 0;
        let mut consecutive_matches: usize = 0;
        let mut previous: usize = 0;
        let mut i: usize = 0;
        while i < grams.len()
            invariant
                i <= grams.len(),
                all == grams.deep_view(),
                match_count <= i,
                consecutive_matches <= i,
                tally(all.take(i as int), lower_line_chars@) == (Tally {
                    found: match_count as nat,
                    rising: consecutive_matches as nat,
                    previous: previous as int,
                }),
            decreases grams.len() - i,
        {
            let gram = chars_of(grams[i].as_str());
            proof {
                assert(all.take(i + 1).drop_last() =~= all.take(i as int));
            }
            match find(&lower_line_chars, &gram) {
                Some(at) => {
                    match_count += 1;
                    if at > previous {
                        consecutive_matches += 1;
                    }
                    previous = at;
                },
                None => {},
            }
            i += 1;
        }
        assert(all.take(grams.len() as int) =~= all);

        let signals = Signals {
            prompt_len,
            line_len: line_chars.len(),
            ngram_len: self.ngram_len,
            total_ngrams: grams.len(),
            match_count,
            consecutive_matches,
            substring_offset,
            uppercase_overlap,
            tail_match,
        };
        Score::Measured(signals)
    }

    /// The candidates of `array` that match `prompt`, the best match first.
    ///
    /// Each candidate is scored by its text. Those that are no match are
    /// left out; copies of the others come out ordered by their keys,
    /// smallest first. In what order candidates with the same key come out
    /// is not promised, except that candidates that are in order already
    /// stay as they are: so a prompt too short to rank by gives back the
    /// whole array, unchanged.
    pub fn sort<I: Candidate>(&mut self, array: &[I], prompt: &str) -> (ranked: Vec<I>)
        ensures
            is_ranking::<I>(
                views(ranked@),
                views(array@),
                prompt@,
                old(self)@.ngram_len,
                old(self)@.separator,
            ),
            final(self)@ == old(self)@.after_sort(prompt@, texts::<I>(views(array@))),
            final(self)@.holds_what_is_computed(),
    {
        proof {
            use_type_invariant(&*self);
        }
        let ghost ngram_len = self@.ngram_len;
        let ghost separator = self@.separator;
        let ghost kept_ngrams = self@.cached_ngrams;
        let ghost kept_uppers = self@.cached_uppers;
        let ghost short = too_short(prompt@, ngram_len);
        let ghost accepted = accepts::<I>(prompt@, ngram_len, separator);
        let ghost key = |c: I::V| key_of::<I>(prompt@, ngram_len, separator)(c) as i16;
        let ghost all = views(array@);

        let mut items: Vec<I> = Vec::new();
        let mut keys: Vec<i16> = Vec::new();
        let mut i: usize = 0;
        while i < array.len()
            invariant
                i <= array.len(),
                all == views(array@),
                self@.ngram_len == ngram_len,
                self@.separator == separator,
                short == too_short(prompt@, ngram_len),
                accepted == accepts::<I>(prompt@, ngram_len, separator),
                key == (|c: I::V| key_of::<I>(prompt@, ngram_len, separator)(c) as i16),
                self@.holds_what_is_computed(),
                self@.cached_ngrams == if short || i == 0 {
                    kept_ngrams
                } else {
                    kept_ngrams.insert(lowercased(prompt@), ngrams(lowercased(prompt@), ngram_len))
                },
                self@.cached_uppers == if short || i == 0 {
                    kept_uppers
                } else {
                    kept_uppers.union_prefer_right(
                        uppers_of_all(texts::<I>(all.take(i as int)).insert(prompt@)),
                    )
                },
                views(items@) == all.take(i as int).filter(accepted),
                short ==> views(items@) == all.take(i as int),
                items@.len() == keys@.len(),
                forall|j: int| 0 <= j < items@.len() ==> (#[trigger] keys@[j])@ == key(items@[j]@),
                short ==> forall|j: int| 0 <= j < keys@.len() ==> #[trigger] keys@[j] == NEUTRAL_KEY,
            decreases array.len() - i,
        {
            let candidate = &array[i];
            let line = candidate.to_text();
            let score = self.score(prompt, line.as_str());
            proof {
                let seen = all.take(i as int);
                let next = all.take(i + 1);
                assert(next =~= seen.push(candidate@));
                seen.lemma_filter_push(candidate@, accepted);
                assert(texts::<I>(next) =~= texts::<I>(seen).insert(line@)) by {
                    assert forall|s: Seq<char>| texts::<I>(seen).insert(line@).contains(
                        s,
                    ) implies texts::<I>(next).contains(s) by {
                        if s == line@ {
                            assert(I::line(next[i as int]) == s);
                        } else {
                            let j = choose|j: int| 0 <= j < seen.len() && I::line(seen[j]) == s;
                            assert(I::line(next[j]) == s);
                        }
                    }
                }
            }
            match score.sort_key() {
                Some(k) => {
                    let copy = candidate.duplicate();
                    items.push(copy);
                    keys.push(k);
                },
                None => {},
            }
            i += 1;
        }
        proof {
            assert(all.take(all.len() as int) =~= all);
            if all.len() > 0 {
                assert(texts::<I>(all).contains(I::line(all[0])));
            } else {
                assert(texts::<I>(all) =~= Set::<Seq<char>>::empty());
            }
        }
        arrange(items, keys, Ghost(key))
    }
}

/// What is kept stays right whatever is asked of the sorter.
pub proof fn lemma_what_is_kept_stays_right(
    state: SorterState,
    prompt: Seq<char>,
    line: Seq<char>,
    lines: Set<Seq<char>>,
)
    requires
        state.holds_what_is_computed(),
    ensures
        state.with_ngrams_of(line).holds_what_is_computed(),
        state.with_uppers_of(line).holds_what_is_computed(),
        state.after_score(prompt, line).holds_what_is_computed(),
        state.after_sort(prompt, lines).holds_what_is_computed(),
{
}

/// What a sorter has kept it keeps: nothing leaves it when more is asked
/// of the sorter.
pub proof fn lemma_nothing_is_forgotten(
    state: SorterState,
    prompt: Seq<char>,
    line: Seq<char>,
    lines: Set<Seq<char>>,
)
    ensures
        state.cached_ngrams.dom().subset_of(state.with_ngrams_of(line).cached_ngrams.dom()),
        state.cached_uppers.dom().subset_of(state.with_uppers_of(line).cached_uppers.dom()),
        state.cached_ngrams.dom().subset_of(state.after_score(prompt, line).cached_ngrams.dom()),
        state.cached_uppers.dom().subset_of(state.after_score(prompt, line).cached_uppers.dom()),
        state.cached_ngrams.dom().subset_of(state.after_sort(prompt, lines).cached_ngrams.dom()),
        state.cached_uppers.dom().subset_of(state.after_sort(prompt, lines).cached_uppers.dom()),
{
}

/// Asking twice for the n-grams of one text gives the same n-grams, and the
/// second call leaves the sorter as the first one left it.
pub proof fn lemma_ngrams_twice(state: SorterState, s: Seq<char>)
    ensures
        ngrams(s, state.with_ngrams_of(s).ngram_len) == ngrams(s, state.ngram_len),
        state.with_ngrams_of(s).with_ngrams_of(s) == state.with_ngrams_of(s),
{
    let once = state.with_ngrams_of(s);
    assert(once.with_ngrams_of(s).cached_ngrams =~= once.cached_ngrams);
}

/// Asking twice for the upper-case characters of one text leaves the sorter
/// as the first call left it; what comes back depends on the text alone.
pub proof fn lemma_uppers_twice(state: SorterState, s: Seq<char>)
    ensures
        state.with_uppers_of(s).with_uppers_of(s) == state.with_uppers_of(s),
{
    let once = state.with_uppers_of(s);
    assert(once.with_uppers_of(s).cached_uppers =~= once.cached_uppers);
}

/// Scoring one line twice for one prompt gives the same relevance, and the
/// second call leaves the sorter as the first one left it.
pub proof fn lemma_score_twice(state: SorterState, prompt: Seq<char>, line: Seq<char>)
    ensures
        relevance(
            prompt,
            line,
            state.after_score(prompt, line).ngram_len,
            state.after_score(prompt, line).separator,
        ) == relevance(prompt, line, state.ngram_len, state.separator),
        state.after_score(prompt, line).after_score(prompt, line) == state.after_score(
            prompt,
            line,
        ),
{
    let once = state.after_score(prompt, line);
    let twice = once.after_score(prompt, line);
    assert(twice.cached_ngrams =~= once.cached_ngrams);
    assert(twice.cached_uppers =~= once.cached_uppers);
}

/// Ranking for the empty prompt gives back the whole array as it stands.
pub proof fn lemma_empty_prompt_keeps_all<I: Candidate>(
    array: Seq<I::V>,
    ranked: Seq<I::V>,
    ngram_len: nat,
    separator: char,
)
    requires
        is_ranking::<I>(ranked, array, Seq::<char>::empty(), ngram_len, separator),
    ensures
        ranked == array,
{
}

/// Whatever [`Sorter::sort`] gives back is a match and stood in the array,
/// and every match that stood in the array is given back.
pub proof fn lemma_ranked_are_matches<I: Candidate>(
    array: Seq<I::V>,
    ranked: Seq<I::V>,
    prompt: Seq<char>,
    ngram_len: nat,
    separator: char,
    c: I::V,
)
    requires
        is_ranking::<I>(ranked, array, prompt, ngram_len, separator),
    ensures
        ranked.contains(c) <==> array.contains(c) && relevance(
            prompt,
            I::line(c),
            ngram_len,
            separator,
        ).is_match(),
{
    broadcast use vstd::seq_lib::group_to_multiset_ensures;

    let accepted = accepts::<I>(prompt, ngram_len, separator);
    let kept = array.filter(accepted);
    assert(kept.contains(c) <==> kept.to_multiset().count(c) > 0);
    if kept.contains(c) {
        array.lemma_filter_contains_rev(accepted, c);
    }
}

/// For a prompt of more than two characters, a line whose cost is under one
/// half is not among what [`Sorter::sort`] gives back.
pub proof fn lemma_low_cost_is_left_out<I: Candidate>(
    array: Seq<I::V>,
    ranked: Seq<I::V>,
    prompt: Seq<char>,
    ngram_len: nat,
    separator: char,
    c: I::V,
)
    requires
        is_ranking::<I>(ranked, array, prompt, ngram_len, separator),
        !too_short(prompt, ngram_len),
        prompt.len() > 2,
        !measure(prompt, I::line(c), ngram_len, separator).unbounded(),
        2 * measure(prompt, I::line(c), ngram_len, separator).cost_num() < measure(
            prompt,
            I::line(c),
            ngram_len,
            separator,
        ).cost_den(),
    ensures
        !ranked.contains(c),
{
    lemma_ranked_are_matches::<I>(array, ranked, prompt, ngram_len, separator, c);
}

} // verus!
