//! The relevance of one line for one prompt.
//!
//! A line is measured against the prompt in five ways. The measurements make
//! up a cost, a fraction that is large for a good match; the score of the
//! line is one over the cost, so the best lines have the smallest scores and
//! come first.

use vstd::prelude::*;
use crate::sorter::natural::Natural;
use crate::text::{first_occurrence, lowercased, ngrams, occurs, tail_of, uppers};

verus! {

/// The score that a prompt too short to rank by gives to every line, in
/// thousandths.
pub const NEUTRAL_KEY: i16 = 1000;

/// The largest sort key.
pub const MAX_KEY: i16 = 32767;

/// How the n-grams of a prompt were found in a line.
pub struct Tally {
    /// How many of them stand in the line.
    pub found: nat,
    /// How many of those stand further right than the one found before.
    pub rising: nat,
    /// Where the last one found stands; zero while none was found.
    pub previous: int,
}

/// Looks for each of `grams` in `hay`, in order. The first one found counts
/// as rising only where it stands past offset zero; one that stands where the
/// one before it stood does not count as rising.
pub open spec fn tally(grams: Seq<Seq<char>>, hay: Seq<char>) -> Tally
    decreases grams.len(),
{
    if grams.len() == 0 {
        Tally { found: 0, rising: 0, previous: 0 }
    } else {
        let before = tally(grams.drop_last(), hay);
        match first_occurrence(hay, grams.last()) {
            Some(at) => Tally {
                found: before.found + 1,
                rising: if at > before.previous {
                    before.rising + 1
                } else {
                    before.rising
                },
                previous: at,
            },
            None => before,
        }
    }
}

/// The measurements of a line against a prompt, as numbers.
pub struct Measure {
    /// Length of the prompt.
    pub prompt_len: nat,
    /// Length of the line.
    pub line_len: nat,
    /// Length of an n-gram.
    pub ngram_len: nat,
    /// How many n-grams the lower-cased prompt has.
    pub total_ngrams: nat,
    /// How many of them stand in the lower-cased line.
    pub match_count: nat,
    /// How many of those stand further right than the one found before.
    pub consecutive_matches: nat,
    /// Where the lower-cased prompt first stands in the lower-cased line.
    pub substring_offset: Option<int>,
    /// How many upper-case characters the prompt and the line share.
    pub uppercase_overlap: nat,
    /// Whether what follows the last separator of the line holds the prompt.
    pub tail_match: bool,
}

/// Whether `prompt` is too short to rank by with n-grams of `ngram_len`
/// characters.
pub open spec fn too_short(prompt: Seq<char>, ngram_len: nat) -> bool {
    prompt.len() == 0 || prompt.len() < ngram_len
}

/// The measurements of `line` against `prompt`.
pub open spec fn measure(
    prompt: Seq<char>,
    line: Seq<char>,
    ngram_len: nat,
    separator: char,
) -> Measure {
    let grams = ngrams(lowercased(prompt), ngram_len);
    let found = tally(grams, lowercased(line));
    Measure {
        prompt_len: prompt.len(),
        line_len: line.len(),
        ngram_len,
        total_ngrams: grams.len(),
        match_count: found.found,
        consecutive_matches: found.rising,
        substring_offset: first_occurrence(lowercased(line), lowercased(prompt)),
        uppercase_overlap: uppers(prompt).intersect(uppers(line)).len(),
        tail_match: match tail_of(line, separator) {
            Some(tail) => occurs(tail, prompt),
            None => false,
        },
    }
}

/// Where the prompt stands in the line, and how its n-grams are found there,
/// does not depend on the case of either: two prompts with one lower-case
/// form, against two lines with one lower-case form, measure alike in these.
pub proof fn lemma_case_does_not_matter(
    prompt: Seq<char>,
    line: Seq<char>,
    other_prompt: Seq<char>,
    other_line: Seq<char>,
    ngram_len: nat,
    separator: char,
)
    requires
        lowercased(prompt) == lowercased(other_prompt),
        lowercased(line) == lowercased(other_line),
    ensures
        measure(prompt, line, ngram_len, separator).substring_offset == measure(
            other_prompt,
            other_line,
            ngram_len,
            separator,
        ).substring_offset,
        measure(prompt, line, ngram_len, separator).total_ngrams == measure(
            other_prompt,
            other_line,
            ngram_len,
            separator,
        ).total_ngrams,
        measure(prompt, line, ngram_len, separator).match_count == measure(
            other_prompt,
            other_line,
            ngram_len,
            separator,
        ).match_count,
        measure(prompt, line, ngram_len, separator).consecutive_matches == measure(
            other_prompt,
            other_line,
            ngram_len,
            separator,
        ).consecutive_matches,
{
}

/// The divisor of a share of the cost: `by`, or one where `by` is zero.
pub open spec fn divisor(by: nat) -> nat {
    if by == 0 {
        1
    } else {
        by
    }
}

impl Measure {
    /// What the prompt's length is divided by: the offset at which the prompt
    /// was found, or twice the length of the line where it was not.
    pub open spec fn penalty(self) -> nat {
        match self.substring_offset {
            Some(at) => at as nat,
            None => 2 * self.line_len,
        }
    }

    /// Whether the cost is beyond every number: a share of it divides
    /// something positive by zero. A share that divides zero by zero adds
    /// nothing.
    pub open spec fn unbounded(self) -> bool {
        ||| self.total_ngrams == 0 && self.match_count > 0
        ||| self.line_len == 0 && self.match_count * self.ngram_len > 0
        ||| self.penalty() == 0 && self.prompt_len > 0
    }

    /// The divisor of the cost, where it is bounded.
    pub open spec fn cost_den(self) -> nat {
        divisor(self.total_ngrams) * divisor(self.line_len) * divisor(self.penalty())
    }

    /// The dividend of the cost, where it is bounded. The cost is
    ///
    /// `(10 * match_count / total_ngrams + 3 * match_count * ngram_len / line_len
    ///   + consecutive_matches + prompt_len / penalty + uppercase_overlap) * tail`
    ///
    /// with `tail` two for a tail match and one without, brought over the
    /// one divisor `cost_den`.
    pub open spec fn cost_num(self) -> nat {
        let d1 = divisor(self.total_ngrams);
        let d2 = divisor(self.line_len);
        let d3 = divisor(self.penalty());
        let tail: nat = if self.tail_match {
            2
        } else {
            1
        };
        (10 * self.match_count * d2 * d3 + 3 * self.match_count * self.ngram_len * d1 * d3
            + self.prompt_len * d1 * d2 + (self.consecutive_matches + self.uppercase_overlap) * d1
            * d2 * d3) * tail
    }

    /// Whether the line is no match: its cost is zero, or the prompt is
    /// longer than two characters and the cost is under one half.
    pub open spec fn rejected(self) -> bool {
        &&& !self.unbounded()
        &&& (self.cost_num() == 0 || (self.prompt_len > 2 && 2 * self.cost_num()
            < self.cost_den()))
    }

    /// The score in thousandths, rounded down: one thousand over the cost.
    /// An unbounded cost gives zero.
    pub open spec fn thousandths(self) -> int {
        if self.unbounded() || self.cost_num() == 0 {
            0
        } else {
            (1000 * self.cost_den()) as int / (self.cost_num() as int)
        }
    }

    /// The key by which matches are ordered: the score in thousandths, and
    /// no more than [`MAX_KEY`].
    pub open spec fn key(self) -> int {
        if self.thousandths() > MAX_KEY {
            MAX_KEY as int
        } else {
            self.thousandths()
        }
    }
}

/// The measurements of a line against a prompt.
#[derive(Clone, Copy, Debug)]
pub struct Signals {
    /// Length of the prompt.
    pub prompt_len: usize,
    /// Length of the line.
    pub line_len: usize,
    /// Length of an n-gram.
    pub ngram_len: usize,
    /// How many n-grams the lower-cased prompt has.
    pub total_ngrams: usize,
    /// How many of them stand in the lower-cased line.
    pub match_count: usize,
    /// How many of those stand further right than the one found before.
    pub consecutive_matches: usize,
    /// Where the lower-cased prompt first stands in the lower-cased line.
    pub substring_offset: Option<usize>,
    /// How many upper-case characters the prompt and the line share.
    pub uppercase_overlap: usize,
    /// Whether what follows the last separator of the line holds the prompt.
    pub tail_match: bool,
}

impl View for Signals {
    type V = Measure;

    open spec fn view(&self) -> Measure {
        Measure {
            prompt_len: self.prompt_len as nat,
            line_len: self.line_len as nat,
            ngram_len: self.ngram_len as nat,
            total_ngrams: self.total_ngrams as nat,
            match_count: self.match_count as nat,
            consecutive_matches: self.consecutive_matches as nat,
            substring_offset: match self.substring_offset {
                Some(at) => Some(at as int),
                None => None,
            },
            uppercase_overlap: self.uppercase_overlap as nat,
            tail_match: self.tail_match,
        }
    }
}

fn or_one(by: usize) -> (d: usize)
    ensures
        d == divisor(by as nat),
{
    if by == 0 {
        1
    } else {
        by
    }
}

impl Signals {
    /// Whether the cost is beyond every number.
    pub fn unbounded(&self) -> (holds: bool)
        ensures
            holds == self@.unbounded(),
    {
        let no_penalty = match self.substring_offset {
            Some(at) => at == 0,
            None => self.line_len == 0,
        };
        assert(self.match_count * self.ngram_len > 0 <==> self.match_count > 0 && self.ngram_len
            > 0) by (nonlinear_arith);
        (self.total_ngrams == 0 && self.match_count > 0) || (self.line_len == 0
            && self.match_count > 0 && self.ngram_len > 0) || (no_penalty && self.prompt_len > 0)
    }

    /// The dividend and the divisor of the cost.
    fn cost(&self) -> (cost: (Natural, Natural))
        ensures
            cost.0@ == self@.cost_num(),
            cost.1@ == self@.cost_den(),
    {
        let d1 = or_one(self.total_ngrams);
        let d2 = or_one(self.line_len);
        let (base, twice): (usize, usize) = match self.substring_offset {
            Some(at) => (or_one(at), 1),
            None => if self.line_len == 0 {
                (1, 1)
            } else {
                (self.line_len, 2)
            },
        };
        let tail: usize = if self.tail_match {
            2
        } else {
            1
        };
        let ghost d3 = divisor(self@.penalty());
        let den = Natural::from_usize(d1).times(d2).times(base).times(twice);
        let matches = Natural::from_usize(10).times(self.match_count).times(d2).times(base).times(
            twice,
        );
        let lengths = Natural::from_usize(3).times(self.match_count).times(self.ngram_len).times(
            d1,
        ).times(base).times(twice);
        let place = Natural::from_usize(self.prompt_len).times(d1).times(d2);
        let counts = Natural::from_usize(self.consecutive_matches).plus(
            &Natural::from_usize(self.uppercase_overlap),
        ).times(d1).times(d2).times(base).times(twice);
        let num = matches.plus(&lengths).plus(&place).plus(&counts).times(tail);
        proof {
            let mc = self.match_count as nat;
            let k = self.ngram_len as nat;
            let c = (self.consecutive_matches + self.uppercase_overlap) as nat;
            let b = base as nat;
            let t = twice as nat;
            let e1 = d1 as nat;
            let e2 = d2 as nat;
            assert(den@ == e1 * e2 * d3) by (nonlinear_arith)
                requires
                    den@ == e1 * e2 * b * t,
                    d3 == b * t,
            ;
            assert(matches@ == 10 * mc * e2 * d3) by (nonlinear_arith)
                requires
                    matches@ == 10 * mc * e2 * b * t,
                    d3 == b * t,
            ;
            assert(lengths@ == 3 * mc * k * e1 * d3) by (nonlinear_arith)
                requires
                    lengths@ == 3 * mc * k * e1 * b * t,
                    d3 == b * t,
            ;
            assert(counts@ == c * e1 * e2 * d3) by (nonlinear_arith)
                requires
                    counts@ == c * e1 * e2 * b * t,
                    d3 == b * t,
            ;
        }
        (num, den)
    }

    /// Whether the line is no match for the prompt.
    pub fn rejected(&self) -> (holds: bool)
        ensures
            holds == self@.rejected(),
    {
        if self.unbounded() {
            return false;
        }
        let (num, den) = self.cost();
        let zero = Natural::from_usize(0);
        if num.at_most(&zero) {
            return true;
        }
        self.prompt_len > 2 && !den.at_most(&num.times(2))
    }

    /// The key by which matches are ordered; `None` for a line that is no
    /// match.
    pub fn sort_key(&self) -> (key: Option<i16>)
        ensures
            key is None <==> self@.rejected(),
            key matches Some(k) ==> k == self@.key(),
    {
        if self.unbounded() {
            return Some(0);
        }
        let (num, den) = self.cost();
        let zero = Natural::from_usize(0);
        if num.at_most(&zero) {
            return None;
        }
        if self.prompt_len > 2 && !den.at_most(&num.times(2)) {
            return None;
        }
        let scaled = den.times(1000);
        let mut low: usize = 0;
        let mut high: usize = 32768;
        while high - low > 1
            invariant
                low < high <= 32768,
                num@ > 0,
                scaled@ == den@ * 1000,
                low * num@ <= scaled@,
                high < 32768 ==> high * num@ > scaled@,
            decreases high - low,
        {
            let middle = low + (high - low) / 2;
            if num.times(middle).at_most(&scaled) {
                low = middle;
            } else {
                assert(middle * num@ == num@ * middle) by (nonlinear_arith);
                high = middle;
            }
        }
        proof {
            let s = scaled@ as int;
            let p = num@ as int;
            let q = low as int;
            if high < 32768 {
                assert(s / p == q) by (nonlinear_arith)
                    requires
                        p > 0,
                        q * p <= s,
                        (q + 1) * p > s,
                ;
            } else {
                assert(s / p >= q) by (nonlinear_arith)
                    requires
                        p > 0,
                        q * p <= s,
                ;
            }
        }
        Some(low as i16)
    }
}

/// The relevance of a line for a prompt, as numbers.
pub enum Relevance {
    /// The prompt is too short to rank by: every line matches it alike.
    Neutral,
    /// The line was measured against the prompt.
    Measured(Measure),
}

impl Relevance {
    /// Whether the line is a match for the prompt.
    pub open spec fn is_match(self) -> bool {
        match self {
            Relevance::Neutral => true,
            Relevance::Measured(measure) => !measure.rejected(),
        }
    }

    /// The key by which the line is ordered among the matches: its score in
    /// thousandths. The smaller the key, the better the match.
    pub open spec fn key(self) -> int {
        match self {
            Relevance::Neutral => NEUTRAL_KEY as int,
            Relevance::Measured(measure) => measure.key(),
        }
    }
}

/// A key is never negative and never more than [`MAX_KEY`].
pub proof fn lemma_key_is_bounded(relevance: Relevance)
    ensures
        0 <= relevance.key() <= MAX_KEY,
{
}

/// The relevance of `line` for `prompt`.
pub open spec fn relevance(
    prompt: Seq<char>,
    line: Seq<char>,
    ngram_len: nat,
    separator: char,
) -> Relevance {
    if too_short(prompt, ngram_len) {
        Relevance::Neutral
    } else {
        Relevance::Measured(measure(prompt, line, ngram_len, separator))
    }
}

/// The relevance of a line for a prompt.
#[derive(Clone, Copy, Debug)]
pub enum Score {
    /// The prompt is too short to rank by: every line matches it alike.
    Neutral,
    /// The line was measured against the prompt.
    Measured(Signals),
}

impl View for Score {
    type V = Relevance;

    open spec fn view(&self) -> Relevance {
        match self {
            Score::Neutral => Relevance::Neutral,
            Score::Measured(signals) => Relevance::Measured(signals@),
        }
    }
}

impl Score {
    /// Whether the line is a match for the prompt.
    pub fn is_match(&self) -> (holds: bool)
        ensures
            holds == self@.is_match(),
    {
        match self {
            Score::Neutral => true,
            Score::Measured(signals) => !signals.rejected(),
        }
    }

    /// The key by which the line is ordered among the matches; `None` for a
    /// line that is no match.
    pub fn sort_key(&self) -> (key: Option<i16>)
        ensures
            key is Some <==> self@.is_match(),
            key matches Some(k) ==> k == self@.key(),
    {
        match self {
            Score::Neutral => Some(NEUTRAL_KEY),
            Score::Measured(signals) => signals.sort_key(),
        }
    }
}

} // verus!
