use fp::sorter::score::{Score, Signals};
use fp::sorter::Sorter;
use std::collections::HashSet;

fn set_of(chars: Vec<char>) -> HashSet<char> {
    chars.into_iter().collect()
}

fn lines(texts: &[&str]) -> Vec<String> {
    texts.iter().map(|text| text.to_string()).collect()
}

fn signals(sorter: &mut Sorter, prompt: &str, line: &str) -> Signals {
    match sorter.score(prompt, line) {
        Score::Measured(signals) => signals,
        Score::Neutral => panic!("{prompt:?} is too short to rank by"),
    }
}

/// The same formula in floating point, for texts of one byte per character
/// and lines without upper-case characters.
fn float_key(prompt: &str, line: &str, ngram_len: usize) -> Option<i16> {
    let n = prompt.len();
    if n == 0 || n < ngram_len {
        return Some(1000);
    }
    let prompt_lower = prompt.to_lowercase();
    let line_lower = line.to_lowercase();
    let grams: Vec<&str> = (0..=prompt_lower.len() - ngram_len)
        .map(|at| &prompt_lower[at..at + ngram_len])
        .collect();
    let contains_string = line_lower.find(&prompt_lower);
    let prompt_uppers: HashSet<char> = prompt.chars().filter(|c| c.is_uppercase()).collect();
    let line_uppers: HashSet<char> = line.chars().filter(|c| c.is_uppercase()).collect();
    let uppers_matching = prompt_uppers.intersection(&line_uppers).count();
    let contains_tail = match line.rsplit_once('/') {
        Some((_, tail)) => tail.contains(prompt),
        None => false,
    };
    let mut consecutive_matches = 0;
    let mut previous = 0;
    let mut match_count = 0;
    for gram in &grams {
        if let Some(at) = line_lower.find(gram) {
            match_count += 1;
            if at > previous {
                consecutive_matches += 1;
            }
            previous = at;
        }
    }
    let tail_modifier: f64 = if contains_tail { 2. } else { 1. };
    let denominator = ((10. * match_count as f64 / grams.len() as f64)
        + (3 * match_count * ngram_len) as f64 / line.len() as f64
        + consecutive_matches as f64
        + n as f64 / contains_string.unwrap_or(2 * line.len()) as f64
        + uppers_matching as f64)
        * tail_modifier;
    if denominator == 0. {
        return None;
    }
    if n > 2 && denominator < 0.5 {
        return None;
    }
    Some(((1. / denominator) * 1000.) as i16)
}

#[test]
fn test_create_ngram_cache() {
    let mut sorter = Sorter::default();

    sorter.overlapping_ngrams("fp");

    assert!(sorter.has_cached_ngrams("fp"));
}

#[test]
fn test_create_uppers_cache() {
    let mut sorter = Sorter::default();

    sorter.get_uppers("EgG");

    assert!(sorter.has_cached_uppers("EgG"));
}

#[test]
fn test_ngram_2_prompt_2() {
    let mut sorter = Sorter::default();

    let res = sorter.overlapping_ngrams("fp");

    assert_eq!(res, vec!["fp"]);
}

#[test]
fn test_ngram_2_prompt_6() {
    let mut sorter = Sorter::default();

    let res = sorter.overlapping_ngrams("search");

    assert_eq!(res, vec!["se", "ea", "ar", "rc", "ch"]);
}

#[test]
fn test_ngram_3_prompt_3() {
    let mut sorter = Sorter::new(3);

    let res = sorter.overlapping_ngrams("tet");

    assert_eq!(res, vec!["tet"]);
}

#[test]
fn test_ngram_3_prompt_4() {
    let mut sorter = Sorter::new(3);

    let res = sorter.overlapping_ngrams("mule");

    assert_eq!(res, vec!["mul", "ule"]);
}

#[test]
fn test_no_uppers() {
    let mut sorter = Sorter::default();

    let res = sorter.get_uppers("lowercase string");

    assert_eq!(set_of(res.to_vec()), HashSet::from([]));
}

#[test]
fn test_one_upper() {
    let mut sorter = Sorter::default();

    let res = sorter.get_uppers("lowercase String");

    assert_eq!(set_of(res.to_vec()), HashSet::from(['S']));
}

#[test]
fn test_two_different_upper() {
    let mut sorter = Sorter::default();

    let res = sorter.get_uppers("lowercasE String");

    assert_eq!(set_of(res.to_vec()), HashSet::from(['E', 'S']));
}

#[test]
fn test_two_same_upper() {
    let mut sorter = Sorter::default();

    let res = sorter.get_uppers("lowErcasE string");

    assert_eq!(set_of(res.to_vec()), HashSet::from(['E']));
    assert_eq!(res.len(), 1);
}

#[test]
fn test_all_upper() {
    let mut sorter = Sorter::default();

    let res = sorter.get_uppers("UPPERCASE");

    assert_eq!(
        set_of(res.to_vec()),
        HashSet::from(['U', 'P', 'E', 'R', 'C', 'A', 'S'])
    );
}

#[test]
fn a_new_sorter_has_nothing_kept() {
    let sorter = Sorter::new(3);
    assert_eq!(sorter.ngram_len(), 3);
    assert_eq!(Sorter::default().ngram_len(), 2);
    assert_eq!(sorter.separator(), std::path::MAIN_SEPARATOR);
    assert!(!sorter.has_cached_ngrams("fp"));
    assert!(!sorter.has_cached_uppers("fp"));
}

#[test]
fn ngrams_of_a_text_shorter_than_an_ngram_are_none() {
    let mut sorter = Sorter::new(3);
    assert!(sorter.overlapping_ngrams("ab").is_empty());
    assert!(sorter.overlapping_ngrams("").is_empty());
    assert!(sorter.has_cached_ngrams("ab"));
}

#[test]
fn ngrams_have_the_asked_length_and_overlap() {
    let mut sorter = Sorter::new(4);
    let text = "overlapping";
    let grams = sorter.overlapping_ngrams(text);
    assert_eq!(grams.len(), text.len() - 4 + 1);
    for (at, gram) in grams.iter().enumerate() {
        assert_eq!(gram, &text[at..at + 4]);
        if at > 0 {
            assert_eq!(gram[..3], grams[at - 1][1..]);
        }
    }
}

#[test]
fn ngrams_of_no_characters_are_empty_texts() {
    let mut sorter = Sorter::new(0);
    assert_eq!(sorter.overlapping_ngrams("ab"), vec!["", "", ""]);
}

#[test]
fn ngrams_count_characters_not_bytes() {
    let mut sorter = Sorter::default();
    assert_eq!(sorter.overlapping_ngrams("héllo"), vec!["hé", "él", "ll", "lo"]);
}

#[test]
fn asking_twice_gives_the_same_and_keeps_no_more() {
    let mut sorter = Sorter::default();
    let first = sorter.overlapping_ngrams("search");
    let second = sorter.overlapping_ngrams("search");
    assert_eq!(first, second);
    assert!(sorter.has_cached_ngrams("search"));
    assert!(!sorter.has_cached_uppers("search"));

    let first = sorter.get_uppers("Some Text");
    let second = sorter.get_uppers("Some Text");
    assert_eq!(set_of(first.to_vec()), set_of(second.to_vec()));
    assert!(sorter.has_cached_uppers("Some Text"));
    assert!(!sorter.has_cached_ngrams("Some Text"));
}

#[test]
fn uppers_are_looked_up_under_the_text_itself() {
    let mut sorter = Sorter::default();
    sorter.get_uppers("s");
    assert_eq!(set_of(sorter.get_uppers("ABC").to_vec()), HashSet::from(['A', 'B', 'C']));
    assert_eq!(set_of(sorter.get_uppers("xYz").to_vec()), HashSet::from(['Y']));
}

#[test]
fn score_of_a_short_prompt_is_neutral() {
    let mut sorter = Sorter::default();
    assert!(matches!(sorter.score("", "anything"), Score::Neutral));
    assert!(matches!(sorter.score("a", "anything"), Score::Neutral));
    assert!(sorter.score("a", "zzz").is_match());
    assert_eq!(sorter.score("a", "zzz").sort_key(), Some(1000));
    assert!(!sorter.has_cached_uppers("a"));

    let mut sorter = Sorter::new(4);
    assert!(matches!(sorter.score("abc", "abc"), Score::Neutral));
    assert!(matches!(sorter.score("abcd", "abc"), Score::Measured(_)));
}

#[test]
fn score_keeps_what_it_computed() {
    let mut sorter = Sorter::default();
    sorter.score("App", "My-App");
    assert!(sorter.has_cached_ngrams("app"));
    assert!(!sorter.has_cached_ngrams("App"));
    assert!(sorter.has_cached_uppers("App"));
    assert!(sorter.has_cached_uppers("My-App"));
}

#[test]
fn signals_of_a_match() {
    let mut sorter = Sorter::default();
    let found = signals(&mut sorter, "app", "my-app");
    assert_eq!(found.prompt_len, 3);
    assert_eq!(found.line_len, 6);
    assert_eq!(found.ngram_len, 2);
    assert_eq!(found.total_ngrams, 2);
    assert_eq!(found.match_count, 2);
    assert_eq!(found.consecutive_matches, 2);
    assert_eq!(found.substring_offset, Some(3));
    assert_eq!(found.uppercase_overlap, 0);
    assert!(!found.tail_match);
    // 10 * 2 / 2 + 3 * 2 * 2 / 6 + 2 + 3 / 3 + 0 = 15, and 1000 / 15 = 66.6
    assert_eq!(found.sort_key(), Some(66));
    assert!(!found.rejected());
    assert!(!found.unbounded());
}

#[test]
fn signals_of_a_line_without_the_prompt() {
    let mut sorter = Sorter::default();
    let found = signals(&mut sorter, "app", "zzz");
    assert_eq!(found.match_count, 0);
    assert_eq!(found.consecutive_matches, 0);
    assert_eq!(found.substring_offset, None);
    // 3 / (2 * 3) = 0.5, which is not under one half: 1000 / 0.5 = 2000
    assert!(!found.rejected());
    assert_eq!(found.sort_key(), Some(2000));
}

#[test]
fn a_cost_under_one_half_is_no_match_for_a_long_prompt() {
    let mut sorter = Sorter::default();
    // 3 / (2 * 4) = 0.375
    let score = sorter.score("app", "zzzz");
    assert!(!score.is_match());
    assert_eq!(score.sort_key(), None);
    assert!(signals(&mut sorter, "app", "zzzz").rejected());
    // a prompt of two characters is exempt: 2 / (2 * 4) = 0.25, 1000 / 0.25 = 4000
    let score = sorter.score("ap", "zzzz");
    assert!(score.is_match());
    assert_eq!(score.sort_key(), Some(4000));
}

#[test]
fn the_key_stops_at_its_largest_value() {
    let mut sorter = Sorter::default();
    let line = "z".repeat(100);
    // 2 / 200 = 0.01, 1000 / 0.01 = 100000
    assert_eq!(sorter.score("ab", &line).sort_key(), Some(32767));
}

#[test]
fn a_prompt_at_the_start_of_the_line_has_the_best_key() {
    let mut sorter = Sorter::default();
    let found = signals(&mut sorter, "my", "my-app");
    assert_eq!(found.substring_offset, Some(0));
    assert!(found.unbounded());
    assert_eq!(found.sort_key(), Some(0));
    assert!(sorter.score("my", "my-app").is_match());
}

#[test]
fn an_empty_line_is_a_match_with_the_best_key() {
    let mut sorter = Sorter::default();
    let found = signals(&mut sorter, "app", "");
    assert_eq!(found.line_len, 0);
    assert!(found.unbounded());
    assert_eq!(found.sort_key(), Some(0));
}

#[test]
fn the_first_ngram_rises_only_past_the_start() {
    let mut sorter = Sorter::default();
    // "ab" at 0 does not rise, "bc" at 1 does
    let found = signals(&mut sorter, "abc", "abc");
    assert_eq!(found.match_count, 2);
    assert_eq!(found.consecutive_matches, 1);
    // "ba" at 1 rises, "ab" at 0 falls
    let found = signals(&mut sorter, "bab", "aba");
    assert_eq!(found.match_count, 2);
    assert_eq!(found.consecutive_matches, 1);
    // "aa" twice at 1: the second stands where the first stood
    let found = signals(&mut sorter, "aaa", "baa");
    assert_eq!(found.match_count, 2);
    assert_eq!(found.consecutive_matches, 1);
}

#[test]
fn case_changes_leave_substring_and_ngram_signals_alone() {
    let mut sorter = Sorter::default();
    let lower = signals(&mut sorter, "app", "my-app");
    let upper = signals(&mut sorter, "APP", "My-App");
    assert_eq!(lower.substring_offset, upper.substring_offset);
    assert_eq!(lower.total_ngrams, upper.total_ngrams);
    assert_eq!(lower.match_count, upper.match_count);
    assert_eq!(lower.consecutive_matches, upper.consecutive_matches);
    // the upper-case characters that both hold do count
    assert_eq!(lower.uppercase_overlap, 0);
    assert_eq!(upper.uppercase_overlap, 1);
    assert_eq!(lower.sort_key(), Some(66));
    // 15 + 1 = 16, and 1000 / 16 = 62.5
    assert_eq!(upper.sort_key(), Some(62));
}

#[test]
fn shared_upper_case_characters_count_once_each() {
    let mut sorter = Sorter::default();
    assert_eq!(signals(&mut sorter, "AAB", "xAyBzB").uppercase_overlap, 2);
    assert_eq!(signals(&mut sorter, "AAB", "xayb").uppercase_overlap, 0);
}

#[test]
fn keys_of_the_largest_signals() {
    let max = usize::MAX;
    let huge = Signals {
        prompt_len: max,
        line_len: max,
        ngram_len: max,
        total_ngrams: max,
        match_count: max,
        consecutive_matches: max,
        substring_offset: Some(max),
        uppercase_overlap: max,
        tail_match: true,
    };
    assert!(!huge.unbounded());
    assert!(!huge.rejected());
    assert_eq!(huge.sort_key(), Some(0));

    // a cost of 1 / (2 * max): no match for a long prompt, the largest key for a short one
    let faint = Signals {
        prompt_len: 3,
        line_len: max,
        ngram_len: 2,
        total_ngrams: 2,
        match_count: 0,
        consecutive_matches: 0,
        substring_offset: None,
        uppercase_overlap: 0,
        tail_match: false,
    };
    assert!(faint.rejected());
    assert_eq!(faint.sort_key(), None);
    let short = Signals { prompt_len: 2, total_ngrams: 1, ..faint };
    assert!(!short.rejected());
    assert_eq!(short.sort_key(), Some(32767));

    // a cost of exactly 1000 / 32767 and of just over it
    let edge = Signals {
        prompt_len: 1000,
        line_len: 1,
        ngram_len: 1,
        total_ngrams: 1,
        match_count: 0,
        consecutive_matches: 0,
        substring_offset: Some(32767),
        uppercase_overlap: 0,
        tail_match: false,
    };
    assert!(edge.rejected());
    let edge = Signals { prompt_len: 2, substring_offset: Some(65), ..edge };
    // 2 / 65, and 1000 * 65 / 2 = 32500
    assert_eq!(edge.sort_key(), Some(32500));
    let edge = Signals { prompt_len: 2, substring_offset: Some(66), ..edge };
    // 2 / 66, and 1000 * 66 / 2 = 33000
    assert_eq!(edge.sort_key(), Some(32767));
}

#[test]
fn a_cost_of_nothing_is_no_match() {
    let none = Signals {
        prompt_len: 0,
        line_len: 5,
        ngram_len: 2,
        total_ngrams: 0,
        match_count: 0,
        consecutive_matches: 0,
        substring_offset: None,
        uppercase_overlap: 0,
        tail_match: false,
    };
    assert!(!none.unbounded());
    assert!(none.rejected());
    assert_eq!(none.sort_key(), None);
    assert!(!Score::Measured(none).is_match());
    assert!(Score::Neutral.is_match());
    assert_eq!(Score::Neutral.sort_key(), Some(1000));
}

#[test]
fn ranking_many_candidates() {
    let mut sorter = Sorter::default();
    let candidates: Vec<String> = (0..3000)
        .map(|i| format!("home/me/project-{}/app-{}", i % 7, 2999 - i))
        .collect();
    let ranked = sorter.sort(&candidates, "app-1");
    assert!(!ranked.is_empty());
    let keys: Vec<i16> = ranked
        .iter()
        .map(|line| sorter.score("app-1", line).sort_key().unwrap())
        .collect();
    assert!(keys.windows(2).all(|pair| pair[0] <= pair[1]));
    let matching = candidates
        .iter()
        .filter(|line| sorter.score("app-1", line).is_match())
        .count();
    assert_eq!(ranked.len(), matching);
    let mut expected: Vec<&String> = candidates
        .iter()
        .filter(|line| sorter.score("app-1", line).is_match())
        .collect();
    expected.sort();
    let mut given: Vec<&String> = ranked.iter().collect();
    given.sort();
    assert_eq!(given, expected);
}

#[test]
fn the_separator_can_be_chosen() {
    let mut sorter = Sorter::with_separator(3, ':');
    assert_eq!(sorter.ngram_len(), 3);
    assert_eq!(sorter.separator(), ':');
    assert!(signals(&mut sorter, "app", "home:my-app").tail_match);
    assert!(!signals(&mut sorter, "app", "home/my-app").tail_match);
    assert!(!signals(&mut sorter, "app", "my-app:home").tail_match);
}

#[test]
fn a_prompt_longer_than_the_line_is_not_found_in_it() {
    let mut sorter = Sorter::default();
    let found = signals(&mut sorter, "my-application", "my-app");
    assert_eq!(found.substring_offset, None);
    assert_eq!(found.total_ngrams, 13);
    assert_eq!(found.match_count, 5);
    assert_eq!(found.consecutive_matches, 4);
    // 10 * 5 / 13 + 3 * 5 * 2 / 6 + 4 + 14 / 12 = 14.01..., and 1000 / 14.01 = 71.3
    assert_eq!(found.sort_key(), Some(71));
}

#[test]
fn a_prompt_in_the_tail_of_the_line_doubles_the_cost() {
    let separator = std::path::MAIN_SEPARATOR;
    let mut sorter = Sorter::default();
    let line = format!("home{separator}my-app");
    let found = signals(&mut sorter, "app", &line);
    assert!(found.tail_match);
    assert_eq!(found.substring_offset, Some(8));
    // (10 + 12 / 11 + 2 + 3 / 8) * 2 = 26.93..., and 1000 / 26.93 = 37.1
    assert_eq!(found.sort_key(), Some(37));

    let line = format!("my-app{separator}home");
    let found = signals(&mut sorter, "app", &line);
    assert!(!found.tail_match);

    // the tail is taken after the last separator
    let line = format!("app{separator}x{separator}y");
    assert!(!signals(&mut sorter, "app", &line).tail_match);

    // the tail holds the prompt as it is written
    let line = format!("home{separator}my-app");
    assert!(!signals(&mut sorter, "App", &line).tail_match);
    let line = format!("home{separator}my-App");
    assert!(signals(&mut sorter, "App", &line).tail_match);
    assert!(!signals(&mut sorter, "app", &line).tail_match);
}

#[test]
fn keys_agree_with_the_formula_in_floating_point() {
    if std::path::MAIN_SEPARATOR != '/' {
        return;
    }
    let prompts = [
        "", "a", "ap", "app", "my", "fp", "src", "test", "rust", "Find", "other", "zz", "e/",
        "home", "o-a", "pp", "App",
    ];
    let candidates = [
        "",
        "my-app",
        "my-other-app",
        "zzz",
        "zzzz",
        "home/me/src/fp",
        "home/me/src/find-project",
        "home/me/rust/tests",
        "home/you/other/app",
        "a",
        "ap",
        "x",
        "some/very/long/path/that/goes/on/and/on/without/any/match/in/it",
    ];
    for ngram_len in [0usize, 1, 2, 3] {
        let mut sorter = Sorter::new(ngram_len);
        for prompt in prompts {
            for line in candidates {
                assert_eq!(
                    sorter.score(prompt, line).sort_key(),
                    float_key(prompt, line, ngram_len),
                    "{prompt:?} against {line:?} with n-grams of {ngram_len}"
                );
            }
        }
    }
}

#[test]
fn rank_keeps_matches_in_order_of_their_keys() {
    let mut sorter = Sorter::default();
    let candidates = lines(&["zzz", "my-other-app", "my-app"]);
    let ranked = sorter.sort(&candidates, "app");
    assert_eq!(ranked, vec!["my-app", "my-other-app", "zzz"]);
    assert_eq!(sorter.score("app", "my-app").sort_key(), Some(66));
    assert_eq!(sorter.score("app", "my-other-app").sort_key(), Some(75));
    assert_eq!(sorter.score("app", "zzz").sort_key(), Some(2000));
    assert_eq!(candidates, lines(&["zzz", "my-other-app", "my-app"]));
}

#[test]
fn rank_leaves_out_what_is_no_match() {
    let mut sorter = Sorter::default();
    let candidates = lines(&["my-app", "zzzz", "my-other-app", "zzzzz"]);
    let ranked = sorter.sort(&candidates, "app");
    assert_eq!(ranked, vec!["my-app", "my-other-app"]);
    assert!(sorter.sort(&lines(&["zzzz", "yyyyy"]), "app").is_empty());
}

#[test]
fn rank_for_a_short_prompt_gives_back_the_array() {
    let mut sorter = Sorter::default();
    let candidates = lines(&["zzz", "my-app", "", "my-other-app", "zzz"]);
    assert_eq!(sorter.sort(&candidates, ""), candidates);
    assert_eq!(sorter.sort(&candidates, "a"), candidates);
    assert!(!sorter.has_cached_uppers("zzz"));
    let none: Vec<String> = Vec::new();
    assert!(sorter.sort(&none, "").is_empty());
    assert!(sorter.sort(&none, "app").is_empty());
}

#[test]
fn rank_keeps_candidates_that_are_in_order_as_they_stand() {
    let mut sorter = Sorter::default();
    // the same key three times, and a better one behind them
    let candidates = lines(&["x-app-1", "x-app-2", "x-app-3", "app"]);
    let ranked = sorter.sort(&candidates, "app");
    assert_eq!(ranked[0], "app");
    let mut rest: Vec<String> = ranked[1..].to_vec();
    rest.sort();
    assert_eq!(rest, lines(&["x-app-1", "x-app-2", "x-app-3"]));

    let in_order = lines(&["app", "x-app-1", "x-app-2", "x-app-3"]);
    assert_eq!(sorter.sort(&in_order, "app"), in_order);
}

#[test]
fn rank_keeps_each_candidate_as_often_as_it_stands() {
    let mut sorter = Sorter::default();
    let candidates = lines(&["my-app", "zzz", "my-app"]);
    assert_eq!(sorter.sort(&candidates, "app"), vec!["my-app", "my-app", "zzz"]);
}

#[test]
fn rank_keeps_what_it_computed() {
    let mut sorter = Sorter::default();
    sorter.sort(&lines(&["My-App", "zzz"]), "App");
    assert!(sorter.has_cached_ngrams("app"));
    assert!(sorter.has_cached_uppers("App"));
    assert!(sorter.has_cached_uppers("My-App"));
    assert!(sorter.has_cached_uppers("zzz"));
}
