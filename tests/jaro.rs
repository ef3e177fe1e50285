use string_dist::jaro::{jaro_compare, jaro_score, winkler_prefix, JaroScore};

#[test]
fn jaro_empty_texts() {
    assert_eq!(jaro_score("", "", false), JaroScore::Same);
    assert_eq!(jaro_score("a", "", false), JaroScore::Unrelated);
    assert_eq!(jaro_score("", "aaaapppp", true), JaroScore::Unrelated);
}

#[test]
fn jaro_counts_frog_fog() {
    assert_eq!(
        jaro_score("frog", "fog", false),
        JaroScore::Ratio { matches: 3, half_transpositions: 0, len1: 4, len2: 3 }
    );
}

#[test]
fn jaro_counts_transpositions() {
    assert_eq!(
        jaro_compare("martha", "marhta"),
        JaroScore::Ratio { matches: 6, half_transpositions: 2, len1: 6, len2: 6 }
    );
}

#[test]
fn jaro_without_matches_is_unrelated() {
    assert_eq!(jaro_score("fly", "ant", false), JaroScore::Unrelated);
    assert_eq!(jaro_compare("ab", "ba"), JaroScore::Unrelated);
    assert_eq!(jaro_compare("a", "b"), JaroScore::Unrelated);
}

#[test]
fn jaro_ignores_case_unless_asked() {
    assert_eq!(jaro_score("Hello", "hELLO", false), JaroScore::Same);
    assert_eq!(jaro_score("ABC", "abc", true), JaroScore::Unrelated);
    assert_eq!(
        jaro_score("Hello", "HALLO", false),
        JaroScore::Ratio { matches: 4, half_transpositions: 0, len1: 5, len2: 5 }
    );
}

#[test]
fn jaro_match_window_limits_matches() {
    // window is max(4, 4) / 2 - 1 = 1: the 'a' at 0 cannot reach the 'a' at 3
    assert_eq!(
        jaro_compare("abcd", "bcda"),
        JaroScore::Ratio { matches: 3, half_transpositions: 0, len1: 4, len2: 4 }
    );
}

#[test]
fn winkler_prefix_is_capped_at_four() {
    assert_eq!(winkler_prefix("martha", "marhta"), 3);
    assert_eq!(winkler_prefix("abcdef", "abcdeg"), 4);
    assert_eq!(winkler_prefix("ab", "abc"), 2);
    assert_eq!(winkler_prefix("", "abc"), 0);
    assert_eq!(winkler_prefix("xbc", "abc"), 0);
}
