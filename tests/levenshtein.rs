use string_dist::levenshtein::{
    build_levenshtein_matrix, damerau_levenshtein_distance, levenshtein_distance, osa_distance,
    ScoreRule,
};

#[test]
fn mod_empty_distance() {
    let d = levenshtein_distance("", "");
    assert_eq!(d, 0);
}

#[test]
fn mod_peter_pedro_distance() {
    let d = levenshtein_distance("jones", "johnson");
    assert_eq!(d, 4);
}

#[test]
fn mod_paul_pual_distance() {
    let d = levenshtein_distance("paul", "pual");
    assert_eq!(d, 2);
}

#[test]
fn mod_paul_jones_distance() {
    let d = levenshtein_distance("Paul Jones", "Jones, Paul");
    assert_eq!(d, 11);
}

#[test]
fn osa_empty_distance() {
    let d = osa_distance("", "");
    assert_eq!(d, 0);
}

#[test]
fn osa_peter_pedro_distance() {
    let d = osa_distance("jones", "johnson");
    assert_eq!(d, 4);
}

#[test]
fn osa_paul_pual_distance() {
    let d = osa_distance("paul", "pual");
    assert_eq!(d, 1);
}

#[test]
fn osa_paul_jones_distance() {
    let d = osa_distance("Paul Jones", "Jones, Paul");
    assert_eq!(d, 11);
}

#[test]
fn dl_empty_distance() {
    let d = damerau_levenshtein_distance("", "");
    assert_eq!(d, 0);
}

#[test]
fn dl_peter_pedro_distance() {
    let d = damerau_levenshtein_distance("jones", "johnson");
    assert_eq!(d, 4);
}

#[test]
fn dl_paul_pual_distance() {
    let d = damerau_levenshtein_distance("paul", "pual");
    assert_eq!(d, 1);
}

#[test]
fn dl_paul_jones_distance() {
    let d = damerau_levenshtein_distance("Paul Jones", "Jones, Paul");
    assert_eq!(d, 11);
}

#[test]
fn distance_to_self_is_zero() {
    for s in ["", "a", "kitten", "Paul Jones", "ünïcödé"] {
        assert_eq!(levenshtein_distance(s, s), 0);
        assert_eq!(osa_distance(s, s), 0);
        assert_eq!(damerau_levenshtein_distance(s, s), 0);
    }
}

#[test]
fn distances_are_symmetric() {
    let pairs = [("kitten", "sitting"), ("ca", "abc"), ("Paul Jones", "Jones, Paul"), ("", "xy")];
    for (a, b) in pairs {
        assert_eq!(levenshtein_distance(a, b), levenshtein_distance(b, a));
        assert_eq!(osa_distance(a, b), osa_distance(b, a));
        assert_eq!(damerau_levenshtein_distance(a, b), damerau_levenshtein_distance(b, a));
    }
}

#[test]
fn osa_never_exceeds_levenshtein() {
    let pairs = [("paul", "pual"), ("abcdef", "badcfe"), ("jones", "johnson"), ("ca", "abc")];
    for (a, b) in pairs {
        assert!(osa_distance(a, b) <= levenshtein_distance(a, b));
    }
    assert_eq!(osa_distance("abcdef", "badcfe"), 3);
    assert_eq!(levenshtein_distance("abcdef", "badcfe"), 4);
}

#[test]
fn distance_from_empty_is_length() {
    assert_eq!(levenshtein_distance("", "abc"), 3);
    assert_eq!(osa_distance("", "abc"), 3);
    assert_eq!(damerau_levenshtein_distance("", "abc"), 3);
    assert_eq!(levenshtein_distance("abcd", ""), 4);
    assert_eq!(osa_distance("abcd", ""), 4);
    assert_eq!(damerau_levenshtein_distance("abcd", ""), 4);
    assert_eq!(levenshtein_distance("", "日本"), 2);
}

#[test]
fn triangle_holds_for_damerau_levenshtein_but_not_osa() {
    assert_eq!(osa_distance("ca", "ac"), 1);
    assert_eq!(osa_distance("ac", "abc"), 1);
    assert_eq!(osa_distance("ca", "abc"), 3);
    assert_eq!(damerau_levenshtein_distance("ca", "ac"), 1);
    assert_eq!(damerau_levenshtein_distance("ac", "abc"), 1);
    assert_eq!(damerau_levenshtein_distance("ca", "abc"), 2);
}

#[test]
fn classic_examples() {
    assert_eq!(levenshtein_distance("kitten", "sitting"), 3);
    assert_eq!(osa_distance("kitten", "sitting"), 3);
    assert_eq!(damerau_levenshtein_distance("kitten", "sitting"), 3);
    assert_eq!(levenshtein_distance("failuree", "faluiere"), 3);
    assert_eq!(osa_distance("abc", "bca"), 2);
}

#[test]
fn distances_count_characters_not_bytes() {
    assert_eq!(levenshtein_distance("naïve", "naive"), 1);
    assert_eq!(osa_distance("üö", "öü"), 1);
    assert_eq!(damerau_levenshtein_distance("日本語", "本日語"), 1);
}

#[test]
fn levenshtein_matrix_holds_prefix_distances() {
    let m = build_levenshtein_matrix("ab", "ba", &ScoreRule::Plain);
    assert_eq!(m.width(), 3);
    assert_eq!(m.height(), 3);
    assert_eq!(m.get(-1, -1), 0);
    assert_eq!(m.get(-1, 1), 2);
    assert_eq!(m.get(1, -1), 2);
    assert_eq!(m.get(0, 0), 1);
    assert_eq!(m.get(0, 1), 1);
    assert_eq!(m.get(1, 0), 1);
    assert_eq!(*m.get_last(), 2);
    let t = build_levenshtein_matrix("ab", "ba", &ScoreRule::AdjacentTransposition);
    assert_eq!(*t.get_last(), 1);
}

#[test]
fn jones_johnson_similarity_parts() {
    let d = levenshtein_distance("jones", "johnson");
    let longest = string_dist::helpers::cnt("jones").max(string_dist::helpers::cnt("johnson"));
    assert_eq!((d, longest), (4, 7));
    let similarity = 1.0 - d as f64 / longest as f64;
    assert!((similarity - 0.43).abs() < 0.01);
}
