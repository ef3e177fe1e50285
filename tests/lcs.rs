use string_dist::lcs::{distance2, get_deeper_matches, Match};

#[test]
fn distance2_grows_shared_characters() {
    let r = distance2("abcd", "xbcy");
    assert_eq!(r.len(), 1);
    assert_eq!(r[0].str, "bc");
    assert_eq!(r[0].idx1(), 1);
    assert_eq!(r[0].idx2(), 1);
}

#[test]
fn distance2_without_shared_characters_is_empty() {
    assert!(distance2("abc", "xyz").is_empty());
    assert!(distance2("", "xyz").is_empty());
}

#[test]
fn deeper_matches_extend_or_drop() {
    let ms = vec![Match::new("b".to_string(), 1, 1), Match::new("c".to_string(), 2, 2)];
    let d = get_deeper_matches(&ms, "abcd", "xbcy");
    assert_eq!(d.len(), 1);
    assert_eq!(d[0].str, "bc");
    assert_eq!(d[0].idx1(), 1);
    assert_eq!(d[0].idx2(), 1);
    assert!(get_deeper_matches(&d, "abcd", "xbcy").is_empty());
}

#[test]
fn lcs_distance_returns_every_longest_common_substring() {
    let r = string_dist::lcs::distance("failuree", "faluiere");
    assert_eq!(r, vec![("fa".to_string(), 2), ("lu".to_string(), 2), ("re".to_string(), 2)]);
}

#[test]
fn lcs_distance_lists_each_substring_once() {
    let r = string_dist::lcs::distance("xabcyabc", "abc");
    assert_eq!(r, vec![("abc".to_string(), 3)]);
    assert_eq!(string_dist::lcs::distance("aa", "aa"), vec![("aa".to_string(), 2)]);
    assert_eq!(string_dist::lcs::distance("ab", "ab"), vec![("ab".to_string(), 2)]);
}

#[test]
fn lcs_distance_without_shared_characters_is_empty() {
    assert!(string_dist::lcs::distance("abc", "xyz").is_empty());
    assert!(string_dist::lcs::distance("", "").is_empty());
}

#[test]
fn distance2_grows_every_occurrence() {
    let r = distance2("abxa", "ab");
    assert_eq!(r.len(), 1);
    assert_eq!(r[0].str, "ab");
    assert_eq!((r[0].idx1(), r[0].idx2()), (0, 0));
    let s = distance2("xabcyabc", "abc");
    assert_eq!(s.len(), 2);
    assert_eq!(s[0].str, "abc");
    assert_eq!((s[0].idx1(), s[0].idx2()), (1, 0));
    assert_eq!(s[1].str, "abc");
    assert_eq!((s[1].idx1(), s[1].idx2()), (5, 0));
}

#[test]
fn lcs_distance_accepts_long_texts_with_short_common_parts() {
    let a = "a".repeat(300);
    let b = format!("{}ab", "b".repeat(298));
    let r = string_dist::lcs::distance(&a, &b);
    assert_eq!(r, vec![("a".to_string(), 1)]);
}
