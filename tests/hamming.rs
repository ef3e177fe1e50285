use string_dist::hamming::hamming_distance;

#[test]
fn hamming_empty_distance() {
    let d = hamming_distance("", "");
    assert_eq!(d, 0);
}

#[test]
fn hamming_peter_pedro_distance() {
    let d = hamming_distance("peter", "pedro");
    assert_eq!(d, 3);
}

#[test]
fn hamming_counts_extra_length() {
    assert_eq!(hamming_distance("abc", "abcde"), 2);
    assert_eq!(hamming_distance("abcde", "axc"), 3);
    assert_eq!(hamming_distance("", "xyz"), 3);
}

#[test]
fn hamming_counts_characters_not_bytes() {
    assert_eq!(hamming_distance("naïve", "naive"), 1);
    assert_eq!(hamming_distance("日本語", "日本人"), 1);
}
