use string_dist::helpers::{cnt, min3, StringHelpers};

#[test]
fn counts_characters() {
    assert_eq!(cnt(""), 0);
    assert_eq!(cnt("héllo"), 5);
    assert_eq!("héllo".char_count(), 5);
    assert_eq!("日本語".char_count(), 3);
}

#[test]
fn nth_char_indexes_characters() {
    assert_eq!("héllo".nth_char(1), 'é');
    assert_eq!("日本語".nth_char(2), '語');
}

#[test]
fn min3_picks_the_smallest() {
    assert_eq!(min3(3, 1, 2), 1);
    assert_eq!(min3(0, 5, 5), 0);
    assert_eq!(min3(9, 9, 4), 4);
    assert_eq!(min3(7, 7, 7), 7);
}
