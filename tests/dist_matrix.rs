use string_dist::dist_matrix::{DistMatrix, FillSource};

#[test]
fn construction_0_2x0_2() {
    let d: DistMatrix<i32> = DistMatrix::new(0..2, 0..2, 0);
    assert_eq!(d.width(), 2);
    assert_eq!(d.height(), 2);
}

#[test]
fn construction_0_3x0_3() {
    let d: DistMatrix<i32> = DistMatrix::new(0..3, 0..3, 0);
    assert_eq!(d.width(), 3);
    assert_eq!(d.height(), 3);
}

#[test]
fn construction_n1_p1x_n1_p1() {
    let d: DistMatrix<i32> = DistMatrix::new(-1..1, -1..1, 0);
    assert_eq!(d.width(), 2);
    assert_eq!(d.height(), 2);
}

#[test]
fn fill_top_row() {
    let mut d: DistMatrix<i32> = DistMatrix::new(0..2, 0..2, 0);
    d.fill(&(0..2), &(0..1), &FillSource::Repeat(1));

    assert_eq!(d.get(0, 0), 1);
    assert_eq!(d.get(1, 0), 1);
    assert_eq!(d.get(0, 1), 0);
    assert_eq!(d.get(1, 1), 0);
}

#[test]
fn fill_left_col() {
    let mut d: DistMatrix<i32> = DistMatrix::new(0..2, 0..2, 0);
    d.fill(&(0..1), &(0..2), &FillSource::Repeat(1));

    assert_eq!(d.get(0, 0), 1);
    assert_eq!(d.get(1, 0), 0);
    assert_eq!(d.get(0, 1), 1);
    assert_eq!(d.get(1, 1), 0);
}

#[test]
fn fill_list_goes_down_each_column_then_stops() {
    let mut d: DistMatrix<i32> = DistMatrix::new(-1..2, -1..2, 9);
    d.fill(&(0..2), &(-1..2), &FillSource::List(vec![10, 11, 12, 13]));

    assert_eq!(d.get(0, -1), 10);
    assert_eq!(d.get(0, 0), 11);
    assert_eq!(d.get(0, 1), 12);
    assert_eq!(d.get(1, -1), 13);
    assert_eq!(d.get(1, 0), 9);
    assert_eq!(d.get(1, 1), 9);
    assert_eq!(d.get(-1, -1), 9);
}

#[test]
fn set_and_get_last_use_native_coordinates() {
    let mut d: DistMatrix<usize> = DistMatrix::new(-1..3, -2..1, 0);
    assert_eq!(d.width(), 4);
    assert_eq!(d.height(), 3);
    d.set(2, 0, 7);
    d.set(-1, -2, 5);
    assert_eq!(*d.get_last(), 7);
    assert_eq!(d.get(-1, -2), 5);
    assert_eq!(d.get(0, 0), 0);
}

#[test]
fn empty_ranges_fill_nothing() {
    let mut d: DistMatrix<i32> = DistMatrix::new(0..2, 0..2, 4);
    d.fill(&(1..1), &(0..2), &FillSource::Repeat(1));
    d.fill(&(0..2), &(2..0), &FillSource::Repeat(1));
    assert_eq!(d.get(0, 0), 4);
    assert_eq!(d.get(1, 1), 4);
}

#[test]
fn row_to_string_pads_each_cell_to_two_columns() {
    let m = string_dist::levenshtein::build_levenshtein_matrix("ab", "ba", &string_dist::levenshtein::ScoreRule::Plain);
    assert_eq!(m.row_to_string(-1), " 0  1  2 ");
    assert_eq!(m.row_to_string(1), " 2  1  2 ");
    let wide: DistMatrix<usize> = DistMatrix::new(0..2, 0..1, 12);
    assert_eq!(wide.row_to_string(0), "12 12 ");
    let wider: DistMatrix<usize> = DistMatrix::new(-1..1, 0..1, 1203);
    assert_eq!(wider.row_to_string(0), "1203 1203 ");
}
