use grid::refs::{cell_ref, col_index, col_name, parse_ref};

#[test]
fn column_names() {
    assert_eq!(col_name(0), "A");
    assert_eq!(col_name(25), "Z");
    assert_eq!(col_name(26), "AA");
    assert_eq!(col_name(27), "AB");
    assert_eq!(col_name(701), "ZZ");
    assert_eq!(col_name(702), "AAA");
}

#[test]
fn column_indices() {
    assert_eq!(col_index("A"), Some(0));
    assert_eq!(col_index("z"), Some(25));
    assert_eq!(col_index("AA"), Some(26));
    assert_eq!(col_index(""), None);
    assert_eq!(col_index("A1"), None);
    assert_eq!(col_index("\u{e9}"), None);
    assert_eq!(col_index("MWLQKWV"), None);
}

#[test]
fn largest_column_index() {
    assert_eq!(col_index("MWLQKWU"), Some(4294967294));
    assert_eq!(col_name(4294967294), "MWLQKWU");
}

#[test]
fn every_column_name_reads_back() {
    for c in 0..20000u32 {
        assert_eq!(col_index(&col_name(c)), Some(c));
    }
}

#[test]
fn cell_references() {
    assert_eq!(cell_ref(0, 0), "A1");
    assert_eq!(cell_ref(41, 27), "AB42");
    assert_eq!(parse_ref("A1"), Some((0, 0)));
    assert_eq!(parse_ref("ab42"), Some((41, 27)));
    assert_eq!(parse_ref(&cell_ref(9, 3)), Some((9, 3)));
}

#[test]
fn what_is_no_reference() {
    assert_eq!(parse_ref("A0"), None);
    assert_eq!(parse_ref("A"), None);
    assert_eq!(parse_ref("12"), None);
    assert_eq!(parse_ref("A1B"), None);
    assert_eq!(parse_ref("A99999999999"), None);
    assert_eq!(parse_ref(""), None);
}
