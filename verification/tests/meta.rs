//! Tests for the origin metadata attached to story items.

use inkling::MetaData;

#[test]
fn meta_data_from_index_sets_index() {
    assert_eq!(MetaData::from(6), MetaData { line_index: 6 });
}

#[test]
fn meta_data_line_number_starts_from_one() {
    assert_eq!(MetaData::from(6).line(), 7);
}
