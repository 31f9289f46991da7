//! Tests for rendering variables as text.

use inkling::{Address, FollowData, Variable};
use inkling::{InklingError, KnotCounts, StitchCount};

fn mock_follow_data(knots: &[(&str, &str, u32)]) -> FollowData {
    let mut knot_visit_counts = Vec::new();

    for (knot, stitch, num_visited) in knots {
        let mut stitch_count = Vec::new();
        stitch_count.push(StitchCount {
            stitch: stitch.to_string(),
            count: *num_visited,
        });

        knot_visit_counts.push(KnotCounts {
            knot: knot.to_string(),
            stitches: stitch_count,
        });
    }

    FollowData {
        knot_visit_counts,
        variables: Vec::new(),
    }
}

#[test]
fn booleans_are_printed_as_numbers() {
    let data = mock_follow_data(&[]);

    assert_eq!(&Variable::Bool(true).to_string(&data).unwrap(), "1");
    assert_eq!(&Variable::Bool(false).to_string(&data).unwrap(), "0");
}

#[test]
fn integers_can_be_printed() {
    let data = mock_follow_data(&[]);

    assert_eq!(&Variable::Int(5).to_string(&data).unwrap(), "5");
    assert_eq!(&Variable::Int(-17).to_string(&data).unwrap(), "-17");
    assert_eq!(&Variable::Int(0).to_string(&data).unwrap(), "0");
}

#[test]
fn strings_are_just_cloned() {
    let data = mock_follow_data(&[]);

    assert_eq!(
        &Variable::String("two words".to_string())
            .to_string(&data)
            .unwrap(),
        "two words"
    );
}

#[test]
fn addresses_are_printed_as_their_number_of_visits() {
    let data = mock_follow_data(&[("tripoli", "cinema", 0), ("addis_ababa", "with_family", 3)]);

    let tripoli = Address::from_parts_unchecked("tripoli", Some("cinema"));
    let addis_ababa = Address::from_parts_unchecked("addis_ababa", Some("with_family"));

    assert_eq!(&Variable::Address(tripoli).to_string(&data).unwrap(), "0");
    assert_eq!(
        &Variable::Address(addis_ababa).to_string(&data).unwrap(),
        "3"
    );
}

#[test]
fn diverts_cannot_be_printed_but_yield_error() {
    let data = mock_follow_data(&[]);
    let address = Address::from_parts_unchecked("tripoli", Some("cinema"));

    assert!(Variable::Divert(address).to_string(&data).is_err());
}

#[test]
fn arithmetic_on_variables_follows_the_operators() {
    assert_eq!(
        Variable::Int(3).plus(&Variable::Int(2)).unwrap(),
        Variable::Int(5)
    );
    assert_eq!(
        Variable::Int(3).minus(&Variable::Int(5)).unwrap(),
        Variable::Int(-2)
    );
    assert_eq!(
        Variable::Int(3).times(&Variable::Int(4)).unwrap(),
        Variable::Int(12)
    );
    assert_eq!(
        Variable::Int(-7).divided_by(&Variable::Int(2)).unwrap(),
        Variable::Int(-3)
    );
    assert_eq!(
        Variable::Int(7).remainder(&Variable::Int(4)).unwrap(),
        Variable::Int(3)
    );
}

#[test]
fn string_concatenation_coerces_the_right_side() {
    let lhs = Variable::String("total: ".to_string());
    assert_eq!(
        lhs.plus(&Variable::Int(12)).unwrap(),
        Variable::String("total: 12".to_string())
    );
    let lhs = Variable::String("flag: ".to_string());
    assert_eq!(
        lhs.plus(&Variable::Bool(true)).unwrap(),
        Variable::String("flag: 1".to_string())
    );
}

#[test]
fn division_by_zero_is_an_error() {
    match Variable::Int(1).divided_by(&Variable::Int(0)) {
        Err(InklingError::DivisionByZero) => {}
        other => panic!("expected a division-by-zero error, got {:?}", other),
    }
}

#[test]
fn operators_on_incompatible_kinds_are_errors() {
    match Variable::Bool(true).plus(&Variable::Int(1)) {
        Err(InklingError::InvalidExpression { .. }) => {}
        other => panic!("expected an invalid-expression error, got {:?}", other),
    }
}

#[test]
fn string_comparison_is_lexicographic() {
    let a = Variable::String("apple".to_string());
    let b = Variable::String("banana".to_string());
    assert_eq!(a.less_than(&b).unwrap(), true);
    assert_eq!(b.less_than(&a).unwrap(), false);
    assert_eq!(a.equal_to(&b).unwrap(), false);
}
