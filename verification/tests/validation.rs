//! Tests for address resolution against the story's name tables.

use inkling::{Address, AddressKind, InvalidAddressError, KnotNameEntry, ValidationData};

fn table() -> ValidationData {
    ValidationData {
        knots: vec![
            KnotNameEntry {
                knot: "house".to_string(),
                stitches: vec!["".to_string(), "kitchen".to_string()],
            },
            KnotNameEntry {
                knot: "garden".to_string(),
                stitches: vec!["".to_string()],
            },
        ],
        variables: vec!["torch".to_string()],
    }
}

fn here() -> Address {
    Address::from_parts_unchecked("house", None)
}

#[test]
fn qualified_addresses_resolve_to_their_location() {
    let mut address = Address::Raw("house.kitchen".to_string());
    address.validate(&here(), &table()).unwrap();
    assert_eq!(
        address,
        Address::Validated(AddressKind::Location {
            knot: "house".to_string(),
            stitch: "kitchen".to_string(),
        })
    );
}

#[test]
fn stitch_local_addresses_resolve_in_the_current_knot() {
    let mut address = Address::Raw(".kitchen".to_string());
    address.validate(&here(), &table()).unwrap();
    assert_eq!(
        address,
        Address::Validated(AddressKind::Location {
            knot: "house".to_string(),
            stitch: "kitchen".to_string(),
        })
    );
}

#[test]
fn bare_names_prefer_stitches_then_knots_then_variables_then_reserved_words() {
    let mut stitch = Address::Raw("kitchen".to_string());
    stitch.validate(&here(), &table()).unwrap();
    assert_eq!(
        stitch,
        Address::Validated(AddressKind::Location {
            knot: "house".to_string(),
            stitch: "kitchen".to_string(),
        })
    );

    let mut knot = Address::Raw("garden".to_string());
    knot.validate(&here(), &table()).unwrap();
    assert_eq!(
        knot,
        Address::Validated(AddressKind::Location {
            knot: "garden".to_string(),
            stitch: "".to_string(),
        })
    );

    let mut variable = Address::Raw("torch".to_string());
    variable.validate(&here(), &table()).unwrap();
    assert_eq!(
        variable,
        Address::Validated(AddressKind::GlobalVariable {
            name: "torch".to_string(),
        })
    );

    let mut end = Address::Raw("END".to_string());
    end.validate(&here(), &table()).unwrap();
    assert_eq!(end, Address::Validated(AddressKind::End));

    let mut done = Address::Raw("DONE".to_string());
    done.validate(&here(), &table()).unwrap();
    assert_eq!(done, Address::Validated(AddressKind::Done));
}

#[test]
fn unknown_targets_are_reported() {
    let mut missing_knot = Address::Raw("cellar.stairs".to_string());
    match missing_knot.validate(&here(), &table()) {
        Err(InvalidAddressError::UnknownKnot { knot_name }) => {
            assert_eq!(&knot_name, "cellar");
        }
        other => panic!("expected an unknown-knot error, got {:?}", other),
    }

    let mut missing_stitch = Address::Raw("house.cellar".to_string());
    match missing_stitch.validate(&here(), &table()) {
        Err(InvalidAddressError::UnknownStitch { stitch_name, .. }) => {
            assert_eq!(&stitch_name, "cellar");
        }
        other => panic!("expected an unknown-stitch error, got {:?}", other),
    }

    let mut missing = Address::Raw("nowhere".to_string());
    match missing.validate(&here(), &table()) {
        Err(InvalidAddressError::UnknownTarget { name }) => {
            assert_eq!(&name, "nowhere");
        }
        other => panic!("expected an unknown-target error, got {:?}", other),
    }
}
