//! Tests for story construction, its failure cases, the well-formedness
//! check, and the validation pass.

use inkling::{
    Address, AddressKind, BranchBuilder, Condition, Expression, InternalChoice, InternalLine, Knot,
    KnotNameEntry, KnotSet, Logger, MetaData, RootNode, RootNodeBuilder, Story, StoryBuildError,
    ValidationData, ValidationError, Variable, Warning,
};

fn plain_choice(selection: &str, display: &str) -> InternalChoice {
    InternalChoice {
        selection_text: InternalLine::from_string(selection),
        display_text: InternalLine::from_string(display),
        condition: None,
        is_sticky: false,
        is_fallback: false,
        tags: Vec::new(),
    }
}

fn one_line_knot(name: &str, text: &str) -> Knot {
    let mut builder = RootNodeBuilder::from_address(name, "");
    builder.add_line(InternalLine::from_string(text));
    let mut knot = Knot::new(name);
    knot.add_stitch("", builder.build());
    knot
}

#[test]
fn an_empty_knot_set_is_rejected() {
    match Story::new(KnotSet::new(), Vec::new()) {
        Err(StoryBuildError::EmptyStory) => {}
        other => panic!("expected an empty-story error, got {:?}", other),
    }
}

#[test]
fn duplicate_knot_names_are_rejected() {
    let mut knots = KnotSet::new();
    knots.add_knot(one_line_knot("twice", "First."));
    knots.add_knot(one_line_knot("twice", "Second."));
    match Story::new(knots, Vec::new()) {
        Err(StoryBuildError::DuplicateName { .. }) => {}
        other => panic!("expected a duplicate-name error, got {:?}", other),
    }
}

#[test]
fn an_empty_branching_point_is_rejected() {
    let mut builder = RootNodeBuilder::from_address("root", "");
    builder.add_branching_choice(Vec::new());
    let mut knot = Knot::new("root");
    knot.add_stitch("", builder.build());
    let mut knots = KnotSet::new();
    knots.add_knot(knot);
    match Story::new(knots, Vec::new()) {
        Err(StoryBuildError::MalformedNodeGraph) => {}
        other => panic!("expected a malformed-graph error, got {:?}", other),
    }
}

#[test]
fn a_fresh_story_is_well_formed_and_a_broken_stack_is_not() {
    let mut knots = KnotSet::new();
    knots.add_knot(one_line_knot("root", "A line."));
    let mut story = Story::new(knots, Vec::new()).unwrap();
    assert!(story.is_well_formed());

    story.start().unwrap();
    assert!(story.is_well_formed());

    // A hand-edited position stack of even length breaks the invariant.
    story.stack = vec![0, 0];
    assert!(!story.is_well_formed());
}

#[test]
fn validation_collects_every_unresolved_address_in_one_batch() {
    let mut line_one = InternalLine::from_string("Onward.");
    line_one.divert = Some(Address::Raw("nowhere".to_string()));
    let mut line_two = InternalLine::from_string("Further.");
    line_two.divert = Some(Address::Raw("elsewhere.missing".to_string()));

    let mut builder = RootNodeBuilder::from_address("root", "");
    builder.add_line(line_one);
    builder.add_line(line_two);
    let mut root: RootNode = builder.build();

    let table = ValidationData {
        knots: vec![KnotNameEntry {
            knot: "root".to_string(),
            stitches: vec!["".to_string()],
        }],
        variables: Vec::new(),
    };
    let current = Address::from_parts_unchecked("root", None);
    let mut error = ValidationError::new();
    let mut log = Logger { warnings: Vec::new() };
    let meta = MetaData { line_index: 0 };

    root.validate(&mut error, &mut log, &current, &meta, &table);
    // Both bad diverts are reported; validation never stops at the first.
    assert_eq!(error.num_errors(), 2);
}

#[test]
fn validation_resolves_every_address_when_the_tables_hold_them() {
    let mut line = InternalLine::from_string("Onward.");
    line.divert = Some(Address::Raw("root".to_string()));

    let mut builder = RootNodeBuilder::from_address("root", "");
    builder.add_line(line);
    let mut root: RootNode = builder.build();

    let table = ValidationData {
        knots: vec![KnotNameEntry {
            knot: "root".to_string(),
            stitches: vec!["".to_string()],
        }],
        variables: Vec::new(),
    };
    let current = Address::from_parts_unchecked("root", None);
    let mut error = ValidationError::new();
    let mut log = Logger { warnings: Vec::new() };
    let meta = MetaData { line_index: 0 };

    root.validate(&mut error, &mut log, &current, &meta, &table);
    assert_eq!(error.num_errors(), 0);
    match &root.items[0] {
        inkling::NodeItem::Line(l) => match &l.divert {
            Some(Address::Validated(AddressKind::Location { knot, stitch })) => {
                assert_eq!(knot, "root");
                assert_eq!(stitch, "");
            }
            other => panic!("expected a validated location, got {:?}", other),
        },
        other => panic!("expected a line, got {:?}", other),
    }
}

#[test]
fn the_validator_warns_about_unreachable_fallbacks() {
    let mut sticky = plain_choice("Always", "Taken.");
    sticky.is_sticky = true;
    let branch_sticky = BranchBuilder::from_choice(sticky).build();
    let mut fallback_choice = plain_choice("", "");
    fallback_choice.is_fallback = true;
    let branch_fallback = BranchBuilder::from_choice(fallback_choice).build();

    let mut builder = RootNodeBuilder::from_address("root", "");
    builder.add_branching_choice(vec![branch_sticky, branch_fallback]);
    let mut root: RootNode = builder.build();

    let table = ValidationData {
        knots: vec![KnotNameEntry {
            knot: "root".to_string(),
            stitches: vec!["".to_string()],
        }],
        variables: Vec::new(),
    };
    let current = Address::from_parts_unchecked("root", None);
    let mut error = ValidationError::new();
    let mut log = Logger { warnings: Vec::new() };
    let meta = MetaData { line_index: 0 };

    root.validate(&mut error, &mut log, &current, &meta, &table);
    assert_eq!(error.num_errors(), 0);
    assert!(log.warnings.contains(&Warning::UnreachableFallback));
}

#[test]
fn the_validator_warns_about_always_false_conditions() {
    let mut gated = plain_choice("Never", "Unreachable.");
    gated.condition = Some(Condition::Truthy(Expression::Variable(Variable::Bool(false))));
    let branch = BranchBuilder::from_choice(gated).build();

    let mut builder = RootNodeBuilder::from_address("root", "");
    builder.add_branching_choice(vec![branch]);
    let mut root: RootNode = builder.build();

    let table = ValidationData {
        knots: vec![KnotNameEntry {
            knot: "root".to_string(),
            stitches: vec!["".to_string()],
        }],
        variables: Vec::new(),
    };
    let current = Address::from_parts_unchecked("root", None);
    let mut error = ValidationError::new();
    let mut log = Logger { warnings: Vec::new() };
    let meta = MetaData { line_index: 0 };

    root.validate(&mut error, &mut log, &current, &meta, &table);
    assert_eq!(error.num_errors(), 0);
    assert!(log.warnings.contains(&Warning::AlwaysFalseChoiceCondition));
}
