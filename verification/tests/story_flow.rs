//! End-to-end tests that drive stories through prompts and choices.

use inkling::{
    copy_lines_into_string, Address, AddressKind, AlternativeKind, BranchBuilder, Condition,
    Expression, InklingError, InternalChoice, InternalLine, Knot, KnotSet, LineChunk, OpKind,
    Prompt, RootNodeBuilder, Story, StoryEnd, Variable, VariableEntry,
};

fn plain_choice(selection: &str, display: &str) -> InternalChoice {
    InternalChoice {
        selection_text: InternalLine::from_string(selection),
        display_text: InternalLine::from_string(display),
        condition: None,
        is_sticky: false,
        is_fallback: false,
        tags: Vec::new(),
    }
}

fn line_with_divert(text: &str, knot: &str) -> InternalLine {
    let mut line = InternalLine::from_string(text);
    line.divert = Some(Address::from_parts_unchecked(knot, None));
    line
}

fn single_knot_story(knot: Knot) -> Story {
    let mut knots = KnotSet::new();
    knots.add_knot(knot);
    Story::new(knots, Vec::new()).unwrap()
}

#[test]
fn trivial_line_and_single_choice() {
    let mut builder = RootNodeBuilder::from_address("root", "");
    builder.add_line(InternalLine::from_string("Hello, World!"));
    let branch = BranchBuilder::from_choice(plain_choice(
        "Hello back!",
        "Hello right back at you!",
    ))
    .build();
    builder.add_branching_choice(vec![branch]);

    let mut knot = Knot::new("root");
    knot.add_stitch("", builder.build());
    let mut story = single_knot_story(knot);

    let mut line_buffer = Vec::new();
    story.start().unwrap();

    let prompt = story.resume(&mut line_buffer).unwrap();
    assert_eq!(&line_buffer[0].text, "Hello, World!\n");
    let choices = prompt.get_choices().unwrap();
    assert_eq!(choices.len(), 1);
    assert_eq!(&choices[0].text, "Hello back!");

    story.make_choice(0).unwrap();
    match story.resume(&mut line_buffer).unwrap() {
        Prompt::Done => {}
        other => panic!("expected the story to end, got {:?}", other),
    }
    assert_eq!(&line_buffer[1].text, "Hello right back at you!\n");
    // The content ran out: the end is implicit, not a divert.
    assert_eq!(story.ending, Some(StoryEnd::Exhausted));
}

#[test]
fn sticky_choices_stay_and_once_only_choices_go() {
    let mut sticky = plain_choice("A", "Took A");
    sticky.is_sticky = true;
    let mut branch_a = BranchBuilder::from_choice(sticky);
    branch_a.add_line(line_with_divert("", "start"));
    let mut branch_b = BranchBuilder::from_choice(plain_choice("B", "Took B"));
    branch_b.add_line(line_with_divert("", "start"));

    let mut builder = RootNodeBuilder::from_address("start", "");
    builder.add_branching_choice(vec![branch_a.build(), branch_b.build()]);

    let mut knot = Knot::new("start");
    knot.add_stitch("", builder.build());
    let mut story = single_knot_story(knot);

    let mut line_buffer = Vec::new();
    story.start().unwrap();

    let first = story.resume(&mut line_buffer).unwrap().get_choices().unwrap();
    assert_eq!(first.len(), 2);
    assert_eq!(&first[0].text, "A");
    assert_eq!(&first[1].text, "B");

    story.make_choice(1).unwrap();
    let second = story.resume(&mut line_buffer).unwrap().get_choices().unwrap();
    assert_eq!(second.len(), 1);
    assert_eq!(&second[0].text, "A");
}

#[test]
fn fallback_is_taken_silently_when_nothing_else_is_eligible() {
    let mut branch_x = BranchBuilder::from_choice(plain_choice("X", "X taken"));
    branch_x.add_line(line_with_divert("", "main"));

    let mut fallback_line = InternalLine::from_string("");
    fallback_line.glue_end = true;
    fallback_line.divert = Some(Address::from_parts_unchecked("elsewhere", None));
    let fallback_choice = InternalChoice {
        selection_text: InternalLine::from_string(""),
        display_text: fallback_line,
        condition: None,
        is_sticky: false,
        is_fallback: true,
        tags: Vec::new(),
    };
    let branch_fallback = BranchBuilder::from_choice(fallback_choice).build();

    let mut builder = RootNodeBuilder::from_address("main", "");
    builder.add_branching_choice(vec![branch_x.build(), branch_fallback]);
    let mut main_knot = Knot::new("main");
    main_knot.add_stitch("", builder.build());

    let mut other_builder = RootNodeBuilder::from_address("elsewhere", "");
    other_builder.add_line(InternalLine::from_string("Elsewhere."));
    let mut other_knot = Knot::new("elsewhere");
    other_knot.add_stitch("", other_builder.build());

    let mut knots = KnotSet::new();
    knots.add_knot(main_knot);
    knots.add_knot(other_knot);
    let mut story = Story::new(knots, Vec::new()).unwrap();

    let mut line_buffer = Vec::new();
    story.start().unwrap();

    let first = story.resume(&mut line_buffer).unwrap().get_choices().unwrap();
    assert_eq!(first.len(), 1);
    assert_eq!(&first[0].text, "X");

    // Selecting X loops back; X is exhausted, so the fallback diverts the
    // story without any further prompt.
    story.make_choice(0).unwrap();
    match story.resume(&mut line_buffer).unwrap() {
        Prompt::Done => {}
        other => panic!("expected the story to end with no prompt, got {:?}", other),
    }
    let text = copy_lines_into_string(&line_buffer);
    assert!(text.contains("X taken"));
    assert!(text.contains("Elsewhere."));
}

fn torch_condition() -> Condition {
    Condition::Truthy(Expression::Variable(Variable::Address(Address::Validated(
        AddressKind::GlobalVariable {
            name: "torch".to_string(),
        },
    ))))
}

fn dark_room_story() -> Story {
    let mut gated = plain_choice("Use your torch to light the way forward.", "You light the way.");
    gated.is_sticky = true;
    gated.condition = Some(torch_condition());
    let mut branch_torch = BranchBuilder::from_choice(gated);
    branch_torch.add_line(line_with_divert("", "dark_room"));

    let mut back = plain_choice("Head back.", "You head back.");
    back.is_sticky = true;
    let mut branch_back = BranchBuilder::from_choice(back);
    branch_back.add_line(line_with_divert("", "dark_room"));

    let mut builder = RootNodeBuilder::from_address("dark_room", "");
    builder.add_line(InternalLine::from_string("You enter a dark room."));
    builder.add_branching_choice(vec![branch_torch.build(), branch_back.build()]);

    let mut knot = Knot::new("dark_room");
    knot.add_stitch("", builder.build());
    let mut knots = KnotSet::new();
    knots.add_knot(knot);
    Story::new(
        knots,
        vec![VariableEntry {
            name: "torch".to_string(),
            var: Variable::Bool(false),
        }],
    )
    .unwrap()
}

#[test]
fn choice_conditions_follow_the_variables() {
    let mut story = dark_room_story();
    let mut line_buffer = Vec::new();
    story.start().unwrap();

    let without = story.resume(&mut line_buffer).unwrap().get_choices().unwrap();
    assert_eq!(without.len(), 1);
    assert_eq!(&without[0].text, "Head back.");

    // Acquire the torch, loop back to the same branching point, and the
    // gated choice appears.
    story.set_variable("torch", Variable::Bool(true)).unwrap();
    story.make_choice(0).unwrap();
    let with = story.resume(&mut line_buffer).unwrap().get_choices().unwrap();
    assert_eq!(with.len(), 2);
}

#[test]
fn snapshot_saves_current_state() {
    let mut story = dark_room_story();
    let mut line_buffer = Vec::new();
    story.start().unwrap();
    story.resume(&mut line_buffer).unwrap();

    // Snapshot at the prompt, while the torch has not been acquired.
    let state_without_torch = story.snapshot();

    // Acquire the torch in the live story and loop back to the prompt.
    story.set_variable("torch", Variable::Bool(true)).unwrap();
    story.make_choice(0).unwrap();
    let choices_with_torch = story.resume(&mut line_buffer).unwrap().get_choices().unwrap();

    // The restored session still has no torch.
    let mut restored = state_without_torch;
    restored.make_choice(0).unwrap();
    let choices_without_torch = restored
        .resume(&mut line_buffer)
        .unwrap()
        .get_choices()
        .unwrap();

    assert_eq!(choices_without_torch.len(), 1);
    assert_eq!(choices_with_torch.len(), 2);
}

#[test]
fn numeric_expressions_render_inside_lines() {
    let count_expr = Expression::Binary(
        OpKind::Plus,
        Box::new(Expression::Variable(Variable::Address(Address::Validated(
            AddressKind::GlobalVariable {
                name: "count".to_string(),
            },
        )))),
        Box::new(Expression::Variable(Variable::Int(2))),
    );
    let line = InternalLine {
        chunks: vec![
            LineChunk::Text("You have ".to_string()),
            LineChunk::Expression(count_expr),
            LineChunk::Text(" coins.".to_string()),
        ],
        divert: None,
        glue_begin: false,
        glue_end: false,
        tags: Vec::new(),
    };
    let mut builder = RootNodeBuilder::from_address("root", "");
    builder.add_line(line);
    let mut knot = Knot::new("root");
    knot.add_stitch("", builder.build());
    let mut knots = KnotSet::new();
    knots.add_knot(knot);
    let mut story = Story::new(
        knots,
        vec![VariableEntry {
            name: "count".to_string(),
            var: Variable::Int(3),
        }],
    )
    .unwrap();

    let mut line_buffer = Vec::new();
    story.start().unwrap();
    story.resume(&mut line_buffer).unwrap();
    assert_eq!(&line_buffer[0].text, "You have 5 coins.\n");
}

#[test]
fn divert_loops_emit_visit_counts_then_trip_the_guard() {
    // Knot `a` prints its own visit count and diverts to `b`, which diverts
    // straight back: the guard must stop the loop.
    let count_line = InternalLine {
        chunks: vec![LineChunk::Expression(Expression::Variable(
            Variable::Address(Address::Validated(AddressKind::Location {
                knot: "a".to_string(),
                stitch: "".to_string(),
            })),
        ))],
        divert: Some(Address::from_parts_unchecked("b", None)),
        glue_begin: false,
        glue_end: false,
        tags: Vec::new(),
    };
    let mut builder_a = RootNodeBuilder::from_address("a", "");
    builder_a.add_line(count_line);
    let mut knot_a = Knot::new("a");
    knot_a.add_stitch("", builder_a.build());

    let mut back_line = InternalLine::from_string("");
    back_line.glue_end = true;
    back_line.divert = Some(Address::from_parts_unchecked("a", None));
    let mut builder_b = RootNodeBuilder::from_address("b", "");
    builder_b.add_line(back_line);
    let mut knot_b = Knot::new("b");
    knot_b.add_stitch("", builder_b.build());

    let mut knots = KnotSet::new();
    knots.add_knot(knot_a);
    knots.add_knot(knot_b);
    let mut story = Story::new(knots, Vec::new()).unwrap();

    let mut line_buffer = Vec::new();
    story.start().unwrap();
    match story.resume(&mut line_buffer) {
        Err(InklingError::InfiniteLoop { .. }) => {}
        other => panic!("expected the divert loop guard to trip, got {:?}", other),
    }
    assert_eq!(&line_buffer[0].text, "1\n");
    assert_eq!(&line_buffer[2].text, "2\n");
}

#[test]
fn stitches_fall_through_in_script_order() {
    let mut first = RootNodeBuilder::from_address("house", "");
    first.add_line(InternalLine::from_string("At the door."));
    let mut second = RootNodeBuilder::from_address("house", "kitchen");
    second.add_line(InternalLine::from_string("In the kitchen."));

    let mut knot = Knot::new("house");
    knot.add_stitch("", first.build());
    knot.add_stitch("kitchen", second.build());
    let mut story = single_knot_story(knot);

    let mut line_buffer = Vec::new();
    story.start().unwrap();
    match story.resume(&mut line_buffer).unwrap() {
        Prompt::Done => {}
        other => panic!("expected the story to end, got {:?}", other),
    }
    assert_eq!(&line_buffer[0].text, "At the door.\n");
    assert_eq!(&line_buffer[1].text, "In the kitchen.\n");
}

#[test]
fn sequence_alternatives_advance_with_the_visit_count() {
    let alt_line = InternalLine {
        chunks: vec![LineChunk::Alternative {
            kind: AlternativeKind::Sequence,
            entries: vec![
                LineChunk::Text("first".to_string()),
                LineChunk::Text("later".to_string()),
            ],
        }],
        divert: None,
        glue_begin: false,
        glue_end: false,
        tags: Vec::new(),
    };
    let mut again = plain_choice("Again", "Once more.");
    again.is_sticky = true;
    let mut branch = BranchBuilder::from_choice(again);
    branch.add_line(line_with_divert("", "loop_knot"));

    let mut builder = RootNodeBuilder::from_address("loop_knot", "");
    builder.add_line(alt_line);
    builder.add_branching_choice(vec![branch.build()]);
    let mut knot = Knot::new("loop_knot");
    knot.add_stitch("", builder.build());
    let mut story = single_knot_story(knot);

    let mut line_buffer = Vec::new();
    story.start().unwrap();
    story.resume(&mut line_buffer).unwrap();
    assert_eq!(&line_buffer[0].text, "first\n");
    story.make_choice(0).unwrap();
    story.resume(&mut line_buffer).unwrap();
    assert_eq!(line_buffer.last().unwrap().text, "later\n");
    story.make_choice(0).unwrap();
    story.resume(&mut line_buffer).unwrap();
    // A sequence sticks on its last entry.
    assert_eq!(line_buffer.last().unwrap().text, "later\n");
}

#[test]
fn glue_joins_adjacent_lines() {
    let mut left = InternalLine::from_string("Hello, ");
    left.glue_end = true;
    let right = InternalLine::from_string("world.");
    let mut builder = RootNodeBuilder::from_address("root", "");
    builder.add_line(left);
    builder.add_line(right);
    let mut knot = Knot::new("root");
    knot.add_stitch("", builder.build());
    let mut story = single_knot_story(knot);

    let mut line_buffer = Vec::new();
    story.start().unwrap();
    story.resume(&mut line_buffer).unwrap();
    let text = copy_lines_into_string(&line_buffer);
    assert_eq!(&text, "Hello, world.\n");
}

#[test]
fn the_host_protocol_is_enforced() {
    let mut builder = RootNodeBuilder::from_address("root", "");
    builder.add_line(InternalLine::from_string("One line."));
    let mut knot = Knot::new("root");
    knot.add_stitch("", builder.build());
    let mut story = single_knot_story(knot);

    let mut line_buffer = Vec::new();
    match story.resume(&mut line_buffer) {
        Err(InklingError::ResumedBeforeStart) => {}
        other => panic!("expected a resumed-before-start error, got {:?}", other),
    }
    match story.make_choice(0) {
        Err(InklingError::MadeChoiceWithoutChoice) => {}
        other => panic!("expected a choice-without-choice error, got {:?}", other),
    }
    story.start().unwrap();
    match story.start() {
        Err(InklingError::CannotStartTwice) => {}
        other => panic!("expected a cannot-start-twice error, got {:?}", other),
    }
}

#[test]
fn choice_indices_outside_the_presented_set_are_rejected() {
    let mut builder = RootNodeBuilder::from_address("root", "");
    let branch = BranchBuilder::from_choice(plain_choice("Only one", "Taken.")).build();
    builder.add_branching_choice(vec![branch]);
    let mut knot = Knot::new("root");
    knot.add_stitch("", builder.build());
    let mut story = single_knot_story(knot);

    let mut line_buffer = Vec::new();
    story.start().unwrap();
    story.resume(&mut line_buffer).unwrap();
    match story.make_choice(1) {
        Err(InklingError::InvalidChoice {
            presented_index: 1,
            presented_len: 1,
        }) => {}
        other => panic!("expected an invalid-choice error, got {:?}", other),
    }
}

#[test]
fn variables_fix_their_kind_on_first_assignment() {
    let mut story = dark_room_story();
    match story.set_variable("torch", Variable::Int(1)) {
        Err(InklingError::SetVariableWrongKind { .. }) => {}
        other => panic!("expected a wrong-kind error, got {:?}", other),
    }
    let divert = Variable::Divert(Address::from_parts_unchecked("dark_room", None));
    match story.set_variable("anything", divert) {
        Err(InklingError::SetVariableToDivert { .. }) => {}
        other => panic!("expected a divert-rejection error, got {:?}", other),
    }
    story.set_variable("torch", Variable::Bool(true)).unwrap();
    assert_eq!(story.get_variable("torch"), Some(Variable::Bool(true)));
    assert_eq!(story.get_variable("missing"), None);
}
