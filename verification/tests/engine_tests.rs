//! End-to-end tests of the public story API: reading documents, glue and
//! tags in the output, choice filtering, the error taxonomy, and the
//! smaller verified helpers.

use inkling::camera::update_position as camera_update_position;
use inkling::input::{parse_action_event, parse_move_event, Config, InputSystem};
use inkling::movement::{move_position, Action, Move, Position};
use inkling::prefab::{AreaPrefab, CharacterPrefab, CharacterVariant, Glyph};
use inkling::{
    read_story_from_string, FollowError, Knot, LineData, ParseError, ParsedLine, Story,
    StoryAction,
};

#[test]
fn reading_a_plain_document_emits_every_line_terminated() {
    let content = "\
Only in silence the word,
only in dark the light,
only in dying life:
bright the hawk's flight
on the empty sky.
";

    let mut story = read_story_from_string(content).unwrap();
    let mut line_buffer = Vec::new();

    match story.start(&mut line_buffer).unwrap() {
        StoryAction::Done => (),
        _ => panic!("a plain document should finish in one call"),
    }

    assert_eq!(line_buffer.len(), 5);
    assert_eq!(&line_buffer[0].text, "Only in silence the word,\n");
    assert_eq!(&line_buffer.last().unwrap().text, "on the empty sky.\n");
}

#[test]
fn divert_resolution_is_transparent_and_glues_lines() {
    let content = "\
Hello->target
=target
world #tag
";

    let mut story = read_story_from_string(content).unwrap();
    let mut lines = Vec::new();

    match story.start(&mut lines).unwrap() {
        StoryAction::Done => (),
        _ => panic!("the story should finish after the divert"),
    }

    assert_eq!(lines.len(), 1);
    assert_eq!(&lines[0].text, "Hello world\n");
    assert_eq!(lines[0].tags, vec!["tag".to_string()]);
}

#[test]
fn terminal_diverts_finish_the_story_for_both_reserved_names() {
    for terminal in ["DONE", "END"] {
        let content = format!("-> {}", terminal);
        let mut story = read_story_from_string(&content).unwrap();
        let mut lines = Vec::new();
        match story.start(&mut lines).unwrap() {
            StoryAction::Done => (),
            _ => panic!("a terminal divert should finish the story"),
        }
    }
}

#[test]
fn taken_non_sticky_choices_are_filtered_from_later_presentations() {
    let content = "\
* alpha
* beta
* gamma
";

    let mut story = read_story_from_string(content).unwrap();
    let mut lines = Vec::new();

    let first = match story.start(&mut lines).unwrap() {
        StoryAction::Choice(cs) => cs,
        _ => panic!("three choices should be presented"),
    };
    assert_eq!(first.len(), 3);
    assert_eq!(&first[0].text, "alpha");
    assert_eq!(&first[1].text, "beta");

    match story.resume_with_choice(1, &mut lines).unwrap() {
        StoryAction::Done => (),
        _ => panic!("an empty branch should finish the story"),
    }
    assert_eq!(&lines.last().unwrap().text, "beta\n");

    // re-entering the knot presents the surviving choices only
    let second = match story.start(&mut lines).unwrap() {
        StoryAction::Choice(cs) => cs,
        _ => panic!("two choices should survive"),
    };
    assert_eq!(second.len(), 2);
    assert_eq!(&second[0].text, "alpha");
    assert_eq!(&second[1].text, "gamma");
}

#[test]
fn sticky_choices_stay_presentable_after_being_taken() {
    let content = "\
+ again
* once
";

    let mut story = read_story_from_string(content).unwrap();
    let mut lines = Vec::new();

    story.start(&mut lines).unwrap();
    story.resume_with_choice(0, &mut lines).unwrap();

    let next = story.start(&mut lines).unwrap().get_choices().unwrap();
    assert_eq!(next.len(), 2, "a sticky choice survives its own visit");

    story.resume_with_choice(1, &mut lines).unwrap();
    let last = story.start(&mut lines).unwrap().get_choices().unwrap();
    assert_eq!(last.len(), 1);
    assert_eq!(&last[0].text, "again");
}

#[test]
fn a_gather_joins_the_flow_after_a_choice_branch() {
    let content = "\
* left
  into the left branch
* right
- joined again
";

    let mut story = read_story_from_string(content).unwrap();
    let mut lines = Vec::new();

    story.start(&mut lines).unwrap();
    match story.resume_with_choice(0, &mut lines).unwrap() {
        StoryAction::Done => (),
        _ => panic!("the gather should lead to the end"),
    }

    let texts: Vec<&str> = lines.iter().map(|l| l.text.as_str()).collect();
    assert_eq!(texts, vec!["left\n", "into the left branch\n", "joined again\n"]);
}

#[test]
fn nested_choice_sets_are_presented_inside_a_branch() {
    let content = "\
* outer
** inner
* other
";

    let mut story = read_story_from_string(content).unwrap();
    let mut lines = Vec::new();

    let first = story.start(&mut lines).unwrap().get_choices().unwrap();
    assert_eq!(first.len(), 2);

    let nested = match story.resume_with_choice(0, &mut lines).unwrap() {
        StoryAction::Choice(cs) => cs,
        _ => panic!("the nested set should be presented"),
    };
    assert_eq!(nested.len(), 1);
    assert_eq!(&nested[0].text, "inner");
}

#[test]
fn empty_documents_are_rejected() {
    assert!(matches!(
        read_story_from_string(""),
        Err(ParseError::Empty)
    ));
    assert!(matches!(
        read_story_from_string("   \n \t \n"),
        Err(ParseError::Empty)
    ));
}

#[test]
fn knot_header_errors_are_reported() {
    match read_story_from_string("=") {
        Err(ParseError::KnotError(inkling::KnotError::Empty)) => (),
        other => panic!("a bare marker has no name: {:?}", other),
    }
    match read_story_from_string("= spaced name\ntext") {
        Err(ParseError::KnotError(inkling::KnotError::InvalidName { kind, .. })) => {
            assert_eq!(kind, inkling::KnotNameError::ContainsWhitespace);
        },
        other => panic!("a name with whitespace must be rejected: {:?}", other),
    }
}

#[test]
fn line_errors_prevent_story_construction() {
    assert!(read_story_from_string("*+ mixed markers").is_err());
    assert!(read_story_from_string("before\n*\nafter").is_err());
}

#[test]
fn error_messages_name_the_failure() {
    let empty = read_story_from_string("").unwrap_err();
    assert_eq!(
        empty.message(),
        "Tried to read from an empty file or string"
    );

    let mixed = read_story_from_string("*+ mixed").unwrap_err();
    assert_eq!(
        mixed.message(),
        "Invalid line: line has multiple types of choice markers (line: *+ mixed)"
    );

    let unnamed = read_story_from_string("=").unwrap_err();
    assert_eq!(unnamed.message(), "Could not parse a knot: knot has no name");
}

#[test]
fn diverting_to_an_unknown_knot_fails() {
    let mut story = read_story_from_string("-> nowhere").unwrap();
    let mut lines = Vec::new();
    match story.start(&mut lines) {
        Err(FollowError::UnknownKnot { name }) => assert_eq!(name, "nowhere"),
        other => panic!("an undefined divert target must fail: {:?}", other),
    }
}

#[test]
fn resuming_without_a_pending_choice_fails() {
    let mut story = read_story_from_string("just text").unwrap();
    let mut lines = Vec::new();
    story.start(&mut lines).unwrap();
    assert!(matches!(
        story.resume_with_choice(0, &mut lines),
        Err(FollowError::NotAtChoicePoint)
    ));
}

#[test]
fn out_of_range_choice_indices_fail() {
    let mut story = read_story_from_string("* only").unwrap();
    let mut lines = Vec::new();
    story.start(&mut lines).unwrap();
    match story.resume_with_choice(5, &mut lines) {
        Err(FollowError::InvalidChoiceIndex { index }) => assert_eq!(index, 5),
        other => panic!("index 5 picks nothing: {:?}", other),
    }
}

#[test]
fn an_exhausted_choice_set_is_a_dead_end() {
    let mut story = read_story_from_string("* once").unwrap();
    let mut lines = Vec::new();
    story.start(&mut lines).unwrap();
    story.resume_with_choice(0, &mut lines).unwrap();
    assert!(matches!(
        story.start(&mut lines),
        Err(FollowError::NoSurvivingChoices)
    ));
}

#[test]
fn unbounded_divert_chains_are_cut_off() {
    let content = "\
-> spin
=spin
-> spin
";
    let mut story = read_story_from_string(content).unwrap();
    let mut lines = Vec::new();
    assert!(matches!(
        story.start(&mut lines),
        Err(FollowError::TooManyDiverts)
    ));
}

#[test]
fn marker_runs_longer_than_a_level_can_hold_wrap_around() {
    let text = format!("{} wrapped", "-".repeat(260));
    match ParsedLine::from_str(&text).unwrap() {
        ParsedLine::Gather { level, line } => {
            assert_eq!(level, 4);
            assert_eq!(&line.text, "wrapped");
        },
        other => panic!("a marker run is a gather: {:?}", other),
    }
}

#[test]
fn knots_can_be_built_and_followed_directly() {
    let mut knot = Knot::from_str("one line\nanother line").unwrap();
    let mut buffer: Vec<LineData> = Vec::new();
    knot.follow(&mut buffer).unwrap();
    assert_eq!(buffer.len(), 2);
    assert_eq!(&buffer[0].text, "one line");
    assert_eq!(&buffer[1].text, "another line");
}

#[test]
fn get_choices_distinguishes_outcomes() {
    let mut story = read_story_from_string("* pick me").unwrap();
    let mut lines = Vec::new();
    let action = story.start(&mut lines).unwrap();
    let choices = action.get_choices().unwrap();
    assert_eq!(&choices[0].text, "pick me");

    let mut done_story = read_story_from_string("plain").unwrap();
    let done = done_story.start(&mut lines).unwrap();
    assert!(done.get_choices().is_none());
}

#[test]
fn only_the_first_divert_target_is_honored() {
    let line = LineData::from_str("-> first -> second").unwrap();
    assert_eq!(line.kind, inkling::LineKind::Divert("first".to_string()));

    let content = "\
seen -> first -> second
=first
reached
=second
unreachable
";
    let mut story = read_story_from_string(content).unwrap();
    let mut lines = Vec::new();
    story.start(&mut lines).unwrap();
    assert_eq!(lines.len(), 1);
    assert_eq!(&lines[0].text, "seen reached\n");
}

#[test]
fn content_before_the_first_header_is_the_entry_knot() {
    let content = "\
The story begins here.
-> chapter_one
=chapter_one
And continues in its first chapter.
";
    let mut story = read_story_from_string(content).unwrap();
    let mut lines = Vec::new();
    match story.start(&mut lines).unwrap() {
        StoryAction::Done => (),
        _ => panic!("this story runs to its end"),
    }
    assert_eq!(&lines[0].text, "The story begins here.\n");
    // the divert line itself carries a single space and glues to the
    // target's first line
    assert_eq!(
        &lines.last().unwrap().text,
        " And continues in its first chapter.\n"
    );
}

#[test]
fn a_bare_gather_contributes_an_empty_line() {
    let content = "\
* left
-
after the join
";
    let mut story = read_story_from_string(content).unwrap();
    let mut lines = Vec::new();
    story.start(&mut lines).unwrap();
    story.resume_with_choice(0, &mut lines).unwrap();
    let texts: Vec<&str> = lines.iter().map(|l| l.text.as_str()).collect();
    assert_eq!(texts, vec!["left\n", "\n", "after the join\n"]);
}

#[test]
fn input_system_paces_held_keys() {
    let config = Config::default();
    assert_eq!(config.min_duration_hold, 350);
    assert_eq!(config.min_duration_repeat, 100);

    let mut input = InputSystem::default();
    let press = Some(Action::Move(Move::Right));

    // a fresh press fires at once
    assert!(input.run(press, 0, &config).is_some());
    // held, but too early for repeats
    assert!(input.run(press, 50, &config).is_none());
    assert!(input.run(press, 300, &config).is_none());
    // past the hold delay, repeats fire
    assert!(input.run(press, 400, &config).is_some());
    // but no faster than the repeat delay
    assert!(input.run(press, 450, &config).is_none());
    assert!(input.run(press, 510, &config).is_some());
    // releasing resets the press
    assert!(input.run(None, 600, &config).is_none());
    assert!(input.run(press, 700, &config).is_some());
}

#[test]
fn input_axes_map_to_moves() {
    assert_eq!(parse_move_event(0, 1), Some(Action::Move(Move::Up)));
    assert_eq!(parse_move_event(0, -1), Some(Action::Move(Move::Down)));
    assert_eq!(parse_move_event(-1, 0), Some(Action::Move(Move::Left)));
    assert_eq!(parse_move_event(1, 0), Some(Action::Move(Move::Right)));
    // the vertical axis wins
    assert_eq!(parse_move_event(-1, 1), Some(Action::Move(Move::Up)));
    assert_eq!(parse_move_event(0, 0), None);

    assert_eq!(parse_action_event(Some(true)), Some(Action::Action));
    assert_eq!(parse_action_event(Some(false)), None);
    assert_eq!(parse_action_event(None), None);
}

#[test]
fn positions_move_and_clamp_inside_the_area() {
    let bounds = [0, 0, 9, 9];
    let mut p = Position { x: 0, y: 9 };
    move_position(&mut p, &Move::Up, &bounds);
    assert_eq!(p, Position { x: 0, y: 9 });
    move_position(&mut p, &Move::Left, &bounds);
    assert_eq!(p, Position { x: 0, y: 9 });
    move_position(&mut p, &Move::Down, &bounds);
    move_position(&mut p, &Move::Right, &bounds);
    assert_eq!(p, Position { x: 1, y: 8 });

    let mut cam = Position { x: 0, y: 0 };
    camera_update_position(&mut cam, &Position { x: 100, y: 3 }, &[2, 2, 7, 7]);
    assert_eq!(cam, Position { x: 7, y: 3 });
}

#[test]
fn character_prefabs_carry_their_data() {
    let hero = CharacterPrefab {
        glyph: '@',
        position: None,
        variant: CharacterVariant::PlayerCharacter,
    };
    assert!(hero.is_player());
    assert_eq!(hero.position_or_default(), Position { x: 0, y: 0 });

    let guard = CharacterPrefab {
        glyph: 'g',
        position: Some(Position { x: 3, y: 4 }),
        variant: CharacterVariant::NonPlayerCharacter { name: "guard".to_string() },
    };
    assert!(!guard.is_player());
    assert_eq!(guard.position_or_default(), Position { x: 3, y: 4 });
    assert_eq!(Glyph('g'), Glyph('g'));

    let area = AreaPrefab::Area(inkling::movement::Area { dimensions: [20, 10] });
    assert_eq!(area.dimensions(), Some([20, 10]));
    assert!(AreaPrefab::Character(guard).dimensions().is_none());
}
