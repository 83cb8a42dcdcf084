//! Tests of the line and block parsers.

use inkling::consts::{DIVERT_MARKER, GLUE_MARKER, TAG_MARKER};
use inkling::line::parse_choice;
use inkling::{Choice, LineData, LineKind, ParsedLine};

fn as_choice(parsed: ParsedLine) -> (u8, Choice) {
    match parsed {
        ParsedLine::Choice { level, choice } => (level, choice),
        other => panic!("tried to unwrap into a `Choice`, but was `{:?}`", &other),
    }
}

fn as_gather(parsed: ParsedLine) -> (u8, LineData) {
    match parsed {
        ParsedLine::Gather { level, line } => (level, line),
        other => panic!("tried to unwrap into a `Gather`, but was `{:?}`", &other),
    }
}

fn as_line(parsed: ParsedLine) -> LineData {
    match parsed {
        ParsedLine::Line(line) => line,
        other => panic!("tried to unwrap into a `LineData`, but was `{:?}`", &other),
    }
}

#[test]
fn simple_line_parses_to_line() {
    let text = "Hello, world!";

    let line = as_line(ParsedLine::from_str(text).unwrap());
    assert_eq!(&line.text, text);
}

#[test]
fn line_with_choice_markers_parses_into_choice_with_correct_level() {
    let line_text = "Hello, world!";

    let text1 = format!("* {}", line_text);
    let (level, choice) = as_choice(ParsedLine::from_str(&text1).unwrap());

    assert_eq!(level, 1);
    assert_eq!(choice.line, LineData::from_str(line_text).unwrap());

    let text2 = format!("** {}", line_text);
    let (level, choice) = as_choice(ParsedLine::from_str(&text2).unwrap());

    assert_eq!(level, 2);
    assert_eq!(choice.line, LineData::from_str(line_text).unwrap());
}

#[test]
fn parsing_choice_sets_displayed_and_line() {
    let line_text = "Hello, world!";
    let choice_text = format!("* {}", line_text);

    let (_, choice) = as_choice(parse_choice(&choice_text).unwrap().unwrap());

    assert_eq!(&choice.displayed, &choice.line);
}

#[test]
fn choices_are_initialized_with_zero_visits() {
    let line_text = "Hello, world!";
    let choice_text = format!("* {}", line_text);

    let (_, choice) = as_choice(parse_choice(&choice_text).unwrap().unwrap());

    assert_eq!(choice.num_visited, 0);
}

#[test]
fn line_with_gather_markers_counts_them() {
    let line_text = "Hello, world!";

    let text1 = format!("- {}", line_text);
    let (level, line) = as_gather(ParsedLine::from_str(&text1).unwrap());

    assert_eq!(level, 1);
    assert_eq!(line, LineData::from_str(line_text).unwrap());

    let text2 = format!("-- {}", line_text);
    let (level, line) = as_gather(ParsedLine::from_str(&text2).unwrap());

    assert_eq!(level, 2);
    assert_eq!(line, LineData::from_str(line_text).unwrap());
}

#[test]
fn asterix_choice_marker_returns_non_sticky_choice() {
    let (_, choice) = as_choice(ParsedLine::from_str("* Non-sticky choice").unwrap());
    assert!(!choice.is_sticky);
}

#[test]
fn plus_choice_marker_returns_sticky_choice() {
    let (_, choice) = as_choice(ParsedLine::from_str("+ Non-sticky choice").unwrap());
    assert!(choice.is_sticky);
}

#[test]
fn mix_of_sticky_and_non_sticky_marker_returns_error() {
    assert!(ParsedLine::from_str("+* Some choice ???").is_err());
    assert!(ParsedLine::from_str("*+ Some choice ???").is_err());
    assert!(ParsedLine::from_str("+++ * Some choice ???").is_err());
    assert!(ParsedLine::from_str("**+Some choice ???").is_err());
}

#[test]
fn choice_markers_require_text() {
    assert!(ParsedLine::from_str("*").is_err());
}

#[test]
fn gather_markers_do_not_require_text() {
    assert!(ParsedLine::from_str("-").is_ok());
}

#[test]
fn markers_can_be_whitespace_separated() {
    let line_text = "Hello, world!";

    let text = format!("- -    - - {}", line_text);
    let (level, line) = as_gather(ParsedLine::from_str(&text).unwrap());

    assert_eq!(level, 4);
    assert_eq!(line, LineData::from_str(line_text).unwrap());
}

#[test]
fn line_with_beginning_divert_parses_into_line_instead_of_gather() {
    let knot_name = "knot_name";
    let text = format!("    {} {}", DIVERT_MARKER, knot_name);
    let line = as_line(ParsedLine::from_str(&text).unwrap());

    assert_eq!(line.kind, LineKind::Divert(knot_name.to_string()));
}

#[test]
fn read_simple_line() {
    let text = "Hello, world!";

    let line = LineData::from_str(text).unwrap();

    assert_eq!(&line.text, text);
    assert_eq!(line.kind, LineKind::Regular);
}

#[test]
fn read_line_trims_whitespace() {
    let text = "   Hello, world!   ";
    let line = LineData::from_str(text).unwrap();

    assert_eq!(&line.text, text.trim());
}

#[test]
fn line_with_glue_retains_whitespace_on_end_side() {
    let text = "Hello, world!";
    let whitespace = "    ";

    let line_with_left_glue = format!(
        "{marker}{pad}{text}",
        pad = &whitespace,
        text = &text,
        marker = GLUE_MARKER
    );

    let line_with_right_glue = format!(
        "{text}{pad}{marker}",
        text = &text,
        pad = &whitespace,
        marker = GLUE_MARKER
    );

    let line_left = LineData::from_str(&line_with_left_glue).unwrap();

    assert_eq!(line_left.text, format!(" {}", &text));
    assert!(line_left.glue_start);
    assert!(!line_left.glue_end);

    let line_right = LineData::from_str(&line_with_right_glue).unwrap();

    assert_eq!(line_right.text, format!("{} ", &text));
    assert!(!line_right.glue_start);
    assert!(line_right.glue_end);
}

#[test]
fn divert_line_returns_knot_name() {
    let name = "knot_name";
    let text = format!("-> {}", name);

    let line = LineData::from_str(&text).unwrap();

    assert_eq!(line.kind, LineKind::Divert(name.to_string()));
}

#[test]
fn embedded_divert_returns_knot_name() {
    let head = "Hello, world!";
    let name = "knot_name";
    let text = format!("{}->{}", head, name);

    let line = LineData::from_str(&text).unwrap();
    assert_eq!(line.kind, LineKind::Divert(name.to_string()));
}

#[test]
fn diverts_in_lines_acts_as_glue() {
    let head = "Hello, world! ";
    let name = "knot_name";
    let text = format!("{}->{}", head, name);

    let line = LineData::from_str(&text).unwrap();

    assert!(line.glue_end);
}

#[test]
fn lines_trim_extra_whitespace_between_words() {
    let line = LineData::from_str("Hello,      World!   ").unwrap();
    assert_eq!(&line.text, "Hello, World!");
}

#[test]
fn tags_are_not_added_if_none_are_given() {
    let head = "Hello, world! ";
    let name = "knot_name";
    let text = format!("{}->{}", head, name);

    let line = LineData::from_str(&text).unwrap();
    assert!(line.tags.is_empty());
}

#[test]
fn multiple_tags_can_be_specified() {
    let head = "Hello, world!";

    let tag1 = "blue colour".to_string();
    let tag2 = "transparent".to_string();
    let tag3 = "italic text".to_string();

    let text = format!(
        "{head}{sep}{}{sep}{}{sep}{}",
        tag1,
        tag2,
        tag3,
        head = head,
        sep = TAG_MARKER
    );

    let line = LineData::from_str(&text).unwrap();
    let tags = &line.tags;

    assert_eq!(tags.len(), 3);
    assert_eq!(tags[0], tag1);
    assert_eq!(tags[1], tag2);
    assert_eq!(tags[2], tag3);
}
