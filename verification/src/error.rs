//! Errors raised while reading a story from text or while following it.
//!
//! Each parse error renders a human-readable diagnostic through its
//! `message` method, carrying the offending line where there is one.

use vstd::prelude::*;
use vstd::string::StringExecFns;

verus! {

/// Why a knot name could not be read from a header line.
#[derive(Clone, Copy, Debug, PartialEq, Eq, Structural)]
pub enum KnotNameError {
    /// The name contains whitespace characters.
    ContainsWhitespace,
    /// The line does not start with the knot marker.
    CouldNotRead,
}

/// Error from constructing a knot.
#[derive(Clone, Debug)]
pub enum KnotError {
    /// Knot has no name.
    Empty,
    /// Could not parse a name for the knot.  The offending line is kept.
    InvalidName { line: String, kind: KnotNameError },
}

/// Ghost mirror of [`KnotError`].
#[verifier::ext_equal]
pub ghost enum KnotErrorV {
    Empty,
    InvalidName { line: Seq<char>, kind: KnotNameError },
}

impl View for KnotError {
    type V = KnotErrorV;

    open spec fn view(&self) -> KnotErrorV {
        match self {
            KnotError::Empty => KnotErrorV::Empty,
            KnotError::InvalidName { line, kind } => KnotErrorV::InvalidName {
                line: line@,
                kind: *kind,
            },
        }
    }
}

/// Error from parsing a single line of content.
#[derive(Clone, Debug)]
pub enum LineError {
    /// Could not parse a condition.
    BadCondition { condition: String, full_line: String },
    /// A line parsed as a choice has no text to display for the choice.
    NoDisplayText,
    /// A choice line mixed the two kinds of choice markers.
    MultipleChoiceType { line: String },
    /// Found unmatched brackets in a line.
    UnmatchedBrackets { line: String },
}

/// Ghost mirror of [`LineError`].
#[verifier::ext_equal]
pub ghost enum LineErrorV {
    BadCondition { condition: Seq<char>, full_line: Seq<char> },
    NoDisplayText,
    MultipleChoiceType { line: Seq<char> },
    UnmatchedBrackets { line: Seq<char> },
}

impl View for LineError {
    type V = LineErrorV;

    open spec fn view(&self) -> LineErrorV {
        match self {
            LineError::BadCondition { condition, full_line } => LineErrorV::BadCondition {
                condition: condition@,
                full_line: full_line@,
            },
            LineError::NoDisplayText => LineErrorV::NoDisplayText,
            LineError::MultipleChoiceType { line } => LineErrorV::MultipleChoiceType {
                line: line@,
            },
            LineError::UnmatchedBrackets { line } => LineErrorV::UnmatchedBrackets {
                line: line@,
            },
        }
    }
}

/// Error from parsing text to construct a story.
#[derive(Clone, Debug)]
pub enum ParseError {
    /// Attempted to construct a story from an empty file or string.
    Empty,
    /// Error from constructing a knot.
    KnotError(KnotError),
    /// Error from parsing a single line.
    LineError(LineError),
}

/// Ghost mirror of [`ParseError`].
#[verifier::ext_equal]
pub ghost enum ParseErrorV {
    Empty,
    KnotError(KnotErrorV),
    LineError(LineErrorV),
}

impl View for ParseError {
    type V = ParseErrorV;

    open spec fn view(&self) -> ParseErrorV {
        match self {
            ParseError::Empty => ParseErrorV::Empty,
            ParseError::KnotError(e) => ParseErrorV::KnotError(e@),
            ParseError::LineError(e) => ParseErrorV::LineError(e@),
        }
    }
}

impl From<KnotError> for ParseError {
    fn from(err: KnotError) -> (r: Self) {
        ParseError::KnotError(err)
    }
}

impl vstd::std_specs::convert::FromSpecImpl<KnotError> for ParseError {
    open spec fn obeys_from_spec() -> bool {
        true
    }

    open spec fn from_spec(err: KnotError) -> Self {
        ParseError::KnotError(err)
    }
}

impl From<LineError> for ParseError {
    fn from(err: LineError) -> (r: Self) {
        ParseError::LineError(err)
    }
}

impl vstd::std_specs::convert::FromSpecImpl<LineError> for ParseError {
    open spec fn obeys_from_spec() -> bool {
        true
    }

    open spec fn from_spec(err: LineError) -> Self {
        ParseError::LineError(err)
    }
}

/// The diagnostic text of a knot error.
pub open spec fn knot_error_message(e: KnotErrorV) -> Seq<char> {
    "Could not parse a knot: "@ + match e {
        KnotErrorV::Empty => "knot has no name"@,
        KnotErrorV::InvalidName { line, kind } => "could not read knot name: "@ + (match kind {
            KnotNameError::ContainsWhitespace => "name contains whitespace characters"@,
            KnotNameError::CouldNotRead => "line does not start with '='"@,
        }) + " (line: "@ + line + ")"@,
    }
}

/// The diagnostic text of a line error.
pub open spec fn line_error_message(e: LineErrorV) -> Seq<char> {
    "Invalid line: "@ + match e {
        LineErrorV::BadCondition { condition, full_line } =>
            "could not parse a condition from '"@ + condition + "' (full line: "@ + full_line
                + ")"@,
        LineErrorV::NoDisplayText => "line has choice markers (*, +) but is empty"@,
        LineErrorV::MultipleChoiceType { line } =>
            "line has multiple types of choice markers (line: "@ + line + ")"@,
        LineErrorV::UnmatchedBrackets { line } => "line has unmatched brackets (line: "@ + line
            + ")"@,
    }
}

/// The diagnostic text of a parse error.
pub open spec fn parse_error_message(e: ParseErrorV) -> Seq<char> {
    match e {
        ParseErrorV::Empty => "Tried to read from an empty file or string"@,
        ParseErrorV::KnotError(k) => knot_error_message(k),
        ParseErrorV::LineError(l) => line_error_message(l),
    }
}

impl KnotError {
    /// A human-readable diagnostic for this error.
    pub fn message(&self) -> (r: String)
        ensures
            r@ == knot_error_message(self@),
    {
        let mut s = String::from_str("Could not parse a knot: ");
        match self {
            KnotError::Empty => {
                s.append("knot has no name");
            },
            KnotError::InvalidName { line, kind } => {
                s.append("could not read knot name: ");
                match kind {
                    KnotNameError::ContainsWhitespace => {
                        s.append("name contains whitespace characters");
                    },
                    KnotNameError::CouldNotRead => {
                        s.append("line does not start with '='");
                    },
                }
                s.append(" (line: ");
                s.append(line.as_str());
                s.append(")");
            },
        }
        s
    }
}

impl LineError {
    /// A human-readable diagnostic for this error.
    pub fn message(&self) -> (r: String)
        ensures
            r@ == line_error_message(self@),
    {
        let mut s = String::from_str("Invalid line: ");
        match self {
            LineError::BadCondition { condition, full_line } => {
                s.append("could not parse a condition from '");
                s.append(condition.as_str());
                s.append("' (full line: ");
                s.append(full_line.as_str());
                s.append(")");
            },
            LineError::NoDisplayText => {
                s.append("line has choice markers (*, +) but is empty");
            },
            LineError::MultipleChoiceType { line } => {
                s.append("line has multiple types of choice markers (line: ");
                s.append(line.as_str());
                s.append(")");
            },
            LineError::UnmatchedBrackets { line } => {
                s.append("line has unmatched brackets (line: ");
                s.append(line.as_str());
                s.append(")");
            },
        }
        s
    }
}

impl ParseError {
    /// A human-readable diagnostic for this error.
    pub fn message(&self) -> (r: String)
        ensures
            r@ == parse_error_message(self@),
    {
        match self {
            ParseError::Empty => String::from_str("Tried to read from an empty file or string"),
            ParseError::KnotError(e) => e.message(),
            ParseError::LineError(e) => e.message(),
        }
    }
}

/// Error from following a story that was already constructed.
#[derive(Clone, Debug)]
pub enum FollowError {
    /// A divert led to a knot name that the story does not define.
    UnknownKnot { name: String },
    /// A choice was supplied while the story was not waiting at a choice
    /// point.
    NotAtChoicePoint,
    /// The supplied index does not pick any of the presented choices.
    InvalidChoiceIndex { index: usize },
    /// Every choice of a reached set has been filtered out: the story has
    /// no way forward.
    NoSurvivingChoices,
    /// A chain of diverts ran past the depth limit without reaching text,
    /// a choice or an end.
    TooManyDiverts,
}

/// Ghost mirror of [`FollowError`].
#[verifier::ext_equal]
pub ghost enum FollowErrorV {
    UnknownKnot { name: Seq<char> },
    NotAtChoicePoint,
    InvalidChoiceIndex { index: usize },
    NoSurvivingChoices,
    TooManyDiverts,
}

impl View for FollowError {
    type V = FollowErrorV;

    open spec fn view(&self) -> FollowErrorV {
        match self {
            FollowError::UnknownKnot { name } => FollowErrorV::UnknownKnot { name: name@ },
            FollowError::NotAtChoicePoint => FollowErrorV::NotAtChoicePoint,
            FollowError::InvalidChoiceIndex { index } => FollowErrorV::InvalidChoiceIndex {
                index: *index,
            },
            FollowError::NoSurvivingChoices => FollowErrorV::NoSurvivingChoices,
            FollowError::TooManyDiverts => FollowErrorV::TooManyDiverts,
        }
    }
}

} // verus!
