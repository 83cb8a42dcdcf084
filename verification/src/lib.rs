//! A verified engine for branching, choice-driven stories.
//!
//! A story is written as plain text: named sections ("knots") of lines,
//! player choices, join points ("gathers"), jumps between sections
//! ("diverts"), inline tags and glue markers.  The engine parses that text
//! into a graph and walks it one step at a time, emitting finished lines of
//! output and stopping wherever the reader must pick a choice.
//!
//! A small verified kit for grid movement and input pacing used by the
//! game that embeds the engine lives in [`movement`], [`camera`] and
//! [`input`].

use vstd::prelude::*;

pub mod builder;
pub mod camera;
pub mod consts;
pub mod error;
pub mod input;
pub mod knot;
pub mod movement;
pub mod prefab;
pub mod laws;
pub mod line;
pub mod story;
pub mod text;

pub use error::FollowError;
pub use error::KnotError;
pub use error::KnotNameError;
pub use error::LineError;
pub use error::ParseError;
pub use knot::Knot;
pub use knot::Next;
pub use line::Choice;
pub use line::LineData;
pub use line::LineKind;
pub use line::ParsedLine;
pub use story::read_story_from_string;
pub use story::Line;
pub use story::LineBuffer;
pub use story::Story;
pub use story::StoryAction;

verus! {

} // verus!
