//! The marker characters and reserved names of the story text format.

use vstd::prelude::*;

verus! {

/// Starts a non-sticky choice; repeated markers deepen the nesting level.
pub const CHOICE_MARKER: char = '*';

/// Starts a sticky choice, which stays presentable after being picked.
pub const STICKY_CHOICE_MARKER: char = '+';

/// Starts a gather, the join point of open choice branches.
pub const GATHER_MARKER: char = '-';

/// Starts a divert: an unconditional jump to the named knot.
pub const DIVERT_MARKER: &'static str = "->";

/// Suppresses the line break between two adjacent output lines.
pub const GLUE_MARKER: char = '~';

/// Separates a line's text from its trailing tags.
pub const TAG_MARKER: char = '#';

/// Starts a knot header line.
pub const KNOT_MARKER: char = '=';

/// Reserved divert target: ends the story.
pub const DONE_KNOT: &'static str = "DONE";

/// Reserved divert target: ends the story.
pub const END_KNOT: &'static str = "END";

/// How many diverts one follow call may chase before it reports an error
/// instead of looping forever on a cyclic story.
pub const MAX_DIVERT_CHAIN: usize = 1000;

} // verus!
