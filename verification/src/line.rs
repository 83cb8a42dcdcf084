//! Parsing one raw line of story text.
//!
//! A raw line is first normalised (whitespace collapsed and trimmed), then
//! stripped of trailing tags, of an embedded divert and of glue markers;
//! what remains is the line's text.  A line may further be classified as a
//! choice or a gather by the markers at its start.

use vstd::prelude::*;
use vstd::string::StrSliceExecFns;

use crate::consts::{CHOICE_MARKER, GATHER_MARKER, GLUE_MARKER, STICKY_CHOICE_MARKER, TAG_MARKER};
use crate::error::{LineError, LineErrorV, ParseError, ParseErrorV};
use crate::text::{
    collapse_ws, collapsed, chars_to_string, count_char, count_char_from, divert_from, find_char,
    find_divert, find_from, find_marker_split, find_non_space, lemma_divert_from, lemma_find_from,
    lemma_marker_split, lemma_skip_spaces, lemma_trim_start_spaces, marker_split, skip_spaces,
    split_char, split_char_vec, subvec, to_chars, trim_end_char, trim_end_char_vec, trim_spaces,
    trim_spaces_vec, trim_start_char, trim_start_char_vec, trim_start_pairs, trim_start_pairs_vec,
    trim_start_spaces,
};

verus! {

/// What following a line leads to: plain text, or a jump to another knot.
#[derive(Clone, Debug, PartialEq)]
pub enum LineKind {
    /// Move on with the story.
    Regular,
    /// Divert to the knot with the given name.
    Divert(String),
}

/// Ghost mirror of [`LineKind`].
#[verifier::ext_equal]
pub ghost enum LineKindV {
    Regular,
    Divert(Seq<char>),
}

impl View for LineKind {
    type V = LineKindV;

    open spec fn view(&self) -> LineKindV {
        match self {
            LineKind::Regular => LineKindV::Regular,
            LineKind::Divert(name) => LineKindV::Divert(name@),
        }
    }
}

/// A single line of story text, parsed.
#[derive(Clone, Debug, PartialEq)]
pub struct LineData {
    /// Text contained in the line.
    pub text: String,
    /// Whether the line is regular text or diverts to another knot.
    pub kind: LineKind,
    /// Tags marking the line, in their written order.
    pub tags: Vec<String>,
    /// Whether the line glues to the previous emitted line (no line break
    /// between them).
    pub glue_start: bool,
    /// Whether the line glues to the following emitted line.
    pub glue_end: bool,
}

/// Ghost mirror of [`LineData`].
#[verifier::ext_equal]
pub ghost struct LineDataV {
    pub text: Seq<char>,
    pub kind: LineKindV,
    pub tags: Seq<Seq<char>>,
    pub glue_start: bool,
    pub glue_end: bool,
}

impl View for LineData {
    type V = LineDataV;

    open spec fn view(&self) -> LineDataV {
        LineDataV {
            text: self.text@,
            kind: self.kind@,
            tags: self.tags.deep_view(),
            glue_start: self.glue_start,
            glue_end: self.glue_end,
        }
    }
}

impl LineData {
    /// A fresh line holding the same data.
    pub fn duplicate(&self) -> (r: LineData)
        ensures
            r@ == self@,
    {
        let kind = match &self.kind {
            LineKind::Regular => LineKind::Regular,
            LineKind::Divert(name) => LineKind::Divert(name.clone()),
        };
        let mut tags: Vec<String> = Vec::new();
        let mut i: usize = 0;
        while i < self.tags.len()
            invariant
                tags@.len() == i <= self.tags@.len(),
                forall|j: int| 0 <= j < i ==> #[trigger] tags@[j]@ == self.tags@[j]@,
            decreases self.tags@.len() - i,
        {
            tags.push(self.tags[i].clone());
            i = i + 1;
        }
        proof {
            assert(tags.deep_view() =~~= self.tags.deep_view());
        }
        LineData {
            text: self.text.clone(),
            kind,
            tags,
            glue_start: self.glue_start,
            glue_end: self.glue_end,
        }
    }
}

/// A single choice presented to the user within a set of choices.
#[derive(Clone, Debug, PartialEq)]
pub struct Choice {
    /// Text presented to the user to represent the choice.
    pub displayed: LineData,
    /// Text that the choice produces once selected, replacing the
    /// `displayed` line.
    pub line: LineData,
    /// How many times the choice has been selected so far in the story.
    pub num_visited: u32,
    /// A choice is filtered from presentation after being visited unless it
    /// is sticky.
    pub is_sticky: bool,
}

/// Ghost mirror of [`Choice`].
#[verifier::ext_equal]
pub ghost struct ChoiceV {
    pub displayed: LineDataV,
    pub line: LineDataV,
    pub num_visited: u32,
    pub is_sticky: bool,
}

impl View for Choice {
    type V = ChoiceV;

    open spec fn view(&self) -> ChoiceV {
        ChoiceV {
            displayed: self.displayed@,
            line: self.line@,
            num_visited: self.num_visited,
            is_sticky: self.is_sticky,
        }
    }
}

impl Choice {
    /// A fresh choice holding the same data.
    pub fn duplicate(&self) -> (r: Choice)
        ensures
            r@ == self@,
    {
        Choice {
            displayed: self.displayed.duplicate(),
            line: self.line.duplicate(),
            num_visited: self.num_visited,
            is_sticky: self.is_sticky,
        }
    }
}

/// One raw line, classified for graph construction.
#[derive(Clone, Debug)]
pub enum ParsedLine {
    /// A choice presented to the user, at the given nesting level.
    Choice { level: u8, choice: Choice },
    /// A gather point: open choice branches at this level or deeper
    /// collapse here.
    Gather { level: u8, line: LineData },
    /// A regular line, which may still divert to another knot.
    Line(LineData),
}

/// Ghost mirror of [`ParsedLine`].
#[verifier::ext_equal]
pub ghost enum ParsedLineV {
    Choice { level: u8, choice: ChoiceV },
    Gather { level: u8, line: LineDataV },
    Line(LineDataV),
}

impl View for ParsedLine {
    type V = ParsedLineV;

    open spec fn view(&self) -> ParsedLineV {
        match self {
            ParsedLine::Choice { level, choice } => ParsedLineV::Choice {
                level: *level,
                choice: choice@,
            },
            ParsedLine::Gather { level, line } => ParsedLineV::Gather {
                level: *level,
                line: line@,
            },
            ParsedLine::Line(line) => ParsedLineV::Line(line@),
        }
    }
}

// ---------------------------------------------------------------------------
// The meaning of one raw line, as spec functions.
// ---------------------------------------------------------------------------

/// The tags of a normalised line: everything from the first tag marker on,
/// shorn of the markers at either end and split at the remaining ones.
pub open spec fn spec_tags(s: Seq<char>) -> Seq<Seq<char>> {
    let ti = find_from(s, 0, TAG_MARKER);
    if ti == s.len() {
        Seq::empty()
    } else {
        split_char(
            trim_start_char(trim_end_char(s.subrange(ti, s.len() as int), TAG_MARKER), TAG_MARKER),
            TAG_MARKER,
        )
    }
}

/// The divert target named by the text from the first divert marker on:
/// leading markers are stripped, only the first of several `->`-separated
/// names counts, and it is trimmed of whitespace.
pub open spec fn spec_divert_target(part: Seq<char>) -> Seq<char> {
    let t = trim_start_pairs(part);
    trim_spaces(t.subrange(0, divert_from(t, 0)))
}

/// Whether a normalised line starts with a glue marker.
pub open spec fn spec_glue_start(s: Seq<char>) -> bool {
    s.len() > 0 && s[0] == GLUE_MARKER
}

/// Whether a normalised line ends with a glue marker.
pub open spec fn spec_glue_end(s: Seq<char>) -> bool {
    s.len() > 0 && s[s.len() - 1] == GLUE_MARKER
}

/// The line's text once glue markers are stripped.  A divert acts as right
/// glue: when none was written, a single separating space is appended.
pub open spec fn spec_strip_glue(s: Seq<char>, has_divert: bool) -> Seq<char> {
    let t1 = if spec_glue_start(s) {
        trim_start_char(s, GLUE_MARKER)
    } else {
        s
    };
    let t2 = if spec_glue_end(s) {
        trim_end_char(t1, GLUE_MARKER)
    } else {
        t1
    };
    if has_divert && !spec_glue_end(s) {
        t2.push(' ')
    } else {
        t2
    }
}

/// The parsed form of one raw line: whitespace is collapsed, tags are
/// split off, then an embedded divert, then glue markers.
pub open spec fn spec_line_data(raw: Seq<char>) -> LineDataV {
    let w = collapsed(raw);
    let t1 = w.subrange(0, find_from(w, 0, TAG_MARKER));
    let dp = divert_from(t1, 0);
    let has_divert = dp < t1.len();
    let t2 = trim_spaces(t1.subrange(0, dp));
    LineDataV {
        text: spec_strip_glue(t2, has_divert),
        kind: if has_divert {
            LineKindV::Divert(spec_divert_target(t1.subrange(dp, t1.len() as int)))
        } else {
            LineKindV::Regular
        },
        tags: spec_tags(w),
        glue_start: spec_glue_start(t2),
        glue_end: spec_glue_end(t2) || has_divert,
    }
}

// ---------------------------------------------------------------------------
// Executable parsing.
// ---------------------------------------------------------------------------

/// The line with runs of whitespace collapsed to single spaces and both
/// ends trimmed.
pub fn trim_whitespace(line: &str) -> (r: String)
    ensures
        r@ == collapsed(line@),
{
    let v = to_chars(line);
    let w = collapse_ws(&v);
    chars_to_string(&w)
}

/// Split any found tags off the given line and return them separately.
pub fn parse_tags(line: &mut String) -> (tags: Vec<String>)
    ensures
        final(line)@ == old(line)@.subrange(0, find_from(old(line)@, 0, TAG_MARKER)),
        tags.deep_view() == spec_tags(old(line)@),
{
    let v = to_chars(line.as_str());
    proof {
        lemma_find_from(v@, 0, TAG_MARKER);
    }
    let ti = find_char(&v, 0, TAG_MARKER);
    if ti == v.len() {
        let tags: Vec<String> = Vec::new();
        proof {
            assert(v@.subrange(0, v@.len() as int) =~= v@);
            assert(tags.deep_view() =~~= Seq::<Seq<char>>::empty());
        }
        tags
    } else {
        let before = subvec(&v, 0, ti);
        let part = subvec(&v, ti, v.len());
        let trimmed = trim_start_char_vec(&trim_end_char_vec(&part, TAG_MARKER), TAG_MARKER);
        let pieces = split_char_vec(&trimmed, TAG_MARKER);
        let mut tags: Vec<String> = Vec::new();
        let mut i: usize = 0;
        while i < pieces.len()
            invariant
                tags@.len() == i <= pieces@.len(),
                forall|j: int| 0 <= j < i ==> #[trigger] tags@[j]@ == pieces@[j]@,
            decreases pieces@.len() - i,
        {
            tags.push(chars_to_string(&pieces[i]));
            i = i + 1;
        }
        proof {
            assert(forall|j: int| 0 <= j < pieces@.len()
                ==> #[trigger] pieces@[j].deep_view() =~= pieces@[j]@);
            assert(tags.deep_view() =~~= pieces.deep_view());
        }
        *line = chars_to_string(&before);
        tags
    }
}

/// Split a divert off the given line; the first name after the marker, if
/// one was written, is returned trimmed.
pub fn parse_divert(line: &mut String) -> (divert: Option<String>)
    ensures
        ({
            let s = old(line)@;
            let dp = divert_from(s, 0);
            if dp == s.len() {
                final(line)@ == s && divert is None
            } else {
                final(line)@ == s.subrange(0, dp) && divert is Some
                    && divert->0@ == spec_divert_target(s.subrange(dp, s.len() as int))
            }
        }),
{
    let v = to_chars(line.as_str());
    proof {
        lemma_divert_from(v@, 0);
    }
    let dp = find_divert(&v, 0);
    if dp == v.len() {
        None
    } else {
        let before = subvec(&v, 0, dp);
        let part = subvec(&v, dp, v.len());
        let t = trim_start_pairs_vec(&part);
        proof {
            lemma_divert_from(t@, 0);
        }
        let q = find_divert(&t, 0);
        let first = subvec(&t, 0, q);
        let target = trim_spaces_vec(&first);
        *line = chars_to_string(&before);
        Some(chars_to_string(&target))
    }
}

/// Parse and remove glue markers from either side, keeping enclosed
/// whitespace.  A divert always acts as right glue.
pub fn parse_line_glue(line: &mut String, has_divert: bool) -> (glue: (bool, bool))
    ensures
        final(line)@ == spec_strip_glue(old(line)@, has_divert),
        glue.0 == spec_glue_start(old(line)@),
        glue.1 == (spec_glue_end(old(line)@) || has_divert),
{
    let v = to_chars(line.as_str());
    let glue_left = v.len() > 0 && v[0] == GLUE_MARKER;
    let glue_right = v.len() > 0 && v[v.len() - 1] == GLUE_MARKER;
    let t1 = if glue_left {
        trim_start_char_vec(&v, GLUE_MARKER)
    } else {
        v
    };
    let mut t2 = if glue_right {
        trim_end_char_vec(&t1, GLUE_MARKER)
    } else {
        t1
    };
    if has_divert && !glue_right {
        t2.push(' ');
    }
    *line = chars_to_string(&t2);
    (glue_left, glue_right || has_divert)
}

impl LineData {
    /// Parse one raw line of story text.  Every string is a valid line, so
    /// this always succeeds; the `Result` mirrors the classifying parsers.
    pub fn from_str(line: &str) -> (r: Result<LineData, ParseError>)
        ensures
            r is Ok,
            r->Ok_0@ == spec_line_data(line@),
    {
        let mut text = trim_whitespace(line);
        let tags = parse_tags(&mut text);
        let divert = parse_divert(&mut text);
        proof {
            let w = collapsed(line@);
            let t1 = w.subrange(0, find_from(w, 0, TAG_MARKER));
            lemma_divert_from(t1, 0);
            if divert_from(t1, 0) == t1.len() {
                assert(t1.subrange(0, t1.len() as int) =~= t1);
            }
        }

        let trimmed = trim_spaces_vec(&to_chars(text.as_str()));
        text = chars_to_string(&trimmed);

        // Diverts always act as glue.
        let (glue_start, glue_end) = parse_line_glue(&mut text, divert.is_some());

        let kind = if let Some(name) = divert {
            LineKind::Divert(name)
        } else {
            LineKind::Regular
        };

        Ok(LineData { text, kind, tags, glue_start, glue_end })
    }
}

// ---------------------------------------------------------------------------
// Classifying a line as a choice, a gather or a plain line.
// ---------------------------------------------------------------------------

/// The marker run at the start of a line: when the first non-whitespace
/// character is the marker `m`, the count of `m` markers before the first
/// character that is neither marker nor whitespace (markers may be
/// whitespace-separated), together with the rest of the line.
pub open spec fn spec_marker_parse(s: Seq<char>, m: char) -> Option<(u8, Seq<char>)> {
    let st = skip_spaces(s, 0);
    if st < s.len() && s[st] == m {
        let sp = marker_split(s, 0, m);
        Some(
            (
                (count_char_from(s.subrange(0, sp), 0, m) % 256) as u8,
                s.subrange(sp, s.len() as int),
            ),
        )
    } else {
        None
    }
}

/// The choice markers of a line, of either kind.  Mixing the two kinds is
/// an error; the boolean records whether the sticky marker was used.
pub open spec fn spec_choice_markers(s: Seq<char>) -> Option<
    Result<(u8, bool, Seq<char>), ParseErrorV>,
> {
    let star = spec_marker_parse(s, CHOICE_MARKER);
    let is_sticky = star is None;
    let mp = if star is Some {
        star
    } else {
        spec_marker_parse(s, STICKY_CHOICE_MARKER)
    };
    match mp {
        None => None,
        Some((n, rest)) => Some(
            if rest.len() > 0 && (rest[0] == CHOICE_MARKER || rest[0] == STICKY_CHOICE_MARKER) {
                Err(ParseErrorV::LineError(LineErrorV::MultipleChoiceType { line: s }))
            } else {
                Ok((n, is_sticky, rest))
            },
        ),
    }
}

/// The parse of a line that starts with choice markers: its nesting level,
/// and one choice whose displayed and produced texts both are the parsed
/// rest of the line.  A choice must have text to display.
pub open spec fn spec_parse_choice(s: Seq<char>) -> Option<Result<ParsedLineV, ParseErrorV>> {
    match spec_choice_markers(s) {
        None => None,
        Some(Err(e)) => Some(Err(e)),
        Some(Ok((level, is_sticky, rest))) => Some(
            if rest.len() == 0 {
                Err(ParseErrorV::LineError(LineErrorV::NoDisplayText))
            } else {
                let ld = spec_line_data(rest);
                Ok(
                    ParsedLineV::Choice {
                        level,
                        choice: ChoiceV { displayed: ld, line: ld, num_visited: 0, is_sticky },
                    },
                )
            },
        ),
    }
}

/// The parse of a line that starts with gather markers, once leading
/// whitespace and divert markers are stripped.  A gather's own text may be
/// empty.
pub open spec fn spec_parse_gather(s: Seq<char>) -> Option<ParsedLineV> {
    let stripped = trim_start_pairs(trim_start_spaces(s));
    match spec_marker_parse(stripped, GATHER_MARKER) {
        None => None,
        Some((level, rest)) => Some(ParsedLineV::Gather { level, line: spec_line_data(rest) }),
    }
}

/// The classification of one raw line: first as a choice, then as a
/// gather, finally as a plain line.  A line that begins with a divert
/// marker is never a gather.
pub open spec fn spec_parsed_line(s: Seq<char>) -> Result<ParsedLineV, ParseErrorV> {
    match spec_parse_choice(s) {
        Some(r) => r,
        None => match spec_parse_gather(s) {
            Some(p) => Ok(p),
            None => Ok(ParsedLineV::Line(spec_line_data(s))),
        },
    }
}

/// Split a line at its first character that is neither the given marker
/// nor whitespace.
pub fn split_markers_from_text<'a>(line: &'a str, marker: char) -> (r: (&'a str, &'a str))
    ensures
        r.0@ == line@.subrange(0, marker_split(line@, 0, marker)),
        r.1@ == line@.subrange(marker_split(line@, 0, marker), line@.len() as int),
{
    let v = to_chars(line);
    proof {
        lemma_marker_split(v@, 0, marker);
    }
    let sp = find_marker_split(&v, 0, marker);
    let n = line.unicode_len();
    (line.substring_char(0, sp), line.substring_char(sp, n))
}

/// Count the markers at the start of a line, when its first non-whitespace
/// character is the given marker, and return them with the remaining text.
/// A run longer than 255 markers wraps around.
pub fn parse_markers_and_text<'a>(line: &'a str, marker: char) -> (r: Option<(u8, &'a str)>)
    ensures
        match spec_marker_parse(line@, marker) {
            None => r is None,
            Some((n, rest)) => r is Some && (r->0).0 == n && (r->0).1@ == rest,
        },
{
    let v = to_chars(line);
    proof {
        lemma_skip_spaces(v@, 0);
    }
    let st = find_non_space(&v, 0);
    if st < v.len() && v[st] == marker {
        let (markers, line_text) = split_markers_from_text(line, marker);
        let mv = to_chars(markers);
        proof {
            lemma_marker_split(line@, 0, marker);
            assert(mv@.subrange(0, mv@.len() as int) =~= mv@);
        }
        let num = count_char(&mv, 0, mv.len(), marker);
        Some(((num % 256) as u8, line_text))
    } else {
        None
    }
}

/// Split choice markers (sticky or non-sticky) from a line.  If they are
/// present, ensure that the line does not mix the two kinds.  Return the
/// number of markers along with whether the choice is sticky and the
/// remaining line.
pub fn parse_choice_markers_and_text<'a>(line: &'a str) -> (r: Option<
    Result<(u8, bool, &'a str), ParseError>,
>)
    ensures
        match spec_choice_markers(line@) {
            None => r is None,
            Some(Ok((n, sticky, rest))) => r is Some && r->0 is Ok && (r->0->Ok_0).0 == n
                && (r->0->Ok_0).1 == sticky && (r->0->Ok_0).2@ == rest,
            Some(Err(e)) => r is Some && r->0 is Err && r->0->Err_0@ == e,
        },
{
    let choice_parse = parse_markers_and_text(line, CHOICE_MARKER);
    let is_sticky = choice_parse.is_none();
    let parsed = if choice_parse.is_some() {
        choice_parse
    } else {
        parse_markers_and_text(line, STICKY_CHOICE_MARKER)
    };
    match parsed {
        None => None,
        Some((num_markers, remaining_line)) => {
            let rv = to_chars(remaining_line);
            if rv.len() > 0 && (rv[0] == CHOICE_MARKER || rv[0] == STICKY_CHOICE_MARKER) {
                Some(
                    Err(
                        ParseError::LineError(
                            LineError::MultipleChoiceType { line: line.to_owned() },
                        ),
                    ),
                )
            } else {
                Some(Ok((num_markers, is_sticky, remaining_line)))
            }
        },
    }
}

/// Try to parse a line as a choice.  `None` means the line carries no
/// choice markers; a present error reports mixed markers or missing text.
pub fn parse_choice(line: &str) -> (r: Option<Result<ParsedLine, ParseError>>)
    ensures
        match spec_parse_choice(line@) {
            None => r is None,
            Some(Ok(p)) => r is Some && r->0 is Ok && r->0->Ok_0@ == p,
            Some(Err(e)) => r is Some && r->0 is Err && r->0->Err_0@ == e,
        },
{
    match parse_choice_markers_and_text(line) {
        None => None,
        Some(Err(err)) => Some(Err(err)),
        Some(Ok((level, is_sticky, line_text))) => {
            if line_text.is_empty() {
                return Some(Err(ParseError::LineError(LineError::NoDisplayText)));
            }
            match LineData::from_str(line_text) {
                Ok(ld) => {
                    let choice = Choice {
                        displayed: ld.duplicate(),
                        line: ld,
                        num_visited: 0,
                        is_sticky,
                    };
                    Some(Ok(ParsedLine::Choice { level, choice }))
                },
                Err(err) => Some(Err(err)),
            }
        },
    }
}

/// Try to parse a line as a gather.  Leading divert markers are stripped
/// first: a gather line may itself be the target of a redirect elsewhere.
pub fn parse_gather(line: &str) -> (r: Option<Result<ParsedLine, ParseError>>)
    ensures
        match spec_parse_gather(line@) {
            None => r is None,
            Some(p) => r is Some && r->0 is Ok && r->0->Ok_0@ == p,
        },
{
    let v = to_chars(line);
    proof {
        lemma_skip_spaces(v@, 0);
    }
    let st = find_non_space(&v, 0);
    let tail = subvec(&v, st, v.len());
    proof {
        lemma_trim_start_spaces(v@, st as int);
    }
    let stripped = trim_start_pairs_vec(&tail);
    let s = chars_to_string(&stripped);
    match parse_markers_and_text(s.as_str(), GATHER_MARKER) {
        None => None,
        Some((level, rest)) => match LineData::from_str(rest) {
            Ok(ld) => Some(Ok(ParsedLine::Gather { level, line: ld })),
            Err(err) => Some(Err(err)),
        },
    }
}

/// Parse a line as plain text, which always succeeds.
pub fn parse_line(line: &str) -> (r: Result<ParsedLine, ParseError>)
    ensures
        r is Ok,
        r->Ok_0@ == ParsedLineV::Line(spec_line_data(line@)),
{
    match LineData::from_str(line) {
        Ok(ld) => Ok(ParsedLine::Line(ld)),
        Err(err) => Err(err),
    }
}

impl ParsedLine {
    /// Classify one raw line: first as a choice, then as a gather, finally
    /// as a plain line.
    pub fn from_str(line: &str) -> (r: Result<ParsedLine, ParseError>)
        ensures
            match spec_parsed_line(line@) {
                Ok(p) => r is Ok && r->Ok_0@ == p,
                Err(e) => r is Err && r->Err_0@ == e,
            },
    {
        match parse_choice(line) {
            Some(res) => res,
            None => match parse_gather(line) {
                Some(res) => res,
                None => parse_line(line),
            },
        }
    }
}

} // verus!
