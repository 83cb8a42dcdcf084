//! General laws of the engine, stated and proved against the public
//! contracts' spec functions.

use vstd::prelude::*;

use crate::consts::{CHOICE_MARKER, GATHER_MARKER, GLUE_MARKER, STICKY_CHOICE_MARKER, TAG_MARKER};
use crate::error::{LineErrorV, ParseErrorV};
use crate::knot::{
    bump_choice, list_at, select_surviving, spec_follow, spec_knot_follow, spec_knot_resume,
    surviving, ChoiceNodeV, CursorV, FollowEndV, KnotV, NextV, NodeV,
};
use crate::line::{
    spec_line_data, spec_marker_parse, spec_parse_choice, spec_parse_gather, spec_parsed_line,
    ChoiceV, LineDataV, LineKindV, ParsedLineV,
};
use crate::story::{is_terminal, story_follow, story_run, ModeV, StoryEndV, StoryV};
use crate::text::{
    divert_from, is_space, lemma_divert_from, lemma_marker_split, lemma_skip_spaces, marker_split,
    skip_spaces, trim_start_pairs,
};

verus! {

/// A line that carries a divert always glues to what follows: the jump
/// target's first line continues the same output line.
pub proof fn lemma_divert_acts_as_glue(s: Seq<char>)
    ensures
        spec_line_data(s).kind is Divert ==> spec_line_data(s).glue_end,
{
}

/// Following a knot depends only on its content, never on where a previous
/// walk paused: revisiting a knot restarts it from its first line.
pub proof fn lemma_follow_restarts(k1: KnotV, k2: KnotV)
    requires
        k1.root == k2.root,
    ensures
        spec_knot_follow(k1).out == spec_knot_follow(k2).out,
        spec_knot_follow(k1).res == spec_knot_follow(k2).res,
        spec_knot_follow(k1).knot == spec_knot_follow(k2).knot,
{
}

/// A knot whose sole content diverts to a reserved terminal name finishes
/// the story, whichever of the two names it is.
pub proof fn lemma_terminal_divert(st: StoryV, l: LineDataV, target: Seq<char>)
    requires
        st.stack.len() >= 1,
        st.knots.dom().contains(st.stack.last()),
        st.knots[st.stack.last()].root == seq![NodeV::Line(l)],
        l.kind == LineKindV::Divert(target),
        is_terminal(target),
    ensures
        story_run(st, ModeV::Start).res == Ok::<StoryEndV, crate::error::FollowErrorV>(StoryEndV::Finished),
        story_run(st, ModeV::Start).out == seq![l],
{
    let name = st.stack.last();
    let k = st.knots[name];
    assert(list_at(k.root, Seq::<crate::knot::PathStep>::empty()) == k.root);
    assert(spec_follow(k.root).out =~= seq![l]);
    assert(spec_follow(k.root).end == FollowEndV::Divert(target));
}

/// Mixing the two kinds of choice markers at the start of a line always
/// fails to parse, with the mixed-marker error naming the line.
///
/// `e` bounds the line's leading marker region: every character before it
/// is a marker of either kind or whitespace, and both kinds appear.
pub proof fn lemma_mixed_choice_markers(s: Seq<char>, i: int, j: int, e: int)
    requires
        0 <= i < e,
        0 <= j < e,
        e <= s.len(),
        s[i] == CHOICE_MARKER,
        s[j] == STICKY_CHOICE_MARKER,
        forall|k: int| 0 <= k < e ==> s[k] == CHOICE_MARKER || s[k] == STICKY_CHOICE_MARKER
            || is_space(#[trigger] s[k]),
    ensures
        spec_parsed_line(s) == Err::<ParsedLineV, ParseErrorV>(
            ParseErrorV::LineError(LineErrorV::MultipleChoiceType { line: s }),
        ),
{
    lemma_skip_spaces(s, 0);
    let st = skip_spaces(s, 0);
    assert(st <= i && st <= j);
    assert(st < e);
    assert(s[st] == CHOICE_MARKER || s[st] == STICKY_CHOICE_MARKER);
    if s[st] == CHOICE_MARKER {
        lemma_marker_split(s, 0, CHOICE_MARKER);
        let sp = marker_split(s, 0, CHOICE_MARKER);
        assert(sp <= j);
        assert(s[sp] == STICKY_CHOICE_MARKER);
        assert(s.subrange(sp, s.len() as int)[0] == s[sp]);
        assert(spec_marker_parse(s, CHOICE_MARKER) is Some);
    } else {
        lemma_marker_split(s, 0, STICKY_CHOICE_MARKER);
        let sp = marker_split(s, 0, STICKY_CHOICE_MARKER);
        assert(sp <= i);
        assert(s[sp] == CHOICE_MARKER);
        assert(s.subrange(sp, s.len() as int)[0] == s[sp]);
        assert(spec_marker_parse(s, CHOICE_MARKER) is None);
        assert(spec_marker_parse(s, STICKY_CHOICE_MARKER) is Some);
    }
}

/// A line of bare choice markers, with no text after them, fails to parse:
/// a choice must have text to display.
pub proof fn lemma_bare_choice_marker(s: Seq<char>)
    requires
        forall|k: int| 0 <= k < s.len() ==> s[k] == CHOICE_MARKER || is_space(#[trigger] s[k]),
        exists|k: int| 0 <= k < s.len() && #[trigger] s[k] == CHOICE_MARKER,
    ensures
        spec_parsed_line(s) == Err::<ParsedLineV, ParseErrorV>(
            ParseErrorV::LineError(LineErrorV::NoDisplayText),
        ),
{
    lemma_skip_spaces(s, 0);
    let st = skip_spaces(s, 0);
    let w = choose|k: int| 0 <= k < s.len() && #[trigger] s[k] == CHOICE_MARKER;
    assert(st <= w);
    assert(s[st] == CHOICE_MARKER);
    lemma_marker_split(s, 0, CHOICE_MARKER);
    let sp = marker_split(s, 0, CHOICE_MARKER);
    assert(sp == s.len());
    assert(s.subrange(sp, s.len() as int) =~= Seq::<char>::empty());
}

/// A line of bare gather markers succeeds, as a gather whose own text is
/// empty and whose level counts the markers.
pub proof fn lemma_bare_gather_marker(s: Seq<char>)
    requires
        forall|k: int| 0 <= k < s.len() ==> s[k] == GATHER_MARKER || is_space(#[trigger] s[k]),
        exists|k: int| 0 <= k < s.len() && #[trigger] s[k] == GATHER_MARKER,
    ensures
        spec_parsed_line(s) is Ok,
        spec_parsed_line(s)->Ok_0 is Gather,
        spec_parsed_line(s)->Ok_0->Gather_line == (LineDataV {
            text: Seq::empty(),
            kind: LineKindV::Regular,
            tags: Seq::empty(),
            glue_start: false,
            glue_end: false,
        }),
{
    lemma_skip_spaces(s, 0);
    let st = skip_spaces(s, 0);
    let w = choose|k: int| 0 <= k < s.len() && #[trigger] s[k] == GATHER_MARKER;
    assert(st <= w);
    assert(s[st] == GATHER_MARKER);
    // not a choice of either kind
    assert(spec_marker_parse(s, CHOICE_MARKER) is None);
    assert(spec_marker_parse(s, STICKY_CHOICE_MARKER) is None);
    assert(spec_parse_choice(s) is None);
    // the leading-whitespace trim keeps only markers and spaces
    let t = crate::text::trim_start_spaces(s);
    crate::text::lemma_trim_start_spaces(s, st);
    assert(t == s.subrange(st, s.len() as int));
    assert(forall|k: int| 0 <= k < t.len() ==> t[k] == GATHER_MARKER || is_space(
        #[trigger] t[k],
    ));
    // no divert pair can hide among gather markers and spaces
    assert(trim_start_pairs(t) == t);
    assert(skip_spaces(t, 0) == 0) by {
        assert(t[0] == s[st]);
    }
    lemma_marker_split(t, 0, GATHER_MARKER);
    let sp = marker_split(t, 0, GATHER_MARKER);
    assert(sp == t.len());
    let rest = t.subrange(sp, t.len() as int);
    assert(rest =~= Seq::<char>::empty());
    assert(spec_marker_parse(t, GATHER_MARKER) is Some);
    // the empty rest parses to the empty line
    assert(crate::text::collapsed(rest) =~= Seq::<char>::empty());
    assert(spec_line_data(rest) == (LineDataV {
        text: Seq::<char>::empty(),
        kind: LineKindV::Regular,
        tags: Seq::<Seq<char>>::empty(),
        glue_start: false,
        glue_end: false,
    })) by {
        let w2 = crate::text::collapsed(rest);
        assert(w2.subrange(0, 0) =~= Seq::<char>::empty());
        assert(crate::text::trim_spaces(Seq::<char>::empty()) =~= Seq::<char>::empty());
    }
}

/// Whether a divert marker pair appears in `s` at or after `i`.
pub open spec fn has_divert_pair(s: Seq<char>, i: int) -> bool {
    exists|j: int| i <= j && j + 1 < s.len() && s[j] == '-' && #[trigger] s[j + 1] == '>'
}

/// The shape of collapsed text: its characters are separators or characters
/// of the source, it neither starts (once a separator is not owed) nor ends
/// with whitespace, and a divert pair in it comes from one in the source.
pub proof fn lemma_collapsed_shape(s: Seq<char>, i: int, st: bool, pd: bool)
    requires
        0 <= i <= s.len(),
    ensures
        ({
            let w = crate::text::collapsed_from(s, i, st, pd);
            &&& forall|k: int| 0 <= k < w.len() ==> (#[trigger] w[k] == ' ' || s.subrange(
                i,
                s.len() as int,
            ).contains(w[k]))
            &&& (!pd && !st && w.len() > 0 ==> !is_space(w[0]))
            &&& (pd && st && w.len() > 0 ==> w[0] == ' ')
            &&& (w.len() > 0 ==> !is_space(w.last()))
            &&& ((exists|k: int| 0 <= k < w.len() - 1 && w[k] == '-' && #[trigger] w[k + 1]
                == '>') ==> has_divert_pair(s, i))
        }),
    decreases s.len() - i,
{
    let w = crate::text::collapsed_from(s, i, st, pd);
    let seg = s.subrange(i, s.len() as int);
    if i >= s.len() {
    } else if is_space(s[i]) {
        lemma_collapsed_shape(s, i + 1, st, st);
        let w2 = crate::text::collapsed_from(s, i + 1, st, st);
        assert(w == w2);
        let seg2 = s.subrange(i + 1, s.len() as int);
        assert forall|k: int| 0 <= k < w.len() implies (#[trigger] w[k] == ' ' || seg.contains(
            w[k],
        )) by {
            if w[k] != ' ' {
                assert(seg2.contains(w[k]));
                let j = choose|j: int| 0 <= j < seg2.len() && seg2[j] == w[k];
                assert(seg[j + 1] == w[k]);
            }
        }
        if has_divert_pair(s, i + 1) {
            let j = choose|j: int| i + 1 <= j && j + 1 < s.len() && s[j] == '-' && #[trigger] s[j
                + 1] == '>';
            assert(has_divert_pair(s, i));
        }
    } else {
        lemma_collapsed_shape(s, i + 1, true, false);
        let rest = crate::text::collapsed_from(s, i + 1, true, false);
        let seg2 = s.subrange(i + 1, s.len() as int);
        let pre: Seq<char> = if pd {
            seq![' ', s[i]]
        } else {
            seq![s[i]]
        };
        assert(w == pre + rest);
        assert(seg[0] == s[i]);
        assert forall|k: int| 0 <= k < w.len() implies (#[trigger] w[k] == ' ' || seg.contains(
            w[k],
        )) by {
            if k < pre.len() {
                if w[k] != ' ' {
                    assert(w[k] == s[i]);
                    assert(seg.contains(w[k]));
                }
            } else {
                assert(w[k] == rest[k - pre.len()]);
                if w[k] != ' ' {
                    assert(seg2.contains(w[k]));
                    let j = choose|j: int| 0 <= j < seg2.len() && seg2[j] == w[k];
                    assert(seg[j + 1] == w[k]);
                }
            }
        }
        if rest.len() > 0 {
            assert(w.last() == rest.last());
        } else {
            assert(w.last() == s[i]);
        }
        // a pair within the collapsed text is adjacent in the source
        if exists|k: int| 0 <= k < w.len() - 1 && w[k] == '-' && #[trigger] w[k + 1] == '>' {
            let k = choose|k: int| 0 <= k < w.len() - 1 && w[k] == '-' && #[trigger] w[k + 1]
                == '>';
            if k + 1 < pre.len() {
                // within `pre`: the separator is a space, never a pair
                assert(false);
            } else if k == pre.len() - 1 {
                // the pair starts at this character and runs into the rest
                assert(w[k] == s[i]);
                assert(w[k + 1] == rest[0]);
                assert(rest[0] != ' ');
                // the next source character cannot be whitespace, or the
                // rest would begin with a separator or be shorter
                if i + 1 < s.len() && !is_space(s[i + 1]) {
                    assert(rest[0] == s[i + 1]);
                    assert(i + 1 < s.len() && s[i] == '-' && s[i + 1] == '>');
                    assert(has_divert_pair(s, i));
                } else if i + 1 >= s.len() {
                    assert(rest =~= Seq::<char>::empty());
                    assert(false);
                } else {
                    // s[i + 1] is whitespace: the rest starts with a
                    // separator
                    assert(crate::text::collapsed_from(s, i + 2, true, true) == rest);
                    lemma_collapsed_pending_head(s, i + 2);
                    assert(false);
                }
            } else {
                let k2 = k - pre.len();
                assert(w[k] == rest[k2]);
                assert(w[k + 1] == rest[k2 + 1]);
                assert(rest[k2] == '-' && rest[k2 + 1] == '>');
                assert(has_divert_pair(s, i + 1));
                let j = choose|j: int| i + 1 <= j && j + 1 < s.len() && s[j] == '-'
                    && #[trigger] s[j + 1] == '>';
                assert(has_divert_pair(s, i));
            }
        }
    }
}

/// Once a separator is owed, collapsed text begins with it.
pub proof fn lemma_collapsed_pending_head(s: Seq<char>, i: int)
    requires
        0 <= i <= s.len(),
    ensures
        ({
            let w = crate::text::collapsed_from(s, i, true, true);
            w.len() > 0 ==> w[0] == ' '
        }),
    decreases s.len() - i,
{
    if i < s.len() && is_space(s[i]) {
        lemma_collapsed_pending_head(s, i + 1);
    }
}

/// Parsing a line that carries no marker of any kind yields a plain line:
/// its text is the input trimmed and whitespace-collapsed, its kind is
/// regular, and it has no tags and no glue.
pub proof fn lemma_plain_line(s: Seq<char>)
    requires
        forall|i: int| 0 <= i < s.len() ==> #[trigger] s[i] != TAG_MARKER && s[i] != GLUE_MARKER,
        forall|i: int| 0 <= i < s.len() - 1 ==> !(#[trigger] s[i] == '-' && s[i + 1] == '>'),
        skip_spaces(s, 0) < s.len() ==> s[skip_spaces(s, 0)] != CHOICE_MARKER && s[skip_spaces(
            s,
            0,
        )] != STICKY_CHOICE_MARKER && s[skip_spaces(s, 0)] != GATHER_MARKER,
    ensures
        spec_parsed_line(s) == Ok::<ParsedLineV, ParseErrorV>(
            ParsedLineV::Line(
                LineDataV {
                    text: crate::text::collapsed(s),
                    kind: LineKindV::Regular,
                    tags: Seq::empty(),
                    glue_start: false,
                    glue_end: false,
                },
            ),
        ),
{
    lemma_skip_spaces(s, 0);
    let st = skip_spaces(s, 0);
    // no choice markers of either kind
    assert(spec_marker_parse(s, CHOICE_MARKER) is None);
    assert(spec_marker_parse(s, STICKY_CHOICE_MARKER) is None);
    assert(spec_parse_choice(s) is None);
    // no gather: after trimming leading whitespace there is no divert pair
    // to strip, and the first character is not the gather marker
    let t = crate::text::trim_start_spaces(s);
    crate::text::lemma_trim_start_spaces(s, st);
    assert(t == s.subrange(st, s.len() as int));
    assert(trim_start_pairs(t) == t) by {
        if t.len() >= 2 && t[0] == '-' && t[1] == '>' {
            assert(s[st] == '-' && s[st + 1] == '>');
            assert(false);
        }
    }
    if st < s.len() {
        assert(t[0] == s[st]);
        assert(skip_spaces(t, 0) == 0);
        assert(spec_marker_parse(t, GATHER_MARKER) is None);
    } else {
        assert(t =~= Seq::<char>::empty());
        assert(skip_spaces(t, 0) == 0);
        assert(spec_marker_parse(t, GATHER_MARKER) is None);
    }
    assert(spec_parse_gather(s) is None);
    // the plain parse: the collapsed text carries no tag marker, no divert
    // pair, no glue marker, and no whitespace at its ends
    lemma_collapsed_shape(s, 0, false, false);
    let w = crate::text::collapsed(s);
    let seg = s.subrange(0, s.len() as int);
    assert(seg =~= s);
    assert(forall|k: int| 0 <= k < w.len() ==> #[trigger] w[k] != TAG_MARKER) by {
        assert forall|k: int| 0 <= k < w.len() implies #[trigger] w[k] != TAG_MARKER by {
            if w[k] == TAG_MARKER {
                assert(seg.contains(w[k]));
            }
        }
    }
    crate::text::lemma_find_from(w, 0, TAG_MARKER);
    assert(crate::text::find_from(w, 0, TAG_MARKER) == w.len());
    let t1 = w.subrange(0, w.len() as int);
    assert(t1 =~= w);
    lemma_divert_from(t1, 0);
    assert(divert_from(t1, 0) == t1.len()) by {
        if divert_from(t1, 0) < t1.len() {
            let p = divert_from(t1, 0);
            assert(w[p] == '-' && w[p + 1] == '>');
            assert(has_divert_pair(s, 0));
        }
    }
    // collapsed text is already trimmed
    assert(crate::text::trim_spaces(w) == w) by {
        if w.len() > 0 {
            assert(!is_space(w[0]));
            assert(crate::text::trim_start_spaces(w) == w);
            assert(!is_space(w.last()));
            assert(crate::text::trim_end_spaces(w) == w);
        } else {
            assert(crate::text::trim_start_spaces(w) == w);
            assert(crate::text::trim_end_spaces(w) == w);
        }
    }
    // no glue markers at either end
    if w.len() > 0 {
        assert(w[0] != GLUE_MARKER) by {
            if w[0] == GLUE_MARKER {
                assert(seg.contains(w[0]));
            }
        }
        assert(w.last() != GLUE_MARKER) by {
            if w.last() == GLUE_MARKER {
                assert(seg.contains(w.last()));
            }
        }
    }
    assert(crate::line::spec_tags(w) =~= Seq::<Seq<char>>::empty());
    assert(spec_line_data(s).text =~= w);
}

/// Selecting a surviving choice steps exactly that choice's visit counter,
/// emits the choice's produced line — not its displayed one — first, and a
/// fresh non-sticky choice so taken is excluded from the set's next
/// presentation.
pub proof fn lemma_choice_resumption(k: KnotV, c0: ChoiceV, c1: ChoiceV, c2: ChoiceV)
    requires
        k.root == seq![
            NodeV::Choices(
                seq![
                    ChoiceNodeV { choice: c0, items: Seq::empty() },
                    ChoiceNodeV { choice: c1, items: Seq::empty() },
                    ChoiceNodeV { choice: c2, items: Seq::empty() },
                ],
            ),
        ],
        k.cursor == Some(CursorV { steps: Seq::empty(), set: 0 }),
        !c0.is_sticky && !c1.is_sticky && !c2.is_sticky,
        c0.num_visited == 0 && c1.num_visited == 0 && c2.num_visited == 0,
    ensures
        ({
            let step = spec_knot_resume(k, 1);
            let cs2 = step.knot.root[0]->Choices_0;
            &&& step.out.len() >= 1
            &&& step.out[0] == c1.line
            &&& cs2[0].choice == c0
            &&& cs2[1].choice == bump_choice(c1)
            &&& bump_choice(c1).num_visited == 1
            &&& cs2[2].choice == c2
            &&& surviving(cs2) == seq![c0, c2]
        }),
{
    let cs = seq![
        ChoiceNodeV { choice: c0, items: Seq::<NodeV>::empty() },
        ChoiceNodeV { choice: c1, items: Seq::<NodeV>::empty() },
        ChoiceNodeV { choice: c2, items: Seq::<NodeV>::empty() },
    ];
    assert(list_at(k.root, Seq::<crate::knot::PathStep>::empty()) == k.root);
    assert(cs.drop_first() =~= seq![
        ChoiceNodeV { choice: c1, items: Seq::<NodeV>::empty() },
        ChoiceNodeV { choice: c2, items: Seq::<NodeV>::empty() },
    ]);
    assert(cs.drop_first().drop_first() =~= seq![
        ChoiceNodeV { choice: c2, items: Seq::<NodeV>::empty() },
    ]);
    assert(cs.drop_first().drop_first().drop_first() =~= Seq::<ChoiceNodeV>::empty());
    assert(surviving(cs.drop_first().drop_first().drop_first()) =~= Seq::<ChoiceV>::empty());
    assert(surviving(cs.drop_first().drop_first()) =~= seq![c2]);
    assert(surviving(cs.drop_first()) =~= seq![c1, c2]);
    assert(surviving(cs) =~= seq![c0, c1, c2]);
    assert(select_surviving(cs.drop_first(), 0) == 0);
    assert(select_surviving(cs, 1) == 1);
    let step = spec_knot_resume(k, 1);
    let root2 = crate::knot::bump_tree(k.root, Seq::empty(), 0, 1);
    let bumped = ChoiceNodeV { choice: bump_choice(c1), items: Seq::<NodeV>::empty() };
    let cs2 = cs.update(1, bumped);
    assert(root2 == k.root.update(0, NodeV::Choices(cs2)));
    assert(step.knot.root == root2);
    assert(root2[0]->Choices_0 == cs2);
    assert(cs2[0].choice == c0 && cs2[1].choice == bump_choice(c1) && cs2[2].choice == c2);
    assert(cs2.drop_first() =~= seq![
        bumped,
        ChoiceNodeV { choice: c2, items: Seq::<NodeV>::empty() },
    ]);
    assert(cs2.drop_first().drop_first() =~= seq![
        ChoiceNodeV { choice: c2, items: Seq::<NodeV>::empty() },
    ]);
    assert(cs2.drop_first().drop_first().drop_first() =~= Seq::<ChoiceNodeV>::empty());
    assert(surviving(cs2.drop_first().drop_first().drop_first()) =~= Seq::<ChoiceV>::empty());
    assert(surviving(cs2.drop_first().drop_first()) =~= seq![c2]);
    assert(surviving(cs2.drop_first()) =~= seq![c2]);
    assert(surviving(cs2) =~= seq![c0, c2]);
}

/// Diverts are transparent to the reader: for a knot whose single line
/// diverts to a second knot holding one plain line, one follow emits the
/// diverting line and then the target's text, and the story finishes.
pub proof fn lemma_divert_round_trip(
    st: StoryV,
    a: Seq<char>,
    b: Seq<char>,
    la: LineDataV,
    lb: LineDataV,
)
    requires
        st.stack.len() >= 1,
        st.stack.last() == a,
        st.knots.dom().contains(a),
        st.knots.dom().contains(b),
        st.knots[a].root == seq![NodeV::Line(la)],
        st.knots[b].root == seq![NodeV::Line(lb)],
        la.kind == LineKindV::Divert(b),
        lb.kind == LineKindV::Regular,
        !is_terminal(b),
    ensures
        story_run(st, ModeV::Start).out == seq![la, lb],
        story_run(st, ModeV::Start).res == Ok::<StoryEndV, crate::error::FollowErrorV>(StoryEndV::Finished),
{
    assert(a != b);
    let empty_steps = Seq::<crate::knot::PathStep>::empty();
    let ka = st.knots[a];
    assert(list_at(ka.root, empty_steps) == ka.root);
    assert(spec_follow(ka.root).out =~= seq![la]);
    assert(spec_follow(ka.root).end == FollowEndV::Divert(b));
    let step_a = spec_knot_follow(ka);
    assert(step_a.res == Ok::<NextV, crate::error::FollowErrorV>(NextV::Divert(b)));
    let st1 = StoryV { knots: st.knots.insert(a, step_a.knot), stack: st.stack };
    let st2 = StoryV { knots: st1.knots, stack: st1.stack.update(st1.stack.len() - 1, b) };
    assert(st2.stack.last() == b);
    assert(st2.knots.dom().contains(b));
    assert(st2.knots[b] == st.knots[b]);
    let kb = st2.knots[b];
    assert(list_at(kb.root, empty_steps) == kb.root);
    assert(crate::knot::walk_from(kb.root, 1).out =~= Seq::<LineDataV>::empty());
    assert(spec_follow(kb.root).out =~= seq![lb]);
    assert(spec_follow(kb.root).end is Done);
    let step_b = spec_knot_follow(kb);
    assert(step_b.res == Ok::<NextV, crate::error::FollowErrorV>(NextV::Done));
    let fuel = (crate::consts::MAX_DIVERT_CHAIN - 1) as nat;
    assert(story_follow(st2, ModeV::Start, fuel).out == seq![lb]);
    assert(story_follow(st2, ModeV::Start, fuel).res == Ok::<
        StoryEndV,
        crate::error::FollowErrorV,
    >(StoryEndV::Finished));
    assert(story_run(st, ModeV::Start).out =~= seq![la, lb]);
}

} // verus!
