//! A knot: one named section of a story, as a traversable tree.
//!
//! The tree's nodes are plain lines and choice sets.  Each choice owns the
//! nested body that follows it; a gather closes open choice branches and
//! joins them back into the enclosing level.  A knot also keeps a cursor:
//! the choice set, if any, at which its traversal is paused.

use vstd::prelude::*;

use crate::builder::{build_nodes, b_run, Builder};
use crate::error::{FollowError, FollowErrorV, ParseError, ParseErrorV};
use crate::line::{
    spec_parsed_line, Choice, ChoiceV, LineData, LineDataV, LineKind, LineKindV, ParsedLine,
    ParsedLineV,
};
use crate::text::{
    chars_to_string, find_non_space, skip_spaces, split_char, split_char_vec, to_chars,
};

verus! {

broadcast use vstd::std_specs::vec::axiom_vec_index_decreases, vstd::std_specs::vec::axiom_vec_decreases_to_view;

/// A choice of a set, together with the nested body it owns.
#[derive(Debug)]
pub struct ChoiceNode {
    /// The choice itself.
    pub choice: Choice,
    /// The lines and nested choice sets that follow once it is taken.
    pub items: Vec<NodeItem>,
}

/// One node of a knot's tree.
#[derive(Debug)]
pub enum NodeItem {
    /// A plain line, possibly diverting elsewhere.
    Line(LineData),
    /// A set of choices presented together.
    Choices(Vec<ChoiceNode>),
}

/// Ghost mirror of [`ChoiceNode`].
#[verifier::ext_equal]
pub ghost struct ChoiceNodeV {
    pub choice: ChoiceV,
    pub items: Seq<NodeV>,
}

/// Ghost mirror of [`NodeItem`].
#[verifier::ext_equal]
pub ghost enum NodeV {
    Line(LineDataV),
    Choices(Seq<ChoiceNodeV>),
}

/// The model of one tree node.
pub open spec fn node_view(n: NodeItem) -> NodeV
    decreases n,
{
    match n {
        NodeItem::Line(l) => NodeV::Line(l@),
        NodeItem::Choices(cs) => NodeV::Choices(
            Seq::new(
                cs@.len(),
                |i: int|
                    if 0 <= i < cs@.len() {
                        choice_node_view(cs@[i])
                    } else {
                        arbitrary()
                    },
            ),
        ),
    }
}

/// The model of one choice node.
pub open spec fn choice_node_view(c: ChoiceNode) -> ChoiceNodeV
    decreases c,
{
    ChoiceNodeV {
        choice: c.choice@,
        items: Seq::new(
            c.items@.len(),
            |i: int|
                if 0 <= i < c.items@.len() {
                    node_view(c.items@[i])
                } else {
                    arbitrary()
                },
        ),
    }
}

/// The model of a list of tree nodes.
pub open spec fn nodes_view(items: Seq<NodeItem>) -> Seq<NodeV> {
    Seq::new(items.len(), |i: int| node_view(items[i]))
}

/// The model of a list of choice nodes.
pub open spec fn choice_nodes_view(cs: Seq<ChoiceNode>) -> Seq<ChoiceNodeV> {
    Seq::new(cs.len(), |i: int| choice_node_view(cs[i]))
}

/// One step of a cursor path: which item of the current list is the choice
/// set, and which of its choices was entered.
#[derive(Clone, Copy, Debug, PartialEq, Eq, Structural)]
pub struct PathStep {
    /// Index of the choice set within its node list.
    pub item: usize,
    /// Index of the entered choice within that set.
    pub choice: usize,
}

/// Where a knot's traversal is paused: the path of entered choices leading
/// to a node list, and the index of the pending choice set within it.
#[derive(Clone, Debug)]
pub struct KnotCursor {
    /// The choices entered so far, outermost first.
    pub steps: Vec<PathStep>,
    /// The index of the pending choice set in the reached list.
    pub set: usize,
}

/// Ghost mirror of [`KnotCursor`].
#[verifier::ext_equal]
pub ghost struct CursorV {
    pub steps: Seq<PathStep>,
    pub set: int,
}

impl View for KnotCursor {
    type V = CursorV;

    open spec fn view(&self) -> CursorV {
        CursorV { steps: self.steps@, set: self.set as int }
    }
}

// ---------------------------------------------------------------------------
// Paths into the tree.
// ---------------------------------------------------------------------------

/// Whether a path of entered choices resolves within the tree.
pub open spec fn wf_path(root: Seq<NodeV>, steps: Seq<PathStep>) -> bool
    decreases steps.len(),
{
    if steps.len() == 0 {
        true
    } else {
        let st = steps[0];
        &&& st.item < root.len()
        &&& root[st.item as int] is Choices
        &&& st.choice < root[st.item as int]->Choices_0.len()
        &&& wf_path(root[st.item as int]->Choices_0[st.choice as int].items, steps.drop_first())
    }
}

/// The node list reached by entering the given choices from the root.
pub open spec fn list_at(root: Seq<NodeV>, steps: Seq<PathStep>) -> Seq<NodeV>
    decreases steps.len(),
{
    if steps.len() == 0 {
        root
    } else {
        let st = steps[0];
        let ok = st.item < root.len() && root[st.item as int] is Choices
            && st.choice < root[st.item as int]->Choices_0.len();
        if ok {
            list_at(root[st.item as int]->Choices_0[st.choice as int].items, steps.drop_first())
        } else {
            Seq::empty()
        }
    }
}

/// A well-formed path stays well formed when its last step is dropped, and
/// the lists it passes through are the nested bodies it names.
pub proof fn lemma_wf_path_drop_last(root: Seq<NodeV>, steps: Seq<PathStep>)
    requires
        wf_path(root, steps),
        steps.len() > 0,
    ensures
        wf_path(root, steps.drop_last()),
        ({
            let parent = list_at(root, steps.drop_last());
            let last = steps.last();
            &&& last.item < parent.len()
            &&& parent[last.item as int] is Choices
            &&& last.choice < parent[last.item as int]->Choices_0.len()
            &&& list_at(root, steps) == parent[last.item as int]->Choices_0[
                last.choice as int
            ].items
        }),
    decreases steps.len(),
{
    let st = steps[0];
    let inner = root[st.item as int]->Choices_0[st.choice as int].items;
    if steps.len() == 1 {
        assert(steps.drop_last() =~= Seq::<PathStep>::empty());
        assert(steps.drop_first() =~= Seq::<PathStep>::empty());
        assert(list_at(root, Seq::<PathStep>::empty()) == root);
        assert(list_at(inner, Seq::<PathStep>::empty()) == inner);
    } else {
        lemma_wf_path_drop_last(inner, steps.drop_first());
        assert(steps.drop_first().drop_last() =~= steps.drop_last().drop_first());
        assert(steps.drop_first().last() == steps.last());
        assert(steps.drop_last()[0] == st);
        assert(steps.drop_last().len() > 0);
        assert(list_at(root, steps.drop_last()) == list_at(inner, steps.drop_last().drop_first()));
        assert(list_at(root, steps) == list_at(inner, steps.drop_first()));
    }
}

/// Extending a well-formed path by a valid step reaches the named body.
pub proof fn lemma_wf_path_push(root: Seq<NodeV>, steps: Seq<PathStep>, st: PathStep)
    requires
        wf_path(root, steps),
        st.item < list_at(root, steps).len(),
        list_at(root, steps)[st.item as int] is Choices,
        st.choice < list_at(root, steps)[st.item as int]->Choices_0.len(),
    ensures
        wf_path(root, steps.push(st)),
        list_at(root, steps.push(st)) == list_at(root, steps)[st.item as int]->Choices_0[
            st.choice as int
        ].items,
    decreases steps.len(),
{
    if steps.len() == 0 {
        assert(steps.push(st).drop_first() =~= Seq::<PathStep>::empty());
        assert(steps.push(st)[0] == st);
        let inner = root[st.item as int]->Choices_0[st.choice as int].items;
        assert(wf_path(inner, Seq::<PathStep>::empty()));
        assert(list_at(inner, Seq::<PathStep>::empty()) == inner);
        assert(list_at(root, Seq::<PathStep>::empty()) == root);
    } else {
        let hd = steps[0];
        let inner = root[hd.item as int]->Choices_0[hd.choice as int].items;
        lemma_wf_path_push(inner, steps.drop_first(), st);
        assert(steps.push(st).drop_first() =~= steps.drop_first().push(st));
        assert(steps.push(st)[0] == hd);
        assert(list_at(root, steps) == list_at(inner, steps.drop_first()));
        assert(list_at(root, steps.push(st)) == list_at(inner, steps.drop_first().push(st)));
    }
}

// ---------------------------------------------------------------------------
// Walking the tree.
// ---------------------------------------------------------------------------

/// Where walking one node list stops.
pub ghost enum WalkEndV {
    /// The list was exhausted.
    Off,
    /// A divert line was read; its target is carried.
    Divert(Seq<char>),
    /// A choice set was reached, at this index of the list.
    AtSet(int),
}

/// The lines emitted while walking one node list, and where the walk stops.
pub ghost struct WalkV {
    pub out: Seq<LineDataV>,
    pub end: WalkEndV,
}

/// Walk one node list from index `i`: emit each plain line until a divert
/// is read, a choice set is reached, or the list ends.
pub open spec fn walk_from(items: Seq<NodeV>, i: int) -> WalkV
    decreases items.len() - i,
{
    if i < 0 || i >= items.len() {
        WalkV { out: Seq::empty(), end: WalkEndV::Off }
    } else {
        match items[i] {
            NodeV::Choices(_) => WalkV { out: Seq::empty(), end: WalkEndV::AtSet(i) },
            NodeV::Line(l) => match l.kind {
                LineKindV::Divert(name) => WalkV { out: seq![l], end: WalkEndV::Divert(name) },
                LineKindV::Regular => {
                    let rest = walk_from(items, i + 1);
                    WalkV { out: seq![l] + rest.out, end: rest.end }
                },
            },
        }
    }
}

pub proof fn lemma_walk_from(items: Seq<NodeV>, i: int)
    ensures
        walk_from(items, i).end is AtSet ==> {
            let j = walk_from(items, i).end->AtSet_0;
            &&& i <= j < items.len()
            &&& items[j] is Choices
        },
    decreases items.len() - i,
{
    if 0 <= i < items.len() {
        lemma_walk_from(items, i + 1);
    }
}

/// Where a whole follow stops.
pub ghost enum FollowEndV {
    /// The story ran past the end of the knot.
    Done,
    /// A divert line was read.
    Divert(Seq<char>),
    /// A choice set was reached, at this cursor position.
    Choices(Seq<PathStep>, int),
}

/// The lines emitted by one follow, and where it stops.
pub ghost struct FollowV {
    pub out: Seq<LineDataV>,
    pub end: FollowEndV,
}

/// Walk the list named by `steps` from index `i`; when it is exhausted,
/// continue in the parent list just after the choice set that was entered,
/// all the way back to the root.
pub open spec fn resume_walk(root: Seq<NodeV>, steps: Seq<PathStep>, i: int) -> FollowV
    decreases steps.len(),
{
    let items = list_at(root, steps);
    let w = walk_from(items, i);
    match w.end {
        WalkEndV::Divert(n) => FollowV { out: w.out, end: FollowEndV::Divert(n) },
        WalkEndV::AtSet(j) => FollowV { out: w.out, end: FollowEndV::Choices(steps, j) },
        WalkEndV::Off => {
            if steps.len() == 0 {
                FollowV { out: w.out, end: FollowEndV::Done }
            } else {
                let last = steps.last();
                let rest = resume_walk(root, steps.drop_last(), last.item + 1);
                FollowV { out: w.out + rest.out, end: rest.end }
            }
        },
    }
}

/// A follow that stops at a choice set leaves a well-formed cursor.
pub proof fn lemma_resume_walk_wf(root: Seq<NodeV>, steps: Seq<PathStep>, i: int)
    requires
        wf_path(root, steps),
    ensures
        resume_walk(root, steps, i).end is Choices ==> {
            let end = resume_walk(root, steps, i).end;
            let csteps = end->Choices_0;
            let j = end->Choices_1;
            &&& wf_path(root, csteps)
            &&& 0 <= j < list_at(root, csteps).len()
            &&& list_at(root, csteps)[j] is Choices
        },
    decreases steps.len(),
{
    let items = list_at(root, steps);
    lemma_walk_from(items, i);
    let w = walk_from(items, i);
    if w.end is Off && steps.len() > 0 {
        lemma_wf_path_drop_last(root, steps);
        lemma_resume_walk_wf(root, steps.drop_last(), steps.last().item + 1);
    }
}

// ---------------------------------------------------------------------------
// Choice set filtering.
// ---------------------------------------------------------------------------

/// Whether a choice is still presentable: sticky choices always are,
/// others only while unvisited.
pub open spec fn keeps(c: ChoiceNodeV) -> bool {
    c.choice.is_sticky || c.choice.num_visited == 0
}

/// The surviving choices of a set, in declaration order.
pub open spec fn surviving(cs: Seq<ChoiceNodeV>) -> Seq<ChoiceV>
    decreases cs.len(),
{
    if cs.len() == 0 {
        Seq::empty()
    } else if keeps(cs[0]) {
        seq![cs[0].choice] + surviving(cs.drop_first())
    } else {
        surviving(cs.drop_first())
    }
}

/// The set index of the `n`-th surviving choice.
pub open spec fn select_surviving(cs: Seq<ChoiceNodeV>, n: int) -> int
    decreases cs.len(),
{
    if cs.len() == 0 {
        0
    } else if keeps(cs[0]) {
        if n == 0 {
            0
        } else {
            1 + select_surviving(cs.drop_first(), n - 1)
        }
    } else {
        1 + select_surviving(cs.drop_first(), n)
    }
}

pub proof fn lemma_select_surviving(cs: Seq<ChoiceNodeV>, n: int)
    requires
        0 <= n < surviving(cs).len(),
    ensures
        ({
            let k = select_surviving(cs, n);
            &&& 0 <= k < cs.len()
            &&& keeps(cs[k])
            &&& cs[k].choice == surviving(cs)[n]
        }),
    decreases cs.len(),
{
    if cs.len() > 0 {
        if keeps(cs[0]) {
            if n > 0 {
                lemma_select_surviving(cs.drop_first(), n - 1);
            }
        } else {
            lemma_select_surviving(cs.drop_first(), n);
        }
    }
}

/// The model of a vector of choices.
pub open spec fn choices_view(v: Seq<Choice>) -> Seq<ChoiceV> {
    Seq::new(v.len(), |i: int| v[i]@)
}

/// The model of a buffer of lines.
pub open spec fn lines_view(s: Seq<LineData>) -> Seq<LineDataV> {
    Seq::new(s.len(), |i: int| s[i]@)
}

/// A buffer's model splits at any position.
pub proof fn lemma_lines_view_parts(b: Seq<LineData>, n: int)
    requires
        0 <= n <= b.len(),
    ensures
        lines_view(b) == lines_view(b.subrange(0, n)) + lines_view(b.skip(n)),
{
    assert(lines_view(b) =~= lines_view(b.subrange(0, n)) + lines_view(b.skip(n)));
}

/// Appending to a buffer appends to its model past any cut point.
pub proof fn lemma_lines_view_skip_extend(
    b1: Seq<LineData>,
    b2: Seq<LineData>,
    n: int,
    add: Seq<LineDataV>,
)
    requires
        0 <= n <= b1.len(),
        b1.is_prefix_of(b2),
        lines_view(b2) == lines_view(b1) + add,
    ensures
        lines_view(b2.skip(n)) == lines_view(b1.skip(n)) + add,
{
    assert(lines_view(b2).len() == b2.len());
    assert(lines_view(b1).len() == b1.len());
    assert(b2.len() == b1.len() + add.len());
    assert(lines_view(b2.skip(n)) =~= lines_view(b1.skip(n)) + add) by {
        assert forall|k: int| 0 <= k < b2.skip(n).len() implies lines_view(b2.skip(n))[k] == (
        lines_view(b1.skip(n)) + add)[k] by {
            assert(lines_view(b2.skip(n))[k] == b2.skip(n)[k]@);
            assert(b2.skip(n)[k] == b2[n + k]);
            assert(lines_view(b2)[n + k] == b2[n + k]@);
            assert(lines_view(b2)[n + k] == (lines_view(b1) + add)[n + k]);
            if n + k < b1.len() {
                assert(lines_view(b1)[n + k] == b1[n + k]@);
                assert(lines_view(b1.skip(n))[k] == b1.skip(n)[k]@);
                assert(b1.skip(n)[k] == b1[n + k]);
            }
        }
    }
}

// ---------------------------------------------------------------------------
// The knot and its traversal.
// ---------------------------------------------------------------------------

/// The result of following a knot one step.
#[derive(Debug)]
pub enum Next {
    /// The knot, and with it the story path, ran to its end.
    Done,
    /// A divert to the named knot was read.
    Divert(String),
    /// The surviving choices of a reached set, for the user to resolve.
    ChoiceSet(Vec<Choice>),
}

/// Result from following the content of a knot.
pub type FollowResult = Result<Next, FollowError>;

/// A named section's content, as a tree, together with the traversal
/// cursor: the choice set, if any, awaiting the user's pick.
#[derive(Debug)]
pub struct Knot {
    /// The tree's top-level node list.
    pub root: Vec<NodeItem>,
    /// Where traversal is paused, when it is.
    pub cursor: Option<KnotCursor>,
}

/// Ghost mirror of [`Knot`].
#[verifier::ext_equal]
pub ghost struct KnotV {
    pub root: Seq<NodeV>,
    pub cursor: Option<CursorV>,
}

impl View for Knot {
    type V = KnotV;

    open spec fn view(&self) -> KnotV {
        KnotV {
            root: nodes_view(self.root@),
            cursor: match self.cursor {
                None => None,
                Some(c) => Some(c@),
            },
        }
    }
}

impl Knot {
    /// The knot's cursor, when set, points at a choice set of its tree.
    pub open spec fn wf(self) -> bool {
        match self.cursor {
            None => true,
            Some(c) => {
                let root = nodes_view(self.root@);
                &&& wf_path(root, c.steps@)
                &&& 0 <= c.set < list_at(root, c.steps@).len()
                &&& list_at(root, c.steps@)[c.set as int] is Choices
            },
        }
    }
}

/// The outcome of following a knot from its start.
pub open spec fn spec_follow(root: Seq<NodeV>) -> FollowV {
    resume_walk(root, Seq::empty(), 0)
}

/// Whether a raw line holds only whitespace.
pub open spec fn is_blank(s: Seq<char>) -> bool {
    skip_spaces(s, 0) == s.len()
}

/// The parsed lines of a knot body: blank lines are skipped, every other
/// line is classified, and the first line error wins.
pub open spec fn spec_parse_body(lines: Seq<Seq<char>>) -> Result<Seq<ParsedLineV>, ParseErrorV>
    decreases lines.len(),
{
    if lines.len() == 0 {
        Ok(Seq::empty())
    } else if is_blank(lines[0]) {
        spec_parse_body(lines.drop_first())
    } else {
        match spec_parsed_line(lines[0]) {
            Err(e) => Err(e),
            Ok(p) => match spec_parse_body(lines.drop_first()) {
                Err(e) => Err(e),
                Ok(rest) => Ok(seq![p] + rest),
            },
        }
    }
}

/// The tree of a knot parsed from its body text.
pub open spec fn spec_knot(text: Seq<char>) -> Result<Seq<NodeV>, ParseErrorV> {
    match spec_parse_body(split_char(text, '\n')) {
        Ok(ps) => Ok(build_nodes(ps)),
        Err(e) => Err(e),
    }
}

/// Ghost mirror of [`Next`].
#[verifier::ext_equal]
pub ghost enum NextV {
    Done,
    Divert(Seq<char>),
    ChoiceSet(Seq<ChoiceV>),
}

/// The model of a follow step's result.
pub open spec fn next_view(n: Next) -> NextV {
    match n {
        Next::Done => NextV::Done,
        Next::Divert(s) => NextV::Divert(s@),
        Next::ChoiceSet(v) => NextV::ChoiceSet(choices_view(v@)),
    }
}

/// The model of a follow result.
pub open spec fn result_view(r: FollowResult) -> Result<NextV, FollowErrorV> {
    match r {
        Ok(n) => Ok(next_view(n)),
        Err(e) => Err(e@),
    }
}

/// One follow step of a knot: the knot afterwards, the raw lines read, and
/// what the step returned.
#[verifier::ext_equal]
pub ghost struct KnotStepV {
    pub knot: KnotV,
    pub out: Seq<LineDataV>,
    pub res: Result<NextV, FollowErrorV>,
}

/// Following a knot from its beginning, as a function of its model.
pub open spec fn spec_knot_follow(k: KnotV) -> KnotStepV {
    let f = spec_follow(k.root);
    match f.end {
        FollowEndV::Done => KnotStepV {
            knot: KnotV { root: k.root, cursor: None },
            out: f.out,
            res: Ok(NextV::Done),
        },
        FollowEndV::Divert(n) => KnotStepV {
            knot: KnotV { root: k.root, cursor: None },
            out: f.out,
            res: Ok(NextV::Divert(n)),
        },
        FollowEndV::Choices(s, j) => {
            let sv = surviving(list_at(k.root, s)[j]->Choices_0);
            KnotStepV {
                knot: KnotV { root: k.root, cursor: Some(CursorV { steps: s, set: j }) },
                out: f.out,
                res: if sv.len() == 0 {
                    Err(FollowErrorV::NoSurvivingChoices)
                } else {
                    Ok(NextV::ChoiceSet(sv))
                },
            }
        },
    }
}

/// Resolving a knot's pending choice set with the surviving choice at
/// `index`, as a function of its model.
pub open spec fn spec_knot_resume(k: KnotV, index: int) -> KnotStepV {
    match k.cursor {
        None => KnotStepV {
            knot: k,
            out: Seq::empty(),
            res: Err(FollowErrorV::NotAtChoicePoint),
        },
        Some(c) => {
            let cs = list_at(k.root, c.steps)[c.set]->Choices_0;
            let sv = surviving(cs);
            if index >= sv.len() {
                KnotStepV {
                    knot: k,
                    out: Seq::empty(),
                    res: Err(FollowErrorV::InvalidChoiceIndex { index: index as usize }),
                }
            } else {
                let k2 = select_surviving(cs, index);
                let root2 = bump_tree(k.root, c.steps, c.set, k2);
                let chosen = cs[k2].choice;
                match chosen.line.kind {
                    LineKindV::Divert(n) => KnotStepV {
                        knot: KnotV { root: root2, cursor: None },
                        out: seq![chosen.line],
                        res: Ok(NextV::Divert(n)),
                    },
                    LineKindV::Regular => {
                        let step = PathStep { item: c.set as usize, choice: k2 as usize };
                        let f = resume_walk(root2, c.steps.push(step), 0);
                        let out = seq![chosen.line] + f.out;
                        match f.end {
                            FollowEndV::Done => KnotStepV {
                                knot: KnotV { root: root2, cursor: None },
                                out,
                                res: Ok(NextV::Done),
                            },
                            FollowEndV::Divert(n) => KnotStepV {
                                knot: KnotV { root: root2, cursor: None },
                                out,
                                res: Ok(NextV::Divert(n)),
                            },
                            FollowEndV::Choices(s, j) => {
                                let sv2 = surviving(list_at(root2, s)[j]->Choices_0);
                                KnotStepV {
                                    knot: KnotV {
                                        root: root2,
                                        cursor: Some(CursorV { steps: s, set: j }),
                                    },
                                    out,
                                    res: if sv2.len() == 0 {
                                        Err(FollowErrorV::NoSurvivingChoices)
                                    } else {
                                        Ok(NextV::ChoiceSet(sv2))
                                    },
                                }
                            },
                        }
                    },
                }
            }
        },
    }
}

/// Outcome of walking one node list, used internally.
enum WalkOutcome {
    Off,
    Divert(String),
    AtSet(usize),
}

/// Walk one node list from `start`, pushing each read line into `buffer`.
fn walk_list(items: &Vec<NodeItem>, start: usize, buffer: &mut Vec<LineData>) -> (r: WalkOutcome)
    requires
        start <= items@.len(),
    ensures
        old(buffer)@.is_prefix_of(final(buffer)@),
        ({
            let w = walk_from(nodes_view(items@), start as int);
            &&& lines_view(final(buffer)@) == lines_view(old(buffer)@) + w.out
            &&& match r {
                WalkOutcome::Off => w.end is Off,
                WalkOutcome::Divert(n) => w.end is Divert && n@ == w.end->Divert_0,
                WalkOutcome::AtSet(j) => w.end is AtSet && j as int == w.end->AtSet_0
                    && j < items@.len(),
            }
        }),
{
    let ghost v = nodes_view(items@);
    let ghost base = buffer@;
    let mut i: usize = start;
    loop
        invariant
            start <= i <= items@.len(),
            v == nodes_view(items@),
            base == old(buffer)@,
            base.is_prefix_of(buffer@),
            walk_from(v, start as int).out == lines_view(buffer@.skip(base.len() as int))
                + walk_from(v, i as int).out,
            walk_from(v, start as int).end == walk_from(v, i as int).end,
        decreases items@.len() - i,
    {
        if i == items.len() {
            proof {
                assert(lines_view(buffer@) =~= lines_view(base) + walk_from(v, start as int).out);
            }
            return WalkOutcome::Off;
        }
        let ghost prev = buffer@;
        match &items[i] {
            NodeItem::Choices(_) => {
                proof {
                    assert(walk_from(v, i as int).end == WalkEndV::AtSet(i as int));
                    assert(lines_view(buffer@) =~= lines_view(base) + walk_from(
                        v,
                        start as int,
                    ).out);
                }
                return WalkOutcome::AtSet(i);
            },
            NodeItem::Line(ld) => {
                let dup = ld.duplicate();
                buffer.push(dup);
                match &ld.kind {
                    LineKind::Divert(name) => {
                        proof {
                            assert(walk_from(v, i as int).out =~= seq![ld@]);
                            assert(lines_view(buffer@.skip(base.len() as int)) =~= lines_view(
                                prev.skip(base.len() as int),
                            ) + seq![ld@]);
                            assert(lines_view(buffer@) =~= lines_view(base) + walk_from(
                                v,
                                start as int,
                            ).out);
                        }
                        return WalkOutcome::Divert(name.clone());
                    },
                    LineKind::Regular => {
                        i = i + 1;
                        proof {
                            assert(lines_view(buffer@.skip(base.len() as int)) =~= lines_view(
                                prev.skip(base.len() as int),
                            ) + seq![ld@]);
                            assert(buffer@.subrange(0, base.len() as int) =~= base);
                            assert(walk_from(v, start as int).out =~= lines_view(buffer@.skip(
                                base.len() as int,
                            )) + walk_from(v, i as int).out);
                        }
                    },
                }
            },
        }
    }
}

/// The nested node list reached by following `steps` from position `d` on.
fn get_list<'a>(items: &'a Vec<NodeItem>, steps: &Vec<PathStep>, d: usize) -> (r: &'a Vec<
    NodeItem,
>)
    requires
        d <= steps@.len(),
        wf_path(nodes_view(items@), steps@.skip(d as int)),
    ensures
        nodes_view(r@) == list_at(nodes_view(items@), steps@.skip(d as int)),
    decreases steps@.len() - d,
{
    if d == steps.len() {
        proof {
            assert(steps@.skip(d as int) =~= Seq::<PathStep>::empty());
        }
        items
    } else {
        let st = steps[d];
        proof {
            assert(steps@.skip(d as int)[0] == st);
            assert(steps@.skip(d as int).drop_first() =~= steps@.skip(d as int + 1));
        }
        match &items[st.item] {
            NodeItem::Choices(cs) => {
                proof {
                    assert(node_view(items@[st.item as int])->Choices_0[st.choice as int].items
                        =~= nodes_view(cs@[st.choice as int].items@));
                }
                get_list(&cs[st.choice].items, steps, d + 1)
            },
            NodeItem::Line(_) => {
                proof {
                    assert(false);
                }
                items
            },
        }
    }
}

/// The surviving choices of a set, as fresh copies in declaration order.
fn surviving_choices(cs: &Vec<ChoiceNode>) -> (r: Vec<Choice>)
    ensures
        choices_view(r@) == surviving(choice_nodes_view(cs@)),
{
    let ghost csv = choice_nodes_view(cs@);
    let mut out: Vec<Choice> = Vec::new();
    let mut j: usize = 0;
    proof {
        assert(csv.skip(0) =~= csv);
        assert(choices_view(out@) + surviving(csv) =~= surviving(csv));
    }
    while j < cs.len()
        invariant
            j <= cs@.len(),
            csv == choice_nodes_view(cs@),
            surviving(csv) == choices_view(out@) + surviving(csv.skip(j as int)),
        decreases cs@.len() - j,
    {
        let ghost prev = out@;
        proof {
            assert(csv.skip(j as int)[0] == choice_node_view(cs@[j as int]));
            assert(csv.skip(j as int).drop_first() =~= csv.skip(j as int + 1));
        }
        let c = &cs[j];
        if c.choice.is_sticky || c.choice.num_visited == 0 {
            out.push(c.choice.duplicate());
            proof {
                assert(choices_view(out@) =~= choices_view(prev) + seq![cs@[j as int].choice@]);
            }
        }
        j = j + 1;
        proof {
            assert(choices_view(out@) + surviving(csv.skip(j as int)) =~= surviving(csv));
        }
    }
    proof {
        assert(csv.skip(cs@.len() as int) =~= Seq::<ChoiceNodeV>::empty());
        assert(choices_view(out@) + surviving(csv.skip(cs@.len() as int)) =~= choices_view(out@));
    }
    out
}

/// A choice with its visit counter stepped once; the counter saturates
/// rather than wrap around.
pub open spec fn bump_choice(c: ChoiceV) -> ChoiceV {
    ChoiceV {
        displayed: c.displayed,
        line: c.line,
        num_visited: if c.num_visited < u32::MAX {
            (c.num_visited + 1) as u32
        } else {
            c.num_visited
        },
        is_sticky: c.is_sticky,
    }
}

/// The tree with the visit counter stepped for choice `k` of the set at
/// index `set` of the list reached by `steps`.
pub open spec fn bump_tree(root: Seq<NodeV>, steps: Seq<PathStep>, set: int, k: int) -> Seq<NodeV>
    decreases steps.len(),
{
    if steps.len() == 0 {
        let cs = root[set]->Choices_0;
        let cn = cs[k];
        root.update(
            set,
            NodeV::Choices(
                cs.update(k, ChoiceNodeV { choice: bump_choice(cn.choice), items: cn.items }),
            ),
        )
    } else {
        let st = steps[0];
        let cs = root[st.item as int]->Choices_0;
        let cn = cs[st.choice as int];
        root.update(
            st.item as int,
            NodeV::Choices(
                cs.update(
                    st.choice as int,
                    ChoiceNodeV {
                        choice: cn.choice,
                        items: bump_tree(cn.items, steps.drop_first(), set, k),
                    },
                ),
            ),
        )
    }
}

/// Stepping a visit counter changes exactly one choice of one set: the
/// reached list keeps its shape, with the chosen branch's body unchanged.
pub proof fn lemma_bump_tree(root: Seq<NodeV>, steps: Seq<PathStep>, set: int, k: int)
    requires
        wf_path(root, steps),
        0 <= set < list_at(root, steps).len(),
        list_at(root, steps)[set] is Choices,
        0 <= k < list_at(root, steps)[set]->Choices_0.len(),
    ensures
        ({
            let r2 = bump_tree(root, steps, set, k);
            let cs = list_at(root, steps)[set]->Choices_0;
            &&& wf_path(r2, steps)
            &&& list_at(r2, steps) == list_at(root, steps).update(
                set,
                NodeV::Choices(
                    cs.update(
                        k,
                        ChoiceNodeV { choice: bump_choice(cs[k].choice), items: cs[k].items },
                    ),
                ),
            )
        }),
    decreases steps.len(),
{
    if steps.len() == 0 {
        let r2 = bump_tree(root, steps, set, k);
        assert(list_at(root, steps) == root);
        assert(list_at(r2, steps) == r2);
    } else {
        let st = steps[0];
        let inner = root[st.item as int]->Choices_0[st.choice as int].items;
        assert(list_at(root, steps) == list_at(inner, steps.drop_first()));
        lemma_bump_tree(inner, steps.drop_first(), set, k);
        let r2 = bump_tree(root, steps, set, k);
        assert(r2[st.item as int]->Choices_0[st.choice as int].items == bump_tree(
            inner,
            steps.drop_first(),
            set,
            k,
        ));
        assert(list_at(r2, steps) == list_at(
            bump_tree(inner, steps.drop_first(), set, k),
            steps.drop_first(),
        ));
    }
}

/// The set index of the `index`-th surviving choice of a set, when that
/// many choices survive.
fn find_surviving(cs: &Vec<ChoiceNode>, index: usize) -> (r: Option<usize>)
    ensures
        ({
            let csv = choice_nodes_view(cs@);
            let sv = surviving(csv);
            if (index as int) < sv.len() {
                r is Some && r->0 as int == select_surviving(csv, index as int)
                    && (r->0 as int) < cs@.len()
            } else {
                r is None
            }
        }),
{
    let ghost csv = choice_nodes_view(cs@);
    let mut j: usize = 0;
    let mut seen: usize = 0;
    proof {
        assert(csv.skip(0) =~= csv);
    }
    while j < cs.len()
        invariant
            j <= cs@.len(),
            seen <= index,
            csv == choice_nodes_view(cs@),
            ((index - seen) < surviving(csv.skip(j as int)).len()) <==> ((index as int)
                < surviving(csv).len()),
            (index as int) < surviving(csv).len() ==> select_surviving(csv, index as int) == j
                + select_surviving(csv.skip(j as int), index - seen),
        decreases cs@.len() - j,
    {
        proof {
            assert(csv.skip(j as int)[0] == choice_node_view(cs@[j as int]));
            assert(csv.skip(j as int).drop_first() =~= csv.skip(j as int + 1));
        }
        let c = &cs[j];
        if c.choice.is_sticky || c.choice.num_visited == 0 {
            if seen == index {
                return Some(j);
            }
            seen = seen + 1;
        }
        j = j + 1;
    }
    proof {
        assert(csv.skip(cs@.len() as int) =~= Seq::<ChoiceNodeV>::empty());
    }
    None
}

/// Step the visit counter of choice `k` of the set at index `set` in the
/// list reached by the path's tail from `d` on, and hand back a fresh copy
/// of that choice's produced line.
fn bump(items: &mut Vec<NodeItem>, steps: &Vec<PathStep>, d: usize, set: usize, k: usize) -> (line:
    LineData)
    requires
        d <= steps@.len(),
        wf_path(nodes_view(old(items)@), steps@.skip(d as int)),
        (set as int) < list_at(nodes_view(old(items)@), steps@.skip(d as int)).len(),
        list_at(nodes_view(old(items)@), steps@.skip(d as int))[set as int] is Choices,
        (k as int) < list_at(nodes_view(old(items)@), steps@.skip(d as int))[
            set as int
        ]->Choices_0.len(),
    ensures
        nodes_view(final(items)@) == bump_tree(
            nodes_view(old(items)@),
            steps@.skip(d as int),
            set as int,
            k as int,
        ),
        line@ == list_at(nodes_view(old(items)@), steps@.skip(d as int))[set as int]->Choices_0[
            k as int
        ].choice.line,
    decreases steps@.len() - d,
{
    let ghost v0 = nodes_view(items@);
    let ghost sfx = steps@.skip(d as int);
    if d == steps.len() {
        proof {
            assert(sfx =~= Seq::<PathStep>::empty());
            assert(list_at(v0, sfx) == v0);
        }
        let ghost pre = items@;
        let item = items.remove(set);
        match item {
            NodeItem::Choices(mut cs) => {
                proof {
                    assert(node_view(pre[set as int]) == v0[set as int]);
                    assert(v0[set as int]->Choices_0 =~= choice_nodes_view(cs@));
                }
                let ghost cs0 = cs@;
                let mut cn = cs.remove(k);
                let ghost cn0 = cn;
                if cn.choice.num_visited < u32::MAX {
                    cn.choice.num_visited = cn.choice.num_visited + 1;
                }
                let line = cn.choice.line.duplicate();
                proof {
                    assert(choice_node_view(cn).items =~= choice_node_view(cn0).items);
                    assert(choice_node_view(cn) == ChoiceNodeV {
                        choice: bump_choice(choice_node_view(cn0).choice),
                        items: choice_node_view(cn0).items,
                    });
                }
                cs.insert(k, cn);
                items.insert(set, NodeItem::Choices(cs));
                proof {
                    let csv = choice_nodes_view(cs0);
                    assert(cs@ =~= cs0.update(k as int, cn));
                    assert(choice_nodes_view(cs@) =~= csv.update(k as int, choice_node_view(cn)));
                    assert(node_view(items@[set as int])->Choices_0 =~= choice_nodes_view(cs@));
                    assert(items@ =~= pre.update(set as int, items@[set as int]));
                    assert(nodes_view(items@) =~= v0.update(
                        set as int,
                        node_view(items@[set as int]),
                    ));
                    assert(node_view(items@[set as int]) == NodeV::Choices(
                        csv.update(
                            k as int,
                            ChoiceNodeV {
                                choice: bump_choice(csv[k as int].choice),
                                items: csv[k as int].items,
                            },
                        ),
                    ));
                    assert(nodes_view(items@) == bump_tree(v0, sfx, set as int, k as int));
                }
                line
            },
            NodeItem::Line(l) => {
                proof {
                    assert(false);
                }
                items.insert(set, NodeItem::Line(l));
                LineData {
                    text: String::new(),
                    kind: LineKind::Regular,
                    tags: Vec::new(),
                    glue_start: false,
                    glue_end: false,
                }
            },
        }
    } else {
        let st = steps[d];
        proof {
            assert(sfx[0] == st);
            assert(sfx.drop_first() =~= steps@.skip(d as int + 1));
        }
        let ghost pre = items@;
        let item = items.remove(st.item);
        match item {
            NodeItem::Choices(mut cs) => {
                proof {
                    assert(node_view(pre[st.item as int]) == v0[st.item as int]);
                    assert(v0[st.item as int]->Choices_0 =~= choice_nodes_view(cs@));
                }
                let ghost cs0 = cs@;
                let mut cn = cs.remove(st.choice);
                let ghost cn0 = cn;
                proof {
                    assert(choice_node_view(cn0) == choice_nodes_view(cs0)[st.choice as int]);
                    assert(choice_node_view(cn0).items =~= nodes_view(cn0.items@));
                    assert(list_at(v0, sfx) == list_at(
                        nodes_view(cn0.items@),
                        steps@.skip(d as int + 1),
                    ));
                }
                let line = bump(&mut cn.items, steps, d + 1, set, k);
                proof {
                    assert(choice_node_view(cn).items =~= nodes_view(cn.items@));
                    assert(choice_node_view(cn) == ChoiceNodeV {
                        choice: choice_node_view(cn0).choice,
                        items: bump_tree(
                            nodes_view(cn0.items@),
                            steps@.skip(d as int + 1),
                            set as int,
                            k as int,
                        ),
                    });
                }
                cs.insert(st.choice, cn);
                items.insert(st.item, NodeItem::Choices(cs));
                proof {
                    let csv = choice_nodes_view(cs0);
                    assert(cs@ =~= cs0.update(st.choice as int, cn));
                    assert(choice_nodes_view(cs@) =~= csv.update(
                        st.choice as int,
                        choice_node_view(cn),
                    ));
                    assert(node_view(items@[st.item as int])->Choices_0 =~= choice_nodes_view(
                        cs@,
                    ));
                    assert(items@ =~= pre.update(st.item as int, items@[st.item as int]));
                    assert(nodes_view(items@) =~= v0.update(
                        st.item as int,
                        node_view(items@[st.item as int]),
                    ));
                    assert(node_view(items@[st.item as int]) == NodeV::Choices(
                        csv.update(
                            st.choice as int,
                            ChoiceNodeV {
                                choice: csv[st.choice as int].choice,
                                items: bump_tree(
                                    csv[st.choice as int].items,
                                    sfx.drop_first(),
                                    set as int,
                                    k as int,
                                ),
                            },
                        ),
                    ));
                    assert(nodes_view(items@) == bump_tree(v0, sfx, set as int, k as int));
                }
                line
            },
            NodeItem::Line(l) => {
                proof {
                    assert(false);
                }
                items.insert(st.item, NodeItem::Line(l));
                LineData {
                    text: String::new(),
                    kind: LineKind::Regular,
                    tags: Vec::new(),
                    glue_start: false,
                    glue_end: false,
                }
            },
        }
    }
}

impl Knot {
    /// Walk the list named by `steps` from `pos`, bubbling up through the
    /// entered choices when a list is exhausted; record where traversal
    /// pauses.
    #[verifier::loop_isolation(false)]
    fn run_walk(&mut self, steps: Vec<PathStep>, pos: usize, buffer: &mut Vec<LineData>) -> (r:
        FollowResult)
        requires
            wf_path(nodes_view(old(self).root@), steps@),
            pos <= list_at(nodes_view(old(self).root@), steps@).len(),
        ensures
            final(self).root == old(self).root,
            final(self).wf(),
            old(buffer)@.is_prefix_of(final(buffer)@),
            ({
                let root = nodes_view(old(self).root@);
                let f = resume_walk(root, steps@, pos as int);
                &&& lines_view(final(buffer)@) == lines_view(old(buffer)@) + f.out
                &&& match f.end {
                    FollowEndV::Done => r is Ok && r->Ok_0 is Done && final(self).cursor is None,
                    FollowEndV::Divert(n) => r is Ok && r->Ok_0 is Divert
                        && r->Ok_0->Divert_0@ == n && final(self).cursor is None,
                    FollowEndV::Choices(csteps, j) => {
                        let sv = surviving(list_at(root, csteps)[j]->Choices_0);
                        &&& final(self).cursor is Some
                        &&& final(self).cursor->0@ == (CursorV { steps: csteps, set: j })
                        &&& if sv.len() == 0 {
                            r is Err && r->Err_0 is NoSurvivingChoices
                        } else {
                            r is Ok && r->Ok_0 is ChoiceSet && choices_view(
                                r->Ok_0->ChoiceSet_0@,
                            ) == sv
                        }
                    },
                }
            }),
    {
        let ghost root = nodes_view(self.root@);
        let ghost base = buffer@;
        let ghost osteps = steps@;
        let ghost opos = pos as int;
        let mut steps = steps;
        let mut pos = pos;
        loop
            invariant
                self.root == old(self).root,
                root == nodes_view(self.root@),
                base == old(buffer)@,
                wf_path(root, steps@),
                pos <= list_at(root, steps@).len(),
                base.is_prefix_of(buffer@),
                resume_walk(root, osteps, opos).out == lines_view(
                    buffer@.skip(base.len() as int),
                ) + resume_walk(root, steps@, pos as int).out,
                resume_walk(root, osteps, opos).end == resume_walk(root, steps@, pos as int).end,
            decreases steps@.len(),
        {
            proof {
                assert(steps@.skip(0) =~= steps@);
            }
            let list = get_list(&self.root, &steps, 0);
            let ghost prev = buffer@;
            let outcome = walk_list(list, pos, buffer);
            proof {
                assert(nodes_view(list@) == list_at(root, steps@));
                assert(base.is_prefix_of(buffer@));
                lemma_lines_view_parts(prev, base.len() as int);
                lemma_lines_view_parts(buffer@, base.len() as int);
                assert(prev.subrange(0, base.len() as int) =~= base);
                assert(buffer@.subrange(0, base.len() as int) =~= base);
                let bl = base.len() as int;
                let w = walk_from(list_at(root, steps@), pos as int);
                assert(lines_view(buffer@).len() == buffer@.len());
                assert(lines_view(buffer@.skip(bl)) =~= lines_view(prev.skip(bl)) + w.out) by {
                    assert forall|k: int| 0 <= k < buffer@.skip(bl).len() implies lines_view(
                        buffer@.skip(bl),
                    )[k] == (lines_view(prev.skip(bl)) + w.out)[k] by {
                        assert(lines_view(buffer@)[bl + k] == buffer@[bl + k]@);
                        assert(lines_view(buffer@)[bl + k] == (lines_view(prev) + w.out)[bl + k]);
                        if bl + k < prev.len() {
                            assert(lines_view(prev)[bl + k] == prev[bl + k]@);
                            assert(lines_view(prev.skip(bl))[k] == prev.skip(bl)[k]@);
                        }
                    }
                }
            }
            match outcome {
                WalkOutcome::Divert(name) => {
                    proof {
                        let w = walk_from(list_at(root, steps@), pos as int);
                        assert(w.end is Divert && name@ == w.end->Divert_0);
                        assert(resume_walk(root, steps@, pos as int).end == FollowEndV::Divert(
                            name@,
                        ));
                        assert(resume_walk(root, steps@, pos as int).out == w.out);
                        assert(lines_view(buffer@) =~= lines_view(base) + resume_walk(
                            root,
                            osteps,
                            opos,
                        ).out);
                    }
                    self.cursor = None;
                    return Ok(Next::Divert(name));
                },
                WalkOutcome::AtSet(j) => {
                    proof {
                        lemma_walk_from(list_at(root, steps@), pos as int);
                        assert(lines_view(buffer@) =~= lines_view(base) + resume_walk(
                            root,
                            osteps,
                            opos,
                        ).out);
                        assert(node_view(list@[j as int]) == list_at(root, steps@)[j as int]);
                    }
                    let sv = match &list[j] {
                        NodeItem::Choices(cs) => {
                            proof {
                                assert(node_view(list@[j as int])->Choices_0
                                    =~= choice_nodes_view(cs@));
                            }
                            surviving_choices(cs)
                        },
                        NodeItem::Line(_) => {
                            proof {
                                assert(false);
                            }
                            Vec::new()
                        },
                    };
                    self.cursor = Some(KnotCursor { steps, set: j });
                    if sv.len() == 0 {
                        proof {
                            assert(surviving(
                                list_at(root, steps@)[j as int]->Choices_0,
                            ).len() == 0);
                        }
                        return Err(FollowError::NoSurvivingChoices);
                    }
                    return Ok(Next::ChoiceSet(sv));
                },
                WalkOutcome::Off => {
                    let ghost psteps = steps@;
                    match steps.pop() {
                        None => {
                            proof {
                                assert(lines_view(buffer@) =~= lines_view(base) + resume_walk(
                                    root,
                                    osteps,
                                    opos,
                                ).out);
                            }
                            self.cursor = None;
                            return Ok(Next::Done);
                        },
                        Some(st) => {
                            proof {
                                assert(steps@ =~= psteps.drop_last());
                                assert(st == psteps.last());
                                lemma_wf_path_drop_last(root, psteps);
                                assert(steps@.skip(0) =~= steps@);
                            }
                            let parent = get_list(&self.root, &steps, 0);
                            let pn = parent.len();
                            proof {
                                assert(list_at(root, steps@).len() == pn);
                                assert(st.item < pn);
                                assert(resume_walk(root, osteps, opos).out == lines_view(
                                    buffer@.skip(base.len() as int),
                                ) + resume_walk(root, steps@, st.item + 1).out);
                            }
                            pos = st.item + 1;
                        },
                    }
                },
            }
        }
    }

    /// Resolve the pending choice set with the choice at `index` among the
    /// surviving choices, then keep following from inside its branch.
    pub fn follow_with_choice(&mut self, index: usize, buffer: &mut Vec<LineData>) -> (r:
        FollowResult)
        requires
            old(self).wf(),
        ensures
            final(self).wf(),
            old(buffer)@.is_prefix_of(final(buffer)@),
            final(self)@ == spec_knot_resume(old(self)@, index as int).knot,
            lines_view(final(buffer)@) == lines_view(old(buffer)@) + spec_knot_resume(
                old(self)@,
                index as int,
            ).out,
            result_view(r) == spec_knot_resume(old(self)@, index as int).res,
            ({
                let root = nodes_view(old(self).root@);
                match old(self).cursor {
                    None => final(self).root == old(self).root && final(self).cursor is None
                        && final(buffer)@ == old(buffer)@ && r is Err
                        && r->Err_0 is NotAtChoicePoint,
                    Some(c) => {
                        let cs = list_at(root, c.steps@)[c.set as int]->Choices_0;
                        let sv = surviving(cs);
                        if index >= sv.len() {
                            &&& final(self).root == old(self).root
                            &&& final(self).cursor == old(self).cursor
                            &&& final(buffer)@ == old(buffer)@
                            &&& r is Err
                            &&& (r->Err_0@ matches FollowErrorV::InvalidChoiceIndex {
                                index: i,
                            } && i == index)
                        } else {
                            let k = select_surviving(cs, index as int);
                            let step = PathStep {
                                item: c.set,
                                choice: k as usize,
                            };
                            let root2 = bump_tree(root, c.steps@, c.set as int, k);
                            let chosen = cs[k].choice;
                            &&& nodes_view(final(self).root@) == root2
                            &&& match chosen.line.kind {
                                LineKindV::Divert(n) => {
                                    &&& lines_view(final(buffer)@) == lines_view(
                                        old(buffer)@,
                                    ).push(chosen.line)
                                    &&& r is Ok
                                    &&& r->Ok_0 is Divert
                                    &&& r->Ok_0->Divert_0@ == n
                                    &&& final(self).cursor is None
                                },
                                LineKindV::Regular => {
                                    let f = resume_walk(root2, c.steps@.push(step), 0);
                                    &&& lines_view(final(buffer)@) == lines_view(old(buffer)@)
                                        + seq![chosen.line] + f.out
                                    &&& match f.end {
                                        FollowEndV::Done => r is Ok && r->Ok_0 is Done
                                            && final(self).cursor is None,
                                        FollowEndV::Divert(n) => r is Ok && r->Ok_0 is Divert
                                            && r->Ok_0->Divert_0@ == n
                                            && final(self).cursor is None,
                                        FollowEndV::Choices(csteps, j) => {
                                            let sv2 = surviving(
                                                list_at(root2, csteps)[j]->Choices_0,
                                            );
                                            &&& final(self).cursor is Some
                                            &&& final(self).cursor->0@ == (CursorV {
                                                steps: csteps,
                                                set: j,
                                            })
                                            &&& if sv2.len() == 0 {
                                                r is Err && r->Err_0 is NoSurvivingChoices
                                            } else {
                                                r is Ok && r->Ok_0 is ChoiceSet && choices_view(
                                                    r->Ok_0->ChoiceSet_0@,
                                                ) == sv2
                                            }
                                        },
                                    }
                                },
                            }
                        }
                    },
                }
            }),
    {
        let ghost root = nodes_view(self.root@);
        let cur_opt = self.cursor.take();
        match cur_opt {
            None => Err(FollowError::NotAtChoicePoint),
            Some(cur) => {
                proof {
                    assert(cur.steps@.skip(0) =~= cur.steps@);
                }
                let list = get_list(&self.root, &cur.steps, 0);
                proof {
                    assert(node_view(list@[cur.set as int]) == list_at(root, cur.steps@)[
                        cur.set as int
                    ]);
                }
                let found: Option<usize> = match &list[cur.set] {
                    NodeItem::Choices(cs) => {
                        proof {
                            assert(node_view(list@[cur.set as int])->Choices_0
                                =~= choice_nodes_view(cs@));
                        }
                        find_surviving(cs, index)
                    },
                    NodeItem::Line(_) => {
                        proof {
                            assert(false);
                        }
                        None
                    },
                };
                match found {
                    None => {
                        self.cursor = Some(cur);
                        Err(FollowError::InvalidChoiceIndex { index })
                    },
                    Some(k) => {
                        let ghost csv = list_at(root, cur.steps@)[cur.set as int]->Choices_0;
                        proof {
                            lemma_select_surviving(csv, index as int);
                            lemma_bump_tree(root, cur.steps@, cur.set as int, k as int);
                        }
                        let line = bump(&mut self.root, &cur.steps, 0, cur.set, k);
                        let divert_target: Option<String> = match &line.kind {
                            LineKind::Divert(name) => Some(name.clone()),
                            LineKind::Regular => None,
                        };
                        let ghost mid = buffer@;
                        buffer.push(line);
                        proof {
                            assert(lines_view(buffer@) =~= lines_view(mid).push(csv[
                                k as int
                            ].choice.line));
                        }
                        match divert_target {
                            Some(n) => {
                                self.cursor = None;
                                Ok(Next::Divert(n))
                            },
                            None => {
                                let ghost root2 = bump_tree(
                                    root,
                                    cur.steps@,
                                    cur.set as int,
                                    k as int,
                                );
                                let mut steps2 = cur.steps;
                                let step = PathStep { item: cur.set, choice: k };
                                steps2.push(step);
                                proof {
                                    assert(steps2@ =~= cur.steps@.push(step));
                                    lemma_wf_path_push(root2, cur.steps@, step);
                                }
                                let ghost pre = buffer@;
                                let r = self.run_walk(steps2, 0, buffer);
                                proof {
                                    lemma_lines_view_parts(buffer@, pre.len() as int);
                                    assert(lines_view(buffer@) =~= lines_view(mid) + seq![csv[
                                        k as int
                                    ].choice.line] + resume_walk(root2, steps2@, 0).out);
                                }
                                r
                            },
                        }
                    },
                }
            },
        }
    }

    /// Parse a knot's body: split the text into lines, skip blank ones,
    /// classify each and build the tree of lines and choice sets.
    pub fn from_str(text: &str) -> (r: Result<Knot, ParseError>)
        ensures
            match spec_knot(text@) {
                Ok(nodes) => r is Ok && nodes_view(r->Ok_0.root@) == nodes
                    && r->Ok_0.cursor is None && r->Ok_0.wf(),
                Err(e) => r is Err && r->Err_0@ == e,
            },
    {
        let v = to_chars(text);
        let pieces = split_char_vec(&v, '\n');
        Knot::from_lines(&pieces)
    }

    /// Build a knot from its body's raw lines.
    #[verifier::loop_isolation(false)]
    pub fn from_lines(pieces: &Vec<Vec<char>>) -> (r: Result<Knot, ParseError>)
        ensures
            match spec_parse_body(pieces.deep_view()) {
                Ok(ps) => r is Ok && nodes_view(r->Ok_0.root@) == build_nodes(ps)
                    && r->Ok_0.cursor is None && r->Ok_0.wf(),
                Err(e) => r is Err && r->Err_0@ == e,
            },
    {
        let ghost all = pieces.deep_view();
        let mut b = Builder::new();
        let ghost mut ps = Seq::<ParsedLineV>::empty();
        let mut i: usize = 0;
        proof {
            assert(all.skip(0) =~= all);
            assert(ps + spec_parse_body(all)->Ok_0 =~= spec_parse_body(all)->Ok_0);
        }
        while i < pieces.len()
            invariant
                i <= pieces@.len(),
                all == pieces.deep_view(),
                b@ == b_run(ps),
                match spec_parse_body(all.skip(i as int)) {
                    Ok(rest) => spec_parse_body(all) == Ok::<_, ParseErrorV>(ps + rest),
                    Err(e) => spec_parse_body(all) == Err::<Seq<ParsedLineV>, _>(e),
                },
            decreases pieces@.len() - i,
        {
            let lv = &pieces[i];
            proof {
                assert(all.skip(i as int)[0] == pieces.deep_view()[i as int]);
                assert(pieces.deep_view()[i as int] == lv.deep_view());
                assert(lv.deep_view() =~= lv@);
                assert(all.skip(i as int).drop_first() =~= all.skip(i as int + 1));
            }
            let nsp = find_non_space(lv, 0);
            if nsp == lv.len() {
                i = i + 1;
            } else {
                let s = chars_to_string(lv);
                match ParsedLine::from_str(s.as_str()) {
                    Err(err) => {
                        return Err(err);
                    },
                    Ok(p) => {
                        let ghost pv = p@;
                        b.step(p);
                        proof {
                            assert(ps.push(pv).drop_last() =~= ps);
                            assert(ps.push(pv).last() == pv);
                            ps = ps.push(pv);
                            if spec_parse_body(all.skip(i as int + 1)) is Ok {
                                let rest = spec_parse_body(all.skip(i as int + 1))->Ok_0;
                                assert(ps + rest =~= ps.drop_last() + (seq![pv] + rest));
                            }
                        }
                        i = i + 1;
                    },
                }
            }
        }
        proof {
            assert(all.skip(pieces@.len() as int) =~= Seq::<Seq<char>>::empty());
            assert(ps + Seq::<ParsedLineV>::empty() =~= ps);
        }
        let root = b.finish();
        let knot = Knot { root, cursor: None };
        proof {
            assert(knot.wf());
        }
        Ok(knot)
    }

    /// Follow the knot from its beginning, reading lines into `buffer`
    /// until a divert is read, a choice set is reached or the content runs
    /// out.  Following always restarts at the knot's first node.
    pub fn follow(&mut self, buffer: &mut Vec<LineData>) -> (r: FollowResult)
        ensures
            final(self).root == old(self).root,
            final(self).wf(),
            old(buffer)@.is_prefix_of(final(buffer)@),
            final(self)@ == spec_knot_follow(old(self)@).knot,
            lines_view(final(buffer)@) == lines_view(old(buffer)@) + spec_knot_follow(
                old(self)@,
            ).out,
            result_view(r) == spec_knot_follow(old(self)@).res,
            ({
                let root = nodes_view(old(self).root@);
                let f = spec_follow(root);
                &&& lines_view(final(buffer)@) == lines_view(old(buffer)@) + f.out
                &&& match f.end {
                    FollowEndV::Done => r is Ok && r->Ok_0 is Done && final(self).cursor is None,
                    FollowEndV::Divert(n) => r is Ok && r->Ok_0 is Divert
                        && r->Ok_0->Divert_0@ == n && final(self).cursor is None,
                    FollowEndV::Choices(csteps, j) => {
                        let sv = surviving(list_at(root, csteps)[j]->Choices_0);
                        &&& final(self).cursor is Some
                        &&& final(self).cursor->0@ == (CursorV { steps: csteps, set: j })
                        &&& if sv.len() == 0 {
                            r is Err && r->Err_0 is NoSurvivingChoices
                        } else {
                            r is Ok && r->Ok_0 is ChoiceSet && choices_view(
                                r->Ok_0->ChoiceSet_0@,
                            ) == sv
                        }
                    },
                }
            }),
    {
        let steps: Vec<PathStep> = Vec::new();
        proof {
            assert(steps@ =~= Seq::<PathStep>::empty());
            assert(list_at(nodes_view(self.root@), steps@) == nodes_view(self.root@));
        }
        let r = self.run_walk(steps, 0, buffer);
        proof {
            let k0 = old(self)@;
            let f = spec_follow(k0.root);
            match f.end {
                FollowEndV::Done => {
                    assert(self@ =~~= spec_knot_follow(k0).knot);
                },
                FollowEndV::Divert(n) => {
                    assert(self@ =~~= spec_knot_follow(k0).knot);
                },
                FollowEndV::Choices(s, j) => {
                    assert(self@ =~~= spec_knot_follow(k0).knot);
                    let sv = surviving(list_at(k0.root, s)[j]->Choices_0);
                    if sv.len() > 0 {
                        assert(result_view(r) == spec_knot_follow(k0).res);
                    }
                },
            }
        }
        r
    }
}

} // verus!
