//! The story controller: the map from knot names to knots, the current
//! position, and the public operations that walk the story.
//!
//! Following resolves diverts internally: when a knot jumps to another, the
//! walk continues from the target's first line, until text runs out, a
//! terminal divert is read, or a choice must be made.  The raw lines read
//! during one call are processed into caller-visible lines, fusing glued
//! lines and appending a line break to every finished one.

use vstd::prelude::*;
use vstd::string::StringExecFns;

use crate::builder::build_nodes;
use crate::consts::{DONE_KNOT, END_KNOT, KNOT_MARKER, MAX_DIVERT_CHAIN};
use crate::error::{
    FollowError, FollowErrorV, KnotError, KnotErrorV, KnotNameError, ParseError, ParseErrorV,
};
use crate::knot::{
    choices_view, lemma_lines_view_parts, lemma_lines_view_skip_extend, lines_view,
    spec_knot_follow, spec_knot_resume, CursorV, FollowResult, Knot, KnotV, Next, NextV,
};
use crate::line::{Choice, ChoiceV, LineData, LineDataV};
use crate::text::{
    chars_to_string, find_non_space, is_space, is_space_char, lemma_skip_spaces, skip_spaces,
    split_char, split_char_vec, str_eq, subvec, to_chars, trim_spaces, trim_spaces_vec,
    trim_start_char, trim_start_char_vec,
};

verus! {

/// A single line of story output, ready to display.
#[derive(Clone, Debug)]
pub struct Line {
    /// Text content, ending in a line break once finished.
    pub text: String,
    /// Tags set on the line, in written order.
    pub tags: Vec<String>,
}

/// Ghost mirror of [`Line`].
#[verifier::ext_equal]
pub ghost struct LineV {
    pub text: Seq<char>,
    pub tags: Seq<Seq<char>>,
}

impl View for Line {
    type V = LineV;

    open spec fn view(&self) -> LineV {
        LineV { text: self.text@, tags: self.tags.deep_view() }
    }
}

/// A buffer of finished output lines.
pub type LineBuffer = Vec<Line>;

/// A buffer of raw lines read while following knots.
pub type LineDataBuffer = Vec<LineData>;

/// The model of a buffer of output lines.
pub open spec fn out_lines_view(s: Seq<Line>) -> Seq<LineV> {
    Seq::new(s.len(), |i: int| s[i]@)
}

// ---------------------------------------------------------------------------
// The output processor: glue fusion and line termination.
// ---------------------------------------------------------------------------

/// The raw lines fused at glue: a line joins the previous output line when
/// the previous raw line carries right glue or it carries left glue
/// itself; its tags follow its text.
pub open spec fn merged(lines: Seq<LineDataV>) -> Seq<LineV>
    decreases lines.len(),
{
    if lines.len() == 0 {
        Seq::empty()
    } else {
        let prev = merged(lines.drop_last());
        let cur = lines.last();
        if lines.len() >= 2 && (lines[lines.len() - 2].glue_end || cur.glue_start) {
            prev.update(
                prev.len() - 1,
                LineV { text: prev.last().text + cur.text, tags: prev.last().tags + cur.tags },
            )
        } else {
            prev.push(LineV { text: cur.text, tags: cur.tags })
        }
    }
}

pub proof fn lemma_merged_len(lines: Seq<LineDataV>)
    ensures
        lines.len() == 0 ==> merged(lines).len() == 0,
        lines.len() > 0 ==> merged(lines).len() >= 1,
    decreases lines.len(),
{
    if lines.len() > 0 {
        lemma_merged_len(lines.drop_last());
    }
}

/// The caller-visible lines made from one call's raw lines: glued lines
/// are fused, and every finished line gets a terminating line break.
pub open spec fn processed(lines: Seq<LineDataV>) -> Seq<LineV> {
    Seq::new(merged(lines).len(), |i: int| LineV {
        text: merged(lines)[i].text.push('\n'),
        tags: merged(lines)[i].tags,
    })
}

/// Append fresh copies of the given tags.
fn extend_tags(dst: &mut Vec<String>, src: &Vec<String>)
    ensures
        final(dst).deep_view() == old(dst).deep_view() + src.deep_view(),
{
    let mut i: usize = 0;
    while i < src.len()
        invariant
            i <= src@.len(),
            dst@.len() == old(dst)@.len() + i,
            forall|j: int| 0 <= j < old(dst)@.len() ==> #[trigger] dst@[j]@ == old(dst)@[j]@,
            forall|j: int| old(dst)@.len() <= j < dst@.len() ==> #[trigger] dst@[j]@ == src@[j
                - old(dst)@.len()]@,
        decreases src@.len() - i,
    {
        dst.push(src[i].clone());
        i = i + 1;
    }
    proof {
        assert(dst.deep_view() =~~= old(dst).deep_view() + src.deep_view());
    }
}

/// Process the raw lines read during one follow call into the
/// caller-supplied buffer of finished lines.  The buffer is appended to,
/// never cleared.
pub fn process_buffer(into_buffer: &mut LineBuffer, from_buffer: LineDataBuffer)
    ensures
        out_lines_view(final(into_buffer)@) == out_lines_view(old(into_buffer)@) + processed(
            lines_view(from_buffer@),
        ),
{
    let ghost fv = lines_view(from_buffer@);
    let mut temp: Vec<Line> = Vec::new();
    let mut i: usize = 0;
    proof {
        assert(fv.take(0) =~= Seq::<LineDataV>::empty());
        assert(out_lines_view(temp@) =~= merged(fv.take(0)));
    }
    while i < from_buffer.len()
        invariant
            i <= from_buffer@.len(),
            fv == lines_view(from_buffer@),
            out_lines_view(temp@) == merged(fv.take(i as int)),
        decreases from_buffer@.len() - i,
    {
        let ghost pre = out_lines_view(temp@);
        proof {
            assert(fv.take(i as int + 1).drop_last() =~= fv.take(i as int));
            assert(fv.take(i as int + 1).last() == fv[i as int]);
            if i > 0 {
                assert(fv.take(i as int + 1)[i as int - 1] == fv[i as int - 1]);
            }
            lemma_merged_len(fv.take(i as int));
        }
        let cur = from_buffer[i].duplicate();
        let glue = i > 0 && (from_buffer[i - 1].glue_end || cur.glue_start);
        if glue && temp.len() > 0 {
            let mut last = match temp.pop() {
                Some(l) => l,
                None => Line { text: String::new(), tags: Vec::new() },
            };
            let ghost last0 = last@;
            last.text.append(cur.text.as_str());
            extend_tags(&mut last.tags, &cur.tags);
            proof {
                assert(last@ =~~= (LineV {
                    text: last0.text + cur@.text,
                    tags: last0.tags + cur@.tags,
                }));
            }
            temp.push(last);
            proof {
                assert(out_lines_view(temp@) =~= pre.update(pre.len() - 1, last@));
                assert(out_lines_view(temp@) =~= merged(fv.take(i as int + 1)));
            }
        } else {
            let fresh = Line { text: cur.text, tags: cur.tags };
            proof {
                assert(fresh@ =~~= (LineV { text: fv[i as int].text, tags: fv[i as int].tags }));
            }
            temp.push(fresh);
            proof {
                assert(out_lines_view(temp@) =~= pre.push(
                    LineV { text: fv[i as int].text, tags: fv[i as int].tags },
                ));
                assert(out_lines_view(temp@) =~= merged(fv.take(i as int + 1)));
            }
        }
        i = i + 1;
    }
    proof {
        assert(fv.take(from_buffer@.len() as int) =~= fv);
    }
    // terminate each finished line and hand it over
    let mut j: usize = 0;
    let ghost base = into_buffer@;
    while j < temp.len()
        invariant
            j <= temp@.len(),
            out_lines_view(temp@) == merged(fv),
            base == old(into_buffer)@,
            out_lines_view(into_buffer@) == out_lines_view(base) + processed(fv).take(j as int),
        decreases temp@.len() - j,
    {
        let ghost preout = out_lines_view(into_buffer@);
        let src = &temp[j];
        let mut text = src.text.clone();
        text.append("\n");
        let mut tags: Vec<String> = Vec::new();
        extend_tags(&mut tags, &src.tags);
        let done = Line { text, tags };
        proof {
            reveal_strlit("\n");
            assert("\n"@ =~= seq!['\n']);
            assert(done@.text =~= temp@[j as int]@.text.push('\n'));
            assert(done@.tags =~~= temp@[j as int]@.tags);
            assert(done@ =~~= processed(fv)[j as int]);
        }
        into_buffer.push(done);
        proof {
            assert(processed(fv).take(j as int + 1) =~= processed(fv).take(j as int).push(
                processed(fv)[j as int],
            ));
            assert(out_lines_view(into_buffer@) =~= preout.push(processed(fv)[j as int]));
        }
        j = j + 1;
    }
    proof {
        assert(processed(fv).take(temp@.len() as int) =~= processed(fv));
    }
}

/// The lines presented for a set of surviving choices: each choice's
/// displayed text with its tags.
pub open spec fn prepared_choices(cs: Seq<ChoiceV>) -> Seq<LineV> {
    Seq::new(cs.len(), |i: int| LineV { text: cs[i].displayed.text, tags: cs[i].displayed.tags })
}

/// Turn the surviving choices of a set into presentable lines.
pub fn prepare_choices_for_user(choices: &Vec<Choice>) -> (r: Vec<Line>)
    ensures
        out_lines_view(r@) == prepared_choices(choices_view(choices@)),
{
    let mut out: Vec<Line> = Vec::new();
    let mut i: usize = 0;
    while i < choices.len()
        invariant
            i <= choices@.len(),
            out_lines_view(out@) == prepared_choices(choices_view(choices@)).take(i as int),
        decreases choices@.len() - i,
    {
        let ghost pre = out@;
        let d = choices[i].displayed.duplicate();
        let line = Line { text: d.text, tags: d.tags };
        proof {
            assert(line@ =~~= prepared_choices(choices_view(choices@))[i as int]);
        }
        out.push(line);
        proof {
            assert(out_lines_view(out@) =~= out_lines_view(pre).push(line@));
            assert(prepared_choices(choices_view(choices@)).take(i as int + 1) =~= prepared_choices(
                choices_view(choices@),
            ).take(i as int).push(prepared_choices(choices_view(choices@))[i as int]));
        }
        i = i + 1;
    }
    proof {
        assert(prepared_choices(choices_view(choices@)).take(choices@.len() as int)
            =~= prepared_choices(choices_view(choices@)));
    }
    out
}

// ---------------------------------------------------------------------------
// The story state and its model.
// ---------------------------------------------------------------------------

/// The model of a stack of knot names.
pub open spec fn strings_view(s: Seq<String>) -> Seq<Seq<char>> {
    Seq::new(s.len(), |i: int| s[i]@)
}

/// The model of the story's list of named knots.
pub open spec fn pairs_view(s: Seq<(String, Knot)>) -> Seq<(Seq<char>, KnotV)> {
    Seq::new(s.len(), |i: int| (s[i].0@, s[i].1@))
}

/// The mapping that a list of named knots denotes: a later entry with the
/// same name replaces an earlier one.
pub open spec fn pairs_map(ps: Seq<(Seq<char>, KnotV)>) -> Map<Seq<char>, KnotV>
    decreases ps.len(),
{
    if ps.len() == 0 {
        Map::empty()
    } else {
        pairs_map(ps.drop_last()).insert(ps.last().0, ps.last().1)
    }
}

pub proof fn lemma_pairs_map_found(ps: Seq<(Seq<char>, KnotV)>, i: int)
    requires
        0 <= i < ps.len(),
        forall|j: int| i < j < ps.len() ==> (#[trigger] ps[j]).0 != ps[i].0,
    ensures
        pairs_map(ps).dom().contains(ps[i].0),
        pairs_map(ps)[ps[i].0] == ps[i].1,
    decreases ps.len(),
{
    if i < ps.len() - 1 {
        lemma_pairs_map_found(ps.drop_last(), i);
    }
}

pub proof fn lemma_pairs_map_absent(ps: Seq<(Seq<char>, KnotV)>, name: Seq<char>)
    requires
        forall|j: int| 0 <= j < ps.len() ==> (#[trigger] ps[j]).0 != name,
    ensures
        !pairs_map(ps).dom().contains(name),
    decreases ps.len(),
{
    if ps.len() > 0 {
        lemma_pairs_map_absent(ps.drop_last(), name);
    }
}

pub proof fn lemma_pairs_map_update(ps: Seq<(Seq<char>, KnotV)>, i: int, kv: KnotV)
    requires
        0 <= i < ps.len(),
        forall|j: int| i < j < ps.len() ==> (#[trigger] ps[j]).0 != ps[i].0,
    ensures
        pairs_map(ps.update(i, (ps[i].0, kv))) == pairs_map(ps).insert(ps[i].0, kv),
    decreases ps.len(),
{
    let up = ps.update(i, (ps[i].0, kv));
    if i == ps.len() - 1 {
        assert(up.drop_last() =~= ps.drop_last());
        assert(pairs_map(up) =~= pairs_map(ps).insert(ps[i].0, kv));
    } else {
        assert(up.drop_last() =~= ps.drop_last().update(i, (ps[i].0, kv)));
        lemma_pairs_map_update(ps.drop_last(), i, kv);
        assert(up.last() == ps.last());
        assert(pairs_map(up) =~= pairs_map(ps).insert(ps[i].0, kv));
    }
}

/// The model of a story: the knot mapping and the name stack whose last
/// entry is the active knot.
#[verifier::ext_equal]
pub ghost struct StoryV {
    pub knots: Map<Seq<char>, KnotV>,
    pub stack: Seq<Seq<char>>,
}

/// Story with knots, diverts, choices and possibly lots of text.
#[derive(Debug)]
pub struct Story {
    /// The named knots, in the order they were read.
    pub knots: Vec<(String, Knot)>,
    /// The navigation context; the active knot's name is the last entry.
    pub stack: Vec<String>,
}

impl View for Story {
    type V = StoryV;

    open spec fn view(&self) -> StoryV {
        StoryV { knots: pairs_map(pairs_view(self.knots@)), stack: strings_view(self.stack@) }
    }
}

impl Story {
    /// A story always has an active knot name, and each knot's cursor is
    /// sound.
    pub open spec fn wf(self) -> bool {
        &&& self.stack@.len() >= 1
        &&& forall|i: int| 0 <= i < self.knots@.len() ==> (#[trigger] self.knots@[i]).1.wf()
    }

    /// A story from already-built knots, entered at the named root knot.
    pub fn new(knots: Vec<(String, Knot)>, root: String) -> (r: Story)
        requires
            forall|i: int| 0 <= i < knots@.len() ==> (#[trigger] knots@[i]).1.wf(),
        ensures
            r@ == (StoryV { knots: pairs_map(pairs_view(knots@)), stack: seq![root@] }),
            r.wf(),
    {
        let s = Story { knots, stack: vec![root] };
        proof {
            assert(strings_view(s.stack@) =~= seq![root@]);
            assert(s@ =~~= (StoryV {
                knots: pairs_map(pairs_view(s.knots@)),
                stack: seq![root@],
            }));
        }
        s
    }

    /// Make the named knot current, clearing any nested context.
    pub fn set_current_knot(&mut self, name: String)
        requires
            old(self).wf(),
        ensures
            final(self).wf(),
            final(self)@ == (StoryV { knots: old(self)@.knots, stack: seq![name@] }),
    {
        self.stack = vec![name];
        proof {
            assert(strings_view(self.stack@) =~= seq![name@]);
            assert(self@ =~~= (StoryV { knots: old(self)@.knots, stack: seq![name@] }));
        }
    }
}

// ---------------------------------------------------------------------------
// Following the story.
// ---------------------------------------------------------------------------

/// Whether a divert target is one of the reserved names that end the story.
pub open spec fn is_terminal(name: Seq<char>) -> bool {
    name == DONE_KNOT@ || name == END_KNOT@
}

/// How one follow call enters the current knot: from its start, or by
/// resolving its pending choice set.
#[derive(Clone, Copy, Debug)]
pub enum FollowMode {
    /// Follow the active knot from its beginning.
    Start,
    /// Resolve the pending choice set with this index among the surviving
    /// choices.
    WithChoice(usize),
}

/// Ghost mirror of [`FollowMode`].
#[verifier::ext_equal]
pub ghost enum ModeV {
    Start,
    Resume(int),
}

/// The model of a follow mode.
pub open spec fn mode_view(m: FollowMode) -> ModeV {
    match m {
        FollowMode::Start => ModeV::Start,
        FollowMode::WithChoice(i) => ModeV::Resume(i as int),
    }
}

/// Where one story-level follow stops.
#[verifier::ext_equal]
pub ghost enum StoryEndV {
    /// The story reached an end.
    Finished,
    /// A choice set's surviving choices await the user.
    Choices(Seq<ChoiceV>),
}

/// One story-level follow: the story afterwards, the raw lines read, and
/// how it stopped.
#[verifier::ext_equal]
pub ghost struct StoryRunV {
    pub story: StoryV,
    pub out: Seq<LineDataV>,
    pub res: Result<StoryEndV, FollowErrorV>,
}

/// Follow the active knot, then chase diverts — each one re-enters its
/// target knot from the beginning — until text runs out, a terminal divert
/// is read, a choice set is reached, or the fuel for divert chains is
/// spent.
pub open spec fn story_follow(st: StoryV, mode: ModeV, fuel: nat) -> StoryRunV
    decreases fuel,
{
    let name = st.stack.last();
    if !st.knots.dom().contains(name) {
        StoryRunV {
            story: st,
            out: Seq::empty(),
            res: Err(FollowErrorV::UnknownKnot { name }),
        }
    } else {
        let step = match mode {
            ModeV::Start => spec_knot_follow(st.knots[name]),
            ModeV::Resume(i) => spec_knot_resume(st.knots[name], i),
        };
        let st1 = StoryV { knots: st.knots.insert(name, step.knot), stack: st.stack };
        match step.res {
            Err(e) => StoryRunV { story: st1, out: step.out, res: Err(e) },
            Ok(NextV::Done) => StoryRunV {
                story: st1,
                out: step.out,
                res: Ok(StoryEndV::Finished),
            },
            Ok(NextV::ChoiceSet(sv)) => StoryRunV {
                story: st1,
                out: step.out,
                res: Ok(StoryEndV::Choices(sv)),
            },
            Ok(NextV::Divert(to)) => {
                if is_terminal(to) {
                    StoryRunV { story: st1, out: step.out, res: Ok(StoryEndV::Finished) }
                } else {
                    let st2 = StoryV {
                        knots: st1.knots,
                        stack: st1.stack.update(st1.stack.len() - 1, to),
                    };
                    if fuel == 0 {
                        StoryRunV {
                            story: st2,
                            out: step.out,
                            res: Err(FollowErrorV::TooManyDiverts),
                        }
                    } else {
                        let rest = story_follow(st2, ModeV::Start, (fuel - 1) as nat);
                        StoryRunV { story: rest.story, out: step.out + rest.out, res: rest.res }
                    }
                }
            },
        }
    }
}

/// One public follow call: the divert-chasing walk with the full fuel
/// budget.
pub open spec fn story_run(st: StoryV, mode: ModeV) -> StoryRunV {
    story_follow(st, mode, MAX_DIVERT_CHAIN as nat)
}

impl Story {
    /// The position of the name's governing entry (its last occurrence).
    fn lookup(knots: &Vec<(String, Knot)>, name: &str) -> (r: Option<usize>)
        ensures
            match r {
                Some(i) => i < knots@.len() && knots@[i as int].0@ == name@ && pairs_map(
                    pairs_view(knots@),
                ).dom().contains(name@) && pairs_map(pairs_view(knots@))[name@] == knots@[
                    i as int
                ].1@ && (forall|j: int|
                    i < j < knots@.len() ==> (#[trigger] pairs_view(knots@)[j]).0 != name@),
                None => !pairs_map(pairs_view(knots@)).dom().contains(name@),
            },
    {
        let mut i: usize = knots.len();
        while i > 0
            invariant
                i <= knots@.len(),
                forall|j: int| i <= j < knots@.len() ==> (#[trigger] pairs_view(knots@)[j]).0
                    != name@,
            decreases i,
        {
            i = i - 1;
            if str_eq(knots[i].0.as_str(), name) {
                proof {
                    lemma_pairs_map_found(pairs_view(knots@), i as int);
                }
                return Some(i);
            }
            proof {
                assert(pairs_view(knots@)[i as int].0 == knots@[i as int].0@);
            }
        }
        proof {
            lemma_pairs_map_absent(pairs_view(knots@), name@);
        }
        None
    }

    /// Follow the active knot and chase diverts until the story pauses:
    /// diverts to the reserved terminal names finish the story, others
    /// re-enter their target knot from its beginning.
    #[verifier::loop_isolation(false)]
    #[verifier::rlimit(60)]
    pub fn follow_on_knot_wrapper(&mut self, mode: FollowMode, buffer: &mut LineDataBuffer) -> (r:
        FollowResult)
        requires
            old(self).wf(),
        ensures
            final(self).wf(),
            old(buffer)@.is_prefix_of(final(buffer)@),
            ({
                let run = story_run(old(self)@, mode_view(mode));
                &&& final(self)@ == run.story
                &&& lines_view(final(buffer)@) == lines_view(old(buffer)@) + run.out
                &&& match run.res {
                    Ok(StoryEndV::Finished) => r is Ok && r->Ok_0 is Done,
                    Ok(StoryEndV::Choices(sv)) => r is Ok && r->Ok_0 is ChoiceSet
                        && choices_view(r->Ok_0->ChoiceSet_0@) == sv,
                    Err(e) => r is Err && r->Err_0@ == e,
                }
            }),
    {
        let ghost st0 = self@;
        let ghost base = buffer@;
        let mut fuel: usize = MAX_DIVERT_CHAIN;
        let mut m = mode;
        loop
            invariant
                self.wf(),
                base.is_prefix_of(buffer@),
                fuel <= MAX_DIVERT_CHAIN,
                story_run(st0, mode_view(mode)).story == story_follow(
                    self@,
                    mode_view(m),
                    fuel as nat,
                ).story,
                story_run(st0, mode_view(mode)).res == story_follow(
                    self@,
                    mode_view(m),
                    fuel as nat,
                ).res,
                story_run(st0, mode_view(mode)).out == lines_view(buffer@.skip(base.len() as int))
                    + story_follow(self@, mode_view(m), fuel as nat).out,
            decreases fuel,
        {
            let ghost stc = self@;
            let last_i = self.stack.len() - 1;
            let name = self.stack[last_i].clone();
            proof {
                assert(strings_view(self.stack@).last() == name@);
            }
            match Self::lookup(&self.knots, name.as_str()) {
                None => {
                    return Err(FollowError::UnknownKnot { name });
                },
                Some(i) => {
                    let ghost pre_pairs = pairs_view(self.knots@);
                    let ghost prevbuf = buffer@;
                    let (nm, mut kn) = self.knots.remove(i);
                    let ghost k0 = kn@;
                    proof {
                        assert(k0 == stc.knots[name@]);
                        assert(kn.wf());
                    }
                    let step_result = match m {
                        FollowMode::Start => kn.follow(buffer),
                        FollowMode::WithChoice(ci) => kn.follow_with_choice(ci, buffer),
                    };
                    let ghost step = match mode_view(m) {
                        ModeV::Start => spec_knot_follow(k0),
                        ModeV::Resume(ci) => spec_knot_resume(k0, ci),
                    };
                    let ghost kn2 = kn@;
                    self.knots.insert(i, (nm, kn));
                    proof {
                        assert(pairs_view(self.knots@) =~= pre_pairs.update(
                            i as int,
                            (name@, kn2),
                        ));
                        lemma_pairs_map_update(pre_pairs, i as int, kn2);
                        assert(self@.knots == stc.knots.insert(name@, step.knot));
                        assert(self@.stack =~= stc.stack);
                        assert(self.wf());
                        assert(base.is_prefix_of(buffer@)) by {
                            assert(buffer@.subrange(0, base.len() as int) =~= prevbuf.subrange(
                                0,
                                base.len() as int,
                            ));
                        }
                        lemma_lines_view_skip_extend(prevbuf, buffer@, base.len() as int, step.out);
                        lemma_lines_view_parts(buffer@, base.len() as int);
                        assert(lines_view(buffer@) =~= lines_view(base) + lines_view(buffer@.skip(
                            base.len() as int,
                        )));
                    }
                    match step_result {
                        Err(e) => {
                            return Err(e);
                        },
                        Ok(Next::Done) => {
                            return Ok(Next::Done);
                        },
                        Ok(Next::ChoiceSet(cs)) => {
                            proof {
                                assert(step.res is Ok && step.res->Ok_0 is ChoiceSet);
                            }
                            return Ok(Next::ChoiceSet(cs));
                        },
                        Ok(Next::Divert(to)) => {
                            proof {
                                assert(step.res == Ok::<NextV, FollowErrorV>(
                                    NextV::Divert(to@),
                                ));
                            }
                            if str_eq(to.as_str(), DONE_KNOT) || str_eq(to.as_str(), END_KNOT) {
                                return Ok(Next::Done);
                            }
                            let ghost pre_stack = strings_view(self.stack@);
                            let _ = self.stack.pop();
                            self.stack.push(to);
                            proof {
                                assert(strings_view(self.stack@) =~= pre_stack.update(
                                    pre_stack.len() - 1,
                                    strings_view(self.stack@).last(),
                                ));
                            }
                            m = FollowMode::Start;
                            if fuel == 0 {
                                return Err(FollowError::TooManyDiverts);
                            }
                            fuel = fuel - 1;
                        },
                    }
                },
            }
        }
    }

    /// Follow the active knot from its beginning, chasing diverts.
    pub fn follow_knot(&mut self, line_buffer: &mut LineDataBuffer) -> (r: FollowResult)
        requires
            old(self).wf(),
        ensures
            final(self).wf(),
            old(line_buffer)@.is_prefix_of(final(line_buffer)@),
            ({
                let run = story_run(old(self)@, ModeV::Start);
                &&& final(self)@ == run.story
                &&& lines_view(final(line_buffer)@) == lines_view(old(line_buffer)@) + run.out
                &&& match run.res {
                    Ok(StoryEndV::Finished) => r is Ok && r->Ok_0 is Done,
                    Ok(StoryEndV::Choices(sv)) => r is Ok && r->Ok_0 is ChoiceSet
                        && choices_view(r->Ok_0->ChoiceSet_0@) == sv,
                    Err(e) => r is Err && r->Err_0@ == e,
                }
            }),
    {
        self.follow_on_knot_wrapper(FollowMode::Start, line_buffer)
    }

    /// Resolve the pending choice set with the given surviving-choice
    /// index, then keep following as `follow_knot` does.
    pub fn follow_knot_with_choice(
        &mut self,
        choice_index: usize,
        line_buffer: &mut LineDataBuffer,
    ) -> (r: FollowResult)
        requires
            old(self).wf(),
        ensures
            final(self).wf(),
            old(line_buffer)@.is_prefix_of(final(line_buffer)@),
            ({
                let run = story_run(old(self)@, ModeV::Resume(choice_index as int));
                &&& final(self)@ == run.story
                &&& lines_view(final(line_buffer)@) == lines_view(old(line_buffer)@) + run.out
                &&& match run.res {
                    Ok(StoryEndV::Finished) => r is Ok && r->Ok_0 is Done,
                    Ok(StoryEndV::Choices(sv)) => r is Ok && r->Ok_0 is ChoiceSet
                        && choices_view(r->Ok_0->ChoiceSet_0@) == sv,
                    Err(e) => r is Err && r->Err_0@ == e,
                }
            }),
    {
        self.follow_on_knot_wrapper(FollowMode::WithChoice(choice_index), line_buffer)
    }

    /// Common behaviour of `start` and `resume_with_choice`: read raw lines
    /// into an internal buffer, process them into the caller's buffer, and
    /// shape the outcome.  On an error nothing is written to the caller's
    /// buffer.
    pub fn follow_story_wrapper(&mut self, mode: FollowMode, line_buffer: &mut LineBuffer) -> (r:
        Result<StoryAction, FollowError>)
        requires
            old(self).wf(),
        ensures
            final(self).wf(),
            ({
                let run = story_run(old(self)@, mode_view(mode));
                &&& final(self)@ == run.story
                &&& match run.res {
                    Ok(StoryEndV::Finished) => r is Ok && r->Ok_0 is Done && out_lines_view(
                        final(line_buffer)@,
                    ) == out_lines_view(old(line_buffer)@) + processed(run.out),
                    Ok(StoryEndV::Choices(sv)) => r is Ok && r->Ok_0 is Choice && out_lines_view(
                        r->Ok_0->Choice_0@,
                    ) == prepared_choices(sv) && out_lines_view(final(line_buffer)@)
                        == out_lines_view(old(line_buffer)@) + processed(run.out),
                    Err(e) => r is Err && r->Err_0@ == e && final(line_buffer)@ == old(
                        line_buffer,
                    )@,
                }
            }),
    {
        let mut internal_buffer: Vec<LineData> = Vec::new();
        let result = match self.follow_on_knot_wrapper(mode, &mut internal_buffer) {
            Ok(n) => n,
            Err(e) => {
                return Err(e);
            },
        };
        proof {
            assert(lines_view(internal_buffer@) =~= story_run(old(self)@, mode_view(mode)).out);
        }
        process_buffer(line_buffer, internal_buffer);
        match result {
            Next::ChoiceSet(choice_set) => {
                let user_choice_lines = prepare_choices_for_user(&choice_set);
                Ok(StoryAction::Choice(user_choice_lines))
            },
            Next::Done => Ok(StoryAction::Done),
            Next::Divert(_) => {
                proof {
                    assert(false);
                }
                Ok(StoryAction::Done)
            },
        }
    }

    /// Start walking through the story, reading all produced lines into the
    /// supplied buffer, until the story reaches an end or a set of choices
    /// is met.  The buffer is appended to, never cleared.
    pub fn start(&mut self, line_buffer: &mut LineBuffer) -> (r: Result<StoryAction, FollowError>)
        requires
            old(self).wf(),
        ensures
            final(self).wf(),
            ({
                let run = story_run(old(self)@, ModeV::Start);
                &&& final(self)@ == run.story
                &&& match run.res {
                    Ok(StoryEndV::Finished) => r is Ok && r->Ok_0 is Done && out_lines_view(
                        final(line_buffer)@,
                    ) == out_lines_view(old(line_buffer)@) + processed(run.out),
                    Ok(StoryEndV::Choices(sv)) => r is Ok && r->Ok_0 is Choice && out_lines_view(
                        r->Ok_0->Choice_0@,
                    ) == prepared_choices(sv) && out_lines_view(final(line_buffer)@)
                        == out_lines_view(old(line_buffer)@) + processed(run.out),
                    Err(e) => r is Err && r->Err_0@ == e && final(line_buffer)@ == old(
                        line_buffer,
                    )@,
                }
            }),
    {
        self.follow_story_wrapper(FollowMode::Start, line_buffer)
    }

    /// Resume the story with the choice of the given `index` among the
    /// presented choices, indexed from 0.  The story continues until it
    /// reaches an end or another set of choices.
    pub fn resume_with_choice(&mut self, index: usize, line_buffer: &mut LineBuffer) -> (r: Result<
        StoryAction,
        FollowError,
    >)
        requires
            old(self).wf(),
        ensures
            final(self).wf(),
            ({
                let run = story_run(old(self)@, ModeV::Resume(index as int));
                &&& final(self)@ == run.story
                &&& match run.res {
                    Ok(StoryEndV::Finished) => r is Ok && r->Ok_0 is Done && out_lines_view(
                        final(line_buffer)@,
                    ) == out_lines_view(old(line_buffer)@) + processed(run.out),
                    Ok(StoryEndV::Choices(sv)) => r is Ok && r->Ok_0 is Choice && out_lines_view(
                        r->Ok_0->Choice_0@,
                    ) == prepared_choices(sv) && out_lines_view(final(line_buffer)@)
                        == out_lines_view(old(line_buffer)@) + processed(run.out),
                    Err(e) => r is Err && r->Err_0@ == e && final(line_buffer)@ == old(
                        line_buffer,
                    )@,
                }
            }),
    {
        self.follow_story_wrapper(FollowMode::WithChoice(index), line_buffer)
    }
}

/// Result from following a story: either it reached an end, or a set of
/// choices awaits the user.
#[derive(Debug)]
pub enum StoryAction {
    /// The story reached an end.
    Done,
    /// A choice was encountered; tags found with each choice are kept.
    Choice(Vec<Line>),
}

/// A fresh copy of a buffer of output lines.
fn dup_lines(lines: &Vec<Line>) -> (r: Vec<Line>)
    ensures
        out_lines_view(r@) == out_lines_view(lines@),
{
    let mut out: Vec<Line> = Vec::new();
    let mut i: usize = 0;
    while i < lines.len()
        invariant
            out@.len() == i <= lines@.len(),
            forall|j: int| 0 <= j < i ==> #[trigger] out@[j]@ == lines@[j]@,
        decreases lines@.len() - i,
    {
        let src = &lines[i];
        let mut tags: Vec<String> = Vec::new();
        extend_tags(&mut tags, &src.tags);
        let copy = Line { text: src.text.clone(), tags };
        proof {
            assert(copy@ =~~= lines@[i as int]@);
        }
        out.push(copy);
        i = i + 1;
    }
    proof {
        assert(out_lines_view(out@) =~= out_lines_view(lines@));
    }
    out
}

// ---------------------------------------------------------------------------
// Reading a story from text.
// ---------------------------------------------------------------------------

/// Whether a raw line is a knot header: its first non-whitespace character
/// is the knot marker.
pub open spec fn is_header(s: Seq<char>) -> bool {
    skip_spaces(s, 0) < s.len() && s[skip_spaces(s, 0)] == KNOT_MARKER
}

/// Runtime test matching [`is_header`].
fn is_header_line(lv: &Vec<char>) -> (r: bool)
    ensures
        r == is_header(lv@),
{
    proof {
        lemma_skip_spaces(lv@, 0);
    }
    let nsp = find_non_space(lv, 0);
    nsp < lv.len() && lv[nsp] == KNOT_MARKER
}

/// The position of the first header line at or after `i`, or `lines.len()`
/// when there is none.
pub open spec fn next_header(lines: Seq<Seq<char>>, i: int) -> int
    decreases lines.len() - i when 0 <= i <= lines.len()
{
    if i >= lines.len() {
        lines.len() as int
    } else if is_header(lines[i]) {
        i
    } else {
        next_header(lines, i + 1)
    }
}

pub proof fn lemma_next_header(lines: Seq<Seq<char>>, i: int)
    requires
        0 <= i <= lines.len(),
    ensures
        i <= next_header(lines, i) <= lines.len(),
        next_header(lines, i) < lines.len() ==> is_header(lines[next_header(lines, i)]),
        forall|j: int| i <= j < next_header(lines, i) ==> !is_header(#[trigger] lines[j]),
    decreases lines.len() - i,
{
    if i < lines.len() && !is_header(lines[i]) {
        lemma_next_header(lines, i + 1);
    }
}

/// Runtime scan matching [`next_header`].
fn find_next_header(pieces: &Vec<Vec<char>>, from: usize) -> (r: usize)
    requires
        from <= pieces@.len(),
    ensures
        r == next_header(pieces.deep_view(), from as int),
{
    let ghost lines = pieces.deep_view();
    let mut i: usize = from;
    while i < pieces.len()
        invariant
            from <= i <= pieces@.len(),
            lines == pieces.deep_view(),
            lines.len() == pieces@.len(),
            next_header(lines, from as int) == next_header(lines, i as int),
        decreases pieces@.len() - i,
    {
        proof {
            assert(lines[i as int] == pieces@[i as int].deep_view());
            assert(pieces@[i as int].deep_view() =~= pieces@[i as int]@);
        }
        if is_header_line(&pieces[i]) {
            return i;
        }
        i = i + 1;
    }
    i
}

/// The name of a knot header line: the marker-led, whitespace-trimmed line
/// shorn of its markers; the name must be non-empty and hold no whitespace.
pub open spec fn spec_knot_name(s: Seq<char>) -> Result<Seq<char>, KnotErrorV> {
    let t = trim_spaces(s);
    if !(t.len() > 0 && t[0] == KNOT_MARKER) {
        Err(KnotErrorV::InvalidName { line: s, kind: KnotNameError::CouldNotRead })
    } else {
        let name = trim_start_char(t, KNOT_MARKER);
        if name.len() == 0 {
            Err(KnotErrorV::Empty)
        } else if exists|k: int| 0 <= k < name.len() && is_space(#[trigger] name[k]) {
            Err(KnotErrorV::InvalidName { line: s, kind: KnotNameError::ContainsWhitespace })
        } else {
            Ok(name)
        }
    }
}

/// Parse the name of a knot header line.
#[verifier::loop_isolation(false)]
fn parse_knot_name(lv: &Vec<char>) -> (r: Result<String, ParseError>)
    ensures
        match spec_knot_name(lv@) {
            Ok(name) => r is Ok && r->Ok_0@ == name,
            Err(e) => r is Err && r->Err_0@ == ParseErrorV::KnotError(e),
        },
{
    let t = trim_spaces_vec(lv);
    if !(t.len() > 0 && t[0] == KNOT_MARKER) {
        return Err(
            ParseError::KnotError(
                KnotError::InvalidName {
                    line: chars_to_string(lv),
                    kind: KnotNameError::CouldNotRead,
                },
            ),
        );
    }
    let name = trim_start_char_vec(&t, KNOT_MARKER);
    if name.len() == 0 {
        return Err(ParseError::KnotError(KnotError::Empty));
    }
    let mut k: usize = 0;
    while k < name.len()
        invariant
            k <= name@.len(),
            forall|j: int| 0 <= j < k ==> !is_space(#[trigger] name@[j]),
        decreases name@.len() - k,
    {
        if is_space_char(name[k]) {
            return Err(
                ParseError::KnotError(
                    KnotError::InvalidName {
                        line: chars_to_string(lv),
                        kind: KnotNameError::ContainsWhitespace,
                    },
                ),
            );
        }
        k = k + 1;
    }
    Ok(chars_to_string(&name))
}

/// A copy of the raw lines between positions `a` and `b`.
fn copy_lines(pieces: &Vec<Vec<char>>, a: usize, b: usize) -> (r: Vec<Vec<char>>)
    requires
        a <= b <= pieces@.len(),
    ensures
        r.deep_view() == pieces.deep_view().subrange(a as int, b as int),
{
    let mut out: Vec<Vec<char>> = Vec::new();
    let mut i: usize = a;
    while i < b
        invariant
            a <= i <= b <= pieces@.len(),
            out@.len() == i - a,
            forall|j: int| 0 <= j < i - a ==> #[trigger] out@[j]@ == pieces@[a + j]@,
        decreases b - i,
    {
        let piece = &pieces[i];
        out.push(subvec(piece, 0, piece.len()));
        proof {
            assert(pieces@[i as int]@.subrange(0, pieces@[i as int]@.len() as int) =~= pieces@[
                i as int
            ]@);
        }
        i = i + 1;
    }
    proof {
        assert(out.deep_view() =~~= pieces.deep_view().subrange(a as int, b as int));
    }
    out
}

/// The named knots of a document from the header at position `i` on, with
/// each body parsed, paired with their names in reading order.
pub open spec fn parse_segments(lines: Seq<Seq<char>>, i: int) -> Result<
    Seq<(Seq<char>, KnotV)>,
    ParseErrorV,
>
    decreases lines.len() - i when 0 <= i <= lines.len() via parse_segments_dec
{
    if i >= lines.len() {
        Ok(Seq::empty())
    } else {
        match spec_knot_name(lines[i]) {
            Err(e) => Err(ParseErrorV::KnotError(e)),
            Ok(name) => {
                let j = next_header(lines, i + 1);
                match crate::knot::spec_parse_body(lines.subrange(i + 1, j)) {
                    Err(e) => Err(e),
                    Ok(ps) => match parse_segments(lines, j) {
                        Err(e) => Err(e),
                        Ok(rest) => Ok(
                            seq![
                                (name, KnotV { root: build_nodes(ps), cursor: None::<CursorV> }),
                            ] + rest,
                        ),
                    },
                }
            },
        }
    }
}

#[via_fn]
proof fn parse_segments_dec(lines: Seq<Seq<char>>, i: int) {
    if 0 <= i < lines.len() {
        lemma_next_header(lines, i + 1);
    }
}

/// The parse of a whole document: its named knots in reading order —
/// preceded by the unnamed root knot when content stands before the first
/// header — and the name of the entry knot.  A document with neither
/// content nor headers is empty.
pub open spec fn spec_read_story(text: Seq<char>) -> Result<
    (Seq<(Seq<char>, KnotV)>, Seq<char>),
    ParseErrorV,
> {
    let lines = split_char(text, '\n');
    let h = next_header(lines, 0);
    let pre = lines.subrange(0, h);
    let has_pre = exists|k: int| 0 <= k < pre.len() && !crate::knot::is_blank(#[trigger] pre[k]);
    match crate::knot::spec_parse_body(pre) {
        Err(e) => Err(e),
        Ok(ps0) => match parse_segments(lines, h) {
            Err(e) => Err(e),
            Ok(pairs) => if has_pre {
                Ok(
                    (
                        seq![
                            (
                                Seq::<char>::empty(),
                                KnotV { root: build_nodes(ps0), cursor: None::<CursorV> },
                            ),
                        ] + pairs,
                        Seq::<char>::empty(),
                    ),
                )
            } else if h >= lines.len() {
                Err(ParseErrorV::Empty)
            } else {
                Ok((pairs, pairs[0].0))
            },
        },
    }
}

/// Read a story by parsing an input string: a sequence of knots, each
/// begun by a header naming it, with any content before the first header
/// forming the unnamed root knot.
#[verifier::loop_isolation(false)]
#[verifier::rlimit(60)]
pub fn read_story_from_string(string: &str) -> (r: Result<Story, ParseError>)
    ensures
        match spec_read_story(string@) {
            Err(e) => r is Err && r->Err_0@ == e,
            Ok((pairs, root)) => r is Ok && pairs_view(r->Ok_0.knots@) == pairs && strings_view(
                r->Ok_0.stack@,
            ) == seq![root] && r->Ok_0.wf(),
        },
{
    let v = to_chars(string);
    let pieces = split_char_vec(&v, '\n');
    let ghost lines = pieces.deep_view();
    let h = find_next_header(&pieces, 0);
    proof {
        lemma_next_header(lines, 0);
    }

    // is there any content before the first header?
    let mut has_pre = false;
    let mut p: usize = 0;
    while p < h
        invariant
            p <= h <= pieces@.len(),
            lines == pieces.deep_view(),
            has_pre == exists|k: int|
                0 <= k < p && !crate::knot::is_blank(#[trigger] lines.subrange(0, h as int)[k]),
        decreases h - p,
    {
        proof {
            assert(lines.subrange(0, h as int)[p as int] == pieces@[p as int].deep_view());
            assert(pieces@[p as int].deep_view() =~= pieces@[p as int]@);
            lemma_skip_spaces(pieces@[p as int]@, 0);
        }
        let piece = &pieces[p];
        let nsp = find_non_space(piece, 0);
        if nsp < piece.len() {
            has_pre = true;
        }
        p = p + 1;
    }

    let mut knots: Vec<(String, Knot)> = Vec::new();
    let ghost pre_pairs: Seq<(Seq<char>, KnotV)> = if has_pre {
        spec_read_story(string@)->Ok_0.0.subrange(0, 1)
    } else {
        Seq::empty()
    };
    let pre = copy_lines(&pieces, 0, h);
    let root_knot = match Knot::from_lines(&pre) {
        Ok(k) => k,
        Err(e) => {
            return Err(e);
        },
    };
    if has_pre {
        knots.push((String::new(), root_knot));
    }
    let ghost done: Seq<(Seq<char>, KnotV)> = pairs_view(knots@);
    proof {
        if has_pre {
            assert(pairs_view(knots@) =~= seq![
                (
                    Seq::<char>::empty(),
                    KnotV {
                        root: build_nodes(
                            crate::knot::spec_parse_body(lines.subrange(0, h as int))->Ok_0,
                        ),
                        cursor: None::<CursorV>,
                    },
                ),
            ]);
        } else {
            assert(pairs_view(knots@) =~= Seq::<(Seq<char>, KnotV)>::empty());
        }
    }

    let mut root_name: Option<String> = if has_pre {
        Some(String::new())
    } else {
        None
    };
    let mut i: usize = h;
    while i < pieces.len()
        invariant
            h <= i <= pieces@.len(),
            lines == pieces.deep_view(),
            i < pieces@.len() ==> is_header(lines[i as int]),
            all_knots_wf(knots@),
            match parse_segments(lines, i as int) {
                Ok(rest) => parse_segments(lines, h as int) == Ok::<_, ParseErrorV>(
                    pairs_view(knots@).skip(done.len() as int) + rest,
                ),
                Err(e) => parse_segments(lines, h as int) == Err::<Seq<(Seq<char>, KnotV)>, _>(e),
            },
            pairs_view(knots@).subrange(0, done.len() as int) == done,
            done.len() <= pairs_view(knots@).len(),
            match root_name {
                Some(rn) => has_pre && rn@ == Seq::<char>::empty() || !has_pre && knots@.len() > 0
                    && rn@ == pairs_view(knots@)[0].0,
                None => !has_pre && knots@.len() == 0,
            },
        decreases pieces@.len() - i,
    {
        let ghost pre_ps = pairs_view(knots@);
        proof {
            assert(lines[i as int] == pieces@[i as int].deep_view());
            assert(pieces@[i as int].deep_view() =~= pieces@[i as int]@);
        }
        let name = match parse_knot_name(&pieces[i]) {
            Ok(n) => n,
            Err(e) => {
                return Err(e);
            },
        };
        let j = find_next_header(&pieces, i + 1);
        proof {
            lemma_next_header(lines, i as int + 1);
        }
        let body = copy_lines(&pieces, i + 1, j);
        let kn = match Knot::from_lines(&body) {
            Ok(k) => k,
            Err(e) => {
                return Err(e);
            },
        };
        if root_name.is_none() {
            root_name = Some(name.clone());
        }
        let ghost nv = name@;
        let ghost kv = kn@;
        knots.push((name, kn));
        proof {
            assert(pairs_view(knots@) =~= pre_ps.push((nv, kv)));
            assert(pairs_view(knots@).skip(done.len() as int) =~= pre_ps.skip(
                done.len() as int,
            ).push((nv, kv)));
            assert(pairs_view(knots@).subrange(0, done.len() as int) =~= pre_ps.subrange(
                0,
                done.len() as int,
            ));
            if parse_segments(lines, j as int) is Ok {
                let rest = parse_segments(lines, j as int)->Ok_0;
                assert(pre_ps.skip(done.len() as int) + (seq![(nv, kv)] + rest) =~= pairs_view(
                    knots@,
                ).skip(done.len() as int) + rest);
            }
        }
        i = j;
    }
    proof {
        assert(parse_segments(lines, pieces@.len() as int) == Ok::<Seq<(Seq<char>, KnotV)>, ParseErrorV>(
            Seq::empty(),
        ));
        assert(pairs_view(knots@).skip(done.len() as int) + Seq::<(Seq<char>, KnotV)>::empty()
            =~= pairs_view(knots@).skip(done.len() as int));
    }
    match root_name {
        None => Err(ParseError::Empty),
        Some(rn) => {
            let s = Story { knots, stack: vec![rn] };
            proof {
                assert(strings_view(s.stack@) =~= seq![rn@]);
                let pairs = spec_read_story(string@)->Ok_0.0;
                assert(pairs_view(s.knots@) =~= done + pairs_view(s.knots@).skip(
                    done.len() as int,
                ));
                assert(pairs_view(s.knots@) =~= pairs);
            }
            Ok(s)
        },
    }
}

/// Every knot of the list is well formed.
pub open spec fn all_knots_wf(ks: Seq<(String, Knot)>) -> bool {
    forall|i: int| 0 <= i < ks.len() ==> (#[trigger] ks[i]).1.wf()
}

impl StoryAction {
    /// If a set of choices was returned, retrieve a copy of its lines
    /// without having to match.
    pub fn get_choices(&self) -> (r: Option<Vec<Line>>)
        ensures
            match self {
                StoryAction::Choice(cs) => r is Some && out_lines_view(r->0@) == out_lines_view(
                    cs@,
                ),
                StoryAction::Done => r is None,
            },
    {
        match self {
            StoryAction::Choice(choices) => Some(dup_lines(choices)),
            StoryAction::Done => None,
        }
    }
}

} // verus!
