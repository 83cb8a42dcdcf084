//! Building a knot's tree from its parsed lines.
//!
//! The builder keeps a stack of open choice contexts.  A plain line goes to
//! the deepest open context; a choice opens or extends a set at its level
//! after closing deeper ones; a gather closes every context at its level or
//! deeper and joins the flow at the enclosing level.

use vstd::prelude::*;

use crate::knot::{
    choice_nodes_view, nodes_view, ChoiceNode, ChoiceNodeV, NodeItem, NodeV,
};
use crate::line::{Choice, ChoiceV, LineData, LineKind, ParsedLine, ParsedLineV};

verus! {

/// One open choice context: the nesting level of its set, the choice whose
/// body is currently collecting nodes, the earlier choices of the same set
/// (already closed), and the collected body.
pub struct BFrame {
    /// Nesting level at which the set was opened.
    pub level: u8,
    /// The choice whose body is open.
    pub choice: Choice,
    /// The closed choices of the same set, in declaration order.
    pub set: Vec<ChoiceNode>,
    /// The open choice's body so far.
    pub items: Vec<NodeItem>,
}

/// Ghost mirror of [`BFrame`].
#[verifier::ext_equal]
pub ghost struct BFrameV {
    pub level: u8,
    pub choice: ChoiceV,
    pub set: Seq<ChoiceNodeV>,
    pub items: Seq<NodeV>,
}

impl View for BFrame {
    type V = BFrameV;

    open spec fn view(&self) -> BFrameV {
        BFrameV {
            level: self.level,
            choice: self.choice@,
            set: choice_nodes_view(self.set@),
            items: nodes_view(self.items@),
        }
    }
}

/// The model of the builder's frame stack.
pub open spec fn frames_view(s: Seq<BFrame>) -> Seq<BFrameV> {
    Seq::new(s.len(), |i: int| s[i]@)
}

/// The builder: the knot's top-level nodes collected so far, and the stack
/// of open choice contexts, outermost first.
pub struct Builder {
    /// Closed top-level nodes.
    pub root: Vec<NodeItem>,
    /// Open choice contexts, outermost first.
    pub stack: Vec<BFrame>,
}

/// Ghost mirror of [`Builder`].
#[verifier::ext_equal]
pub ghost struct BStateV {
    pub root: Seq<NodeV>,
    pub stack: Seq<BFrameV>,
}

impl View for Builder {
    type V = BStateV;

    open spec fn view(&self) -> BStateV {
        BStateV { root: nodes_view(self.root@), stack: frames_view(self.stack@) }
    }
}

// ---------------------------------------------------------------------------
// The build steps, as spec functions.
// ---------------------------------------------------------------------------

/// Append a node to the deepest open context, or to the root when none is
/// open.
pub open spec fn b_append(st: BStateV, n: NodeV) -> BStateV {
    if st.stack.len() == 0 {
        BStateV { root: st.root.push(n), stack: st.stack }
    } else {
        let f = st.stack.last();
        BStateV {
            root: st.root,
            stack: st.stack.update(
                st.stack.len() - 1,
                BFrameV { level: f.level, choice: f.choice, set: f.set, items: f.items.push(n) },
            ),
        }
    }
}

/// Close the deepest open context: its choice and body become the last
/// member of its set, and the finished set is appended one level up.
pub open spec fn b_close(st: BStateV) -> BStateV
    recommends
        st.stack.len() > 0,
{
    let f = st.stack.last();
    let popped = BStateV { root: st.root, stack: st.stack.drop_last() };
    b_append(popped, NodeV::Choices(f.set.push(ChoiceNodeV { choice: f.choice, items: f.items })))
}

/// Close every open context whose level is the given one or deeper.
pub open spec fn b_close_at_or_above(st: BStateV, level: u8) -> BStateV
    decreases st.stack.len(),
{
    if st.stack.len() > 0 && st.stack.last().level >= level {
        b_close_at_or_above(b_close(st), level)
    } else {
        st
    }
}

/// Close every open context strictly deeper than the given level.
pub open spec fn b_close_above(st: BStateV, level: u8) -> BStateV
    decreases st.stack.len(),
{
    if st.stack.len() > 0 && st.stack.last().level > level {
        b_close_above(b_close(st), level)
    } else {
        st
    }
}

/// Feed one parsed line to the builder.
pub open spec fn b_step(st: BStateV, p: ParsedLineV) -> BStateV {
    match p {
        ParsedLineV::Line(l) => b_append(st, NodeV::Line(l)),
        ParsedLineV::Gather { level, line } => b_append(
            b_close_at_or_above(st, level),
            NodeV::Line(line),
        ),
        ParsedLineV::Choice { level, choice } => {
            let st1 = b_close_above(st, level);
            if st1.stack.len() > 0 && st1.stack.last().level == level {
                let f = st1.stack.last();
                BStateV {
                    root: st1.root,
                    stack: st1.stack.drop_last().push(
                        BFrameV {
                            level,
                            choice,
                            set: f.set.push(ChoiceNodeV { choice: f.choice, items: f.items }),
                            items: Seq::empty(),
                        },
                    ),
                }
            } else {
                BStateV {
                    root: st1.root,
                    stack: st1.stack.push(
                        BFrameV { level, choice, set: Seq::empty(), items: Seq::empty() },
                    ),
                }
            }
        },
    }
}

/// The empty builder.
pub open spec fn b_init() -> BStateV {
    BStateV { root: Seq::empty(), stack: Seq::empty() }
}

/// The builder state after feeding the parsed lines in order.
pub open spec fn b_run(lines: Seq<ParsedLineV>) -> BStateV
    decreases lines.len(),
{
    if lines.len() == 0 {
        b_init()
    } else {
        b_step(b_run(lines.drop_last()), lines.last())
    }
}

/// Close every remaining open context; what is left is the knot's tree.
pub open spec fn b_finish(st: BStateV) -> Seq<NodeV>
    decreases st.stack.len(),
{
    if st.stack.len() == 0 {
        st.root
    } else {
        b_finish(b_close(st))
    }
}

/// The tree built from a knot's parsed lines.
pub open spec fn build_nodes(lines: Seq<ParsedLineV>) -> Seq<NodeV> {
    b_finish(b_run(lines))
}

// ---------------------------------------------------------------------------
// The executable builder.
// ---------------------------------------------------------------------------

impl Builder {
    /// A builder with nothing collected.
    pub fn new() -> (r: Builder)
        ensures
            r@ == b_init(),
    {
        let r = Builder { root: Vec::new(), stack: Vec::new() };
        proof {
            assert(nodes_view(r.root@) =~= Seq::<NodeV>::empty());
            assert(frames_view(r.stack@) =~= Seq::<BFrameV>::empty());
        }
        r
    }

    /// Append a node to the deepest open context.
    fn append(&mut self, n: NodeItem)
        ensures
            final(self)@ == b_append(old(self)@, crate::knot::node_view(n)),
    {
        let ghost nv = crate::knot::node_view(n);
        match self.stack.pop() {
            None => {
                let ghost pre = self.root@;
                self.root.push(n);
                proof {
                    assert(old(self).stack@.len() == 0);
                    assert(frames_view(self.stack@) =~= frames_view(old(self).stack@));
                    assert(nodes_view(self.root@) =~= nodes_view(pre).push(nv));
                }
            },
            Some(mut f) => {
                let ghost fpre = f;
                f.items.push(n);
                proof {
                    assert(nodes_view(f.items@) =~= nodes_view(fpre.items@).push(nv));
                    assert(choice_nodes_view(f.set@) == choice_nodes_view(fpre.set@));
                }
                self.stack.push(f);
                proof {
                    assert(frames_view(self.stack@) =~= frames_view(old(self).stack@).update(
                        old(self).stack@.len() - 1,
                        f@,
                    ));
                }
            },
        }
    }

    /// Close the deepest open context.
    fn close(&mut self)
        requires
            old(self)@.stack.len() > 0,
        ensures
            final(self)@ == b_close(old(self)@),
    {
        let f = match self.stack.pop() {
            Some(f) => f,
            None => {
                proof {
                    assert(false);
                }
                BFrame { level: 0, choice: unreached_choice(), set: Vec::new(), items: Vec::new() }
            },
        };
        let ghost f0 = f;
        let BFrame { level: _level, choice, set: mut set, items } = f;
        let cn = ChoiceNode { choice, items };
        proof {
            assert(frames_view(self.stack@) =~= frames_view(old(self).stack@).drop_last());
            assert(cn.choice == f0.choice);
            assert(cn.items == f0.items);
            assert(crate::knot::choice_node_view(cn).choice == f0@.choice);
            assert(crate::knot::choice_node_view(cn).items =~= f0@.items);
            assert(crate::knot::choice_node_view(cn) =~~= (ChoiceNodeV {
                choice: f0@.choice,
                items: f0@.items,
            }));
        }
        set.push(cn);
        proof {
            assert(choice_nodes_view(set@) =~~= f0@.set.push(
                ChoiceNodeV { choice: f0@.choice, items: f0@.items },
            ));
            assert(crate::knot::node_view(NodeItem::Choices(set))->Choices_0 =~= choice_nodes_view(
                set@,
            ));
        }
        self.append(NodeItem::Choices(set));
    }

    /// Close every open context at the given level or deeper.
    #[verifier::loop_isolation(false)]
    fn close_at_or_above(&mut self, level: u8)
        ensures
            final(self)@ == b_close_at_or_above(old(self)@, level),
    {
        while self.stack.len() > 0 && self.stack[self.stack.len() - 1].level >= level
            invariant
                b_close_at_or_above(old(self)@, level) == b_close_at_or_above(self@, level),
            decreases self.stack@.len(),
        {
            proof {
                assert(self.stack@.last() == self.stack@[self.stack@.len() - 1]);
                assert(self@.stack.last() == self.stack@.last()@);
            }
            let ghost pre = self@;
            self.close();
            proof {
                assert(self@.stack.len() == pre.stack.len() - 1);
                assert(self.stack@.len() == self@.stack.len());
            }
        }
    }

    /// Close every open context strictly deeper than the given level.
    #[verifier::loop_isolation(false)]
    fn close_above(&mut self, level: u8)
        ensures
            final(self)@ == b_close_above(old(self)@, level),
    {
        while self.stack.len() > 0 && self.stack[self.stack.len() - 1].level > level
            invariant
                b_close_above(old(self)@, level) == b_close_above(self@, level),
            decreases self.stack@.len(),
        {
            proof {
                assert(self.stack@.last() == self.stack@[self.stack@.len() - 1]);
                assert(self@.stack.last() == self.stack@.last()@);
            }
            let ghost pre = self@;
            self.close();
            proof {
                assert(self@.stack.len() == pre.stack.len() - 1);
                assert(self.stack@.len() == self@.stack.len());
            }
        }
    }

    /// Feed one parsed line to the builder.
    pub fn step(&mut self, p: ParsedLine)
        ensures
            final(self)@ == b_step(old(self)@, p@),
    {
        match p {
            ParsedLine::Line(l) => {
                self.append(NodeItem::Line(l));
            },
            ParsedLine::Gather { level, line } => {
                self.close_at_or_above(level);
                self.append(NodeItem::Line(line));
            },
            ParsedLine::Choice { level, choice } => {
                self.close_above(level);
                let extend = self.stack.len() > 0 && self.stack[self.stack.len() - 1].level
                    == level;
                proof {
                    if self.stack@.len() > 0 {
                        assert(self.stack@.last() == self.stack@[self.stack@.len() - 1]);
                        assert(self@.stack.last() == self.stack@.last()@);
                    }
                }
                let ghost st1 = self@;
                if extend {
                    let f = match self.stack.pop() {
                        Some(f) => f,
                        None => {
                            proof {
                                assert(false);
                            }
                            BFrame {
                                level: 0,
                                choice: unreached_choice(),
                                set: Vec::new(),
                                items: Vec::new(),
                            }
                        },
                    };
                    let ghost f0 = f;
                    let BFrame { level: _l, choice: fchoice, set: mut set, items } = f;
                    let cn = ChoiceNode { choice: fchoice, items };
                    proof {
                        assert(cn.choice == f0.choice);
                        assert(cn.items == f0.items);
                        assert(crate::knot::choice_node_view(cn).choice == f0@.choice);
                        assert(crate::knot::choice_node_view(cn).items =~= f0@.items);
                        assert(crate::knot::choice_node_view(cn) =~~= (ChoiceNodeV {
                            choice: f0@.choice,
                            items: f0@.items,
                        }));
                    }
                    set.push(cn);
                    proof {
                        assert(choice_nodes_view(set@) =~~= f0@.set.push(
                            ChoiceNodeV { choice: f0@.choice, items: f0@.items },
                        ));
                    }
                    let nf = BFrame { level, choice, set, items: Vec::new() };
                    proof {
                        assert(nodes_view(nf.items@) =~= Seq::<NodeV>::empty());
                        assert(nf@ =~~= (BFrameV {
                            level,
                            choice: nf.choice@,
                            set: f0@.set.push(ChoiceNodeV { choice: f0@.choice, items: f0@.items }),
                            items: Seq::empty(),
                        }));
                    }
                    self.stack.push(nf);
                    proof {
                        assert(frames_view(self.stack@) =~~= st1.stack.drop_last().push(nf@));
                        assert(self@ =~~= b_step(old(self)@, p@));
                    }
                } else {
                    let nf = BFrame { level, choice, set: Vec::new(), items: Vec::new() };
                    proof {
                        assert(choice_nodes_view(nf.set@) =~= Seq::<ChoiceNodeV>::empty());
                        assert(nodes_view(nf.items@) =~= Seq::<NodeV>::empty());
                    }
                    self.stack.push(nf);
                    proof {
                        assert(frames_view(self.stack@) =~~= st1.stack.push(nf@));
                        assert(self@ =~~= b_step(old(self)@, p@));
                    }
                }
            },
        }
    }

    /// Close everything still open and hand back the finished tree.
    #[verifier::loop_isolation(false)]
    pub fn finish(self) -> (r: Vec<NodeItem>)
        ensures
            nodes_view(r@) == b_finish(self@),
    {
        let mut b = self;
        let ghost orig = b@;
        while b.stack.len() > 0
            invariant
                b_finish(orig) == b_finish(b@),
            decreases b.stack@.len(),
        {
            let ghost pre = b@;
            proof {
                assert(b@.stack.len() == b.stack@.len());
            }
            b.close();
            proof {
                assert(b@.stack.len() == pre.stack.len() - 1);
                assert(b.stack@.len() == b@.stack.len());
            }
        }
        proof {
            assert(b@.stack.len() == 0);
        }
        b.root
    }
}

/// A placeholder used in branches that verification shows unreachable.
fn unreached_choice() -> Choice {
    let l = LineData {
        text: String::new(),
        kind: LineKind::Regular,
        tags: Vec::new(),
        glue_start: false,
        glue_end: false,
    };
    Choice { displayed: l.duplicate(), line: l, num_visited: 0, is_sticky: false }
}

} // verus!
