use vstd::prelude::*;

use crate::green::{
    children_text, elem_text, lemma_children_text_push, node_text, wf_elem, wf_node, GreenElement,
    GreenNode, GreenToken,
};
use crate::kind::{is_node_kind, SyntaxKind};

verus! {

/// A node that has been started and not yet finished: its kind, the children
/// gathered so far, and the length of their text.
pub struct Frame {
    pub kind: SyntaxKind,
    pub children: Vec<GreenElement>,
    pub len: usize,
}

pub open spec fn wf_children(cs: Seq<GreenElement>) -> bool {
    forall|i: int| 0 <= i < cs.len() ==> wf_elem(#[trigger] cs[i])
}

pub open spec fn wf_frame(f: Frame) -> bool {
    &&& is_node_kind(f.kind)
    &&& f.len == children_text(f.children@).len()
    &&& wf_children(f.children@)
}

/// The texts gathered by a stack of open frames, outermost first.
pub open spec fn frames_text(fs: Seq<Frame>) -> Seq<char>
    decreases fs.len(),
{
    if fs.len() == 0 {
        seq![]
    } else {
        frames_text(fs.drop_last()) + children_text(fs.last().children@)
    }
}

/// Builds a green tree bottom-up from start, token and finish calls that nest
/// properly.
pub struct GreenNodeBuilder {
    pub frames: Vec<Frame>,
    pub top: Vec<GreenElement>,
    pub top_len: usize,
}

impl GreenNodeBuilder {
    pub open spec fn wf(&self) -> bool {
        &&& forall|i: int| 0 <= i < self.frames@.len() ==> wf_frame(#[trigger] self.frames@[i])
        &&& wf_children(self.top@)
        &&& self.top_len == children_text(self.top@).len()
        &&& self.text().len() <= usize::MAX
    }

    /// All text pushed so far, in order.
    pub open spec fn text(&self) -> Seq<char> {
        children_text(self.top@) + frames_text(self.frames@)
    }

    /// How many nodes are open.
    pub open spec fn depth(&self) -> nat {
        self.frames@.len()
    }

    /// A builder with nothing in it.
    pub fn new() -> (r: GreenNodeBuilder)
        ensures
            r.wf(),
            r.text() == Seq::<char>::empty(),
            r.depth() == 0,
            r.top@.len() == 0,
    {
        let r = GreenNodeBuilder { frames: Vec::new(), top: Vec::new(), top_len: 0 };
        assert(r.text() =~= Seq::<char>::empty());
        r
    }

    /// Opens a node of the given kind.
    pub fn start_node(&mut self, kind: SyntaxKind)
        requires
            old(self).wf(),
            is_node_kind(kind),
        ensures
            final(self).wf(),
            final(self).text() == old(self).text(),
            final(self).depth() == old(self).depth() + 1,
            final(self).top@ == old(self).top@,
            final(self).frames@.drop_last() == old(self).frames@,
            final(self).frames@.last().kind == kind,
            final(self).frames@.last().children@.len() == 0,
    {
        let f = Frame { kind, children: Vec::new(), len: 0 };
        let ghost fs = self.frames@;
        self.frames.push(f);
        proof {
            assert(self.frames@.drop_last() =~= fs);
            assert(children_text(self.frames@.last().children@) =~= Seq::<char>::empty());
            assert(frames_text(self.frames@) =~= frames_text(fs));
        }
    }

    /// Adds a token to the innermost open node, or at the top where none is open.
    pub fn token(&mut self, kind: SyntaxKind, text: Vec<char>)
        requires
            old(self).wf(),
            !is_node_kind(kind),
            old(self).text().len() + text@.len() <= usize::MAX,
        ensures
            final(self).wf(),
            final(self).text() == old(self).text() + text@,
            final(self).depth() == old(self).depth(),
            old(self).depth() == 0 ==> final(self).top@ == old(self).top@.push(
                GreenElement::Token(GreenToken { kind, text }),
            ),
            old(self).depth() > 0 ==> final(self).top@ == old(self).top@,
            old(self).depth() > 0 ==> final(self).frames@.drop_last() == old(self).frames@.drop_last(),
            old(self).depth() > 0 ==> final(self).frames@.last().kind == old(self).frames@.last().kind,
            old(self).depth() > 0 ==> final(self).frames@.last().children@ == old(
                self,
            ).frames@.last().children@.push(GreenElement::Token(GreenToken { kind, text })),
    {
        let e = GreenElement::Token(GreenToken { kind, text });
        self.push_elem(e);
    }

    /// Adds a finished element to the innermost open node, or at the top.
    fn push_elem(&mut self, e: GreenElement)
        requires
            old(self).wf(),
            wf_elem(e),
            old(self).text().len() + elem_text(e).len() <= usize::MAX,
        ensures
            final(self).wf(),
            final(self).text() == old(self).text() + elem_text(e),
            final(self).depth() == old(self).depth(),
            old(self).depth() == 0 ==> final(self).top@ == old(self).top@.push(e),
            old(self).depth() > 0 ==> final(self).top@ == old(self).top@,
            old(self).depth() > 0 ==> final(self).frames@.drop_last() == old(self).frames@.drop_last(),
            old(self).depth() > 0 ==> final(self).frames@.last().kind == old(self).frames@.last().kind,
            old(self).depth() > 0 ==> final(self).frames@.last().children@ == old(
                self,
            ).frames@.last().children@.push(e),
    {
        let len = e.text_len();
        let ghost old_top = self.top@;
        let ghost old_frames = self.frames@;
        if self.frames.len() == 0 {
            self.top.push(e);
            proof {
                lemma_children_text_push(old_top, e);
            }
            self.top_len = self.top_len + len;
            assert(self.text() =~= children_text(old_top) + elem_text(e) + frames_text(old_frames));
        } else {
            let mut f = self.frames.pop().unwrap();
            proof {
                assert(old_frames.drop_last() == self.frames@);
                assert(f == old_frames.last());
                assert(f.len <= frames_text(old_frames).len());
            }
            let ghost old_cs = f.children@;
            f.children.push(e);
            f.len = f.len + len;
            proof {
                lemma_children_text_push(old_cs, e);
            }
            let ghost rest = self.frames@;
            self.frames.push(f);
            proof {
                assert(self.frames@.drop_last() =~= rest);
                assert(frames_text(self.frames@) =~= frames_text(old_frames) + elem_text(e));
                assert(self.text() =~= old(self).text() + elem_text(e));
                assert forall|i: int| 0 <= i < self.frames@.len() implies wf_frame(
                    #[trigger] self.frames@[i],
                ) by {
                    if i < rest.len() {
                        assert(self.frames@[i] == old_frames[i]);
                    }
                }
            }
        }
    }

    /// Closes the innermost open node and adds it to the one around it (or at the
    /// top where none is around it).
    pub fn finish_node(&mut self)
        requires
            old(self).wf(),
            old(self).depth() > 0,
        ensures
            final(self).wf(),
            final(self).text() == old(self).text(),
            final(self).depth() + 1 == old(self).depth(),
            final(self).depth() == 0 ==> final(self).top@ == old(self).top@.push(
                GreenElement::Node(
                    GreenNode {
                        kind: old(self).frames@.last().kind,
                        children: old(self).frames@.last().children,
                        text_len: old(self).frames@.last().len,
                    },
                ),
            ),
            final(self).depth() > 0 ==> final(self).top@ == old(self).top@,
            final(self).depth() > 0 ==> final(self).frames@.drop_last() == old(
                self,
            ).frames@.drop_last().drop_last(),
            final(self).depth() > 0 ==> final(self).frames@.last().kind == old(
                self,
            ).frames@.drop_last().last().kind,
            final(self).depth() > 0 ==> final(self).frames@.last().children@ == old(
                self,
            ).frames@.drop_last().last().children@.push(
                GreenElement::Node(
                    GreenNode {
                        kind: old(self).frames@.last().kind,
                        children: old(self).frames@.last().children,
                        text_len: old(self).frames@.last().len,
                    },
                ),
            ),
    {
        let ghost old_frames = self.frames@;
        let f = self.frames.pop().unwrap();
        let node = GreenNode { kind: f.kind, children: f.children, text_len: f.len };
        let e = GreenElement::Node(node);
        proof {
            assert(self.frames@ == old_frames.drop_last());
            assert(self.text() + elem_text(e) =~= old(self).text());
            assert(wf_elem(e));
        }
        self.push_elem(e);
    }

    /// The finished tree: valid once every node has been closed and exactly one
    /// node stands at the top.
    pub fn finish(self) -> (r: GreenNode)
        requires
            self.wf(),
            self.depth() == 0,
            self.top@.len() == 1,
            self.top@[0] is Node,
        ensures
            wf_node(r),
            node_text(r) == self.text(),
            GreenElement::Node(r) == self.top@[0],
    {
        let mut top = self.top;
        let e = top.pop().unwrap();
        proof {
            assert(self.top@.drop_last() =~= seq![]);
            assert(children_text(self.top@.drop_last()) =~= seq![]);
            assert(frames_text(self.frames@) =~= seq![]);
            assert(children_text(self.top@) =~= elem_text(e));
            assert(self.text() =~= elem_text(e));
        }
        match e {
            GreenElement::Node(n) => n,
            GreenElement::Token(_) => {
                proof {
                    assert(false);
                }
                // the precondition rules this arm out
                GreenNode { kind: SyntaxKind::Root, children: Vec::new(), text_len: 0 }
            },
        }
    }
}

} // verus!
