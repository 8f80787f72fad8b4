use vstd::prelude::*;

use crate::green::{
    children_text, elem_text, lemma_children_text_push, node_text, wf_elem, wf_node, GreenElement,
    GreenNode, GreenToken,
};
use crate::kind::SyntaxKind;

verus! {

broadcast use vstd::std_specs::vec::axiom_vec_decreases_to_view, vstd::seq::axiom_seq_subrange_decreases;

/// A span of the text, in characters: `start` included, `end` excluded.
#[derive(Debug, Clone, Copy, PartialEq, Eq, Structural)]
pub struct TextRange {
    pub start: usize,
    pub end: usize,
}

/// Entering or leaving an element during a depth-first walk, with the element's
/// kind and range.
#[derive(Debug, Clone, Copy, PartialEq, Eq, Structural)]
pub enum WalkEvent {
    Enter(SyntaxKind, TextRange),
    Leave(SyntaxKind, TextRange),
}

/// A walk event as the model sees it: entering or not, kind, start and end.
pub type EventView = (bool, SyntaxKind, int, int);

impl WalkEvent {
    pub open spec fn view(&self) -> EventView {
        match *self {
            WalkEvent::Enter(k, r) => (true, k, r.start as int, r.end as int),
            WalkEvent::Leave(k, r) => (false, k, r.start as int, r.end as int),
        }
    }
}

/// The kind of an element.
pub open spec fn elem_kind(e: GreenElement) -> SyntaxKind {
    match e {
        GreenElement::Node(n) => n.kind,
        GreenElement::Token(t) => t.kind,
    }
}

/// Where child `i` of a run of siblings starts, the run starting at `off`.
pub open spec fn child_offset(cs: Seq<GreenElement>, off: int, i: int) -> int {
    off + children_text(cs.subrange(0, i)).len()
}

/// The events of a depth-first, left-to-right walk of `e`, placed at `off`.
pub open spec fn elem_events(e: GreenElement, off: int) -> Seq<EventView>
    decreases e,
{
    let end = off + elem_text(e).len();
    match e {
        GreenElement::Token(t) => seq![(true, t.kind, off, end), (false, t.kind, off, end)],
        GreenElement::Node(n) => seq![(true, n.kind, off, end)] + children_events(n.children@, off)
            + seq![(false, n.kind, off, end)],
    }
}

/// The walk events of a run of siblings that starts at `off`.
pub open spec fn children_events(cs: Seq<GreenElement>, off: int) -> Seq<EventView>
    decreases cs,
{
    if cs.len() == 0 {
        seq![]
    } else {
        children_events(cs.drop_last(), off) + elem_events(
            cs.last(),
            off + children_text(cs.drop_last()).len(),
        )
    }
}

/// The leaf tokens below an element, in order, as kind and text.
pub open spec fn elem_leaves(e: GreenElement) -> Seq<(SyntaxKind, Seq<char>)>
    decreases e,
{
    match e {
        GreenElement::Token(t) => seq![(t.kind, t.text@)],
        GreenElement::Node(n) => children_leaves(n.children@),
    }
}

/// The leaf tokens below a run of siblings, in order.
pub open spec fn children_leaves(cs: Seq<GreenElement>) -> Seq<(SyntaxKind, Seq<char>)>
    decreases cs,
{
    if cs.len() == 0 {
        seq![]
    } else {
        children_leaves(cs.drop_last()) + elem_leaves(cs.last())
    }
}

/// A red node: a green node placed at an offset of the text, with the red node
/// it was reached from.  It borrows the green tree and copies none of it.
pub struct SyntaxNode<'a> {
    pub green: &'a GreenNode,
    pub offset: usize,
    pub parent: Option<Box<SyntaxNode<'a>>>,
}

/// A token placed at an offset of the text, with the red node that holds it.
pub struct SyntaxToken<'a> {
    pub green: &'a GreenToken,
    pub offset: usize,
    pub parent: SyntaxNode<'a>,
}

/// A child of a red node.
pub enum SyntaxElement<'a> {
    Node(SyntaxNode<'a>),
    Token(SyntaxToken<'a>),
}

impl<'a> SyntaxNode<'a> {
    /// The green node is well formed and its whole text fits after the offset.
    pub open spec fn wf(&self) -> bool {
        &&& wf_node(*self.green)
        &&& self.offset + node_text(*self.green).len() <= usize::MAX
    }

    /// The red root over a green tree: offset 0, no parent.
    pub fn new_root(green: &'a GreenNode) -> (r: SyntaxNode<'a>)
        requires
            wf_node(*green),
            node_text(*green).len() <= usize::MAX,
        ensures
            r.wf(),
            r.green == green,
            r.offset == 0,
            r.parent is None,
    {
        SyntaxNode { green, offset: 0, parent: None }
    }

    /// A copy of this red node and of the chain of its parents.
    pub fn duplicate(&self) -> (r: SyntaxNode<'a>)
        ensures
            r == *self,
        decreases self,
    {
        let parent = match &self.parent {
            Some(p) => Some(Box::new(p.duplicate())),
            None => None,
        };
        SyntaxNode { green: self.green, offset: self.offset, parent }
    }

    /// The kind of this node.
    pub fn kind(&self) -> (r: SyntaxKind)
        ensures
            r == self.green.kind,
    {
        self.green.kind
    }

    /// The range of the text below this node.
    pub fn text_range(&self) -> (r: TextRange)
        requires
            self.wf(),
        ensures
            r.start == self.offset,
            r.end == self.offset + node_text(*self.green).len(),
    {
        TextRange { start: self.offset, end: self.offset + self.green.text_len() }
    }

    /// The node this one was reached from, if any.
    pub fn parent(&self) -> (r: Option<SyntaxNode<'a>>)
        ensures
            match self.parent {
                Some(p) => r == Some(*p),
                None => r is None,
            },
    {
        match &self.parent {
            Some(p) => Some(p.duplicate()),
            None => None,
        }
    }

    /// The text below this node.
    pub fn to_text(&self) -> (r: String)
        ensures
            r@ == node_text(*self.green),
    {
        self.green.to_text()
    }

    /// The children of this node in source order, each placed where its text
    /// starts.
    pub fn children(&self) -> (r: Vec<SyntaxElement<'a>>)
        requires
            self.wf(),
        ensures
            r@.len() == self.green.children@.len(),
            forall|i: int|
                0 <= i < r@.len() ==> (#[trigger] r@[i]).placed_at(
                    self.green.children@[i],
                    child_offset(self.green.children@, self.offset as int, i),
                    *self,
                ),
    {
        let cs = &self.green.children;
        let mut out: Vec<SyntaxElement<'a>> = Vec::new();
        let mut off: usize = self.offset;
        let mut k: usize = 0;
        while k < cs.len()
            invariant
                self.wf(),
                cs == &self.green.children,
                k <= cs@.len(),
                out@.len() == k,
                off == child_offset(cs@, self.offset as int, k as int),
                forall|i: int|
                    0 <= i < k ==> (#[trigger] out@[i]).placed_at(
                        cs@[i],
                        child_offset(cs@, self.offset as int, i),
                        *self,
                    ),
            decreases cs@.len() - k,
        {
            proof {
                assert(cs@.subrange(0, k + 1) =~= cs@.subrange(0, k as int).push(cs@[k as int]));
                lemma_children_text_push(cs@.subrange(0, k as int), cs@[k as int]);
                crate::green::lemma_children_text_split(cs@, k + 1);
                assert(wf_elem(cs@[k as int]));
            }
            let child = &cs[k];
            let len = child.text_len();
            let e = match child {
                GreenElement::Node(n) => SyntaxElement::Node(
                    SyntaxNode { green: n, offset: off, parent: Some(Box::new(self.duplicate())) },
                ),
                GreenElement::Token(t) => SyntaxElement::Token(
                    SyntaxToken { green: t, offset: off, parent: self.duplicate() },
                ),
            };
            out.push(e);
            off = off + len;
            k = k + 1;
        }
        out
    }

    /// The enter and leave events of a depth-first, left-to-right walk of this
    /// node and everything below it, tokens included.
    pub fn preorder(&self) -> (r: Vec<WalkEvent>)
        requires
            self.wf(),
        ensures
            r@.len() == elem_events(GreenElement::Node(*self.green), self.offset as int).len(),
            forall|i: int|
                0 <= i < r@.len() ==> (#[trigger] r@[i])@ == elem_events(
                    GreenElement::Node(*self.green),
                    self.offset as int,
                )[i],
    {
        let mut out: Vec<WalkEvent> = Vec::new();
        write_elem_events_node(self.green, self.offset, &mut out);
        proof {
            let s = elem_events(GreenElement::Node(*self.green), self.offset as int);
            assert(events_view(out@) =~= s);
            assert forall|i: int| 0 <= i < out@.len() implies (#[trigger] out@[i])@ == s[i] by {
                assert(events_view(out@)[i] == out@[i]@);
            }
        }
        out
    }
}

/// The views of a run of events.
pub open spec fn events_view(es: Seq<WalkEvent>) -> Seq<EventView> {
    es.map_values(|e: WalkEvent| e@)
}

proof fn lemma_events_view_push(es: Seq<WalkEvent>, e: WalkEvent)
    ensures
        events_view(es.push(e)) == events_view(es).push(e@),
{
    assert(events_view(es.push(e)) =~= events_view(es).push(e@));
}

impl<'a> SyntaxElement<'a> {
    /// This element stands for green element `g`, placed at `off`, under `parent`.
    pub open spec fn placed_at(&self, g: GreenElement, off: int, parent: SyntaxNode<'a>) -> bool {
        match *self {
            SyntaxElement::Node(n) => g == GreenElement::Node(*n.green) && n.offset == off
                && n.parent == Some(Box::new(parent)),
            SyntaxElement::Token(t) => g == GreenElement::Token(*t.green) && t.offset == off
                && t.parent == parent,
        }
    }

    /// The kind of this element.
    pub fn kind(&self) -> (r: SyntaxKind)
        ensures
            r == match *self {
                SyntaxElement::Node(n) => n.green.kind,
                SyntaxElement::Token(t) => t.green.kind,
            },
    {
        match self {
            SyntaxElement::Node(n) => n.green.kind,
            SyntaxElement::Token(t) => t.green.kind,
        }
    }
}

impl<'a> SyntaxToken<'a> {
    /// The kind of this token.
    pub fn kind(&self) -> (r: SyntaxKind)
        ensures
            r == self.green.kind,
    {
        self.green.kind
    }

    /// The range of this token's text.
    pub fn text_range(&self) -> (r: TextRange)
        requires
            self.offset + self.green.text@.len() <= usize::MAX,
        ensures
            r.start == self.offset,
            r.end == self.offset + self.green.text@.len(),
    {
        TextRange { start: self.offset, end: self.offset + self.green.text.len() }
    }

    /// This token's text.
    pub fn text(&self) -> (r: String)
        ensures
            r@ == self.green.text@,
    {
        self.green.text()
    }
}

/// Appends the walk events of `e`, placed at `off`, to `out`.
fn write_elem_events(e: &GreenElement, off: usize, out: &mut Vec<WalkEvent>)
    requires
        wf_elem(*e),
        off + elem_text(*e).len() <= usize::MAX,
    ensures
        events_view(final(out)@) == events_view(old(out)@) + elem_events(*e, off as int),
    decreases *e, 1nat,
{
    match e {
        GreenElement::Token(t) => {
            let end = off + t.text.len();
            let range = TextRange { start: off, end };
            let ghost v0 = out@;
            out.push(WalkEvent::Enter(t.kind, range));
            let ghost v1 = out@;
            out.push(WalkEvent::Leave(t.kind, range));
            proof {
                lemma_events_view_push(v0, WalkEvent::Enter(t.kind, range));
                lemma_events_view_push(v1, WalkEvent::Leave(t.kind, range));
                assert(events_view(out@) =~= events_view(old(out)@) + elem_events(*e, off as int));
            }
        },
        GreenElement::Node(n) => {
            write_elem_events_node(n, off, out);
        },
    }
}

/// Appends the walk events of node `n`, placed at `off`, to `out`.
fn write_elem_events_node(n: &GreenNode, off: usize, out: &mut Vec<WalkEvent>)
    requires
        wf_node(*n),
        off + node_text(*n).len() <= usize::MAX,
    ensures
        events_view(final(out)@) == events_view(old(out)@) + elem_events(
            GreenElement::Node(*n),
            off as int,
        ),
    decreases *n, 2nat,
{
    let end = off + n.text_len;
    let range = TextRange { start: off, end };
    let ghost v0 = out@;
    out.push(WalkEvent::Enter(n.kind, range));
    write_children_events(&n.children, off, out);
    let ghost v2 = out@;
    out.push(WalkEvent::Leave(n.kind, range));
    proof {
        lemma_events_view_push(v0, WalkEvent::Enter(n.kind, range));
        lemma_events_view_push(v2, WalkEvent::Leave(n.kind, range));
        assert(events_view(out@) =~= events_view(old(out)@) + elem_events(
            GreenElement::Node(*n),
            off as int,
        ));
    }
}

/// Appends the walk events of the siblings `cs`, the first placed at `off`, to `out`.
fn write_children_events(cs: &Vec<GreenElement>, off: usize, out: &mut Vec<WalkEvent>)
    requires
        forall|i: int| 0 <= i < cs@.len() ==> wf_elem(#[trigger] cs@[i]),
        off + children_text(cs@).len() <= usize::MAX,
    ensures
        events_view(final(out)@) == events_view(old(out)@) + children_events(cs@, off as int),
    decreases cs, 0nat,
{
    let ghost start = out@;
    let mut k: usize = 0;
    let mut pos: usize = off;
    while k < cs.len()
        invariant
            k <= cs@.len(),
            forall|i: int| 0 <= i < cs@.len() ==> wf_elem(#[trigger] cs@[i]),
            off + children_text(cs@).len() <= usize::MAX,
            pos == child_offset(cs@, off as int, k as int),
            events_view(out@) == events_view(start) + children_events(
                cs@.subrange(0, k as int),
                off as int,
            ),
        decreases cs@.len() - k,
    {
        proof {
            let p = cs@.subrange(0, k as int);
            let p1 = cs@.subrange(0, k + 1);
            assert(p1.drop_last() =~= p);
            lemma_children_text_push(p, cs@[k as int]);
            crate::green::lemma_children_text_split(cs@, k + 1);
        }
        write_elem_events(&cs[k], pos, out);
        pos = pos + cs[k].text_len();
        k = k + 1;
        proof {
            let p1 = cs@.subrange(0, k as int);
            assert(events_view(out@) =~= events_view(start) + children_events(p1, off as int));
        }
    }
    assert(cs@.subrange(0, k as int) =~= cs@);
}

/// The leaf texts below an element, put together in order, are its text.
pub proof fn lemma_leaves_give_text(e: GreenElement)
    ensures
        leaf_texts(elem_leaves(e)) == elem_text(e),
    decreases e, 1nat,
{
    match e {
        GreenElement::Token(t) => {
            let s = elem_leaves(e);
            assert(s.drop_last() =~= seq![]);
            assert(leaf_texts(s.drop_last()) =~= seq![]);
            assert(leaf_texts(s) =~= t.text@);
        },
        GreenElement::Node(n) => {
            lemma_children_leaves_give_text(n.children@);
        },
    }
}

/// The leaf texts below a run of siblings, put together in order, are its text.
pub proof fn lemma_children_leaves_give_text(cs: Seq<GreenElement>)
    ensures
        leaf_texts(children_leaves(cs)) == children_text(cs),
    decreases cs, 0nat,
{
    if cs.len() > 0 {
        lemma_children_leaves_give_text(cs.drop_last());
        lemma_leaves_give_text(cs.last());
        lemma_leaf_texts_append(children_leaves(cs.drop_last()), elem_leaves(cs.last()));
    }
}

/// The texts of a run of leaves, one after another.
pub open spec fn leaf_texts(ls: Seq<(SyntaxKind, Seq<char>)>) -> Seq<char>
    decreases ls.len(),
{
    if ls.len() == 0 {
        seq![]
    } else {
        leaf_texts(ls.drop_last()) + ls.last().1
    }
}

proof fn lemma_leaf_texts_append(a: Seq<(SyntaxKind, Seq<char>)>, b: Seq<(SyntaxKind, Seq<char>)>)
    ensures
        leaf_texts(a + b) == leaf_texts(a) + leaf_texts(b),
    decreases b.len(),
{
    if b.len() == 0 {
        assert(a + b =~= a);
        assert(leaf_texts(a) + seq![] =~= leaf_texts(a));
    } else {
        lemma_leaf_texts_append(a, b.drop_last());
        assert((a + b).drop_last() =~= a + b.drop_last());
        assert((a + b).last() == b.last());
        assert(leaf_texts(a + b) =~= leaf_texts(a) + leaf_texts(b));
    }
}

/// Every node of a tree, and the tree itself, has as its text the leaf texts
/// below it put together in order: what `to_text` returns for a red node is
/// exactly that.
pub proof fn lemma_nesting_balance(n: GreenNode)
    ensures
        leaf_texts(elem_leaves(GreenElement::Node(n))) == node_text(n),
{
    lemma_leaves_give_text(GreenElement::Node(n));
}

/// Listing the children of a red node, or walking it, gives the same kinds and
/// ranges every time: both depend on the green node and the offset alone, which
/// neither operation changes.
pub proof fn lemma_traversal_repeatable(a: SyntaxNode, b: SyntaxNode)
    requires
        *a.green == *b.green,
        a.offset == b.offset,
    ensures
        elem_events(GreenElement::Node(*a.green), a.offset as int) == elem_events(
            GreenElement::Node(*b.green),
            b.offset as int,
        ),
        forall|i: int|
            0 <= i < a.green.children@.len() ==> child_offset(a.green.children@, a.offset as int, i)
                == child_offset(b.green.children@, b.offset as int, i) && a.green.children@[i]
                == b.green.children@[i],
{
}

} // verus!
