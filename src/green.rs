use vstd::prelude::*;

use crate::kind::{is_node_kind, SyntaxKind};

verus! {

broadcast use vstd::std_specs::vec::axiom_vec_decreases_to_view, vstd::seq::axiom_seq_subrange_decreases;

/// A leaf of the green tree: a kind and its own copy of the text.
pub struct GreenToken {
    pub kind: SyntaxKind,
    pub text: Vec<char>,
}

/// An interior node of the green tree: a kind, the children in source order, and
/// the cached length of the text below it.  It holds no position, so it can stand
/// anywhere in a text.
pub struct GreenNode {
    pub kind: SyntaxKind,
    pub children: Vec<GreenElement>,
    pub text_len: usize,
}

/// A child of a green node: a nested node or a token.
pub enum GreenElement {
    Node(GreenNode),
    Token(GreenToken),
}

/// The shape of a green element, as the model sees it: a leaf with its kind and
/// text, or a branch with its kind and children.
pub enum Tree {
    Leaf(SyntaxKind, Seq<char>),
    Branch(SyntaxKind, Seq<Tree>),
}

/// The shape of an element.
pub open spec fn tree_of(e: GreenElement) -> Tree
    decreases e,
{
    match e {
        GreenElement::Token(t) => Tree::Leaf(t.kind, t.text@),
        GreenElement::Node(n) => Tree::Branch(n.kind, trees_of(n.children@)),
    }
}

/// The shapes of a run of siblings.
pub open spec fn trees_of(cs: Seq<GreenElement>) -> Seq<Tree>
    decreases cs,
{
    if cs.len() == 0 {
        seq![]
    } else {
        trees_of(cs.drop_last()).push(tree_of(cs.last()))
    }
}

/// The shapes of `cs` with `e` added at the end.
pub proof fn lemma_trees_of_push(cs: Seq<GreenElement>, e: GreenElement)
    ensures
        trees_of(cs.push(e)) == trees_of(cs).push(tree_of(e)),
{
    assert(cs.push(e).drop_last() =~= cs);
}

/// The text below an element: its leaf texts, in order.
pub open spec fn elem_text(e: GreenElement) -> Seq<char>
    decreases e,
{
    match e {
        GreenElement::Token(t) => t.text@,
        GreenElement::Node(n) => children_text(n.children@),
    }
}

/// The texts of a run of siblings, one after another.
pub open spec fn children_text(cs: Seq<GreenElement>) -> Seq<char>
    decreases cs,
{
    if cs.len() == 0 {
        seq![]
    } else {
        children_text(cs.drop_last()) + elem_text(cs.last())
    }
}

/// The text below a node.
pub open spec fn node_text(n: GreenNode) -> Seq<char> {
    children_text(n.children@)
}

/// An element is well formed: tokens carry token kinds, nodes carry node kinds,
/// and each node caches the length of its text.
pub open spec fn wf_elem(e: GreenElement) -> bool
    decreases e,
{
    match e {
        GreenElement::Token(t) => !is_node_kind(t.kind),
        GreenElement::Node(n) => {
            &&& is_node_kind(n.kind)
            &&& n.text_len == children_text(n.children@).len()
            &&& forall|i: int| 0 <= i < n.children@.len() ==> wf_elem(#[trigger] n.children@[i])
        },
    }
}

/// A node is well formed as an element.
pub open spec fn wf_node(n: GreenNode) -> bool {
    wf_elem(GreenElement::Node(n))
}

/// The texts of siblings add up: the text of `cs` is that of its first `k`
/// elements followed by that of the rest.
pub proof fn lemma_children_text_split(cs: Seq<GreenElement>, k: int)
    requires
        0 <= k <= cs.len(),
    ensures
        children_text(cs) == children_text(cs.subrange(0, k)) + children_text(
            cs.subrange(k, cs.len() as int),
        ),
    decreases cs.len() - k,
{
    if k == cs.len() {
        assert(cs.subrange(0, k) =~= cs);
        assert(cs.subrange(k, cs.len() as int) =~= seq![]);
        assert(children_text(cs) + seq![] =~= children_text(cs));
    } else {
        lemma_children_text_split(cs, k + 1);
        let a = cs.subrange(0, k);
        let b = cs.subrange(k, cs.len() as int);
        let a1 = cs.subrange(0, k + 1);
        let b1 = cs.subrange(k + 1, cs.len() as int);
        assert(a1.drop_last() =~= a);
        assert(a1.last() == cs[k]);
        lemma_children_text_first(b);
        assert(b.drop_first() =~= b1);
        assert(children_text(a1) + children_text(b1) =~= children_text(a) + (elem_text(cs[k])
            + children_text(b1)));
    }
}

/// The text of a non-empty run of siblings is that of the first followed by that of
/// the rest.
pub proof fn lemma_children_text_first(cs: Seq<GreenElement>)
    requires
        cs.len() > 0,
    ensures
        children_text(cs) == elem_text(cs[0]) + children_text(cs.drop_first()),
    decreases cs.len(),
{
    if cs.len() == 1 {
        assert(cs.drop_last() =~= seq![]);
        assert(cs.drop_first() =~= seq![]);
        assert(children_text(cs.drop_last()) =~= seq![]);
        assert(children_text(cs.drop_first()) =~= seq![]);
        assert(children_text(cs) =~= elem_text(cs[0]));
        assert(elem_text(cs[0]) + seq![] =~= elem_text(cs[0]));
    } else {
        let d = cs.drop_last();
        lemma_children_text_first(d);
        assert(d.drop_first() =~= cs.drop_first().drop_last());
        assert(cs.drop_first().last() == cs.last());
        assert(children_text(cs) =~= elem_text(cs[0]) + children_text(cs.drop_first()));
    }
}

/// The text of `cs` with `e` added at the end.
pub proof fn lemma_children_text_push(cs: Seq<GreenElement>, e: GreenElement)
    ensures
        children_text(cs.push(e)) == children_text(cs) + elem_text(e),
{
    assert(cs.push(e).drop_last() =~= cs);
}

impl GreenToken {
    /// The kind of this token.
    pub fn kind(&self) -> (r: SyntaxKind)
        ensures
            r == self.kind,
    {
        self.kind
    }

    /// The length of this token's text.
    pub fn text_len(&self) -> (r: usize)
        ensures
            r == self.text@.len(),
    {
        self.text.len()
    }

    /// This token's text.
    pub fn text(&self) -> (r: String)
        ensures
            r@ == self.text@,
    {
        string_of(&self.text)
    }
}

impl GreenNode {
    /// The kind of this node.
    pub fn kind(&self) -> (r: SyntaxKind)
        ensures
            r == self.kind,
    {
        self.kind
    }

    /// The children of this node, in source order.
    pub fn children(&self) -> (r: &Vec<GreenElement>)
        ensures
            r@ == self.children@,
    {
        &self.children
    }

    /// The length of the text below this node.
    pub fn text_len(&self) -> (r: usize)
        requires
            wf_node(*self),
        ensures
            r == node_text(*self).len(),
    {
        self.text_len
    }

    /// The text below this node: its leaf texts in order.
    pub fn to_text(&self) -> (r: String)
        ensures
            r@ == node_text(*self),
    {
        let mut out: Vec<char> = Vec::new();
        write_children(&self.children, &mut out);
        assert(out@ =~= node_text(*self));
        string_of(&out)
    }
}

impl GreenElement {
    /// The kind of this element.
    pub fn kind(&self) -> (r: SyntaxKind)
        ensures
            r == match *self {
                GreenElement::Node(n) => n.kind,
                GreenElement::Token(t) => t.kind,
            },
    {
        match self {
            GreenElement::Node(n) => n.kind,
            GreenElement::Token(t) => t.kind,
        }
    }

    /// The length of the text below this element.
    pub fn text_len(&self) -> (r: usize)
        requires
            wf_elem(*self),
        ensures
            r == elem_text(*self).len(),
    {
        match self {
            GreenElement::Node(n) => n.text_len,
            GreenElement::Token(t) => t.text.len(),
        }
    }
}

/// Appends the text below `e` to `out`.
pub fn write_elem(e: &GreenElement, out: &mut Vec<char>)
    ensures
        final(out)@ == old(out)@ + elem_text(*e),
    decreases *e, 1nat,
{
    match e {
        GreenElement::Token(t) => {
            let mut k: usize = 0;
            let ghost start = out@;
            while k < t.text.len()
                invariant
                    k <= t.text@.len(),
                    out@ == start + t.text@.subrange(0, k as int),
                decreases t.text@.len() - k,
            {
                out.push(t.text[k]);
                k = k + 1;
                assert(out@ =~= start + t.text@.subrange(0, k as int));
            }
            assert(t.text@.subrange(0, k as int) =~= t.text@);
        },
        GreenElement::Node(n) => {
            write_children(&n.children, out);
        },
    }
}

/// Appends the texts below `cs` to `out`, in order.
pub fn write_children(cs: &Vec<GreenElement>, out: &mut Vec<char>)
    ensures
        final(out)@ == old(out)@ + children_text(cs@),
    decreases cs, 0nat,
{
    let ghost start = out@;
    let mut k: usize = 0;
    while k < cs.len()
        invariant
            k <= cs@.len(),
            out@ == start + children_text(cs@.subrange(0, k as int)),
        decreases cs@.len() - k,
    {
        write_elem(&cs[k], out);
        proof {
            let p = cs@.subrange(0, k as int);
            assert(cs@.subrange(0, k + 1) =~= p.push(cs@[k as int]));
            lemma_children_text_push(p, cs@[k as int]);
        }
        k = k + 1;
    }
    assert(cs@.subrange(0, k as int) =~= cs@);
}

/// Relies on `String`'s `FromIterator<char>`: the string holds the given characters
/// in order.
#[verifier::external_body]
pub(crate) fn string_of(v: &Vec<char>) -> (r: String)
    ensures
        r@ == v@,
{
    v.iter().collect()
}

} // verus!
