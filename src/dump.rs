use vstd::prelude::*;

use crate::green::{
    children_text, elem_text, lemma_children_text_push, lemma_children_text_split, node_text,
    string_of, wf_elem, wf_node, GreenElement, GreenNode,
};
use crate::kind::{kind_name, SyntaxKind};
use crate::lexer::chars_of;
use crate::red::{child_offset, SyntaxNode};

verus! {

broadcast use vstd::std_specs::vec::axiom_vec_decreases_to_view, vstd::seq::axiom_seq_subrange_decreases;

/// The character of a decimal digit.
pub open spec fn digit_char(d: nat) -> char {
    if d == 0 {
        '0'
    } else if d == 1 {
        '1'
    } else if d == 2 {
        '2'
    } else if d == 3 {
        '3'
    } else if d == 4 {
        '4'
    } else if d == 5 {
        '5'
    } else if d == 6 {
        '6'
    } else if d == 7 {
        '7'
    } else if d == 8 {
        '8'
    } else {
        '9'
    }
}

/// The decimal digits of `n`, most significant first.
pub open spec fn decimal(n: nat) -> Seq<char>
    decreases n,
{
    if n < 10 {
        seq![digit_char(n)]
    } else {
        decimal(n / 10).push(digit_char(n % 10))
    }
}

/// How a character of token text is printed between quotes.
pub open spec fn escape_char(c: char) -> Seq<char> {
    if c == '"' {
        seq!['\\', '"']
    } else if c == '\\' {
        seq!['\\', '\\']
    } else if c == '\n' {
        seq!['\\', 'n']
    } else if c == '\r' {
        seq!['\\', 'r']
    } else if c == '\t' {
        seq!['\\', 't']
    } else if c == '\x0c' {
        seq!['\\', 'u', '{', 'c', '}']
    } else {
        seq![c]
    }
}

/// Token text as printed between quotes.
pub open spec fn escaped(s: Seq<char>) -> Seq<char>
    decreases s.len(),
{
    if s.len() == 0 {
        seq![]
    } else {
        escaped(s.drop_last()) + escape_char(s.last())
    }
}

/// Two spaces for each level of depth.
pub open spec fn indent(depth: nat) -> Seq<char> {
    Seq::new(2 * depth, |i: int| ' ')
}

/// The depth of the children of a node at depth `d`; it stays at the largest
/// `usize` once there.
pub open spec fn next_depth(d: nat) -> nat {
    if d < usize::MAX {
        d + 1
    } else {
        d
    }
}

/// `Kind@start..end`.
pub open spec fn head(k: SyntaxKind, start: nat, end: nat) -> Seq<char> {
    kind_name(k) + seq!['@'] + decimal(start) + seq!['.', '.'] + decimal(end)
}

/// The lines that print `e`, placed at `off`, at the given depth: one line per
/// node or token, tokens with their text in quotes.
pub open spec fn elem_dump(e: GreenElement, off: nat, depth: nat) -> Seq<char>
    decreases e,
{
    let end = off + elem_text(e).len();
    match e {
        GreenElement::Token(t) => indent(depth) + head(t.kind, off, end) + seq![' ', '"']
            + escaped(t.text@) + seq!['"', '\n'],
        GreenElement::Node(n) => indent(depth) + head(n.kind, off, end) + seq!['\n']
            + children_dump(n.children@, off, next_depth(depth)),
    }
}

/// The lines that print a run of siblings that starts at `off`.
pub open spec fn children_dump(cs: Seq<GreenElement>, off: nat, depth: nat) -> Seq<char>
    decreases cs,
{
    if cs.len() == 0 {
        seq![]
    } else {
        children_dump(cs.drop_last(), off, depth) + elem_dump(
            cs.last(),
            off + children_text(cs.drop_last()).len(),
            depth,
        )
    }
}

fn digit_of(d: usize) -> (r: char)
    requires
        d < 10,
    ensures
        r == digit_char(d as nat),
{
    if d == 0 {
        '0'
    } else if d == 1 {
        '1'
    } else if d == 2 {
        '2'
    } else if d == 3 {
        '3'
    } else if d == 4 {
        '4'
    } else if d == 5 {
        '5'
    } else if d == 6 {
        '6'
    } else if d == 7 {
        '7'
    } else if d == 8 {
        '8'
    } else {
        '9'
    }
}

/// Appends the decimal digits of `n`.
pub fn push_decimal(out: &mut Vec<char>, n: usize)
    ensures
        final(out)@ == old(out)@ + decimal(n as nat),
    decreases n,
{
    if n < 10 {
        out.push(digit_of(n));
        assert(decimal(n as nat) =~= seq![digit_char(n as nat)]);
    } else {
        push_decimal(out, n / 10);
        out.push(digit_of(n % 10));
        assert(old(out)@ + decimal(n as nat) =~= old(out)@ + decimal((n / 10) as nat) + seq![
            digit_char((n % 10) as nat),
        ]);
    }
}

fn push_str(out: &mut Vec<char>, s: &str)
    ensures
        final(out)@ == old(out)@ + s@,
{
    let mut v = chars_of(s);
    out.append(&mut v);
}

fn push_escaped(out: &mut Vec<char>, s: &Vec<char>)
    ensures
        final(out)@ == old(out)@ + escaped(s@),
{
    let ghost start = out@;
    let mut k: usize = 0;
    while k < s.len()
        invariant
            k <= s@.len(),
            out@ == start + escaped(s@.subrange(0, k as int)),
        decreases s@.len() - k,
    {
        let c = s[k];
        if c == '"' {
            push_str(out, "\\\"");
        } else if c == '\\' {
            push_str(out, "\\\\");
        } else if c == '\n' {
            push_str(out, "\\n");
        } else if c == '\r' {
            push_str(out, "\\r");
        } else if c == '\t' {
            push_str(out, "\\t");
        } else if c == '\x0c' {
            push_str(out, "\\u{c}");
        } else {
            out.push(c);
        }
        proof {
            reveal_strlit("\\\"");
            reveal_strlit("\\\\");
            reveal_strlit("\\n");
            reveal_strlit("\\r");
            reveal_strlit("\\t");
            reveal_strlit("\\u{c}");
            assert(s@.subrange(0, k + 1).drop_last() =~= s@.subrange(0, k as int));
            assert(out@ =~= start + escaped(s@.subrange(0, k + 1)));
        }
        k = k + 1;
    }
    assert(s@.subrange(0, k as int) =~= s@);
}

fn push_head(out: &mut Vec<char>, k: SyntaxKind, start: usize, end: usize)
    ensures
        final(out)@ == old(out)@ + head(k, start as nat, end as nat),
{
    push_str(out, k.name());
    out.push('@');
    push_decimal(out, start);
    out.push('.');
    out.push('.');
    push_decimal(out, end);
    assert(final(out)@ =~= old(out)@ + head(k, start as nat, end as nat));
}

fn push_indent(out: &mut Vec<char>, depth: usize)
    ensures
        final(out)@ == old(out)@ + indent(depth as nat),
{
    let ghost start = out@;
    let mut k: usize = 0;
    while k < depth
        invariant
            k <= depth,
            out@ == start + Seq::new(2 * k as nat, |i: int| ' '),
        decreases depth - k,
    {
        out.push(' ');
        out.push(' ');
        k = k + 1;
        assert(out@ =~= start + Seq::new(2 * k as nat, |i: int| ' '));
    }
}

fn write_elem_dump(e: &GreenElement, off: usize, depth: usize, out: &mut Vec<char>)
    requires
        wf_elem(*e),
        off + elem_text(*e).len() <= usize::MAX,
    ensures
        final(out)@ == old(out)@ + elem_dump(*e, off as nat, depth as nat),
    decreases *e, 1nat,
{
    match e {
        GreenElement::Token(t) => {
            push_indent(out, depth);
            push_head(out, t.kind, off, off + t.text.len());
            out.push(' ');
            out.push('"');
            push_escaped(out, &t.text);
            out.push('"');
            out.push('\n');
            assert(final(out)@ =~= old(out)@ + elem_dump(*e, off as nat, depth as nat));
        },
        GreenElement::Node(n) => {
            write_node_dump(n, off, depth, out);
        },
    }
}

fn write_node_dump(n: &GreenNode, off: usize, depth: usize, out: &mut Vec<char>)
    requires
        wf_node(*n),
        off + node_text(*n).len() <= usize::MAX,
    ensures
        final(out)@ == old(out)@ + elem_dump(GreenElement::Node(*n), off as nat, depth as nat),
    decreases *n, 2nat,
{
    push_indent(out, depth);
    push_head(out, n.kind, off, off + n.text_len);
    out.push('\n');
    let inner: usize = if depth < usize::MAX { depth + 1 } else { depth };
    write_children_dump(&n.children, off, inner, out);
    assert(final(out)@ =~= old(out)@ + elem_dump(GreenElement::Node(*n), off as nat, depth as nat));
}

fn write_children_dump(cs: &Vec<GreenElement>, off: usize, depth: usize, out: &mut Vec<char>)
    requires
        forall|i: int| 0 <= i < cs@.len() ==> wf_elem(#[trigger] cs@[i]),
        off + children_text(cs@).len() <= usize::MAX,
    ensures
        final(out)@ == old(out)@ + children_dump(cs@, off as nat, depth as nat),
    decreases cs, 0nat,
{
    let ghost start = out@;
    let mut k: usize = 0;
    let mut pos: usize = off;
    while k < cs.len()
        invariant
            k <= cs@.len(),
            forall|i: int| 0 <= i < cs@.len() ==> wf_elem(#[trigger] cs@[i]),
            off + children_text(cs@).len() <= usize::MAX,
                pos == child_offset(cs@, off as int, k as int),
            out@ == start + children_dump(cs@.subrange(0, k as int), off as nat, depth as nat),
        decreases cs@.len() - k,
    {
        proof {
            let p = cs@.subrange(0, k as int);
            let p1 = cs@.subrange(0, k + 1);
            assert(p1.drop_last() =~= p);
            lemma_children_text_push(p, cs@[k as int]);
            lemma_children_text_split(cs@, k + 1);
        }
        write_elem_dump(&cs[k], pos, depth, out);
        pos = pos + cs[k].text_len();
        k = k + 1;
        proof {
            let p1 = cs@.subrange(0, k as int);
            assert(out@ =~= start + children_dump(p1, off as nat, depth as nat));
        }
    }
    assert(cs@.subrange(0, k as int) =~= cs@);
}

impl<'a> SyntaxNode<'a> {
    /// A printout of this node and everything below it: one line per node or
    /// token, `Kind@start..end`, indented by two spaces per level, tokens followed
    /// by their text in quotes.  Each line ends with a newline.
    pub fn debug_dump(&self) -> (r: String)
        requires
            self.wf(),
        ensures
            r@ == elem_dump(GreenElement::Node(*self.green), self.offset as nat, 0),
    {
        let mut out: Vec<char> = Vec::new();
        write_node_dump(self.green, self.offset, 0, &mut out);
        assert(out@ =~= elem_dump(GreenElement::Node(*self.green), self.offset as nat, 0));
        string_of(&out)
    }
}

} // verus!
