use vstd::prelude::*;

use crate::builder::GreenNodeBuilder;
use crate::green::{
    lemma_trees_of_push, node_text, tree_of, trees_of, wf_node, GreenElement, GreenNode, GreenToken,
    Tree,
};
use crate::kind::{is_node_kind, SyntaxKind};
use crate::grammar::{
    error_at, g_array, g_array_rest, g_element, g_member, g_object, g_object_rest, g_root,
    lemma_skip_ws_shorter, leaf, skip_ws, starts_with, t_array, t_array_rest, t_element, t_member,
    t_object, t_object_rest, t_root, t_ws, Outcome,
};
use crate::lexer::{lemma_tokens_from_cover, tokenize, Lexer, TokenView};

verus! {

/// What the grammar asked for where the input broke off.
#[derive(Debug, Clone, Copy, PartialEq, Eq, Structural)]
pub enum Expected {
    /// A value: an object, an array, a literal, a string or a number.
    Element,
    /// A string that names a member of an object.
    Key,
    /// The colon between a key and its value.
    Colon,
    /// A comma or the closing brace of an object.
    CommaOrRightBrace,
    /// A comma or the closing bracket of an array.
    CommaOrRightBracket,
    /// Nothing more: one value has been read.
    EndOfInput,
}

/// A grammar violation: the token found (none at the end of the input), its
/// offset in characters, and what was required there.
#[derive(Debug, Clone, Copy, PartialEq, Eq, Structural)]
pub struct ParseError {
    pub found: Option<SyntaxKind>,
    pub offset: usize,
    pub expected: Expected,
}

/// The result of a successful parse: the root of the green tree.
pub struct Parse {
    pub green_node: GreenNode,
}

/// A recursive-descent parser for JSON that records every token, whitespace
/// included, in a green tree.
pub struct Parser {
    pub lexer: Lexer,
    pub builder: GreenNodeBuilder,
}

/// The parse step went as the grammar says: on success it took exactly the
/// tokens that the grammar reads, on failure it reports where the grammar fails.
pub open spec fn follows(o: Outcome, r: Result<(), ParseError>, after: Seq<TokenView>, input: Seq<char>) -> bool {
    match r {
        Ok(_) => o == Ok::<Seq<TokenView>, (Seq<TokenView>, Expected)>(after),
        Err(e) => o is Err && e == error_at(input, o->Err_0.0, o->Err_0.1),
    }
}

/// Two steps that each added to the innermost open node add up.
pub proof fn lemma_appended_trans(a: &Parser, b: &Parser, c: &Parser, x: Seq<Tree>, y: Seq<Tree>)
    requires
        b.appended(a, x),
        c.appended(b, y),
    ensures
        c.appended(a, x + y),
{
    assert(trees_of(c.builder.frames@.last().children@) =~= trees_of(
        a.builder.frames@.last().children@,
    ) + (x + y));
}

impl Parser {
    /// The parser's parts agree: the builder holds exactly the text the lexer has
    /// handed out.
    pub open spec fn inv(&self) -> bool {
        &&& self.lexer.wf()
        &&& self.builder.wf()
        &&& self.builder.text() == self.lexer.taken()
    }

    /// How much input is left to read.
    pub open spec fn remaining(&self) -> int {
        self.lexer.input@.len() - self.lexer.pos
    }

    /// What a step of the grammar keeps: the invariant, the input, and the open
    /// nodes around it.
    pub open spec fn step(&self, before: &Parser) -> bool {
        &&& self.inv()
        &&& self.lexer.input == before.lexer.input
        &&& self.lexer.pos >= before.lexer.pos
        &&& self.lexer.rest().len() <= before.lexer.rest().len()
    }

    /// A step that went through added `ts` to the innermost open node and
    /// left every other open node, and the top, as they were.
    pub open spec fn appended(&self, before: &Parser, ts: Seq<Tree>) -> bool {
        &&& self.builder.depth() == before.builder.depth()
        &&& self.builder.depth() > 0
        &&& self.builder.top@ == before.builder.top@
        &&& self.builder.frames@.drop_last() == before.builder.frames@.drop_last()
        &&& self.builder.frames@.last().kind == before.builder.frames@.last().kind
        &&& trees_of(self.builder.frames@.last().children@) == trees_of(
            before.builder.frames@.last().children@,
        ) + ts
    }

    /// A parser at the start of `input`, with nothing built.
    pub fn new(input: &str) -> (r: Parser)
        ensures
            r.inv(),
            r.lexer.input@ == input@,
            r.lexer.pos == 0,
            r.lexer.rest() == tokenize(input@),
            r.builder.depth() == 0,
            r.builder.top@.len() == 0,
    {
        Parser { lexer: Lexer::new(input), builder: GreenNodeBuilder::new() }
    }

    /// The kind of the next token, if any.
    fn peek(&self) -> (r: Option<SyntaxKind>)
        requires
            self.inv(),
        ensures
            match r {
                Some(k) => self.lexer.rest().len() > 0 && self.lexer.rest()[0].0 == k
                    && self.lexer.pos < self.lexer.input@.len(),
                None => self.lexer.rest().len() == 0 && self.lexer.pos == self.lexer.input@.len(),
            },
    {
        self.lexer.peek()
    }

    /// The error for finding the next token where `expected` was required.
    fn error(&self, expected: Expected) -> (r: ParseError)
        requires
            self.inv(),
        ensures
            r == error_at(self.lexer.input@, self.lexer.rest(), expected),
    {
        proof {
            lemma_tokens_from_cover(self.lexer.input@, self.lexer.pos as int);
        }
        ParseError { found: self.lexer.peek(), offset: self.lexer.offset(), expected }
    }

    /// Moves the next token into the tree.
    fn bump(&mut self)
        requires
            old(self).inv(),
            old(self).lexer.pos < old(self).lexer.input@.len(),
            old(self).builder.depth() > 0,
        ensures
            final(self).step(old(self)),
            final(self).lexer.pos > old(self).lexer.pos,
            old(self).lexer.rest().len() > 0,
            final(self).appended(old(self), seq![leaf(old(self).lexer.rest()[0])]),
            final(self).lexer.rest() == old(self).lexer.rest().drop_first(),
    {
        let t = self.lexer.next().unwrap();
        proof {
            crate::scan::lemma_scan_bounds(old(self).lexer.input@, old(self).lexer.pos as int);
            assert(!is_node_kind(t.kind));
        }
        let ghost e = GreenElement::Token(GreenToken { kind: t.kind, text: t.text });
        self.builder.token(t.kind, t.text);
        proof {
            let cs = old(self).builder.frames@.last().children@;
            lemma_trees_of_push(cs, e);
            assert(trees_of(cs).push(tree_of(e)) =~= trees_of(cs) + seq![leaf(old(self).lexer.rest()[0])]);
        }
    }

    fn start_node(&mut self, kind: SyntaxKind)
        requires
            old(self).inv(),
            is_node_kind(kind),
        ensures
            final(self).inv(),
            final(self).lexer == old(self).lexer,
            final(self).builder.depth() == old(self).builder.depth() + 1,
            final(self).builder.top@ == old(self).builder.top@,
            final(self).builder.frames@.drop_last() == old(self).builder.frames@,
            final(self).builder.frames@.last().kind == kind,
            trees_of(final(self).builder.frames@.last().children@) == Seq::<Tree>::empty(),
    {
        self.builder.start_node(kind);
        assert(trees_of(self.builder.frames@.last().children@) =~= Seq::<Tree>::empty());
    }

    fn finish_node(&mut self)
        requires
            old(self).inv(),
            old(self).builder.depth() > 0,
        ensures
            final(self).inv(),
            final(self).lexer == old(self).lexer,
            final(self).builder.depth() + 1 == old(self).builder.depth(),
            ({
                let inner = old(self).builder.frames@.last();
                let node = GreenElement::Node(
                    GreenNode { kind: inner.kind, children: inner.children, text_len: inner.len },
                );
                &&& final(self).builder.depth() == 0 ==> final(self).builder.top@ == old(
                    self,
                ).builder.top@.push(node)
                &&& final(self).builder.depth() > 0 ==> {
                    &&& final(self).builder.top@ == old(self).builder.top@
                    &&& final(self).builder.frames@.drop_last() == old(
                        self,
                    ).builder.frames@.drop_last().drop_last()
                    &&& final(self).builder.frames@.last().kind == old(
                        self,
                    ).builder.frames@.drop_last().last().kind
                    &&& trees_of(final(self).builder.frames@.last().children@) == trees_of(
                        old(self).builder.frames@.drop_last().last().children@,
                    ).push(tree_of(node))
                }
            }),
    {
        let ghost inner = old(self).builder.frames@.last();
        let ghost node = GreenElement::Node(
            GreenNode { kind: inner.kind, children: inner.children, text_len: inner.len },
        );
        self.builder.finish_node();
        proof {
            if self.builder.depth() > 0 {
                lemma_trees_of_push(old(self).builder.frames@.drop_last().last().children@, node);
            }
        }
    }

    /// Moves whitespace tokens into the tree until the next token is something else.
    pub fn skip_whitespace(&mut self)
        requires
            old(self).inv(),
            old(self).builder.depth() > 0,
        ensures
            final(self).step(old(self)),
            final(self).appended(old(self), t_ws(old(self).lexer.rest())),
            final(self).lexer.rest() == skip_ws(old(self).lexer.rest()),
    {
        let ghost s0 = *self;
        while self.peek() == Some(SyntaxKind::Whitespace)
            invariant
                self.step(&s0),
                self.appended(&s0, t_ws(s0.lexer.rest()).subrange(0, t_ws(s0.lexer.rest()).len() - t_ws(self.lexer.rest()).len())),
                t_ws(s0.lexer.rest()) == t_ws(s0.lexer.rest()).subrange(0, t_ws(s0.lexer.rest()).len() - t_ws(self.lexer.rest()).len()) + t_ws(self.lexer.rest()),
                skip_ws(self.lexer.rest()) == skip_ws(s0.lexer.rest()),
            decreases self.remaining(),
        {
            let ghost s1 = *self;
            self.bump();
            proof {
                let all = t_ws(s0.lexer.rest());
                let a = all.subrange(0, all.len() - t_ws(s1.lexer.rest()).len());
                let b = all.subrange(0, all.len() - t_ws(self.lexer.rest()).len());
                assert(t_ws(s1.lexer.rest()) == seq![leaf(s1.lexer.rest()[0])] + t_ws(self.lexer.rest()));
                assert(b =~= a + seq![leaf(s1.lexer.rest()[0])]);
                lemma_appended_trans(&s0, &s1, self, a, seq![leaf(s1.lexer.rest()[0])]);
                assert(all =~= b + t_ws(self.lexer.rest()));
            }
        }
        proof {
            let all = t_ws(s0.lexer.rest());
            assert(t_ws(self.lexer.rest()) =~= Seq::<Tree>::empty());
            assert(all.subrange(0, all.len() - 0) =~= all);
        }
    }

    /// Reads one value with the whitespace around it.
    pub fn parse_element(&mut self) -> (r: Result<(), ParseError>)
        requires
            old(self).inv(),
            old(self).builder.depth() > 0,
        ensures
            final(self).step(old(self)),
            r is Ok ==> final(self).appended(old(self), t_element(old(self).lexer.rest())),
            follows(g_element(old(self).lexer.rest()), r, final(self).lexer.rest(), old(self).lexer.input@),
        decreases old(self).remaining(), 2nat,
    {
        let ghost s0 = *self;
        self.skip_whitespace();
        let ghost s1 = *self;
        proof {
            lemma_skip_ws_shorter(s0.lexer.rest());
        }
        match self.peek() {
            Some(SyntaxKind::LeftBrace) => {
                self.parse_object()?;
            },
            Some(SyntaxKind::LeftBracket) => {
                self.parse_array()?;
            },
            Some(SyntaxKind::True) | Some(SyntaxKind::False) | Some(SyntaxKind::Null) | Some(
                SyntaxKind::String,
            ) | Some(SyntaxKind::Number) => {
                self.bump();
            },
            _ => {
                return Err(self.error(Expected::Element));
            },
        }
        let ghost s2 = *self;
        self.skip_whitespace();
        proof {
            let r1 = s1.lexer.rest();
            let k = r1[0].0;
            let body: Seq<Tree> = if k == SyntaxKind::LeftBrace {
                seq![Tree::Branch(SyntaxKind::Object, t_object(r1))]
            } else if k == SyntaxKind::LeftBracket {
                seq![Tree::Branch(SyntaxKind::Array, t_array(r1))]
            } else {
                seq![leaf(r1[0])]
            };
            lemma_appended_trans(&s0, &s1, &s2, t_ws(s0.lexer.rest()), body);
            lemma_appended_trans(&s0, &s2, self, t_ws(s0.lexer.rest()) + body, t_ws(s2.lexer.rest()));
        }
        Ok(())
    }

    /// Reads one member of an object: a key, a colon and a value.
    pub fn parse_member(&mut self) -> (r: Result<(), ParseError>)
        requires
            old(self).inv(),
            old(self).builder.depth() > 0,
        ensures
            final(self).step(old(self)),
            r is Ok ==> final(self).appended(old(self), t_member(old(self).lexer.rest())),
            follows(g_member(old(self).lexer.rest()), r, final(self).lexer.rest(), old(self).lexer.input@),
        decreases old(self).remaining(), 3nat,
    {
        let ghost s0 = *self;
        self.skip_whitespace();
        let ghost s1 = *self;
        proof {
            lemma_skip_ws_shorter(s0.lexer.rest());
        }
        if self.peek() == Some(SyntaxKind::String) {
            self.bump();
        } else {
            return Err(self.error(Expected::Key));
        }
        let ghost s2 = *self;
        self.skip_whitespace();
        let ghost s3 = *self;
        proof {
            lemma_skip_ws_shorter(s2.lexer.rest());
        }
        if self.peek() == Some(SyntaxKind::Colon) {
            self.bump();
        } else {
            return Err(self.error(Expected::Colon));
        }
        let ghost s4 = *self;
        let r = self.parse_element();
        proof {
            if r is Ok {
                let a = t_ws(s0.lexer.rest());
                let b = seq![leaf(s1.lexer.rest()[0])];
                let c = t_ws(s2.lexer.rest());
                let d = seq![leaf(s3.lexer.rest()[0])];
                let e = t_element(s4.lexer.rest());
                lemma_appended_trans(&s0, &s1, &s2, a, b);
                lemma_appended_trans(&s0, &s2, &s3, a + b, c);
                lemma_appended_trans(&s0, &s3, &s4, a + b + c, d);
                lemma_appended_trans(&s0, &s4, self, a + b + c + d, e);
            }
        }
        r
    }

    /// Reads an array, from its opening bracket to its closing one.
    fn parse_array(&mut self) -> (r: Result<(), ParseError>)
        requires
            old(self).inv(),
            old(self).builder.depth() > 0,
            old(self).lexer.rest().len() > 0,
            old(self).lexer.rest()[0].0 == SyntaxKind::LeftBracket,
        ensures
            final(self).step(old(self)),
            r is Ok ==> final(self).appended(
                old(self),
                seq![Tree::Branch(SyntaxKind::Array, t_array(old(self).lexer.rest()))],
            ),
            follows(g_array(old(self).lexer.rest()), r, final(self).lexer.rest(), old(self).lexer.input@),
        decreases old(self).remaining(), 1nat,
    {
        let ghost s0 = *self;
        let ghost big = t_array(s0.lexer.rest());
        self.start_node(SyntaxKind::Array);
        let ghost s1 = *self;
        self.bump();
        let ghost s2 = *self;
        self.skip_whitespace();
        let ghost s3 = *self;
        proof {
            lemma_skip_ws_shorter(s2.lexer.rest());
            lemma_appended_trans(&s1, &s2, &s3, seq![leaf(s1.lexer.rest()[0])], t_ws(s2.lexer.rest()));
        }
        if self.peek() != Some(SyntaxKind::RightBracket) {
            self.parse_element()?;
        }
        let ghost s4 = *self;
        let ghost first_trees: Seq<Tree> = if starts_with(s3.lexer.rest(), SyntaxKind::RightBracket) {
            seq![]
        } else {
            t_element(s3.lexer.rest())
        };
        proof {
            if starts_with(s3.lexer.rest(), SyntaxKind::RightBracket) {
                assert(trees_of(s4.builder.frames@.last().children@) =~= trees_of(s3.builder.frames@.last().children@) + first_trees);
            }
        }
        self.skip_whitespace();
        proof {
            lemma_skip_ws_shorter(s4.lexer.rest());
            let pre = seq![leaf(s1.lexer.rest()[0])] + t_ws(s2.lexer.rest());
            lemma_appended_trans(&s1, &s3, &s4, pre, first_trees);
            lemma_appended_trans(&s1, &s4, self, pre + first_trees, t_ws(s4.lexer.rest()));
            assert(big == pre + first_trees + t_ws(s4.lexer.rest()) + t_array_rest(self.lexer.rest()));
        }
        while self.peek() == Some(SyntaxKind::Comma)
            invariant
                s0 == *old(self),
                s1.lexer == s0.lexer,
                s1.builder.frames@.drop_last() == s0.builder.frames@,
                s1.builder.depth() == s0.builder.depth() + 1,
                s1.builder.top@ == s0.builder.top@,
                s1.builder.depth() > 1,
                self.step(&s1),
                self.lexer.pos > s0.lexer.pos,
                self.builder.depth() == s1.builder.depth() + 0,
                self.builder.depth() > 1,
                self.builder.top@ == s1.builder.top@,
                self.builder.frames@.drop_last() == s1.builder.frames@.drop_last(),
                self.builder.frames@.last().kind == SyntaxKind::Array,
                trees_of(self.builder.frames@.last().children@) + t_array_rest(self.lexer.rest()) == big,
                g_array(s0.lexer.rest()) == g_array_rest(self.lexer.rest()),
            decreases self.remaining(),
        {
            let ghost t0 = *self;
            self.bump();
            let ghost t1 = *self;
            self.parse_element()?;
            proof {
                let c = seq![leaf(t0.lexer.rest()[0])];
                let e = t_element(t1.lexer.rest());
                assert(t_array_rest(t0.lexer.rest()) == c + e + t_array_rest(self.lexer.rest()));
                assert(trees_of(self.builder.frames@.last().children@) + t_array_rest(self.lexer.rest())
                    =~= trees_of(t0.builder.frames@.last().children@) + t_array_rest(t0.lexer.rest()));
            }
        }
        if self.peek() == Some(SyntaxKind::RightBracket) {
            self.bump();
            let ghost t1 = *self;
            self.finish_node();
            proof {
                assert(trees_of(t1.builder.frames@.last().children@) =~= big);
                assert(s1.builder.frames@.drop_last() == s0.builder.frames@);
                assert(trees_of(self.builder.frames@.last().children@) =~= trees_of(
                    s0.builder.frames@.last().children@,
                ) + seq![Tree::Branch(SyntaxKind::Array, big)]);
            }
            Ok(())
        } else {
            Err(self.error(Expected::CommaOrRightBracket))
        }
    }

    /// Reads an object, from its opening brace to its closing one.
    fn parse_object(&mut self) -> (r: Result<(), ParseError>)
        requires
            old(self).inv(),
            old(self).builder.depth() > 0,
            old(self).lexer.rest().len() > 0,
            old(self).lexer.rest()[0].0 == SyntaxKind::LeftBrace,
        ensures
            final(self).step(old(self)),
            r is Ok ==> final(self).appended(
                old(self),
                seq![Tree::Branch(SyntaxKind::Object, t_object(old(self).lexer.rest()))],
            ),
            follows(g_object(old(self).lexer.rest()), r, final(self).lexer.rest(), old(self).lexer.input@),
        decreases old(self).remaining(), 1nat,
    {
        let ghost s0 = *self;
        let ghost big = t_object(s0.lexer.rest());
        self.start_node(SyntaxKind::Object);
        let ghost s1 = *self;
        self.bump();
        let ghost s2 = *self;
        self.skip_whitespace();
        let ghost s3 = *self;
        proof {
            lemma_skip_ws_shorter(s2.lexer.rest());
            lemma_appended_trans(&s1, &s2, &s3, seq![leaf(s1.lexer.rest()[0])], t_ws(s2.lexer.rest()));
        }
        if self.peek() != Some(SyntaxKind::RightBrace) {
            self.parse_member()?;
        }
        let ghost first_trees: Seq<Tree> = if starts_with(s3.lexer.rest(), SyntaxKind::RightBrace) {
            seq![]
        } else {
            t_member(s3.lexer.rest())
        };
        proof {
            if starts_with(s3.lexer.rest(), SyntaxKind::RightBrace) {
                assert(trees_of(self.builder.frames@.last().children@) =~= trees_of(s3.builder.frames@.last().children@) + first_trees);
            }
            let pre = seq![leaf(s1.lexer.rest()[0])] + t_ws(s2.lexer.rest());
            lemma_appended_trans(&s1, &s3, self, pre, first_trees);
            assert(big == pre + first_trees + t_object_rest(self.lexer.rest()));
        }
        while self.peek() == Some(SyntaxKind::Comma)
            invariant
                s0 == *old(self),
                s1.lexer == s0.lexer,
                s1.builder.frames@.drop_last() == s0.builder.frames@,
                s1.builder.depth() == s0.builder.depth() + 1,
                s1.builder.top@ == s0.builder.top@,
                s1.builder.depth() > 1,
                self.step(&s1),
                self.lexer.pos > s0.lexer.pos,
                self.builder.depth() == s1.builder.depth() + 0,
                self.builder.depth() > 1,
                self.builder.top@ == s1.builder.top@,
                self.builder.frames@.drop_last() == s1.builder.frames@.drop_last(),
                self.builder.frames@.last().kind == SyntaxKind::Object,
                trees_of(self.builder.frames@.last().children@) + t_object_rest(self.lexer.rest()) == big,
                g_object(s0.lexer.rest()) == g_object_rest(self.lexer.rest()),
            decreases self.remaining(),
        {
            let ghost t0 = *self;
            self.bump();
            let ghost t1 = *self;
            self.parse_member()?;
            proof {
                let c = seq![leaf(t0.lexer.rest()[0])];
                let e = t_member(t1.lexer.rest());
                assert(t_object_rest(t0.lexer.rest()) == c + e + t_object_rest(self.lexer.rest()));
                assert(trees_of(self.builder.frames@.last().children@) + t_object_rest(self.lexer.rest())
                    =~= trees_of(t0.builder.frames@.last().children@) + t_object_rest(t0.lexer.rest()));
            }
        }
        if self.peek() == Some(SyntaxKind::RightBrace) {
            self.bump();
            let ghost t1 = *self;
            self.finish_node();
            proof {
                assert(trees_of(t1.builder.frames@.last().children@) =~= big);
                assert(s1.builder.frames@.drop_last() == s0.builder.frames@);
                assert(trees_of(self.builder.frames@.last().children@) =~= trees_of(
                    s0.builder.frames@.last().children@,
                ) + seq![Tree::Branch(SyntaxKind::Object, big)]);
            }
            Ok(())
        } else {
            Err(self.error(Expected::CommaOrRightBrace))
        }
    }

    /// Parses the whole input into a tree under a `Root` node: whitespace and at
    /// most one value, nothing after it.
    pub fn parse(self) -> (r: Result<Parse, ParseError>)
        requires
            self.inv(),
            self.lexer.pos == 0,
            self.builder.depth() == 0,
            self.builder.top@.len() == 0,
        ensures
            r is Ok <==> g_root(tokenize(self.lexer.input@)) is Ok,
            r matches Ok(p) ==> {
                &&& wf_node(p.green_node)
                &&& p.green_node.kind == SyntaxKind::Root
                &&& node_text(p.green_node) == self.lexer.input@
                &&& tree_of(GreenElement::Node(p.green_node)) == t_root(tokenize(self.lexer.input@))
            },
            r matches Err(e) ==> e == error_at(
                self.lexer.input@,
                g_root(tokenize(self.lexer.input@))->Err_0.0,
                g_root(tokenize(self.lexer.input@))->Err_0.1,
            ),
    {
        let mut p = self;
        p.start_node(SyntaxKind::Root);
        let ghost s1 = p;
        p.skip_whitespace();
        let ghost s2 = p;
        if p.peek().is_some() {
            p.parse_element()?;
        }
        let ghost rest_trees: Seq<Tree> = if s2.lexer.rest().len() > 0 {
            t_element(s2.lexer.rest())
        } else {
            seq![]
        };
        proof {
            if s2.lexer.rest().len() == 0 {
                assert(trees_of(p.builder.frames@.last().children@) =~= trees_of(s2.builder.frames@.last().children@) + rest_trees);
            }
            lemma_appended_trans(&s1, &s2, &p, t_ws(s1.lexer.rest()), rest_trees);
        }
        if p.peek().is_some() {
            return Err(p.error(Expected::EndOfInput));
        }
        let ghost s3 = p;
        p.finish_node();
        proof {
            assert(p.lexer.taken() =~= p.lexer.input@);
            assert(trees_of(s3.builder.frames@.last().children@) =~= t_ws(s1.lexer.rest()) + rest_trees);
        }
        let green_node = p.builder.finish();
        Ok(Parse { green_node })
    }
}

/// Parses `input` into a lossless tree, or reports the first grammar violation.
pub fn parse(input: &str) -> (r: Result<Parse, ParseError>)
    ensures
        r is Ok <==> g_root(tokenize(input@)) is Ok,
        r matches Err(e) ==> e == error_at(
            input@,
            g_root(tokenize(input@))->Err_0.0,
            g_root(tokenize(input@))->Err_0.1,
        ),
        r matches Ok(p) ==> {
            &&& wf_node(p.green_node)
            &&& p.green_node.kind == SyntaxKind::Root
            &&& node_text(p.green_node) == input@
            &&& tree_of(GreenElement::Node(p.green_node)) == t_root(tokenize(input@))
        },
{
    Parser::new(input).parse()
}

} // verus!
