use vstd::prelude::*;

use crate::green::Tree;
use crate::kind::SyntaxKind;
use crate::lexer::{concat_texts, tokenize, TokenView};
use crate::parser::{Expected, ParseError};

verus! {

/// The outcome of reading part of the grammar from a run of tokens: the tokens
/// left after it, or the tokens left where it failed and what was required there.
pub type Outcome = Result<Seq<TokenView>, (Seq<TokenView>, Expected)>;

/// Whether the first of `r` has kind `k`.
pub open spec fn starts_with(r: Seq<TokenView>, k: SyntaxKind) -> bool {
    r.len() > 0 && r[0].0 == k
}

/// The tokens left after the leading whitespace tokens.
pub open spec fn skip_ws(r: Seq<TokenView>) -> Seq<TokenView>
    decreases r.len(),
{
    if starts_with(r, SyntaxKind::Whitespace) {
        skip_ws(r.drop_first())
    } else {
        r
    }
}

/// A value with the whitespace around it.
pub open spec fn g_element(r: Seq<TokenView>) -> Outcome
    decreases r.len(), 2nat,
{
    let r1 = skip_ws(r);
    if r1.len() > r.len() || r1.len() == 0 {
        Err((r1, Expected::Element))
    } else {
        let k = r1[0].0;
        let body: Outcome = if k == SyntaxKind::LeftBrace {
            g_object(r1)
        } else if k == SyntaxKind::LeftBracket {
            g_array(r1)
        } else if k == SyntaxKind::True || k == SyntaxKind::False || k == SyntaxKind::Null || k
            == SyntaxKind::String || k == SyntaxKind::Number {
            Ok(r1.drop_first())
        } else {
            Err((r1, Expected::Element))
        };
        match body {
            Ok(r2) => Ok(skip_ws(r2)),
            Err(e) => Err(e),
        }
    }
}

/// A member of an object: whitespace, a key, whitespace, a colon and a value.
pub open spec fn g_member(r: Seq<TokenView>) -> Outcome
    decreases r.len(), 3nat,
{
    let r1 = skip_ws(r);
    if r1.len() > r.len() || !starts_with(r1, SyntaxKind::String) {
        Err((r1, Expected::Key))
    } else {
        let r2 = skip_ws(r1.drop_first());
        if r2.len() >= r.len() || !starts_with(r2, SyntaxKind::Colon) {
            Err((r2, Expected::Colon))
        } else {
            g_element(r2.drop_first())
        }
    }
}

/// An object, from its opening brace on.
pub open spec fn g_object(r: Seq<TokenView>) -> Outcome
    decreases r.len(), 1nat,
{
    if r.len() == 0 {
        Err((r, Expected::Element))
    } else {
        let r1 = skip_ws(r.drop_first());
        if r1.len() >= r.len() {
            Err((r1, Expected::Key))
        } else {
            let first: Outcome = if starts_with(r1, SyntaxKind::RightBrace) {
                Ok(r1)
            } else {
                g_member(r1)
            };
            match first {
                Ok(r2) => if r2.len() > r.len() {
                    Err((r2, Expected::CommaOrRightBrace))
                } else {
                    g_object_rest(r2)
                },
                Err(e) => Err(e),
            }
        }
    }
}

/// The rest of an object: members after commas, then the closing brace.
pub open spec fn g_object_rest(r: Seq<TokenView>) -> Outcome
    decreases r.len(), 0nat,
{
    if starts_with(r, SyntaxKind::Comma) {
        match g_member(r.drop_first()) {
            Ok(r1) => if r1.len() >= r.len() {
                Err((r1, Expected::CommaOrRightBrace))
            } else {
                g_object_rest(r1)
            },
            Err(e) => Err(e),
        }
    } else if starts_with(r, SyntaxKind::RightBrace) {
        Ok(r.drop_first())
    } else {
        Err((r, Expected::CommaOrRightBrace))
    }
}

/// An array, from its opening bracket on.
pub open spec fn g_array(r: Seq<TokenView>) -> Outcome
    decreases r.len(), 1nat,
{
    if r.len() == 0 {
        Err((r, Expected::Element))
    } else {
        let r1 = skip_ws(r.drop_first());
        if r1.len() >= r.len() {
            Err((r1, Expected::Element))
        } else {
            let first: Outcome = if starts_with(r1, SyntaxKind::RightBracket) {
                Ok(r1)
            } else {
                g_element(r1)
            };
            match first {
                Ok(r2) => if skip_ws(r2).len() > r.len() {
                    Err((r2, Expected::CommaOrRightBracket))
                } else {
                    g_array_rest(skip_ws(r2))
                },
                Err(e) => Err(e),
            }
        }
    }
}

/// The rest of an array: values after commas, then the closing bracket.
pub open spec fn g_array_rest(r: Seq<TokenView>) -> Outcome
    decreases r.len(), 0nat,
{
    if starts_with(r, SyntaxKind::Comma) {
        match g_element(r.drop_first()) {
            Ok(r1) => if r1.len() >= r.len() {
                Err((r1, Expected::CommaOrRightBracket))
            } else {
                g_array_rest(r1)
            },
            Err(e) => Err(e),
        }
    } else if starts_with(r, SyntaxKind::RightBracket) {
        Ok(r.drop_first())
    } else {
        Err((r, Expected::CommaOrRightBracket))
    }
}

/// A whole text: whitespace and at most one value, then nothing.
pub open spec fn g_root(r: Seq<TokenView>) -> Outcome {
    let r1 = skip_ws(r);
    let body: Outcome = if r1.len() > 0 {
        g_element(r1)
    } else {
        Ok(r1)
    };
    match body {
        Ok(r2) => if r2.len() > 0 {
            Err((r2, Expected::EndOfInput))
        } else {
            Ok(r2)
        },
        Err(e) => Err(e),
    }
}

/// A token as a leaf.
pub open spec fn leaf(t: TokenView) -> Tree {
    Tree::Leaf(t.0, t.1)
}

/// The leaves of the leading whitespace tokens.
pub open spec fn t_ws(r: Seq<TokenView>) -> Seq<Tree>
    decreases r.len(),
{
    if starts_with(r, SyntaxKind::Whitespace) {
        seq![leaf(r[0])] + t_ws(r.drop_first())
    } else {
        seq![]
    }
}

/// What reading a value adds to the node that holds it, where the reading
/// succeeds (see `g_element`).
pub open spec fn t_element(r: Seq<TokenView>) -> Seq<Tree>
    decreases r.len(), 2nat,
{
    let r1 = skip_ws(r);
    if r1.len() > r.len() || r1.len() == 0 {
        seq![]
    } else {
        let k = r1[0].0;
        let body: Seq<Tree> = if k == SyntaxKind::LeftBrace {
            seq![Tree::Branch(SyntaxKind::Object, t_object(r1))]
        } else if k == SyntaxKind::LeftBracket {
            seq![Tree::Branch(SyntaxKind::Array, t_array(r1))]
        } else {
            seq![leaf(r1[0])]
        };
        let r2: Seq<TokenView> = if k == SyntaxKind::LeftBrace {
            match g_object(r1) {
                Ok(x) => x,
                Err(_) => r1,
            }
        } else if k == SyntaxKind::LeftBracket {
            match g_array(r1) {
                Ok(x) => x,
                Err(_) => r1,
            }
        } else {
            r1.drop_first()
        };
        t_ws(r) + body + t_ws(r2)
    }
}

/// What reading a member adds to the object node, where the reading succeeds.
pub open spec fn t_member(r: Seq<TokenView>) -> Seq<Tree>
    decreases r.len(), 3nat,
{
    let r1 = skip_ws(r);
    if r1.len() > r.len() || !starts_with(r1, SyntaxKind::String) {
        seq![]
    } else {
        let r2 = skip_ws(r1.drop_first());
        if r2.len() >= r.len() || !starts_with(r2, SyntaxKind::Colon) {
            seq![]
        } else {
            t_ws(r) + seq![leaf(r1[0])] + t_ws(r1.drop_first()) + seq![leaf(r2[0])] + t_element(
                r2.drop_first(),
            )
        }
    }
}

/// The children of an object node, where reading the object succeeds.
pub open spec fn t_object(r: Seq<TokenView>) -> Seq<Tree>
    decreases r.len(), 1nat,
{
    if r.len() == 0 {
        seq![]
    } else {
        let r1 = skip_ws(r.drop_first());
        if r1.len() >= r.len() {
            seq![]
        } else {
            let first: Outcome = if starts_with(r1, SyntaxKind::RightBrace) {
                Ok(r1)
            } else {
                g_member(r1)
            };
            let first_trees: Seq<Tree> = if starts_with(r1, SyntaxKind::RightBrace) {
                seq![]
            } else {
                t_member(r1)
            };
            match first {
                Ok(r2) => if r2.len() > r.len() {
                    seq![]
                } else {
                    seq![leaf(r[0])] + t_ws(r.drop_first()) + first_trees + t_object_rest(r2)
                },
                Err(_) => seq![],
            }
        }
    }
}

/// The rest of an object node's children.
pub open spec fn t_object_rest(r: Seq<TokenView>) -> Seq<Tree>
    decreases r.len(), 0nat,
{
    if starts_with(r, SyntaxKind::Comma) {
        match g_member(r.drop_first()) {
            Ok(r1) => if r1.len() >= r.len() {
                seq![]
            } else {
                seq![leaf(r[0])] + t_member(r.drop_first()) + t_object_rest(r1)
            },
            Err(_) => seq![],
        }
    } else if starts_with(r, SyntaxKind::RightBrace) {
        seq![leaf(r[0])]
    } else {
        seq![]
    }
}

/// The children of an array node, where reading the array succeeds.
pub open spec fn t_array(r: Seq<TokenView>) -> Seq<Tree>
    decreases r.len(), 1nat,
{
    if r.len() == 0 {
        seq![]
    } else {
        let r1 = skip_ws(r.drop_first());
        if r1.len() >= r.len() {
            seq![]
        } else {
            let first: Outcome = if starts_with(r1, SyntaxKind::RightBracket) {
                Ok(r1)
            } else {
                g_element(r1)
            };
            let first_trees: Seq<Tree> = if starts_with(r1, SyntaxKind::RightBracket) {
                seq![]
            } else {
                t_element(r1)
            };
            match first {
                Ok(r2) => if skip_ws(r2).len() > r.len() {
                    seq![]
                } else {
                    seq![leaf(r[0])] + t_ws(r.drop_first()) + first_trees + t_ws(r2) + t_array_rest(
                        skip_ws(r2),
                    )
                },
                Err(_) => seq![],
            }
        }
    }
}

/// The rest of an array node's children.
pub open spec fn t_array_rest(r: Seq<TokenView>) -> Seq<Tree>
    decreases r.len(), 0nat,
{
    if starts_with(r, SyntaxKind::Comma) {
        match g_element(r.drop_first()) {
            Ok(r1) => if r1.len() >= r.len() {
                seq![]
            } else {
                seq![leaf(r[0])] + t_element(r.drop_first()) + t_array_rest(r1)
            },
            Err(_) => seq![],
        }
    } else if starts_with(r, SyntaxKind::RightBracket) {
        seq![leaf(r[0])]
    } else {
        seq![]
    }
}

/// The tree of a whole text that the grammar accepts: a `Root` branch over the
/// leading whitespace and the value with its trailing whitespace.
pub open spec fn t_root(r: Seq<TokenView>) -> Tree {
    let r1 = skip_ws(r);
    Tree::Branch(
        SyntaxKind::Root,
        t_ws(r) + if r1.len() > 0 {
            t_element(r1)
        } else {
            seq![]
        },
    )
}

/// The error reported where the tokens `r` of `input` are left and `expected`
/// was required: the first of them (none at the end), and where it starts.
pub open spec fn error_at(input: Seq<char>, r: Seq<TokenView>, expected: Expected) -> ParseError {
    ParseError {
        found: if r.len() > 0 {
            Some(r[0].0)
        } else {
            None
        },
        offset: (input.len() - concat_texts(r).len()) as usize,
        expected,
    }
}

/// Skipping whitespace never adds tokens.
pub proof fn lemma_skip_ws_shorter(r: Seq<TokenView>)
    ensures
        skip_ws(r).len() <= r.len(),
    decreases r.len(),
{
    if starts_with(r, SyntaxKind::Whitespace) {
        lemma_skip_ws_shorter(r.drop_first());
    }
}

/// The tokens at the leaves of a tree, in order.
pub open spec fn tree_leaves(t: Tree) -> Seq<TokenView>
    decreases t,
{
    match t {
        Tree::Leaf(k, text) => seq![(k, text)],
        Tree::Branch(_, cs) => forest_leaves(cs),
    }
}

/// The tokens at the leaves of a run of trees, in order.
pub open spec fn forest_leaves(ts: Seq<Tree>) -> Seq<TokenView>
    decreases ts,
{
    if ts.len() == 0 {
        seq![]
    } else {
        forest_leaves(ts.drop_last()) + tree_leaves(ts.last())
    }
}

proof fn lemma_forest_append(a: Seq<Tree>, b: Seq<Tree>)
    ensures
        forest_leaves(a + b) == forest_leaves(a) + forest_leaves(b),
    decreases b.len(),
{
    if b.len() == 0 {
        assert(a + b =~= a);
        assert(forest_leaves(b) =~= seq![]);
        assert(forest_leaves(a) + forest_leaves(b) =~= forest_leaves(a));
    } else {
        lemma_forest_append(a, b.drop_last());
        assert((a + b).drop_last() =~= a + b.drop_last());
        assert((a + b).last() == b.last());
        assert(forest_leaves(a + b) =~= forest_leaves(a) + forest_leaves(b));
    }
}

proof fn lemma_forest_leaf(x: TokenView)
    ensures
        forest_leaves(seq![leaf(x)]) == seq![x],
{
    let f = seq![leaf(x)];
    assert(f.drop_last() =~= seq![]);
    assert(forest_leaves(f.drop_last()) =~= seq![]);
    assert(f.last() == leaf(x));
    assert(tree_leaves(leaf(x)) =~= seq![x]);
    assert(forest_leaves(f) =~= seq![x]);
}

proof fn lemma_forest_branch(k: SyntaxKind, cs: Seq<Tree>)
    ensures
        forest_leaves(seq![Tree::Branch(k, cs)]) == forest_leaves(cs),
{
    let f = seq![Tree::Branch(k, cs)];
    assert(f.drop_last() =~= seq![]);
    assert(forest_leaves(f.drop_last()) =~= seq![]);
    assert(f.last() == Tree::Branch(k, cs));
    assert(tree_leaves(Tree::Branch(k, cs)) == forest_leaves(cs));
    assert(forest_leaves(f) =~= forest_leaves(cs));
}

/// The whitespace leaves are the whitespace tokens that were skipped.
pub proof fn lemma_ws_lossless(r: Seq<TokenView>)
    ensures
        forest_leaves(t_ws(r)) + skip_ws(r) == r,
    decreases r.len(),
{
    if starts_with(r, SyntaxKind::Whitespace) {
        lemma_ws_lossless(r.drop_first());
        lemma_forest_leaf(r[0]);
        lemma_forest_append(seq![leaf(r[0])], t_ws(r.drop_first()));
        assert(r =~= seq![r[0]] + r.drop_first());
        assert(forest_leaves(t_ws(r)) + skip_ws(r) =~= r);
    } else {
        assert(forest_leaves(t_ws(r)) =~= seq![]);
        assert(forest_leaves(t_ws(r)) + skip_ws(r) =~= r);
    }
}

/// Where a value is read, the leaves it adds are exactly the tokens it took.
#[verifier::rlimit(80)]
pub proof fn lemma_element_lossless(r: Seq<TokenView>)
    ensures
        g_element(r) matches Ok(r2) ==> forest_leaves(t_element(r)) + r2 == r,
    decreases r.len(), 2nat,
{
    let r1 = skip_ws(r);
    lemma_skip_ws_shorter(r);
    if g_element(r) is Ok {
        lemma_ws_lossless(r);
        let k = r1[0].0;
        let body: Seq<Tree> = if k == SyntaxKind::LeftBrace {
            seq![Tree::Branch(SyntaxKind::Object, t_object(r1))]
        } else if k == SyntaxKind::LeftBracket {
            seq![Tree::Branch(SyntaxKind::Array, t_array(r1))]
        } else {
            seq![leaf(r1[0])]
        };
        let r2: Seq<TokenView> = if k == SyntaxKind::LeftBrace {
            g_object(r1)->Ok_0
        } else if k == SyntaxKind::LeftBracket {
            g_array(r1)->Ok_0
        } else {
            r1.drop_first()
        };
        if k == SyntaxKind::LeftBrace {
            lemma_object_lossless(r1);
            lemma_forest_branch(SyntaxKind::Object, t_object(r1));
        } else if k == SyntaxKind::LeftBracket {
            lemma_array_lossless(r1);
            lemma_forest_branch(SyntaxKind::Array, t_array(r1));
        } else {
            lemma_forest_leaf(r1[0]);
            assert(r1 =~= seq![r1[0]] + r1.drop_first());
        }
        assert(forest_leaves(body) + r2 == r1);
        lemma_ws_lossless(r2);
        lemma_forest_append(t_ws(r), body);
        lemma_forest_append(t_ws(r) + body, t_ws(r2));
        assert(forest_leaves(t_element(r)) + skip_ws(r2) =~= forest_leaves(t_ws(r)) + (forest_leaves(
            body,
        ) + (forest_leaves(t_ws(r2)) + skip_ws(r2))));
    }
}

/// Where a member is read, the leaves it adds are exactly the tokens it took.
pub proof fn lemma_member_lossless(r: Seq<TokenView>)
    ensures
        g_member(r) matches Ok(r3) ==> forest_leaves(t_member(r)) + r3 == r,
    decreases r.len(), 3nat,
{
    let r1 = skip_ws(r);
    if g_member(r) is Ok {
        let r2 = skip_ws(r1.drop_first());
        let r3 = g_member(r)->Ok_0;
        lemma_ws_lossless(r);
        lemma_ws_lossless(r1.drop_first());
        lemma_element_lossless(r2.drop_first());
        let a = t_ws(r);
        let b = seq![leaf(r1[0])];
        let c = t_ws(r1.drop_first());
        let d = seq![leaf(r2[0])];
        let e = t_element(r2.drop_first());
        lemma_forest_leaf(r1[0]);
        lemma_forest_leaf(r2[0]);
        lemma_forest_append(a, b);
        lemma_forest_append(a + b, c);
        lemma_forest_append(a + b + c, d);
        lemma_forest_append(a + b + c + d, e);
        assert(r1 =~= seq![r1[0]] + r1.drop_first());
        assert(r2 =~= seq![r2[0]] + r2.drop_first());
        assert(forest_leaves(t_member(r)) + r3 =~= forest_leaves(a) + (seq![r1[0]] + (
        forest_leaves(c) + (seq![r2[0]] + (forest_leaves(e) + r3)))));
    }
}

/// Where an object is read, its leaves are exactly the tokens it took.
#[verifier::rlimit(80)]
pub proof fn lemma_object_lossless(r: Seq<TokenView>)
    ensures
        g_object(r) matches Ok(r3) ==> forest_leaves(t_object(r)) + r3 == r,
    decreases r.len(), 1nat,
{
    if g_object(r) is Ok {
        let r1 = skip_ws(r.drop_first());
        let r3 = g_object(r)->Ok_0;
        lemma_ws_lossless(r.drop_first());
        let first_trees: Seq<Tree> = if starts_with(r1, SyntaxKind::RightBrace) {
            seq![]
        } else {
            t_member(r1)
        };
        let r2: Seq<TokenView> = if starts_with(r1, SyntaxKind::RightBrace) {
            r1
        } else {
            g_member(r1)->Ok_0
        };
        if starts_with(r1, SyntaxKind::RightBrace) {
            assert(forest_leaves(first_trees) =~= seq![]);
            assert(forest_leaves(first_trees) + r2 =~= r1);
        } else {
            lemma_member_lossless(r1);
        }
        lemma_object_rest_lossless(r2);
        let a = seq![leaf(r[0])];
        let b = t_ws(r.drop_first());
        lemma_forest_leaf(r[0]);
        lemma_forest_append(a, b);
        lemma_forest_append(a + b, first_trees);
        lemma_forest_append(a + b + first_trees, t_object_rest(r2));
        assert(r =~= seq![r[0]] + r.drop_first());
        assert(forest_leaves(t_object(r)) + r3 =~= seq![r[0]] + (forest_leaves(b) + (forest_leaves(
            first_trees,
        ) + (forest_leaves(t_object_rest(r2)) + r3))));
    }
}

/// Where the rest of an object is read, its leaves are exactly the tokens it took.
pub proof fn lemma_object_rest_lossless(r: Seq<TokenView>)
    ensures
        g_object_rest(r) matches Ok(r3) ==> forest_leaves(t_object_rest(r)) + r3 == r,
    decreases r.len(), 0nat,
{
    if g_object_rest(r) is Ok {
        let r3 = g_object_rest(r)->Ok_0;
        assert(r =~= seq![r[0]] + r.drop_first());
        lemma_forest_leaf(r[0]);
        if starts_with(r, SyntaxKind::Comma) {
            let r1 = g_member(r.drop_first())->Ok_0;
            lemma_member_lossless(r.drop_first());
            lemma_object_rest_lossless(r1);
            let a = seq![leaf(r[0])];
            let b = t_member(r.drop_first());
            lemma_forest_append(a, b);
            lemma_forest_append(a + b, t_object_rest(r1));
            assert(forest_leaves(t_object_rest(r)) + r3 =~= seq![r[0]] + (forest_leaves(b) + (
            forest_leaves(t_object_rest(r1)) + r3)));
        }
    }
}

/// Where an array is read, its leaves are exactly the tokens it took.
#[verifier::rlimit(80)]
pub proof fn lemma_array_lossless(r: Seq<TokenView>)
    ensures
        g_array(r) matches Ok(r3) ==> forest_leaves(t_array(r)) + r3 == r,
    decreases r.len(), 1nat,
{
    if g_array(r) is Ok {
        let r1 = skip_ws(r.drop_first());
        let r3 = g_array(r)->Ok_0;
        lemma_ws_lossless(r.drop_first());
        let first_trees: Seq<Tree> = if starts_with(r1, SyntaxKind::RightBracket) {
            seq![]
        } else {
            t_element(r1)
        };
        let r2: Seq<TokenView> = if starts_with(r1, SyntaxKind::RightBracket) {
            r1
        } else {
            g_element(r1)->Ok_0
        };
        if starts_with(r1, SyntaxKind::RightBracket) {
            assert(forest_leaves(first_trees) =~= seq![]);
            assert(forest_leaves(first_trees) + r2 =~= r1);
        } else {
            lemma_element_lossless(r1);
        }
        lemma_ws_lossless(r2);
        lemma_array_rest_lossless(skip_ws(r2));
        let a = seq![leaf(r[0])];
        let b = t_ws(r.drop_first());
        let c = t_ws(r2);
        lemma_forest_leaf(r[0]);
        lemma_forest_append(a, b);
        lemma_forest_append(a + b, first_trees);
        lemma_forest_append(a + b + first_trees, c);
        lemma_forest_append(a + b + first_trees + c, t_array_rest(skip_ws(r2)));
        assert(r =~= seq![r[0]] + r.drop_first());
        assert(forest_leaves(t_array(r)) + r3 =~= seq![r[0]] + (forest_leaves(b) + (forest_leaves(
            first_trees,
        ) + (forest_leaves(c) + (forest_leaves(t_array_rest(skip_ws(r2))) + r3)))));
    }
}

/// Where the rest of an array is read, its leaves are exactly the tokens it took.
pub proof fn lemma_array_rest_lossless(r: Seq<TokenView>)
    ensures
        g_array_rest(r) matches Ok(r3) ==> forest_leaves(t_array_rest(r)) + r3 == r,
    decreases r.len(), 0nat,
{
    if g_array_rest(r) is Ok {
        let r3 = g_array_rest(r)->Ok_0;
        assert(r =~= seq![r[0]] + r.drop_first());
        lemma_forest_leaf(r[0]);
        if starts_with(r, SyntaxKind::Comma) {
            let r1 = g_element(r.drop_first())->Ok_0;
            lemma_element_lossless(r.drop_first());
            lemma_array_rest_lossless(r1);
            let a = seq![leaf(r[0])];
            let b = t_element(r.drop_first());
            lemma_forest_append(a, b);
            lemma_forest_append(a + b, t_array_rest(r1));
            assert(forest_leaves(t_array_rest(r)) + r3 =~= seq![r[0]] + (forest_leaves(b) + (
            forest_leaves(t_array_rest(r1)) + r3)));
        }
    }
}

/// The grammar loses nothing: for every text it accepts, the leaves of the tree
/// it describes are exactly the tokens of the text, so their texts put together
/// give the text back.
pub proof fn lemma_round_trip(s: Seq<char>)
    ensures
        g_root(tokenize(s)) is Ok ==> tree_leaves(t_root(tokenize(s))) == tokenize(s),
        g_root(tokenize(s)) is Ok ==> concat_texts(tree_leaves(t_root(tokenize(s)))) == s,
{
    let r = tokenize(s);
    if g_root(r) is Ok {
        let r1 = skip_ws(r);
        lemma_ws_lossless(r);
        let rest_trees: Seq<Tree> = if r1.len() > 0 {
            t_element(r1)
        } else {
            seq![]
        };
        if r1.len() > 0 {
            lemma_element_lossless(r1);
        } else {
            assert(forest_leaves(rest_trees) =~= seq![]);
        }
        lemma_forest_append(t_ws(r), rest_trees);
        assert(forest_leaves(rest_trees) + seq![] =~= forest_leaves(rest_trees));
        assert(tree_leaves(t_root(r)) =~= r);
        crate::lexer::lemma_tokenize_covers(s);
    }
}

} // verus!
