use vstd::prelude::*;
use vstd::std_specs::iter::IteratorSpec;

use crate::kind::SyntaxKind;
use crate::scan::{lemma_scan_bounds, scan, scan_at};

verus! {

broadcast use vstd::string::axiom_spec_iter, vstd::string::next_postcondition;

/// A token as the model sees it: its kind and its exact text.
pub type TokenView = (SyntaxKind, Seq<char>);

/// The tokens of `s` from index `i` on, in order.
pub open spec fn tokens_from(s: Seq<char>, i: int) -> Seq<TokenView>
    decreases s.len() - i,
{
    if i < 0 || i >= s.len() {
        seq![]
    } else {
        let t = scan_at(s, i);
        if t.1 <= 0 || i + t.1 > s.len() {
            seq![]
        } else {
            seq![(t.0, s.subrange(i, i + t.1))] + tokens_from(s, i + t.1)
        }
    }
}

/// All tokens of `s`.
pub open spec fn tokenize(s: Seq<char>) -> Seq<TokenView> {
    tokens_from(s, 0)
}

/// The texts of `ts`, one after another.
pub open spec fn concat_texts(ts: Seq<TokenView>) -> Seq<char>
    decreases ts.len(),
{
    if ts.len() == 0 {
        seq![]
    } else {
        ts[0].1 + concat_texts(ts.drop_first())
    }
}

/// The tokens from index `i` on are non-empty, and their texts, put together, are
/// exactly the text from `i` on.
pub proof fn lemma_tokens_from_cover(s: Seq<char>, i: int)
    requires
        0 <= i <= s.len(),
    ensures
        concat_texts(tokens_from(s, i)) == s.subrange(i, s.len() as int),
        forall|k: int|
            0 <= k < tokens_from(s, i).len() ==> #[trigger] tokens_from(s, i)[k].1.len() > 0,
    decreases s.len() - i,
{
    if i < s.len() {
        lemma_scan_bounds(s, i);
        let t = scan_at(s, i);
        lemma_tokens_from_cover(s, i + t.1);
        let ts = tokens_from(s, i);
        assert(ts.drop_first() == tokens_from(s, i + t.1));
        assert(s.subrange(i, s.len() as int) =~= s.subrange(i, i + t.1) + s.subrange(
            i + t.1,
            s.len() as int,
        ));
        assert forall|k: int| 0 <= k < ts.len() implies #[trigger] ts[k].1.len() > 0 by {
            if k > 0 {
                assert(ts[k] == tokens_from(s, i + t.1)[k - 1]);
            }
        }
    } else {
        assert(s.subrange(i, s.len() as int) =~= seq![]);
    }
}

/// The lexer covers its input: the token texts are non-empty, follow one another
/// without gap or overlap, and put together give the input exactly.
pub proof fn lemma_tokenize_covers(s: Seq<char>)
    ensures
        concat_texts(tokenize(s)) == s,
        forall|k: int| 0 <= k < tokenize(s).len() ==> #[trigger] tokenize(s)[k].1.len() > 0,
{
    lemma_tokens_from_cover(s, 0);
    assert(s.subrange(0, s.len() as int) =~= s);
}

/// A token: its kind and its own copy of the text it covers.
pub struct Token {
    pub kind: SyntaxKind,
    pub text: Vec<char>,
}

impl Token {
    pub open spec fn view(&self) -> TokenView {
        (self.kind, self.text@)
    }
}

/// The characters of a string, in order.
pub fn chars_of(s: &str) -> (r: Vec<char>)
    ensures
        r@ == s@,
{
    let mut it = s.chars();
    let mut out: Vec<char> = Vec::new();
    loop
        invariant
            out@ + it.remaining() == s@,
            it.decrease() is Some,
        ensures
            out@ == s@,
        decreases it.decrease()->0,
    {
        match it.next() {
            Some(c) => {
                out.push(c);
            },
            None => {
                assert(out@ =~= s@);
                break ;
            },
        }
    }
    out
}

/// Copies `s[from..to]`.
pub fn copy_range(s: &Vec<char>, from: usize, to: usize) -> (r: Vec<char>)
    requires
        from <= to <= s@.len(),
    ensures
        r@ == s@.subrange(from as int, to as int),
{
    let mut out: Vec<char> = Vec::new();
    let mut k: usize = from;
    while k < to
        invariant
            from <= k <= to <= s@.len(),
            out@ == s@.subrange(from as int, k as int),
        decreases to - k,
    {
        out.push(s[k]);
        k = k + 1;
        assert(out@ =~= s@.subrange(from as int, k as int));
    }
    out
}

/// A forward-only cursor over the tokens of a text, with one token of lookahead.
pub struct Lexer {
    pub input: Vec<char>,
    pub pos: usize,
}

impl Lexer {
    pub open spec fn wf(&self) -> bool {
        self.pos <= self.input@.len()
    }

    /// The tokens not yet taken.
    pub open spec fn rest(&self) -> Seq<TokenView> {
        tokens_from(self.input@, self.pos as int)
    }

    /// The text of the tokens already taken.
    pub open spec fn taken(&self) -> Seq<char> {
        self.input@.subrange(0, self.pos as int)
    }

    /// A lexer at the start of `input`.
    pub fn new(input: &str) -> (r: Lexer)
        ensures
            r.wf(),
            r.input@ == input@,
            r.pos == 0,
            r.rest() == tokenize(input@),
            r.taken() == Seq::<char>::empty(),
    {
        let chars = chars_of(input);
        let r = Lexer { input: chars, pos: 0 };
        assert(r.taken() =~= Seq::<char>::empty());
        r
    }

    /// The kind of the next token, without taking it.
    pub fn peek(&self) -> (r: Option<SyntaxKind>)
        requires
            self.wf(),
        ensures
            match r {
                Some(k) => self.rest().len() > 0 && self.rest()[0].0 == k,
                None => self.rest().len() == 0,
            },
            r is Some <==> self.pos < self.input@.len(),
    {
        if self.pos < self.input.len() {
            let (k, n) = scan(&self.input, self.pos);
            Some(k)
        } else {
            None
        }
    }

    /// The offset of the next token.
    pub fn offset(&self) -> (r: usize)
        ensures
            r == self.pos,
    {
        self.pos
    }

    /// Takes the next token.
    pub fn next(&mut self) -> (r: Option<Token>)
        requires
            old(self).wf(),
        ensures
            final(self).wf(),
            final(self).input == old(self).input,
            match r {
                Some(t) => {
                    &&& old(self).rest().len() > 0
                    &&& t@ == old(self).rest()[0]
                    &&& final(self).rest() == old(self).rest().drop_first()
                    &&& final(self).taken() == old(self).taken() + t.text@
                    &&& final(self).pos == old(self).pos + t.text@.len()
                    &&& t.text@.len() > 0
                },
                None => old(self).rest().len() == 0 && *final(self) == *old(self),
            },
            r is Some <==> old(self).pos < old(self).input@.len(),
    {
        if self.pos < self.input.len() {
            let (k, n) = scan(&self.input, self.pos);
            let end = self.pos + n;
            let text = copy_range(&self.input, self.pos, end);
            proof {
                let s = self.input@;
                let i = self.pos as int;
                assert(s.subrange(0, end as int) =~= s.subrange(0, i) + s.subrange(i, end as int));
                assert(tokens_from(s, i).drop_first() =~= tokens_from(s, end as int));
            }
            self.pos = end;
            Some(Token { kind: k, text })
        } else {
            None
        }
    }
}

} // verus!
