use json_cst::builder::GreenNodeBuilder;
use json_cst::green::GreenElement;
use json_cst::kind::SyntaxKind;
use json_cst::lexer::Lexer;
use json_cst::parser::{parse, Expected, ParseError, Parser};
use json_cst::red::{SyntaxElement, SyntaxNode, TextRange, WalkEvent};

fn assert_tree(input: &str, expected_tree: &str) {
    let parse = Parser::new(input).parse().unwrap();
    let syntax_node = SyntaxNode::new_root(&parse.green_node);

    let actual_tree = syntax_node.debug_dump();

    // The printout ends with a newline; the expected text does not.
    assert_eq!(&actual_tree[0..actual_tree.len() - 1], expected_tree);
}

#[test]
fn parse_nothing() {
    assert_tree(r#""#, r#"Root@0..0"#);
}

#[test]
fn parse_number() {
    assert_tree(
        r#"123"#,
        r#"Root@0..3
  Number@0..3 "123""#,
    );
}

fn tokens(input: &str) -> Vec<(SyntaxKind, String)> {
    let mut lexer = Lexer::new(input);
    let mut out = Vec::new();
    while let Some(t) = lexer.next() {
        out.push((t.kind, t.text.iter().collect()));
    }
    out
}

fn kinds_of(node: &SyntaxNode) -> Vec<SyntaxKind> {
    node.children().iter().map(|c| c.kind()).collect()
}

#[test]
fn round_trip_keeps_every_character() {
    let inputs = [
        "",
        "   ",
        "123",
        "  123  ",
        "{\"a\":[1,2,true]}",
        " { \"key\" :\t[ null , false,\n\"x\\ny\" , -0.5e+10 ] , \"b\" : {} } \n",
        "[[[]],[{}]]",
        "\"\\u00e9\\\"\"",
    ];
    for input in inputs.iter() {
        let p = parse(input).unwrap();
        assert_eq!(p.green_node.to_text(), *input);
        let root = SyntaxNode::new_root(&p.green_node);
        assert_eq!(root.to_text(), *input);
        assert_eq!(root.text_range(), TextRange { start: 0, end: input.chars().count() });
    }
}

#[test]
fn lexer_covers_input() {
    let inputs = ["", "{\"a\":1}", "tru falsey @@ \r\n 01.5e", "\"open", "-", "1.e5 \"\\q\""];
    for input in inputs.iter() {
        let ts = tokens(input);
        let joined: String = ts.iter().map(|(_, s)| s.as_str()).collect();
        assert_eq!(joined, *input);
        assert!(ts.iter().all(|(_, s)| !s.is_empty()));
    }
}

#[test]
fn lexer_classifies_tokens() {
    let ts = tokens("{\"a\\u12Ab\":[-0.5e+3, 01, true,null]}\t@");
    let expected: Vec<(SyntaxKind, &str)> = vec![
        (SyntaxKind::LeftBrace, "{"),
        (SyntaxKind::String, "\"a\\u12Ab\""),
        (SyntaxKind::Colon, ":"),
        (SyntaxKind::LeftBracket, "["),
        (SyntaxKind::Number, "-0.5e+3"),
        (SyntaxKind::Comma, ","),
        (SyntaxKind::Whitespace, " "),
        (SyntaxKind::Number, "0"),
        (SyntaxKind::Number, "1"),
        (SyntaxKind::Comma, ","),
        (SyntaxKind::Whitespace, " "),
        (SyntaxKind::True, "true"),
        (SyntaxKind::Comma, ","),
        (SyntaxKind::Null, "null"),
        (SyntaxKind::RightBracket, "]"),
        (SyntaxKind::RightBrace, "}"),
        (SyntaxKind::Whitespace, "\t"),
        (SyntaxKind::Error, "@"),
    ];
    let got: Vec<(SyntaxKind, &str)> = ts.iter().map(|(k, s)| (*k, s.as_str())).collect();
    assert_eq!(got, expected);
}

#[test]
fn lexer_error_and_partial_matches() {
    let ts = tokens("1.x\"ab");
    let got: Vec<(SyntaxKind, &str)> = ts.iter().map(|(k, s)| (*k, s.as_str())).collect();
    assert_eq!(
        got,
        vec![
            (SyntaxKind::Number, "1"),
            (SyntaxKind::Error, "."),
            (SyntaxKind::Error, "x"),
            (SyntaxKind::Error, "\""),
            (SyntaxKind::Error, "a"),
            (SyntaxKind::Error, "b"),
        ]
    );
    let ts = tokens("\"a\\\"b\\\\\" 2E-7");
    assert_eq!(ts[0], (SyntaxKind::String, "\"a\\\"b\\\\\"".to_string()));
    assert_eq!(ts[2], (SyntaxKind::Number, "2E-7".to_string()));
    let ts = tokens("\r");
    assert_eq!(ts, vec![(SyntaxKind::Error, "\r".to_string())]);
}

#[test]
fn lexer_peek_does_not_consume() {
    let mut lexer = Lexer::new("[ ]");
    assert_eq!(lexer.peek(), Some(SyntaxKind::LeftBracket));
    assert_eq!(lexer.peek(), Some(SyntaxKind::LeftBracket));
    assert_eq!(lexer.next().unwrap().kind, SyntaxKind::LeftBracket);
    assert_eq!(lexer.offset(), 1);
    assert_eq!(lexer.peek(), Some(SyntaxKind::Whitespace));
}

#[test]
fn empty_input_gives_empty_root() {
    let p = parse("").unwrap();
    assert_eq!(p.green_node.kind(), SyntaxKind::Root);
    assert_eq!(p.green_node.children().len(), 0);
    assert_eq!(p.green_node.to_text(), "");
    assert_eq!(p.green_node.text_len(), 0);
}

#[test]
fn scalar_root() {
    let p = parse("123").unwrap();
    let root = SyntaxNode::new_root(&p.green_node);
    assert_eq!(root.kind(), SyntaxKind::Root);
    let cs = root.children();
    assert_eq!(cs.len(), 1);
    match &cs[0] {
        SyntaxElement::Token(t) => {
            assert_eq!(t.kind(), SyntaxKind::Number);
            assert_eq!(t.text(), "123");
            assert_eq!(t.text_range(), TextRange { start: 0, end: 3 });
        }
        SyntaxElement::Node(_) => panic!("expected a token"),
    }

    let p = parse("  123  ").unwrap();
    let root = SyntaxNode::new_root(&p.green_node);
    let cs = root.children();
    let got: Vec<(SyntaxKind, String, TextRange)> = cs
        .iter()
        .map(|c| match c {
            SyntaxElement::Token(t) => (t.kind(), t.text(), t.text_range()),
            SyntaxElement::Node(_) => panic!("expected a token"),
        })
        .collect();
    assert_eq!(
        got,
        vec![
            (SyntaxKind::Whitespace, "  ".to_string(), TextRange { start: 0, end: 2 }),
            (SyntaxKind::Number, "123".to_string(), TextRange { start: 2, end: 5 }),
            (SyntaxKind::Whitespace, "  ".to_string(), TextRange { start: 5, end: 7 }),
        ]
    );
}

#[test]
fn nested_structure() {
    let p = parse("{\"a\":[1,2,true]}").unwrap();
    let root = SyntaxNode::new_root(&p.green_node);
    assert_eq!(kinds_of(&root), vec![SyntaxKind::Object]);
    let object = match root.children().remove(0) {
        SyntaxElement::Node(n) => n,
        SyntaxElement::Token(_) => panic!("expected a node"),
    };
    assert_eq!(
        kinds_of(&object),
        vec![SyntaxKind::LeftBrace, SyntaxKind::String, SyntaxKind::Colon, SyntaxKind::Array, SyntaxKind::RightBrace]
    );
    let children = object.children();
    match &children[1] {
        SyntaxElement::Token(t) => assert_eq!(t.text(), "\"a\""),
        SyntaxElement::Node(_) => panic!("expected the key"),
    }
    let array = match &children[3] {
        SyntaxElement::Node(n) => n.duplicate(),
        SyntaxElement::Token(_) => panic!("expected the array"),
    };
    assert_eq!(array.text_range(), TextRange { start: 5, end: 15 });
    assert_eq!(array.parent().unwrap().kind(), SyntaxKind::Object);
    assert_eq!(
        kinds_of(&array),
        vec![
            SyntaxKind::LeftBracket,
            SyntaxKind::Number,
            SyntaxKind::Comma,
            SyntaxKind::Number,
            SyntaxKind::Comma,
            SyntaxKind::True,
            SyntaxKind::RightBracket,
        ]
    );
    assert_eq!(
        root.debug_dump(),
        "Root@0..16\n  Object@0..16\n    LeftBrace@0..1 \"{\"\n    String@1..4 \"\\\"a\\\"\"\n    Colon@4..5 \":\"\n    Array@5..15\n      LeftBracket@5..6 \"[\"\n      Number@6..7 \"1\"\n      Comma@7..8 \",\"\n      Number@8..9 \"2\"\n      Comma@9..10 \",\"\n      True@10..14 \"true\"\n      RightBracket@14..15 \"]\"\n    RightBrace@15..16 \"}\"\n"
    );
}

#[test]
fn grammar_failure_at_closing_brace() {
    let r = parse("{\"a\":}");
    assert_eq!(
        r.err(),
        Some(ParseError { found: Some(SyntaxKind::RightBrace), offset: 5, expected: Expected::Element })
    );
}

#[test]
fn each_grammar_error() {
    let cases: Vec<(&str, ParseError)> = vec![
        ("{1:2}", ParseError { found: Some(SyntaxKind::Number), offset: 1, expected: Expected::Key }),
        ("{\"a\" 1}", ParseError { found: Some(SyntaxKind::Number), offset: 5, expected: Expected::Colon }),
        (
            "{\"a\":1 \"b\"}",
            ParseError { found: Some(SyntaxKind::String), offset: 7, expected: Expected::CommaOrRightBrace },
        ),
        ("[1 2]", ParseError { found: Some(SyntaxKind::Number), offset: 3, expected: Expected::CommaOrRightBracket }),
        ("[1,", ParseError { found: None, offset: 3, expected: Expected::Element }),
        ("[1,]", ParseError { found: Some(SyntaxKind::RightBracket), offset: 3, expected: Expected::Element }),
        ("1 2", ParseError { found: Some(SyntaxKind::Number), offset: 2, expected: Expected::EndOfInput }),
        ("@", ParseError { found: Some(SyntaxKind::Error), offset: 0, expected: Expected::Element }),
        ("{", ParseError { found: None, offset: 1, expected: Expected::Key }),
    ];
    for (input, expected) in cases {
        assert_eq!(parse(input).err(), Some(expected), "input {:?}", input);
    }
}

#[test]
fn traversal_is_repeatable() {
    let p = parse(" [1, {\"k\": null}] ").unwrap();
    let root = SyntaxNode::new_root(&p.green_node);
    let first: Vec<(SyntaxKind, usize)> = root.children().iter().map(|c| match c {
        SyntaxElement::Node(n) => (n.kind(), n.offset),
        SyntaxElement::Token(t) => (t.kind(), t.offset),
    }).collect();
    let second: Vec<(SyntaxKind, usize)> = root.children().iter().map(|c| match c {
        SyntaxElement::Node(n) => (n.kind(), n.offset),
        SyntaxElement::Token(t) => (t.kind(), t.offset),
    }).collect();
    assert_eq!(first, second);
    let a = root.preorder();
    let b = root.preorder();
    assert_eq!(a, b);
    assert_eq!(a.first(), Some(&WalkEvent::Enter(SyntaxKind::Root, TextRange { start: 0, end: 18 })));
    assert_eq!(a.last(), Some(&WalkEvent::Leave(SyntaxKind::Root, TextRange { start: 0, end: 18 })));
    assert_eq!(a[1], WalkEvent::Enter(SyntaxKind::Whitespace, TextRange { start: 0, end: 1 }));
    assert_eq!(a[3], WalkEvent::Enter(SyntaxKind::Array, TextRange { start: 1, end: 17 }));
    let enters = a.iter().filter(|e| matches!(e, WalkEvent::Enter(..))).count();
    assert_eq!(enters * 2, a.len());
}

fn leaf_text(e: &GreenElement, out: &mut String) {
    match e {
        GreenElement::Token(t) => out.push_str(&t.text()),
        GreenElement::Node(n) => {
            for c in n.children().iter() {
                leaf_text(c, out);
            }
        }
    }
}

fn check_balance(e: &GreenElement) {
    if let GreenElement::Node(n) = e {
        let mut s = String::new();
        leaf_text(e, &mut s);
        assert_eq!(s, n.to_text());
        let total: usize = n.children().iter().map(|c| c.text_len()).sum();
        assert_eq!(total, n.text_len());
        for c in n.children().iter() {
            check_balance(c);
        }
    }
}

#[test]
fn every_node_is_its_leaves() {
    let p = parse("{ \"a\" : [ 1 , { \"b\" : [ ] } ] , \"c\" : \"d\" }").unwrap();
    let text_len = p.green_node.text_len();
    check_balance(&GreenElement::Node(p.green_node));
    assert_eq!(text_len, 43);
}

#[test]
fn kinds_have_distinct_codes() {
    let all = [
        SyntaxKind::LeftBrace,
        SyntaxKind::RightBrace,
        SyntaxKind::Colon,
        SyntaxKind::Comma,
        SyntaxKind::LeftBracket,
        SyntaxKind::RightBracket,
        SyntaxKind::True,
        SyntaxKind::False,
        SyntaxKind::Null,
        SyntaxKind::String,
        SyntaxKind::Number,
        SyntaxKind::Whitespace,
        SyntaxKind::Error,
        SyntaxKind::Root,
        SyntaxKind::Array,
        SyntaxKind::Object,
    ];
    for (i, k) in all.iter().enumerate() {
        assert_eq!(k.to_raw() as usize, i);
        assert_eq!(SyntaxKind::from_raw(k.to_raw()), Some(*k));
        assert_eq!(k.is_node(), i >= 13);
    }
    assert_eq!(SyntaxKind::from_raw(16), None);
    assert_eq!(SyntaxKind::Whitespace.name(), "Whitespace");
}

#[test]
fn whitespace_only_input() {
    let p = parse(" \n\t").unwrap();
    let root = SyntaxNode::new_root(&p.green_node);
    assert_eq!(kinds_of(&root), vec![SyntaxKind::Whitespace]);
    assert_eq!(root.debug_dump(), "Root@0..3\n  Whitespace@0..3 \" \\n\\t\"\n");
}

fn chars(s: &str) -> Vec<char> {
    s.chars().collect()
}

#[test]
fn builder_nests_nodes() {
    let mut b = GreenNodeBuilder::new();
    b.start_node(SyntaxKind::Root);
    b.token(SyntaxKind::Whitespace, chars(" "));
    b.start_node(SyntaxKind::Array);
    b.token(SyntaxKind::LeftBracket, chars("["));
    b.token(SyntaxKind::Number, chars("7"));
    b.token(SyntaxKind::RightBracket, chars("]"));
    b.finish_node();
    b.finish_node();
    let root = b.finish();
    assert_eq!(root.kind(), SyntaxKind::Root);
    assert_eq!(root.to_text(), " [7]");
    assert_eq!(root.text_len(), 4);
    let kinds: Vec<SyntaxKind> = root.children().iter().map(|c| c.kind()).collect();
    assert_eq!(kinds, vec![SyntaxKind::Whitespace, SyntaxKind::Array]);
    match &root.children()[1] {
        GreenElement::Node(n) => {
            assert_eq!(n.to_text(), "[7]");
            assert_eq!(n.text_len(), 3);
            assert_eq!(n.children().len(), 3);
        }
        GreenElement::Token(_) => panic!("expected the array node"),
    }
}

#[test]
fn non_ascii_text_round_trips() {
    let input = "{\"cl\u{e9}\" : \"\u{1f600}\"}";
    let p = parse(input).unwrap();
    assert_eq!(p.green_node.to_text(), input);
    assert_eq!(p.green_node.text_len(), input.chars().count());
    let root = SyntaxNode::new_root(&p.green_node);
    assert_eq!(root.text_range(), TextRange { start: 0, end: 13 });
}
