use vstd::prelude::*;

verus! {

/// The closed set of tags shared by leaf tokens and interior nodes.
#[derive(Debug, Clone, Copy, PartialEq, Eq, Structural)]
pub enum SyntaxKind {
    LeftBrace,
    RightBrace,
    Colon,
    Comma,
    LeftBracket,
    RightBracket,
    True,
    False,
    Null,
    String,
    Number,
    Whitespace,
    Error,
    Root,
    Array,
    Object,
}

/// The small unsigned code of each kind.
pub open spec fn raw_of(k: SyntaxKind) -> u16 {
    match k {
        SyntaxKind::LeftBrace => 0,
        SyntaxKind::RightBrace => 1,
        SyntaxKind::Colon => 2,
        SyntaxKind::Comma => 3,
        SyntaxKind::LeftBracket => 4,
        SyntaxKind::RightBracket => 5,
        SyntaxKind::True => 6,
        SyntaxKind::False => 7,
        SyntaxKind::Null => 8,
        SyntaxKind::String => 9,
        SyntaxKind::Number => 10,
        SyntaxKind::Whitespace => 11,
        SyntaxKind::Error => 12,
        SyntaxKind::Root => 13,
        SyntaxKind::Array => 14,
        SyntaxKind::Object => 15,
    }
}

/// Kinds that tag interior nodes rather than tokens.
pub open spec fn is_node_kind(k: SyntaxKind) -> bool {
    k == SyntaxKind::Root || k == SyntaxKind::Array || k == SyntaxKind::Object
}

impl SyntaxKind {
    /// The compact code of this kind.
    pub fn to_raw(self) -> (r: u16)
        ensures
            r == raw_of(self),
            r < 16,
    {
        match self {
            SyntaxKind::LeftBrace => 0,
            SyntaxKind::RightBrace => 1,
            SyntaxKind::Colon => 2,
            SyntaxKind::Comma => 3,
            SyntaxKind::LeftBracket => 4,
            SyntaxKind::RightBracket => 5,
            SyntaxKind::True => 6,
            SyntaxKind::False => 7,
            SyntaxKind::Null => 8,
            SyntaxKind::String => 9,
            SyntaxKind::Number => 10,
            SyntaxKind::Whitespace => 11,
            SyntaxKind::Error => 12,
            SyntaxKind::Root => 13,
            SyntaxKind::Array => 14,
            SyntaxKind::Object => 15,
        }
    }

    /// The kind with the given code, if there is one.
    pub fn from_raw(raw: u16) -> (r: Option<SyntaxKind>)
        ensures
            match r {
                Some(k) => raw_of(k) == raw,
                None => raw >= 16,
            },
    {
        match raw {
            0 => Some(SyntaxKind::LeftBrace),
            1 => Some(SyntaxKind::RightBrace),
            2 => Some(SyntaxKind::Colon),
            3 => Some(SyntaxKind::Comma),
            4 => Some(SyntaxKind::LeftBracket),
            5 => Some(SyntaxKind::RightBracket),
            6 => Some(SyntaxKind::True),
            7 => Some(SyntaxKind::False),
            8 => Some(SyntaxKind::Null),
            9 => Some(SyntaxKind::String),
            10 => Some(SyntaxKind::Number),
            11 => Some(SyntaxKind::Whitespace),
            12 => Some(SyntaxKind::Error),
            13 => Some(SyntaxKind::Root),
            14 => Some(SyntaxKind::Array),
            15 => Some(SyntaxKind::Object),
            _ => None,
        }
    }

    /// Whether this kind tags an interior node.
    pub fn is_node(self) -> (r: bool)
        ensures
            r == is_node_kind(self),
    {
        match self {
            SyntaxKind::Root | SyntaxKind::Array | SyntaxKind::Object => true,
            _ => false,
        }
    }

    /// The name of this kind, as tree dumps print it.
    pub fn name(self) -> (r: &'static str)
        ensures
            r@ == kind_name(self),
    {
        match self {
            SyntaxKind::LeftBrace => "LeftBrace",
            SyntaxKind::RightBrace => "RightBrace",
            SyntaxKind::Colon => "Colon",
            SyntaxKind::Comma => "Comma",
            SyntaxKind::LeftBracket => "LeftBracket",
            SyntaxKind::RightBracket => "RightBracket",
            SyntaxKind::True => "True",
            SyntaxKind::False => "False",
            SyntaxKind::Null => "Null",
            SyntaxKind::String => "String",
            SyntaxKind::Number => "Number",
            SyntaxKind::Whitespace => "Whitespace",
            SyntaxKind::Error => "Error",
            SyntaxKind::Root => "Root",
            SyntaxKind::Array => "Array",
            SyntaxKind::Object => "Object",
        }
    }
}

/// The printed name of a kind.
pub open spec fn kind_name(k: SyntaxKind) -> Seq<char> {
    match k {
        SyntaxKind::LeftBrace => "LeftBrace"@,
        SyntaxKind::RightBrace => "RightBrace"@,
        SyntaxKind::Colon => "Colon"@,
        SyntaxKind::Comma => "Comma"@,
        SyntaxKind::LeftBracket => "LeftBracket"@,
        SyntaxKind::RightBracket => "RightBracket"@,
        SyntaxKind::True => "True"@,
        SyntaxKind::False => "False"@,
        SyntaxKind::Null => "Null"@,
        SyntaxKind::String => "String"@,
        SyntaxKind::Number => "Number"@,
        SyntaxKind::Whitespace => "Whitespace"@,
        SyntaxKind::Error => "Error"@,
        SyntaxKind::Root => "Root"@,
        SyntaxKind::Array => "Array"@,
        SyntaxKind::Object => "Object"@,
    }
}

/// The code of a kind determines the kind.
pub proof fn lemma_raw_injective(a: SyntaxKind, b: SyntaxKind)
    ensures
        raw_of(a) == raw_of(b) ==> a == b,
{
}

} // verus!
