//! Tokens and trivia produced by the Query-of-Queries lexer.
use vstd::prelude::*;

verus! {

/// A region of the source: byte offsets `start..end`, and the line and
/// column (both 1-based, columns counted in characters) where it begins.
#[derive(Debug, Clone, Copy, PartialEq, Eq, Structural, Default)]
pub struct Span {
    pub start: usize,
    pub end: usize,
    pub line: u32,
    pub col: u32,
}

#[derive(Debug, Clone, Copy, PartialEq, Eq, Structural)]
pub struct Token {
    pub kind: TokenKind,
    pub span: Span,
}

#[derive(Debug, Clone, Copy, PartialEq, Eq, Structural)]
pub struct Trivia {
    pub kind: TriviaKind,
    pub span: Span,
}

#[derive(Debug, Clone, Copy, PartialEq, Eq, Structural)]
pub enum TriviaKind {
    Whitespace,
    LineComment,
    BlockComment,
}

#[derive(Debug, Clone, Copy, PartialEq, Eq, Structural)]
pub enum TokenKind {
    // Identifiers and literals
    Identifier,
    Number,
    String,
    OdbcDateTimeLiteral,
    BindParameter,
    // Keywords
    Select,
    From,
    Where,
    Group,
    By,
    Having,
    Order,
    Asc,
    Desc,
    Limit,
    Distinct,
    Union,
    All,
    As,
    And,
    Or,
    Not,
    In,
    Between,
    Like,
    Is,
    Null,
    Case,
    When,
    Then,
    Else,
    End,
    Cast,
    Convert,
    On,
    Join,
    Inner,
    Left,
    Right,
    Full,
    Outer,
    Cross,
    True,
    False,
    Contains,
    InstanceOf,
    CastAs,
    Xor,
    Eqv,
    // Punctuation and operators
    Comma,
    Dot,
    LeftParen,
    RightParen,
    Asterisk,
    Plus,
    Minus,
    Slash,
    Percent,
    Equal,
    Less,
    Greater,
    Bang,
    Colon,
    Semicolon,
    Question,
    LessEqual,
    GreaterEqual,
    EqualEqual,
    BangEqual,
    NotEqualAngle,
    PipePipe,
    AmpAmp,
    Ampersand,
    QuestionDot,
    QuestionColon,
    ColonColon,
    DotDot,
    DotDotLess,
    GreaterDotDot,
    GreaterDotDotLess,
    Caret,
    Eof,
}

} // verus!
