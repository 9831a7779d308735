//! The Query-of-Queries lexer: turns SQL text into tokens and trivia.
//!
//! The lexical grammar is stated by the spec functions of this module over
//! the character sequence of the source; `lex` is proved to compute exactly
//! `lex_spec`.
use vstd::prelude::*;
use vstd::utf8::encode_utf8;
use crate::text::{
    is_ws, is_digit, is_hex, is_ident_start, is_ident_continue, lower, boff, lemma_boff_step,
    lemma_boff_mono, lemma_boff_strict, char_width, chars_of, string_from_chars, is_boundary, ci_of, lemma_ci_of, is_ws_exec, is_ident_start_exec, is_ident_continue_exec,
    lower_exec,
};
use crate::qoq::token::{Span, Token, Trivia, TriviaKind, TokenKind};

verus! {

/// A lexer position: character index, line and column.
pub struct LexPos {
    pub ci: nat,
    pub line: u32,
    pub col: u32,
}

/// Line and column counters wrap at 2^32.
pub open spec fn inc(x: u32) -> u32 {
    if x == u32::MAX {
        0
    } else {
        (x + 1) as u32
    }
}

pub open spec fn cur(s: Seq<char>, p: LexPos) -> Option<char> {
    if p.ci < s.len() {
        Some(s[p.ci as int])
    } else {
        None
    }
}

pub open spec fn peek(s: Seq<char>, p: LexPos, k: nat) -> Option<char> {
    if p.ci + k < s.len() {
        Some(s[(p.ci + k) as int])
    } else {
        None
    }
}

/// Step over one character, updating line and column.
pub open spec fn adv(s: Seq<char>, p: LexPos) -> LexPos {
    if p.ci < s.len() {
        if s[p.ci as int] == '\n' {
            LexPos { ci: p.ci + 1, line: inc(p.line), col: 1 }
        } else {
            LexPos { ci: p.ci + 1, line: p.line, col: inc(p.col) }
        }
    } else {
        p
    }
}

pub open spec fn adv_n(s: Seq<char>, p: LexPos, n: nat) -> LexPos
    decreases n,
{
    if n == 0 {
        p
    } else {
        adv_n(s, adv(s, p), (n - 1) as nat)
    }
}

#[derive(Clone, Copy)]
pub enum CharClass {
    Whitespace,
    Digit,
    HexDigit,
    IdentContinue,
    NotLineEnd,
}

pub open spec fn in_class(k: CharClass, c: char) -> bool {
    match k {
        CharClass::Whitespace => is_ws(c),
        CharClass::Digit => is_digit(c),
        CharClass::HexDigit => is_hex(c),
        CharClass::IdentContinue => is_ident_continue(c),
        CharClass::NotLineEnd => c != '\n' && c != '\r',
    }
}

/// Step over the longest run of characters of class `k`.
pub open spec fn adv_while(s: Seq<char>, p: LexPos, k: CharClass) -> LexPos
    decreases s.len() - p.ci,
{
    if p.ci < s.len() && in_class(k, s[p.ci as int]) {
        adv_while(s, adv(s, p), k)
    } else {
        p
    }
}

/// Inside a block comment: step up to the closing `*/` or the end.
pub open spec fn until_close(s: Seq<char>, p: LexPos) -> LexPos
    decreases s.len() - p.ci,
{
    if p.ci < s.len() && !(cur(s, p) == Some('*') && peek(s, p, 1) == Some('/')) {
        until_close(s, adv(s, p))
    } else {
        p
    }
}

/// Inside a string literal (after the opening quote): a doubled quote is
/// part of the literal, a single quote ends it.
pub open spec fn string_body(s: Seq<char>, p: LexPos) -> LexPos
    decreases s.len() - p.ci,
{
    if p.ci < s.len() {
        let ch = s[p.ci as int];
        let p1 = adv(s, p);
        if ch == '\'' {
            if cur(s, p1) == Some('\'') {
                string_body(s, adv(s, p1))
            } else {
                p1
            }
        } else {
            string_body(s, p1)
        }
    } else {
        p
    }
}

/// Whether `ch` closes a quoted identifier opened by `q`.
pub open spec fn closes(s: Seq<char>, p: LexPos, q: char, ch: char) -> bool {
    ||| (q == '"' && ch == '"' && peek(s, p, 1) != Some('"'))
    ||| (q == '`' && ch == '`' && peek(s, p, 1) != Some('`'))
    ||| (q == '[' && ch == ']')
}

/// Inside a quoted identifier (after the opening quote).
pub open spec fn quoted_body(s: Seq<char>, p: LexPos, q: char) -> LexPos
    decreases s.len() - p.ci,
{
    if p.ci < s.len() {
        if closes(s, p, q, s[p.ci as int]) {
            adv(s, p)
        } else {
            quoted_body(s, adv(s, p), q)
        }
    } else {
        p
    }
}

/// Inside an ODBC date/time literal: up to and including `'}`.
pub open spec fn odbc_body(s: Seq<char>, p: LexPos) -> LexPos
    decreases s.len() - p.ci,
{
    if p.ci < s.len() {
        if cur(s, p) == Some('\'') && peek(s, p, 1) == Some('}') {
            adv(s, adv(s, p))
        } else {
            odbc_body(s, adv(s, p))
        }
    } else {
        p
    }
}

pub open spec fn is_lower(o: Option<char>, c: char) -> bool {
    o matches Some(x) && lower(x) == c
}

/// Length of the ODBC prefix (`{ts '`, `{d '` or `{t '`, any case) at `p`.
pub open spec fn odbc_prefix(s: Seq<char>, p: LexPos) -> Option<nat> {
    if cur(s, p) == Some('{') && is_lower(peek(s, p, 1), 't') && is_lower(peek(s, p, 2), 's')
        && peek(s, p, 3) == Some(' ') && peek(s, p, 4) == Some('\'') {
        Some(5)
    } else if cur(s, p) == Some('{') && is_lower(peek(s, p, 1), 'd') && peek(s, p, 2) == Some(' ')
        && peek(s, p, 3) == Some('\'') {
        Some(4)
    } else if cur(s, p) == Some('{') && is_lower(peek(s, p, 1), 't') && peek(s, p, 2) == Some(' ')
        && peek(s, p, 3) == Some('\'') {
        Some(4)
    } else {
        None
    }
}

pub open spec fn is_digit_opt(o: Option<char>) -> bool {
    o matches Some(c) && is_digit(c)
}

/// End of a numeric literal starting at `p`.
pub open spec fn number_end(s: Seq<char>, p: LexPos) -> LexPos {
    let p1 = if cur(s, p) == Some('.') { adv(s, p) } else { p };
    if cur(s, p1) == Some('0') && (peek(s, p1, 1) == Some('x') || peek(s, p1, 1) == Some('X')) {
        adv_while(s, adv(s, adv(s, p1)), CharClass::HexDigit)
    } else {
        let p2 = adv_while(s, p1, CharClass::Digit);
        let p3 = if cur(s, p2) == Some('.') && is_digit_opt(peek(s, p2, 1)) {
            adv_while(s, adv(s, p2), CharClass::Digit)
        } else {
            p2
        };
        if cur(s, p3) == Some('e') || cur(s, p3) == Some('E') {
            let q1 = adv(s, p3);
            let q2 = if cur(s, q1) == Some('+') || cur(s, q1) == Some('-') {
                adv(s, q1)
            } else {
                q1
            };
            let q3 = adv_while(s, q2, CharClass::Digit);
            if q3.ci == q2.ci {
                // no exponent digits: the position goes back, line and column do not
                LexPos { ci: p3.ci, line: q3.line, col: q3.col }
            } else {
                q3
            }
        } else {
            p3
        }
    }
}

/// End of an unquoted identifier starting at `p`.
pub open spec fn ident_end(s: Seq<char>, p: LexPos) -> LexPos {
    adv_while(s, adv(s, p), CharClass::IdentContinue)
}

/// The operator or punctuation token at `p` and its length in characters.
pub open spec fn op_token(s: Seq<char>, p: LexPos) -> (TokenKind, nat) {
    let c = cur(s, p);
    let c1 = peek(s, p, 1);
    let c2 = peek(s, p, 2);
    let c3 = peek(s, p, 3);
    if c == Some(',') {
        (TokenKind::Comma, 1)
    } else if c == Some('.') {
        if c1 == Some('.') {
            if c2 == Some('<') {
                (TokenKind::DotDotLess, 3)
            } else {
                (TokenKind::DotDot, 2)
            }
        } else {
            (TokenKind::Dot, 1)
        }
    } else if c == Some('(') {
        (TokenKind::LeftParen, 1)
    } else if c == Some(')') {
        (TokenKind::RightParen, 1)
    } else if c == Some('*') {
        (TokenKind::Asterisk, 1)
    } else if c == Some('+') {
        (TokenKind::Plus, 1)
    } else if c == Some('-') {
        (TokenKind::Minus, 1)
    } else if c == Some('/') {
        (TokenKind::Slash, 1)
    } else if c == Some('%') {
        (TokenKind::Percent, 1)
    } else if c == Some('^') {
        (TokenKind::Caret, 1)
    } else if c == Some(';') {
        (TokenKind::Semicolon, 1)
    } else if c == Some(':') {
        if c1 == Some(':') {
            (TokenKind::ColonColon, 2)
        } else {
            (TokenKind::Colon, 1)
        }
    } else if c == Some('?') {
        if c1 == Some('.') {
            (TokenKind::QuestionDot, 2)
        } else if c1 == Some(':') {
            (TokenKind::QuestionColon, 2)
        } else {
            (TokenKind::Question, 1)
        }
    } else if c == Some('=') {
        if c1 == Some('=') {
            (TokenKind::EqualEqual, 2)
        } else if c1 == Some('>') {
            (TokenKind::Equal, 2)
        } else {
            (TokenKind::Equal, 1)
        }
    } else if c == Some('<') {
        if c1 == Some('=') {
            (TokenKind::LessEqual, 2)
        } else if c1 == Some('>') {
            (TokenKind::NotEqualAngle, 2)
        } else if c1 == Some('.') && c2 == Some('.') {
            (TokenKind::DotDotLess, 3)
        } else {
            (TokenKind::Less, 1)
        }
    } else if c == Some('>') {
        if c1 == Some('=') {
            (TokenKind::GreaterEqual, 2)
        } else if c1 == Some('.') && c2 == Some('.') {
            if c3 == Some('<') {
                (TokenKind::GreaterDotDotLess, 4)
            } else {
                (TokenKind::GreaterDotDot, 3)
            }
        } else {
            (TokenKind::Greater, 1)
        }
    } else if c == Some('!') {
        if c1 == Some('=') {
            (TokenKind::BangEqual, 2)
        } else {
            (TokenKind::Bang, 1)
        }
    } else if c == Some('|') {
        if c1 == Some('|') {
            (TokenKind::PipePipe, 2)
        } else {
            (TokenKind::PipePipe, 1)
        }
    } else if c == Some('&') {
        if c1 == Some('&') {
            (TokenKind::AmpAmp, 2)
        } else {
            (TokenKind::Ampersand, 1)
        }
    } else {
        (TokenKind::Identifier, 1)
    }
}

/// `text` equals `kw` once ASCII-lowercased.
pub open spec fn lower_eq(text: Seq<char>, kw: Seq<char>) -> bool {
    text.len() == kw.len() && forall|i: int| 0 <= i < text.len() ==> lower(#[trigger] text[i]) == kw[i]
}

/// Keyword recognition (case-insensitive); anything else is an identifier.
pub open spec fn keyword_kind(t: Seq<char>) -> TokenKind {
    if lower_eq(t, "select"@) { TokenKind::Select }
    else if lower_eq(t, "from"@) { TokenKind::From }
    else if lower_eq(t, "where"@) { TokenKind::Where }
    else if lower_eq(t, "group"@) { TokenKind::Group }
    else if lower_eq(t, "by"@) { TokenKind::By }
    else if lower_eq(t, "having"@) { TokenKind::Having }
    else if lower_eq(t, "order"@) { TokenKind::Order }
    else if lower_eq(t, "asc"@) { TokenKind::Asc }
    else if lower_eq(t, "desc"@) { TokenKind::Desc }
    else if lower_eq(t, "limit"@) { TokenKind::Limit }
    else if lower_eq(t, "distinct"@) { TokenKind::Distinct }
    else if lower_eq(t, "union"@) { TokenKind::Union }
    else if lower_eq(t, "all"@) { TokenKind::All }
    else if lower_eq(t, "as"@) { TokenKind::As }
    else if lower_eq(t, "and"@) { TokenKind::And }
    else if lower_eq(t, "or"@) { TokenKind::Or }
    else if lower_eq(t, "not"@) { TokenKind::Not }
    else if lower_eq(t, "in"@) { TokenKind::In }
    else if lower_eq(t, "between"@) { TokenKind::Between }
    else if lower_eq(t, "like"@) { TokenKind::Like }
    else if lower_eq(t, "is"@) { TokenKind::Is }
    else if lower_eq(t, "null"@) { TokenKind::Null }
    else if lower_eq(t, "case"@) { TokenKind::Case }
    else if lower_eq(t, "when"@) { TokenKind::When }
    else if lower_eq(t, "then"@) { TokenKind::Then }
    else if lower_eq(t, "else"@) { TokenKind::Else }
    else if lower_eq(t, "end"@) { TokenKind::End }
    else if lower_eq(t, "cast"@) { TokenKind::Cast }
    else if lower_eq(t, "convert"@) { TokenKind::Convert }
    else if lower_eq(t, "on"@) { TokenKind::On }
    else if lower_eq(t, "join"@) { TokenKind::Join }
    else if lower_eq(t, "inner"@) { TokenKind::Inner }
    else if lower_eq(t, "left"@) { TokenKind::Left }
    else if lower_eq(t, "right"@) { TokenKind::Right }
    else if lower_eq(t, "full"@) { TokenKind::Full }
    else if lower_eq(t, "outer"@) { TokenKind::Outer }
    else if lower_eq(t, "cross"@) { TokenKind::Cross }
    else if lower_eq(t, "true"@) { TokenKind::True }
    else if lower_eq(t, "false"@) { TokenKind::False }
    else if lower_eq(t, "contains"@) { TokenKind::Contains }
    else if lower_eq(t, "instanceof"@) { TokenKind::InstanceOf }
    else if lower_eq(t, "castas"@) { TokenKind::CastAs }
    else if lower_eq(t, "xor"@) { TokenKind::Xor }
    else if lower_eq(t, "eqv"@) { TokenKind::Eqv }
    else { TokenKind::Identifier }
}

/// The next token at `p` (which is not at the end and not at trivia).
pub open spec fn next_token(s: Seq<char>, p: LexPos) -> (TokenKind, LexPos) {
    let c = cur(s, p);
    if odbc_prefix(s, p) is Some {
        (TokenKind::OdbcDateTimeLiteral, odbc_body(s, adv_n(s, p, odbc_prefix(s, p)->0)))
    } else if c == Some('?') {
        (TokenKind::BindParameter, adv(s, p))
    } else if c == Some(':') && (peek(s, p, 1) matches Some(d) && is_ident_start(d)) {
        (TokenKind::BindParameter, ident_end(s, adv(s, p)))
    } else if c == Some('\'') {
        (TokenKind::String, string_body(s, adv(s, p)))
    } else if is_digit_opt(c) || (c == Some('.') && is_digit_opt(peek(s, p, 1))) {
        (TokenKind::Number, number_end(s, p))
    } else if c == Some('"') || c == Some('`') || c == Some('[') {
        let e = quoted_body(s, adv(s, p), c->0);
        (keyword_kind(s.subrange(p.ci as int, e.ci as int)), e)
    } else if c matches Some(d) && is_ident_start(d) {
        let e = ident_end(s, p);
        (keyword_kind(s.subrange(p.ci as int, e.ci as int)), e)
    } else {
        let (k, n) = op_token(s, p);
        (k, adv_n(s, p, n))
    }
}

pub open spec fn span_of(s: Seq<char>, a: LexPos, b: LexPos) -> Span {
    Span { start: boff(s, a.ci as int) as usize, end: boff(s, b.ci as int) as usize, line: a.line, col: a.col }
}

/// Whitespace and comments at `p`, and the position after them.
pub open spec fn skip_trivia(s: Seq<char>, p: LexPos) -> (Seq<Trivia>, LexPos)
    decreases s.len() - p.ci,
{
    if p.ci >= s.len() {
        (seq![], p)
    } else {
        let c = s[p.ci as int];
        let (kind, p1) = if is_ws(c) {
            (TriviaKind::Whitespace, adv_while(s, p, CharClass::Whitespace))
        } else if c == '-' && peek(s, p, 1) == Some('-') {
            (TriviaKind::LineComment, adv_while(s, adv(s, adv(s, p)), CharClass::NotLineEnd))
        } else if c == '/' && peek(s, p, 1) == Some('*') {
            let q = until_close(s, adv(s, adv(s, p)));
            (TriviaKind::BlockComment, if cur(s, q) == Some('*') && peek(s, q, 1) == Some('/') {
                adv(s, adv(s, q))
            } else {
                q
            })
        } else {
            (TriviaKind::Whitespace, p)
        };
        if p.ci < p1.ci <= s.len() {
            let rest = skip_trivia(s, p1);
            (seq![Trivia { kind, span: span_of(s, p, p1) }] + rest.0, rest.1)
        } else {
            (seq![], p)
        }
    }
}

pub open spec fn eof_token(s: Seq<char>, p: LexPos) -> Token {
    Token { kind: TokenKind::Eof, span: span_of(s, p, p) }
}

/// Tokens and trivia from `p` to the end of the source.
pub open spec fn lex_from(s: Seq<char>, p: LexPos) -> (Seq<Token>, Seq<Trivia>)
    decreases s.len() - p.ci,
{
    if p.ci >= s.len() {
        (seq![eof_token(s, p)], seq![])
    } else {
        let (tr, p1) = skip_trivia(s, p);
        if p1.ci >= s.len() {
            (seq![eof_token(s, p1)], tr)
        } else {
            let (k, p2) = next_token(s, p1);
            if p.ci <= p1.ci < p2.ci <= s.len() {
                let rest = lex_from(s, p2);
                (seq![Token { kind: k, span: span_of(s, p1, p2) }] + rest.0, tr + rest.1)
            } else {
                (seq![eof_token(s, p1)], tr)
            }
        }
    }
}

pub open spec fn start_pos() -> LexPos {
    LexPos { ci: 0, line: 1, col: 1 }
}

/// The tokens (ending with `Eof`) and trivia of a source text.
pub open spec fn lex_spec(s: Seq<char>) -> (Seq<Token>, Seq<Trivia>) {
    lex_from(s, start_pos())
}

proof fn lemma_skip_trivia_pos(s: Seq<char>, p: LexPos)
    requires
        p.ci <= s.len(),
    ensures
        p.ci <= skip_trivia(s, p).1.ci <= s.len(),
    decreases s.len() - p.ci,
{
    if p.ci < s.len() {
        let c = s[p.ci as int];
        let (kind, p1) = if is_ws(c) {
            (TriviaKind::Whitespace, adv_while(s, p, CharClass::Whitespace))
        } else if c == '-' && peek(s, p, 1) == Some('-') {
            (TriviaKind::LineComment, adv_while(s, adv(s, adv(s, p)), CharClass::NotLineEnd))
        } else if c == '/' && peek(s, p, 1) == Some('*') {
            let q = until_close(s, adv(s, adv(s, p)));
            (TriviaKind::BlockComment, if cur(s, q) == Some('*') && peek(s, q, 1) == Some('/') {
                adv(s, adv(s, q))
            } else {
                q
            })
        } else {
            (TriviaKind::Whitespace, p)
        };
        if p.ci < p1.ci <= s.len() {
            lemma_skip_trivia_pos(s, p1);
        }
    }
}

proof fn lemma_next_token_not_eof(s: Seq<char>, p: LexPos)
    ensures
        next_token(s, p).0 != TokenKind::Eof,
{
}

/// At least one token, the last `Eof` and no other; each span within
/// `lo ..= hi` and ending before any later one starts.
pub open spec fn tokens_shaped(t: Seq<Token>, lo: int, hi: int) -> bool {
    &&& t.len() >= 1
    &&& t.last().kind == TokenKind::Eof
    &&& forall|i: int| 0 <= i < t.len() - 1 ==> (#[trigger] t[i]).kind != TokenKind::Eof
    &&& forall|i: int| 0 <= i < t.len() ==> lo <= (#[trigger] t[i]).span.start <= t[i].span.end <= hi
    &&& forall|i: int, j: int| 0 <= i < j < t.len() ==> (#[trigger] t[i]).span.end <= (#[trigger] t[j]).span.start
}

proof fn lemma_cons_shaped(tok: Token, rest: Seq<Token>, lo: int, mid: int, hi: int)
    requires
        tokens_shaped(rest, mid, hi),
        tok.kind != TokenKind::Eof,
        lo <= tok.span.start <= tok.span.end <= mid,
    ensures
        tokens_shaped(seq![tok] + rest, lo, hi),
{
    let t = seq![tok] + rest;
    assert(t.last() == rest.last());
    assert forall|i: int, j: int| 0 <= i < j < t.len() implies (#[trigger] t[i]).span.end <= (#[trigger] t[j]).span.start by {
        assert(t[j] == rest[j - 1]);
        if i > 0 {
            assert(t[i] == rest[i - 1]);
        }
    }
    assert forall|i: int| 0 <= i < t.len() - 1 implies (#[trigger] t[i]).kind != TokenKind::Eof by {
        if i > 0 {
            assert(t[i] == rest[i - 1]);
        }
    }
    assert forall|i: int| 0 <= i < t.len() implies lo <= (#[trigger] t[i]).span.start <= t[i].span.end <= hi by {
        if i > 0 {
            assert(t[i] == rest[i - 1]);
        }
    }
}

proof fn lemma_lex_from_shape(s: Seq<char>, p: LexPos)
    requires
        p.ci <= s.len(),
        boff(s, s.len() as int) <= usize::MAX,
    ensures
        tokens_shaped(lex_from(s, p).0, boff(s, p.ci as int) as int, boff(s, s.len() as int) as int),
    decreases s.len() - p.ci,
{
    lemma_boff_mono(s, p.ci as int, s.len() as int);
    if p.ci < s.len() {
        let (tr, p1) = skip_trivia(s, p);
        lemma_skip_trivia_pos(s, p);
        lemma_boff_mono(s, p.ci as int, p1.ci as int);
        lemma_boff_mono(s, p1.ci as int, s.len() as int);
        if p1.ci < s.len() {
            let (k, p2) = next_token(s, p1);
            if p.ci <= p1.ci < p2.ci <= s.len() {
                lemma_next_token_not_eof(s, p1);
                lemma_lex_from_shape(s, p2);
                lemma_boff_mono(s, p1.ci as int, p2.ci as int);
                lemma_boff_mono(s, p2.ci as int, s.len() as int);
                let tok = Token { kind: k, span: span_of(s, p1, p2) };
                lemma_cons_shaped(
                    tok,
                    lex_from(s, p2).0,
                    boff(s, p.ci as int) as int,
                    boff(s, p2.ci as int) as int,
                    boff(s, s.len() as int) as int,
                );
            }
        }
    }
}

/// Lexing always ends with the one `Eof` token, and the token spans are
/// byte ranges of the source, in order and not overlapping.
pub proof fn lemma_lex_shape(s: Seq<char>)
    requires
        boff(s, s.len() as int) <= usize::MAX,
    ensures
        tokens_shaped(lex_spec(s).0, 0, boff(s, s.len() as int) as int),
{
    lemma_lex_from_shape(s, start_pos());
    assert(s.take(0) =~= Seq::<char>::empty());
}

/// Result of lexing: the source with its tokens and trivia.
#[derive(Debug, Clone)]
pub struct LexedSource<'a> {
    source: &'a str,
    chars: Vec<char>,
    tokens: Vec<Token>,
    trivia: Vec<Trivia>,
    ranges: Vec<(usize, usize)>,
}

/// `r` is the character range of a span whose byte offsets are those of `sp`.
pub open spec fn range_matches(s: Seq<char>, r: (usize, usize), sp: Span) -> bool {
    &&& r.0 <= r.1 <= s.len()
    &&& sp.start == boff(s, r.0 as int)
    &&& sp.end == boff(s, r.1 as int)
}

/// The text of `sp` in `s`.
pub open spec fn text_of(s: Seq<char>, sp: Span) -> Seq<char> {
    s.subrange(ci_of(s, sp.start as int), ci_of(s, sp.end as int))
}

impl<'a> LexedSource<'a> {
    pub closed spec fn spec_source(&self) -> &'a str {
        self.source
    }

    pub closed spec fn spec_tokens(&self) -> Seq<Token> {
        self.tokens@
    }

    pub closed spec fn spec_trivia(&self) -> Seq<Trivia> {
        self.trivia@
    }

    pub closed spec fn wf(&self) -> bool {
        &&& self.chars@ == self.source@
        &&& boff(self.chars@, self.chars@.len() as int) <= usize::MAX
        &&& self.ranges@.len() == self.tokens@.len()
        &&& forall|k: int|
            0 <= k < self.tokens@.len() ==> range_matches(
                self.chars@,
                #[trigger] self.ranges@[k],
                self.tokens@[k].span,
            )
    }

    pub(crate) fn chars(&self) -> (r: &Vec<char>)
        requires
            self.wf(),
        ensures
            r@ == self.spec_source()@,
            boff(r@, r@.len() as int) <= usize::MAX,
    {
        &self.chars
    }

    pub(crate) fn ranges(&self) -> (r: &Vec<(usize, usize)>)
        requires
            self.wf(),
        ensures
            r@.len() == self.spec_tokens().len(),
            forall|k: int|
                0 <= k < r@.len() ==> range_matches(
                    self.spec_source()@,
                    #[trigger] r@[k],
                    self.spec_tokens()[k].span,
                ),
    {
        &self.ranges
    }

    /// The source text covered by `span` (`span` must lie on character
    /// boundaries, `start <= end`).
    pub fn text(&self, span: Span) -> (r: String)
        requires
            self.wf(),
            is_boundary(self.spec_source()@, span.start as int),
            is_boundary(self.spec_source()@, span.end as int),
            span.start <= span.end,
        ensures
            r@ == text_of(self.spec_source()@, span),
    {
        let ghost s = self.chars@;
        let ghost a = ci_of(s, span.start as int);
        let ghost b = ci_of(s, span.end as int);
        proof {
            if b < a {
                lemma_boff_strict(s, b, a);
            }
        }
        let mut i: usize = 0;
        let mut pos: usize = 0;
        proof {
            assert(s.take(0) =~= Seq::<char>::empty());
        }
        while pos < span.start
            invariant
                i <= a <= s.len(),
                s == self.chars@,
                s.len() == self.chars.len(),
                pos == boff(s, i as int),
                boff(s, s.len() as int) <= usize::MAX,
                boff(s, a) == span.start,
            decreases a - i,
        {
            proof {
                if i == a {
                    assert(false);
                }
                lemma_boff_step(s, i as int);
                lemma_boff_mono(s, i + 1, s.len() as int);
            }
            pos = pos + char_width(self.chars[i]);
            i = i + 1;
        }
        proof {
            if (i as int) < a {
                lemma_boff_strict(s, i as int, a);
            }
        }
        let start = i;
        while pos < span.end
            invariant
                start == a,
                a <= i <= b <= s.len(),
                s == self.chars@,
                s.len() == self.chars.len(),
                pos == boff(s, i as int),
                boff(s, s.len() as int) <= usize::MAX,
                boff(s, b) == span.end,
            decreases b - i,
        {
            proof {
                if i == b {
                    assert(false);
                }
                lemma_boff_step(s, i as int);
                lemma_boff_mono(s, i + 1, s.len() as int);
            }
            pos = pos + char_width(self.chars[i]);
            i = i + 1;
        }
        proof {
            if (i as int) < b {
                lemma_boff_strict(s, i as int, b);
            }
        }
        string_from_chars(&self.chars, start, i)
    }

    pub fn source(&self) -> (r: &'a str)
        ensures
            r == self.spec_source(),
    {
        self.source
    }

    pub fn tokens(&self) -> (r: &[Token])
        ensures
            r@ == self.spec_tokens(),
    {
        self.tokens.as_slice()
    }

    pub fn trivia(&self) -> (r: &[Trivia])
        ensures
            r@ == self.spec_trivia(),
    {
        self.trivia.as_slice()
    }

    pub fn into_parts(self) -> (r: (&'a str, Vec<Token>, Vec<Trivia>))
        ensures
            r.0 == self.spec_source(),
            r.1@ == self.spec_tokens(),
            r.2@ == self.spec_trivia(),
    {
        (self.source, self.tokens, self.trivia)
    }
}

/// Lexes `source`: its tokens (the last one `Eof`) and trivia.
pub fn lex(source: &str) -> (r: LexedSource<'_>)
    ensures
        r.wf(),
        r.spec_source() == source,
        r.spec_tokens() == lex_spec(source@).0,
        r.spec_trivia() == lex_spec(source@).1,
{
    let chars = chars_of(source);
    let ghost s = chars@;
    let nbytes = source.as_bytes().len();
    proof {
        assert(s.take(s.len() as int) =~= s);
        assert(s.take(0) =~= Seq::<char>::empty());
        assert(encode_utf8(Seq::<char>::empty()) =~= Seq::<u8>::empty());
    }
    let mut lx = Lexer {
        chars,
        ci: 0,
        pos: 0,
        line: 1,
        col: 1,
        tokens: Vec::new(),
        trivia: Vec::new(),
    };
    let mut ranges: Vec<(usize, usize)> = Vec::new();
    loop
        invariant_except_break
            lex_spec(s) == (lx.tokens@ + lex_from(s, lx.at()).0, lx.trivia@ + lex_from(s, lx.at()).1),
        invariant
            lx.wf(),
            lx.chars@ == s,
            s == source@,
            ranges@.len() == lx.tokens@.len(),
            forall|k: int|
                0 <= k < lx.tokens@.len() ==> range_matches(s, #[trigger] ranges@[k], lx.tokens@[k].span),
        ensures
            lx.wf(),
            lx.chars@ == s,
            ranges@.len() == lx.tokens@.len(),
            forall|k: int|
                0 <= k < lx.tokens@.len() ==> range_matches(s, #[trigger] ranges@[k], lx.tokens@[k].span),
            lex_spec(s) == (lx.tokens@, lx.trivia@),
        decreases lx.chars.len() - lx.ci,
    {
        let ghost p = lx.at();
        let ghost toks0 = lx.tokens@;
        let ghost triv0 = lx.trivia@;
        if lx.ci >= lx.chars.len() {
            let sp = Span { start: lx.pos, end: lx.pos, line: lx.line, col: lx.col };
            lx.tokens.push(Token { kind: TokenKind::Eof, span: sp });
            ranges.push((lx.ci, lx.ci));
            proof {
                assert(lx.tokens@ =~= toks0 + lex_from(s, p).0);
                assert(lx.trivia@ =~= triv0 + lex_from(s, p).1);
            }
            break;
        }
        lx.skip_trivia();
        let ghost p1 = lx.at();
        let ghost tr = lx.trivia@;
        if lx.ci >= lx.chars.len() {
            let sp = Span { start: lx.pos, end: lx.pos, line: lx.line, col: lx.col };
            lx.tokens.push(Token { kind: TokenKind::Eof, span: sp });
            ranges.push((lx.ci, lx.ci));
            proof {
                assert(lx.tokens@ =~= toks0 + lex_from(s, p).0);
                assert(lx.trivia@ =~= triv0 + lex_from(s, p).1);
            }
            break;
        }
        let start = lx.pos;
        let start_ci = lx.ci;
        let line = lx.line;
        let col = lx.col;
        let kind = lx.next_token_kind();
        let sp = Span { start, end: lx.pos, line, col };
        lx.tokens.push(Token { kind, span: sp });
        ranges.push((start_ci, lx.ci));
        proof {
            let rest = lex_from(s, lx.at());
            assert(lex_from(s, p).0 == seq![Token { kind, span: sp }] + rest.0);
            assert(lx.tokens@ + rest.0 =~= toks0 + lex_from(s, p).0);
            assert(lx.trivia@ + rest.1 =~= triv0 + lex_from(s, p).1);
        }
    }
    LexedSource { source, chars: lx.chars, tokens: lx.tokens, trivia: lx.trivia, ranges }
}

fn inc_exec(x: u32) -> (r: u32)
    ensures
        r == inc(x),
{
    if x == u32::MAX {
        0
    } else {
        x + 1
    }
}

fn in_class_exec(k: CharClass, c: char) -> (r: bool)
    ensures
        r == in_class(k, c),
{
    match k {
        CharClass::Whitespace => is_ws_exec(c),
        CharClass::Digit => '0' <= c && c <= '9',
        CharClass::HexDigit => ('0' <= c && c <= '9') || ('a' <= c && c <= 'f') || ('A' <= c
            && c <= 'F'),
        CharClass::IdentContinue => is_ident_continue_exec(c),
        CharClass::NotLineEnd => c != '\n' && c != '\r',
    }
}

struct Lexer {
    chars: Vec<char>,
    ci: usize,
    pos: usize,
    line: u32,
    col: u32,
    tokens: Vec<Token>,
    trivia: Vec<Trivia>,
}

impl Lexer {
    spec fn at(&self) -> LexPos {
        LexPos { ci: self.ci as nat, line: self.line, col: self.col }
    }

    spec fn wf(&self) -> bool {
        &&& self.ci <= self.chars.len()
        &&& self.pos == boff(self.chars@, self.ci as int)
        &&& boff(self.chars@, self.chars@.len() as int) <= usize::MAX
    }

    /// The lexer moved forward over the same text without emitting anything.
    spec fn moved(&self, old: &Lexer) -> bool {
        &&& self.wf()
        &&& self.chars@ == old.chars@
        &&& self.tokens@ == old.tokens@
        &&& self.trivia@ == old.trivia@
        &&& old.ci <= self.ci
    }

    fn current_char(&self) -> (r: Option<char>)
        requires
            self.wf(),
        ensures
            r == cur(self.chars@, self.at()),
    {
        if self.ci < self.chars.len() {
            Some(self.chars[self.ci])
        } else {
            None
        }
    }

    fn peek_char(&self, k: usize) -> (r: Option<char>)
        requires
            self.wf(),
        ensures
            r == peek(self.chars@, self.at(), k as nat),
    {
        if k < self.chars.len() - self.ci {
            Some(self.chars[self.ci + k])
        } else {
            None
        }
    }

    fn advance(&mut self)
        requires
            old(self).wf(),
        ensures
            final(self).moved(old(self)),
            final(self).at() == adv(old(self).chars@, old(self).at()),
    {
        if self.ci < self.chars.len() {
            let ch = self.chars[self.ci];
            proof {
                lemma_boff_step(self.chars@, self.ci as int);
                lemma_boff_mono(self.chars@, self.ci + 1, self.chars@.len() as int);
            }
            self.pos = self.pos + char_width(ch);
            self.ci = self.ci + 1;
            if ch == '\n' {
                self.line = inc_exec(self.line);
                self.col = 1;
            } else {
                self.col = inc_exec(self.col);
            }
        }
    }

    fn advance_n(&mut self, n: usize)
        requires
            old(self).wf(),
        ensures
            final(self).moved(old(self)),
            final(self).at() == adv_n(old(self).chars@, old(self).at(), n as nat),
            n > 0 && old(self).ci < old(self).chars.len() ==> old(self).ci < final(self).ci,
    {
        let mut i: usize = 0;
        while i < n
            invariant
                i <= n,
                self.moved(old(self)),
                i > 0 && old(self).ci < old(self).chars.len() ==> old(self).ci < self.ci,
                adv_n(self.chars@, old(self).at(), n as nat) == adv_n(
                    self.chars@,
                    self.at(),
                    (n - i) as nat,
                ),
            decreases n - i,
        {
            self.advance();
            i = i + 1;
        }
    }

    fn advance_while(&mut self, k: CharClass)
        requires
            old(self).wf(),
        ensures
            final(self).moved(old(self)),
            final(self).at() == adv_while(old(self).chars@, old(self).at(), k),
            old(self).ci < old(self).chars.len() && in_class(k, old(self).chars@[old(self).ci as int])
                ==> old(self).ci < final(self).ci,
    {
        while self.ci < self.chars.len() && in_class_exec(k, self.chars[self.ci])
            invariant
                self.moved(old(self)),
                adv_while(self.chars@, old(self).at(), k) == adv_while(
                    self.chars@,
                    self.at(),
                    k,
                ),
            decreases self.chars.len() - self.ci,
        {
            self.advance();
        }
    }

    fn skip_block_comment_body(&mut self)
        requires
            old(self).wf(),
        ensures
            final(self).moved(old(self)),
            final(self).at() == until_close(old(self).chars@, old(self).at()),
    {
        loop
            invariant
                self.moved(old(self)),
                until_close(self.chars@, old(self).at()) == until_close(self.chars@, self.at()),
            decreases self.chars.len() - self.ci,
        {
            if self.ci >= self.chars.len() {
                return ;
            }
            if self.current_char() == Some('*') && self.peek_char(1) == Some('/') {
                return ;
            }
            self.advance();
        }
    }

    fn consume_string_body(&mut self)
        requires
            old(self).wf(),
        ensures
            final(self).moved(old(self)),
            final(self).at() == string_body(old(self).chars@, old(self).at()),
    {
        loop
            invariant
                self.moved(old(self)),
                string_body(self.chars@, old(self).at()) == string_body(self.chars@, self.at()),
            decreases self.chars.len() - self.ci,
        {
            if self.ci >= self.chars.len() {
                return ;
            }
            let ch = self.chars[self.ci];
            self.advance();
            if ch == '\'' {
                if self.current_char() == Some('\'') {
                    self.advance();
                } else {
                    return ;
                }
            }
        }
    }

    fn consume_quoted_body(&mut self, q: char)
        requires
            old(self).wf(),
        ensures
            final(self).moved(old(self)),
            final(self).at() == quoted_body(old(self).chars@, old(self).at(), q),
    {
        loop
            invariant
                self.moved(old(self)),
                quoted_body(self.chars@, old(self).at(), q) == quoted_body(
                    self.chars@,
                    self.at(),
                    q,
                ),
            decreases self.chars.len() - self.ci,
        {
            if self.ci >= self.chars.len() {
                return ;
            }
            let ch = self.chars[self.ci];
            let next = self.peek_char(1);
            let close = (q == '"' && ch == '"' && next != Some('"')) || (q == '`' && ch == '`'
                && next != Some('`')) || (q == '[' && ch == ']');
            self.advance();
            if close {
                return ;
            }
        }
    }

    fn consume_odbc_body(&mut self)
        requires
            old(self).wf(),
        ensures
            final(self).moved(old(self)),
            final(self).at() == odbc_body(old(self).chars@, old(self).at()),
    {
        loop
            invariant
                self.moved(old(self)),
                odbc_body(self.chars@, old(self).at()) == odbc_body(self.chars@, self.at()),
            decreases self.chars.len() - self.ci,
        {
            if self.ci >= self.chars.len() {
                return ;
            }
            if self.current_char() == Some('\'') && self.peek_char(1) == Some('}') {
                self.advance();
                self.advance();
                return ;
            }
            self.advance();
        }
    }

    fn odbc_prefix_len(&self) -> (r: Option<usize>)
        requires
            self.wf(),
        ensures
            r matches Some(n) ==> odbc_prefix(self.chars@, self.at()) == Some(n as nat),
            r is None ==> odbc_prefix(self.chars@, self.at()) is None,
    {
        let c = self.current_char();
        let c1 = lower_opt(self.peek_char(1));
        let c2 = self.peek_char(2);
        let c3 = self.peek_char(3);
        let c4 = self.peek_char(4);
        if c == Some('{') && c1 == Some('t') && lower_opt(c2) == Some('s') && c3 == Some(' ')
            && c4 == Some('\'') {
            Some(5)
        } else if c == Some('{') && c1 == Some('d') && c2 == Some(' ') && c3 == Some('\'') {
            Some(4)
        } else if c == Some('{') && c1 == Some('t') && c2 == Some(' ') && c3 == Some('\'') {
            Some(4)
        } else {
            None
        }
    }

    fn consume_number(&mut self)
        requires
            old(self).wf(),
        ensures
            final(self).moved(old(self)),
            final(self).at() == number_end(old(self).chars@, old(self).at()),
            old(self).ci < old(self).chars.len() && (is_digit(old(self).chars@[old(self).ci as int])
                || old(self).chars@[old(self).ci as int] == '.') ==> old(self).ci < final(self).ci,
    {
        if self.current_char() == Some('.') {
            self.advance();
        }
        let n1 = self.peek_char(1);
        if self.current_char() == Some('0') && (n1 == Some('x') || n1 == Some('X')) {
            self.advance();
            self.advance();
            self.advance_while(CharClass::HexDigit);
            return ;
        }
        self.advance_while(CharClass::Digit);
        let d1 = self.peek_char(1);
        if self.current_char() == Some('.') && digit_opt(d1) {
            self.advance();
            self.advance_while(CharClass::Digit);
        }
        let c = self.current_char();
        if c == Some('e') || c == Some('E') {
            let save_ci = self.ci;
            let save_pos = self.pos;
            self.advance();
            let s = self.current_char();
            if s == Some('+') || s == Some('-') {
                self.advance();
            }
            let before = self.ci;
            self.advance_while(CharClass::Digit);
            if self.ci == before {
                self.ci = save_ci;
                self.pos = save_pos;
            }
        }
    }

    fn consume_identifier(&mut self)
        requires
            old(self).wf(),
        ensures
            final(self).moved(old(self)),
            final(self).at() == ident_end(old(self).chars@, old(self).at()),
            old(self).ci < old(self).chars.len() ==> old(self).ci < final(self).ci,
    {
        self.advance();
        self.advance_while(CharClass::IdentContinue);
    }

    fn consume_operator_or_punct(&mut self) -> (k: TokenKind)
        requires
            old(self).wf(),
            old(self).ci < old(self).chars.len(),
        ensures
            final(self).moved(old(self)),
            old(self).ci < final(self).ci,
            ({
                let (kind, n) = op_token(old(self).chars@, old(self).at());
                k == kind && final(self).at() == adv_n(old(self).chars@, old(self).at(), n)
            }),
    {
        let ch = self.chars[self.ci];
        let c1 = self.peek_char(1);
        let c2 = self.peek_char(2);
        let c3 = self.peek_char(3);
        let (k, n): (TokenKind, usize) = if ch == ',' {
            (TokenKind::Comma, 1)
        } else if ch == '.' {
            if c1 == Some('.') {
                if c2 == Some('<') {
                    (TokenKind::DotDotLess, 3)
                } else {
                    (TokenKind::DotDot, 2)
                }
            } else {
                (TokenKind::Dot, 1)
            }
        } else if ch == '(' {
            (TokenKind::LeftParen, 1)
        } else if ch == ')' {
            (TokenKind::RightParen, 1)
        } else if ch == '*' {
            (TokenKind::Asterisk, 1)
        } else if ch == '+' {
            (TokenKind::Plus, 1)
        } else if ch == '-' {
            (TokenKind::Minus, 1)
        } else if ch == '/' {
            (TokenKind::Slash, 1)
        } else if ch == '%' {
            (TokenKind::Percent, 1)
        } else if ch == '^' {
            (TokenKind::Caret, 1)
        } else if ch == ';' {
            (TokenKind::Semicolon, 1)
        } else if ch == ':' {
            if c1 == Some(':') {
                (TokenKind::ColonColon, 2)
            } else {
                (TokenKind::Colon, 1)
            }
        } else if ch == '?' {
            if c1 == Some('.') {
                (TokenKind::QuestionDot, 2)
            } else if c1 == Some(':') {
                (TokenKind::QuestionColon, 2)
            } else {
                (TokenKind::Question, 1)
            }
        } else if ch == '=' {
            if c1 == Some('=') {
                (TokenKind::EqualEqual, 2)
            } else if c1 == Some('>') {
                (TokenKind::Equal, 2)
            } else {
                (TokenKind::Equal, 1)
            }
        } else if ch == '<' {
            if c1 == Some('=') {
                (TokenKind::LessEqual, 2)
            } else if c1 == Some('>') {
                (TokenKind::NotEqualAngle, 2)
            } else if c1 == Some('.') && c2 == Some('.') {
                (TokenKind::DotDotLess, 3)
            } else {
                (TokenKind::Less, 1)
            }
        } else if ch == '>' {
            if c1 == Some('=') {
                (TokenKind::GreaterEqual, 2)
            } else if c1 == Some('.') && c2 == Some('.') {
                if c3 == Some('<') {
                    (TokenKind::GreaterDotDotLess, 4)
                } else {
                    (TokenKind::GreaterDotDot, 3)
                }
            } else {
                (TokenKind::Greater, 1)
            }
        } else if ch == '!' {
            if c1 == Some('=') {
                (TokenKind::BangEqual, 2)
            } else {
                (TokenKind::Bang, 1)
            }
        } else if ch == '|' {
            if c1 == Some('|') {
                (TokenKind::PipePipe, 2)
            } else {
                (TokenKind::PipePipe, 1)
            }
        } else if ch == '&' {
            if c1 == Some('&') {
                (TokenKind::AmpAmp, 2)
            } else {
                (TokenKind::Ampersand, 1)
            }
        } else {
            (TokenKind::Identifier, 1)
        };
        self.advance_n(n);
        k
    }

    fn next_token_kind(&mut self) -> (k: TokenKind)
        requires
            old(self).wf(),
            old(self).ci < old(self).chars.len(),
        ensures
            final(self).moved(old(self)),
            old(self).ci < final(self).ci,
            (k, final(self).at()) == next_token(old(self).chars@, old(self).at()),
    {
        if let Some(n) = self.odbc_prefix_len() {
            self.advance_n(n);
            self.consume_odbc_body();
            return TokenKind::OdbcDateTimeLiteral;
        }
        let ch = self.chars[self.ci];
        let c1 = self.peek_char(1);
        if ch == '?' {
            self.advance();
            return TokenKind::BindParameter;
        }
        if ch == ':' && ident_start_opt(c1) {
            self.advance();
            self.consume_identifier();
            return TokenKind::BindParameter;
        }
        if ch == '\'' {
            self.advance();
            self.consume_string_body();
            return TokenKind::String;
        }
        if ('0' <= ch && ch <= '9') || (ch == '.' && digit_opt(c1)) {
            self.consume_number();
            return TokenKind::Number;
        }
        let start = self.ci;
        if ch == '"' || ch == '`' || ch == '[' {
            self.advance();
            self.consume_quoted_body(ch);
            return keyword_or_ident(&self.chars, start, self.ci);
        }
        if is_ident_start_exec(ch) {
            self.consume_identifier();
            return keyword_or_ident(&self.chars, start, self.ci);
        }
        self.consume_operator_or_punct()
    }

    fn span_from(&self, start: usize, line: u32, col: u32) -> (sp: Span)
        ensures
            sp == (Span { start, end: self.pos, line, col }),
    {
        Span { start, end: self.pos, line, col }
    }

    fn skip_trivia(&mut self)
        requires
            old(self).wf(),
        ensures
            final(self).wf(),
            final(self).chars@ == old(self).chars@,
            final(self).tokens@ == old(self).tokens@,
            old(self).ci <= final(self).ci,
            ({
                let (tr, p) = skip_trivia(old(self).chars@, old(self).at());
                final(self).trivia@ == old(self).trivia@ + tr && final(self).at() == p
            }),
    {
        let ghost s = self.chars@;
        let ghost start_tr = self.trivia@;
        loop
            invariant
                self.wf(),
                self.chars@ == s,
                self.tokens@ == old(self).tokens@,
                old(self).ci <= self.ci,
                ({
                    let (tr, p) = skip_trivia(s, old(self).at());
                    let (tr2, p2) = skip_trivia(s, self.at());
                    tr == self.trivia@.subrange(start_tr.len() as int, self.trivia@.len() as int) + tr2
                        && p == p2
                }),
                self.trivia@.subrange(0, start_tr.len() as int) == start_tr,
                start_tr.len() <= self.trivia@.len(),
            ensures
                self.wf(),
                self.chars@ == s,
                self.tokens@ == old(self).tokens@,
                old(self).ci <= self.ci,
                ({
                    let (tr, p) = skip_trivia(s, old(self).at());
                    tr =~= self.trivia@.subrange(start_tr.len() as int, self.trivia@.len() as int)
                        && p == self.at()
                }),
                self.trivia@.subrange(0, start_tr.len() as int) == start_tr,
                start_tr.len() <= self.trivia@.len(),
            decreases self.chars.len() - self.ci,
        {
            if self.ci >= self.chars.len() {
                assert(skip_trivia(s, self.at()).0 =~= Seq::<Trivia>::empty());
                break;
            }
            let ghost before = self.trivia@;
            let ghost p0 = self.at();
            let start = self.pos;
            let line = self.line;
            let col = self.col;
            let ch = self.chars[self.ci];
            let c1 = self.peek_char(1);
            let kind;
            if is_ws_exec(ch) {
                self.advance_while(CharClass::Whitespace);
                kind = TriviaKind::Whitespace;
            } else if ch == '-' && c1 == Some('-') {
                self.advance();
                self.advance();
                self.advance_while(CharClass::NotLineEnd);
                kind = TriviaKind::LineComment;
            } else if ch == '/' && c1 == Some('*') {
                self.advance();
                self.advance();
                self.skip_block_comment_body();
                if self.current_char() == Some('*') && self.peek_char(1) == Some('/') {
                    self.advance();
                    self.advance();
                }
                kind = TriviaKind::BlockComment;
            } else {
                assert(skip_trivia(s, self.at()).0 =~= Seq::<Trivia>::empty());
                assert(skip_trivia(s, self.at()).1 == self.at());
                break;
            }
            let sp = self.span_from(start, line, col);
            proof {
                assert(sp == span_of(s, p0, self.at()));
            }
            self.trivia.push(Trivia { kind, span: sp });
            proof {
                assert(self.trivia@.subrange(0, start_tr.len() as int) =~= start_tr);
                assert(self.trivia@.subrange(start_tr.len() as int, self.trivia@.len() as int)
                    =~= before.subrange(start_tr.len() as int, before.len() as int) + seq![
                    Trivia { kind, span: sp },
                ]);
            }
        }
        proof {
            assert(self.trivia@ =~= start_tr + self.trivia@.subrange(
                start_tr.len() as int,
                self.trivia@.len() as int,
            ));
        }
    }
}

fn lower_opt(o: Option<char>) -> (r: Option<char>)
    ensures
        r == (match o {
            Some(c) => Some(lower(c)),
            None => None,
        }),
{
    match o {
        Some(c) => Some(lower_exec(c)),
        None => None,
    }
}

fn digit_opt(o: Option<char>) -> (r: bool)
    ensures
        r == is_digit_opt(o),
{
    match o {
        Some(c) => '0' <= c && c <= '9',
        None => false,
    }
}

fn ident_start_opt(o: Option<char>) -> (r: bool)
    ensures
        r == (o matches Some(d) && is_ident_start(d)),
{
    match o {
        Some(c) => is_ident_start_exec(c),
        None => false,
    }
}

/// Whether `chars[start..end]`, ASCII-lowercased, equals `kw`.
fn lower_eq_exec(chars: &Vec<char>, start: usize, end: usize, kw: &str) -> (r: bool)
    requires
        start <= end <= chars.len(),
    ensures
        r == lower_eq(chars@.subrange(start as int, end as int), kw@),
{
    let n = kw.unicode_len();
    if end - start != n {
        return false;
    }
    let mut i: usize = 0;
    while i < n
        invariant
            i <= n,
            n == kw@.len(),
            end - start == n,
            start <= end <= chars.len(),
            forall|j: int| 0 <= j < i ==> lower(#[trigger] chars@[start + j]) == kw@[j],
        decreases n - i,
    {
        if lower_exec(chars[start + i]) != kw.get_char(i) {
            assert(lower(chars@.subrange(start as int, end as int)[i as int]) != kw@[i as int]);
            return false;
        }
        i = i + 1;
    }
    assert forall|j: int| 0 <= j < n implies lower(
        #[trigger] chars@.subrange(start as int, end as int)[j],
    ) == kw@[j] by {
        assert(chars@.subrange(start as int, end as int)[j] == chars@[start + j]);
    }
    true
}

/// Keyword recognition for the lexeme `chars[start..end]`.
fn keyword_or_ident(chars: &Vec<char>, start: usize, end: usize) -> (k: TokenKind)
    requires
        start <= end <= chars.len(),
    ensures
        k == keyword_kind(chars@.subrange(start as int, end as int)),
{
    if lower_eq_exec(chars, start, end, "select") { TokenKind::Select }
    else if lower_eq_exec(chars, start, end, "from") { TokenKind::From }
    else if lower_eq_exec(chars, start, end, "where") { TokenKind::Where }
    else if lower_eq_exec(chars, start, end, "group") { TokenKind::Group }
    else if lower_eq_exec(chars, start, end, "by") { TokenKind::By }
    else if lower_eq_exec(chars, start, end, "having") { TokenKind::Having }
    else if lower_eq_exec(chars, start, end, "order") { TokenKind::Order }
    else if lower_eq_exec(chars, start, end, "asc") { TokenKind::Asc }
    else if lower_eq_exec(chars, start, end, "desc") { TokenKind::Desc }
    else if lower_eq_exec(chars, start, end, "limit") { TokenKind::Limit }
    else if lower_eq_exec(chars, start, end, "distinct") { TokenKind::Distinct }
    else if lower_eq_exec(chars, start, end, "union") { TokenKind::Union }
    else if lower_eq_exec(chars, start, end, "all") { TokenKind::All }
    else if lower_eq_exec(chars, start, end, "as") { TokenKind::As }
    else if lower_eq_exec(chars, start, end, "and") { TokenKind::And }
    else if lower_eq_exec(chars, start, end, "or") { TokenKind::Or }
    else if lower_eq_exec(chars, start, end, "not") { TokenKind::Not }
    else if lower_eq_exec(chars, start, end, "in") { TokenKind::In }
    else if lower_eq_exec(chars, start, end, "between") { TokenKind::Between }
    else if lower_eq_exec(chars, start, end, "like") { TokenKind::Like }
    else if lower_eq_exec(chars, start, end, "is") { TokenKind::Is }
    else if lower_eq_exec(chars, start, end, "null") { TokenKind::Null }
    else if lower_eq_exec(chars, start, end, "case") { TokenKind::Case }
    else if lower_eq_exec(chars, start, end, "when") { TokenKind::When }
    else if lower_eq_exec(chars, start, end, "then") { TokenKind::Then }
    else if lower_eq_exec(chars, start, end, "else") { TokenKind::Else }
    else if lower_eq_exec(chars, start, end, "end") { TokenKind::End }
    else if lower_eq_exec(chars, start, end, "cast") { TokenKind::Cast }
    else if lower_eq_exec(chars, start, end, "convert") { TokenKind::Convert }
    else if lower_eq_exec(chars, start, end, "on") { TokenKind::On }
    else if lower_eq_exec(chars, start, end, "join") { TokenKind::Join }
    else if lower_eq_exec(chars, start, end, "inner") { TokenKind::Inner }
    else if lower_eq_exec(chars, start, end, "left") { TokenKind::Left }
    else if lower_eq_exec(chars, start, end, "right") { TokenKind::Right }
    else if lower_eq_exec(chars, start, end, "full") { TokenKind::Full }
    else if lower_eq_exec(chars, start, end, "outer") { TokenKind::Outer }
    else if lower_eq_exec(chars, start, end, "cross") { TokenKind::Cross }
    else if lower_eq_exec(chars, start, end, "true") { TokenKind::True }
    else if lower_eq_exec(chars, start, end, "false") { TokenKind::False }
    else if lower_eq_exec(chars, start, end, "contains") { TokenKind::Contains }
    else if lower_eq_exec(chars, start, end, "instanceof") { TokenKind::InstanceOf }
    else if lower_eq_exec(chars, start, end, "castas") { TokenKind::CastAs }
    else if lower_eq_exec(chars, start, end, "xor") { TokenKind::Xor }
    else if lower_eq_exec(chars, start, end, "eqv") { TokenKind::Eqv }
    else { TokenKind::Identifier }
}

} // verus!
