//! The Query-of-Queries parser: a recursive-descent parser with precedence
//! climbing for binary operators.
//!
//! The grammar is stated by the spec functions `p_*` of this module over the
//! token sequence and the source characters; `parse` is proved to return
//! exactly what `parse_spec` gives, error messages and spans included.
use vstd::prelude::*;
use crate::text::{boff, ci_of, lemma_ci_of, string_from_chars, is_digit, nat_text, push_nat_text, push_char};
use crate::qoq::token::{Span, Token, TokenKind};
use crate::qoq::lexer::{lex, lex_spec, range_matches, text_of};
use crate::qoq::ast::{
    select_v,
    Query, QueryKind, SelectStatement, SelectItem, TableRef, TableSource, JoinClause, JoinKind,
    OrderByItem, Expression, UnaryOp, BinaryOp, SQuery, SSelect, SItem, STable, SSource, SJoin,
    SOrder, SExpr, strs_v, opt_str_v, items_v, tables_v, joins_v, orders_v, exprs_v, branches_v,
    expr_v, query_v, table_v,
};

verus! {

broadcast use {vstd::std_specs::vec::axiom_vec_decreases_to_view, vstd::seq::axiom_seq_subrange_decreases, vstd::seq::axiom_seq_index_decreases};

/// A parse error: a message and the span where it was detected.
#[derive(Debug, Clone, PartialEq, Eq)]
pub struct ParseError {
    pub message: String,
    pub span: Span,
}

pub struct SErr {
    pub message: Seq<char>,
    pub span: Span,
}

impl View for ParseError {
    type V = SErr;

    open spec fn view(&self) -> SErr {
        SErr { message: self.message@, span: self.span }
    }
}

/// Appends the characters of `t`.
fn push_text(s: &mut String, t: &str)
    ensures
        final(s)@ == old(s)@ + t@,
{
    let cs = crate::text::chars_of(t);
    let mut i: usize = 0;
    while i < cs.len()
        invariant
            i <= cs@.len(),
            cs@ == t@,
            s@ == old(s)@ + t@.take(i as int),
        decreases cs.len() - i,
    {
        push_char(s, cs[i]);
        assert(t@.take(i + 1) =~= t@.take(i as int).push(t@[i as int]));
        i = i + 1;
    }
    assert(t@.take(i as int) =~= t@);
}

impl ParseError {
    /// The error as it is displayed: the message, then ` at line L, col C`.
    pub fn to_string(&self) -> (r: String)
        ensures
            r@ == self.message@ + " at line "@ + nat_text(self.span.line as nat) + ", col "@
                + nat_text(self.span.col as nat),
    {
        let mut r = self.message.clone();
        push_text(&mut r, " at line ");
        push_nat_text(&mut r, self.span.line as u64);
        push_text(&mut r, ", col ");
        push_nat_text(&mut r, self.span.col as u64);
        r
    }
}

/// What the parser reads: the tokens and the source characters.
pub struct PCtx {
    pub toks: Seq<Token>,
    pub src: Seq<char>,
}

pub type PRes<T> = Result<(T, int), SErr>;

pub open spec fn kind_at(c: PCtx, pos: int) -> Option<TokenKind> {
    if 0 <= pos < c.toks.len() {
        Some(c.toks[pos].kind)
    } else {
        None
    }
}

pub open spec fn peek_is(c: PCtx, pos: int, k: TokenKind) -> bool {
    kind_at(c, pos) == Some(k)
}

pub open spec fn tok_text(c: PCtx, i: int) -> Seq<char> {
    text_of(c.src, c.toks[i].span)
}

pub open spec fn src_len(c: PCtx) -> usize {
    boff(c.src, c.src.len() as int) as usize
}

/// An error at the current token (or at the end of the source past the last token).
pub open spec fn err_cur(c: PCtx, pos: int, msg: Seq<char>) -> SErr {
    SErr {
        message: msg,
        span: if 0 <= pos < c.toks.len() {
            c.toks[pos].span
        } else {
            Span { start: src_len(c), end: src_len(c), line: 0, col: 0 }
        },
    }
}

pub open spec fn merge_spans(start: Span, end: Span) -> Span {
    Span { start: start.start, end: end.end, line: start.line, col: start.col }
}

pub open spec fn squery_span(q: SQuery) -> Span {
    match q {
        SQuery::Select { span, .. } => span,
        SQuery::Union { span, .. } => span,
    }
}

/// `u64::from_str`: an optional `+`, then one or more decimal digits, in range.
pub open spec fn dec_val(t: Seq<char>) -> nat
    decreases t.len(),
{
    if t.len() == 0 {
        0
    } else {
        dec_val(t.drop_last()) * 10 + ((t.last() as u32) - ('0' as u32)) as nat
    }
}

pub open spec fn all_digits(t: Seq<char>) -> bool {
    forall|i: int| 0 <= i < t.len() ==> is_digit(#[trigger] t[i])
}

pub open spec fn unsigned_digits(s: Seq<char>) -> Seq<char> {
    if s.len() > 0 && s[0] == '+' {
        s.drop_first()
    } else {
        s
    }
}

pub open spec fn parse_unsigned(s: Seq<char>, max: nat) -> Option<nat> {
    let t = unsigned_digits(s);
    if t.len() > 0 && all_digits(t) && dec_val(t) <= max {
        Some(dec_val(t))
    } else {
        None
    }
}

/// Parts of a dotted name joined with `.`.
pub open spec fn join_dot(parts: Seq<Seq<char>>) -> Seq<char>
    decreases parts.len(),
{
    if parts.len() == 0 {
        seq![]
    } else if parts.len() == 1 {
        parts[0]
    } else {
        join_dot(parts.drop_last()) + "."@ + parts.last()
    }
}

/// The function name an expression stands for before `(`.
pub open spec fn expr_name(c: PCtx, pos: int, e: SExpr) -> Result<Seq<char>, SErr>
    decreases e,
{
    match e {
        SExpr::Identifier(parts) => Ok(join_dot(parts)),
        SExpr::Paren(inner) => expr_name(c, pos, *inner),
        _ => Err(err_cur(c, pos, "expected function name"@)),
    }
}

pub open spec fn binary_op_of(k: Option<TokenKind>) -> Option<(nat, BinaryOp)> {
    match k {
        Some(TokenKind::Or) => Some((1, BinaryOp::Or)),
        Some(TokenKind::Xor) => Some((1, BinaryOp::Xor)),
        Some(TokenKind::Eqv) => Some((1, BinaryOp::Eqv)),
        Some(TokenKind::AmpAmp) => Some((2, BinaryOp::And)),
        Some(TokenKind::And) => Some((2, BinaryOp::And)),
        Some(TokenKind::EqualEqual) => Some((3, BinaryOp::Eq)),
        Some(TokenKind::Equal) => Some((3, BinaryOp::Eq)),
        Some(TokenKind::BangEqual) => Some((3, BinaryOp::NotEq)),
        Some(TokenKind::NotEqualAngle) => Some((3, BinaryOp::NotEq)),
        Some(TokenKind::Less) => Some((3, BinaryOp::Lt)),
        Some(TokenKind::LessEqual) => Some((3, BinaryOp::Lte)),
        Some(TokenKind::Greater) => Some((3, BinaryOp::Gt)),
        Some(TokenKind::GreaterEqual) => Some((3, BinaryOp::Gte)),
        Some(TokenKind::Like) => Some((3, BinaryOp::Like)),
        Some(TokenKind::Contains) => Some((3, BinaryOp::Contains)),
        Some(TokenKind::InstanceOf) => Some((3, BinaryOp::InstanceOf)),
        Some(TokenKind::CastAs) => Some((3, BinaryOp::CastAs)),
        Some(TokenKind::Plus) => Some((4, BinaryOp::Add)),
        Some(TokenKind::Minus) => Some((4, BinaryOp::Sub)),
        Some(TokenKind::Asterisk) => Some((5, BinaryOp::Mul)),
        Some(TokenKind::Slash) => Some((5, BinaryOp::Div)),
        Some(TokenKind::Percent) => Some((5, BinaryOp::Mod)),
        Some(TokenKind::Ampersand) => Some((6, BinaryOp::Concat)),
        Some(TokenKind::Caret) => Some((7, BinaryOp::Pow)),
        _ => None,
    }
}

/// Multiplicative operators (`*`, `/`, `%`) bind tighter than additive
/// ones (`+`, `-`): their precedence is strictly higher, so the right
/// operand of an additive operator, which is parsed at one above the
/// additive precedence, takes in a following multiplicative operator
/// (`a + b * c` is `a + (b * c)`) but stops at a following additive one
/// (`a - b + c` is `(a - b) + c`). Operators of one group share a level.
pub proof fn lemma_multiplicative_binds_tighter(m: TokenKind, m2: TokenKind, a: TokenKind, a2: TokenKind)
    requires
        m == TokenKind::Asterisk || m == TokenKind::Slash || m == TokenKind::Percent,
        m2 == TokenKind::Asterisk || m2 == TokenKind::Slash || m2 == TokenKind::Percent,
        a == TokenKind::Plus || a == TokenKind::Minus,
        a2 == TokenKind::Plus || a2 == TokenKind::Minus,
    ensures
        binary_op_of(Some(m)) matches Some((pm, _)) && binary_op_of(Some(a)) matches Some((pa, _)) && pm > pa,
        binary_op_of(Some(m)) matches Some((pm, _)) && binary_op_of(Some(m2)) matches Some((pm2, _)) && pm == pm2,
        binary_op_of(Some(a)) matches Some((pa, _)) && binary_op_of(Some(a2)) matches Some((pa2, _)) && pa == pa2,
{
}

/// The precedence levels, loosest first: `OR`/`XOR`/`EQV`, `AND`, the
/// comparisons (`=`, `<>`, `<`, `LIKE`, ...), the additive operators, the
/// multiplicative ones, `&`, then `^`.
pub proof fn lemma_precedence_levels(a: TokenKind, b: TokenKind)
    requires
        binary_op_of(Some(a)) is Some,
        binary_op_of(Some(b)) is Some,
        level_of(a) < level_of(b),
    ensures
        (binary_op_of(Some(a))->0).0 < (binary_op_of(Some(b))->0).0,
{
}

/// The group of an operator token: 1 for `OR`/`XOR`/`EQV`, 2 for `AND`, 3
/// for comparisons, 4 for `+`/`-`, 5 for `*`/`/`/`%`, 6 for `&`, 7 for `^`.
pub open spec fn level_of(k: TokenKind) -> int {
    match k {
        TokenKind::Or | TokenKind::Xor | TokenKind::Eqv => 1,
        TokenKind::AmpAmp | TokenKind::And => 2,
        TokenKind::Plus | TokenKind::Minus => 4,
        TokenKind::Asterisk | TokenKind::Slash | TokenKind::Percent => 5,
        TokenKind::Ampersand => 6,
        TokenKind::Caret => 7,
        _ => 3,
    }
}

/// After a left operand, an additive operator is not taken in by a parse
/// that started one above the additive precedence: that parse returns
/// the operand and leaves the operator to the enclosing one.
pub proof fn lemma_additive_stops_tighter_parse(c: PCtx, left: SExpr, pos: int, a: TokenKind)
    requires
        a == TokenKind::Plus || a == TokenKind::Minus,
        kind_at(c, pos) == Some(a),
    ensures
        binary_op_of(Some(a)) matches Some((pa, _)) && p_binary_rest(c, left, pos, pa + 1) == Ok::<
            (SExpr, int),
            SErr,
        >((left, pos)),
{
}

pub open spec fn is_join_start(k: Option<TokenKind>) -> bool {
    ||| k == Some(TokenKind::Join)
    ||| k == Some(TokenKind::Inner)
    ||| k == Some(TokenKind::Left)
    ||| k == Some(TokenKind::Right)
    ||| k == Some(TokenKind::Full)
    ||| k == Some(TokenKind::Cross)
}

/// Whether a sub-parse starting at `pos` and ending at `p` made progress.
pub open spec fn fwd(c: PCtx, pos: int, p: int) -> bool {
    pos < p <= c.toks.len()
}

pub open spec fn expect_kind(c: PCtx, pos: int, k: TokenKind) -> PRes<Span> {
    if peek_is(c, pos, k) {
        Ok((c.toks[pos].span, pos + 1))
    } else {
        Err(err_cur(c, pos, "expected "@ + kind_name(k)))
    }
}

pub open spec fn p_ident(c: PCtx, pos: int) -> PRes<Seq<char>> {
    if peek_is(c, pos, TokenKind::Identifier) {
        Ok((tok_text(c, pos), pos + 1))
    } else {
        Err(err_cur(c, pos, "expected identifier"@))
    }
}

/// The rest of a dotted path after `acc`.
pub open spec fn p_path_rest(c: PCtx, acc: Seq<Seq<char>>, pos: int) -> PRes<Seq<Seq<char>>>
    decreases c.toks.len() - pos,
{
    if peek_is(c, pos, TokenKind::Dot) {
        match p_ident(c, pos + 1) {
            Err(e) => Err(e),
            Ok((id, p)) => if fwd(c, pos, p) {
                p_path_rest(c, acc.push(id), p)
            } else {
                Ok((acc.push(id), p))
            },
        }
    } else {
        Ok((acc, pos))
    }
}

pub open spec fn p_path(c: PCtx, pos: int) -> PRes<Seq<Seq<char>>> {
    match p_ident(c, pos) {
        Err(e) => Err(e),
        Ok((id, p)) => p_path_rest(c, seq![id], p),
    }
}

pub open spec fn p_query(c: PCtx) -> Result<SQuery, SErr> {
    match p_query_inner(c, 0) {
        Err(e) => Err(e),
        Ok((q, p)) => if peek_is(c, p, TokenKind::Eof) {
            Ok(q)
        } else {
            Err(err_cur(c, p, "unexpected trailing tokens"@))
        },
    }
}

pub open spec fn p_query_inner(c: PCtx, pos: int) -> PRes<SQuery>
    decreases c.toks.len() - pos, 20int,
{
    match p_select_query(c, pos) {
        Err(e) => Err(e),
        Ok((q, p)) => if fwd(c, pos, p) {
            p_union_rest(c, q, p)
        } else {
            Ok((q, p))
        },
    }
}

pub open spec fn p_union_rest(c: PCtx, left: SQuery, pos: int) -> PRes<SQuery>
    decreases c.toks.len() - pos, 20int,
{
    if peek_is(c, pos, TokenKind::Union) {
        let all = peek_is(c, pos + 1, TokenKind::All);
        let p1 = if all { pos + 2 } else { pos + 1 };
        match p_select_query(c, p1) {
            Err(e) => Err(e),
            Ok((right, p2)) => {
                let u = SQuery::Union {
                    left: Box::new(left),
                    all,
                    right: Box::new(right),
                    span: merge_spans(squery_span(left), squery_span(right)),
                };
                if fwd(c, p1, p2) {
                    p_union_rest(c, u, p2)
                } else {
                    Ok((u, p2))
                }
            },
        }
    } else {
        Ok((left, pos))
    }
}

/// The span of the token before `p` (`prev_span`), or `start` if none.
pub open spec fn prev_span(c: PCtx, p: int, start: Span) -> Span {
    let i = if p >= 1 { p - 1 } else { 0 };
    if 0 <= i < c.toks.len() {
        c.toks[i].span
    } else {
        start
    }
}

pub open spec fn p_select_query(c: PCtx, pos: int) -> PRes<SQuery>
    decreases c.toks.len() - pos, 13int,
{
    if !peek_is(c, pos, TokenKind::Select) {
        Err(err_cur(c, pos, "expected Select"@))
    } else {
        let start = c.toks[pos].span;
        let distinct = peek_is(c, pos + 1, TokenKind::Distinct);
        let p0 = if distinct { pos + 2 } else { pos + 1 };
        match p_items(c, p0) {
            Err(e) => Err(e),
            Ok((projection, p1)) => if fwd(c, pos, p1) {
                p_sel_from(c, pos, start, distinct, projection, p1)
            } else {
                Err(err_cur(c, p1, seq![]))
            },
        }
    }
}

pub open spec fn p_sel_from(c: PCtx, pos: int, start: Span, distinct: bool, projection: Seq<SItem>, p1: int) -> PRes<SQuery>
    decreases c.toks.len() - pos, 12int,
{
    if !fwd(c, pos, p1) {
        Err(err_cur(c, p1, seq![]))
    } else {
        match p_from_clause(c, p1) {
            Err(e) => Err(e),
            Ok((from, p2)) => if fwd(c, pos, p2) && p1 <= p2 {
                p_sel_where(c, pos, start, distinct, projection, from, p2)
            } else {
                Err(err_cur(c, p2, seq![]))
            },
        }
    }
}

pub open spec fn p_sel_where(c: PCtx, pos: int, start: Span, distinct: bool, projection: Seq<SItem>, from: Seq<STable>, p2: int) -> PRes<SQuery>
    decreases c.toks.len() - pos, 11int,
{
    if !fwd(c, pos, p2) {
        Err(err_cur(c, p2, seq![]))
    } else {
        match p_where_clause(c, p2) {
            Err(e) => Err(e),
            Ok((where_clause, p3)) => if fwd(c, pos, p3) && p2 <= p3 {
                p_sel_group(c, pos, start, distinct, projection, from, where_clause, p3)
            } else {
                Err(err_cur(c, p3, seq![]))
            },
        }
    }
}

pub open spec fn p_sel_group(c: PCtx, pos: int, start: Span, distinct: bool, projection: Seq<SItem>, from: Seq<STable>, where_clause: Option<SExpr>, p3: int) -> PRes<SQuery>
    decreases c.toks.len() - pos, 10int,
{
    if !fwd(c, pos, p3) {
        Err(err_cur(c, p3, seq![]))
    } else {
        match p_group_clause(c, p3) {
            Err(e) => Err(e),
            Ok((group_by, p4)) => if fwd(c, pos, p4) && p3 <= p4 {
                p_sel_having(c, pos, start, SSelect {
                    distinct,
                    projection,
                    from,
                    where_clause,
                    group_by,
                    having: None,
                    order_by: seq![],
                    limit: None,
                }, p4)
            } else {
                Err(err_cur(c, p4, seq![]))
            },
        }
    }
}

/// `acc` holds the clauses parsed so far (having, order and limit still unset).
pub open spec fn p_sel_having(c: PCtx, pos: int, start: Span, acc: SSelect, p4: int) -> PRes<SQuery>
    decreases c.toks.len() - pos, 9int,
{
    if !fwd(c, pos, p4) {
        Err(err_cur(c, p4, seq![]))
    } else {
        match p_having_clause(c, p4) {
            Err(e) => Err(e),
            Ok((having, p5)) => if fwd(c, pos, p5) && p4 <= p5 {
                p_sel_order(c, pos, start, SSelect { having, ..acc }, p5)
            } else {
                Err(err_cur(c, p5, seq![]))
            },
        }
    }
}

pub open spec fn p_sel_order(c: PCtx, pos: int, start: Span, acc: SSelect, p5: int) -> PRes<SQuery>
    decreases c.toks.len() - pos, 8int,
{
    if !fwd(c, pos, p5) {
        Err(err_cur(c, p5, seq![]))
    } else {
        match p_order_clause(c, p5) {
            Err(e) => Err(e),
            Ok((order_by, p6)) => if fwd(c, pos, p6) && p5 <= p6 {
                match p_limit_clause(c, p6) {
                    Err(e) => Err(e),
                    Ok((limit, p7)) => Ok(
                        (
                            SQuery::Select {
                                stmt: SSelect { order_by, limit, ..acc },
                                span: merge_spans(start, prev_span(c, p7, start)),
                            },
                            p7,
                        ),
                    ),
                }
            } else {
                Err(err_cur(c, p6, seq![]))
            },
        }
    }
}

/// Projection list: items separated by commas.
pub open spec fn p_items(c: PCtx, pos: int) -> PRes<Seq<SItem>>
    decreases c.toks.len() - pos, 19int,
{
    match p_select_item(c, pos) {
        Err(e) => Err(e),
        Ok((it, p)) => if peek_is(c, p, TokenKind::Comma) && fwd(c, pos, p) {
            match p_items(c, p + 1) {
                Err(e) => Err(e),
                Ok((rest, p2)) => Ok((seq![it] + rest, p2)),
            }
        } else {
            Ok((seq![it], p))
        },
    }
}

pub open spec fn p_alias_as(c: PCtx, pos: int) -> PRes<Option<Seq<char>>> {
    if peek_is(c, pos, TokenKind::As) {
        match p_ident(c, pos + 1) {
            Err(e) => Err(e),
            Ok((a, p)) => Ok((Some(a), p)),
        }
    } else {
        Ok((None, pos))
    }
}

pub open spec fn p_select_item(c: PCtx, pos: int) -> PRes<SItem>
    decreases c.toks.len() - pos, 18int,
{
    let head: PRes<SExpr> = if peek_is(c, pos, TokenKind::Asterisk) {
        Ok((SExpr::Star, pos + 1))
    } else if peek_is(c, pos, TokenKind::Identifier) && kind_at(c, pos + 1) == Some(
        TokenKind::Dot,
    ) && kind_at(c, pos + 2) == Some(TokenKind::Asterisk) {
        match p_path(c, pos) {
            Err(e) => Err(e),
            Ok((path, p1)) => match expect_kind(c, p1, TokenKind::Dot) {
                Err(e) => Err(e),
                Ok((_, p2)) => match expect_kind(c, p2, TokenKind::Asterisk) {
                    Err(e) => Err(e),
                    Ok((_, p3)) => Ok((SExpr::QualifiedStar(path), p3)),
                },
            },
        }
    } else {
        p_expr(c, pos)
    };
    match head {
        Err(e) => Err(e),
        Ok((expr, p)) => match p_alias_as(c, p) {
            Err(e) => Err(e),
            Ok((alias, p2)) => Ok((SItem { expr, alias }, p2)),
        },
    }
}

pub open spec fn p_from_clause(c: PCtx, pos: int) -> PRes<Seq<STable>>
    decreases c.toks.len() - pos, 12int,
{
    if peek_is(c, pos, TokenKind::From) {
        p_tables(c, pos + 1)
    } else {
        Ok((seq![], pos))
    }
}

pub open spec fn p_tables(c: PCtx, pos: int) -> PRes<Seq<STable>>
    decreases c.toks.len() - pos, 19int,
{
    match p_table_ref(c, pos) {
        Err(e) => Err(e),
        Ok((t, p)) => if peek_is(c, p, TokenKind::Comma) && fwd(c, pos, p) {
            match p_tables(c, p + 1) {
                Err(e) => Err(e),
                Ok((rest, p2)) => Ok((seq![t] + rest, p2)),
            }
        } else {
            Ok((seq![t], p))
        },
    }
}

pub open spec fn p_table_ref(c: PCtx, pos: int) -> PRes<STable>
    decreases c.toks.len() - pos, 18int,
{
    let src: PRes<SSource> = if peek_is(c, pos, TokenKind::LeftParen) {
        match p_query_inner(c, pos + 1) {
            Err(e) => Err(e),
            Ok((q, p1)) => match expect_kind(c, p1, TokenKind::RightParen) {
                Err(e) => Err(e),
                Ok((_, p2)) => Ok((SSource::Subquery(Box::new(q)), p2)),
            },
        }
    } else {
        match p_path(c, pos) {
            Err(e) => Err(e),
            Ok((path, p1)) => Ok((SSource::Named(path), p1)),
        }
    };
    match src {
        Err(e) => Err(e),
        Ok((source, p1)) => {
            let alias: PRes<Option<Seq<char>>> = if peek_is(c, p1, TokenKind::As) {
                p_alias_as(c, p1)
            } else if peek_is(c, p1, TokenKind::Identifier) {
                match p_ident(c, p1) {
                    Err(e) => Err(e),
                    Ok((a, p)) => Ok((Some(a), p)),
                }
            } else {
                Ok((None, p1))
            };
            match alias {
                Err(e) => Err(e),
                Ok((alias, p2)) => if fwd(c, pos, p2) {
                    match p_joins(c, p2) {
                        Err(e) => Err(e),
                        Ok((joins, p3)) => Ok((STable { source, alias, joins }, p3)),
                    }
                } else {
                    Ok((STable { source, alias, joins: seq![] }, p2))
                },
            }
        },
    }
}

pub open spec fn p_joins(c: PCtx, pos: int) -> PRes<Seq<SJoin>>
    decreases c.toks.len() - pos, 19int,
{
    if is_join_start(kind_at(c, pos)) {
        match p_join_clause(c, pos) {
            Err(e) => Err(e),
            Ok((j, p)) => if fwd(c, pos, p) {
                match p_joins(c, p) {
                    Err(e) => Err(e),
                    Ok((rest, p2)) => Ok((seq![j] + rest, p2)),
                }
            } else {
                Ok((seq![j], p))
            },
        }
    } else {
        Ok((seq![], pos))
    }
}

/// The join keywords at `pos`: the kind and the position after them.
pub open spec fn p_join_kind(c: PCtx, pos: int) -> PRes<JoinKind> {
    if peek_is(c, pos, TokenKind::Inner) {
        let p = if peek_is(c, pos + 1, TokenKind::Join) { pos + 2 } else { pos + 1 };
        Ok((JoinKind::Inner, p))
    } else if peek_is(c, pos, TokenKind::Left) || peek_is(c, pos, TokenKind::Right) || peek_is(
        c,
        pos,
        TokenKind::Full,
    ) {
        let k = if peek_is(c, pos, TokenKind::Left) {
            JoinKind::Left
        } else if peek_is(c, pos, TokenKind::Right) {
            JoinKind::Right
        } else {
            JoinKind::Full
        };
        let p = if peek_is(c, pos + 1, TokenKind::Outer) { pos + 2 } else { pos + 1 };
        match expect_kind(c, p, TokenKind::Join) {
            Err(e) => Err(e),
            Ok((_, p2)) => Ok((k, p2)),
        }
    } else if peek_is(c, pos, TokenKind::Cross) {
        match expect_kind(c, pos + 1, TokenKind::Join) {
            Err(e) => Err(e),
            Ok((_, p2)) => Ok((JoinKind::Cross, p2)),
        }
    } else {
        match expect_kind(c, pos, TokenKind::Join) {
            Err(e) => Err(e),
            Ok((_, p2)) => Ok((JoinKind::Inner, p2)),
        }
    }
}

pub open spec fn p_join_clause(c: PCtx, pos: int) -> PRes<SJoin>
    decreases c.toks.len() - pos, 18int,
{
    match p_join_kind(c, pos) {
        Err(e) => Err(e),
        Ok((kind, p1)) => if fwd(c, pos, p1) {
            match p_table_ref(c, p1) {
                Err(e) => Err(e),
                Ok((table, p2)) => if peek_is(c, p2, TokenKind::On) && fwd(c, pos, p2) {
                    match p_expr(c, p2 + 1) {
                        Err(e) => Err(e),
                        Ok((on, p3)) => Ok((SJoin { kind, table, on: Some(on) }, p3)),
                    }
                } else {
                    Ok((SJoin { kind, table, on: None }, p2))
                },
            }
        } else {
            Err(err_cur(c, p1, seq![]))
        },
    }
}

pub open spec fn p_where_clause(c: PCtx, pos: int) -> PRes<Option<SExpr>>
    decreases c.toks.len() - pos, 12int,
{
    if peek_is(c, pos, TokenKind::Where) {
        match p_expr(c, pos + 1) {
            Err(e) => Err(e),
            Ok((x, p)) => Ok((Some(x), p)),
        }
    } else {
        Ok((None, pos))
    }
}

pub open spec fn p_having_clause(c: PCtx, pos: int) -> PRes<Option<SExpr>>
    decreases c.toks.len() - pos, 12int,
{
    if peek_is(c, pos, TokenKind::Having) {
        match p_expr(c, pos + 1) {
            Err(e) => Err(e),
            Ok((x, p)) => Ok((Some(x), p)),
        }
    } else {
        Ok((None, pos))
    }
}

pub open spec fn p_group_clause(c: PCtx, pos: int) -> PRes<Seq<SExpr>>
    decreases c.toks.len() - pos, 12int,
{
    if peek_is(c, pos, TokenKind::Group) {
        match expect_kind(c, pos + 1, TokenKind::By) {
            Err(e) => Err(e),
            Ok((_, p)) => p_expr_list(c, p),
        }
    } else {
        Ok((seq![], pos))
    }
}

/// Expressions separated by commas.
pub open spec fn p_expr_list(c: PCtx, pos: int) -> PRes<Seq<SExpr>>
    decreases c.toks.len() - pos, 19int,
{
    match p_expr(c, pos) {
        Err(e) => Err(e),
        Ok((x, p)) => if peek_is(c, p, TokenKind::Comma) && fwd(c, pos, p) {
            match p_expr_list(c, p + 1) {
                Err(e) => Err(e),
                Ok((rest, p2)) => Ok((seq![x] + rest, p2)),
            }
        } else {
            Ok((seq![x], p))
        },
    }
}

pub open spec fn p_order_clause(c: PCtx, pos: int) -> PRes<Seq<SOrder>>
    decreases c.toks.len() - pos, 12int,
{
    if peek_is(c, pos, TokenKind::Order) {
        match expect_kind(c, pos + 1, TokenKind::By) {
            Err(e) => Err(e),
            Ok((_, p)) => p_order_list(c, p),
        }
    } else {
        Ok((seq![], pos))
    }
}

pub open spec fn p_order_list(c: PCtx, pos: int) -> PRes<Seq<SOrder>>
    decreases c.toks.len() - pos, 19int,
{
    match p_expr(c, pos) {
        Err(e) => Err(e),
        Ok((x, p)) => {
            let descending = peek_is(c, p, TokenKind::Desc);
            let p1 = if descending { p + 1 } else { p };
            let p2 = if peek_is(c, p1, TokenKind::Asc) { p1 + 1 } else { p1 };
            let item = SOrder { expr: x, descending };
            if peek_is(c, p2, TokenKind::Comma) && fwd(c, pos, p2) {
                match p_order_list(c, p2 + 1) {
                    Err(e) => Err(e),
                    Ok((rest, p3)) => Ok((seq![item] + rest, p3)),
                }
            } else {
                Ok((seq![item], p2))
            }
        },
    }
}

pub open spec fn p_limit_clause(c: PCtx, pos: int) -> PRes<Option<u64>> {
    if peek_is(c, pos, TokenKind::Limit) {
        if peek_is(c, pos + 1, TokenKind::Number) {
            match parse_unsigned(tok_text(c, pos + 1), u64::MAX as nat) {
                Some(v) => Ok((Some(v as u64), pos + 2)),
                None => Err(SErr { message: "invalid LIMIT value"@, span: c.toks[pos + 1].span }),
            }
        } else {
            Err(err_cur(c, pos + 1, "unexpected token"@))
        }
    } else {
        Ok((None, pos))
    }
}

pub open spec fn p_expr(c: PCtx, pos: int) -> PRes<SExpr>
    decreases c.toks.len() - pos, 17int,
{
    p_binary(c, pos, 0)
}

pub open spec fn p_binary(c: PCtx, pos: int, min: nat) -> PRes<SExpr>
    decreases c.toks.len() - pos, 16int,
{
    match p_prefix(c, pos) {
        Err(e) => Err(e),
        Ok((left, p)) => if fwd(c, pos, p) {
            p_binary_rest(c, left, p, min)
        } else {
            Ok((left, p))
        },
    }
}

/// The operator loop of precedence climbing, with `left` parsed so far.
pub open spec fn p_binary_rest(c: PCtx, left: SExpr, pos: int, min: nat) -> PRes<SExpr>
    decreases c.toks.len() - pos, 16int,
{
    let negated = peek_is(c, pos + 1, TokenKind::Not);
    let p_null = if negated { pos + 2 } else { pos + 1 };
    if peek_is(c, pos, TokenKind::Is) && peek_is(c, p_null, TokenKind::Null) {
        p_binary_rest(c, SExpr::IsNull { expr: Box::new(left), negated }, p_null + 1, min)
    } else {
        match binary_op_of(kind_at(c, pos)) {
            None => Ok((left, pos)),
            Some((prec, op)) => if prec < min {
                Ok((left, pos))
            } else {
                match p_binary(c, pos + 1, prec + 1) {
                    Err(e) => Err(e),
                    Ok((right, p)) => {
                        let e = SExpr::Binary { left: Box::new(left), op, right: Box::new(right) };
                        if fwd(c, pos, p) {
                            p_binary_rest(c, e, p, min)
                        } else {
                            Ok((e, p))
                        }
                    },
                }
            },
        }
    }
}

pub open spec fn p_prefix(c: PCtx, pos: int) -> PRes<SExpr>
    decreases c.toks.len() - pos, 15int,
{
    if peek_is(c, pos, TokenKind::Not) || peek_is(c, pos, TokenKind::Minus) {
        let op = if peek_is(c, pos, TokenKind::Not) { UnaryOp::Not } else { UnaryOp::Negate };
        match p_prefix(c, pos + 1) {
            Err(e) => Err(e),
            Ok((x, p)) => Ok((SExpr::Unary { op, expr: Box::new(x) }, p)),
        }
    } else {
        match p_primary(c, pos) {
            Err(e) => Err(e),
            Ok((x, p)) => if fwd(c, pos, p) {
                p_postfix(c, x, p)
            } else {
                Ok((x, p))
            },
        }
    }
}

/// The call arguments after `(` (which is not followed directly by `)`).
pub open spec fn p_args(c: PCtx, pos: int) -> PRes<Seq<SExpr>>
    decreases c.toks.len() - pos, 19int,
{
    match p_expr(c, pos) {
        Err(e) => Err(e),
        Ok((x, p)) => if peek_is(c, p, TokenKind::Comma) && fwd(c, pos, p) {
            match p_args(c, p + 1) {
                Err(e) => Err(e),
                Ok((rest, p2)) => Ok((seq![x] + rest, p2)),
            }
        } else {
            match expect_kind(c, p, TokenKind::RightParen) {
                Err(e) => Err(e),
                Ok((_, p2)) => Ok((seq![x], p2)),
            }
        },
    }
}

/// The function call an expression becomes when followed by arguments.
pub open spec fn call_of(c: PCtx, pos: int, e: SExpr, args: Seq<SExpr>) -> Result<SExpr, SErr> {
    match e {
        SExpr::Identifier(name) => Ok(SExpr::FunctionCall { name, args }),
        SExpr::QualifiedStar(name) => Ok(SExpr::FunctionCall { name, args }),
        _ => match expr_name(c, pos, e) {
            Err(err) => Err(err),
            Ok(n) => Ok(SExpr::FunctionCall { name: seq![n], args }),
        },
    }
}

/// Calls and member accesses after a primary expression `e`.
pub open spec fn p_postfix(c: PCtx, e: SExpr, pos: int) -> PRes<SExpr>
    decreases c.toks.len() - pos, 15int,
{
    if peek_is(c, pos, TokenKind::LeftParen) {
        let args: PRes<Seq<SExpr>> = if peek_is(c, pos + 1, TokenKind::RightParen) {
            Ok((seq![], pos + 2))
        } else {
            p_args(c, pos + 1)
        };
        match args {
            Err(err) => Err(err),
            Ok((args, p)) => match call_of(c, p, e, args) {
                Err(err) => Err(err),
                Ok(call) => if fwd(c, pos, p) {
                    p_postfix(c, call, p)
                } else {
                    Ok((call, p))
                },
            },
        }
    } else if peek_is(c, pos, TokenKind::Dot) {
        match p_ident(c, pos + 1) {
            Err(err) => Err(err),
            Ok((member, p)) => {
                let next = match e {
                    SExpr::Identifier(path) => SExpr::Identifier(path.push(member)),
                    _ => SExpr::Binary {
                        left: Box::new(e),
                        op: BinaryOp::Concat,
                        right: Box::new(SExpr::Identifier(seq![member])),
                    },
                };
                p_postfix(c, next, p)
            },
        }
    } else {
        Ok((e, pos))
    }
}

/// `WHEN cond THEN value` branches of a CASE expression.
pub open spec fn p_case_branches(c: PCtx, pos: int) -> PRes<Seq<(SExpr, SExpr)>>
    decreases c.toks.len() - pos, 19int,
{
    if peek_is(c, pos, TokenKind::When) {
        match p_expr(c, pos + 1) {
            Err(e) => Err(e),
            Ok((cond, p1)) => match expect_kind(c, p1, TokenKind::Then) {
                Err(e) => Err(e),
                Ok((_, p2)) => if fwd(c, pos, p2) {
                    match p_expr(c, p2) {
                        Err(e) => Err(e),
                        Ok((value, p3)) => if fwd(c, pos, p3) {
                            match p_case_branches(c, p3) {
                                Err(e) => Err(e),
                                Ok((rest, p4)) => Ok((seq![(cond, value)] + rest, p4)),
                            }
                        } else {
                            Ok((seq![(cond, value)], p3))
                        },
                    }
                } else {
                    Err(err_cur(c, p2, seq![]))
                },
            },
        }
    } else {
        Ok((seq![], pos))
    }
}

pub open spec fn p_case(c: PCtx, pos: int) -> PRes<SExpr>
    decreases c.toks.len() - pos, 21int,
{
    match p_case_branches(c, pos) {
        Err(e) => Err(e),
        Ok((branches, p1)) => if !(pos <= p1 <= c.toks.len()) {
            Err(err_cur(c, p1, seq![]))
        } else {
            let els: PRes<Option<Box<SExpr>>> = if peek_is(c, p1, TokenKind::Else) {
                match p_expr(c, p1 + 1) {
                    Err(e) => Err(e),
                    Ok((x, p)) => Ok((Some(Box::new(x)), p)),
                }
            } else {
                Ok((None, p1))
            };
            match els {
                Err(e) => Err(e),
                Ok((else_expr, p2)) => match expect_kind(c, p2, TokenKind::End) {
                    Err(e) => Err(e),
                    Ok((_, p3)) => Ok((SExpr::Case { branches, else_expr }, p3)),
                },
            }
        },
    }
}

/// A bind parameter's name: the text after a leading `:`, if any.
pub open spec fn bind_name(t: Seq<char>) -> Option<Seq<char>> {
    if t.len() > 0 && t[0] == ':' {
        Some(t.drop_first())
    } else {
        None
    }
}

pub open spec fn is_literal_kind(k: Option<TokenKind>) -> bool {
    ||| k == Some(TokenKind::String)
    ||| k == Some(TokenKind::Number)
    ||| k == Some(TokenKind::True)
    ||| k == Some(TokenKind::False)
    ||| k == Some(TokenKind::Null)
    ||| k == Some(TokenKind::BindParameter)
    ||| k == Some(TokenKind::OdbcDateTimeLiteral)
    ||| k == Some(TokenKind::Asterisk)
}

/// A single-token primary expression (literal, parameter or `*`).
pub open spec fn p_literal(c: PCtx, pos: int) -> SExpr {
    if peek_is(c, pos, TokenKind::String) {
        SExpr::String(tok_text(c, pos))
    } else if peek_is(c, pos, TokenKind::Number) {
        SExpr::Number(tok_text(c, pos))
    } else if peek_is(c, pos, TokenKind::True) {
        SExpr::Boolean(true)
    } else if peek_is(c, pos, TokenKind::False) {
        SExpr::Boolean(false)
    } else if peek_is(c, pos, TokenKind::Null) {
        SExpr::Null
    } else if peek_is(c, pos, TokenKind::BindParameter) {
        SExpr::BindParameter(bind_name(tok_text(c, pos)))
    } else if peek_is(c, pos, TokenKind::OdbcDateTimeLiteral) {
        SExpr::OdbcDateTime(tok_text(c, pos))
    } else {
        SExpr::Star
    }
}

pub open spec fn p_paren(c: PCtx, pos: int) -> PRes<SExpr>
    decreases c.toks.len() - pos, 21int,
{
    if peek_is(c, pos, TokenKind::Select) {
        match p_query_inner(c, pos) {
            Err(e) => Err(e),
            Ok((q, p)) => match expect_kind(c, p, TokenKind::RightParen) {
                Err(e) => Err(e),
                Ok((_, p2)) => Ok((SExpr::Subquery(Box::new(q)), p2)),
            },
        }
    } else {
        match p_expr(c, pos) {
            Err(e) => Err(e),
            Ok((x, p)) => match expect_kind(c, p, TokenKind::RightParen) {
                Err(e) => Err(e),
                Ok((_, p2)) => Ok((SExpr::Paren(Box::new(x)), p2)),
            },
        }
    }
}

pub open spec fn p_primary(c: PCtx, pos: int) -> PRes<SExpr>
    decreases c.toks.len() - pos, 14int,
{
    if peek_is(c, pos, TokenKind::LeftParen) {
        p_paren(c, pos + 1)
    } else if peek_is(c, pos, TokenKind::Case) {
        p_case(c, pos + 1)
    } else if is_literal_kind(kind_at(c, pos)) {
        Ok((p_literal(c, pos), pos + 1))
    } else if peek_is(c, pos, TokenKind::Select) {
        match p_select_query(c, pos) {
            Err(e) => Err(e),
            Ok((_, p)) => Ok((SExpr::Paren(Box::new(SExpr::Identifier(seq!["subquery"@]))), p)),
        }
    } else if peek_is(c, pos, TokenKind::Identifier) {
        match p_path(c, pos) {
            Err(e) => Err(e),
            Ok((path, p)) => Ok((SExpr::Identifier(path), p)),
        }
    } else {
        Err(err_cur(c, pos, "expected expression"@))
    }
}

/// The parse of a source text: its tokens parsed as one query.
pub open spec fn parse_spec(s: Seq<char>) -> Result<SQuery, SErr> {
    p_query(PCtx { toks: lex_spec(s).0, src: s })
}

pub open spec fn kind_name(k: TokenKind) -> Seq<char> {
    match k {
        TokenKind::Identifier => "Identifier"@,
        TokenKind::Number => "Number"@,
        TokenKind::String => "String"@,
        TokenKind::OdbcDateTimeLiteral => "OdbcDateTimeLiteral"@,
        TokenKind::BindParameter => "BindParameter"@,
        TokenKind::Select => "Select"@,
        TokenKind::From => "From"@,
        TokenKind::Where => "Where"@,
        TokenKind::Group => "Group"@,
        TokenKind::By => "By"@,
        TokenKind::Having => "Having"@,
        TokenKind::Order => "Order"@,
        TokenKind::Asc => "Asc"@,
        TokenKind::Desc => "Desc"@,
        TokenKind::Limit => "Limit"@,
        TokenKind::Distinct => "Distinct"@,
        TokenKind::Union => "Union"@,
        TokenKind::All => "All"@,
        TokenKind::As => "As"@,
        TokenKind::And => "And"@,
        TokenKind::Or => "Or"@,
        TokenKind::Not => "Not"@,
        TokenKind::In => "In"@,
        TokenKind::Between => "Between"@,
        TokenKind::Like => "Like"@,
        TokenKind::Is => "Is"@,
        TokenKind::Null => "Null"@,
        TokenKind::Case => "Case"@,
        TokenKind::When => "When"@,
        TokenKind::Then => "Then"@,
        TokenKind::Else => "Else"@,
        TokenKind::End => "End"@,
        TokenKind::Cast => "Cast"@,
        TokenKind::Convert => "Convert"@,
        TokenKind::On => "On"@,
        TokenKind::Join => "Join"@,
        TokenKind::Inner => "Inner"@,
        TokenKind::Left => "Left"@,
        TokenKind::Right => "Right"@,
        TokenKind::Full => "Full"@,
        TokenKind::Outer => "Outer"@,
        TokenKind::Cross => "Cross"@,
        TokenKind::True => "True"@,
        TokenKind::False => "False"@,
        TokenKind::Contains => "Contains"@,
        TokenKind::InstanceOf => "InstanceOf"@,
        TokenKind::CastAs => "CastAs"@,
        TokenKind::Xor => "Xor"@,
        TokenKind::Eqv => "Eqv"@,
        TokenKind::Comma => "Comma"@,
        TokenKind::Dot => "Dot"@,
        TokenKind::LeftParen => "LeftParen"@,
        TokenKind::RightParen => "RightParen"@,
        TokenKind::Asterisk => "Asterisk"@,
        TokenKind::Plus => "Plus"@,
        TokenKind::Minus => "Minus"@,
        TokenKind::Slash => "Slash"@,
        TokenKind::Percent => "Percent"@,
        TokenKind::Equal => "Equal"@,
        TokenKind::Less => "Less"@,
        TokenKind::Greater => "Greater"@,
        TokenKind::Bang => "Bang"@,
        TokenKind::Colon => "Colon"@,
        TokenKind::Semicolon => "Semicolon"@,
        TokenKind::Question => "Question"@,
        TokenKind::LessEqual => "LessEqual"@,
        TokenKind::GreaterEqual => "GreaterEqual"@,
        TokenKind::EqualEqual => "EqualEqual"@,
        TokenKind::BangEqual => "BangEqual"@,
        TokenKind::NotEqualAngle => "NotEqualAngle"@,
        TokenKind::PipePipe => "PipePipe"@,
        TokenKind::AmpAmp => "AmpAmp"@,
        TokenKind::Ampersand => "Ampersand"@,
        TokenKind::QuestionDot => "QuestionDot"@,
        TokenKind::QuestionColon => "QuestionColon"@,
        TokenKind::ColonColon => "ColonColon"@,
        TokenKind::DotDot => "DotDot"@,
        TokenKind::DotDotLess => "DotDotLess"@,
        TokenKind::GreaterDotDot => "GreaterDotDot"@,
        TokenKind::GreaterDotDotLess => "GreaterDotDotLess"@,
        TokenKind::Caret => "Caret"@,
        TokenKind::Eof => "Eof"@,
    }
}

/// The `Debug` name of a token kind.
pub fn token_kind_name(k: TokenKind) -> (r: &'static str)
    ensures
        r@ == kind_name(k),
{
    match k {
        TokenKind::Identifier => "Identifier",
        TokenKind::Number => "Number",
        TokenKind::String => "String",
        TokenKind::OdbcDateTimeLiteral => "OdbcDateTimeLiteral",
        TokenKind::BindParameter => "BindParameter",
        TokenKind::Select => "Select",
        TokenKind::From => "From",
        TokenKind::Where => "Where",
        TokenKind::Group => "Group",
        TokenKind::By => "By",
        TokenKind::Having => "Having",
        TokenKind::Order => "Order",
        TokenKind::Asc => "Asc",
        TokenKind::Desc => "Desc",
        TokenKind::Limit => "Limit",
        TokenKind::Distinct => "Distinct",
        TokenKind::Union => "Union",
        TokenKind::All => "All",
        TokenKind::As => "As",
        TokenKind::And => "And",
        TokenKind::Or => "Or",
        TokenKind::Not => "Not",
        TokenKind::In => "In",
        TokenKind::Between => "Between",
        TokenKind::Like => "Like",
        TokenKind::Is => "Is",
        TokenKind::Null => "Null",
        TokenKind::Case => "Case",
        TokenKind::When => "When",
        TokenKind::Then => "Then",
        TokenKind::Else => "Else",
        TokenKind::End => "End",
        TokenKind::Cast => "Cast",
        TokenKind::Convert => "Convert",
        TokenKind::On => "On",
        TokenKind::Join => "Join",
        TokenKind::Inner => "Inner",
        TokenKind::Left => "Left",
        TokenKind::Right => "Right",
        TokenKind::Full => "Full",
        TokenKind::Outer => "Outer",
        TokenKind::Cross => "Cross",
        TokenKind::True => "True",
        TokenKind::False => "False",
        TokenKind::Contains => "Contains",
        TokenKind::InstanceOf => "InstanceOf",
        TokenKind::CastAs => "CastAs",
        TokenKind::Xor => "Xor",
        TokenKind::Eqv => "Eqv",
        TokenKind::Comma => "Comma",
        TokenKind::Dot => "Dot",
        TokenKind::LeftParen => "LeftParen",
        TokenKind::RightParen => "RightParen",
        TokenKind::Asterisk => "Asterisk",
        TokenKind::Plus => "Plus",
        TokenKind::Minus => "Minus",
        TokenKind::Slash => "Slash",
        TokenKind::Percent => "Percent",
        TokenKind::Equal => "Equal",
        TokenKind::Less => "Less",
        TokenKind::Greater => "Greater",
        TokenKind::Bang => "Bang",
        TokenKind::Colon => "Colon",
        TokenKind::Semicolon => "Semicolon",
        TokenKind::Question => "Question",
        TokenKind::LessEqual => "LessEqual",
        TokenKind::GreaterEqual => "GreaterEqual",
        TokenKind::EqualEqual => "EqualEqual",
        TokenKind::BangEqual => "BangEqual",
        TokenKind::NotEqualAngle => "NotEqualAngle",
        TokenKind::PipePipe => "PipePipe",
        TokenKind::AmpAmp => "AmpAmp",
        TokenKind::Ampersand => "Ampersand",
        TokenKind::QuestionDot => "QuestionDot",
        TokenKind::QuestionColon => "QuestionColon",
        TokenKind::ColonColon => "ColonColon",
        TokenKind::DotDot => "DotDot",
        TokenKind::DotDotLess => "DotDotLess",
        TokenKind::GreaterDotDot => "GreaterDotDot",
        TokenKind::GreaterDotDotLess => "GreaterDotDotLess",
        TokenKind::Caret => "Caret",
        TokenKind::Eof => "Eof",
    }
}

pub open spec fn rmap<T, V>(r: Result<(T, usize), ParseError>, f: spec_fn(T) -> V) -> PRes<V> {
    match r {
        Ok((t, p)) => Ok((f(t), p as int)),
        Err(e) => Err(e@),
    }
}

/// On success the parse moved forward: `pos < p <= len`.
pub open spec fn moved<T>(r: Result<(T, usize), ParseError>, pos: usize, len: nat) -> bool {
    match r {
        Ok((_, p)) => pos < p <= len,
        Err(_) => true,
    }
}

/// On success the parse did not move back: `pos <= p <= len`.
pub open spec fn kept<T>(r: Result<(T, usize), ParseError>, pos: usize, len: nat) -> bool {
    match r {
        Ok((_, p)) => pos <= p <= len,
        Err(_) => true,
    }
}

pub open spec fn item_v(i: SelectItem) -> SItem {
    SItem { expr: expr_v(i.expr), alias: opt_str_v(i.alias) }
}

pub open spec fn join_v(j: JoinClause) -> SJoin {
    SJoin { kind: j.kind, table: table_v(j.table), on: crate::qoq::ast::opt_expr_v(j.on) }
}

pub open spec fn opt_e_v(o: Option<Expression>) -> Option<SExpr> {
    crate::qoq::ast::opt_expr_v(o)
}

pub proof fn lemma_items_cons(a: SelectItem, s: Seq<SelectItem>)
    ensures
        items_v(seq![a] + s) == seq![item_v(a)] + items_v(s),
{
    let t = seq![a] + s;
    assert(t[0] == a);
    assert(t.subrange(1, t.len() as int) =~= s);
}

pub proof fn lemma_tables_cons(a: TableRef, s: Seq<TableRef>)
    ensures
        tables_v(seq![a] + s) == seq![table_v(a)] + tables_v(s),
{
    let t = seq![a] + s;
    assert(t[0] == a);
    assert(t.subrange(1, t.len() as int) =~= s);
}

pub proof fn lemma_joins_cons(a: JoinClause, s: Seq<JoinClause>)
    ensures
        joins_v(seq![a] + s) == seq![join_v(a)] + joins_v(s),
{
    let t = seq![a] + s;
    assert(t[0] == a);
    assert(t.subrange(1, t.len() as int) =~= s);
}

pub proof fn lemma_orders_cons(a: OrderByItem, s: Seq<OrderByItem>)
    ensures
        orders_v(seq![a] + s) == seq![SOrder { expr: expr_v(a.expr), descending: a.descending }]
            + orders_v(s),
{
    let t = seq![a] + s;
    assert(t[0] == a);
    assert(t.subrange(1, t.len() as int) =~= s);
}

pub proof fn lemma_exprs_cons(a: Expression, s: Seq<Expression>)
    ensures
        exprs_v(seq![a] + s) == seq![expr_v(a)] + exprs_v(s),
{
    let t = seq![a] + s;
    assert(t[0] == a);
    assert(t.subrange(1, t.len() as int) =~= s);
}

pub proof fn lemma_branches_cons(a: (Expression, Expression), s: Seq<(Expression, Expression)>)
    ensures
        branches_v(seq![a] + s) == seq![(expr_v(a.0), expr_v(a.1))] + branches_v(s),
{
    let t = seq![a] + s;
    assert(t[0] == a);
    assert(t.subrange(1, t.len() as int) =~= s);
}

pub proof fn lemma_empty_views()
    ensures
        items_v(Seq::<SelectItem>::empty()) == Seq::<SItem>::empty(),
        tables_v(Seq::<TableRef>::empty()) == Seq::<STable>::empty(),
        joins_v(Seq::<JoinClause>::empty()) == Seq::<SJoin>::empty(),
        orders_v(Seq::<OrderByItem>::empty()) == Seq::<SOrder>::empty(),
        exprs_v(Seq::<Expression>::empty()) == Seq::<SExpr>::empty(),
        branches_v(Seq::<(Expression, Expression)>::empty()) == Seq::<(SExpr, SExpr)>::empty(),
{
}

/// The digits of an unsigned integer literal (`u64::from_str` / `usize::from_str`).
pub fn parse_unsigned_exec(chars: &Vec<char>, start: usize, end: usize, max: u64) -> (r: Option<u64>)
    requires
        start <= end <= chars.len(),
    ensures
        r matches Some(v) ==> parse_unsigned(chars@.subrange(start as int, end as int), max as nat)
            == Some(v as nat),
        r is None ==> parse_unsigned(chars@.subrange(start as int, end as int), max as nat) is None,
{
    let ghost s = chars@.subrange(start as int, end as int);
    let mut i = start;
    if i < end && chars[i] == '+' {
        i = i + 1;
    }
    let ghost t = unsigned_digits(s);
    assert(t =~= chars@.subrange(i as int, end as int));
    if i == end {
        return None;
    }
    let first = i;
    let mut val: u64 = 0;
    let mut over = false;
    while i < end
        invariant
            first <= i <= end <= chars.len(),
            t =~= chars@.subrange(first as int, end as int),
            t == unsigned_digits(s),
            s == chars@.subrange(start as int, end as int),
            forall|j: int| first <= j < i ==> is_digit(#[trigger] chars@[j]),
            !over ==> val as nat == dec_val(chars@.subrange(first as int, i as int)),
            !over ==> val <= max,
            over ==> dec_val(chars@.subrange(first as int, i as int)) > max,
        decreases end - i,
    {
        let c = chars[i];
        if !('0' <= c && c <= '9') {
            assert(t[i - first] == c);
            assert(!is_digit(t[i - first]));
            assert(!all_digits(t));
            return None;
        }
        let ghost pre = chars@.subrange(first as int, i as int);
        let ghost nxt = chars@.subrange(first as int, i + 1);
        assert(nxt.drop_last() =~= pre);
        assert(nxt.last() == c);
        proof {
            assert(dec_val(nxt) == dec_val(pre) * 10 + ((c as u32) - ('0' as u32)) as nat);
        }
        let d = (c as u32 - '0' as u32) as u64;
        if !over {
            let nv: u128 = (val as u128) * 10 + (d as u128);
            if nv > max as u128 {
                over = true;
            } else {
                val = nv as u64;
            }
        } else {
            assert(dec_val(nxt) >= dec_val(pre));
        }
        i = i + 1;
    }
    assert(chars@.subrange(first as int, i as int) =~= t);
    assert(all_digits(t));
    if over {
        None
    } else {
        Some(val)
    }
}

/// Parts joined with `.`.
pub fn join_dot_exec(parts: &Vec<String>) -> (r: String)
    ensures
        r@ == join_dot(strs_v(parts@)),
{
    let mut r = String::new();
    let ghost v = strs_v(parts@);
    if parts.len() == 0 {
        return r;
    }
    r = parts[0].clone();
    let mut i: usize = 1;
    assert(v.take(1).len() == 1);
    while i < parts.len()
        invariant
            1 <= i <= parts.len(),
            v == strs_v(parts@),
            r@ == join_dot(v.take(i as int)),
        decreases parts.len() - i,
    {
        r.append(".");
        r.append(parts[i].as_str());
        assert(v.take(i + 1).drop_last() =~= v.take(i as int));
        i = i + 1;
    }
    assert(v.take(i as int) =~= v);
    r
}

struct Parser<'a> {
    chars: &'a Vec<char>,
    tokens: &'a [Token],
    ranges: &'a Vec<(usize, usize)>,
    src_bytes: usize,
}

impl<'a> Parser<'a> {
    spec fn ctx(&self) -> PCtx {
        PCtx { toks: self.tokens@, src: self.chars@ }
    }

    spec fn len(&self) -> nat {
        self.tokens@.len()
    }

    spec fn wf(&self) -> bool {
        &&& self.ranges@.len() == self.tokens@.len()
        &&& forall|k: int|
            0 <= k < self.tokens@.len() ==> range_matches(
                self.chars@,
                #[trigger] self.ranges@[k],
                self.tokens@[k].span,
            )
        &&& self.src_bytes == boff(self.chars@, self.chars@.len() as int)
        &&& self.tokens@.len() <= usize::MAX
    }

    fn peek_is(&self, pos: usize, k: TokenKind) -> (r: bool)
        ensures
            r == peek_is(self.ctx(), pos as int, k),
    {
        pos < self.tokens.len() && self.tokens[pos].kind == k
    }

    fn kind_at(&self, pos: usize) -> (r: Option<TokenKind>)
        ensures
            r == kind_at(self.ctx(), pos as int),
    {
        if pos < self.tokens.len() {
            Some(self.tokens[pos].kind)
        } else {
            None
        }
    }

    fn text(&self, i: usize) -> (r: String)
        requires
            self.wf(),
            i < self.tokens@.len(),
        ensures
            r@ == tok_text(self.ctx(), i as int),
    {
        let (a, b) = self.ranges[i];
        assert(range_matches(self.chars@, self.ranges@[i as int], self.tokens@[i as int].span));
        proof {
            lemma_ci_of(self.chars@, a as int);
            lemma_ci_of(self.chars@, b as int);
        }
        string_from_chars(self.chars, a, b)
    }

    fn err_cur(&self, pos: usize, msg: String) -> (e: ParseError)
        requires
            self.wf(),
        ensures
            e@ == err_cur(self.ctx(), pos as int, msg@),
    {
        let span = if pos < self.tokens.len() {
            self.tokens[pos].span
        } else {
            Span { start: self.src_bytes, end: self.src_bytes, line: 0, col: 0 }
        };
        ParseError { message: msg, span }
    }

    fn expect_kind(&self, pos: usize, k: TokenKind) -> (r: Result<(Span, usize), ParseError>)
        requires
            self.wf(),
        ensures
            rmap(r, |x: Span| x) == expect_kind(self.ctx(), pos as int, k),
            moved(r, pos, self.len()),
    {
        if self.peek_is(pos, k) {
            Ok((self.tokens[pos].span, pos + 1))
        } else {
            let mut m = "expected ".to_owned();
            m.append(token_kind_name(k));
            Err(self.err_cur(pos, m))
        }
    }

    fn ident(&self, pos: usize) -> (r: Result<(String, usize), ParseError>)
        requires
            self.wf(),
        ensures
            rmap(r, |x: String| x@) == p_ident(self.ctx(), pos as int),
            moved(r, pos, self.len()),
    {
        if self.peek_is(pos, TokenKind::Identifier) {
            Ok((self.text(pos), pos + 1))
        } else {
            Err(self.err_cur(pos, "expected identifier".to_owned()))
        }
    }

    fn path(&self, pos: usize) -> (r: Result<(Vec<String>, usize), ParseError>)
        requires
            self.wf(),
        ensures
            rmap(r, |x: Vec<String>| strs_v(x@)) == p_path(self.ctx(), pos as int),
            moved(r, pos, self.len()),
    {
        let (first, mut p) = self.ident(pos)?;
        let mut path: Vec<String> = Vec::new();
        path.push(first);
        assert(strs_v(path@) =~= seq![first@]);
        loop
            invariant
                self.wf(),
                pos < p <= self.len(),
                p_path(self.ctx(), pos as int) == p_path_rest(self.ctx(), strs_v(path@), p as int),
            decreases self.len() - p,
        {
            if !self.peek_is(p, TokenKind::Dot) {
                return Ok((path, p));
            }
            let (id, p2) = self.ident(p + 1)?;
            let ghost before = path@;
            path.push(id);
            assert(strs_v(path@) =~= strs_v(before).push(id@));
            p = p2;
        }
    }

    fn query_inner(&self, pos: usize) -> (r: Result<(Query, usize), ParseError>)
        requires
            self.wf(),
        ensures
            rmap(r, |x: Query| query_v(x)) == p_query_inner(self.ctx(), pos as int),
            moved(r, pos, self.len()),
        decreases self.len() - pos, 20int,
    {
        let (mut q, mut p) = self.select_query(pos)?;
        loop
            invariant
                self.wf(),
                pos < p <= self.len(),
                p_query_inner(self.ctx(), pos as int) == p_union_rest(
                    self.ctx(),
                    query_v(q),
                    p as int,
                ),
            decreases self.len() - p,
        {
            if !self.peek_is(p, TokenKind::Union) {
                return Ok((q, p));
            }
            let all = self.peek_is(p + 1, TokenKind::All);
            let p1 = if all {
                p + 2
            } else {
                p + 1
            };
            let (right, p2) = self.select_query(p1)?;
            let span = Span {
                start: q.span.start,
                end: right.span.end,
                line: q.span.line,
                col: q.span.col,
            };
            proof {
                assert(squery_span(query_v(q)) == q.span);
                assert(squery_span(query_v(right)) == right.span);
            }
            q = Query { span, kind: QueryKind::Union { left: Box::new(q), all, right: Box::new(right) } };
            p = p2;
        }
    }

    fn select_query(&self, pos: usize) -> (r: Result<(Query, usize), ParseError>)
        requires
            self.wf(),
        ensures
            rmap(r, |x: Query| query_v(x)) == p_select_query(self.ctx(), pos as int),
            moved(r, pos, self.len()),
        decreases self.len() - pos, 13int,
    {
        if !self.peek_is(pos, TokenKind::Select) {
            return Err(self.err_cur(pos, "expected Select".to_owned()));
        }
        let start = self.tokens[pos].span;
        let distinct = self.peek_is(pos + 1, TokenKind::Distinct);
        let p0 = if distinct {
            pos + 2
        } else {
            pos + 1
        };
        let (projection, p1) = self.items(p0)?;
        self.sel_from(pos, start, distinct, projection, p1)
    }

    fn sel_from(&self, pos: usize, start: Span, distinct: bool, projection: Vec<SelectItem>, p1: usize) -> (r: Result<(Query, usize), ParseError>)
        requires
            self.wf(),
            pos < p1 <= self.len(),
        ensures
            rmap(r, |x: Query| query_v(x)) == p_sel_from(self.ctx(), pos as int, start, distinct, items_v(projection@), p1 as int),
            moved(r, pos, self.len()),
        decreases self.len() - pos, 12int,
    {
        let (from, p2) = self.from_clause(p1)?;
        self.sel_where(pos, start, distinct, projection, from, p2)
    }

    fn sel_where(&self, pos: usize, start: Span, distinct: bool, projection: Vec<SelectItem>, from: Vec<TableRef>, p2: usize) -> (r: Result<(Query, usize), ParseError>)
        requires
            self.wf(),
            pos < p2 <= self.len(),
        ensures
            rmap(r, |x: Query| query_v(x)) == p_sel_where(self.ctx(), pos as int, start, distinct, items_v(projection@), tables_v(from@), p2 as int),
            moved(r, pos, self.len()),
        decreases self.len() - pos, 11int,
    {
        let (where_clause, p3) = self.where_clause(p2)?;
        self.sel_group(pos, start, distinct, projection, from, where_clause, p3)
    }

    fn sel_group(&self, pos: usize, start: Span, distinct: bool, projection: Vec<SelectItem>, from: Vec<TableRef>, where_clause: Option<Expression>, p3: usize) -> (r: Result<(Query, usize), ParseError>)
        requires
            self.wf(),
            pos < p3 <= self.len(),
        ensures
            rmap(r, |x: Query| query_v(x)) == p_sel_group(self.ctx(), pos as int, start, distinct, items_v(projection@), tables_v(from@), opt_e_v(where_clause), p3 as int),
            moved(r, pos, self.len()),
        decreases self.len() - pos, 10int,
    {
        let (group_by, p4) = self.group_clause(p3)?;
        let acc = SelectStatement {
            distinct,
            projection,
            from,
            where_clause,
            group_by,
            having: None,
            order_by: Vec::new(),
            limit: None,
        };
        proof {
            lemma_empty_views();
        }
        self.sel_having(pos, start, acc, p4)
    }

    fn sel_having(&self, pos: usize, start: Span, acc: SelectStatement, p4: usize) -> (r: Result<(Query, usize), ParseError>)
        requires
            self.wf(),
            pos < p4 <= self.len(),
        ensures
            rmap(r, |x: Query| query_v(x)) == p_sel_having(self.ctx(), pos as int, start, select_v(acc), p4 as int),
            moved(r, pos, self.len()),
        decreases self.len() - pos, 9int,
    {
        let (having, p5) = self.having_clause(p4)?;
        let acc = SelectStatement { having, ..acc };
        self.sel_order(pos, start, acc, p5)
    }

    fn sel_order(&self, pos: usize, start: Span, acc: SelectStatement, p5: usize) -> (r: Result<(Query, usize), ParseError>)
        requires
            self.wf(),
            pos < p5 <= self.len(),
        ensures
            rmap(r, |x: Query| query_v(x)) == p_sel_order(self.ctx(), pos as int, start, select_v(acc), p5 as int),
            moved(r, pos, self.len()),
        decreases self.len() - pos, 8int,
    {
        let (order_by, p6) = self.order_clause(p5)?;
        let (limit, p7) = self.limit_clause(p6)?;
        let prev = if p7 >= 1 {
            p7 - 1
        } else {
            0
        };
        let end = if prev < self.tokens.len() {
            self.tokens[prev].span
        } else {
            start
        };
        let span = Span { start: start.start, end: end.end, line: start.line, col: start.col };
        let ghost sacc = select_v(acc);
        let stmt = SelectStatement { order_by, limit, ..acc };
        proof {
            assert(span == merge_spans(start, prev_span(self.ctx(), p7 as int, start)));
            assert(select_v(stmt) == SSelect { order_by: orders_v(order_by@), limit, ..sacc });
        }
        Ok((Query { span, kind: QueryKind::Select(stmt) }, p7))
    }

    fn items(&self, pos: usize) -> (r: Result<(Vec<SelectItem>, usize), ParseError>)
        requires
            self.wf(),
        ensures
            rmap(r, |x: Vec<SelectItem>| items_v(x@)) == p_items(self.ctx(), pos as int),
            moved(r, pos, self.len()),
        decreases self.len() - pos, 19int,
    {
        let (it, p) = self.select_item(pos)?;
        if self.peek_is(p, TokenKind::Comma) {
            let (mut rest, p2) = self.items(p + 1)?;
            let ghost old_rest = rest@;
            rest.insert(0, it);
            proof {
                assert(rest@ =~= seq![it] + old_rest);
                lemma_items_cons(it, old_rest);
            }
            Ok((rest, p2))
        } else {
            let v = vec![it];
            proof {
                assert(v@ =~= seq![it] + Seq::<SelectItem>::empty());
                lemma_items_cons(it, Seq::<SelectItem>::empty());
                lemma_empty_views();
            }
            Ok((v, p))
        }
    }

    fn alias_as(&self, pos: usize) -> (r: Result<(Option<String>, usize), ParseError>)
        requires
            self.wf(),
            pos <= self.len(),
        ensures
            rmap(r, |x: Option<String>| opt_str_v(x)) == p_alias_as(self.ctx(), pos as int),
            kept(r, pos, self.len()),
    {
        if self.peek_is(pos, TokenKind::As) {
            let (a, p) = self.ident(pos + 1)?;
            Ok((Some(a), p))
        } else {
            Ok((None, pos))
        }
    }

    fn select_item(&self, pos: usize) -> (r: Result<(SelectItem, usize), ParseError>)
        requires
            self.wf(),
        ensures
            rmap(r, |x: SelectItem| item_v(x)) == p_select_item(self.ctx(), pos as int),
            moved(r, pos, self.len()),
        decreases self.len() - pos, 18int,
    {
        let (expr, p) = if self.peek_is(pos, TokenKind::Asterisk) {
            (Expression::Star, pos + 1)
        } else if self.peek_is(pos, TokenKind::Identifier) && self.kind_at(pos + 1) == Some(
            TokenKind::Dot,
        ) && self.kind_at(pos + 2) == Some(TokenKind::Asterisk) {
            let (path, p1) = self.path(pos)?;
            let (_, p2) = self.expect_kind(p1, TokenKind::Dot)?;
            let (_, p3) = self.expect_kind(p2, TokenKind::Asterisk)?;
            (Expression::QualifiedStar(path), p3)
        } else {
            self.expr(pos)?
        };
        let (alias, p2) = self.alias_as(p)?;
        Ok((SelectItem { expr, alias }, p2))
    }

    fn from_clause(&self, pos: usize) -> (r: Result<(Vec<TableRef>, usize), ParseError>)
        requires
            self.wf(),
            pos <= self.len(),
        ensures
            rmap(r, |x: Vec<TableRef>| tables_v(x@)) == p_from_clause(self.ctx(), pos as int),
            kept(r, pos, self.len()),
        decreases self.len() - pos, 12int,
    {
        if self.peek_is(pos, TokenKind::From) {
            self.tables(pos + 1)
        } else {
            proof {
                lemma_empty_views();
            }
            Ok((Vec::new(), pos))
        }
    }

    fn tables(&self, pos: usize) -> (r: Result<(Vec<TableRef>, usize), ParseError>)
        requires
            self.wf(),
        ensures
            rmap(r, |x: Vec<TableRef>| tables_v(x@)) == p_tables(self.ctx(), pos as int),
            moved(r, pos, self.len()),
        decreases self.len() - pos, 19int,
    {
        let (t, p) = self.table_ref(pos)?;
        if self.peek_is(p, TokenKind::Comma) {
            let (mut rest, p2) = self.tables(p + 1)?;
            let ghost old_rest = rest@;
            rest.insert(0, t);
            proof {
                assert(rest@ =~= seq![t] + old_rest);
                lemma_tables_cons(t, old_rest);
            }
            Ok((rest, p2))
        } else {
            let v = vec![t];
            proof {
                assert(v@ =~= seq![t] + Seq::<TableRef>::empty());
                lemma_tables_cons(t, Seq::<TableRef>::empty());
                lemma_empty_views();
            }
            Ok((v, p))
        }
    }

    fn table_ref(&self, pos: usize) -> (r: Result<(TableRef, usize), ParseError>)
        requires
            self.wf(),
        ensures
            rmap(r, |x: TableRef| table_v(x)) == p_table_ref(self.ctx(), pos as int),
            moved(r, pos, self.len()),
        decreases self.len() - pos, 18int,
    {
        let (source, p1) = if self.peek_is(pos, TokenKind::LeftParen) {
            let (q, p) = self.query_inner(pos + 1)?;
            let (_, p2) = self.expect_kind(p, TokenKind::RightParen)?;
            (TableSource::Subquery(Box::new(q)), p2)
        } else {
            let (path, p) = self.path(pos)?;
            (TableSource::Named(path), p)
        };
        let (alias, p2) = if self.peek_is(p1, TokenKind::As) {
            self.alias_as(p1)?
        } else if self.peek_is(p1, TokenKind::Identifier) {
            let (a, p) = self.ident(p1)?;
            (Some(a), p)
        } else {
            (None, p1)
        };
        let (joins, p3) = self.joins(p2)?;
        Ok((TableRef { source, alias, joins }, p3))
    }

    fn joins(&self, pos: usize) -> (r: Result<(Vec<JoinClause>, usize), ParseError>)
        requires
            self.wf(),
            pos <= self.len(),
        ensures
            rmap(r, |x: Vec<JoinClause>| joins_v(x@)) == p_joins(self.ctx(), pos as int),
            kept(r, pos, self.len()),
        decreases self.len() - pos, 19int,
    {
        let k = self.kind_at(pos);
        if k == Some(TokenKind::Join) || k == Some(TokenKind::Inner) || k == Some(TokenKind::Left)
            || k == Some(TokenKind::Right) || k == Some(TokenKind::Full) || k == Some(
            TokenKind::Cross,
        ) {
            let (j, p) = self.join_clause(pos)?;
            let (mut rest, p2) = self.joins(p)?;
            let ghost old_rest = rest@;
            rest.insert(0, j);
            proof {
                assert(rest@ =~= seq![j] + old_rest);
                lemma_joins_cons(j, old_rest);
            }
            Ok((rest, p2))
        } else {
            proof {
                lemma_empty_views();
            }
            Ok((Vec::new(), pos))
        }
    }

    fn join_kind(&self, pos: usize) -> (r: Result<(JoinKind, usize), ParseError>)
        requires
            self.wf(),
        ensures
            rmap(r, |x: JoinKind| x) == p_join_kind(self.ctx(), pos as int),
            moved(r, pos, self.len()),
    {
        if self.peek_is(pos, TokenKind::Inner) {
            let p = if self.peek_is(pos + 1, TokenKind::Join) {
                pos + 2
            } else {
                pos + 1
            };
            Ok((JoinKind::Inner, p))
        } else if self.peek_is(pos, TokenKind::Left) || self.peek_is(pos, TokenKind::Right)
            || self.peek_is(pos, TokenKind::Full) {
            let k = if self.peek_is(pos, TokenKind::Left) {
                JoinKind::Left
            } else if self.peek_is(pos, TokenKind::Right) {
                JoinKind::Right
            } else {
                JoinKind::Full
            };
            let p = if self.peek_is(pos + 1, TokenKind::Outer) {
                pos + 2
            } else {
                pos + 1
            };
            let (_, p2) = self.expect_kind(p, TokenKind::Join)?;
            Ok((k, p2))
        } else if self.peek_is(pos, TokenKind::Cross) {
            let (_, p2) = self.expect_kind(pos + 1, TokenKind::Join)?;
            Ok((JoinKind::Cross, p2))
        } else {
            let (_, p2) = self.expect_kind(pos, TokenKind::Join)?;
            Ok((JoinKind::Inner, p2))
        }
    }

    fn join_clause(&self, pos: usize) -> (r: Result<(JoinClause, usize), ParseError>)
        requires
            self.wf(),
        ensures
            rmap(r, |x: JoinClause| join_v(x)) == p_join_clause(self.ctx(), pos as int),
            moved(r, pos, self.len()),
        decreases self.len() - pos, 18int,
    {
        let (kind, p1) = self.join_kind(pos)?;
        let (table, p2) = self.table_ref(p1)?;
        if self.peek_is(p2, TokenKind::On) {
            let (on, p3) = self.expr(p2 + 1)?;
            Ok((JoinClause { kind, table, on: Some(on) }, p3))
        } else {
            Ok((JoinClause { kind, table, on: None }, p2))
        }
    }

    fn where_clause(&self, pos: usize) -> (r: Result<(Option<Expression>, usize), ParseError>)
        requires
            self.wf(),
            pos <= self.len(),
        ensures
            rmap(r, |x: Option<Expression>| opt_e_v(x)) == p_where_clause(self.ctx(), pos as int),
            kept(r, pos, self.len()),
        decreases self.len() - pos, 12int,
    {
        if self.peek_is(pos, TokenKind::Where) {
            let (x, p) = self.expr(pos + 1)?;
            Ok((Some(x), p))
        } else {
            Ok((None, pos))
        }
    }

    fn having_clause(&self, pos: usize) -> (r: Result<(Option<Expression>, usize), ParseError>)
        requires
            self.wf(),
            pos <= self.len(),
        ensures
            rmap(r, |x: Option<Expression>| opt_e_v(x)) == p_having_clause(self.ctx(), pos as int),
            kept(r, pos, self.len()),
        decreases self.len() - pos, 12int,
    {
        if self.peek_is(pos, TokenKind::Having) {
            let (x, p) = self.expr(pos + 1)?;
            Ok((Some(x), p))
        } else {
            Ok((None, pos))
        }
    }

    fn group_clause(&self, pos: usize) -> (r: Result<(Vec<Expression>, usize), ParseError>)
        requires
            self.wf(),
            pos <= self.len(),
        ensures
            rmap(r, |x: Vec<Expression>| exprs_v(x@)) == p_group_clause(self.ctx(), pos as int),
            kept(r, pos, self.len()),
        decreases self.len() - pos, 12int,
    {
        if self.peek_is(pos, TokenKind::Group) {
            let (_, p) = self.expect_kind(pos + 1, TokenKind::By)?;
            self.expr_list(p)
        } else {
            proof {
                lemma_empty_views();
            }
            Ok((Vec::new(), pos))
        }
    }

    fn expr_list(&self, pos: usize) -> (r: Result<(Vec<Expression>, usize), ParseError>)
        requires
            self.wf(),
        ensures
            rmap(r, |x: Vec<Expression>| exprs_v(x@)) == p_expr_list(self.ctx(), pos as int),
            moved(r, pos, self.len()),
        decreases self.len() - pos, 19int,
    {
        let (x, p) = self.expr(pos)?;
        if self.peek_is(p, TokenKind::Comma) {
            let (mut rest, p2) = self.expr_list(p + 1)?;
            let ghost old_rest = rest@;
            rest.insert(0, x);
            proof {
                assert(rest@ =~= seq![x] + old_rest);
                lemma_exprs_cons(x, old_rest);
            }
            Ok((rest, p2))
        } else {
            let v = vec![x];
            proof {
                assert(v@ =~= seq![x] + Seq::<Expression>::empty());
                lemma_exprs_cons(x, Seq::<Expression>::empty());
                lemma_empty_views();
            }
            Ok((v, p))
        }
    }

    fn order_clause(&self, pos: usize) -> (r: Result<(Vec<OrderByItem>, usize), ParseError>)
        requires
            self.wf(),
            pos <= self.len(),
        ensures
            rmap(r, |x: Vec<OrderByItem>| orders_v(x@)) == p_order_clause(self.ctx(), pos as int),
            kept(r, pos, self.len()),
        decreases self.len() - pos, 12int,
    {
        if self.peek_is(pos, TokenKind::Order) {
            let (_, p) = self.expect_kind(pos + 1, TokenKind::By)?;
            self.order_list(p)
        } else {
            proof {
                lemma_empty_views();
            }
            Ok((Vec::new(), pos))
        }
    }

    fn order_list(&self, pos: usize) -> (r: Result<(Vec<OrderByItem>, usize), ParseError>)
        requires
            self.wf(),
        ensures
            rmap(r, |x: Vec<OrderByItem>| orders_v(x@)) == p_order_list(self.ctx(), pos as int),
            moved(r, pos, self.len()),
        decreases self.len() - pos, 19int,
    {
        let (x, p) = self.expr(pos)?;
        let descending = self.peek_is(p, TokenKind::Desc);
        let p1 = if descending {
            p + 1
        } else {
            p
        };
        let p2 = if self.peek_is(p1, TokenKind::Asc) {
            p1 + 1
        } else {
            p1
        };
        let item = OrderByItem { expr: x, descending };
        if self.peek_is(p2, TokenKind::Comma) {
            let (mut rest, p3) = self.order_list(p2 + 1)?;
            let ghost old_rest = rest@;
            rest.insert(0, item);
            proof {
                assert(rest@ =~= seq![item] + old_rest);
                lemma_orders_cons(item, old_rest);
            }
            Ok((rest, p3))
        } else {
            let v = vec![item];
            proof {
                assert(v@ =~= seq![item] + Seq::<OrderByItem>::empty());
                lemma_orders_cons(item, Seq::<OrderByItem>::empty());
                lemma_empty_views();
            }
            Ok((v, p2))
        }
    }

    fn limit_clause(&self, pos: usize) -> (r: Result<(Option<u64>, usize), ParseError>)
        requires
            self.wf(),
            pos <= self.len(),
        ensures
            rmap(r, |x: Option<u64>| x) == p_limit_clause(self.ctx(), pos as int),
            kept(r, pos, self.len()),
    {
        if self.peek_is(pos, TokenKind::Limit) {
            if self.peek_is(pos + 1, TokenKind::Number) {
                let (a, b) = self.ranges[pos + 1];
                assert(range_matches(self.chars@, self.ranges@[pos + 1], self.tokens@[pos + 1].span));
                proof {
                    lemma_ci_of(self.chars@, a as int);
                    lemma_ci_of(self.chars@, b as int);
                }
                match parse_unsigned_exec(self.chars, a, b, u64::MAX) {
                    Some(v) => Ok((Some(v), pos + 2)),
                    None => Err(
                        ParseError {
                            message: "invalid LIMIT value".to_owned(),
                            span: self.tokens[pos + 1].span,
                        },
                    ),
                }
            } else {
                Err(self.err_cur(pos + 1, "unexpected token".to_owned()))
            }
        } else {
            Ok((None, pos))
        }
    }

    fn expr(&self, pos: usize) -> (r: Result<(Expression, usize), ParseError>)
        requires
            self.wf(),
        ensures
            rmap(r, |x: Expression| expr_v(x)) == p_expr(self.ctx(), pos as int),
            moved(r, pos, self.len()),
        decreases self.len() - pos, 17int,
    {
        self.binary(pos, 0)
    }

    fn binary(&self, pos: usize, min: u8) -> (r: Result<(Expression, usize), ParseError>)
        requires
            self.wf(),
            min <= 8,
        ensures
            rmap(r, |x: Expression| expr_v(x)) == p_binary(self.ctx(), pos as int, min as nat),
            moved(r, pos, self.len()),
        decreases self.len() - pos, 16int,
    {
        let (mut left, mut p) = self.prefix(pos)?;
        loop
            invariant
                self.wf(),
                min <= 8,
                pos < p <= self.len(),
                p_binary(self.ctx(), pos as int, min as nat) == p_binary_rest(
                    self.ctx(),
                    expr_v(left),
                    p as int,
                    min as nat,
                ),
            decreases self.len() - p,
        {
            if self.peek_is(p, TokenKind::Is) {
                let negated = self.peek_is(p + 1, TokenKind::Not);
                let pn = if negated {
                    p + 2
                } else {
                    p + 1
                };
                if self.peek_is(pn, TokenKind::Null) {
                    left = Expression::IsNull { expr: Box::new(left), negated };
                    p = pn + 1;
                    continue ;
                }
            }
            match binary_op_exec(self.kind_at(p)) {
                None => {
                    return Ok((left, p));
                },
                Some((prec, op)) => {
                    if prec < min {
                        return Ok((left, p));
                    }
                    let (right, p2) = self.binary(p + 1, prec + 1)?;
                    left = Expression::Binary { left: Box::new(left), op, right: Box::new(right) };
                    p = p2;
                },
            }
        }
    }

    fn prefix(&self, pos: usize) -> (r: Result<(Expression, usize), ParseError>)
        requires
            self.wf(),
        ensures
            rmap(r, |x: Expression| expr_v(x)) == p_prefix(self.ctx(), pos as int),
            moved(r, pos, self.len()),
        decreases self.len() - pos, 15int,
    {
        if self.peek_is(pos, TokenKind::Not) || self.peek_is(pos, TokenKind::Minus) {
            let op = if self.peek_is(pos, TokenKind::Not) {
                UnaryOp::Not
            } else {
                UnaryOp::Negate
            };
            let (x, p) = self.prefix(pos + 1)?;
            return Ok((Expression::Unary { op, expr: Box::new(x) }, p));
        }
        let (mut e, mut p) = self.primary(pos)?;
        loop
            invariant
                self.wf(),
                pos < p <= self.len(),
                p_prefix(self.ctx(), pos as int) == p_postfix(self.ctx(), expr_v(e), p as int),
            decreases self.len() - p,
        {
            if self.peek_is(p, TokenKind::LeftParen) {
                let (args, p2) = if self.peek_is(p + 1, TokenKind::RightParen) {
                    proof {
                        lemma_empty_views();
                    }
                    (Vec::new(), p + 2)
                } else {
                    self.args(p + 1)?
                };
                e = self.call_of(p2, e, args)?;
                p = p2;
            } else if self.peek_is(p, TokenKind::Dot) {
                let (member, p2) = self.ident(p + 1)?;
                e = match e {
                    Expression::Identifier(path) => {
                        let mut path = path;
                        let ghost before = path@;
                        path.push(member);
                        assert(strs_v(path@) =~= strs_v(before).push(member@));
                        Expression::Identifier(path)
                    },
                    other => {
                        let v = vec![member];
                        assert(strs_v(v@) =~= seq![member@]);
                        let id = Expression::Identifier(v);
                        assert(expr_v(id) == SExpr::Identifier(seq![member@]));
                        Expression::Binary {
                            left: Box::new(other),
                            op: BinaryOp::Concat,
                            right: Box::new(id),
                        }
                    },
                };
                p = p2;
            } else {
                return Ok((e, p));
            }
        }
    }

    fn args(&self, pos: usize) -> (r: Result<(Vec<Expression>, usize), ParseError>)
        requires
            self.wf(),
        ensures
            rmap(r, |x: Vec<Expression>| exprs_v(x@)) == p_args(self.ctx(), pos as int),
            moved(r, pos, self.len()),
        decreases self.len() - pos, 19int,
    {
        let (x, p) = self.expr(pos)?;
        if self.peek_is(p, TokenKind::Comma) {
            let (mut rest, p2) = self.args(p + 1)?;
            let ghost old_rest = rest@;
            rest.insert(0, x);
            proof {
                assert(rest@ =~= seq![x] + old_rest);
                lemma_exprs_cons(x, old_rest);
            }
            Ok((rest, p2))
        } else {
            let (_, p2) = self.expect_kind(p, TokenKind::RightParen)?;
            let v = vec![x];
            proof {
                assert(v@ =~= seq![x] + Seq::<Expression>::empty());
                lemma_exprs_cons(x, Seq::<Expression>::empty());
                lemma_empty_views();
            }
            Ok((v, p2))
        }
    }

    fn expr_name(&self, pos: usize, e: &Expression) -> (r: Result<String, ParseError>)
        requires
            self.wf(),
        ensures
            match r {
                Ok(n) => expr_name(self.ctx(), pos as int, expr_v(*e)) == Ok::<Seq<char>, SErr>(n@),
                Err(err) => expr_name(self.ctx(), pos as int, expr_v(*e)) == Err::<Seq<char>, SErr>(err@),
            },
        decreases e,
    {
        match e {
            Expression::Identifier(parts) => Ok(join_dot_exec(parts)),
            Expression::Paren(inner) => self.expr_name(pos, &**inner),
            _ => Err(self.err_cur(pos, "expected function name".to_owned())),
        }
    }

    fn call_of(&self, pos: usize, e: Expression, args: Vec<Expression>) -> (r: Result<Expression, ParseError>)
        requires
            self.wf(),
        ensures
            match r {
                Ok(x) => call_of(self.ctx(), pos as int, expr_v(e), exprs_v(args@)) == Ok::<SExpr, SErr>(expr_v(x)),
                Err(err) => call_of(self.ctx(), pos as int, expr_v(e), exprs_v(args@)) == Err::<SExpr, SErr>(err@),
            },
    {
        match e {
            Expression::Identifier(name) => Ok(Expression::FunctionCall { name, args }),
            Expression::QualifiedStar(name) => Ok(Expression::FunctionCall { name, args }),
            other => {
                let n = self.expr_name(pos, &other)?;
                let name = vec![n];
                assert(strs_v(name@) =~= seq![n@]);
                Ok(Expression::FunctionCall { name, args })
            },
        }
    }

    fn case_branches(&self, pos: usize) -> (r: Result<(Vec<(Expression, Expression)>, usize), ParseError>)
        requires
            self.wf(),
            pos <= self.len(),
        ensures
            rmap(r, |x: Vec<(Expression, Expression)>| branches_v(x@)) == p_case_branches(
                self.ctx(),
                pos as int,
            ),
            kept(r, pos, self.len()),
        decreases self.len() - pos, 19int,
    {
        if self.peek_is(pos, TokenKind::When) {
            let (cond, p1) = self.expr(pos + 1)?;
            let (_, p2) = self.expect_kind(p1, TokenKind::Then)?;
            let (value, p3) = self.expr(p2)?;
            let (mut rest, p4) = self.case_branches(p3)?;
            let ghost old_rest = rest@;
            rest.insert(0, (cond, value));
            proof {
                assert(rest@ =~= seq![(cond, value)] + old_rest);
                lemma_branches_cons((cond, value), old_rest);
            }
            Ok((rest, p4))
        } else {
            proof {
                lemma_empty_views();
            }
            Ok((Vec::new(), pos))
        }
    }

    fn case(&self, pos: usize) -> (r: Result<(Expression, usize), ParseError>)
        requires
            self.wf(),
            pos <= self.len(),
        ensures
            rmap(r, |x: Expression| expr_v(x)) == p_case(self.ctx(), pos as int),
            moved(r, pos, self.len()),
        decreases self.len() - pos, 21int,
    {
        let (branches, p1) = self.case_branches(pos)?;
        let (else_expr, p2) = if self.peek_is(p1, TokenKind::Else) {
            let (x, p) = self.expr(p1 + 1)?;
            (Some(Box::new(x)), p)
        } else {
            (None, p1)
        };
        let (_, p3) = self.expect_kind(p2, TokenKind::End)?;
        Ok((Expression::Case { branches, else_expr }, p3))
    }

    fn literal(&self, pos: usize) -> (r: Expression)
        requires
            self.wf(),
            pos < self.len(),
            is_literal_kind(kind_at(self.ctx(), pos as int)),
        ensures
            expr_v(r) == p_literal(self.ctx(), pos as int),
    {
        if self.peek_is(pos, TokenKind::String) {
            Expression::String(self.text(pos))
        } else if self.peek_is(pos, TokenKind::Number) {
            Expression::Number(self.text(pos))
        } else if self.peek_is(pos, TokenKind::True) {
            Expression::Boolean(true)
        } else if self.peek_is(pos, TokenKind::False) {
            Expression::Boolean(false)
        } else if self.peek_is(pos, TokenKind::Null) {
            Expression::Null
        } else if self.peek_is(pos, TokenKind::BindParameter) {
            let (a, b) = self.ranges[pos];
            assert(range_matches(self.chars@, self.ranges@[pos as int], self.tokens@[pos as int].span));
            proof {
                lemma_ci_of(self.chars@, a as int);
                lemma_ci_of(self.chars@, b as int);
            }
            let name = if a < b && self.chars[a] == ':' {
                let n = string_from_chars(self.chars, a + 1, b);
                assert(n@ =~= self.chars@.subrange(a as int, b as int).drop_first());
                Some(n)
            } else {
                None
            };
            Expression::BindParameter(name)
        } else if self.peek_is(pos, TokenKind::OdbcDateTimeLiteral) {
            Expression::OdbcDateTime(self.text(pos))
        } else {
            Expression::Star
        }
    }

    fn paren(&self, pos: usize) -> (r: Result<(Expression, usize), ParseError>)
        requires
            self.wf(),
        ensures
            rmap(r, |x: Expression| expr_v(x)) == p_paren(self.ctx(), pos as int),
            moved(r, pos, self.len()),
        decreases self.len() - pos, 21int,
    {
        if self.peek_is(pos, TokenKind::Select) {
            let (q, p) = self.query_inner(pos)?;
            let (_, p2) = self.expect_kind(p, TokenKind::RightParen)?;
            Ok((Expression::Subquery(Box::new(q)), p2))
        } else {
            let (x, p) = self.expr(pos)?;
            let (_, p2) = self.expect_kind(p, TokenKind::RightParen)?;
            Ok((Expression::Paren(Box::new(x)), p2))
        }
    }

    fn primary(&self, pos: usize) -> (r: Result<(Expression, usize), ParseError>)
        requires
            self.wf(),
        ensures
            rmap(r, |x: Expression| expr_v(x)) == p_primary(self.ctx(), pos as int),
            moved(r, pos, self.len()),
        decreases self.len() - pos, 14int,
    {
        if self.peek_is(pos, TokenKind::LeftParen) {
            self.paren(pos + 1)
        } else if self.peek_is(pos, TokenKind::Case) {
            self.case(pos + 1)
        } else if self.peek_is(pos, TokenKind::String) || self.peek_is(pos, TokenKind::Number)
            || self.peek_is(pos, TokenKind::True) || self.peek_is(pos, TokenKind::False)
            || self.peek_is(pos, TokenKind::Null) || self.peek_is(pos, TokenKind::BindParameter)
            || self.peek_is(pos, TokenKind::OdbcDateTimeLiteral) || self.peek_is(
            pos,
            TokenKind::Asterisk,
        ) {
            assert(is_literal_kind(kind_at(self.ctx(), pos as int)));
            let lit = self.literal(pos);
            assert(p_primary(self.ctx(), pos as int) == Ok::<(SExpr, int), SErr>((expr_v(lit), pos + 1)));
            Ok((lit, pos + 1))
        } else if self.peek_is(pos, TokenKind::Select) {
            let (_, p) = self.select_query(pos)?;
            let v = vec!["subquery".to_owned()];
            assert(strs_v(v@) =~= seq!["subquery"@]);
            let id = Expression::Identifier(v);
            assert(expr_v(id) == SExpr::Identifier(seq!["subquery"@]));
            let e = Expression::Paren(Box::new(id));
            assert(p_primary(self.ctx(), pos as int) == Ok::<(SExpr, int), SErr>((expr_v(e), p as int)));
            Ok((e, p))
        } else if self.peek_is(pos, TokenKind::Identifier) {
            let (path, p) = self.path(pos)?;
            let e = Expression::Identifier(path);
            assert(p_primary(self.ctx(), pos as int) == Ok::<(SExpr, int), SErr>((expr_v(e), p as int)));
            Ok((e, p))
        } else {
            let e = self.err_cur(pos, "expected expression".to_owned());
            assert(p_primary(self.ctx(), pos as int) == Err::<(SExpr, int), SErr>(e@));
            Err(e)
        }
    }
}

fn binary_op_exec(k: Option<TokenKind>) -> (r: Option<(u8, BinaryOp)>)
    ensures
        match r {
            Some((p, op)) => binary_op_of(k) == Some((p as nat, op)) && 1 <= p <= 7,
            None => binary_op_of(k) is None,
        },
{
    match k {
        Some(TokenKind::Or) => Some((1, BinaryOp::Or)),
        Some(TokenKind::Xor) => Some((1, BinaryOp::Xor)),
        Some(TokenKind::Eqv) => Some((1, BinaryOp::Eqv)),
        Some(TokenKind::AmpAmp) => Some((2, BinaryOp::And)),
        Some(TokenKind::And) => Some((2, BinaryOp::And)),
        Some(TokenKind::EqualEqual) => Some((3, BinaryOp::Eq)),
        Some(TokenKind::Equal) => Some((3, BinaryOp::Eq)),
        Some(TokenKind::BangEqual) => Some((3, BinaryOp::NotEq)),
        Some(TokenKind::NotEqualAngle) => Some((3, BinaryOp::NotEq)),
        Some(TokenKind::Less) => Some((3, BinaryOp::Lt)),
        Some(TokenKind::LessEqual) => Some((3, BinaryOp::Lte)),
        Some(TokenKind::Greater) => Some((3, BinaryOp::Gt)),
        Some(TokenKind::GreaterEqual) => Some((3, BinaryOp::Gte)),
        Some(TokenKind::Like) => Some((3, BinaryOp::Like)),
        Some(TokenKind::Contains) => Some((3, BinaryOp::Contains)),
        Some(TokenKind::InstanceOf) => Some((3, BinaryOp::InstanceOf)),
        Some(TokenKind::CastAs) => Some((3, BinaryOp::CastAs)),
        Some(TokenKind::Plus) => Some((4, BinaryOp::Add)),
        Some(TokenKind::Minus) => Some((4, BinaryOp::Sub)),
        Some(TokenKind::Asterisk) => Some((5, BinaryOp::Mul)),
        Some(TokenKind::Slash) => Some((5, BinaryOp::Div)),
        Some(TokenKind::Percent) => Some((5, BinaryOp::Mod)),
        Some(TokenKind::Ampersand) => Some((6, BinaryOp::Concat)),
        Some(TokenKind::Caret) => Some((7, BinaryOp::Pow)),
        _ => None,
    }
}

/// Parses a Query-of-Queries SQL text.
pub fn parse(source: &str) -> (r: Result<Query, ParseError>)
    ensures
        match r {
            Ok(q) => parse_spec(source@) == Ok::<SQuery, SErr>(q@),
            Err(e) => parse_spec(source@) == Err::<SQuery, SErr>(e@),
        },
{
    let lexed = lex(source);
    let tokens = lexed.tokens();
    let chars = lexed.chars();
    let ranges = lexed.ranges();
    let _n = tokens.len();
    let src_bytes = source.as_bytes().len();
    proof {
        assert(chars@.take(chars@.len() as int) =~= chars@);
    }
    let p = Parser { chars, tokens, ranges, src_bytes };
    let (q, pos) = p.query_inner(0)?;
    if p.peek_is(pos, TokenKind::Eof) {
        Ok(q)
    } else {
        Err(p.err_cur(pos, "unexpected trailing tokens".to_owned()))
    }
}

} // verus!
