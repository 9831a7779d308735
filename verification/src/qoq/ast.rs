//! The Query-of-Queries syntax tree, its mathematical view, and the
//! traversals over it.
use vstd::prelude::*;
use crate::qoq::token::Span;

verus! {

broadcast use {vstd::std_specs::vec::axiom_vec_decreases_to_view, vstd::seq::axiom_seq_subrange_decreases, vstd::seq::axiom_seq_index_decreases};

#[derive(Debug, PartialEq)]
pub struct Query {
    pub kind: QueryKind,
    pub span: Span,
}

#[derive(Debug, PartialEq)]
pub enum QueryKind {
    Select(SelectStatement),
    Union { left: Box<Query>, all: bool, right: Box<Query> },
}

#[derive(Debug, PartialEq)]
pub struct SelectStatement {
    pub distinct: bool,
    pub projection: Vec<SelectItem>,
    pub from: Vec<TableRef>,
    pub where_clause: Option<Expression>,
    pub group_by: Vec<Expression>,
    pub having: Option<Expression>,
    pub order_by: Vec<OrderByItem>,
    pub limit: Option<u64>,
}

#[derive(Debug, PartialEq)]
pub struct SelectItem {
    pub expr: Expression,
    pub alias: Option<String>,
}

#[derive(Debug, PartialEq)]
pub struct TableRef {
    pub source: TableSource,
    pub alias: Option<String>,
    pub joins: Vec<JoinClause>,
}

#[derive(Debug, PartialEq)]
pub enum TableSource {
    Named(Vec<String>),
    Subquery(Box<Query>),
}

#[derive(Debug, PartialEq)]
pub struct JoinClause {
    pub kind: JoinKind,
    pub table: TableRef,
    pub on: Option<Expression>,
}

#[derive(Debug, Clone, Copy, PartialEq, Eq, Structural)]
pub enum JoinKind {
    Inner,
    Left,
    Right,
    Full,
    Cross,
}

#[derive(Debug, PartialEq)]
pub struct OrderByItem {
    pub expr: Expression,
    pub descending: bool,
}

#[derive(Debug, PartialEq)]
pub enum Expression {
    Identifier(Vec<String>),
    String(String),
    Number(String),
    Boolean(bool),
    Null,
    OdbcDateTime(String),
    BindParameter(Option<String>),
    Star,
    QualifiedStar(Vec<String>),
    FunctionCall { name: Vec<String>, args: Vec<Expression> },
    Subquery(Box<Query>),
    Case { branches: Vec<(Expression, Expression)>, else_expr: Option<Box<Expression>> },
    Paren(Box<Expression>),
    Unary { op: UnaryOp, expr: Box<Expression> },
    Binary { left: Box<Expression>, op: BinaryOp, right: Box<Expression> },
    IsNull { expr: Box<Expression>, negated: bool },
}

#[derive(Debug, Clone, Copy, PartialEq, Eq, Structural)]
pub enum UnaryOp {
    Not,
    Negate,
}

#[derive(Debug, Clone, Copy, PartialEq, Eq, Structural)]
pub enum BinaryOp {
    Or,
    And,
    Eq,
    NotEq,
    Lt,
    Lte,
    Gt,
    Gte,
    Like,
    Contains,
    InstanceOf,
    CastAs,
    Xor,
    Eqv,
    Add,
    Sub,
    Mul,
    Div,
    Mod,
    Concat,
    Pow,
}

// ---------------------------------------------------------------------------
// Mathematical view of the tree: strings as character sequences.
// ---------------------------------------------------------------------------

pub enum SQuery {
    Select { stmt: SSelect, span: Span },
    Union { left: Box<SQuery>, all: bool, right: Box<SQuery>, span: Span },
}

pub struct SSelect {
    pub distinct: bool,
    pub projection: Seq<SItem>,
    pub from: Seq<STable>,
    pub where_clause: Option<SExpr>,
    pub group_by: Seq<SExpr>,
    pub having: Option<SExpr>,
    pub order_by: Seq<SOrder>,
    pub limit: Option<u64>,
}

pub struct SItem {
    pub expr: SExpr,
    pub alias: Option<Seq<char>>,
}

pub enum SSource {
    Named(Seq<Seq<char>>),
    Subquery(Box<SQuery>),
}

pub struct STable {
    pub source: SSource,
    pub alias: Option<Seq<char>>,
    pub joins: Seq<SJoin>,
}

pub struct SJoin {
    pub kind: JoinKind,
    pub table: STable,
    pub on: Option<SExpr>,
}

pub struct SOrder {
    pub expr: SExpr,
    pub descending: bool,
}

pub enum SExpr {
    Identifier(Seq<Seq<char>>),
    String(Seq<char>),
    Number(Seq<char>),
    Boolean(bool),
    Null,
    OdbcDateTime(Seq<char>),
    BindParameter(Option<Seq<char>>),
    Star,
    QualifiedStar(Seq<Seq<char>>),
    FunctionCall { name: Seq<Seq<char>>, args: Seq<SExpr> },
    Subquery(Box<SQuery>),
    Case { branches: Seq<(SExpr, SExpr)>, else_expr: Option<Box<SExpr>> },
    Paren(Box<SExpr>),
    Unary { op: UnaryOp, expr: Box<SExpr> },
    Binary { left: Box<SExpr>, op: BinaryOp, right: Box<SExpr> },
    IsNull { expr: Box<SExpr>, negated: bool },
}

pub open spec fn strs_v(v: Seq<String>) -> Seq<Seq<char>> {
    v.map_values(|x: String| x@)
}

pub open spec fn opt_str_v(o: Option<String>) -> Option<Seq<char>> {
    match o {
        Some(x) => Some(x@),
        None => None,
    }
}

pub open spec fn query_v(q: Query) -> SQuery
    decreases q,
{
    match q.kind {
        QueryKind::Select(stmt) => SQuery::Select { stmt: select_v(stmt), span: q.span },
        QueryKind::Union { left, all, right } => SQuery::Union {
            left: Box::new(query_v(*left)),
            all,
            right: Box::new(query_v(*right)),
            span: q.span,
        },
    }
}

pub open spec fn select_v(s: SelectStatement) -> SSelect
    decreases s,
{
    SSelect {
        distinct: s.distinct,
        projection: items_v(s.projection@),
        from: tables_v(s.from@),
        where_clause: opt_expr_v(s.where_clause),
        group_by: exprs_v(s.group_by@),
        having: opt_expr_v(s.having),
        order_by: orders_v(s.order_by@),
        limit: s.limit,
    }
}

pub open spec fn opt_expr_v(o: Option<Expression>) -> Option<SExpr>
    decreases o,
{
    match o {
        Some(e) => Some(expr_v(e)),
        None => None,
    }
}

pub open spec fn items_v(v: Seq<SelectItem>) -> Seq<SItem>
    decreases v,
{
    if v.len() == 0 {
        seq![]
    } else {
        seq![SItem { expr: expr_v(v[0].expr), alias: opt_str_v(v[0].alias) }] + items_v(
            v.subrange(1, v.len() as int),
        )
    }
}

pub open spec fn table_v(t: TableRef) -> STable
    decreases t,
{
    STable {
        source: match t.source {
            TableSource::Named(p) => SSource::Named(strs_v(p@)),
            TableSource::Subquery(q) => SSource::Subquery(Box::new(query_v(*q))),
        },
        alias: opt_str_v(t.alias),
        joins: joins_v(t.joins@),
    }
}

pub open spec fn tables_v(v: Seq<TableRef>) -> Seq<STable>
    decreases v,
{
    if v.len() == 0 {
        seq![]
    } else {
        seq![table_v(v[0])] + tables_v(v.subrange(1, v.len() as int))
    }
}

pub open spec fn joins_v(v: Seq<JoinClause>) -> Seq<SJoin>
    decreases v,
{
    if v.len() == 0 {
        seq![]
    } else {
        seq![SJoin { kind: v[0].kind, table: table_v(v[0].table), on: opt_expr_v(v[0].on) }]
            + joins_v(v.subrange(1, v.len() as int))
    }
}

pub open spec fn orders_v(v: Seq<OrderByItem>) -> Seq<SOrder>
    decreases v,
{
    if v.len() == 0 {
        seq![]
    } else {
        seq![SOrder { expr: expr_v(v[0].expr), descending: v[0].descending }] + orders_v(
            v.subrange(1, v.len() as int),
        )
    }
}

pub open spec fn exprs_v(v: Seq<Expression>) -> Seq<SExpr>
    decreases v,
{
    if v.len() == 0 {
        seq![]
    } else {
        seq![expr_v(v[0])] + exprs_v(v.subrange(1, v.len() as int))
    }
}

pub open spec fn branches_v(v: Seq<(Expression, Expression)>) -> Seq<(SExpr, SExpr)>
    decreases v,
{
    if v.len() == 0 {
        seq![]
    } else {
        seq![(expr_v(v[0].0), expr_v(v[0].1))] + branches_v(v.subrange(1, v.len() as int))
    }
}

pub open spec fn expr_v(e: Expression) -> SExpr
    decreases e,
{
    match e {
        Expression::Identifier(p) => SExpr::Identifier(strs_v(p@)),
        Expression::String(x) => SExpr::String(x@),
        Expression::Number(x) => SExpr::Number(x@),
        Expression::Boolean(b) => SExpr::Boolean(b),
        Expression::Null => SExpr::Null,
        Expression::OdbcDateTime(x) => SExpr::OdbcDateTime(x@),
        Expression::BindParameter(o) => SExpr::BindParameter(opt_str_v(o)),
        Expression::Star => SExpr::Star,
        Expression::QualifiedStar(p) => SExpr::QualifiedStar(strs_v(p@)),
        Expression::FunctionCall { name, args } => SExpr::FunctionCall {
            name: strs_v(name@),
            args: exprs_v(args@),
        },
        Expression::Subquery(q) => SExpr::Subquery(Box::new(query_v(*q))),
        Expression::Case { branches, else_expr } => SExpr::Case {
            branches: branches_v(branches@),
            else_expr: match else_expr {
                Some(x) => Some(Box::new(expr_v(*x))),
                None => None,
            },
        },
        Expression::Paren(x) => SExpr::Paren(Box::new(expr_v(*x))),
        Expression::Unary { op, expr } => SExpr::Unary { op, expr: Box::new(expr_v(*expr)) },
        Expression::Binary { left, op, right } => SExpr::Binary {
            left: Box::new(expr_v(*left)),
            op,
            right: Box::new(expr_v(*right)),
        },
        Expression::IsNull { expr, negated } => SExpr::IsNull {
            expr: Box::new(expr_v(*expr)),
            negated,
        },
    }
}

impl View for Query {
    type V = SQuery;

    open spec fn view(&self) -> SQuery {
        query_v(*self)
    }
}

impl View for Expression {
    type V = SExpr;

    open spec fn view(&self) -> SExpr {
        expr_v(*self)
    }
}

} // verus!
