//! Values, execution errors and parameter binding: `?` and `:name`
//! placeholders replaced by the literals of the values supplied for them.
use vstd::prelude::*;
use crate::text::{
    lowercase, to_lowercase, int_text, i64_text, utf8_lossy, from_utf8_lossy, clone_strs,
};
use crate::qoq::token::Span;
use crate::qoq::value::{SqlValue, strip_point_zero, strip_point_zero_exec};
use crate::qoq::ast::{
    Query, QueryKind, SelectStatement, SelectItem, TableRef, TableSource, JoinClause, OrderByItem,
    Expression, SQuery, SSelect, SItem, STable, SSource, SJoin, SOrder, SExpr, strs_v, opt_str_v,
    expr_v, exprs_v, items_v, tables_v, joins_v, orders_v, branches_v, query_v, table_v,
};
use crate::qoq::parser::{
    item_v, join_v, lemma_items_cons, lemma_tables_cons, lemma_joins_cons, lemma_orders_cons,
    lemma_exprs_cons, lemma_branches_cons,
};

verus! {

broadcast use {
    vstd::std_specs::vec::axiom_vec_decreases_to_view,
    vstd::seq::axiom_seq_subrange_decreases,
    vstd::seq::axiom_seq_index_decreases,
};

/// An error of binding or executing a query.
#[derive(Debug, Clone, PartialEq, Eq)]
pub struct ExecutionError {
    pub message: String,
    pub span: Option<Span>,
}

/// Parameter values: positional ones in order, named ones by lowercase
/// name.
#[derive(Debug, Clone)]
pub struct BindParams {
    pub positional: Vec<SqlValue>,
    pub named: Vec<(String, SqlValue)>,
}

/// The value bound under `key`: the first entry with that key.
pub open spec fn named_lookup(named: Seq<(String, SqlValue)>, key: Seq<char>) -> Option<SqlValue>
    decreases named.len(),
{
    if named.len() == 0 {
        None
    } else if named[0].0@ == key {
        Some(named[0].1)
    } else {
        named_lookup(named.drop_first(), key)
    }
}

/// The literal a value is bound as.
pub open spec fn value_expr(v: SqlValue) -> SExpr {
    match v {
        SqlValue::Null => SExpr::Null,
        SqlValue::Bool(b) => SExpr::Boolean(b),
        SqlValue::Int(i) => SExpr::Number(int_text(i as int)),
        SqlValue::Float(f) => SExpr::Number(strip_point_zero(f@)),
        SqlValue::Text(s) => SExpr::String(s@),
        SqlValue::Bytes(b) => SExpr::String(utf8_lossy(b@)),
    }
}

pub open spec fn missing_named_message(name: Seq<char>) -> Seq<char> {
    "missing named QoQ parameter '"@ + name + "'"@
}

pub open spec fn missing_positional_message() -> Seq<char> {
    "missing positional QoQ parameter"@
}

/// A bound prefix in front of the rest of a list's binding.
pub open spec fn prepend<T>(pre: Seq<T>, r: Result<(Seq<T>, int), Seq<char>>) -> Result<(Seq<T>, int), Seq<char>> {
    match r {
        Ok((xs, k)) => Ok((pre + xs, k)),
        Err(m) => Err(m),
    }
}

// ---------------------------------------------------------------------------
// Binding, mathematically: placeholders are replaced in source order
// (clause by clause, left to right); `?` takes the next positional value,
// `:name` the value named by its lowercase form. The first missing value is
// the error.
// ---------------------------------------------------------------------------
pub open spec fn bound_query(q: Query, p: BindParams, pos: int) -> Result<(SQuery, int), Seq<char>>
    decreases q,
{
    match q.kind {
        QueryKind::Select(s) => match bound_select(s, p, pos) {
            Ok((b, k)) => Ok((SQuery::Select { stmt: b, span: q.span }, k)),
            Err(m) => Err(m),
        },
        QueryKind::Union { left, all, right } => match bound_query(*left, p, pos) {
            Err(m) => Err(m),
            Ok((l, k1)) => match bound_query(*right, p, k1) {
                Err(m) => Err(m),
                Ok((r, k2)) => Ok((SQuery::Union { left: Box::new(l), all, right: Box::new(r), span: q.span }, k2)),
            },
        },
    }
}

pub open spec fn bound_select(s: SelectStatement, p: BindParams, pos: int) -> Result<(SSelect, int), Seq<char>>
    decreases s,
{
    match bound_items(s.projection@, p, pos) {
        Err(m) => Err(m),
        Ok((proj, k1)) => match bound_tables(s.from@, p, k1) {
            Err(m) => Err(m),
            Ok((from, k2)) => match bound_opt(s.where_clause, p, k2) {
                Err(m) => Err(m),
                Ok((w, k3)) => match bound_exprs(s.group_by@, p, k3) {
                    Err(m) => Err(m),
                    Ok((g, k4)) => match bound_opt(s.having, p, k4) {
                        Err(m) => Err(m),
                        Ok((h, k5)) => match bound_orders(s.order_by@, p, k5) {
                            Err(m) => Err(m),
                            Ok((o, k6)) => Ok((
                                SSelect {
                                    distinct: s.distinct,
                                    projection: proj,
                                    from,
                                    where_clause: w,
                                    group_by: g,
                                    having: h,
                                    order_by: o,
                                    limit: s.limit,
                                },
                                k6,
                            )),
                        },
                    },
                },
            },
        },
    }
}

pub open spec fn bound_items(v: Seq<SelectItem>, p: BindParams, pos: int) -> Result<(Seq<SItem>, int), Seq<char>>
    decreases v,
{
    if v.len() == 0 {
        Ok((seq![], pos))
    } else {
        match bound_expr(v[0].expr, p, pos) {
            Err(m) => Err(m),
            Ok((e, k)) => prepend(
                seq![SItem { expr: e, alias: opt_str_v(v[0].alias) }],
                bound_items(v.subrange(1, v.len() as int), p, k),
            ),
        }
    }
}

pub open spec fn bound_tables(v: Seq<TableRef>, p: BindParams, pos: int) -> Result<(Seq<STable>, int), Seq<char>>
    decreases v,
{
    if v.len() == 0 {
        Ok((seq![], pos))
    } else {
        match bound_table(v[0], p, pos) {
            Err(m) => Err(m),
            Ok((t, k)) => prepend(seq![t], bound_tables(v.subrange(1, v.len() as int), p, k)),
        }
    }
}

pub open spec fn bound_table(t: TableRef, p: BindParams, pos: int) -> Result<(STable, int), Seq<char>>
    decreases t,
{
    let src = match t.source {
        TableSource::Named(path) => Ok((SSource::Named(strs_v(path@)), pos)),
        TableSource::Subquery(q) => match bound_query(*q, p, pos) {
            Ok((b, k)) => Ok((SSource::Subquery(Box::new(b)), k)),
            Err(m) => Err(m),
        },
    };
    match src {
        Err(m) => Err(m),
        Ok((source, k1)) => match bound_joins(t.joins@, p, k1) {
            Err(m) => Err(m),
            Ok((joins, k2)) => Ok((STable { source, alias: opt_str_v(t.alias), joins }, k2)),
        },
    }
}

pub open spec fn bound_joins(v: Seq<JoinClause>, p: BindParams, pos: int) -> Result<(Seq<SJoin>, int), Seq<char>>
    decreases v,
{
    if v.len() == 0 {
        Ok((seq![], pos))
    } else {
        match bound_table(v[0].table, p, pos) {
            Err(m) => Err(m),
            Ok((t, k1)) => match bound_opt(v[0].on, p, k1) {
                Err(m) => Err(m),
                Ok((on, k2)) => prepend(
                    seq![SJoin { kind: v[0].kind, table: t, on }],
                    bound_joins(v.subrange(1, v.len() as int), p, k2),
                ),
            },
        }
    }
}

pub open spec fn bound_orders(v: Seq<OrderByItem>, p: BindParams, pos: int) -> Result<(Seq<SOrder>, int), Seq<char>>
    decreases v,
{
    if v.len() == 0 {
        Ok((seq![], pos))
    } else {
        match bound_expr(v[0].expr, p, pos) {
            Err(m) => Err(m),
            Ok((e, k)) => prepend(
                seq![SOrder { expr: e, descending: v[0].descending }],
                bound_orders(v.subrange(1, v.len() as int), p, k),
            ),
        }
    }
}

pub open spec fn bound_opt(o: Option<Expression>, p: BindParams, pos: int) -> Result<(Option<SExpr>, int), Seq<char>>
    decreases o,
{
    match o {
        None => Ok((None, pos)),
        Some(e) => match bound_expr(e, p, pos) {
            Ok((b, k)) => Ok((Some(b), k)),
            Err(m) => Err(m),
        },
    }
}

pub open spec fn bound_exprs(v: Seq<Expression>, p: BindParams, pos: int) -> Result<(Seq<SExpr>, int), Seq<char>>
    decreases v,
{
    if v.len() == 0 {
        Ok((seq![], pos))
    } else {
        match bound_expr(v[0], p, pos) {
            Err(m) => Err(m),
            Ok((e, k)) => prepend(seq![e], bound_exprs(v.subrange(1, v.len() as int), p, k)),
        }
    }
}

pub open spec fn bound_branches(v: Seq<(Expression, Expression)>, p: BindParams, pos: int) -> Result<
    (Seq<(SExpr, SExpr)>, int),
    Seq<char>,
>
    decreases v,
{
    if v.len() == 0 {
        Ok((seq![], pos))
    } else {
        match bound_expr(v[0].0, p, pos) {
            Err(m) => Err(m),
            Ok((c, k1)) => match bound_expr(v[0].1, p, k1) {
                Err(m) => Err(m),
                Ok((x, k2)) => prepend(seq![(c, x)], bound_branches(v.subrange(1, v.len() as int), p, k2)),
            },
        }
    }
}

pub open spec fn bound_expr(e: Expression, p: BindParams, pos: int) -> Result<(SExpr, int), Seq<char>>
    decreases e,
{
    match e {
        Expression::BindParameter(Some(name)) => match named_lookup(p.named@, lowercase(name@)) {
            Some(v) => Ok((value_expr(v), pos)),
            None => Err(missing_named_message(name@)),
        },
        Expression::BindParameter(None) => if 0 <= pos < p.positional@.len() {
            Ok((value_expr(p.positional@[pos]), pos + 1))
        } else {
            Err(missing_positional_message())
        },
        Expression::FunctionCall { name, args } => match bound_exprs(args@, p, pos) {
            Ok((a, k)) => Ok((SExpr::FunctionCall { name: strs_v(name@), args: a }, k)),
            Err(m) => Err(m),
        },
        Expression::Subquery(q) => match bound_query(*q, p, pos) {
            Ok((b, k)) => Ok((SExpr::Subquery(Box::new(b)), k)),
            Err(m) => Err(m),
        },
        Expression::Case { branches, else_expr } => match bound_branches(branches@, p, pos) {
            Err(m) => Err(m),
            Ok((bs, k1)) => match else_expr {
                None => Ok((SExpr::Case { branches: bs, else_expr: None }, k1)),
                Some(x) => match bound_expr(*x, p, k1) {
                    Ok((b, k2)) => Ok((SExpr::Case { branches: bs, else_expr: Some(Box::new(b)) }, k2)),
                    Err(m) => Err(m),
                },
            },
        },
        Expression::Paren(x) => match bound_expr(*x, p, pos) {
            Ok((b, k)) => Ok((SExpr::Paren(Box::new(b)), k)),
            Err(m) => Err(m),
        },
        Expression::Unary { op, expr } => match bound_expr(*expr, p, pos) {
            Ok((b, k)) => Ok((SExpr::Unary { op, expr: Box::new(b) }, k)),
            Err(m) => Err(m),
        },
        Expression::Binary { left, op, right } => match bound_expr(*left, p, pos) {
            Err(m) => Err(m),
            Ok((l, k1)) => match bound_expr(*right, p, k1) {
                Ok((r, k2)) => Ok((SExpr::Binary { left: Box::new(l), op, right: Box::new(r) }, k2)),
                Err(m) => Err(m),
            },
        },
        Expression::IsNull { expr, negated } => match bound_expr(*expr, p, pos) {
            Ok((b, k)) => Ok((SExpr::IsNull { expr: Box::new(b), negated }, k)),
            Err(m) => Err(m),
        },
        _ => Ok((expr_v(e), pos)),
    }
}

// ---------------------------------------------------------------------------
// Queries without placeholders.
// ---------------------------------------------------------------------------
pub open spec fn free_query(q: Query) -> bool
    decreases q,
{
    match q.kind {
        QueryKind::Select(s) => free_select(s),
        QueryKind::Union { left, right, .. } => free_query(*left) && free_query(*right),
    }
}

pub open spec fn free_select(s: SelectStatement) -> bool
    decreases s,
{
    free_items(s.projection@) && free_tables(s.from@) && free_opt(s.where_clause) && free_exprs(s.group_by@)
        && free_opt(s.having) && free_orders(s.order_by@)
}

pub open spec fn free_items(v: Seq<SelectItem>) -> bool
    decreases v,
{
    v.len() == 0 || (free_expr(v[0].expr) && free_items(v.subrange(1, v.len() as int)))
}

pub open spec fn free_tables(v: Seq<TableRef>) -> bool
    decreases v,
{
    v.len() == 0 || (free_table(v[0]) && free_tables(v.subrange(1, v.len() as int)))
}

pub open spec fn free_table(t: TableRef) -> bool
    decreases t,
{
    (match t.source {
        TableSource::Named(_) => true,
        TableSource::Subquery(q) => free_query(*q),
    }) && free_joins(t.joins@)
}

pub open spec fn free_joins(v: Seq<JoinClause>) -> bool
    decreases v,
{
    v.len() == 0 || (free_table(v[0].table) && free_opt(v[0].on) && free_joins(v.subrange(1, v.len() as int)))
}

pub open spec fn free_orders(v: Seq<OrderByItem>) -> bool
    decreases v,
{
    v.len() == 0 || (free_expr(v[0].expr) && free_orders(v.subrange(1, v.len() as int)))
}

pub open spec fn free_opt(o: Option<Expression>) -> bool
    decreases o,
{
    match o {
        Some(e) => free_expr(e),
        None => true,
    }
}

pub open spec fn free_exprs(v: Seq<Expression>) -> bool
    decreases v,
{
    v.len() == 0 || (free_expr(v[0]) && free_exprs(v.subrange(1, v.len() as int)))
}

pub open spec fn free_branches(v: Seq<(Expression, Expression)>) -> bool
    decreases v,
{
    v.len() == 0 || (free_expr(v[0].0) && free_expr(v[0].1) && free_branches(v.subrange(1, v.len() as int)))
}

/// An expression with no `?` or `:name` placeholder in it (subqueries
/// included).
pub open spec fn free_expr(e: Expression) -> bool
    decreases e,
{
    match e {
        Expression::BindParameter(_) => false,
        Expression::FunctionCall { args, .. } => free_exprs(args@),
        Expression::Subquery(q) => free_query(*q),
        Expression::Case { branches, else_expr } => free_branches(branches@) && match else_expr {
            Some(x) => free_expr(*x),
            None => true,
        },
        Expression::Paren(x) => free_expr(*x),
        Expression::Unary { expr, .. } => free_expr(*expr),
        Expression::Binary { left, right, .. } => free_expr(*left) && free_expr(*right),
        Expression::IsNull { expr, .. } => free_expr(*expr),
        _ => true,
    }
}

proof fn lemma_free_query(q: Query, p: BindParams, pos: int)
    requires
        free_query(q),
    ensures
        bound_query(q, p, pos) == Ok::<(SQuery, int), Seq<char>>((query_v(q), pos)),
    decreases q,
{
    match q.kind {
        QueryKind::Select(s) => lemma_free_select(s, p, pos),
        QueryKind::Union { left, right, .. } => {
            lemma_free_query(*left, p, pos);
            lemma_free_query(*right, p, pos);
        },
    }
}

proof fn lemma_free_select(s: SelectStatement, p: BindParams, pos: int)
    requires
        free_select(s),
    ensures
        bound_select(s, p, pos) == Ok::<(SSelect, int), Seq<char>>((crate::qoq::ast::select_v(s), pos)),
    decreases s,
{
    lemma_free_items(s.projection@, p, pos);
    lemma_free_tables(s.from@, p, pos);
    lemma_free_opt(s.where_clause, p, pos);
    lemma_free_exprs(s.group_by@, p, pos);
    lemma_free_opt(s.having, p, pos);
    lemma_free_orders(s.order_by@, p, pos);
}

proof fn lemma_free_items(v: Seq<SelectItem>, p: BindParams, pos: int)
    requires
        free_items(v),
    ensures
        bound_items(v, p, pos) == Ok::<(Seq<SItem>, int), Seq<char>>((items_v(v), pos)),
    decreases v,
{
    if v.len() > 0 {
        lemma_free_expr(v[0].expr, p, pos);
        lemma_free_items(v.subrange(1, v.len() as int), p, pos);
    }
}

proof fn lemma_free_tables(v: Seq<TableRef>, p: BindParams, pos: int)
    requires
        free_tables(v),
    ensures
        bound_tables(v, p, pos) == Ok::<(Seq<STable>, int), Seq<char>>((tables_v(v), pos)),
    decreases v,
{
    if v.len() > 0 {
        lemma_free_table(v[0], p, pos);
        lemma_free_tables(v.subrange(1, v.len() as int), p, pos);
    }
}

proof fn lemma_free_table(t: TableRef, p: BindParams, pos: int)
    requires
        free_table(t),
    ensures
        bound_table(t, p, pos) == Ok::<(STable, int), Seq<char>>((table_v(t), pos)),
    decreases t,
{
    if let TableSource::Subquery(q) = t.source {
        lemma_free_query(*q, p, pos);
    }
    lemma_free_joins(t.joins@, p, pos);
}

proof fn lemma_free_joins(v: Seq<JoinClause>, p: BindParams, pos: int)
    requires
        free_joins(v),
    ensures
        bound_joins(v, p, pos) == Ok::<(Seq<SJoin>, int), Seq<char>>((joins_v(v), pos)),
    decreases v,
{
    if v.len() > 0 {
        lemma_free_table(v[0].table, p, pos);
        lemma_free_opt(v[0].on, p, pos);
        lemma_free_joins(v.subrange(1, v.len() as int), p, pos);
    }
}

proof fn lemma_free_orders(v: Seq<OrderByItem>, p: BindParams, pos: int)
    requires
        free_orders(v),
    ensures
        bound_orders(v, p, pos) == Ok::<(Seq<SOrder>, int), Seq<char>>((orders_v(v), pos)),
    decreases v,
{
    if v.len() > 0 {
        lemma_free_expr(v[0].expr, p, pos);
        lemma_free_orders(v.subrange(1, v.len() as int), p, pos);
    }
}

proof fn lemma_free_opt(o: Option<Expression>, p: BindParams, pos: int)
    requires
        free_opt(o),
    ensures
        bound_opt(o, p, pos) == Ok::<(Option<SExpr>, int), Seq<char>>((crate::qoq::ast::opt_expr_v(o), pos)),
    decreases o,
{
    if let Some(e) = o {
        lemma_free_expr(e, p, pos);
    }
}

proof fn lemma_free_exprs(v: Seq<Expression>, p: BindParams, pos: int)
    requires
        free_exprs(v),
    ensures
        bound_exprs(v, p, pos) == Ok::<(Seq<SExpr>, int), Seq<char>>((exprs_v(v), pos)),
    decreases v,
{
    if v.len() > 0 {
        lemma_free_expr(v[0], p, pos);
        lemma_free_exprs(v.subrange(1, v.len() as int), p, pos);
    }
}

proof fn lemma_free_branches(v: Seq<(Expression, Expression)>, p: BindParams, pos: int)
    requires
        free_branches(v),
    ensures
        bound_branches(v, p, pos) == Ok::<(Seq<(SExpr, SExpr)>, int), Seq<char>>((branches_v(v), pos)),
    decreases v,
{
    if v.len() > 0 {
        lemma_free_expr(v[0].0, p, pos);
        lemma_free_expr(v[0].1, p, pos);
        lemma_free_branches(v.subrange(1, v.len() as int), p, pos);
    }
}

proof fn lemma_free_expr(e: Expression, p: BindParams, pos: int)
    requires
        free_expr(e),
    ensures
        bound_expr(e, p, pos) == Ok::<(SExpr, int), Seq<char>>((expr_v(e), pos)),
    decreases e,
{
    match e {
        Expression::FunctionCall { args, .. } => lemma_free_exprs(args@, p, pos),
        Expression::Subquery(q) => lemma_free_query(*q, p, pos),
        Expression::Case { branches, else_expr } => {
            lemma_free_branches(branches@, p, pos);
            if let Some(x) = else_expr {
                lemma_free_expr(*x, p, pos);
            }
        },
        Expression::Paren(x) => lemma_free_expr(*x, p, pos),
        Expression::Unary { expr, .. } => lemma_free_expr(*expr, p, pos),
        Expression::Binary { left, right, .. } => {
            lemma_free_expr(*left, p, pos);
            lemma_free_expr(*right, p, pos);
        },
        Expression::IsNull { expr, .. } => lemma_free_expr(*expr, p, pos),
        _ => {},
    }
}

/// Binding a query without placeholders gives the query back unchanged,
/// whatever the parameters.
pub proof fn lemma_bind_without_placeholders(q: Query, p: BindParams)
    requires
        free_query(q),
    ensures
        bound_query(q, p, 0) == Ok::<(SQuery, int), Seq<char>>((q@, 0)),
{
    lemma_free_query(q, p, 0);
}

// ---------------------------------------------------------------------------
// Views of grown lists.
// ---------------------------------------------------------------------------
proof fn lemma_prepend_assoc<T>(a: Seq<T>, b: Seq<T>, r: Result<(Seq<T>, int), Seq<char>>)
    ensures
        prepend(a, prepend(b, r)) == prepend(a + b, r),
{
    if let Ok((xs, k)) = r {
        assert(a + (b + xs) =~= (a + b) + xs);
    }
}

proof fn lemma_prepend_done<T>(a: Seq<T>, k: int)
    ensures
        prepend(a, Ok((Seq::<T>::empty(), k))) == Ok::<(Seq<T>, int), Seq<char>>((a, k)),
{
    assert(a + Seq::<T>::empty() =~= a);
}

proof fn lemma_exprs_push(a: Seq<Expression>, x: Expression)
    ensures
        exprs_v(a.push(x)) == exprs_v(a).push(expr_v(x)),
    decreases a.len(),
{
    if a.len() == 0 {
        assert(a.push(x) =~= seq![x] + a);
        lemma_exprs_cons(x, a);
        assert(exprs_v(a) =~= seq![]);
    } else {
        let t = a.drop_first();
        lemma_exprs_push(t, x);
        assert(a.push(x) =~= seq![a[0]] + t.push(x));
        lemma_exprs_cons(a[0], t.push(x));
        assert(a =~= seq![a[0]] + t);
        lemma_exprs_cons(a[0], t);
    }
}

proof fn lemma_items_push(a: Seq<SelectItem>, x: SelectItem)
    ensures
        items_v(a.push(x)) == items_v(a).push(item_v(x)),
    decreases a.len(),
{
    if a.len() == 0 {
        assert(a.push(x) =~= seq![x] + a);
        lemma_items_cons(x, a);
        assert(items_v(a) =~= seq![]);
    } else {
        let t = a.drop_first();
        lemma_items_push(t, x);
        assert(a.push(x) =~= seq![a[0]] + t.push(x));
        lemma_items_cons(a[0], t.push(x));
        assert(a =~= seq![a[0]] + t);
        lemma_items_cons(a[0], t);
    }
}

proof fn lemma_tables_push(a: Seq<TableRef>, x: TableRef)
    ensures
        tables_v(a.push(x)) == tables_v(a).push(table_v(x)),
    decreases a.len(),
{
    if a.len() == 0 {
        assert(a.push(x) =~= seq![x] + a);
        lemma_tables_cons(x, a);
        assert(tables_v(a) =~= seq![]);
    } else {
        let t = a.drop_first();
        lemma_tables_push(t, x);
        assert(a.push(x) =~= seq![a[0]] + t.push(x));
        lemma_tables_cons(a[0], t.push(x));
        assert(a =~= seq![a[0]] + t);
        lemma_tables_cons(a[0], t);
    }
}

proof fn lemma_joins_push(a: Seq<JoinClause>, x: JoinClause)
    ensures
        joins_v(a.push(x)) == joins_v(a).push(join_v(x)),
    decreases a.len(),
{
    if a.len() == 0 {
        assert(a.push(x) =~= seq![x] + a);
        lemma_joins_cons(x, a);
        assert(joins_v(a) =~= seq![]);
    } else {
        let t = a.drop_first();
        lemma_joins_push(t, x);
        assert(a.push(x) =~= seq![a[0]] + t.push(x));
        lemma_joins_cons(a[0], t.push(x));
        assert(a =~= seq![a[0]] + t);
        lemma_joins_cons(a[0], t);
    }
}

proof fn lemma_orders_push(a: Seq<OrderByItem>, x: OrderByItem)
    ensures
        orders_v(a.push(x)) == orders_v(a).push(SOrder { expr: expr_v(x.expr), descending: x.descending }),
    decreases a.len(),
{
    if a.len() == 0 {
        assert(a.push(x) =~= seq![x] + a);
        lemma_orders_cons(x, a);
        assert(orders_v(a) =~= seq![]);
    } else {
        let t = a.drop_first();
        lemma_orders_push(t, x);
        assert(a.push(x) =~= seq![a[0]] + t.push(x));
        lemma_orders_cons(a[0], t.push(x));
        assert(a =~= seq![a[0]] + t);
        lemma_orders_cons(a[0], t);
    }
}

proof fn lemma_branches_push(a: Seq<(Expression, Expression)>, x: (Expression, Expression))
    ensures
        branches_v(a.push(x)) == branches_v(a).push((expr_v(x.0), expr_v(x.1))),
    decreases a.len(),
{
    if a.len() == 0 {
        assert(a.push(x) =~= seq![x] + a);
        lemma_branches_cons(x, a);
        assert(branches_v(a) =~= seq![]);
    } else {
        let t = a.drop_first();
        lemma_branches_push(t, x);
        assert(a.push(x) =~= seq![a[0]] + t.push(x));
        lemma_branches_cons(a[0], t.push(x));
        assert(a =~= seq![a[0]] + t);
        lemma_branches_cons(a[0], t);
    }
}

// ---------------------------------------------------------------------------
// Values.
// ---------------------------------------------------------------------------
fn clone_opt_str(o: &Option<String>) -> (r: Option<String>)
    ensures
        opt_str_v(r) == opt_str_v(*o),
{
    match o {
        Some(s) => Some(s.clone()),
        None => None,
    }
}

/// The entry bound under `key` (see `named_lookup`).
fn lookup_named<'a>(named: &'a Vec<(String, SqlValue)>, key: &str) -> (r: Option<&'a SqlValue>)
    ensures
        match r {
            Some(v) => named_lookup(named@, key@) == Some(*v),
            None => named_lookup(named@, key@) is None,
        },
{
    let mut i: usize = 0;
    assert(named@.skip(0) =~= named@);
    while i < named.len()
        invariant
            i <= named@.len(),
            named_lookup(named@, key@) == named_lookup(named@.skip(i as int), key@),
        decreases named.len() - i,
    {
        assert(named@.skip(i as int)[0] == named@[i as int]);
        assert(named@.skip(i as int).drop_first() =~= named@.skip(i + 1));
        if crate::text::str_eq(named[i].0.as_str(), key) {
            return Some(&named[i].1);
        }
        i = i + 1;
    }
    None
}

/// The literal a value is bound as (see `value_expr`).
pub fn sql_value_to_expression(value: &SqlValue) -> (e: Expression)
    ensures
        e@ == value_expr(*value),
{
    match value {
        SqlValue::Null => Expression::Null,
        SqlValue::Bool(b) => Expression::Boolean(*b),
        SqlValue::Int(i) => Expression::Number(i64_text(*i)),
        SqlValue::Float(f) => Expression::Number(strip_point_zero_exec(f)),
        SqlValue::Text(s) => Expression::String(s.clone()),
        SqlValue::Bytes(b) => Expression::String(from_utf8_lossy(b)),
    }
}

fn missing_named(name: &String) -> (m: String)
    ensures
        m@ == missing_named_message(name@),
{
    let mut m = "missing named QoQ parameter '".to_owned();
    m.append(name.as_str());
    m.append("'");
    m
}

proof fn lemma_named_lookup_update(named: Seq<(String, SqlValue)>, i: int, key: String, value: SqlValue, k: Seq<char>)
    requires
        0 <= i < named.len(),
        named[i].0@ == key@,
        forall|j: int| 0 <= j < i ==> (#[trigger] named[j]).0@ != key@,
    ensures
        named_lookup(named.update(i, (key, value)), k) == if k == key@ {
            Some(value)
        } else {
            named_lookup(named, k)
        },
    decreases i,
{
    let u = named.update(i, (key, value));
    if i > 0 {
        assert forall|j: int| 0 <= j < i - 1 implies (#[trigger] named.drop_first()[j]).0@ != key@ by {
            assert(named.drop_first()[j] == named[j + 1]);
        }
        lemma_named_lookup_update(named.drop_first(), i - 1, key, value, k);
        assert(u.drop_first() =~= named.drop_first().update(i - 1, (key, value)));
        assert(u[0] == named[0]);
    } else {
        assert(u.drop_first() =~= named.drop_first());
    }
}

proof fn lemma_named_lookup_push(named: Seq<(String, SqlValue)>, key: String, value: SqlValue, k: Seq<char>)
    requires
        forall|j: int| 0 <= j < named.len() ==> (#[trigger] named[j]).0@ != key@,
    ensures
        named_lookup(named.push((key, value)), k) == if k == key@ {
            Some(value)
        } else {
            named_lookup(named, k)
        },
    decreases named.len(),
{
    let u = named.push((key, value));
    if named.len() > 0 {
        assert forall|j: int| 0 <= j < named.len() - 1 implies (#[trigger] named.drop_first()[j]).0@ != key@ by {
            assert(named.drop_first()[j] == named[j + 1]);
        }
        lemma_named_lookup_push(named.drop_first(), key, value, k);
        assert(u.drop_first() =~= named.drop_first().push((key, value)));
        assert(u[0] == named[0]);
        assert(named_lookup(u, k) == if u[0].0@ == k { Some(u[0].1) } else { named_lookup(u.drop_first(), k) });
        assert(named_lookup(named, k) == if named[0].0@ == k { Some(named[0].1) } else { named_lookup(named.drop_first(), k) });
        if named[0].0@ == k {
            assert(k != key@);
        }
    } else {
        assert(u[0] == (key, value));
        assert(u.drop_first() =~= Seq::<(String, SqlValue)>::empty());
        assert(named_lookup(u, k) == if u[0].0@ == k { Some(u[0].1) } else { named_lookup(u.drop_first(), k) });
    }
}

impl BindParams {
    /// No parameters.
    pub fn new() -> (p: Self)
        ensures
            p.positional@.len() == 0,
            p.named@.len() == 0,
    {
        BindParams { positional: Vec::new(), named: Vec::new() }
    }

    /// Binds `key` to `value`, replacing the value bound to it before; a
    /// placeholder `:name` reads the key equal to its lowercase form.
    pub fn insert_named(&mut self, key: String, value: SqlValue)
        ensures
            final(self).positional == old(self).positional,
            forall|k: Seq<char>|
                #![trigger named_lookup(final(self).named@, k)]
                named_lookup(final(self).named@, k) == if k == key@ {
                    Some(value)
                } else {
                    named_lookup(old(self).named@, k)
                },
    {
        let mut i: usize = 0;
        while i < self.named.len()
            invariant
                i <= self.named@.len(),
                self.named@ == old(self).named@,
                self.positional == old(self).positional,
                forall|j: int| 0 <= j < i ==> (#[trigger] self.named@[j]).0@ != key@,
            decreases self.named.len() - i,
        {
            if self.named[i].0 == key {
                proof {
                    assert forall|k: Seq<char>| #[trigger] named_lookup(self.named@.update(i as int, (key, value)), k) == if k == key@ {
                        Some(value)
                    } else {
                        named_lookup(self.named@, k)
                    } by {
                        lemma_named_lookup_update(self.named@, i as int, key, value, k);
                    }
                }
                self.named.set(i, (key, value));
                return;
            }
            i = i + 1;
        }
        proof {
            assert forall|k: Seq<char>| #[trigger] named_lookup(self.named@.push((key, value)), k) == if k == key@ {
                Some(value)
            } else {
                named_lookup(self.named@, k)
            } by {
                lemma_named_lookup_push(self.named@, key, value, k);
            }
        }
        self.named.push((key, value));
    }
}

impl Default for BindParams {
    fn default() -> (p: Self)
        ensures
            p.positional@.len() == 0,
            p.named@.len() == 0,
    {
        BindParams::new()
    }
}

// ---------------------------------------------------------------------------
// Binding.
// ---------------------------------------------------------------------------
/// The query with every placeholder replaced by the literal of its value,
/// or the error for the first placeholder without one.
pub fn bind_params(query: &Query, params: &BindParams) -> (r: Result<Query, ExecutionError>)
    ensures
        match bound_query(*query, *params, 0) {
            Ok((b, _)) => r matches Ok(x) && x@ == b,
            Err(m) => r matches Err(err) && err.message@ == m && err.span is None,
        },
{
    let mut positional: usize = 0;
    bind_query(query, params, &mut positional)
}

fn bind_query(query: &Query, params: &BindParams, positional: &mut usize) -> (r: Result<Query, ExecutionError>)
    ensures
        match bound_query(*query, *params, *old(positional) as int) {
            Ok((b, k)) => r matches Ok(x) && x@ == b && *final(positional) as int == k,
            Err(m) => r matches Err(err) && err.message@ == m && err.span is None,
        },
    decreases query,
{
    match &query.kind {
        QueryKind::Select(select) => match bind_select(select, params, positional) {
            Ok(s) => Ok(Query { kind: QueryKind::Select(s), span: query.span }),
            Err(e) => Err(e),
        },
        QueryKind::Union { left, all, right } => {
            let l = match bind_query(left, params, positional) {
                Ok(l) => l,
                Err(e) => {
                    return Err(e);
                },
            };
            let r = match bind_query(right, params, positional) {
                Ok(r) => r,
                Err(e) => {
                    return Err(e);
                },
            };
            Ok(Query { kind: QueryKind::Union { left: Box::new(l), all: *all, right: Box::new(r) }, span: query.span })
        },
    }
}

fn bind_select(select: &SelectStatement, params: &BindParams, positional: &mut usize) -> (r: Result<
    SelectStatement,
    ExecutionError,
>)
    ensures
        match bound_select(*select, *params, *old(positional) as int) {
            Ok((b, k)) => r matches Ok(x) && crate::qoq::ast::select_v(x) == b && *final(positional) as int == k,
            Err(m) => r matches Err(err) && err.message@ == m && err.span is None,
        },
    decreases select,
{
    let projection = match bind_select_items(&select.projection, params, positional) {
        Ok(v) => v,
        Err(e) => {
            return Err(e);
        },
    };
    let from = match bind_table_refs(&select.from, params, positional) {
        Ok(v) => v,
        Err(e) => {
            return Err(e);
        },
    };
    let where_clause = match bind_opt(&select.where_clause, params, positional) {
        Ok(v) => v,
        Err(e) => {
            return Err(e);
        },
    };
    let group_by = match bind_expressions(&select.group_by, params, positional) {
        Ok(v) => v,
        Err(e) => {
            return Err(e);
        },
    };
    let having = match bind_opt(&select.having, params, positional) {
        Ok(v) => v,
        Err(e) => {
            return Err(e);
        },
    };
    let order_by = match bind_order_by_items(&select.order_by, params, positional) {
        Ok(v) => v,
        Err(e) => {
            return Err(e);
        },
    };
    Ok(SelectStatement {
        distinct: select.distinct,
        projection,
        from,
        where_clause,
        group_by,
        having,
        order_by,
        limit: select.limit,
    })
}

fn bind_select_item(item: &SelectItem, params: &BindParams, positional: &mut usize) -> (r: Result<SelectItem, ExecutionError>)
    ensures
        match bound_expr(item.expr, *params, *old(positional) as int) {
            Ok((b, k)) => r matches Ok(x) && item_v(x) == (SItem { expr: b, alias: opt_str_v(item.alias) }) && *final(positional) as int == k,
            Err(m) => r matches Err(err) && err.message@ == m && err.span is None,
        },
    decreases item,
{
    match bind_expression(&item.expr, params, positional) {
        Ok(e) => Ok(SelectItem { expr: e, alias: clone_opt_str(&item.alias) }),
        Err(e) => Err(e),
    }
}

fn bind_table_ref(table: &TableRef, params: &BindParams, positional: &mut usize) -> (r: Result<TableRef, ExecutionError>)
    ensures
        match bound_table(*table, *params, *old(positional) as int) {
            Ok((b, k)) => r matches Ok(x) && table_v(x) == b && *final(positional) as int == k,
            Err(m) => r matches Err(err) && err.message@ == m && err.span is None,
        },
    decreases table,
{
    let source = match &table.source {
        TableSource::Named(path) => TableSource::Named(clone_strs(path)),
        TableSource::Subquery(query) => match bind_query(query, params, positional) {
            Ok(q) => TableSource::Subquery(Box::new(q)),
            Err(e) => {
                return Err(e);
            },
        },
    };
    let joins = match bind_join_clauses(&table.joins, params, positional) {
        Ok(v) => v,
        Err(e) => {
            return Err(e);
        },
    };
    Ok(TableRef { source, alias: clone_opt_str(&table.alias), joins })
}

fn bind_join_clause(join: &JoinClause, params: &BindParams, positional: &mut usize) -> (r: Result<JoinClause, ExecutionError>)
    ensures
        match bound_table(join.table, *params, *old(positional) as int) {
            Ok((t, k1)) => match bound_opt(join.on, *params, k1) {
                Ok((on, k2)) => r matches Ok(x) && join_v(x) == (SJoin { kind: join.kind, table: t, on }) && *final(positional) as int == k2,
                Err(m) => r matches Err(err) && err.message@ == m && err.span is None,
            },
            Err(m) => r matches Err(err) && err.message@ == m && err.span is None,
        },
    decreases join,
{
    let table = match bind_table_ref(&join.table, params, positional) {
        Ok(t) => t,
        Err(e) => {
            return Err(e);
        },
    };
    let on = match bind_opt(&join.on, params, positional) {
        Ok(o) => o,
        Err(e) => {
            return Err(e);
        },
    };
    Ok(JoinClause { kind: join.kind, table, on })
}

fn bind_order_by_item(item: &OrderByItem, params: &BindParams, positional: &mut usize) -> (r: Result<OrderByItem, ExecutionError>)
    ensures
        match bound_expr(item.expr, *params, *old(positional) as int) {
            Ok((b, k)) => r matches Ok(x) && expr_v(x.expr) == b && x.descending == item.descending && *final(positional) as int == k,
            Err(m) => r matches Err(err) && err.message@ == m && err.span is None,
        },
    decreases item,
{
    match bind_expression(&item.expr, params, positional) {
        Ok(e) => Ok(OrderByItem { expr: e, descending: item.descending }),
        Err(e) => Err(e),
    }
}

fn bind_opt(o: &Option<Expression>, params: &BindParams, positional: &mut usize) -> (r: Result<Option<Expression>, ExecutionError>)
    ensures
        match bound_opt(*o, *params, *old(positional) as int) {
            Ok((b, k)) => r matches Ok(x) && crate::qoq::ast::opt_expr_v(x) == b && *final(positional) as int == k,
            Err(m) => r matches Err(err) && err.message@ == m && err.span is None,
        },
    decreases o,
{
    match o {
        None => Ok(None),
        Some(e) => match bind_expression(e, params, positional) {
            Ok(b) => Ok(Some(b)),
            Err(err) => Err(err),
        },
    }
}

fn bind_branch(branch: &(Expression, Expression), params: &BindParams, positional: &mut usize) -> (r: Result<(Expression, Expression), ExecutionError>)
    ensures
        match bound_expr(branch.0, *params, *old(positional) as int) {
            Ok((c, k1)) => match bound_expr(branch.1, *params, k1) {
                Ok((v, k2)) => r matches Ok(x) && (expr_v(x.0), expr_v(x.1)) == (c, v) && *final(positional) as int == k2,
                Err(m) => r matches Err(err) && err.message@ == m && err.span is None,
            },
            Err(m) => r matches Err(err) && err.message@ == m && err.span is None,
        },
    decreases branch,
{
    let c = match bind_expression(&branch.0, params, positional) {
        Ok(c) => c,
        Err(e) => {
            return Err(e);
        },
    };
    let v = match bind_expression(&branch.1, params, positional) {
        Ok(v) => v,
        Err(e) => {
            return Err(e);
        },
    };
    Ok((c, v))
}

fn bind_expression(expr: &Expression, params: &BindParams, positional: &mut usize) -> (r: Result<Expression, ExecutionError>)
    ensures
        match bound_expr(*expr, *params, *old(positional) as int) {
            Ok((b, k)) => r matches Ok(x) && x@ == b && *final(positional) as int == k,
            Err(m) => r matches Err(err) && err.message@ == m && err.span is None,
        },
    decreases expr,
{
    match expr {
        Expression::BindParameter(Some(name)) => {
            let key = to_lowercase(name.as_str());
            match lookup_named(&params.named, key.as_str()) {
                Some(value) => Ok(sql_value_to_expression(value)),
                None => Err(ExecutionError { message: missing_named(name), span: None }),
            }
        },
        Expression::BindParameter(None) => {
            if *positional < params.positional.len() {
                let e = sql_value_to_expression(&params.positional[*positional]);
                *positional = *positional + 1;
                Ok(e)
            } else {
                Err(ExecutionError { message: "missing positional QoQ parameter".to_owned(), span: None })
            }
        },
        Expression::FunctionCall { name, args } => match bind_expressions(args, params, positional) {
            Ok(a) => Ok(Expression::FunctionCall { name: clone_strs(name), args: a }),
            Err(e) => Err(e),
        },
        Expression::Subquery(query) => match bind_query(query, params, positional) {
            Ok(q) => Ok(Expression::Subquery(Box::new(q))),
            Err(e) => Err(e),
        },
        Expression::Case { branches, else_expr } => {
            let bs = match bind_branches(branches, params, positional) {
                Ok(b) => b,
                Err(e) => {
                    return Err(e);
                },
            };
            match else_expr {
                None => Ok(Expression::Case { branches: bs, else_expr: None }),
                Some(x) => match bind_expression(x, params, positional) {
                    Ok(b) => Ok(Expression::Case { branches: bs, else_expr: Some(Box::new(b)) }),
                    Err(e) => Err(e),
                },
            }
        },
        Expression::Paren(inner) => match bind_expression(inner, params, positional) {
            Ok(b) => Ok(Expression::Paren(Box::new(b))),
            Err(e) => Err(e),
        },
        Expression::Unary { op, expr: inner } => match bind_expression(inner, params, positional) {
            Ok(b) => Ok(Expression::Unary { op: *op, expr: Box::new(b) }),
            Err(e) => Err(e),
        },
        Expression::Binary { left, op, right } => {
            let l = match bind_expression(left, params, positional) {
                Ok(l) => l,
                Err(e) => {
                    return Err(e);
                },
            };
            match bind_expression(right, params, positional) {
                Ok(r) => Ok(Expression::Binary { left: Box::new(l), op: *op, right: Box::new(r) }),
                Err(e) => Err(e),
            }
        },
        Expression::IsNull { expr: inner, negated } => match bind_expression(inner, params, positional) {
            Ok(b) => Ok(Expression::IsNull { expr: Box::new(b), negated: *negated }),
            Err(e) => Err(e),
        },
        Expression::Identifier(parts) => Ok(Expression::Identifier(clone_strs(parts))),
        Expression::String(s) => Ok(Expression::String(s.clone())),
        Expression::Number(n) => Ok(Expression::Number(n.clone())),
        Expression::Boolean(b) => Ok(Expression::Boolean(*b)),
        Expression::Null => Ok(Expression::Null),
        Expression::OdbcDateTime(s) => Ok(Expression::OdbcDateTime(s.clone())),
        Expression::Star => Ok(Expression::Star),
        Expression::QualifiedStar(parts) => Ok(Expression::QualifiedStar(clone_strs(parts))),
    }
}

fn bind_expressions(v: &Vec<Expression>, params: &BindParams, positional: &mut usize) -> (r: Result<Vec<Expression>, ExecutionError>)
    ensures
        match bound_exprs(v@, *params, *old(positional) as int) {
            Ok((b, k)) => r matches Ok(x) && exprs_v(x@) == b && *final(positional) as int == k,
            Err(m) => r matches Err(err) && err.message@ == m && err.span is None,
        },
    decreases v,
{
    let ghost p0 = *positional as int;
    let mut out: Vec<Expression> = Vec::new();
    let n = v.len();
    assert(v@.subrange(0, n as int) =~= v@);
    assert(exprs_v(out@) =~= seq![]);
    assert(prepend(Seq::empty(), bound_exprs(v@, *params, p0)) == bound_exprs(v@, *params, p0));
    let mut i: usize = 0;
    while i < n
        invariant
            n == v@.len(),
            i <= n,
            p0 == *old(positional) as int,
            bound_exprs(v@, *params, p0) == prepend(exprs_v(out@), bound_exprs(v@.subrange(i as int, n as int), *params, *positional as int)),
        decreases n - i,
    {
        let ghost rest = v@.subrange(i as int, n as int);
        assert(rest[0] == v@[i as int]);
        assert(rest.subrange(1, rest.len() as int) =~= v@.subrange(i + 1, n as int));
        let ghost out0 = out@;
        let ghost pi = *positional as int;
        match bind_expression(&v[i], params, positional) {
            Ok(x) => {
                proof {
                    lemma_exprs_push(out0, x);
                    lemma_prepend_assoc(exprs_v(out0), seq![expr_v(x)], bound_exprs(v@.subrange(i + 1, n as int), *params, *positional as int));
                    assert(exprs_v(out0) + seq![expr_v(x)] =~= exprs_v(out0).push(expr_v(x)));
                }
                out.push(x);
            },
            Err(e) => {
                assert(rest.len() > 0);
                return Err(e);
            },
        }
        i = i + 1;
    }
    proof {
        lemma_prepend_done(exprs_v(out@), *positional as int);
    }
    Ok(out)
}

fn bind_select_items(v: &Vec<SelectItem>, params: &BindParams, positional: &mut usize) -> (r: Result<Vec<SelectItem>, ExecutionError>)
    ensures
        match bound_items(v@, *params, *old(positional) as int) {
            Ok((b, k)) => r matches Ok(x) && items_v(x@) == b && *final(positional) as int == k,
            Err(m) => r matches Err(err) && err.message@ == m && err.span is None,
        },
    decreases v,
{
    let ghost p0 = *positional as int;
    let mut out: Vec<SelectItem> = Vec::new();
    let n = v.len();
    assert(v@.subrange(0, n as int) =~= v@);
    assert(items_v(out@) =~= seq![]);
    assert(prepend(Seq::empty(), bound_items(v@, *params, p0)) == bound_items(v@, *params, p0));
    let mut i: usize = 0;
    while i < n
        invariant
            n == v@.len(),
            i <= n,
            p0 == *old(positional) as int,
            bound_items(v@, *params, p0) == prepend(items_v(out@), bound_items(v@.subrange(i as int, n as int), *params, *positional as int)),
        decreases n - i,
    {
        let ghost rest = v@.subrange(i as int, n as int);
        assert(rest[0] == v@[i as int]);
        assert(rest.subrange(1, rest.len() as int) =~= v@.subrange(i + 1, n as int));
        let ghost out0 = out@;
        let ghost pi = *positional as int;
        match bind_select_item(&v[i], params, positional) {
            Ok(x) => {
                proof {
                    lemma_items_push(out0, x);
                    lemma_prepend_assoc(items_v(out0), seq![item_v(x)], bound_items(v@.subrange(i + 1, n as int), *params, *positional as int));
                    assert(items_v(out0) + seq![item_v(x)] =~= items_v(out0).push(item_v(x)));
                }
                out.push(x);
            },
            Err(e) => {
                assert(rest.len() > 0);
                return Err(e);
            },
        }
        i = i + 1;
    }
    proof {
        lemma_prepend_done(items_v(out@), *positional as int);
    }
    Ok(out)
}

fn bind_table_refs(v: &Vec<TableRef>, params: &BindParams, positional: &mut usize) -> (r: Result<Vec<TableRef>, ExecutionError>)
    ensures
        match bound_tables(v@, *params, *old(positional) as int) {
            Ok((b, k)) => r matches Ok(x) && tables_v(x@) == b && *final(positional) as int == k,
            Err(m) => r matches Err(err) && err.message@ == m && err.span is None,
        },
    decreases v,
{
    let ghost p0 = *positional as int;
    let mut out: Vec<TableRef> = Vec::new();
    let n = v.len();
    assert(v@.subrange(0, n as int) =~= v@);
    assert(tables_v(out@) =~= seq![]);
    assert(prepend(Seq::empty(), bound_tables(v@, *params, p0)) == bound_tables(v@, *params, p0));
    let mut i: usize = 0;
    while i < n
        invariant
            n == v@.len(),
            i <= n,
            p0 == *old(positional) as int,
            bound_tables(v@, *params, p0) == prepend(tables_v(out@), bound_tables(v@.subrange(i as int, n as int), *params, *positional as int)),
        decreases n - i,
    {
        let ghost rest = v@.subrange(i as int, n as int);
        assert(rest[0] == v@[i as int]);
        assert(rest.subrange(1, rest.len() as int) =~= v@.subrange(i + 1, n as int));
        let ghost out0 = out@;
        let ghost pi = *positional as int;
        match bind_table_ref(&v[i], params, positional) {
            Ok(x) => {
                proof {
                    lemma_tables_push(out0, x);
                    lemma_prepend_assoc(tables_v(out0), seq![table_v(x)], bound_tables(v@.subrange(i + 1, n as int), *params, *positional as int));
                    assert(tables_v(out0) + seq![table_v(x)] =~= tables_v(out0).push(table_v(x)));
                }
                out.push(x);
            },
            Err(e) => {
                assert(rest.len() > 0);
                return Err(e);
            },
        }
        i = i + 1;
    }
    proof {
        lemma_prepend_done(tables_v(out@), *positional as int);
    }
    Ok(out)
}

fn bind_join_clauses(v: &Vec<JoinClause>, params: &BindParams, positional: &mut usize) -> (r: Result<Vec<JoinClause>, ExecutionError>)
    ensures
        match bound_joins(v@, *params, *old(positional) as int) {
            Ok((b, k)) => r matches Ok(x) && joins_v(x@) == b && *final(positional) as int == k,
            Err(m) => r matches Err(err) && err.message@ == m && err.span is None,
        },
    decreases v,
{
    let ghost p0 = *positional as int;
    let mut out: Vec<JoinClause> = Vec::new();
    let n = v.len();
    assert(v@.subrange(0, n as int) =~= v@);
    assert(joins_v(out@) =~= seq![]);
    assert(prepend(Seq::empty(), bound_joins(v@, *params, p0)) == bound_joins(v@, *params, p0));
    let mut i: usize = 0;
    while i < n
        invariant
            n == v@.len(),
            i <= n,
            p0 == *old(positional) as int,
            bound_joins(v@, *params, p0) == prepend(joins_v(out@), bound_joins(v@.subrange(i as int, n as int), *params, *positional as int)),
        decreases n - i,
    {
        let ghost rest = v@.subrange(i as int, n as int);
        assert(rest[0] == v@[i as int]);
        assert(rest.subrange(1, rest.len() as int) =~= v@.subrange(i + 1, n as int));
        let ghost out0 = out@;
        let ghost pi = *positional as int;
        match bind_join_clause(&v[i], params, positional) {
            Ok(x) => {
                proof {
                    lemma_joins_push(out0, x);
                    lemma_prepend_assoc(joins_v(out0), seq![join_v(x)], bound_joins(v@.subrange(i + 1, n as int), *params, *positional as int));
                    assert(joins_v(out0) + seq![join_v(x)] =~= joins_v(out0).push(join_v(x)));
                }
                out.push(x);
            },
            Err(e) => {
                assert(rest.len() > 0);
                return Err(e);
            },
        }
        i = i + 1;
    }
    proof {
        lemma_prepend_done(joins_v(out@), *positional as int);
    }
    Ok(out)
}

fn bind_order_by_items(v: &Vec<OrderByItem>, params: &BindParams, positional: &mut usize) -> (r: Result<Vec<OrderByItem>, ExecutionError>)
    ensures
        match bound_orders(v@, *params, *old(positional) as int) {
            Ok((b, k)) => r matches Ok(x) && orders_v(x@) == b && *final(positional) as int == k,
            Err(m) => r matches Err(err) && err.message@ == m && err.span is None,
        },
    decreases v,
{
    let ghost p0 = *positional as int;
    let mut out: Vec<OrderByItem> = Vec::new();
    let n = v.len();
    assert(v@.subrange(0, n as int) =~= v@);
    assert(orders_v(out@) =~= seq![]);
    assert(prepend(Seq::empty(), bound_orders(v@, *params, p0)) == bound_orders(v@, *params, p0));
    let mut i: usize = 0;
    while i < n
        invariant
            n == v@.len(),
            i <= n,
            p0 == *old(positional) as int,
            bound_orders(v@, *params, p0) == prepend(orders_v(out@), bound_orders(v@.subrange(i as int, n as int), *params, *positional as int)),
        decreases n - i,
    {
        let ghost rest = v@.subrange(i as int, n as int);
        assert(rest[0] == v@[i as int]);
        assert(rest.subrange(1, rest.len() as int) =~= v@.subrange(i + 1, n as int));
        let ghost out0 = out@;
        let ghost pi = *positional as int;
        match bind_order_by_item(&v[i], params, positional) {
            Ok(x) => {
                proof {
                    lemma_orders_push(out0, x);
                    lemma_prepend_assoc(orders_v(out0), seq![SOrder { expr: expr_v(x.expr), descending: x.descending }], bound_orders(v@.subrange(i + 1, n as int), *params, *positional as int));
                    assert(orders_v(out0) + seq![SOrder { expr: expr_v(x.expr), descending: x.descending }] =~= orders_v(out0).push(SOrder { expr: expr_v(x.expr), descending: x.descending }));
                }
                out.push(x);
            },
            Err(e) => {
                assert(rest.len() > 0);
                return Err(e);
            },
        }
        i = i + 1;
    }
    proof {
        lemma_prepend_done(orders_v(out@), *positional as int);
    }
    Ok(out)
}

fn bind_branches(v: &Vec<(Expression, Expression)>, params: &BindParams, positional: &mut usize) -> (r: Result<Vec<(Expression, Expression)>, ExecutionError>)
    ensures
        match bound_branches(v@, *params, *old(positional) as int) {
            Ok((b, k)) => r matches Ok(x) && branches_v(x@) == b && *final(positional) as int == k,
            Err(m) => r matches Err(err) && err.message@ == m && err.span is None,
        },
    decreases v,
{
    let ghost p0 = *positional as int;
    let mut out: Vec<(Expression, Expression)> = Vec::new();
    let n = v.len();
    assert(v@.subrange(0, n as int) =~= v@);
    assert(branches_v(out@) =~= seq![]);
    assert(prepend(Seq::empty(), bound_branches(v@, *params, p0)) == bound_branches(v@, *params, p0));
    let mut i: usize = 0;
    while i < n
        invariant
            n == v@.len(),
            i <= n,
            p0 == *old(positional) as int,
            bound_branches(v@, *params, p0) == prepend(branches_v(out@), bound_branches(v@.subrange(i as int, n as int), *params, *positional as int)),
        decreases n - i,
    {
        let ghost rest = v@.subrange(i as int, n as int);
        assert(rest[0] == v@[i as int]);
        assert(rest.subrange(1, rest.len() as int) =~= v@.subrange(i + 1, n as int));
        let ghost out0 = out@;
        let ghost pi = *positional as int;
        match bind_branch(&v[i], params, positional) {
            Ok(x) => {
                proof {
                    lemma_branches_push(out0, x);
                    lemma_prepend_assoc(branches_v(out0), seq![(expr_v(x.0), expr_v(x.1))], bound_branches(v@.subrange(i + 1, n as int), *params, *positional as int));
                    assert(branches_v(out0) + seq![(expr_v(x.0), expr_v(x.1))] =~= branches_v(out0).push((expr_v(x.0), expr_v(x.1))));
                }
                out.push(x);
            },
            Err(e) => {
                assert(rest.len() > 0);
                return Err(e);
            },
        }
        i = i + 1;
    }
    proof {
        lemma_prepend_done(branches_v(out@), *positional as int);
    }
    Ok(out)
}

} // verus!
