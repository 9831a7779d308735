//! Traversals of the syntax tree: the node visit order, the top-level
//! expressions of every clause, and every table reference.
use vstd::prelude::*;
use crate::qoq::ast::{
    Query, QueryKind, SelectStatement, SelectItem, TableRef, TableSource, JoinClause, OrderByItem,
    Expression,
};

verus! {

broadcast use {vstd::std_specs::vec::axiom_vec_decreases_to_view, vstd::seq::axiom_seq_subrange_decreases, vstd::seq::axiom_seq_index_decreases};

pub open spec fn opt_seq<T>(o: Option<T>) -> Seq<T> {
    match o {
        Some(x) => seq![x],
        None => seq![],
    }
}

/// The top-level expressions of a query's clauses, in clause order
/// (projection, FROM subqueries and join conditions, WHERE, GROUP BY,
/// HAVING, ORDER BY); union branches left to right.
pub open spec fn query_exprs(q: Query) -> Seq<Expression>
    decreases q,
{
    match q.kind {
        QueryKind::Select(s) => select_exprs(s),
        QueryKind::Union { left, right, .. } => query_exprs(*left) + query_exprs(*right),
    }
}

pub open spec fn select_exprs(s: SelectStatement) -> Seq<Expression>
    decreases s,
{
    s.projection@.map_values(|i: SelectItem| i.expr) + tables_exprs(s.from@) + opt_seq(
        s.where_clause,
    ) + s.group_by@ + opt_seq(s.having) + s.order_by@.map_values(|o: OrderByItem| o.expr)
}

pub open spec fn tables_exprs(ts: Seq<TableRef>) -> Seq<Expression>
    decreases ts,
{
    if ts.len() == 0 {
        seq![]
    } else {
        tables_exprs(ts.subrange(0, ts.len() - 1)) + table_exprs(ts[ts.len() - 1])
    }
}

pub open spec fn table_exprs(t: TableRef) -> Seq<Expression>
    decreases t,
{
    (match t.source {
        TableSource::Subquery(q) => query_exprs(*q),
        TableSource::Named(_) => seq![],
    }) + joins_exprs(t.joins@)
}

pub open spec fn joins_exprs(js: Seq<JoinClause>) -> Seq<Expression>
    decreases js,
{
    if js.len() == 0 {
        seq![]
    } else {
        joins_exprs(js.subrange(0, js.len() - 1)) + table_exprs(js[js.len() - 1].table) + opt_seq(
            js[js.len() - 1].on,
        )
    }
}

/// Every table reference: each FROM entry, then the tables inside its
/// subquery, then its joined tables (depth first); union branches left to right.
pub open spec fn query_tables(q: Query) -> Seq<TableRef>
    decreases q,
{
    match q.kind {
        QueryKind::Select(s) => tables_tables(s.from@),
        QueryKind::Union { left, right, .. } => query_tables(*left) + query_tables(*right),
    }
}

pub open spec fn tables_tables(ts: Seq<TableRef>) -> Seq<TableRef>
    decreases ts,
{
    if ts.len() == 0 {
        seq![]
    } else {
        tables_tables(ts.subrange(0, ts.len() - 1)) + table_tables(ts[ts.len() - 1])
    }
}

pub open spec fn table_tables(t: TableRef) -> Seq<TableRef>
    decreases t,
{
    seq![t] + (match t.source {
        TableSource::Subquery(q) => query_tables(*q),
        TableSource::Named(_) => seq![],
    }) + joins_tables(t.joins@)
}

pub open spec fn joins_tables(js: Seq<JoinClause>) -> Seq<TableRef>
    decreases js,
{
    if js.len() == 0 {
        seq![]
    } else {
        joins_tables(js.subrange(0, js.len() - 1)) + table_tables(js[js.len() - 1].table)
    }
}

pub open spec fn derefs<T>(v: Seq<&T>) -> Seq<T> {
    v.map_values(|x: &T| *x)
}

impl Query {
    /// The top-level expressions of every clause (see `query_exprs`).
    pub fn expressions<'a>(&'a self) -> (r: Vec<&'a Expression>)
        ensures
            derefs(r@) == query_exprs(*self),
    {
        let mut out: Vec<&'a Expression> = Vec::new();
        collect_query_exprs(self, &mut out);
        assert(derefs(out@) =~= Seq::<Expression>::empty() + query_exprs(*self));
        out
    }

    /// Every table reference (see `query_tables`).
    pub fn tables<'a>(&'a self) -> (r: Vec<&'a TableRef>)
        ensures
            derefs(r@) == query_tables(*self),
    {
        let mut out: Vec<&'a TableRef> = Vec::new();
        collect_query_tables(self, &mut out);
        assert(derefs(out@) =~= Seq::<TableRef>::empty() + query_tables(*self));
        out
    }
}

proof fn lemma_derefs_push<T>(v: Seq<&T>, x: &T)
    ensures
        derefs(v.push(x)) == derefs(v).push(*x),
{
    assert(derefs(v.push(x)) =~= derefs(v).push(*x));
}

fn collect_query_exprs<'a>(q: &'a Query, out: &mut Vec<&'a Expression>)
    ensures
        derefs(final(out)@) == derefs(old(out)@) + query_exprs(*q),
    decreases q,
{
    match &q.kind {
        QueryKind::Select(s) => collect_select_exprs(s, out),
        QueryKind::Union { left, right, .. } => {
            let ghost o0 = derefs(out@);
            collect_query_exprs(&**left, out);
            collect_query_exprs(&**right, out);
            assert(derefs(out@) =~= o0 + query_exprs(*q));
        },
    }
}

fn push_opt<'a>(o: &'a Option<Expression>, out: &mut Vec<&'a Expression>)
    ensures
        derefs(final(out)@) == derefs(old(out)@) + opt_seq(*o),
{
    if let Some(e) = o {
        proof {
            lemma_derefs_push(out@, e);
        }
        out.push(e);
        assert(derefs(out@) =~= derefs(old(out)@) + opt_seq(*o));
    } else {
        assert(derefs(out@) =~= derefs(old(out)@) + opt_seq(*o));
    }
}

fn collect_select_exprs<'a>(s: &'a SelectStatement, out: &mut Vec<&'a Expression>)
    ensures
        derefs(final(out)@) == derefs(old(out)@) + select_exprs(*s),
    decreases s,
{
    let ghost o0 = derefs(out@);
    let mut i: usize = 0;
    while i < s.projection.len()
        invariant
            i <= s.projection@.len(),
            derefs(out@) == o0 + s.projection@.take(i as int).map_values(|it: SelectItem| it.expr),
        decreases s.projection.len() - i,
    {
        proof {
            lemma_derefs_push(out@, &s.projection@[i as int].expr);
        }
        out.push(&s.projection[i].expr);
        assert(s.projection@.take(i + 1).map_values(|it: SelectItem| it.expr) =~= s.projection@.take(
            i as int,
        ).map_values(|it: SelectItem| it.expr).push(s.projection@[i as int].expr));
        i = i + 1;
    }
    assert(s.projection@.take(i as int) =~= s.projection@);
    let ghost o1 = derefs(out@);
    let mut i: usize = 0;
    while i < s.from.len()
        invariant
            i <= s.from@.len(),
            derefs(out@) == o1 + tables_exprs(s.from@.take(i as int)),
        decreases s.from.len() - i,
    {
        let ghost before = derefs(out@);
        collect_table_exprs(&s.from[i], out);
        assert(s.from@.take(i + 1).subrange(0, i as int) =~= s.from@.take(i as int));
        assert(derefs(out@) =~= o1 + tables_exprs(s.from@.take(i + 1)));
        i = i + 1;
    }
    assert(s.from@.take(i as int) =~= s.from@);
    push_opt(&s.where_clause, out);
    let ghost o2 = derefs(out@);
    let mut i: usize = 0;
    while i < s.group_by.len()
        invariant
            i <= s.group_by@.len(),
            derefs(out@) == o2 + s.group_by@.take(i as int),
        decreases s.group_by.len() - i,
    {
        proof {
            lemma_derefs_push(out@, &s.group_by@[i as int]);
        }
        out.push(&s.group_by[i]);
        assert(s.group_by@.take(i + 1) =~= s.group_by@.take(i as int).push(s.group_by@[i as int]));
        i = i + 1;
    }
    assert(s.group_by@.take(i as int) =~= s.group_by@);
    push_opt(&s.having, out);
    let ghost o3 = derefs(out@);
    let mut i: usize = 0;
    while i < s.order_by.len()
        invariant
            i <= s.order_by@.len(),
            derefs(out@) == o3 + s.order_by@.take(i as int).map_values(|o: OrderByItem| o.expr),
        decreases s.order_by.len() - i,
    {
        proof {
            lemma_derefs_push(out@, &s.order_by@[i as int].expr);
        }
        out.push(&s.order_by[i].expr);
        assert(s.order_by@.take(i + 1).map_values(|o: OrderByItem| o.expr) =~= s.order_by@.take(
            i as int,
        ).map_values(|o: OrderByItem| o.expr).push(s.order_by@[i as int].expr));
        i = i + 1;
    }
    assert(s.order_by@.take(i as int) =~= s.order_by@);
    assert(derefs(out@) =~= o0 + select_exprs(*s));
}

fn collect_table_exprs<'a>(t: &'a TableRef, out: &mut Vec<&'a Expression>)
    ensures
        derefs(final(out)@) == derefs(old(out)@) + table_exprs(*t),
    decreases t,
{
    let ghost o0 = derefs(out@);
    if let TableSource::Subquery(q) = &t.source {
        collect_query_exprs(&**q, out);
    }
    let ghost o1 = derefs(out@);
    let mut i: usize = 0;
    while i < t.joins.len()
        invariant
            i <= t.joins@.len(),
            derefs(out@) == o1 + joins_exprs(t.joins@.take(i as int)),
        decreases t.joins.len() - i,
    {
        let j = &t.joins[i];
        collect_table_exprs(&j.table, out);
        push_opt(&j.on, out);
        assert(t.joins@.take(i + 1).subrange(0, i as int) =~= t.joins@.take(i as int));
        assert(derefs(out@) =~= o1 + joins_exprs(t.joins@.take(i + 1)));
        i = i + 1;
    }
    assert(t.joins@.take(i as int) =~= t.joins@);
    assert(derefs(out@) =~= o0 + table_exprs(*t));
}

fn collect_query_tables<'a>(q: &'a Query, out: &mut Vec<&'a TableRef>)
    ensures
        derefs(final(out)@) == derefs(old(out)@) + query_tables(*q),
    decreases q,
{
    match &q.kind {
        QueryKind::Select(s) => collect_select_tables(s, out),
        QueryKind::Union { left, right, .. } => {
            let ghost o0 = derefs(out@);
            collect_query_tables(&**left, out);
            collect_query_tables(&**right, out);
            assert(derefs(out@) =~= o0 + query_tables(*q));
        },
    }
}

fn collect_select_tables<'a>(s: &'a SelectStatement, out: &mut Vec<&'a TableRef>)
    ensures
        derefs(final(out)@) == derefs(old(out)@) + tables_tables(s.from@),
    decreases s,
{
    let ghost o0 = derefs(out@);
    let mut i: usize = 0;
    while i < s.from.len()
        invariant
            i <= s.from@.len(),
            derefs(out@) == o0 + tables_tables(s.from@.take(i as int)),
        decreases s.from.len() - i,
    {
        collect_table_tables(&s.from[i], out);
        assert(s.from@.take(i + 1).subrange(0, i as int) =~= s.from@.take(i as int));
        assert(derefs(out@) =~= o0 + tables_tables(s.from@.take(i + 1)));
        i = i + 1;
    }
    assert(s.from@.take(i as int) =~= s.from@);
}

fn collect_table_tables<'a>(t: &'a TableRef, out: &mut Vec<&'a TableRef>)
    ensures
        derefs(final(out)@) == derefs(old(out)@) + table_tables(*t),
    decreases t,
{
    let ghost o0 = derefs(out@);
    proof {
        lemma_derefs_push(out@, t);
    }
    out.push(t);
    if let TableSource::Subquery(q) = &t.source {
        collect_query_tables(&**q, out);
    }
    let ghost o1 = derefs(out@);
    let mut i: usize = 0;
    while i < t.joins.len()
        invariant
            i <= t.joins@.len(),
            derefs(out@) == o1 + joins_tables(t.joins@.take(i as int)),
        decreases t.joins.len() - i,
    {
        collect_table_tables(&t.joins[i].table, out);
        assert(t.joins@.take(i + 1).subrange(0, i as int) =~= t.joins@.take(i as int));
        assert(derefs(out@) =~= o1 + joins_tables(t.joins@.take(i + 1)));
        i = i + 1;
    }
    assert(t.joins@.take(i as int) =~= t.joins@);
    assert(derefs(out@) =~= o0 + table_tables(*t));
}

/// A node of the syntax tree, as visited by `Query::walk`.
#[derive(Debug, Clone, Copy, PartialEq)]
pub enum QueryNode<'a> {
    Query(&'a Query),
    SelectStatement(&'a SelectStatement),
    SelectItem(&'a SelectItem),
    TableRef(&'a TableRef),
    JoinClause(&'a JoinClause),
    OrderByItem(&'a OrderByItem),
    Expression(&'a Expression),
}

/// A visited node, by value.
pub enum Node {
    Query(Query),
    SelectStatement(SelectStatement),
    SelectItem(SelectItem),
    TableRef(TableRef),
    JoinClause(JoinClause),
    OrderByItem(OrderByItem),
    Expression(Expression),
}

pub open spec fn node_v(n: QueryNode) -> Node {
    match n {
        QueryNode::Query(x) => Node::Query(*x),
        QueryNode::SelectStatement(x) => Node::SelectStatement(*x),
        QueryNode::SelectItem(x) => Node::SelectItem(*x),
        QueryNode::TableRef(x) => Node::TableRef(*x),
        QueryNode::JoinClause(x) => Node::JoinClause(*x),
        QueryNode::OrderByItem(x) => Node::OrderByItem(*x),
        QueryNode::Expression(x) => Node::Expression(*x),
    }
}

pub open spec fn nodes_v(v: Seq<QueryNode>) -> Seq<Node> {
    v.map_values(|n: QueryNode| node_v(n))
}

/// Pre-order visit of a query: the query node, then its select statement
/// or its two union branches.
pub open spec fn query_nodes(q: Query) -> Seq<Node>
    decreases q,
{
    seq![Node::Query(q)] + match q.kind {
        QueryKind::Select(s) => select_nodes(s),
        QueryKind::Union { left, right, .. } => query_nodes(*left) + query_nodes(*right),
    }
}

/// The statement, then projection items, FROM tables, WHERE, GROUP BY,
/// HAVING and ORDER BY items, each visited in turn.
pub open spec fn select_nodes(s: SelectStatement) -> Seq<Node>
    decreases s,
{
    seq![Node::SelectStatement(s)] + items_nodes(s.projection@) + tables_nodes(s.from@)
        + opt_expr_nodes(s.where_clause) + exprs_nodes(s.group_by@) + opt_expr_nodes(s.having)
        + orders_nodes(s.order_by@)
}

pub open spec fn items_nodes(v: Seq<SelectItem>) -> Seq<Node>
    decreases v,
{
    if v.len() == 0 {
        seq![]
    } else {
        items_nodes(v.subrange(0, v.len() - 1)) + seq![Node::SelectItem(v[v.len() - 1])]
            + expr_nodes(v[v.len() - 1].expr)
    }
}

pub open spec fn orders_nodes(v: Seq<OrderByItem>) -> Seq<Node>
    decreases v,
{
    if v.len() == 0 {
        seq![]
    } else {
        orders_nodes(v.subrange(0, v.len() - 1)) + seq![Node::OrderByItem(v[v.len() - 1])]
            + expr_nodes(v[v.len() - 1].expr)
    }
}

pub open spec fn tables_nodes(v: Seq<TableRef>) -> Seq<Node>
    decreases v,
{
    if v.len() == 0 {
        seq![]
    } else {
        tables_nodes(v.subrange(0, v.len() - 1)) + table_nodes(v[v.len() - 1])
    }
}

pub open spec fn table_nodes(t: TableRef) -> Seq<Node>
    decreases t,
{
    seq![Node::TableRef(t)] + (match t.source {
        TableSource::Subquery(q) => query_nodes(*q),
        TableSource::Named(_) => seq![],
    }) + joins_nodes(t.joins@)
}

pub open spec fn joins_nodes(v: Seq<JoinClause>) -> Seq<Node>
    decreases v,
{
    if v.len() == 0 {
        seq![]
    } else {
        joins_nodes(v.subrange(0, v.len() - 1)) + seq![Node::JoinClause(v[v.len() - 1])]
            + table_nodes(v[v.len() - 1].table) + opt_expr_nodes(v[v.len() - 1].on)
    }
}

pub open spec fn opt_expr_nodes(o: Option<Expression>) -> Seq<Node>
    decreases o,
{
    match o {
        Some(e) => expr_nodes(e),
        None => seq![],
    }
}

pub open spec fn exprs_nodes(v: Seq<Expression>) -> Seq<Node>
    decreases v,
{
    if v.len() == 0 {
        seq![]
    } else {
        exprs_nodes(v.subrange(0, v.len() - 1)) + expr_nodes(v[v.len() - 1])
    }
}

pub open spec fn branches_nodes(v: Seq<(Expression, Expression)>) -> Seq<Node>
    decreases v,
{
    if v.len() == 0 {
        seq![]
    } else {
        branches_nodes(v.subrange(0, v.len() - 1)) + expr_nodes(v[v.len() - 1].0) + expr_nodes(
            v[v.len() - 1].1,
        )
    }
}

/// The expression, then its sub-expressions (and subquery) in source order.
pub open spec fn expr_nodes(e: Expression) -> Seq<Node>
    decreases e,
{
    seq![Node::Expression(e)] + match e {
        Expression::FunctionCall { args, .. } => exprs_nodes(args@),
        Expression::Subquery(q) => query_nodes(*q),
        Expression::Case { branches, else_expr } => branches_nodes(branches@) + match else_expr {
            Some(x) => expr_nodes(*x),
            None => seq![],
        },
        Expression::Paren(x) => expr_nodes(*x),
        Expression::Unary { expr, .. } => expr_nodes(*expr),
        Expression::IsNull { expr, .. } => expr_nodes(*expr),
        Expression::Binary { left, right, .. } => expr_nodes(*left) + expr_nodes(*right),
        _ => seq![],
    }
}

proof fn lemma_nodes_push<'a>(v: Seq<QueryNode<'a>>, x: QueryNode<'a>)
    ensures
        nodes_v(v.push(x)) == nodes_v(v).push(node_v(x)),
{
    assert(nodes_v(v.push(x)) =~= nodes_v(v).push(node_v(x)));
}

impl Query {
    /// The nodes of the tree in pre-order (see `query_nodes`).
    pub fn walk<'a>(&'a self) -> (r: Vec<QueryNode<'a>>)
        ensures
            nodes_v(r@) == query_nodes(*self),
    {
        let mut out: Vec<QueryNode<'a>> = Vec::new();
        walk_query(self, &mut out);
        assert(nodes_v(out@) =~= Seq::<Node>::empty() + query_nodes(*self));
        out
    }
}

fn walk_query<'a>(q: &'a Query, out: &mut Vec<QueryNode<'a>>)
    ensures
        nodes_v(final(out)@) == nodes_v(old(out)@) + query_nodes(*q),
    decreases q,
{
    let ghost o0 = nodes_v(out@);
    proof {
        lemma_nodes_push(out@, QueryNode::Query(q));
    }
    out.push(QueryNode::Query(q));
    match &q.kind {
        QueryKind::Select(s) => walk_select(s, out),
        QueryKind::Union { left, right, .. } => {
            walk_query(&**left, out);
            walk_query(&**right, out);
        },
    }
    assert(nodes_v(out@) =~= o0 + query_nodes(*q));
}

fn walk_opt<'a>(o: &'a Option<Expression>, out: &mut Vec<QueryNode<'a>>)
    ensures
        nodes_v(final(out)@) == nodes_v(old(out)@) + opt_expr_nodes(*o),
    decreases o,
{
    if let Some(e) = o {
        walk_expr(e, out);
    } else {
        assert(nodes_v(out@) =~= nodes_v(old(out)@) + opt_expr_nodes(*o));
    }
}

fn walk_select<'a>(s: &'a SelectStatement, out: &mut Vec<QueryNode<'a>>)
    ensures
        nodes_v(final(out)@) == nodes_v(old(out)@) + select_nodes(*s),
    decreases s,
{
    let ghost o0 = nodes_v(out@);
    proof {
        lemma_nodes_push(out@, QueryNode::SelectStatement(s));
    }
    out.push(QueryNode::SelectStatement(s));
    let ghost o1 = nodes_v(out@);
    let mut i: usize = 0;
    while i < s.projection.len()
        invariant
            i <= s.projection@.len(),
            nodes_v(out@) == o1 + items_nodes(s.projection@.take(i as int)),
        decreases s.projection.len() - i,
    {
        let it = &s.projection[i];
        proof {
            lemma_nodes_push(out@, QueryNode::SelectItem(it));
        }
        out.push(QueryNode::SelectItem(it));
        walk_expr(&it.expr, out);
        assert(s.projection@.take(i + 1).subrange(0, i as int) =~= s.projection@.take(i as int));
        assert(nodes_v(out@) =~= o1 + items_nodes(s.projection@.take(i + 1)));
        i = i + 1;
    }
    assert(s.projection@.take(i as int) =~= s.projection@);
    let ghost o2 = nodes_v(out@);
    let mut i: usize = 0;
    while i < s.from.len()
        invariant
            i <= s.from@.len(),
            nodes_v(out@) == o2 + tables_nodes(s.from@.take(i as int)),
        decreases s.from.len() - i,
    {
        walk_table(&s.from[i], out);
        assert(s.from@.take(i + 1).subrange(0, i as int) =~= s.from@.take(i as int));
        assert(nodes_v(out@) =~= o2 + tables_nodes(s.from@.take(i + 1)));
        i = i + 1;
    }
    assert(s.from@.take(i as int) =~= s.from@);
    walk_opt(&s.where_clause, out);
    let ghost o3 = nodes_v(out@);
    let mut i: usize = 0;
    while i < s.group_by.len()
        invariant
            i <= s.group_by@.len(),
            nodes_v(out@) == o3 + exprs_nodes(s.group_by@.take(i as int)),
        decreases s.group_by.len() - i,
    {
        walk_expr(&s.group_by[i], out);
        assert(s.group_by@.take(i + 1).subrange(0, i as int) =~= s.group_by@.take(i as int));
        assert(nodes_v(out@) =~= o3 + exprs_nodes(s.group_by@.take(i + 1)));
        i = i + 1;
    }
    assert(s.group_by@.take(i as int) =~= s.group_by@);
    walk_opt(&s.having, out);
    let ghost o4 = nodes_v(out@);
    let mut i: usize = 0;
    while i < s.order_by.len()
        invariant
            i <= s.order_by@.len(),
            nodes_v(out@) == o4 + orders_nodes(s.order_by@.take(i as int)),
        decreases s.order_by.len() - i,
    {
        let it = &s.order_by[i];
        proof {
            lemma_nodes_push(out@, QueryNode::OrderByItem(it));
        }
        out.push(QueryNode::OrderByItem(it));
        walk_expr(&it.expr, out);
        assert(s.order_by@.take(i + 1).subrange(0, i as int) =~= s.order_by@.take(i as int));
        assert(nodes_v(out@) =~= o4 + orders_nodes(s.order_by@.take(i + 1)));
        i = i + 1;
    }
    assert(s.order_by@.take(i as int) =~= s.order_by@);
    assert(nodes_v(out@) =~= o0 + select_nodes(*s));
}

fn walk_table<'a>(t: &'a TableRef, out: &mut Vec<QueryNode<'a>>)
    ensures
        nodes_v(final(out)@) == nodes_v(old(out)@) + table_nodes(*t),
    decreases t,
{
    let ghost o0 = nodes_v(out@);
    proof {
        lemma_nodes_push(out@, QueryNode::TableRef(t));
    }
    out.push(QueryNode::TableRef(t));
    if let TableSource::Subquery(q) = &t.source {
        walk_query(&**q, out);
    }
    let ghost o1 = nodes_v(out@);
    let mut i: usize = 0;
    while i < t.joins.len()
        invariant
            i <= t.joins@.len(),
            nodes_v(out@) == o1 + joins_nodes(t.joins@.take(i as int)),
        decreases t.joins.len() - i,
    {
        let j = &t.joins[i];
        proof {
            lemma_nodes_push(out@, QueryNode::JoinClause(j));
        }
        out.push(QueryNode::JoinClause(j));
        walk_table(&j.table, out);
        walk_opt(&j.on, out);
        assert(t.joins@.take(i + 1).subrange(0, i as int) =~= t.joins@.take(i as int));
        assert(nodes_v(out@) =~= o1 + joins_nodes(t.joins@.take(i + 1)));
        i = i + 1;
    }
    assert(t.joins@.take(i as int) =~= t.joins@);
    assert(nodes_v(out@) =~= o0 + table_nodes(*t));
}

fn walk_exprs<'a>(v: &'a Vec<Expression>, out: &mut Vec<QueryNode<'a>>)
    ensures
        nodes_v(final(out)@) == nodes_v(old(out)@) + exprs_nodes(v@),
    decreases v,
{
    let ghost o0 = nodes_v(out@);
    let mut i: usize = 0;
    while i < v.len()
        invariant
            i <= v@.len(),
            nodes_v(out@) == o0 + exprs_nodes(v@.take(i as int)),
        decreases v.len() - i,
    {
        walk_expr(&v[i], out);
        assert(v@.take(i + 1).subrange(0, i as int) =~= v@.take(i as int));
        assert(nodes_v(out@) =~= o0 + exprs_nodes(v@.take(i + 1)));
        i = i + 1;
    }
    assert(v@.take(i as int) =~= v@);
}

fn walk_branches<'a>(branches: &'a Vec<(Expression, Expression)>, out: &mut Vec<QueryNode<'a>>)
    ensures
        nodes_v(final(out)@) == nodes_v(old(out)@) + branches_nodes(branches@),
    decreases branches,
{
    let ghost o1 = nodes_v(out@);
    let mut i: usize = 0;
    while i < branches.len()
        invariant
            i <= branches@.len(),
            nodes_v(out@) == o1 + branches_nodes(branches@.take(i as int)),
        decreases branches.len() - i,
    {
        let b = &branches[i];
        proof {
            assert(decreases_to!(*branches => branches@[i as int]));
            assert(decreases_to!(branches@[i as int] => branches@[i as int].0));
            assert(decreases_to!(branches@[i as int] => branches@[i as int].1));
        }
        walk_expr(&b.0, out);
        walk_expr(&b.1, out);
        assert(branches@.take(i + 1).subrange(0, i as int) =~= branches@.take(i as int));
        assert(nodes_v(out@) =~= o1 + branches_nodes(branches@.take(i + 1)));
        i = i + 1;
    }
    assert(branches@.take(i as int) =~= branches@);
}

fn walk_expr<'a>(e: &'a Expression, out: &mut Vec<QueryNode<'a>>)
    ensures
        nodes_v(final(out)@) == nodes_v(old(out)@) + expr_nodes(*e),
    decreases e,
{
    let ghost o0 = nodes_v(out@);
    proof {
        lemma_nodes_push(out@, QueryNode::Expression(e));
    }
    out.push(QueryNode::Expression(e));
    match e {
        Expression::FunctionCall { args, .. } => walk_exprs(args, out),
        Expression::Subquery(q) => walk_query(&**q, out),
        Expression::Case { branches, else_expr } => {
            walk_branches(branches, out);
            if let Some(x) = else_expr {
                walk_expr(&**x, out);
            }
        },
        Expression::Paren(x) => walk_expr(&**x, out),
        Expression::Unary { expr, .. } => walk_expr(&**expr, out),
        Expression::IsNull { expr, .. } => walk_expr(&**expr, out),
        Expression::Binary { left, right, .. } => {
            walk_expr(&**left, out);
            walk_expr(&**right, out);
        },
        _ => {},
    }
    assert(nodes_v(out@) =~= o0 + expr_nodes(*e));
}

} // verus!
