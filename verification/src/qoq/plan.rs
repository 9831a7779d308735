//! Source-column dependency planning: which columns of which named sources a
//! query reads, and for what.
use vstd::prelude::*;
use crate::text::{
    ci_eq, lowercase, lex_lt, to_lowercase, eq_ignore_ascii_case, str_eq, str_lt, clone_strs,
    lemma_lex_lt_asym, lemma_lex_lt_trans, lemma_lex_lt_total,
};
use crate::qoq::ast::{
    Query, QueryKind, SelectStatement, SelectItem, TableRef, TableSource, JoinClause, OrderByItem,
    Expression, strs_v,
};

verus! {

broadcast use {
    vstd::std_specs::vec::axiom_vec_decreases_to_view,
    vstd::seq::axiom_seq_subrange_decreases,
    vstd::seq::axiom_seq_index_decreases,
    vstd::seq::Seq::lemma_filter_push,
};

/// What a column is read for.
#[derive(Debug, Clone, Copy, PartialEq, Eq, Structural, PartialOrd, Ord, Hash)]
pub enum SourceColumnUsage {
    Projection,
    Where,
    GroupBy,
    Having,
    OrderBy,
    Aggregate,
    JoinOn,
}

/// Every usage, in declaration order (the order of `Ord`).
pub open spec fn all_usages() -> Seq<SourceColumnUsage> {
    seq![
        SourceColumnUsage::Projection,
        SourceColumnUsage::Where,
        SourceColumnUsage::GroupBy,
        SourceColumnUsage::Having,
        SourceColumnUsage::OrderBy,
        SourceColumnUsage::Aggregate,
        SourceColumnUsage::JoinOn,
    ]
}

pub open spec fn usage_rank(u: SourceColumnUsage) -> int {
    match u {
        SourceColumnUsage::Projection => 0,
        SourceColumnUsage::Where => 1,
        SourceColumnUsage::GroupBy => 2,
        SourceColumnUsage::Having => 3,
        SourceColumnUsage::OrderBy => 4,
        SourceColumnUsage::Aggregate => 5,
        SourceColumnUsage::JoinOn => 6,
    }
}

/// The usages of a set, in ascending order.
pub open spec fn usage_seq(s: Set<SourceColumnUsage>) -> Seq<SourceColumnUsage> {
    all_usages().filter(|u: SourceColumnUsage| s.contains(u))
}

/// One required column of a source.
#[derive(Debug, Clone, PartialEq, Eq)]
pub struct SourceColumnRequirement {
    pub name: String,
    pub usages: Vec<SourceColumnUsage>,
}

/// What a query needs of one named source.
#[derive(Debug, Clone, PartialEq, Eq)]
pub struct SourceColumnDependency {
    pub source_path: Vec<String>,
    pub alias: String,
    pub all_columns_required: bool,
    pub columns: Vec<SourceColumnRequirement>,
}

/// The column dependencies of a query, per named source. When
/// `safe_for_pruning` is false some reference could not be tied to a single
/// source, and no source may be narrowed to its listed columns.
#[derive(Debug, Clone, PartialEq, Eq)]
pub struct SourceColumnDependencyPlan {
    pub sources: Vec<SourceColumnDependency>,
    pub safe_for_pruning: bool,
}

// ---------------------------------------------------------------------------
// The planning state, mathematically.
// ---------------------------------------------------------------------------
/// A recorded column: the spelling first seen and the usages so far.
pub struct ColumnState {
    pub name: Seq<char>,
    pub usages: Set<SourceColumnUsage>,
}

/// A source: its path, alias, whether every column is needed, and its
/// columns keyed by their lowercase name.
pub struct SourceState {
    pub path: Seq<Seq<char>>,
    pub alias: Seq<char>,
    pub all: bool,
    pub columns: Map<Seq<char>, ColumnState>,
}

pub struct PlanState {
    pub sources: Seq<SourceState>,
    pub safe: bool,
}

/// A table of a FROM clause, bound to the source it reads.
pub struct BindingState {
    pub idx: int,
    pub path: Seq<Seq<char>>,
    pub alias: Seq<char>,
}

pub open spec fn initial_state() -> PlanState {
    PlanState { sources: seq![], safe: true }
}

/// Paths equal part by part, ignoring ASCII case.
pub open spec fn paths_ci_eq(a: Seq<Seq<char>>, b: Seq<Seq<char>>) -> bool {
    a.len() == b.len() && forall|i: int| 0 <= i < a.len() ==> ci_eq(#[trigger] a[i], b[i])
}

pub open spec fn source_is(s: SourceState, path: Seq<Seq<char>>, alias: Seq<char>) -> bool {
    paths_ci_eq(s.path, path) && ci_eq(s.alias, alias)
}

pub open spec fn is_first_source(
    srcs: Seq<SourceState>,
    path: Seq<Seq<char>>,
    alias: Seq<char>,
    i: int,
) -> bool {
    &&& 0 <= i < srcs.len()
    &&& source_is(srcs[i], path, alias)
    &&& forall|j: int| 0 <= j < i ==> !source_is(#[trigger] srcs[j], path, alias)
}

/// The source for `path` and `alias`: the first that matches, else a new one
/// at the end.
pub open spec fn ensure_source(st: PlanState, path: Seq<Seq<char>>, alias: Seq<char>) -> (
    PlanState,
    int,
) {
    if exists|i: int| is_first_source(st.sources, path, alias, i) {
        (st, choose|i: int| is_first_source(st.sources, path, alias, i))
    } else {
        (
            PlanState {
                sources: st.sources.push(
                    SourceState { path, alias, all: false, columns: Map::empty() },
                ),
                safe: st.safe,
            },
            st.sources.len() as int,
        )
    }
}

/// Records one use of column `name`: its key is the lowercase name; the
/// first spelling seen is kept.
pub open spec fn record_column(
    cols: Map<Seq<char>, ColumnState>,
    name: Seq<char>,
    u: SourceColumnUsage,
) -> Map<Seq<char>, ColumnState> {
    let key = lowercase(name);
    if cols.contains_key(key) {
        cols.insert(key, ColumnState { name: cols[key].name, usages: cols[key].usages.insert(u) })
    } else {
        cols.insert(key, ColumnState { name, usages: Set::empty().insert(u) })
    }
}

pub open spec fn with_column(st: PlanState, idx: int, name: Seq<char>, u: SourceColumnUsage) -> PlanState {
    let s = st.sources[idx];
    PlanState {
        sources: st.sources.update(
            idx,
            SourceState { path: s.path, alias: s.alias, all: s.all, columns: record_column(s.columns, name, u) },
        ),
        safe: st.safe,
    }
}

pub open spec fn with_all(st: PlanState, idx: int) -> PlanState {
    let s = st.sources[idx];
    PlanState {
        sources: st.sources.update(
            idx,
            SourceState { path: s.path, alias: s.alias, all: true, columns: s.columns },
        ),
        safe: st.safe,
    }
}

pub open spec fn unsafe_state(st: PlanState) -> PlanState {
    PlanState { sources: st.sources, safe: false }
}

/// Whether a binding answers to `qualifier`: by alias or by the last part of
/// its path when the qualifier has one part, or by its whole path.
pub open spec fn binding_matches(b: BindingState, q: Seq<Seq<char>>) -> bool {
    ||| (q.len() == 1 && ci_eq(b.alias, q[0]))
    ||| (q.len() == 1 && b.path.len() > 0 && ci_eq(b.path.last(), q[0]))
    ||| paths_ci_eq(b.path, q)
}

pub open spec fn match_pred(q: Seq<Seq<char>>) -> spec_fn(BindingState) -> bool {
    |b: BindingState| binding_matches(b, q)
}

pub open spec fn matching(bs: Seq<BindingState>, q: Seq<Seq<char>>) -> Seq<BindingState> {
    bs.filter(match_pred(q))
}

/// The source and column an identifier names: a bare column belongs to the
/// only table in scope; a qualified one to the only binding its qualifier
/// matches.
pub open spec fn resolve(path: Seq<Seq<char>>, bs: Seq<BindingState>) -> Option<(int, Seq<char>)> {
    if path.len() == 1 {
        if bs.len() == 1 {
            Some((bs[0].idx, path[0]))
        } else {
            None
        }
    } else if path.len() == 0 {
        None
    } else {
        let m = matching(bs, path.drop_last());
        if m.len() == 1 {
            Some((m[0].idx, path.last()))
        } else {
            None
        }
    }
}

pub open spec fn record_identifier(
    st: PlanState,
    path: Seq<Seq<char>>,
    u: SourceColumnUsage,
    bs: Seq<BindingState>,
) -> PlanState {
    match resolve(path, bs) {
        Some((idx, col)) => with_column(st, idx, col, u),
        None => unsafe_state(st),
    }
}

pub open spec fn bound(bs: Seq<BindingState>, i: int) -> bool {
    exists|k: int| 0 <= k < bs.len() && (#[trigger] bs[k]).idx == i
}

/// Every source bound in scope needs all its columns.
pub open spec fn mark_all(st: PlanState, bs: Seq<BindingState>) -> PlanState {
    PlanState {
        sources: Seq::new(
            st.sources.len(),
            |i: int|
                if bound(bs, i) {
                    SourceState {
                        path: st.sources[i].path,
                        alias: st.sources[i].alias,
                        all: true,
                        columns: st.sources[i].columns,
                    }
                } else {
                    st.sources[i]
                },
        ),
        safe: st.safe,
    }
}

pub open spec fn record_qualified_star(
    st: PlanState,
    path: Seq<Seq<char>>,
    bs: Seq<BindingState>,
) -> PlanState {
    let m = matching(bs, path);
    if m.len() != 1 {
        mark_all(unsafe_state(st), bs)
    } else {
        with_all(st, m[0].idx)
    }
}

pub open spec fn aggregate_word(w: Seq<char>) -> bool {
    w == "count"@ || w == "sum"@ || w == "min"@ || w == "max"@ || w == "avg"@
}

/// A function name whose last part lowercases to an aggregate.
pub open spec fn aggregate_name(name: Seq<Seq<char>>) -> bool {
    name.len() > 0 && aggregate_word(lowercase(name.last()))
}

/// A function name whose last part is `count`, ignoring ASCII case.
pub open spec fn count_name(name: Seq<Seq<char>>) -> bool {
    name.len() > 0 && ci_eq(name.last(), "count"@)
}

// ---------------------------------------------------------------------------
// The walk over a query.
// ---------------------------------------------------------------------------
/// The alias a named table is bound under: its own, else the last part of
/// its path, else `query`.
pub open spec fn named_alias(alias: Option<String>, path: Seq<Seq<char>>) -> Seq<char> {
    match alias {
        Some(a) => a@,
        None => if path.len() > 0 {
            path.last()
        } else {
            "query"@
        },
    }
}

pub open spec fn plan_query(st: PlanState, q: Query) -> PlanState
    decreases q,
{
    match q.kind {
        QueryKind::Select(s) => plan_select(st, s),
        QueryKind::Union { left, right, .. } => plan_query(plan_query(st, *left), *right),
    }
}

pub open spec fn plan_select(st: PlanState, s: SelectStatement) -> PlanState
    decreases s,
{
    let (s1, bs) = bind_tables(st, seq![], s.from@);
    let s2 = join_deps_tables(s1, s.from@, bs);
    let s3 = plan_items(s2, s.projection@, bs);
    let s4 = plan_opt(s3, s.where_clause, SourceColumnUsage::Where, bs);
    let s5 = plan_exprs(s4, s.group_by@, SourceColumnUsage::GroupBy, bs);
    let s6 = plan_opt(s5, s.having, SourceColumnUsage::Having, bs);
    plan_orders(s6, s.order_by@, bs)
}

pub open spec fn bind_tables(st: PlanState, bs: Seq<BindingState>, ts: Seq<TableRef>) -> (
    PlanState,
    Seq<BindingState>,
)
    decreases ts,
{
    if ts.len() == 0 {
        (st, bs)
    } else {
        let (s1, b1) = bind_table(st, bs, ts[0]);
        bind_tables(s1, b1, ts.subrange(1, ts.len() as int))
    }
}

pub open spec fn bind_table(st: PlanState, bs: Seq<BindingState>, t: TableRef) -> (
    PlanState,
    Seq<BindingState>,
)
    decreases t,
{
    let (s1, b1) = match t.source {
        TableSource::Named(p) => {
            let path = strs_v(p@);
            let alias = named_alias(t.alias, path);
            let (s1, idx) = ensure_source(st, path, alias);
            (s1, bs.push(BindingState { idx, path, alias }))
        },
        TableSource::Subquery(q) => (plan_query(st, *q), bs),
    };
    bind_joins(s1, b1, t.joins@)
}

pub open spec fn bind_joins(st: PlanState, bs: Seq<BindingState>, js: Seq<JoinClause>) -> (
    PlanState,
    Seq<BindingState>,
)
    decreases js,
{
    if js.len() == 0 {
        (st, bs)
    } else {
        let (s1, b1) = bind_table(st, bs, js[0].table);
        bind_joins(s1, b1, js.subrange(1, js.len() as int))
    }
}

pub open spec fn join_deps_tables(st: PlanState, ts: Seq<TableRef>, bs: Seq<BindingState>) -> PlanState
    decreases ts,
{
    if ts.len() == 0 {
        st
    } else {
        join_deps_tables(join_deps(st, ts[0].joins@, bs), ts.subrange(1, ts.len() as int), bs)
    }
}

pub open spec fn join_deps(st: PlanState, js: Seq<JoinClause>, bs: Seq<BindingState>) -> PlanState
    decreases js,
{
    if js.len() == 0 {
        st
    } else {
        let s1 = plan_opt(st, js[0].on, SourceColumnUsage::JoinOn, bs);
        let s2 = join_deps(s1, js[0].table.joins@, bs);
        join_deps(s2, js.subrange(1, js.len() as int), bs)
    }
}

pub open spec fn plan_items(st: PlanState, items: Seq<SelectItem>, bs: Seq<BindingState>) -> PlanState
    decreases items,
{
    if items.len() == 0 {
        st
    } else {
        plan_items(
            plan_expr(st, items[0].expr, SourceColumnUsage::Projection, bs),
            items.subrange(1, items.len() as int),
            bs,
        )
    }
}

pub open spec fn plan_orders(st: PlanState, items: Seq<OrderByItem>, bs: Seq<BindingState>) -> PlanState
    decreases items,
{
    if items.len() == 0 {
        st
    } else {
        plan_orders(
            plan_expr(st, items[0].expr, SourceColumnUsage::OrderBy, bs),
            items.subrange(1, items.len() as int),
            bs,
        )
    }
}

pub open spec fn plan_opt(
    st: PlanState,
    o: Option<Expression>,
    u: SourceColumnUsage,
    bs: Seq<BindingState>,
) -> PlanState
    decreases o,
{
    match o {
        Some(e) => plan_expr(st, e, u, bs),
        None => st,
    }
}

pub open spec fn plan_exprs(
    st: PlanState,
    es: Seq<Expression>,
    u: SourceColumnUsage,
    bs: Seq<BindingState>,
) -> PlanState
    decreases es,
{
    if es.len() == 0 {
        st
    } else {
        plan_exprs(plan_expr(st, es[0], u, bs), es.subrange(1, es.len() as int), u, bs)
    }
}

/// The arguments of a call; an aggregate's arguments are read for the
/// clause and for the aggregate, and `count(*)`'s star reads nothing.
pub open spec fn plan_args(
    st: PlanState,
    args: Seq<Expression>,
    u: SourceColumnUsage,
    bs: Seq<BindingState>,
    agg: bool,
    cnt: bool,
) -> PlanState
    decreases args,
{
    if args.len() == 0 {
        st
    } else {
        let a = args[0];
        let s1 = if agg && cnt && a is Star {
            st
        } else if agg {
            plan_expr(plan_expr(st, a, u, bs), a, SourceColumnUsage::Aggregate, bs)
        } else {
            plan_expr(st, a, u, bs)
        };
        plan_args(s1, args.subrange(1, args.len() as int), u, bs, agg, cnt)
    }
}

pub open spec fn plan_branches(
    st: PlanState,
    brs: Seq<(Expression, Expression)>,
    u: SourceColumnUsage,
    bs: Seq<BindingState>,
) -> PlanState
    decreases brs,
{
    if brs.len() == 0 {
        st
    } else {
        let s1 = plan_expr(plan_expr(st, brs[0].0, u, bs), brs[0].1, u, bs);
        plan_branches(s1, brs.subrange(1, brs.len() as int), u, bs)
    }
}

pub open spec fn plan_expr(st: PlanState, e: Expression, u: SourceColumnUsage, bs: Seq<BindingState>) -> PlanState
    decreases e,
{
    match e {
        Expression::Identifier(p) => record_identifier(st, strs_v(p@), u, bs),
        Expression::Star => mark_all(st, bs),
        Expression::QualifiedStar(p) => record_qualified_star(st, strs_v(p@), bs),
        Expression::FunctionCall { name, args } => plan_args(
            st,
            args@,
            u,
            bs,
            aggregate_name(strs_v(name@)),
            count_name(strs_v(name@)),
        ),
        Expression::Subquery(q) => plan_query(st, *q),
        Expression::Case { branches, else_expr } => {
            let s1 = plan_branches(st, branches@, u, bs);
            match else_expr {
                Some(x) => plan_expr(s1, *x, u, bs),
                None => s1,
            }
        },
        Expression::Paren(x) => plan_expr(st, *x, u, bs),
        Expression::Unary { expr, .. } => plan_expr(st, *expr, u, bs),
        Expression::IsNull { expr, .. } => plan_expr(st, *expr, u, bs),
        Expression::Binary { left, right, .. } => plan_expr(plan_expr(st, *left, u, bs), *right, u, bs),
        _ => st,
    }
}

// ---------------------------------------------------------------------------
// What a finished plan holds.
// ---------------------------------------------------------------------------
/// The columns, in ascending order of their lowercase names, are exactly the
/// recorded ones, each with its first spelling and its usages in order.
pub open spec fn columns_describe(cs: Seq<SourceColumnRequirement>, m: Map<Seq<char>, ColumnState>) -> bool {
    &&& forall|i: int|
        0 <= i < cs.len() ==> {
            let k = lowercase((#[trigger] cs[i]).name@);
            &&& m.contains_key(k)
            &&& m[k].name == cs[i].name@
            &&& cs[i].usages@ == usage_seq(m[k].usages)
        }
    &&& forall|k: Seq<char>|
        m.contains_key(k) ==> exists|i: int| 0 <= i < cs.len() && lowercase((#[trigger] cs[i]).name@) == k
    &&& forall|i: int, j: int|
        0 <= i < j < cs.len() ==> lex_lt(lowercase((#[trigger] cs[i]).name@), lowercase((#[trigger] cs[j]).name@))
}

pub open spec fn dependency_describes(d: SourceColumnDependency, s: SourceState) -> bool {
    &&& strs_v(d.source_path@) == s.path
    &&& d.alias@ == s.alias
    &&& d.all_columns_required == s.all
    &&& columns_describe(d.columns@, s.columns)
}

pub open spec fn plan_describes(p: SourceColumnDependencyPlan, st: PlanState) -> bool {
    &&& p.safe_for_pruning == st.safe
    &&& p.sources@.len() == st.sources.len()
    &&& forall|i: int| 0 <= i < st.sources.len() ==> dependency_describes(#[trigger] p.sources@[i], st.sources[i])
}

/// No two sources answer to the same path and alias.
pub open spec fn distinct_sources(srcs: Seq<SourceState>) -> bool {
    forall|i: int, j: int|
        0 <= i < srcs.len() && 0 <= j < srcs.len() && i != j ==> !source_is(
            #[trigger] srcs[i],
            (#[trigger] srcs[j]).path,
            srcs[j].alias,
        )
}

// ---------------------------------------------------------------------------
// Bindings.
// ---------------------------------------------------------------------------
#[derive(Debug)]
struct SourceBinding {
    source_idx: usize,
    source_path: Vec<String>,
    alias: String,
}

spec fn binding_v(b: SourceBinding) -> BindingState {
    BindingState { idx: b.source_idx as int, path: strs_v(b.source_path@), alias: b.alias@ }
}

spec fn binds_v(bs: Seq<SourceBinding>) -> Seq<BindingState> {
    bs.map_values(|b: SourceBinding| binding_v(b))
}

spec fn bind_refs_v(bs: Seq<&SourceBinding>) -> Seq<BindingState> {
    bs.map_values(|b: &SourceBinding| binding_v(*b))
}

spec fn binds_ok(bs: Seq<SourceBinding>, n: int) -> bool {
    forall|k: int| 0 <= k < bs.len() ==> (#[trigger] bs[k]).source_idx < n
}

proof fn lemma_ci_eq_sym(a: Seq<char>, b: Seq<char>)
    ensures
        ci_eq(a, b) == ci_eq(b, a),
{
}

proof fn lemma_paths_sym(a: Seq<Seq<char>>, b: Seq<Seq<char>>)
    ensures
        paths_ci_eq(a, b) == paths_ci_eq(b, a),
{
    if paths_ci_eq(a, b) {
        assert forall|i: int| 0 <= i < b.len() implies ci_eq(#[trigger] b[i], a[i]) by {
            lemma_ci_eq_sym(a[i], b[i]);
        }
    }
    if paths_ci_eq(b, a) {
        assert forall|i: int| 0 <= i < a.len() implies ci_eq(#[trigger] a[i], b[i]) by {
            lemma_ci_eq_sym(b[i], a[i]);
        }
    }
}

/// Paths equal part by part, ignoring ASCII case.
fn path_eq(left: &Vec<String>, right: &Vec<String>) -> (r: bool)
    ensures
        r == paths_ci_eq(strs_v(left@), strs_v(right@)),
{
    if left.len() != right.len() {
        return false;
    }
    let mut i: usize = 0;
    while i < left.len()
        invariant
            i <= left@.len(),
            left@.len() == right@.len(),
            forall|j: int| 0 <= j < i ==> ci_eq(#[trigger] strs_v(left@)[j], strs_v(right@)[j]),
        decreases left.len() - i,
    {
        if !eq_ignore_ascii_case(left[i].as_str(), right[i].as_str()) {
            assert(strs_v(left@)[i as int] == left@[i as int]@);
            return false;
        }
        i = i + 1;
    }
    true
}

impl SourceBinding {
    fn matches_qualifier(&self, qualifier: &Vec<String>) -> (r: bool)
        ensures
            r == binding_matches(binding_v(*self), strs_v(qualifier@)),
    {
        if qualifier.len() == 1 && eq_ignore_ascii_case(self.alias.as_str(), qualifier[0].as_str()) {
            return true;
        }
        if qualifier.len() == 1 && self.source_path.len() > 0 && eq_ignore_ascii_case(
            self.source_path[self.source_path.len() - 1].as_str(),
            qualifier[0].as_str(),
        ) {
            return true;
        }
        path_eq(&self.source_path, qualifier)
    }
}

/// The bindings a qualifier names, in scope order.
fn matching_bindings<'a>(qualifier: &Vec<String>, bindings: &'a Vec<SourceBinding>) -> (r: Vec<
    &'a SourceBinding,
>)
    ensures
        bind_refs_v(r@) == matching(binds_v(bindings@), strs_v(qualifier@)),
        forall|i: int| 0 <= i < r@.len() ==> bindings@.contains(*#[trigger] r@[i]),
{
    let mut r: Vec<&'a SourceBinding> = Vec::new();
    let mut i: usize = 0;
    while i < bindings.len()
        invariant
            i <= bindings@.len(),
            bind_refs_v(r@) == binds_v(bindings@).take(i as int).filter(match_pred(strs_v(qualifier@))),
            forall|k: int| 0 <= k < r@.len() ==> bindings@.contains(*#[trigger] r@[k]),
        decreases bindings.len() - i,
    {
        let b = &bindings[i];
        let m = b.matches_qualifier(qualifier);
        assert(binds_v(bindings@).take(i + 1) =~= binds_v(bindings@).take(i as int).push(binding_v(*b)));
        if m {
            let ghost r0 = r@;
            r.push(b);
            assert(bind_refs_v(r@) =~= bind_refs_v(r0).push(binding_v(*b)));
            assert(bindings@[i as int] == *b);
        }
        i = i + 1;
    }
    assert(binds_v(bindings@).take(i as int) =~= binds_v(bindings@));
    r
}

/// The source index and column name an identifier resolves to.
fn resolve_identifier_binding<'a>(path: &'a Vec<String>, bindings: &'a Vec<SourceBinding>) -> (r:
    Option<(usize, &'a String)>)
    ensures
        resolve(strs_v(path@), binds_v(bindings@)) == (match r {
            Some(x) => Some((x.0 as int, x.1@)),
            None => None,
        }),
        r matches Some(x) ==> exists|k: int| 0 <= k < bindings@.len() && bindings@[k].source_idx == x.0,
{
    if path.len() == 1 {
        if bindings.len() == 1 {
            assert(binds_v(bindings@)[0] == binding_v(bindings@[0]));
            return Some((bindings[0].source_idx, &path[0]));
        }
        return None;
    }
    if path.len() == 0 {
        return None;
    }
    let mut qualifier = clone_strs(path);
    qualifier.pop();
    assert(strs_v(qualifier@) =~= strs_v(path@).drop_last());
    let matches = matching_bindings(&qualifier, bindings);
    if matches.len() == 1 {
        assert(bind_refs_v(matches@)[0] == binding_v(*matches@[0]));
        let b = matches[0];
        assert(bindings@.contains(*b));
        Some((b.source_idx, &path[path.len() - 1]))
    } else {
        None
    }
}

// ---------------------------------------------------------------------------
// Per-source builders.
// ---------------------------------------------------------------------------
#[derive(Debug)]
struct SourceColumnRequirementBuilder {
    key: String,
    name: String,
    usages: Vec<bool>,
}

#[derive(Debug)]
struct SourceColumnDependencyBuilder {
    source_path: Vec<String>,
    alias: String,
    all_columns_required: bool,
    columns: Vec<SourceColumnRequirementBuilder>,
}

/// `m` marks, by rank, the usages of `s`.
spec fn mask_of(m: Seq<bool>, s: Set<SourceColumnUsage>) -> bool {
    m.len() == 7 && forall|u: SourceColumnUsage| #[trigger] m[usage_rank(u)] == s.contains(u)
}

spec fn req_rel(c: SourceColumnRequirementBuilder, m: Map<Seq<char>, ColumnState>) -> bool {
    &&& c.key@ == lowercase(c.name@)
    &&& m.contains_key(c.key@)
    &&& m[c.key@].name == c.name@
    &&& mask_of(c.usages@, m[c.key@].usages)
}

spec fn cols_rel(cs: Seq<SourceColumnRequirementBuilder>, m: Map<Seq<char>, ColumnState>) -> bool {
    &&& forall|i: int| 0 <= i < cs.len() ==> req_rel(#[trigger] cs[i], m)
    &&& forall|k: Seq<char>| m.contains_key(k) ==> exists|i: int| 0 <= i < cs.len() && (#[trigger] cs[i]).key@ == k
    &&& forall|i: int, j: int| 0 <= i < j < cs.len() ==> lex_lt((#[trigger] cs[i]).key@, (#[trigger] cs[j]).key@)
}

spec fn dep_rel(b: SourceColumnDependencyBuilder, s: SourceState) -> bool {
    &&& strs_v(b.source_path@) == s.path
    &&& b.alias@ == s.alias
    &&& b.all_columns_required == s.all
    &&& cols_rel(b.columns@, s.columns)
}

fn usage_index(u: SourceColumnUsage) -> (r: usize)
    ensures
        r == usage_rank(u),
{
    match u {
        SourceColumnUsage::Projection => 0,
        SourceColumnUsage::Where => 1,
        SourceColumnUsage::GroupBy => 2,
        SourceColumnUsage::Having => 3,
        SourceColumnUsage::OrderBy => 4,
        SourceColumnUsage::Aggregate => 5,
        SourceColumnUsage::JoinOn => 6,
    }
}

fn usage_at(r: usize) -> (u: SourceColumnUsage)
    requires
        r < 7,
    ensures
        u == all_usages()[r as int],
        usage_rank(u) == r,
{
    if r == 0 {
        SourceColumnUsage::Projection
    } else if r == 1 {
        SourceColumnUsage::Where
    } else if r == 2 {
        SourceColumnUsage::GroupBy
    } else if r == 3 {
        SourceColumnUsage::Having
    } else if r == 4 {
        SourceColumnUsage::OrderBy
    } else if r == 5 {
        SourceColumnUsage::Aggregate
    } else {
        SourceColumnUsage::JoinOn
    }
}

/// The usages a mask marks, in ascending order.
fn usages_from_mask(mask: &Vec<bool>, Ghost(s): Ghost<Set<SourceColumnUsage>>) -> (r: Vec<SourceColumnUsage>)
    requires
        mask_of(mask@, s),
    ensures
        r@ == usage_seq(s),
{
    let mut out: Vec<SourceColumnUsage> = Vec::new();
    let mut r: usize = 0;
    while r < 7
        invariant
            r <= 7,
            mask_of(mask@, s),
            out@ == all_usages().take(r as int).filter(|u: SourceColumnUsage| s.contains(u)),
        decreases 7 - r,
    {
        let u = usage_at(r);
        assert(all_usages().take(r + 1) =~= all_usages().take(r as int).push(u));
        assert(mask@[usage_rank(u)] == s.contains(u));
        if mask[r] {
            out.push(u);
        }
        r = r + 1;
    }
    assert(all_usages().take(7) =~= all_usages());
    out
}

proof fn lemma_rank_injective(u: SourceColumnUsage, v: SourceColumnUsage)
    ensures
        usage_rank(u) == usage_rank(v) ==> u == v,
{
}

impl SourceColumnDependencyBuilder {
    /// Records one use of column `name` (see `record_column`), keeping the
    /// columns in ascending order of their keys.
    fn record_column(
        &mut self,
        name: &str,
        usage: SourceColumnUsage,
        Ghost(m): Ghost<Map<Seq<char>, ColumnState>>,
    )
        requires
            cols_rel(old(self).columns@, m),
        ensures
            cols_rel(final(self).columns@, record_column(m, name@, usage)),
            final(self).source_path == old(self).source_path,
            final(self).alias == old(self).alias,
            final(self).all_columns_required == old(self).all_columns_required,
    {
        let key = to_lowercase(name);
        let mut i: usize = 0;
        while i < self.columns.len() && str_lt(self.columns[i].key.as_str(), key.as_str())
            invariant
                i <= self.columns@.len(),
                cols_rel(self.columns@, m),
                forall|j: int| 0 <= j < i ==> lex_lt((#[trigger] self.columns@[j]).key@, key@),
            decreases self.columns.len() - i,
        {
            i = i + 1;
        }
        let ghost m2 = record_column(m, name@, usage);
        let ui = usage_index(usage);
        if i < self.columns.len() && self.columns[i].key == key {
            let ghost old_cols = self.columns@;
            let mut c = self.columns.remove(i);
            c.usages.set(ui, true);
            self.columns.insert(i, c);
            proof {
                assert(self.columns@ =~= old_cols.update(i as int, c));
                assert(m.contains_key(key@));
                assert(req_rel(c, m2)) by {
                    assert forall|u: SourceColumnUsage| #[trigger] c.usages@[usage_rank(u)] == m2[c.key@].usages.contains(u) by {
                        lemma_rank_injective(u, usage);
                    }
                }
                assert forall|j: int| 0 <= j < self.columns@.len() implies req_rel(#[trigger] self.columns@[j], m2) by {
                    if j != i {
                        assert(req_rel(old_cols[j], m));
                        assert(old_cols[j].key@ != key@) by {
                            if j < i {
                                lemma_lex_lt_asym(old_cols[j].key@, old_cols[i as int].key@);
                            } else {
                                lemma_lex_lt_asym(old_cols[i as int].key@, old_cols[j].key@);
                            }
                        }
                    }
                }
                assert forall|k: Seq<char>| m2.contains_key(k) implies exists|j: int| 0 <= j < self.columns@.len() && (#[trigger] self.columns@[j]).key@ == k by {
                    if k != key@ {
                        let j = choose|j: int| 0 <= j < old_cols.len() && (#[trigger] old_cols[j]).key@ == k;
                        assert(self.columns@[j].key@ == k);
                    } else {
                        assert(self.columns@[i as int].key@ == k);
                    }
                }
            }
        } else {
            let mut usages: Vec<bool> = vec![false, false, false, false, false, false, false];
            usages.set(ui, true);
            let c = SourceColumnRequirementBuilder { key, name: name.to_owned(), usages };
            let ghost old_cols = self.columns@;
            proof {
                assert forall|j: int| 0 <= j < old_cols.len() implies (#[trigger] old_cols[j]).key@ != key@ by {
                    if j < i {
                        lemma_lex_lt_asym(old_cols[j].key@, key@);
                    } else {
                        lemma_lex_lt_asym(key@, key@);
                        if old_cols[j].key@ == key@ {
                            if j > i {
                                assert(lex_lt(old_cols[i as int].key@, old_cols[j].key@));
                                lemma_lex_lt_total(old_cols[i as int].key@, key@);
                                lemma_lex_lt_asym(old_cols[i as int].key@, key@);
                            }
                        }
                    }
                }
                assert(!m.contains_key(key@));
                if i < old_cols.len() {
                    lemma_lex_lt_total(old_cols[i as int].key@, key@);
                }
            }
            self.columns.insert(i, c);
            proof {
                assert(self.columns@ =~= old_cols.insert(i as int, c));
                assert(req_rel(c, m2)) by {
                    assert forall|u: SourceColumnUsage| #[trigger] c.usages@[usage_rank(u)] == m2[c.key@].usages.contains(u) by {
                        lemma_rank_injective(u, usage);
                    }
                }
                assert forall|j: int| 0 <= j < self.columns@.len() implies req_rel(#[trigger] self.columns@[j], m2) by {
                    if j < i {
                        assert(req_rel(old_cols[j], m));
                    } else if j > i {
                        assert(req_rel(old_cols[j - 1], m));
                    }
                }
                assert forall|k: Seq<char>| m2.contains_key(k) implies exists|j: int| 0 <= j < self.columns@.len() && (#[trigger] self.columns@[j]).key@ == k by {
                    if k != key@ {
                        let j = choose|j: int| 0 <= j < old_cols.len() && (#[trigger] old_cols[j]).key@ == k;
                        if j < i {
                            assert(self.columns@[j].key@ == k);
                        } else {
                            assert(self.columns@[j + 1].key@ == k);
                        }
                    } else {
                        assert(self.columns@[i as int].key@ == k);
                    }
                }
                assert forall|a: int, b: int| 0 <= a < b < self.columns@.len() implies lex_lt((#[trigger] self.columns@[a]).key@, (#[trigger] self.columns@[b]).key@) by {
                    if b < i {
                    } else if a < i && b == i {
                    } else if a < i && b > i {
                        if b - 1 > i {
                            assert(lex_lt(old_cols[i as int].key@, old_cols[b - 1].key@));
                            lemma_lex_lt_trans(key@, old_cols[i as int].key@, old_cols[b - 1].key@);
                        }
                        lemma_lex_lt_trans(old_cols[a].key@, key@, old_cols[b - 1].key@);
                    } else if a == i {
                        if b - 1 > i {
                            assert(lex_lt(old_cols[i as int].key@, old_cols[b - 1].key@));
                            lemma_lex_lt_trans(key@, old_cols[i as int].key@, old_cols[b - 1].key@);
                        }
                    } else {
                        assert(lex_lt(old_cols[a - 1].key@, old_cols[b - 1].key@));
                    }
                }
            }
        }
    }

    fn finish(self, Ghost(s): Ghost<SourceState>) -> (d: SourceColumnDependency)
        requires
            dep_rel(self, s),
        ensures
            dependency_describes(d, s),
    {
        let mut cols = self.columns;
        let ghost all = cols@;
        let mut out: Vec<SourceColumnRequirement> = Vec::new();
        let mut i: usize = 0;
        let n = cols.len();
        while i < n
            invariant
                n == all.len(),
                i <= n,
                cols@ == all.skip(i as int),
                cols_rel(all, s.columns),
                out@.len() == i,
                forall|j: int| 0 <= j < i ==> {
                    &&& (#[trigger] out@[j]).name@ == all[j].name@
                    &&& out@[j].usages@ == usage_seq(s.columns[all[j].key@].usages)
                },
            decreases n - i,
        {
            let c = cols.remove(0);
            assert(c == all[i as int]);
            assert(req_rel(all[i as int], s.columns));
            let usages = usages_from_mask(&c.usages, Ghost(s.columns[c.key@].usages));
            out.push(SourceColumnRequirement { name: c.name, usages });
            assert(cols@ =~= all.skip(i + 1));
            i = i + 1;
        }
        proof {
            assert forall|a: int| 0 <= a < n implies lowercase((#[trigger] out@[a]).name@) == all[a].key@ by {
                assert(req_rel(all[a], s.columns));
            }
            assert forall|k: Seq<char>| s.columns.contains_key(k) implies exists|a: int| 0 <= a < out@.len() && lowercase((#[trigger] out@[a]).name@) == k by {
                let a = choose|a: int| 0 <= a < all.len() && (#[trigger] all[a]).key@ == k;
                assert(lowercase(out@[a].name@) == k);
            }
            assert forall|a: int| 0 <= a < out@.len() implies {
                let k = lowercase((#[trigger] out@[a]).name@);
                &&& s.columns.contains_key(k)
                &&& s.columns[k].name == out@[a].name@
                &&& out@[a].usages@ == usage_seq(s.columns[k].usages)
            } by {
                assert(req_rel(all[a], s.columns));
            }
            assert forall|a: int, b: int| 0 <= a < b < out@.len() implies lex_lt(lowercase((#[trigger] out@[a]).name@), lowercase((#[trigger] out@[b]).name@)) by {
                assert(lex_lt(all[a].key@, all[b].key@));
            }
        }
        SourceColumnDependency {
            source_path: self.source_path,
            alias: self.alias,
            all_columns_required: self.all_columns_required,
            columns: out,
        }
    }
}

// ---------------------------------------------------------------------------
// The planner.
// ---------------------------------------------------------------------------
struct SourceColumnPlanner {
    sources: Vec<SourceColumnDependencyBuilder>,
    safe_for_pruning: bool,
    state: Ghost<PlanState>,
}

impl SourceColumnPlanner {
    spec fn wf(&self) -> bool {
        &&& self.safe_for_pruning == self.state@.safe
        &&& self.sources@.len() == self.state@.sources.len()
        &&& forall|i: int| 0 <= i < self.sources@.len() ==> dep_rel(#[trigger] self.sources@[i], self.state@.sources[i])
        &&& distinct_sources(self.state@.sources)
    }

    fn new() -> (p: Self)
        ensures
            p.wf(),
            p.state@ == initial_state(),
    {
        SourceColumnPlanner { sources: Vec::new(), safe_for_pruning: true, state: Ghost(initial_state()) }
    }

    fn ensure_source(&mut self, source_path: &Vec<String>, alias: &String) -> (idx: usize)
        requires
            old(self).wf(),
        ensures
            final(self).wf(),
            (final(self).state@, idx as int) == ensure_source(old(self).state@, strs_v(source_path@), alias@),
            old(self).sources@.len() <= final(self).sources@.len(),
            idx < final(self).sources@.len(),
    {
        let ghost path = strs_v(source_path@);
        let ghost srcs = self.state@.sources;
        let mut i: usize = 0;
        while i < self.sources.len()
            invariant
                self.wf(),
                srcs == self.state@.sources,
                path == strs_v(source_path@),
                i <= self.sources@.len(),
                forall|j: int| 0 <= j < i ==> !source_is(#[trigger] srcs[j], path, alias@),
            decreases self.sources.len() - i,
        {
            assert(dep_rel(self.sources@[i as int], srcs[i as int]));
            if path_eq(&self.sources[i].source_path, source_path) && eq_ignore_ascii_case(
                self.sources[i].alias.as_str(),
                alias.as_str(),
            ) {
                proof {
                    assert(is_first_source(srcs, path, alias@, i as int));
                    let c = choose|c: int| is_first_source(srcs, path, alias@, c);
                    assert(is_first_source(srcs, path, alias@, c));
                    if c < i {
                        assert(!source_is(srcs[c], path, alias@));
                    } else if i < c {
                        assert(!source_is(srcs[i as int], path, alias@));
                    }
                }
                return i;
            }
            i = i + 1;
        }
        proof {
            assert(!exists|c: int| is_first_source(srcs, path, alias@, c));
        }
        let b = SourceColumnDependencyBuilder {
            source_path: clone_strs(source_path),
            alias: alias.clone(),
            all_columns_required: false,
            columns: Vec::new(),
        };
        let ghost ns = SourceState { path, alias: alias@, all: false, columns: Map::empty() };
        self.sources.push(b);
        self.state = Ghost(PlanState { sources: srcs.push(ns), safe: self.state@.safe });
        proof {
            assert(dep_rel(b, ns));
            assert forall|a: int| 0 <= a < self.sources@.len() implies dep_rel(#[trigger] self.sources@[a], self.state@.sources[a]) by {
                if a < srcs.len() {
                    assert(self.sources@[a] == old(self).sources@[a]);
                }
            }
            assert forall|a: int, b: int|
                0 <= a < self.state@.sources.len() && 0 <= b < self.state@.sources.len() && a != b implies !source_is(
                #[trigger] self.state@.sources[a],
                (#[trigger] self.state@.sources[b]).path,
                self.state@.sources[b].alias,
            ) by {
                if a == srcs.len() as int {
                    lemma_paths_sym(srcs[b].path, path);
                    lemma_ci_eq_sym(srcs[b].alias, alias@);
                } else if b == srcs.len() as int {
                } else {
                }
            }
        }
        i
    }

    fn set_all(&mut self, idx: usize)
        requires
            old(self).wf(),
            idx < old(self).sources@.len(),
        ensures
            final(self).wf(),
            final(self).state@ == with_all(old(self).state@, idx as int),
            final(self).sources@.len() == old(self).sources@.len(),
    {
        let ghost st = self.state@;
        let mut b = self.sources.remove(idx);
        b.all_columns_required = true;
        self.sources.insert(idx, b);
        self.state = Ghost(with_all(st, idx as int));
        proof {
            assert forall|a: int| 0 <= a < self.sources@.len() implies dep_rel(#[trigger] self.sources@[a], self.state@.sources[a]) by {
                if a != idx {
                    assert(self.sources@[a] == old(self).sources@[a]);
                }
            }
            assert(distinct_sources(self.state@.sources)) by {
                assert forall|a: int, c: int|
                    0 <= a < self.state@.sources.len() && 0 <= c < self.state@.sources.len() && a != c implies !source_is(
                    #[trigger] self.state@.sources[a],
                    (#[trigger] self.state@.sources[c]).path,
                    self.state@.sources[c].alias,
                ) by {
                    assert(!source_is(st.sources[a], st.sources[c].path, st.sources[c].alias));
                }
            }
        }
    }

    fn record_column_at(&mut self, idx: usize, name: &str, usage: SourceColumnUsage)
        requires
            old(self).wf(),
            idx < old(self).sources@.len(),
        ensures
            final(self).wf(),
            final(self).state@ == with_column(old(self).state@, idx as int, name@, usage),
            final(self).sources@.len() == old(self).sources@.len(),
    {
        let ghost st = self.state@;
        let mut b = self.sources.remove(idx);
        assert(dep_rel(b, st.sources[idx as int]));
        b.record_column(name, usage, Ghost(st.sources[idx as int].columns));
        self.sources.insert(idx, b);
        self.state = Ghost(with_column(st, idx as int, name@, usage));
        proof {
            assert forall|a: int| 0 <= a < self.sources@.len() implies dep_rel(#[trigger] self.sources@[a], self.state@.sources[a]) by {
                if a != idx {
                    assert(self.sources@[a] == old(self).sources@[a]);
                }
            }
            assert(distinct_sources(self.state@.sources)) by {
                assert forall|a: int, c: int|
                    0 <= a < self.state@.sources.len() && 0 <= c < self.state@.sources.len() && a != c implies !source_is(
                    #[trigger] self.state@.sources[a],
                    (#[trigger] self.state@.sources[c]).path,
                    self.state@.sources[c].alias,
                ) by {
                    assert(!source_is(st.sources[a], st.sources[c].path, st.sources[c].alias));
                }
            }
        }
    }

    fn mark_unsafe(&mut self)
        requires
            old(self).wf(),
        ensures
            final(self).wf(),
            final(self).state@ == unsafe_state(old(self).state@),
            final(self).sources@.len() == old(self).sources@.len(),
    {
        self.safe_for_pruning = false;
        self.state = Ghost(unsafe_state(self.state@));
    }

    fn record_identifier(&mut self, path: &Vec<String>, usage: SourceColumnUsage, bindings: &Vec<SourceBinding>)
        requires
            old(self).wf(),
            binds_ok(bindings@, old(self).sources@.len() as int),
        ensures
            final(self).wf(),
            final(self).state@ == record_identifier(old(self).state@, strs_v(path@), usage, binds_v(bindings@)),
            final(self).sources@.len() == old(self).sources@.len(),
    {
        match resolve_identifier_binding(path, bindings) {
            Some((source_idx, column_name)) => {
                assert(source_idx < self.sources@.len()) by {
                    let k = choose|k: int| 0 <= k < bindings@.len() && bindings@[k].source_idx == source_idx;
                    assert(bindings@[k].source_idx < self.sources@.len());
                }
                self.record_column_at(source_idx, column_name.as_str(), usage);
            },
            None => {
                self.mark_unsafe();
            },
        }
    }

    fn record_all_columns(&mut self, bindings: &Vec<SourceBinding>)
        requires
            old(self).wf(),
            binds_ok(bindings@, old(self).sources@.len() as int),
        ensures
            final(self).wf(),
            final(self).state@ == mark_all(old(self).state@, binds_v(bindings@)),
            final(self).sources@.len() == old(self).sources@.len(),
    {
        let ghost st0 = self.state@;
        let ghost bs = binds_v(bindings@);
        assert(mark_all(st0, bs.take(0)).sources =~= st0.sources);
        let mut k: usize = 0;
        while k < bindings.len()
            invariant
                self.wf(),
                bs == binds_v(bindings@),
                binds_ok(bindings@, st0.sources.len() as int),
                self.sources@.len() == st0.sources.len(),
                k <= bindings@.len(),
                self.state@ == mark_all(st0, bs.take(k as int)),
            decreases bindings.len() - k,
        {
            let source_idx = bindings[k].source_idx;
            assert(bindings@[k as int].source_idx < st0.sources.len());
            self.set_all(source_idx);
            proof {
                let t0 = bs.take(k as int);
                let t1 = bs.take(k + 1);
                assert(t1[k as int].idx == source_idx);
                assert forall|i: int| 0 <= i < st0.sources.len() implies bound(t1, i) == (bound(t0, i) || i == source_idx) by {
                    if bound(t1, i) {
                        let kk = choose|kk: int| 0 <= kk < t1.len() && (#[trigger] t1[kk]).idx == i;
                        if kk < k {
                            assert(t0[kk] == t1[kk]);
                        }
                    }
                    if bound(t0, i) {
                        let kk = choose|kk: int| 0 <= kk < t0.len() && (#[trigger] t0[kk]).idx == i;
                        assert(t0[kk] == t1[kk]);
                    }
                }
                assert(self.state@.sources =~= mark_all(st0, t1).sources);
            }
            k = k + 1;
        }
        assert(bs.take(k as int) =~= bs);
    }

    fn record_qualified_star(&mut self, path: &Vec<String>, bindings: &Vec<SourceBinding>)
        requires
            old(self).wf(),
            binds_ok(bindings@, old(self).sources@.len() as int),
        ensures
            final(self).wf(),
            final(self).state@ == record_qualified_star(old(self).state@, strs_v(path@), binds_v(bindings@)),
            final(self).sources@.len() == old(self).sources@.len(),
    {
        let matches = matching_bindings(path, bindings);
        if matches.len() != 1 {
            self.mark_unsafe();
            self.record_all_columns(bindings);
            return;
        }
        assert(bind_refs_v(matches@)[0] == binding_v(*matches@[0]));
        let b = matches[0];
        assert(bindings@.contains(*b));
        self.set_all(b.source_idx);
    }

    fn collect_query(&mut self, query: &Query)
        requires
            old(self).wf(),
        ensures
            final(self).wf(),
            final(self).state@ == plan_query(old(self).state@, *query),
            old(self).sources@.len() <= final(self).sources@.len(),
        decreases query,
    {
        match &query.kind {
            QueryKind::Select(select) => self.collect_select(select),
            QueryKind::Union { left, right, .. } => {
                self.collect_query(left);
                self.collect_query(right);
            },
        }
    }

    fn collect_select(&mut self, select: &SelectStatement)
        requires
            old(self).wf(),
        ensures
            final(self).wf(),
            final(self).state@ == plan_select(old(self).state@, *select),
            old(self).sources@.len() <= final(self).sources@.len(),
        decreases select,
    {
        let ghost st0 = self.state@;
        let mut bindings: Vec<SourceBinding> = Vec::new();
        let n = select.from.len();
        assert(select.from@.subrange(0, n as int) =~= select.from@);
        assert(binds_v(bindings@) =~= seq![]);
        let mut i: usize = 0;
        while i < n
            invariant
                n == select.from@.len(),
                i <= n,
                self.wf(),
                binds_ok(bindings@, self.sources@.len() as int),
                st0.sources.len() <= self.sources@.len(),
                bind_tables(self.state@, binds_v(bindings@), select.from@.subrange(i as int, n as int))
                    == bind_tables(st0, seq![], select.from@),
            decreases n - i,
        {
            let ghost rest = select.from@.subrange(i as int, n as int);
            assert(rest[0] == select.from@[i as int]);
            assert(rest.subrange(1, rest.len() as int) =~= select.from@.subrange(i + 1, n as int));
            self.collect_table_bindings(&select.from[i], &mut bindings);
            i = i + 1;
        }
        let ghost bs = binds_v(bindings@);
        let ghost s1 = self.state@;
        assert((s1, bs) == bind_tables(st0, seq![], select.from@));
        let mut i: usize = 0;
        while i < n
            invariant
                n == select.from@.len(),
                i <= n,
                self.wf(),
                bs == binds_v(bindings@),
                binds_ok(bindings@, self.sources@.len() as int),
                st0.sources.len() <= self.sources@.len(),
                join_deps_tables(self.state@, select.from@.subrange(i as int, n as int), bs)
                    == join_deps_tables(s1, select.from@, bs),
            decreases n - i,
        {
            let ghost rest = select.from@.subrange(i as int, n as int);
            assert(rest[0] == select.from@[i as int]);
            assert(rest.subrange(1, rest.len() as int) =~= select.from@.subrange(i + 1, n as int));
            self.collect_join_dependencies(&select.from[i], &bindings);
            i = i + 1;
        }
        self.collect_items(&select.projection, &bindings);
        self.collect_opt(&select.where_clause, SourceColumnUsage::Where, &bindings);
        self.collect_exprs(&select.group_by, SourceColumnUsage::GroupBy, &bindings);
        self.collect_opt(&select.having, SourceColumnUsage::Having, &bindings);
        self.collect_orders(&select.order_by, &bindings);
    }

    fn collect_table_bindings(&mut self, table: &TableRef, bindings: &mut Vec<SourceBinding>)
        requires
            old(self).wf(),
            binds_ok(old(bindings)@, old(self).sources@.len() as int),
        ensures
            final(self).wf(),
            binds_ok(final(bindings)@, final(self).sources@.len() as int),
            (final(self).state@, binds_v(final(bindings)@)) == bind_table(
                old(self).state@,
                binds_v(old(bindings)@),
                *table,
            ),
            old(self).sources@.len() <= final(self).sources@.len(),
        decreases table,
    {
        match &table.source {
            TableSource::Named(path) => {
                let alias: String = match &table.alias {
                    Some(a) => a.clone(),
                    None => if path.len() > 0 {
                        path[path.len() - 1].clone()
                    } else {
                        "query".to_owned()
                    },
                };
                assert(alias@ == named_alias(table.alias, strs_v(path@)));
                let source_idx = self.ensure_source(path, &alias);
                let ghost b0 = bindings@;
                let b = SourceBinding { source_idx, source_path: clone_strs(path), alias };
                bindings.push(b);
                assert(binds_v(bindings@) =~= binds_v(b0).push(binding_v(b)));
            },
            TableSource::Subquery(query) => {
                self.collect_query(query);
            },
        }
        let ghost st1 = self.state@;
        let ghost bs1 = binds_v(bindings@);
        let n = table.joins.len();
        assert(table.joins@.subrange(0, n as int) =~= table.joins@);
        let mut i: usize = 0;
        while i < n
            invariant
                n == table.joins@.len(),
                i <= n,
                self.wf(),
                binds_ok(bindings@, self.sources@.len() as int),
                old(self).sources@.len() <= self.sources@.len(),
                bind_joins(self.state@, binds_v(bindings@), table.joins@.subrange(i as int, n as int))
                    == bind_joins(st1, bs1, table.joins@),
            decreases n - i,
        {
            let ghost rest = table.joins@.subrange(i as int, n as int);
            assert(rest[0] == table.joins@[i as int]);
            assert(rest.subrange(1, rest.len() as int) =~= table.joins@.subrange(i + 1, n as int));
            self.collect_table_bindings(&table.joins[i].table, bindings);
            i = i + 1;
        }
    }

    fn collect_join_dependencies(&mut self, table: &TableRef, bindings: &Vec<SourceBinding>)
        requires
            old(self).wf(),
            binds_ok(bindings@, old(self).sources@.len() as int),
        ensures
            final(self).wf(),
            final(self).state@ == join_deps(old(self).state@, table.joins@, binds_v(bindings@)),
            old(self).sources@.len() <= final(self).sources@.len(),
        decreases table,
    {
        let ghost st0 = self.state@;
        let ghost bs = binds_v(bindings@);
        let n = table.joins.len();
        assert(table.joins@.subrange(0, n as int) =~= table.joins@);
        let mut i: usize = 0;
        while i < n
            invariant
                n == table.joins@.len(),
                i <= n,
                self.wf(),
                bs == binds_v(bindings@),
                binds_ok(bindings@, self.sources@.len() as int),
                st0.sources.len() <= self.sources@.len(),
                join_deps(self.state@, table.joins@.subrange(i as int, n as int), bs) == join_deps(st0, table.joins@, bs),
            decreases n - i,
        {
            let ghost rest = table.joins@.subrange(i as int, n as int);
            assert(rest[0] == table.joins@[i as int]);
            assert(rest.subrange(1, rest.len() as int) =~= table.joins@.subrange(i + 1, n as int));
            let join = &table.joins[i];
            self.collect_opt(&join.on, SourceColumnUsage::JoinOn, bindings);
            self.collect_join_dependencies(&join.table, bindings);
            i = i + 1;
        }
    }

    fn collect_opt(&mut self, expr: &Option<Expression>, usage: SourceColumnUsage, bindings: &Vec<SourceBinding>)
        requires
            old(self).wf(),
            binds_ok(bindings@, old(self).sources@.len() as int),
        ensures
            final(self).wf(),
            final(self).state@ == plan_opt(old(self).state@, *expr, usage, binds_v(bindings@)),
            old(self).sources@.len() <= final(self).sources@.len(),
        decreases expr,
    {
        if let Some(e) = expr {
            self.collect_expr(e, usage, bindings);
        }
    }

    fn collect_items(&mut self, items: &Vec<SelectItem>, bindings: &Vec<SourceBinding>)
        requires
            old(self).wf(),
            binds_ok(bindings@, old(self).sources@.len() as int),
        ensures
            final(self).wf(),
            final(self).state@ == plan_items(old(self).state@, items@, binds_v(bindings@)),
            old(self).sources@.len() <= final(self).sources@.len(),
        decreases items,
    {
        let ghost st0 = self.state@;
        let ghost bs = binds_v(bindings@);
        let n = items.len();
        assert(items@.subrange(0, n as int) =~= items@);
        let mut i: usize = 0;
        while i < n
            invariant
                n == items@.len(),
                i <= n,
                self.wf(),
                bs == binds_v(bindings@),
                binds_ok(bindings@, self.sources@.len() as int),
                st0.sources.len() <= self.sources@.len(),
                plan_items(self.state@, items@.subrange(i as int, n as int), bs) == plan_items(st0, items@, bs),
            decreases n - i,
        {
            let ghost rest = items@.subrange(i as int, n as int);
            assert(rest[0] == items@[i as int]);
            assert(rest.subrange(1, rest.len() as int) =~= items@.subrange(i + 1, n as int));
            self.collect_expr(&items[i].expr, SourceColumnUsage::Projection, bindings);
            i = i + 1;
        }
    }

    fn collect_orders(&mut self, items: &Vec<OrderByItem>, bindings: &Vec<SourceBinding>)
        requires
            old(self).wf(),
            binds_ok(bindings@, old(self).sources@.len() as int),
        ensures
            final(self).wf(),
            final(self).state@ == plan_orders(old(self).state@, items@, binds_v(bindings@)),
            old(self).sources@.len() <= final(self).sources@.len(),
        decreases items,
    {
        let ghost st0 = self.state@;
        let ghost bs = binds_v(bindings@);
        let n = items.len();
        assert(items@.subrange(0, n as int) =~= items@);
        let mut i: usize = 0;
        while i < n
            invariant
                n == items@.len(),
                i <= n,
                self.wf(),
                bs == binds_v(bindings@),
                binds_ok(bindings@, self.sources@.len() as int),
                st0.sources.len() <= self.sources@.len(),
                plan_orders(self.state@, items@.subrange(i as int, n as int), bs) == plan_orders(st0, items@, bs),
            decreases n - i,
        {
            let ghost rest = items@.subrange(i as int, n as int);
            assert(rest[0] == items@[i as int]);
            assert(rest.subrange(1, rest.len() as int) =~= items@.subrange(i + 1, n as int));
            self.collect_expr(&items[i].expr, SourceColumnUsage::OrderBy, bindings);
            i = i + 1;
        }
    }

    fn collect_exprs(&mut self, exprs: &Vec<Expression>, usage: SourceColumnUsage, bindings: &Vec<SourceBinding>)
        requires
            old(self).wf(),
            binds_ok(bindings@, old(self).sources@.len() as int),
        ensures
            final(self).wf(),
            final(self).state@ == plan_exprs(old(self).state@, exprs@, usage, binds_v(bindings@)),
            old(self).sources@.len() <= final(self).sources@.len(),
        decreases exprs,
    {
        let ghost st0 = self.state@;
        let ghost bs = binds_v(bindings@);
        let n = exprs.len();
        assert(exprs@.subrange(0, n as int) =~= exprs@);
        let mut i: usize = 0;
        while i < n
            invariant
                n == exprs@.len(),
                i <= n,
                self.wf(),
                bs == binds_v(bindings@),
                binds_ok(bindings@, self.sources@.len() as int),
                st0.sources.len() <= self.sources@.len(),
                plan_exprs(self.state@, exprs@.subrange(i as int, n as int), usage, bs) == plan_exprs(st0, exprs@, usage, bs),
            decreases n - i,
        {
            let ghost rest = exprs@.subrange(i as int, n as int);
            assert(rest[0] == exprs@[i as int]);
            assert(rest.subrange(1, rest.len() as int) =~= exprs@.subrange(i + 1, n as int));
            self.collect_expr(&exprs[i], usage, bindings);
            i = i + 1;
        }
    }

    fn collect_args(
        &mut self,
        args: &Vec<Expression>,
        usage: SourceColumnUsage,
        bindings: &Vec<SourceBinding>,
        aggregate: bool,
        count: bool,
    )
        requires
            old(self).wf(),
            binds_ok(bindings@, old(self).sources@.len() as int),
        ensures
            final(self).wf(),
            final(self).state@ == plan_args(old(self).state@, args@, usage, binds_v(bindings@), aggregate, count),
            old(self).sources@.len() <= final(self).sources@.len(),
        decreases args,
    {
        let ghost st0 = self.state@;
        let ghost bs = binds_v(bindings@);
        let n = args.len();
        assert(args@.subrange(0, n as int) =~= args@);
        let mut i: usize = 0;
        while i < n
            invariant
                n == args@.len(),
                i <= n,
                self.wf(),
                bs == binds_v(bindings@),
                binds_ok(bindings@, self.sources@.len() as int),
                st0.sources.len() <= self.sources@.len(),
                plan_args(self.state@, args@.subrange(i as int, n as int), usage, bs, aggregate, count)
                    == plan_args(st0, args@, usage, bs, aggregate, count),
            decreases n - i,
        {
            let ghost rest = args@.subrange(i as int, n as int);
            assert(rest[0] == args@[i as int]);
            assert(rest.subrange(1, rest.len() as int) =~= args@.subrange(i + 1, n as int));
            let arg = &args[i];
            let star = matches!(arg, Expression::Star);
            if !(aggregate && count && star) {
                self.collect_expr(arg, usage, bindings);
                if aggregate {
                    self.collect_expr(arg, SourceColumnUsage::Aggregate, bindings);
                }
            }
            i = i + 1;
        }
    }

    fn collect_branches(
        &mut self,
        branches: &Vec<(Expression, Expression)>,
        usage: SourceColumnUsage,
        bindings: &Vec<SourceBinding>,
    )
        requires
            old(self).wf(),
            binds_ok(bindings@, old(self).sources@.len() as int),
        ensures
            final(self).wf(),
            final(self).state@ == plan_branches(old(self).state@, branches@, usage, binds_v(bindings@)),
            old(self).sources@.len() <= final(self).sources@.len(),
        decreases branches,
    {
        let ghost st0 = self.state@;
        let ghost bs = binds_v(bindings@);
        let n = branches.len();
        assert(branches@.subrange(0, n as int) =~= branches@);
        let mut i: usize = 0;
        while i < n
            invariant
                n == branches@.len(),
                i <= n,
                self.wf(),
                bs == binds_v(bindings@),
                binds_ok(bindings@, self.sources@.len() as int),
                st0.sources.len() <= self.sources@.len(),
                plan_branches(self.state@, branches@.subrange(i as int, n as int), usage, bs)
                    == plan_branches(st0, branches@, usage, bs),
            decreases n - i,
        {
            let ghost rest = branches@.subrange(i as int, n as int);
            assert(rest[0] == branches@[i as int]);
            assert(rest.subrange(1, rest.len() as int) =~= branches@.subrange(i + 1, n as int));
            self.collect_expr(&branches[i].0, usage, bindings);
            self.collect_expr(&branches[i].1, usage, bindings);
            i = i + 1;
        }
    }

    fn collect_expr(&mut self, expr: &Expression, usage: SourceColumnUsage, bindings: &Vec<SourceBinding>)
        requires
            old(self).wf(),
            binds_ok(bindings@, old(self).sources@.len() as int),
        ensures
            final(self).wf(),
            final(self).state@ == plan_expr(old(self).state@, *expr, usage, binds_v(bindings@)),
            old(self).sources@.len() <= final(self).sources@.len(),
        decreases expr,
    {
        match expr {
            Expression::Identifier(path) => self.record_identifier(path, usage, bindings),
            Expression::Star => self.record_all_columns(bindings),
            Expression::QualifiedStar(path) => self.record_qualified_star(path, bindings),
            Expression::FunctionCall { name, args } => {
                let aggregate = is_aggregate_name(name);
                let count = is_count_name(name);
                self.collect_args(args, usage, bindings, aggregate, count);
            },
            Expression::Subquery(query) => self.collect_query(query),
            Expression::Case { branches, else_expr } => {
                self.collect_branches(branches, usage, bindings);
                if let Some(e) = else_expr {
                    self.collect_expr(e, usage, bindings);
                }
            },
            Expression::Paren(inner) => self.collect_expr(inner, usage, bindings),
            Expression::Unary { expr: inner, .. } => self.collect_expr(inner, usage, bindings),
            Expression::IsNull { expr: inner, .. } => self.collect_expr(inner, usage, bindings),
            Expression::Binary { left, right, .. } => {
                self.collect_expr(left, usage, bindings);
                self.collect_expr(right, usage, bindings);
            },
            _ => {},
        }
    }

    fn finish(self) -> (p: SourceColumnDependencyPlan)
        requires
            self.wf(),
        ensures
            plan_describes(p, self.state@),
            distinct_dependencies(p),
    {
        let ghost st = self.state@;
        let mut srcs = self.sources;
        let ghost all = srcs@;
        let n = srcs.len();
        let mut out: Vec<SourceColumnDependency> = Vec::new();
        let mut i: usize = 0;
        while i < n
            invariant
                n == all.len(),
                n == st.sources.len(),
                i <= n,
                srcs@ == all.skip(i as int),
                forall|j: int| 0 <= j < n ==> dep_rel(#[trigger] all[j], st.sources[j]),
                out@.len() == i,
                forall|j: int| 0 <= j < i ==> dependency_describes(#[trigger] out@[j], st.sources[j]),
            decreases n - i,
        {
            let b = srcs.remove(0);
            assert(b == all[i as int]);
            let d = b.finish(Ghost(st.sources[i as int]));
            out.push(d);
            assert(srcs@ =~= all.skip(i + 1));
            i = i + 1;
        }
        let p = SourceColumnDependencyPlan { sources: out, safe_for_pruning: self.safe_for_pruning };
        proof {
            assert forall|a: int, b: int| 0 <= a < b < p.sources@.len() implies !same_source(
                #[trigger] p.sources@[a],
                #[trigger] p.sources@[b],
            ) by {
                assert(dependency_describes(p.sources@[a], st.sources[a]));
                assert(dependency_describes(p.sources@[b], st.sources[b]));
                assert(!source_is(st.sources[a], st.sources[b].path, st.sources[b].alias));
            }
        }
        p
    }
}

/// Whether a function name's last part lowercases to an aggregate
/// (`count`, `sum`, `min`, `max`, `avg`).
pub fn is_aggregate_name(name: &Vec<String>) -> (r: bool)
    ensures
        r == aggregate_name(strs_v(name@)),
{
    if name.len() == 0 {
        return false;
    }
    let l = to_lowercase(name[name.len() - 1].as_str());
    let s = l.as_str();
    str_eq(s, "count") || str_eq(s, "sum") || str_eq(s, "min") || str_eq(s, "max") || str_eq(s, "avg")
}

/// Whether a function name's last part is `count`, ignoring ASCII case.
pub fn is_count_name(name: &Vec<String>) -> (r: bool)
    ensures
        r == count_name(strs_v(name@)),
{
    name.len() > 0 && eq_ignore_ascii_case(name[name.len() - 1].as_str(), "count")
}

/// Whether two dependencies answer to the same path and alias.
pub open spec fn same_source(a: SourceColumnDependency, b: SourceColumnDependency) -> bool {
    paths_ci_eq(strs_v(a.source_path@), strs_v(b.source_path@)) && ci_eq(a.alias@, b.alias@)
}

/// No two dependencies of a plan answer to the same path and alias.
pub open spec fn distinct_dependencies(p: SourceColumnDependencyPlan) -> bool {
    forall|a: int, b: int| 0 <= a < b < p.sources@.len() ==> !same_source(#[trigger] p.sources@[a], #[trigger] p.sources@[b])
}

/// The column dependencies of a whole query.
pub fn source_column_dependency_plan(query: &Query) -> (r: SourceColumnDependencyPlan)
    ensures
        plan_describes(r, plan_query(initial_state(), *query)),
        distinct_dependencies(r),
{
    let mut planner = SourceColumnPlanner::new();
    planner.collect_query(query);
    planner.finish()
}

impl SourceColumnDependencyPlan {
    /// The column dependencies of one SELECT.
    pub fn for_select(select: &SelectStatement) -> (r: Self)
        ensures
            plan_describes(r, plan_select(initial_state(), *select)),
            distinct_dependencies(r),
    {
        let mut planner = SourceColumnPlanner::new();
        planner.collect_select(select);
        planner.finish()
    }

    /// The first dependency for `source_path` under `alias`, both compared
    /// ignoring ASCII case.
    pub fn source_for(&self, source_path: &Vec<String>, alias: &str) -> (r: Option<&SourceColumnDependency>)
        ensures
            match r {
                Some(d) => exists|i: int|
                    0 <= i < self.sources@.len() && self.sources@[i] == *d && dependency_matches(*d, strs_v(source_path@), alias@)
                        && forall|j: int| 0 <= j < i ==> !dependency_matches(#[trigger] self.sources@[j], strs_v(source_path@), alias@),
                None => forall|j: int| 0 <= j < self.sources@.len() ==> !dependency_matches(#[trigger] self.sources@[j], strs_v(source_path@), alias@),
            },
    {
        let mut i: usize = 0;
        while i < self.sources.len()
            invariant
                i <= self.sources@.len(),
                forall|j: int| 0 <= j < i ==> !dependency_matches(#[trigger] self.sources@[j], strs_v(source_path@), alias@),
            decreases self.sources.len() - i,
        {
            let d = &self.sources[i];
            if path_eq(&d.source_path, source_path) && eq_ignore_ascii_case(d.alias.as_str(), alias) {
                return Some(d);
            }
            i = i + 1;
        }
        None
    }
}

/// A dependency answers to `path` and `alias`, ignoring ASCII case.
pub open spec fn dependency_matches(d: SourceColumnDependency, path: Seq<Seq<char>>, alias: Seq<char>) -> bool {
    paths_ci_eq(strs_v(d.source_path@), path) && ci_eq(d.alias@, alias)
}

} // verus!
