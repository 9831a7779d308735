//! The arithmetic-free decisions of query execution: output column names,
//! aggregate detection, the single-aggregate fast path, ORDER BY column
//! resolution, source column selection and union columns.
use vstd::prelude::*;
use crate::text::{ci_eq, lowercase, nat_text, push_nat_text, to_lowercase, eq_ignore_ascii_case, str_eq, clone_strs};
use crate::qoq::ast::{SelectStatement, SelectItem, OrderByItem, Expression, TableRef, TableSource, strs_v};
use crate::qoq::parser::{join_dot, join_dot_exec, parse_unsigned, parse_unsigned_exec};
use crate::qoq::plan::{named_alias, aggregate_name, is_aggregate_name, SourceColumnDependency, SourceColumnRequirement};
use crate::qoq::value::{SqlValue, QueryColumn, QueryColumnType, value_type, infer_query_type};
use crate::qoq::bind::ExecutionError;

verus! {

broadcast use {
    vstd::std_specs::vec::axiom_vec_decreases_to_view,
    vstd::seq::axiom_seq_subrange_decreases,
    vstd::seq::axiom_seq_index_decreases,
    vstd::seq::Seq::lemma_filter_push,
};

/// A table the executor can read: its columns, its row count and each
/// cell. Implemented by whoever supplies the data.
pub trait QuerySource {
    fn columns(&self) -> &[QueryColumn];

    fn row_count(&self) -> usize;

    fn value(&self, row_idx: usize, col_idx: usize) -> SqlValue;
}

// ---------------------------------------------------------------------------
// Output column names.
// ---------------------------------------------------------------------------
/// The default name of projection `idx`: an identifier's or a call's last
/// part, else `column<n>` / `expr<n>` with `n` counted from one.
pub open spec fn projection_name_spec(e: Expression, idx: int) -> Seq<char> {
    match e {
        Expression::Identifier(parts) => if parts@.len() > 0 {
            parts@.last()@
        } else {
            "column"@ + nat_text((idx + 1) as nat)
        },
        Expression::FunctionCall { name, .. } => if name@.len() > 0 {
            name@.last()@
        } else {
            "expr"@ + nat_text((idx + 1) as nat)
        },
        _ => "expr"@ + nat_text((idx + 1) as nat),
    }
}

fn numbered(prefix: &str, idx: usize) -> (r: String)
    requires
        idx < usize::MAX,
    ensures
        r@ == prefix@ + nat_text((idx + 1) as nat),
{
    let mut r = prefix.to_owned();
    push_nat_text(&mut r, (idx + 1) as u64);
    r
}

pub fn projection_name(expr: &Expression, idx: usize) -> (r: String)
    requires
        idx < usize::MAX,
    ensures
        r@ == projection_name_spec(*expr, idx as int),
{
    match expr {
        Expression::Identifier(parts) => if parts.len() > 0 {
            parts[parts.len() - 1].clone()
        } else {
            numbered("column", idx)
        },
        Expression::FunctionCall { name, .. } => if name.len() > 0 {
            name[name.len() - 1].clone()
        } else {
            numbered("expr", idx)
        },
        _ => numbered("expr", idx),
    }
}

/// `path` joined with `.`.
pub fn identifier_path(path: &Vec<String>) -> (r: String)
    ensures
        r@ == join_dot(strs_v(path@)),
{
    join_dot_exec(path)
}

// ---------------------------------------------------------------------------
// Aggregates.
// ---------------------------------------------------------------------------
/// Whether an expression calls an aggregate outside a subquery.
pub open spec fn has_aggregate(e: Expression) -> bool
    decreases e,
{
    match e {
        Expression::FunctionCall { name, .. } => aggregate_name(strs_v(name@)),
        Expression::Binary { left, right, .. } => has_aggregate(*left) || has_aggregate(*right),
        Expression::Unary { expr, .. } => has_aggregate(*expr),
        Expression::Paren(expr) => has_aggregate(*expr),
        Expression::IsNull { expr, .. } => has_aggregate(*expr),
        Expression::Case { branches, else_expr } => branches_have_aggregate(branches@) || match else_expr {
            Some(x) => has_aggregate(*x),
            None => false,
        },
        _ => false,
    }
}

pub open spec fn branches_have_aggregate(bs: Seq<(Expression, Expression)>) -> bool
    decreases bs,
{
    if bs.len() == 0 {
        false
    } else {
        has_aggregate(bs[0].0) || has_aggregate(bs[0].1) || branches_have_aggregate(bs.subrange(1, bs.len() as int))
    }
}

pub fn contains_aggregate(expr: &Expression) -> (r: bool)
    ensures
        r == has_aggregate(*expr),
    decreases expr,
{
    match expr {
        Expression::FunctionCall { name, .. } => is_aggregate_name(name),
        Expression::Binary { left, right, .. } => contains_aggregate(left) || contains_aggregate(right),
        Expression::Unary { expr: inner, .. } => contains_aggregate(inner),
        Expression::Paren(inner) => contains_aggregate(inner),
        Expression::IsNull { expr: inner, .. } => contains_aggregate(inner),
        Expression::Case { branches, else_expr } => {
            if branches_contain_aggregate(branches) {
                return true;
            }
            match else_expr {
                Some(x) => contains_aggregate(x),
                None => false,
            }
        },
        _ => false,
    }
}

fn branches_contain_aggregate(branches: &Vec<(Expression, Expression)>) -> (r: bool)
    ensures
        r == branches_have_aggregate(branches@),
    decreases branches,
{
    let n = branches.len();
    let mut i: usize = 0;
    assert(branches@.subrange(0, n as int) =~= branches@);
    while i < n
        invariant
            n == branches@.len(),
            i <= n,
            branches_have_aggregate(branches@) == branches_have_aggregate(branches@.subrange(i as int, n as int)),
        decreases n - i,
    {
        let ghost rest = branches@.subrange(i as int, n as int);
        assert(rest[0] == branches@[i as int]);
        assert(rest.subrange(1, rest.len() as int) =~= branches@.subrange(i + 1, n as int));
        if contains_aggregate(&branches[i].0) || contains_aggregate(&branches[i].1) {
            return true;
        }
        i = i + 1;
    }
    false
}

/// Whether a SELECT aggregates: it groups, or its projection or HAVING calls
/// an aggregate.
pub open spec fn grouped_spec(select: SelectStatement) -> bool {
    select.group_by@.len() > 0 || (exists|i: int| 0 <= i < select.projection@.len() && has_aggregate(#[trigger] select.projection@[i].expr))
        || match select.having {
        Some(h) => has_aggregate(h),
        None => false,
    }
}

pub fn is_grouped(select: &SelectStatement) -> (r: bool)
    ensures
        r == grouped_spec(*select),
{
    if select.group_by.len() > 0 {
        return true;
    }
    let mut i: usize = 0;
    while i < select.projection.len()
        invariant
            i <= select.projection@.len(),
            forall|j: int| 0 <= j < i ==> !has_aggregate(#[trigger] select.projection@[j].expr),
        decreases select.projection.len() - i,
    {
        if contains_aggregate(&select.projection[i].expr) {
            return true;
        }
        i = i + 1;
    }
    match &select.having {
        Some(h) => contains_aggregate(h),
        None => false,
    }
}

/// Whether a SELECT has the shape the streaming fast path serves: one
/// projection over one named table, with no other clause.
pub open spec fn fast_path_shape(select: SelectStatement) -> bool {
    &&& !select.distinct
    &&& select.group_by@.len() == 0
    &&& select.having is None
    &&& select.order_by@.len() == 0
    &&& select.limit is None
    &&& select.where_clause is None
    &&& select.from@.len() == 1
    &&& select.from@[0].joins@.len() == 0
    &&& select.from@[0].source is Named
    &&& select.projection@.len() == 1
}

pub fn has_fast_path_shape(select: &SelectStatement) -> (r: bool)
    ensures
        r == fast_path_shape(*select),
{
    !(select.distinct || select.group_by.len() > 0 || select.having.is_some() || select.order_by.len() > 0
        || select.limit.is_some() || select.where_clause.is_some() || select.from.len() != 1
        || select.from[0].joins.len() > 0 || !matches!(select.from[0].source, TableSource::Named(_))
        || select.projection.len() != 1)
}

/// A single-aggregate query that can stream over its source.
#[derive(Clone, Copy, Debug, PartialEq, Eq, Structural)]
pub enum StreamingAggregate {
    Avg,
    Sum,
    Count,
    Min,
    Max,
}

/// The argument of a streaming aggregate: `*` or a column.
#[derive(Clone, Debug)]
pub enum StreamingAggregateArg {
    Star,
    Identifier(Vec<String>),
}

#[derive(Clone, Debug)]
pub struct StreamingAggregatePlan {
    pub op: StreamingAggregate,
    pub arg: StreamingAggregateArg,
    pub output_name: String,
}

/// The aggregate a lowercase function name stands for.
pub open spec fn aggregate_of(w: Seq<char>) -> Option<StreamingAggregate> {
    if w == "avg"@ {
        Some(StreamingAggregate::Avg)
    } else if w == "sum"@ {
        Some(StreamingAggregate::Sum)
    } else if w == "count"@ {
        Some(StreamingAggregate::Count)
    } else if w == "min"@ {
        Some(StreamingAggregate::Min)
    } else if w == "max"@ {
        Some(StreamingAggregate::Max)
    } else {
        None
    }
}

/// The streaming plan of a SELECT whose first projection is an aggregate of
/// `*` (for `count`) or of one column: its aggregate, its argument (`None`
/// for `*`) and its output name.
pub open spec fn streaming_plan_spec(select: SelectStatement) -> Option<(StreamingAggregate, Option<Seq<Seq<char>>>, Seq<char>)> {
    if select.projection@.len() == 0 {
        None
    } else {
        let item = select.projection@[0];
        match item.expr {
            Expression::FunctionCall { name, args } => if name@.len() == 0 {
                None
            } else {
                match aggregate_of(lowercase(name@.last()@)) {
                    None => None,
                    Some(op) => {
                        let out = match item.alias {
                            Some(a) => a@,
                            None => projection_name_spec(item.expr, 0),
                        };
                        if args@.len() == 1 && args@[0] is Star && op == StreamingAggregate::Count {
                            Some((op, None, out))
                        } else if args@.len() == 1 && args@[0] is Identifier {
                            Some((op, Some(strs_v(args@[0]->Identifier_0@)), out))
                        } else {
                            None
                        }
                    },
                }
            },
            _ => None,
        }
    }
}

/// The SQL function that names an aggregate.
pub open spec fn sql_name(a: StreamingAggregate) -> Seq<char> {
    match a {
        StreamingAggregate::Avg => "avg"@,
        StreamingAggregate::Sum => "sum"@,
        StreamingAggregate::Count => "count"@,
        StreamingAggregate::Min => "min"@,
        StreamingAggregate::Max => "max"@,
    }
}

/// A streaming plan computes the aggregate its SQL function names: the
/// first projection is a call whose (lowercased) function name is the
/// name of the planned aggregate; and every aggregate is planned from its
/// own name.
pub proof fn lemma_streaming_plan_names_its_aggregate(select: SelectStatement, a: StreamingAggregate)
    ensures
        streaming_plan_spec(select) matches Some((op, _, _)) ==> (select.projection@[0].expr matches Expression::FunctionCall {
            name,
            ..
        } && name@.len() > 0 && lowercase(name@.last()@) == sql_name(op)),
        aggregate_of(sql_name(a)) == Some(a),
{
    reveal_strlit("avg");
    reveal_strlit("sum");
    reveal_strlit("count");
    reveal_strlit("min");
    reveal_strlit("max");
    assert("avg"@[0] == 'a' && "sum"@[0] == 's' && "count"@[0] == 'c' && "min"@[0] == 'm' && "max"@[0] == 'm');
    assert("min"@[1] == 'i' && "max"@[1] == 'a');
}

fn aggregate_of_exec(w: &str) -> (r: Option<StreamingAggregate>)
    ensures
        r == aggregate_of(w@),
{
    if str_eq(w, "avg") {
        Some(StreamingAggregate::Avg)
    } else if str_eq(w, "sum") {
        Some(StreamingAggregate::Sum)
    } else if str_eq(w, "count") {
        Some(StreamingAggregate::Count)
    } else if str_eq(w, "min") {
        Some(StreamingAggregate::Min)
    } else if str_eq(w, "max") {
        Some(StreamingAggregate::Max)
    } else {
        None
    }
}

pub fn simple_streaming_aggregate_plan(select: &SelectStatement) -> (r: Option<StreamingAggregatePlan>)
    ensures
        match streaming_plan_spec(*select) {
            None => r is None,
            Some((op, arg, out)) => r matches Some(p) && p.op == op && p.output_name@ == out && match arg {
                None => p.arg is Star,
                Some(path) => p.arg matches StreamingAggregateArg::Identifier(v) && strs_v(v@) == path,
            },
        },
{
    if select.projection.len() == 0 {
        return None;
    }
    let item = &select.projection[0];
    let (name, args) = match &item.expr {
        Expression::FunctionCall { name, args } => (name, args),
        _ => {
            return None;
        },
    };
    if name.len() == 0 {
        return None;
    }
    let lowered = to_lowercase(name[name.len() - 1].as_str());
    let op = match aggregate_of_exec(lowered.as_str()) {
        Some(op) => op,
        None => {
            return None;
        },
    };
    let arg = if args.len() == 1 && matches!(args[0], Expression::Star) && op == StreamingAggregate::Count {
        StreamingAggregateArg::Star
    } else if args.len() == 1 {
        match &args[0] {
            Expression::Identifier(path) => StreamingAggregateArg::Identifier(clone_strs(path)),
            _ => {
                return None;
            },
        }
    } else {
        return None;
    };
    let output_name = match &item.alias {
        Some(a) => a.clone(),
        None => projection_name(&item.expr, 0),
    };
    Some(StreamingAggregatePlan { op, arg, output_name })
}

/// The column type of a streaming aggregate's output.
pub open spec fn aggregate_type(op: StreamingAggregate, value: SqlValue) -> QueryColumnType {
    match op {
        StreamingAggregate::Avg | StreamingAggregate::Sum => QueryColumnType::Double,
        StreamingAggregate::Count => QueryColumnType::Integer,
        StreamingAggregate::Min | StreamingAggregate::Max => value_type(value),
    }
}

pub fn aggregate_output_type(op: StreamingAggregate, value: &SqlValue) -> (t: QueryColumnType)
    ensures
        t == aggregate_type(op, *value),
{
    match op {
        StreamingAggregate::Avg | StreamingAggregate::Sum => QueryColumnType::Double,
        StreamingAggregate::Count => QueryColumnType::Integer,
        StreamingAggregate::Min | StreamingAggregate::Max => infer_query_type(value),
    }
}

// ---------------------------------------------------------------------------
// Columns.
// ---------------------------------------------------------------------------
/// The first column whose name equals `name` ignoring ASCII case.
pub open spec fn first_column(cols: Seq<QueryColumn>, name: Seq<char>) -> Option<int>
    decreases cols.len(),
{
    if cols.len() == 0 {
        None
    } else if ci_eq(cols[0].name@, name) {
        Some(0)
    } else {
        match first_column(cols.drop_first(), name) {
            Some(k) => Some(k + 1),
            None => None,
        }
    }
}

fn position_ci(cols: &Vec<QueryColumn>, name: &str) -> (r: Option<usize>)
    ensures
        match r {
            Some(i) => first_column(cols@, name@) == Some(i as int) && i < cols@.len(),
            None => first_column(cols@, name@) is None,
        },
{
    let mut i: usize = 0;
    assert(cols@.skip(0) =~= cols@);
    while i < cols.len()
        invariant
            i <= cols@.len(),
            first_column(cols@, name@) == match first_column(cols@.skip(i as int), name@) {
                Some(k) => Some(k + i),
                None => None,
            },
        decreases cols.len() - i,
    {
        assert(cols@.skip(i as int)[0] == cols@[i as int]);
        assert(cols@.skip(i as int).drop_first() =~= cols@.skip(i + 1));
        if eq_ignore_ascii_case(cols[i].name.as_str(), name) {
            return Some(i);
        }
        i = i + 1;
    }
    None
}

/// The column an ORDER BY item sorts by: a 1-based position, or the first
/// output column named by a bare identifier.
pub open spec fn order_index(o: OrderByItem, cols: Seq<QueryColumn>) -> Option<int> {
    match o.expr {
        Expression::Number(n) => match parse_unsigned(n@, usize::MAX as nat) {
            Some(v) => if v >= 1 {
                Some(v - 1)
            } else {
                None
            },
            None => None,
        },
        Expression::Identifier(path) => if path@.len() == 1 {
            first_column(cols, path@[0]@)
        } else {
            None
        },
        _ => None,
    }
}

/// The resolvable ORDER BY items, in order, as (column, descending).
pub open spec fn order_specs(items: Seq<OrderByItem>, cols: Seq<QueryColumn>) -> Seq<(usize, bool)>
    decreases items.len(),
{
    if items.len() == 0 {
        seq![]
    } else {
        let rest = order_specs(items.drop_last(), cols);
        match order_index(items.last(), cols) {
            Some(i) => rest.push((i as usize, items.last().descending)),
            None => rest,
        }
    }
}

fn order_index_exec(o: &OrderByItem, cols: &Vec<QueryColumn>) -> (r: Option<usize>)
    ensures
        match order_index(*o, cols@) {
            Some(i) => r == Some(i as usize) && 0 <= i <= usize::MAX,
            None => r is None,
        },
{
    match &o.expr {
        Expression::Number(n) => {
            let c = crate::text::chars_of(n.as_str());
            assert(c@.subrange(0, c@.len() as int) =~= c@);
            match parse_unsigned_exec(&c, 0, c.len(), usize::MAX as u64) {
                Some(v) => if v >= 1 {
                    Some((v - 1) as usize)
                } else {
                    None
                },
                None => None,
            }
        },
        Expression::Identifier(path) => if path.len() == 1 {
            position_ci(cols, path[0].as_str())
        } else {
            None
        },
        _ => None,
    }
}

pub fn resolve_result_order_specs(select: &SelectStatement, columns: &Vec<QueryColumn>) -> (r: Vec<(usize, bool)>)
    ensures
        r@ == order_specs(select.order_by@, columns@),
{
    let mut out: Vec<(usize, bool)> = Vec::new();
    let mut i: usize = 0;
    while i < select.order_by.len()
        invariant
            i <= select.order_by@.len(),
            out@ == order_specs(select.order_by@.take(i as int), columns@),
        decreases select.order_by.len() - i,
    {
        let item = &select.order_by[i];
        let idx = order_index_exec(item, columns);
        proof {
            let t = select.order_by@.take(i + 1);
            assert(t.drop_last() =~= select.order_by@.take(i as int));
            assert(t.last() == select.order_by@[i as int]);
        }
        if let Some(idx) = idx {
            out.push((idx, item.descending));
        }
        i = i + 1;
    }
    assert(select.order_by@.take(i as int) =~= select.order_by@);
    out
}

fn clone_column(c: &QueryColumn) -> (r: QueryColumn)
    ensures
        r.name@ == c.name@,
        r.col_type == c.col_type,
{
    QueryColumn { name: c.name.clone(), col_type: c.col_type }
}

/// Columns with the same names and types.
pub open spec fn same_columns(a: Seq<QueryColumn>, b: Seq<QueryColumn>) -> bool {
    a.len() == b.len() && forall|i: int| 0 <= i < a.len() ==> (#[trigger] a[i]).name@ == b[i].name@ && a[i].col_type == b[i].col_type
}

fn clone_columns(v: &Vec<QueryColumn>) -> (r: Vec<QueryColumn>)
    ensures
        same_columns(r@, v@),
{
    let mut r: Vec<QueryColumn> = Vec::new();
    let mut i: usize = 0;
    while i < v.len()
        invariant
            i <= v@.len(),
            r@.len() == i,
            forall|j: int| 0 <= j < i ==> (#[trigger] r@[j]).name@ == v@[j].name@ && r@[j].col_type == v@[j].col_type,
        decreases v.len() - i,
    {
        r.push(clone_column(&v[i]));
        i = i + 1;
    }
    r
}

/// The columns of a union: the wider side's, the left one's on a tie.
pub fn merge_union_columns(left: &Vec<QueryColumn>, right: &Vec<QueryColumn>) -> (r: Vec<QueryColumn>)
    ensures
        same_columns(r@, if left@.len() >= right@.len() { left@ } else { right@ }),
{
    if left.len() >= right.len() {
        clone_columns(left)
    } else {
        clone_columns(right)
    }
}

/// The columns of a join: the left side's, then the right side's.
pub fn merge_columns(left: &Vec<QueryColumn>, right: &Vec<QueryColumn>) -> (r: Vec<QueryColumn>)
    ensures
        same_columns(r@, left@ + right@),
{
    let mut r = clone_columns(left);
    let mut i: usize = 0;
    while i < right.len()
        invariant
            i <= right@.len(),
            r@.len() == left@.len() + i,
            forall|j: int| 0 <= j < r@.len() ==> (#[trigger] r@[j]).name@ == (left@ + right@)[j].name@ && r@[j].col_type == (left@ + right@)[j].col_type,
        decreases right.len() - i,
    {
        r.push(clone_column(&right[i]));
        i = i + 1;
    }
    r
}

/// Whether a dependency lists a column whose lowercase name is that of
/// `name`.
pub open spec fn required_column(d: SourceColumnDependency, name: Seq<char>) -> bool {
    exists|k: int| 0 <= k < d.columns@.len() && lowercase((#[trigger] d.columns@[k]).name@) == lowercase(name)
}

pub open spec fn keep_pred(d: SourceColumnDependency, columns: Seq<QueryColumn>) -> spec_fn(usize) -> bool {
    |i: usize| required_column(d, columns[i as int].name@)
}

/// The positions of the source columns to read: all of them, unless the
/// dependency lists the needed ones.
pub open spec fn kept_columns(columns: Seq<QueryColumn>, sc: Option<SourceColumnDependency>) -> Seq<usize> {
    match sc {
        Some(d) => if d.all_columns_required {
            Seq::new(columns.len(), |i: int| i as usize)
        } else {
            Seq::new(columns.len(), |i: int| i as usize).filter(keep_pred(d, columns))
        },
        None => Seq::new(columns.len(), |i: int| i as usize),
    }
}

pub fn materialized_source_column_indices(columns: &Vec<QueryColumn>, source_columns: Option<&SourceColumnDependency>) -> (r: Vec<usize>)
    ensures
        r@ == kept_columns(columns@, match source_columns {
            Some(d) => Some(*d),
            None => None,
        }),
{
    let mut all: Vec<usize> = Vec::new();
    let mut i: usize = 0;
    while i < columns.len()
        invariant
            i <= columns@.len(),
            all@ =~= Seq::new(i as nat, |j: int| j as usize),
        decreases columns.len() - i,
    {
        all.push(i);
        i = i + 1;
    }
    let d = match source_columns {
        None => {
            return all;
        },
        Some(d) => d,
    };
    if d.all_columns_required {
        return all;
    }
    let mut required: Vec<String> = Vec::new();
    let mut k: usize = 0;
    while k < d.columns.len()
        invariant
            k <= d.columns@.len(),
            required@.len() == k,
            forall|j: int| 0 <= j < k ==> (#[trigger] required@[j])@ == lowercase(d.columns@[j].name@),
        decreases d.columns.len() - k,
    {
        required.push(to_lowercase(d.columns[k].name.as_str()));
        k = k + 1;
    }
    let mut out: Vec<usize> = Vec::new();
    let mut i: usize = 0;
    while i < columns.len()
        invariant
            i <= columns@.len(),
            all@ == Seq::new(columns@.len(), |j: int| j as usize),
            required@.len() == d.columns@.len(),
            forall|j: int| 0 <= j < d.columns@.len() ==> (#[trigger] required@[j])@ == lowercase(d.columns@[j].name@),
            out@ == all@.take(i as int).filter(keep_pred(*d, columns@)),
        decreases columns.len() - i,
    {
        let key = to_lowercase(columns[i].name.as_str());
        let mut found = false;
        let mut j: usize = 0;
        while j < required.len()
            invariant
                j <= required@.len(),
                required@.len() == d.columns@.len(),
                forall|m: int| 0 <= m < d.columns@.len() ==> (#[trigger] required@[m])@ == lowercase(d.columns@[m].name@),
                found == exists|m: int| 0 <= m < j && lowercase((#[trigger] d.columns@[m]).name@) == key@,
            decreases required.len() - j,
        {
            if required[j] == key {
                found = true;
            }
            j = j + 1;
        }
        assert(all@.take(i + 1) =~= all@.take(i as int).push(i));
        assert(found == required_column(*d, columns@[i as int].name@));
        if found {
            out.push(i);
        }
        i = i + 1;
    }
    assert(all@.take(i as int) =~= all@);
    out
}

// ---------------------------------------------------------------------------
// The single-source fast path's column.
// ---------------------------------------------------------------------------
pub open spec fn unknown_identifier_message(identifier: Seq<Seq<char>>) -> Seq<char> {
    "unknown identifier '"@ + join_dot(identifier) + "'"@
}

/// The column a one- or two-part identifier names in a single source bound
/// as `alias` (or by its path's last part): the first column with that name,
/// ignoring ASCII case.
pub open spec fn source_column_spec(
    columns: Seq<QueryColumn>,
    source_path: Seq<Seq<char>>,
    alias: Option<Seq<char>>,
    identifier: Seq<Seq<char>>,
) -> Result<int, Seq<char>> {
    let name = if identifier.len() == 1 {
        Some(identifier[0])
    } else if identifier.len() == 2 && ((alias matches Some(a) && ci_eq(a, identifier[0])) || (source_path.len() > 0
        && ci_eq(source_path.last(), identifier[0]))) {
        Some(identifier[1])
    } else {
        None
    };
    match name {
        None => Err(unknown_identifier_message(identifier)),
        Some(n) => match first_column(columns, n) {
            Some(i) => Ok(i),
            None => Err(unknown_identifier_message(identifier)),
        },
    }
}

fn unknown_identifier(identifier: &Vec<String>) -> (e: ExecutionError)
    ensures
        e.message@ == unknown_identifier_message(strs_v(identifier@)),
        e.span is None,
{
    let mut m = "unknown identifier '".to_owned();
    m.append(join_dot_exec(identifier).as_str());
    m.append("'");
    ExecutionError { message: m, span: None }
}

pub fn resolve_source_column_index(
    columns: &Vec<QueryColumn>,
    source_path: &Vec<String>,
    table_alias: Option<&str>,
    identifier: &Vec<String>,
) -> (r: Result<usize, ExecutionError>)
    ensures
        match source_column_spec(columns@, strs_v(source_path@), match table_alias {
            Some(a) => Some(a@),
            None => None,
        }, strs_v(identifier@)) {
            Ok(i) => r == Ok::<usize, ExecutionError>(i as usize),
            Err(m) => r matches Err(e) && e.message@ == m && e.span is None,
        },
{
    let column_name: &String = if identifier.len() == 1 {
        &identifier[0]
    } else if identifier.len() == 2 && ((match table_alias {
        Some(a) => eq_ignore_ascii_case(a, identifier[0].as_str()),
        None => false,
    }) || (source_path.len() > 0 && eq_ignore_ascii_case(
        source_path[source_path.len() - 1].as_str(),
        identifier[0].as_str(),
    ))) {
        &identifier[1]
    } else {
        return Err(unknown_identifier(identifier));
    };
    match position_ci(columns, column_name.as_str()) {
        Some(i) => Ok(i),
        None => Err(unknown_identifier(identifier)),
    }
}

/// The name the rows of a FROM item are qualified by: its alias; else, for
/// a named table, the last part of its name (`query` for an empty name),
/// and for a subquery, `subquery`.
pub open spec fn table_ref_alias_spec(table: TableRef) -> Seq<char> {
    match table.source {
        TableSource::Named(path) => named_alias(table.alias, strs_v(path@)),
        TableSource::Subquery(_) => match table.alias {
            Some(a) => a@,
            None => "subquery"@,
        },
    }
}

pub fn table_ref_alias(table: &TableRef) -> (r: String)
    ensures
        r@ == table_ref_alias_spec(*table),
{
    match &table.alias {
        Some(a) => a.clone(),
        None => match &table.source {
            TableSource::Named(path) => if path.len() > 0 {
                path[path.len() - 1].clone()
            } else {
                "query".to_owned()
            },
            TableSource::Subquery(_) => "subquery".to_owned(),
        },
    }
}

} // verus!
