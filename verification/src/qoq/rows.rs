//! Resolved rows of a FROM clause: the lookup from column names to
//! positions, and the row sets of cross and outer joins.
use vstd::prelude::*;
use crate::assoc::{entries_v, lookup, put, get, insert};
use crate::text::{lowercase, to_lowercase};
use crate::qoq::ast::{JoinKind, Expression, SelectStatement, SelectItem, strs_v};
use crate::qoq::parser::{join_dot, join_dot_exec};
use crate::qoq::value::{SqlValue, QueryColumn, QueryColumnType, QueryResult, value_type, infer_query_type};
use crate::qoq::exec::{same_columns, merge_columns, projection_name, projection_name_spec};

verus! {

/// A value, mathematically.
pub enum SValue {
    Null,
    Bool(bool),
    Int(i64),
    Float(Seq<char>),
    Text(Seq<char>),
    Bytes(Seq<u8>),
}

pub open spec fn value_v(v: SqlValue) -> SValue {
    match v {
        SqlValue::Null => SValue::Null,
        SqlValue::Bool(b) => SValue::Bool(b),
        SqlValue::Int(i) => SValue::Int(i),
        SqlValue::Float(f) => SValue::Float(f@),
        SqlValue::Text(s) => SValue::Text(s@),
        SqlValue::Bytes(b) => SValue::Bytes(b@),
    }
}

pub open spec fn row_v(r: Seq<SqlValue>) -> Seq<SValue> {
    r.map_values(|v: SqlValue| value_v(v))
}

/// A copy of a value.
pub fn clone_value(v: &SqlValue) -> (r: SqlValue)
    ensures
        value_v(r) == value_v(*v),
{
    match v {
        SqlValue::Null => SqlValue::Null,
        SqlValue::Bool(b) => SqlValue::Bool(*b),
        SqlValue::Int(i) => SqlValue::Int(*i),
        SqlValue::Float(f) => SqlValue::Float(f.clone()),
        SqlValue::Text(s) => SqlValue::Text(s.clone()),
        SqlValue::Bytes(b) => {
            let mut c: Vec<u8> = Vec::new();
            let mut i: usize = 0;
            while i < b.len()
                invariant
                    i <= b@.len(),
                    c@ == b@.take(i as int),
                decreases b.len() - i,
            {
                c.push(b[i]);
                assert(b@.take(i + 1) =~= b@.take(i as int).push(b@[i as int]));
                i = i + 1;
            }
            assert(b@.take(i as int) =~= b@);
            SqlValue::Bytes(c)
        },
    }
}

/// `out` with copies of `v` appended.
fn extend_values(out: &mut Vec<SqlValue>, v: &Vec<SqlValue>)
    ensures
        row_v(final(out)@) == row_v(old(out)@) + row_v(v@),
{
    let ghost o0 = row_v(out@);
    let mut i: usize = 0;
    while i < v.len()
        invariant
            i <= v@.len(),
            row_v(out@) == o0 + row_v(v@.take(i as int)),
        decreases v.len() - i,
    {
        let x = clone_value(&v[i]);
        let ghost before = out@;
        out.push(x);
        assert(row_v(out@) =~= row_v(before).push(value_v(x)));
        assert(row_v(v@.take(i + 1)) =~= row_v(v@.take(i as int)).push(value_v(v@[i as int])));
        i = i + 1;
    }
    assert(v@.take(i as int) =~= v@);
}

/// `n` nulls.
pub open spec fn nulls(n: nat) -> Seq<SValue> {
    Seq::new(n, |i: int| SValue::Null)
}

fn extend_nulls(out: &mut Vec<SqlValue>, n: usize)
    ensures
        row_v(final(out)@) == row_v(old(out)@) + nulls(n as nat),
{
    let ghost o0 = row_v(out@);
    let mut i: usize = 0;
    while i < n
        invariant
            i <= n,
            row_v(out@) == o0 + nulls(i as nat),
        decreases n - i,
    {
        let ghost before = out@;
        out.push(SqlValue::Null);
        assert(row_v(out@) =~= row_v(before).push(SValue::Null));
        assert(nulls((i + 1) as nat) =~= nulls(i as nat).push(SValue::Null));
        i = i + 1;
    }
}

/// A row of a resolved FROM clause.
#[derive(Debug, Clone)]
pub struct ResolvedRow {
    pub values: Vec<SqlValue>,
}

/// A resolved FROM clause: its columns, the position of each column name
/// (bare and qualified by its table's alias, in lowercase), and its rows.
#[derive(Debug, Clone)]
pub struct ResolvedTable {
    pub columns: Vec<QueryColumn>,
    pub lookup: Vec<(String, usize)>,
    pub rows: Vec<ResolvedRow>,
}

pub open spec fn rows_v(rs: Seq<ResolvedRow>) -> Seq<Seq<SValue>> {
    rs.map_values(|r: ResolvedRow| row_v(r.values@))
}

// ---------------------------------------------------------------------------
// Name lookup.
// ---------------------------------------------------------------------------
/// The positions of columns `offset ..`: each under its lowercase name and
/// under `alias.name` in lowercase; a later column wins a shared name.
pub open spec fn column_lookup_spec(cols: Seq<QueryColumn>, alias: Seq<char>, offset: int) -> Seq<(Seq<char>, usize)>
    decreases cols.len(),
{
    if cols.len() == 0 {
        seq![]
    } else {
        let i = cols.len() - 1;
        let e = column_lookup_spec(cols.drop_last(), alias, offset);
        put(
            put(e, lowercase(cols[i].name@), (offset + i) as usize),
            lowercase(alias + "."@ + cols[i].name@),
            (offset + i) as usize,
        )
    }
}

pub fn column_lookup(columns: &Vec<QueryColumn>, alias: &str, offset: usize) -> (r: Vec<(String, usize)>)
    requires
        offset + columns@.len() <= usize::MAX,
    ensures
        entries_v(r@) == column_lookup_spec(columns@, alias@, offset as int),
{
    let mut out: Vec<(String, usize)> = Vec::new();
    let mut i: usize = 0;
    assert(entries_v(out@) =~= seq![]);
    while i < columns.len()
        invariant
            i <= columns@.len(),
            offset + columns@.len() <= usize::MAX,
            entries_v(out@) == column_lookup_spec(columns@.take(i as int), alias@, offset as int),
        decreases columns.len() - i,
    {
        let absolute = offset + i;
        let name = to_lowercase(columns[i].name.as_str());
        insert(&mut out, name.as_str(), absolute);
        let mut q = alias.to_owned();
        q.append(".");
        q.append(columns[i].name.as_str());
        let qualified = to_lowercase(q.as_str());
        insert(&mut out, qualified.as_str(), absolute);
        proof {
            let t = columns@.take(i + 1);
            assert(t.drop_last() =~= columns@.take(i as int));
            assert(t[i as int] == columns@[i as int]);
        }
        i = i + 1;
    }
    assert(columns@.take(i as int) =~= columns@);
    out
}

/// `e` with each pair of `es` put in order, its position moved by `shift`.
pub open spec fn put_all(e: Seq<(Seq<char>, usize)>, es: Seq<(Seq<char>, usize)>, shift: int) -> Seq<(Seq<char>, usize)>
    decreases es.len(),
{
    if es.len() == 0 {
        e
    } else {
        put(put_all(e, es.drop_last(), shift), es.last().0, (es.last().1 + shift) as usize)
    }
}

/// The lookup of a join: the left side's names, then the right side's with
/// positions after the left columns (a right name wins a shared one).
pub open spec fn merged_lookup(left: ResolvedTable, right: ResolvedTable) -> Seq<(Seq<char>, usize)> {
    put_all(put_all(seq![], entries_v(left.lookup@), 0), entries_v(right.lookup@), left.columns@.len() as int)
}

pub open spec fn lookup_fits(left: ResolvedTable, right: ResolvedTable) -> bool {
    forall|k: int| 0 <= k < right.lookup@.len() ==> (#[trigger] right.lookup@[k]).1 + left.columns@.len() <= usize::MAX
}

fn put_entries(out: &mut Vec<(String, usize)>, es: &Vec<(String, usize)>, shift: usize)
    requires
        forall|k: int| 0 <= k < es@.len() ==> (#[trigger] es@[k]).1 + shift <= usize::MAX,
    ensures
        entries_v(final(out)@) == put_all(entries_v(old(out)@), entries_v(es@), shift as int),
{
    let ghost o0 = entries_v(out@);
    let mut i: usize = 0;
    while i < es.len()
        invariant
            i <= es@.len(),
            forall|k: int| 0 <= k < es@.len() ==> (#[trigger] es@[k]).1 + shift <= usize::MAX,
            entries_v(out@) == put_all(o0, entries_v(es@).take(i as int), shift as int),
        decreases es.len() - i,
    {
        let v = es[i].1 + shift;
        insert(out, es[i].0.as_str(), v);
        proof {
            let t = entries_v(es@).take(i + 1);
            assert(t.drop_last() =~= entries_v(es@).take(i as int));
            assert(t.last() == (es@[i as int].0@, es@[i as int].1));
        }
        i = i + 1;
    }
    assert(entries_v(es@).take(i as int) =~= entries_v(es@));
}

pub fn merge_lookups(left: &ResolvedTable, right: &ResolvedTable) -> (r: Vec<(String, usize)>)
    requires
        lookup_fits(*left, *right),
    ensures
        entries_v(r@) == merged_lookup(*left, *right),
{
    let mut out: Vec<(String, usize)> = Vec::new();
    assert(entries_v(out@) =~= seq![]);
    put_entries(&mut out, &left.lookup, 0);
    put_entries(&mut out, &right.lookup, left.columns.len());
    out
}

/// The key a column reference is looked up by: its parts joined by `.`, in
/// lowercase.
pub open spec fn path_key(path: Seq<Seq<char>>) -> Seq<char> {
    lowercase(join_dot(path))
}

/// The position a column reference names, if any.
pub fn lookup_path_index(table_lookup: &Vec<(String, usize)>, path: &Vec<String>) -> (r: Option<usize>)
    ensures
        r == lookup(entries_v(table_lookup@), path_key(strs_v(path@))),
{
    if path.len() == 1 {
        assert(join_dot(strs_v(path@)) == path@[0]@);
        let key = to_lowercase(path[0].as_str());
        get(table_lookup, key.as_str())
    } else {
        let joined = join_dot_exec(path);
        let key = to_lowercase(joined.as_str());
        get(table_lookup, key.as_str())
    }
}

// ---------------------------------------------------------------------------
// Rows.
// ---------------------------------------------------------------------------
pub fn merge_rows(left: &ResolvedRow, right: &ResolvedRow) -> (r: ResolvedRow)
    ensures
        row_v(r.values@) == row_v(left.values@) + row_v(right.values@),
{
    let mut values: Vec<SqlValue> = Vec::new();
    assert(row_v(values@) =~= seq![]);
    extend_values(&mut values, &left.values);
    extend_values(&mut values, &right.values);
    assert(row_v(values@) =~= row_v(left.values@) + row_v(right.values@));
    ResolvedRow { values }
}

/// A left row with nulls for the right side's columns.
pub fn pad_right_row(left: &ResolvedRow, right_len: usize) -> (r: ResolvedRow)
    ensures
        row_v(r.values@) == row_v(left.values@) + nulls(right_len as nat),
{
    let mut values: Vec<SqlValue> = Vec::new();
    assert(row_v(values@) =~= seq![]);
    extend_values(&mut values, &left.values);
    extend_nulls(&mut values, right_len);
    assert(row_v(values@) =~= row_v(left.values@) + nulls(right_len as nat));
    ResolvedRow { values }
}

/// A right row with nulls for the left side's columns.
pub fn pad_left_row(right: &ResolvedRow, left_len: usize) -> (r: ResolvedRow)
    ensures
        row_v(r.values@) == nulls(left_len as nat) + row_v(right.values@),
{
    let mut values: Vec<SqlValue> = Vec::new();
    assert(row_v(values@) =~= seq![]);
    extend_nulls(&mut values, left_len);
    extend_values(&mut values, &right.values);
    assert(row_v(values@) =~= nulls(left_len as nat) + row_v(right.values@));
    ResolvedRow { values }
}

/// Every left row followed by every right row, left-major.
pub open spec fn cross_rows(ls: Seq<Seq<SValue>>, rs: Seq<Seq<SValue>>) -> Seq<Seq<SValue>>
    decreases ls.len(),
{
    if ls.len() == 0 {
        seq![]
    } else {
        cross_rows(ls.drop_last(), rs) + rs.map_values(|r: Seq<SValue>| ls.last() + r)
    }
}

/// The columns, lookup and rows of every pairing of a left and a right row.
pub fn cross_join(left: &ResolvedTable, right: &ResolvedTable) -> (t: ResolvedTable)
    requires
        lookup_fits(*left, *right),
    ensures
        same_columns(t.columns@, left.columns@ + right.columns@),
        entries_v(t.lookup@) == merged_lookup(*left, *right),
        rows_v(t.rows@) == cross_rows(rows_v(left.rows@), rows_v(right.rows@)),
{
    let columns = merge_columns(&left.columns, &right.columns);
    let lkp = merge_lookups(left, right);
    let ghost ls = rows_v(left.rows@);
    let ghost rs = rows_v(right.rows@);
    let mut rows: Vec<ResolvedRow> = Vec::new();
    let mut i: usize = 0;
    assert(rows_v(rows@) =~= seq![]);
    while i < left.rows.len()
        invariant
            i <= left.rows@.len(),
            ls == rows_v(left.rows@),
            rs == rows_v(right.rows@),
            rows_v(rows@) == cross_rows(ls.take(i as int), rs),
        decreases left.rows.len() - i,
    {
        let ghost base = rows_v(rows@);
        let mut j: usize = 0;
        while j < right.rows.len()
            invariant
                i < left.rows@.len(),
                j <= right.rows@.len(),
                ls == rows_v(left.rows@),
                rs == rows_v(right.rows@),
                rows_v(rows@) == base + rs.take(j as int).map_values(|r: Seq<SValue>| ls[i as int] + r),
            decreases right.rows.len() - j,
        {
            let m = merge_rows(&left.rows[i], &right.rows[j]);
            let ghost before = rows@;
            rows.push(m);
            assert(rows_v(rows@) =~= rows_v(before).push(row_v(m.values@)));
            assert(rs.take(j + 1).map_values(|r: Seq<SValue>| ls[i as int] + r) =~= rs.take(j as int).map_values(
                |r: Seq<SValue>| ls[i as int] + r,
            ).push(ls[i as int] + rs[j as int]));
            j = j + 1;
        }
        proof {
            assert(rs.take(j as int) =~= rs);
            let t = ls.take(i + 1);
            assert(t.drop_last() =~= ls.take(i as int));
            assert(t.last() == ls[i as int]);
        }
        i = i + 1;
    }
    assert(ls.take(i as int) =~= ls);
    ResolvedTable { columns, lookup: lkp, rows }
}

// ---------------------------------------------------------------------------
// Outer joins.
// ---------------------------------------------------------------------------
/// Whether a join keeps unmatched left rows (padded with nulls).
pub open spec fn keeps_left(kind: JoinKind) -> bool {
    kind == JoinKind::Left || kind == JoinKind::Full
}

/// Whether a join keeps unmatched right rows (padded with nulls).
pub open spec fn keeps_right(kind: JoinKind) -> bool {
    kind == JoinKind::Right || kind == JoinKind::Full
}

/// A left row joined with each right row its condition accepts, in order.
pub open spec fn matches_of(l: Seq<SValue>, rs: Seq<Seq<SValue>>, p: Seq<bool>) -> Seq<Seq<SValue>>
    decreases rs.len(),
{
    if rs.len() == 0 {
        seq![]
    } else {
        matches_of(l, rs.drop_last(), p) + if p[rs.len() - 1] {
            seq![l + rs.last()]
        } else {
            seq![]
        }
    }
}

pub open spec fn any_true(p: Seq<bool>) -> bool {
    exists|j: int| 0 <= j < p.len() && p[j]
}

/// For each left row: its matches, or itself padded with nulls when it has
/// none and the join keeps such rows.
pub open spec fn left_part(
    ls: Seq<Seq<SValue>>,
    rs: Seq<Seq<SValue>>,
    passes: Seq<Seq<bool>>,
    kind: JoinKind,
    right_width: nat,
) -> Seq<Seq<SValue>>
    decreases ls.len(),
{
    if ls.len() == 0 {
        seq![]
    } else {
        let i = ls.len() - 1;
        left_part(ls.drop_last(), rs, passes, kind, right_width) + matches_of(ls[i], rs, passes[i]) + if !any_true(
            passes[i].take(rs.len() as int),
        ) && keeps_left(kind) {
            seq![ls[i] + nulls(right_width)]
        } else {
            seq![]
        }
    }
}

/// Whether some left row's condition accepts right row `j`.
pub open spec fn matched_right(passes: Seq<Seq<bool>>, nl: int, j: int) -> bool {
    exists|i: int| 0 <= i < nl && #[trigger] passes[i][j]
}

/// The right rows no left row matched, padded with nulls on the left.
pub open spec fn right_part(rs: Seq<Seq<SValue>>, passes: Seq<Seq<bool>>, nl: int, left_width: nat) -> Seq<Seq<SValue>>
    decreases rs.len(),
{
    if rs.len() == 0 {
        seq![]
    } else {
        right_part(rs.drop_last(), passes, nl, left_width) + if !matched_right(passes, nl, rs.len() - 1) {
            seq![nulls(left_width) + rs.last()]
        } else {
            seq![]
        }
    }
}

/// The rows of a join whose condition's verdict on left row `i` and right
/// row `j` is `passes[i][j]`.
pub open spec fn join_rows(
    ls: Seq<Seq<SValue>>,
    rs: Seq<Seq<SValue>>,
    passes: Seq<Seq<bool>>,
    kind: JoinKind,
    left_width: nat,
    right_width: nat,
) -> Seq<Seq<SValue>> {
    left_part(ls, rs, passes, kind, right_width) + if keeps_right(kind) {
        right_part(rs, passes, ls.len() as int, left_width)
    } else {
        seq![]
    }
}

pub open spec fn passes_v(p: Seq<Vec<bool>>) -> Seq<Seq<bool>> {
    p.map_values(|r: Vec<bool>| r@)
}

/// The join of two resolved tables, given the verdict `passes[i][j]` of the
/// join condition on left row `i` and right row `j` (true for every pair
/// when there is no condition): matching pairs in left-major order, each
/// unmatched left row padded with nulls when the join keeps it, then each
/// unmatched right row padded with nulls when the join keeps it.
pub fn apply_join(left: &ResolvedTable, right: &ResolvedTable, kind: JoinKind, passes: &Vec<Vec<bool>>) -> (t: ResolvedTable)
    requires
        lookup_fits(*left, *right),
        passes@.len() == left.rows@.len(),
        forall|i: int| 0 <= i < passes@.len() ==> (#[trigger] passes@[i])@.len() == right.rows@.len(),
    ensures
        same_columns(t.columns@, left.columns@ + right.columns@),
        entries_v(t.lookup@) == merged_lookup(*left, *right),
        rows_v(t.rows@) == join_rows(
            rows_v(left.rows@),
            rows_v(right.rows@),
            passes_v(passes@),
            kind,
            left.columns@.len(),
            right.columns@.len(),
        ),
{
    let columns = merge_columns(&left.columns, &right.columns);
    let lkp = merge_lookups(left, right);
    let ghost ls = rows_v(left.rows@);
    let ghost rs = rows_v(right.rows@);
    let ghost pv = passes_v(passes@);
    let nl = left.rows.len();
    let nr = right.rows.len();
    let mut seen: Vec<bool> = Vec::new();
    while seen.len() < nr
        invariant
            seen@.len() <= nr,
            forall|j: int| 0 <= j < seen@.len() ==> !(#[trigger] seen@[j]),
        decreases nr - seen.len(),
    {
        seen.push(false);
    }
    let mut rows: Vec<ResolvedRow> = Vec::new();
    assert(rows_v(rows@) =~= seq![]);
    let mut i: usize = 0;
    while i < nl
        invariant
            nl == left.rows@.len(),
            nr == right.rows@.len(),
            i <= nl,
            ls == rows_v(left.rows@),
            rs == rows_v(right.rows@),
            pv == passes_v(passes@),
            passes@.len() == nl,
            forall|k: int| 0 <= k < passes@.len() ==> (#[trigger] passes@[k])@.len() == nr,
            seen@.len() == nr,
            forall|j: int| 0 <= j < nr ==> #[trigger] seen@[j] == matched_right(pv, i as int, j),
            rows_v(rows@) == left_part(ls.take(i as int), rs, pv, kind, right.columns@.len()),
        decreases nl - i,
    {
        let ghost base = rows_v(rows@);
        let ghost seen0 = seen@;
        assert(pv[i as int] == passes@[i as int]@);
        let mut matched = false;
        let mut j: usize = 0;
        while j < nr
            invariant
                nl == left.rows@.len(),
                nr == right.rows@.len(),
                i < nl,
                j <= nr,
                ls == rows_v(left.rows@),
                rs == rows_v(right.rows@),
                pv == passes_v(passes@),
                passes@.len() == nl,
                forall|k: int| 0 <= k < passes@.len() ==> (#[trigger] passes@[k])@.len() == nr,
                pv[i as int] == passes@[i as int]@,
                seen@.len() == nr,
                forall|k: int| 0 <= k < nr ==> #[trigger] seen@[k] == (seen0[k] || (k < j && pv[i as int][k])),
                matched == any_true(pv[i as int].take(j as int)),
                rows_v(rows@) == base + matches_of(ls[i as int], rs.take(j as int), pv[i as int]),
            decreases nr - j,
        {
            proof {
                let t = rs.take(j + 1);
                assert(t.drop_last() =~= rs.take(j as int));
                assert(t.last() == rs[j as int]);
                assert(pv[i as int].take(j + 1) =~= pv[i as int].take(j as int).push(pv[i as int][j as int]));
            }
            if passes[i][j] {
                matched = true;
                seen.set(j, true);
                let m = merge_rows(&left.rows[i], &right.rows[j]);
                let ghost before = rows@;
                rows.push(m);
                assert(rows_v(rows@) =~= rows_v(before).push(row_v(m.values@)));
                assert(any_true(pv[i as int].take(j + 1))) by {
                    assert(pv[i as int].take(j + 1)[j as int]);
                }
            } else {
                assert(any_true(pv[i as int].take(j + 1)) == any_true(pv[i as int].take(j as int))) by {
                    let q1 = pv[i as int].take(j + 1);
                    let q0 = pv[i as int].take(j as int);
                    if any_true(q1) {
                        let w = choose|w: int| 0 <= w < q1.len() && q1[w];
                        assert(q0[w]);
                    }
                    if any_true(q0) {
                        let w = choose|w: int| 0 <= w < q0.len() && q0[w];
                        assert(q1[w]);
                    }
                }
            }
            j = j + 1;
        }
        assert(rs.take(j as int) =~= rs);
        assert(pv[i as int].take(rs.len() as int) =~= pv[i as int].take(j as int));
        if !matched && (kind == JoinKind::Left || kind == JoinKind::Full) {
            let pad = pad_right_row(&left.rows[i], right.columns.len());
            let ghost before = rows@;
            rows.push(pad);
            assert(rows_v(rows@) =~= rows_v(before).push(row_v(pad.values@)));
        }
        proof {
            let t = ls.take(i + 1);
            assert(t.drop_last() =~= ls.take(i as int));
            assert(t[i as int] == ls[i as int]);
            assert forall|k: int| 0 <= k < nr implies #[trigger] seen@[k] == matched_right(pv, i + 1, k) by {
                if pv[i as int][k] {
                    assert(matched_right(pv, i + 1, k));
                } else if matched_right(pv, i + 1, k) {
                    let w = choose|w: int| 0 <= w < i + 1 && #[trigger] pv[w][k];
                    assert(w < i);
                    assert(matched_right(pv, i as int, k));
                }
                if matched_right(pv, i as int, k) {
                    let w = choose|w: int| 0 <= w < i && #[trigger] pv[w][k];
                    assert(matched_right(pv, i + 1, k));
                }
            }
        }
        i = i + 1;
    }
    assert(ls.take(i as int) =~= ls);
    if kind == JoinKind::Right || kind == JoinKind::Full {
        let ghost lp = rows_v(rows@);
        let mut j: usize = 0;
        assert(right_part(rs.take(0), pv, nl as int, left.columns@.len()) =~= seq![]);
        while j < nr
            invariant
                nr == right.rows@.len(),
                nl == left.rows@.len(),
                j <= nr,
                rs == rows_v(right.rows@),
                seen@.len() == nr,
                forall|k: int| 0 <= k < nr ==> #[trigger] seen@[k] == matched_right(pv, nl as int, k),
                rows_v(rows@) == lp + right_part(rs.take(j as int), pv, nl as int, left.columns@.len()),
            decreases nr - j,
        {
            proof {
                let t = rs.take(j + 1);
                assert(t.drop_last() =~= rs.take(j as int));
                assert(t.last() == rs[j as int]);
            }
            if !seen[j] {
                let pad = pad_left_row(&right.rows[j], left.columns.len());
                let ghost before = rows@;
                rows.push(pad);
                assert(rows_v(rows@) =~= rows_v(before).push(row_v(pad.values@)));
            }
            j = j + 1;
        }
        assert(rs.take(j as int) =~= rs);
    }
    ResolvedTable { columns, lookup: lkp, rows }
}

/// A source's rows as a resolved table: the columns at `indices`, looked up
/// under `alias`, and the rows' values (read from the source at those
/// positions).
pub fn materialize_table(
    all_columns: &Vec<QueryColumn>,
    indices: &Vec<usize>,
    alias: &str,
    cells: Vec<Vec<SqlValue>>,
) -> (t: ResolvedTable)
    requires
        forall|k: int| 0 <= k < indices@.len() ==> (#[trigger] indices@[k]) < all_columns@.len(),
    ensures
        same_columns(t.columns@, indices@.map_values(|k: usize| all_columns@[k as int])),
        entries_v(t.lookup@) == column_lookup_spec(t.columns@, alias@, 0),
        rows_v(t.rows@) == cells@.map_values(|r: Vec<SqlValue>| row_v(r@)),
{
    let mut columns: Vec<QueryColumn> = Vec::new();
    let mut k: usize = 0;
    while k < indices.len()
        invariant
            k <= indices@.len(),
            forall|m: int| 0 <= m < indices@.len() ==> (#[trigger] indices@[m]) < all_columns@.len(),
            columns@.len() == k,
            forall|m: int| 0 <= m < k ==> (#[trigger] columns@[m]).name@ == all_columns@[indices@[m] as int].name@
                && columns@[m].col_type == all_columns@[indices@[m] as int].col_type,
        decreases indices.len() - k,
    {
        let c = &all_columns[indices[k]];
        columns.push(QueryColumn { name: c.name.clone(), col_type: c.col_type });
        k = k + 1;
    }
    let lkp = column_lookup(&columns, alias, 0);
    let ghost cv = cells@.map_values(|r: Vec<SqlValue>| row_v(r@));
    let mut src = cells;
    let n = src.len();
    let mut rows: Vec<ResolvedRow> = Vec::new();
    let mut i: usize = 0;
    while i < n
        invariant
            i <= n,
            n == cv.len(),
            src@.len() == n - i,
            forall|m: int| 0 <= m < src@.len() ==> row_v((#[trigger] src@[m])@) == cv[m + i],
            rows_v(rows@) == cv.take(i as int),
        decreases n - i,
    {
        let ghost src0 = src@;
        let values = src.remove(0);
        assert(row_v(values@) == cv[i as int]);
        let ghost before = rows@;
        rows.push(ResolvedRow { values });
        assert(rows_v(rows@) =~= rows_v(before).push(cv[i as int]));
        assert(cv.take(i + 1) =~= cv.take(i as int).push(cv[i as int]));
        assert forall|m: int| 0 <= m < src@.len() implies row_v((#[trigger] src@[m])@) == cv[m + i + 1] by {
            assert(src@[m] == src0[m + 1]);
        }
        i = i + 1;
    }
    assert(cv.take(i as int) =~= cv);
    ResolvedTable { columns, lookup: lkp, rows }
}

/// How many of `rows` have a value other than NULL at position `idx`.
pub open spec fn present_count(rows: Seq<Seq<SValue>>, idx: int) -> nat
    decreases rows.len(),
{
    if rows.len() == 0 {
        0
    } else {
        present_count(rows.drop_last(), idx) + if 0 <= idx < rows.last().len() && rows.last()[idx] != SValue::Null {
            1nat
        } else {
            0nat
        }
    }
}

/// The rows of a group, as values.
pub open spec fn group_v(group_rows: Seq<&ResolvedRow>) -> Seq<Seq<SValue>> {
    group_rows.map_values(|r: &ResolvedRow| row_v(r.values@))
}

/// The position an aggregate reads directly: for an identifier argument
/// and a non-empty group, the identifier's position in the lookup.
pub open spec fn aggregate_index_spec(
    row_count: nat,
    table_lookup: Seq<(Seq<char>, usize)>,
    expr: Expression,
) -> Option<usize> {
    match expr {
        Expression::Identifier(path) => if row_count == 0 {
            None
        } else {
            lookup(table_lookup, path_key(strs_v(path@)))
        },
        _ => None,
    }
}

/// The position that an aggregate over `expr` can read straight out of the
/// rows of a group, when `expr` names a column and the group has rows.
pub fn aggregate_identifier_index(
    group_rows: &[&ResolvedRow],
    table_lookup: &Vec<(String, usize)>,
    expr: &Expression,
) -> (r: Option<usize>)
    ensures
        r == aggregate_index_spec(group_rows@.len(), entries_v(table_lookup@), *expr),
{
    match expr {
        Expression::Identifier(path) => {
            if group_rows.len() == 0 {
                return None;
            }
            lookup_path_index(table_lookup, path)
        },
        _ => None,
    }
}

/// `COUNT(column)` over a group: the number of rows whose value in that
/// column is not NULL; `None` when the argument is not a column of a
/// non-empty group.
pub fn aggregate_count_identifier(
    group_rows: &[&ResolvedRow],
    table_lookup: &Vec<(String, usize)>,
    expr: &Expression,
) -> (r: Option<i64>)
    ensures
        r == match aggregate_index_spec(group_rows@.len(), entries_v(table_lookup@), *expr) {
            Some(idx) => Some(present_count(group_v(group_rows@), idx as int) as i64),
            None => None::<i64>,
        },
{
    let idx = match aggregate_identifier_index(group_rows, table_lookup, expr) {
        Some(idx) => idx,
        None => return None,
    };
    let mut count: usize = 0;
    let mut k: usize = 0;
    while k < group_rows.len()
        invariant
            k <= group_rows@.len(),
            count == present_count(group_v(group_rows@.take(k as int)), idx as int),
            count <= k,
        decreases group_rows@.len() - k,
    {
        proof {
            assert(group_v(group_rows@.take(k + 1)).drop_last() =~= group_v(group_rows@.take(k as int)));
        }
        let row = group_rows[k];
        if idx < row.values.len() {
            match &row.values[idx] {
                SqlValue::Null => {},
                _ => {
                    count = count + 1;
                },
            }
        }
        k = k + 1;
    }
    proof {
        assert(group_rows@.take(k as int) =~= group_rows@);
    }
    Some(count as i64)
}

/// The lookup positions of a projection made of column names only; `None`
/// when an item is something else or names no known column.
pub open spec fn identifier_positions(items: Seq<SelectItem>, table_lookup: Seq<(Seq<char>, usize)>) -> Option<Seq<usize>>
    decreases items.len(),
{
    if items.len() == 0 {
        Some(Seq::empty())
    } else {
        match identifier_positions(items.drop_last(), table_lookup) {
            None => None,
            Some(ix) => match items.last().expr {
                Expression::Identifier(path) => match lookup(table_lookup, path_key(strs_v(path@))) {
                    Some(i) => Some(ix.push(i)),
                    None => None,
                },
                _ => None,
            },
        }
    }
}

/// The value at position `i` of a row; NULL past its end.
pub open spec fn cell(row: Seq<SValue>, i: int) -> SValue {
    if 0 <= i < row.len() {
        row[i]
    } else {
        SValue::Null
    }
}

/// The name of the result column of projection item `idx`: its alias, or
/// the name the item's expression suggests.
pub open spec fn item_name(item: SelectItem, idx: int) -> Seq<char> {
    match item.alias {
        Some(a) => a@,
        None => projection_name_spec(item.expr, idx),
    }
}

/// A projection made of column names only, computed by copying columns:
/// the result column of each item is named by `item_name` and typed by the
/// first row's value, and each row keeps the named columns in order (NULL
/// past a row's end). `None` when there are no rows or an item is not a
/// known column.
pub fn execute_simple_identifier_projection(
    select: &SelectStatement,
    rows: &[ResolvedRow],
    table_lookup: &Vec<(String, usize)>,
) -> (r: Option<QueryResult>)
    ensures
        r is None <==> (rows@.len() == 0 || identifier_positions(select.projection@, entries_v(table_lookup@)) is None),
        r matches Some(res) ==> {
            let ix = identifier_positions(select.projection@, entries_v(table_lookup@))->Some_0;
            let first = rows@[0].values@;
            &&& res.columns@.len() == select.projection@.len()
            &&& forall|k: int| 0 <= k < res.columns@.len() ==> {
                &&& (#[trigger] res.columns@[k]).name@ == item_name(select.projection@[k], k)
                &&& res.columns@[k].col_type == (if ix[k] < first.len() {
                    value_type(first[ix[k] as int])
                } else {
                    QueryColumnType::Null
                })
            }
            &&& res.rows@.len() == rows@.len()
            &&& forall|i: int| 0 <= i < res.rows@.len() ==> row_v(#[trigger] res.rows@[i]@) == Seq::new(
                ix.len(),
                |k: int| cell(row_v(rows@[i].values@), ix[k] as int),
            )
        },
{
    if rows.len() == 0 {
        return None;
    }
    let ghost tl = entries_v(table_lookup@);
    let items = &select.projection;
    let mut indices: Vec<usize> = Vec::new();
    let mut k: usize = 0;
    while k < items.len()
        invariant
            k <= items@.len(),
            items@ == select.projection@,
            tl == entries_v(table_lookup@),
            identifier_positions(items@.take(k as int), tl) == Some(indices@),
        decreases items.len() - k,
    {
        proof {
            assert(items@.take(k + 1).drop_last() =~= items@.take(k as int));
            assert(items@.take(k + 1).last() == items@[k as int]);
        }
        match &items[k].expr {
            Expression::Identifier(path) => {
                match lookup_path_index(table_lookup, path) {
                    Some(i) => indices.push(i),
                    None => {
                        proof {
                            assert(identifier_positions(items@.take(k + 1), tl) is None);
                            lemma_positions_none_extends(items@, tl, k as int);
                            assert(items@ == select.projection@);
                        }
                        return None;
                    },
                }
            },
            _ => {
                proof {
                    assert(identifier_positions(items@.take(k + 1), tl) is None);
                    lemma_positions_none_extends(items@, tl, k as int);
                    assert(items@ == select.projection@);
                }
                return None;
            },
        }
        k = k + 1;
    }
    proof {
        assert(items@.take(k as int) =~= items@);
        lemma_positions_len(items@, tl);
    }
    let ghost ix = indices@;
    let first = &rows[0];
    let mut columns: Vec<QueryColumn> = Vec::new();
    let mut k: usize = 0;
    while k < items.len()
        invariant
            k <= items@.len(),
            items@ == select.projection@,
            *first == rows@[0],
            ix == indices@,
            ix.len() == items@.len(),
            columns@.len() == k,
            forall|j: int| 0 <= j < k ==> {
                &&& (#[trigger] columns@[j]).name@ == item_name(items@[j], j)
                &&& columns@[j].col_type == (if ix[j] < first.values@.len() {
                    value_type(first.values@[ix[j] as int])
                } else {
                    QueryColumnType::Null
                })
            },
        decreases items.len() - k,
    {
        let name = match &items[k].alias {
            Some(a) => a.clone(),
            None => projection_name(&items[k].expr, k),
        };
        let col_type = if indices[k] < first.values.len() {
            infer_query_type(&first.values[indices[k]])
        } else {
            QueryColumnType::Null
        };
        columns.push(QueryColumn { name, col_type });
        k = k + 1;
    }
    let mut out_rows: Vec<Vec<SqlValue>> = Vec::new();
    let mut i: usize = 0;
    while i < rows.len()
        invariant
            i <= rows@.len(),
            ix == indices@,
            ix.len() == select.projection@.len(),
            out_rows@.len() == i,
            forall|q: int| 0 <= q < i ==> row_v(#[trigger] out_rows@[q]@) == Seq::new(
                ix.len(),
                |k: int| cell(row_v(rows@[q].values@), ix[k] as int),
            ),
        decreases rows.len() - i,
    {
        let row = &rows[i];
        let mut out: Vec<SqlValue> = Vec::new();
        let mut k: usize = 0;
        while k < indices.len()
            invariant
                k <= indices@.len(),
                ix == indices@,
                i < rows@.len(),
                *row == rows@[i as int],
                row_v(out@) =~= Seq::new(k as nat, |j: int| cell(row_v(row.values@), ix[j] as int)),
            decreases indices.len() - k,
        {
            let v = if indices[k] < row.values.len() {
                clone_value(&row.values[indices[k]])
            } else {
                SqlValue::Null
            };
            let ghost o0 = out@;
            out.push(v);
            proof {
                assert(row_v(out@) =~= row_v(o0).push(value_v(v)));
            }
            k = k + 1;
        }
        out_rows.push(out);
        i = i + 1;
    }
    Some(QueryResult { columns, rows: out_rows })
}

/// Positions, when there are any, come one per item.
proof fn lemma_positions_len(items: Seq<SelectItem>, tl: Seq<(Seq<char>, usize)>)
    ensures
        identifier_positions(items, tl) matches Some(ix) ==> ix.len() == items.len(),
    decreases items.len(),
{
    if items.len() > 0 {
        lemma_positions_len(items.drop_last(), tl);
    }
}

/// A projection whose first `k` items have positions but whose item `k`
/// has none has no positions at all.
proof fn lemma_positions_none_extends(items: Seq<SelectItem>, tl: Seq<(Seq<char>, usize)>, k: int)
    requires
        0 <= k < items.len(),
        identifier_positions(items.take(k + 1), tl) is None,
    ensures
        identifier_positions(items, tl) is None,
    decreases items.len() - k,
{
    if k + 1 < items.len() {
        assert(items.take(k + 2).drop_last() =~= items.take(k + 1));
        lemma_positions_none_extends(items, tl, k + 1);
    } else {
        assert(items.take(k + 1) =~= items);
    }
}

} // verus!
