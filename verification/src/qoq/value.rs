//! SQL values, result columns and results, and the value helpers that need
//! no arithmetic: rendering, typing and duplicate detection.
use vstd::prelude::*;
use crate::text::{int_text, i64_text, utf8_lossy, from_utf8_lossy, chars_of, string_from_chars, push_char};

verus! {

/// A SQL value. A double is carried as the decimal text that `f64`'s
/// `Display` writes for it; arithmetic on it happens outside this library.
#[derive(Debug, Clone, PartialEq)]
pub enum SqlValue {
    Null,
    Bool(bool),
    Int(i64),
    Float(String),
    Text(String),
    Bytes(Vec<u8>),
}

/// The type of a result column.
#[derive(Debug, Clone, Copy, PartialEq, Eq, Structural)]
pub enum QueryColumnType {
    Null,
    Boolean,
    Integer,
    Double,
    Varchar,
    Blob,
}

/// A result column: its name and type.
#[derive(Debug, Clone, PartialEq)]
pub struct QueryColumn {
    pub name: String,
    pub col_type: QueryColumnType,
}

/// A query result: its columns and rows.
#[derive(Debug, Clone, PartialEq)]
pub struct QueryResult {
    pub columns: Vec<QueryColumn>,
    pub rows: Vec<Vec<SqlValue>>,
}

/// The column type a value suggests.
pub open spec fn value_type(v: SqlValue) -> QueryColumnType {
    match v {
        SqlValue::Null => QueryColumnType::Null,
        SqlValue::Bool(_) => QueryColumnType::Boolean,
        SqlValue::Int(_) => QueryColumnType::Integer,
        SqlValue::Float(_) => QueryColumnType::Double,
        SqlValue::Text(_) => QueryColumnType::Varchar,
        SqlValue::Bytes(_) => QueryColumnType::Blob,
    }
}

pub fn infer_query_type(value: &SqlValue) -> (t: QueryColumnType)
    ensures
        t == value_type(*value),
{
    match value {
        SqlValue::Null => QueryColumnType::Null,
        SqlValue::Bool(_) => QueryColumnType::Boolean,
        SqlValue::Int(_) => QueryColumnType::Integer,
        SqlValue::Float(_) => QueryColumnType::Double,
        SqlValue::Text(_) => QueryColumnType::Varchar,
        SqlValue::Bytes(_) => QueryColumnType::Blob,
    }
}

/// `s` without a trailing `.0`.
pub open spec fn strip_point_zero(s: Seq<char>) -> Seq<char> {
    if s.len() >= 2 && s[s.len() - 2] == '.' && s[s.len() - 1] == '0' {
        s.subrange(0, s.len() - 2)
    } else {
        s
    }
}

/// A double's text without a trailing `.0`.
pub fn strip_point_zero_exec(f: &String) -> (r: String)
    ensures
        r@ == strip_point_zero(f@),
{
    let c = chars_of(f.as_str());
    let n = c.len();
    if n >= 2 && c[n - 2] == '.' && c[n - 1] == '0' {
        string_from_chars(&c, 0, n - 2)
    } else {
        f.clone()
    }
}

pub open spec fn bool_text(b: bool) -> Seq<char> {
    if b {
        "true"@
    } else {
        "false"@
    }
}

fn bool_text_exec(b: bool) -> (r: String)
    ensures
        r@ == bool_text(b),
{
    if b {
        "true".to_owned()
    } else {
        "false".to_owned()
    }
}

/// The text of a value: empty for null.
pub open spec fn value_text(v: SqlValue) -> Seq<char> {
    match v {
        SqlValue::Null => seq![],
        SqlValue::Bool(b) => bool_text(b),
        SqlValue::Int(i) => int_text(i as int),
        SqlValue::Float(f) => strip_point_zero(f@),
        SqlValue::Text(s) => s@,
        SqlValue::Bytes(b) => utf8_lossy(b@),
    }
}

pub fn sql_to_string(value: &SqlValue) -> (r: String)
    ensures
        r@ == value_text(*value),
{
    match value {
        SqlValue::Null => String::new(),
        SqlValue::Bool(b) => bool_text_exec(*b),
        SqlValue::Int(i) => i64_text(*i),
        SqlValue::Float(f) => strip_point_zero_exec(f),
        SqlValue::Text(s) => s.clone(),
        SqlValue::Bytes(b) => from_utf8_lossy(b),
    }
}

/// The hexadecimal digit `d`, lowercase.
pub open spec fn hex_char(d: int) -> char {
    seq!['0', '1', '2', '3', '4', '5', '6', '7', '8', '9', 'a', 'b', 'c', 'd', 'e', 'f'][d]
}

/// Lowercase hexadecimal rendering of a byte, without leading zeros.
pub open spec fn hex_text(n: nat) -> Seq<char>
    decreases n,
{
    if n < 16 {
        seq![hex_char(n as int)]
    } else {
        hex_text(n / 16).push(hex_char((n % 16) as int))
    }
}

/// A byte string as `{:x?}` writes it: `[` the bytes in hex `, ` `]`.
pub open spec fn hex_list(b: Seq<u8>) -> Seq<char>
    decreases b.len(),
{
    if b.len() == 0 {
        seq![]
    } else if b.len() == 1 {
        hex_text(b[0] as nat)
    } else {
        hex_list(b.drop_last()) + ", "@ + hex_text(b.last() as nat)
    }
}

/// The key by which distinct values are told apart: the variant and its
/// rendering.
pub open spec fn value_key(v: SqlValue) -> Seq<char> {
    match v {
        SqlValue::Null => "null"@,
        SqlValue::Bool(b) => "b:"@ + bool_text(b),
        SqlValue::Int(i) => "i:"@ + int_text(i as int),
        SqlValue::Float(f) => "f:"@ + f@,
        SqlValue::Text(s) => "s:"@ + s@,
        SqlValue::Bytes(b) => "x:["@ + hex_list(b@) + "]"@,
    }
}

fn hex_exec(d: u8) -> (c: char)
    requires
        d < 16,
    ensures
        c == hex_char(d as int),
{
    match d {
        0 => '0',
        1 => '1',
        2 => '2',
        3 => '3',
        4 => '4',
        5 => '5',
        6 => '6',
        7 => '7',
        8 => '8',
        9 => '9',
        10 => 'a',
        11 => 'b',
        12 => 'c',
        13 => 'd',
        14 => 'e',
        _ => 'f',
    }
}

fn push_hex(s: &mut String, n: u8)
    ensures
        final(s)@ == old(s)@ + hex_text(n as nat),
{
    if n >= 16 {
        push_char(s, hex_exec(n / 16));
        assert(hex_text((n / 16) as nat) == seq![hex_char((n / 16) as int)]);
    }
    push_char(s, hex_exec(n % 16));
    proof {
        if n >= 16 {
            assert(old(s)@.push(hex_char((n / 16) as int)).push(hex_char((n % 16) as int)) =~= old(s)@ + hex_text(n as nat));
        } else {
            assert(old(s)@.push(hex_char((n % 16) as int)) =~= old(s)@ + hex_text(n as nat));
        }
    }
}

fn hex_list_exec(b: &Vec<u8>) -> (r: String)
    ensures
        r@ == hex_list(b@),
{
    let mut r = String::new();
    let mut i: usize = 0;
    while i < b.len()
        invariant
            i <= b@.len(),
            r@ == hex_list(b@.take(i as int)),
        decreases b.len() - i,
    {
        if i > 0 {
            r.append(", ");
        }
        push_hex(&mut r, b[i]);
        proof {
            let t = b@.take(i + 1);
            assert(t.drop_last() =~= b@.take(i as int));
            assert(t.last() == b@[i as int]);
            if i == 0 {
                assert(hex_list(b@.take(0)) =~= seq![]);
            }
        }
        i = i + 1;
    }
    assert(b@.take(i as int) =~= b@);
    r
}

pub fn sql_value_key(value: &SqlValue) -> (r: String)
    ensures
        r@ == value_key(*value),
{
    match value {
        SqlValue::Null => "null".to_owned(),
        SqlValue::Bool(b) => {
            let mut r = "b:".to_owned();
            r.append(bool_text_exec(*b).as_str());
            r
        },
        SqlValue::Int(i) => {
            let mut r = "i:".to_owned();
            r.append(i64_text(*i).as_str());
            r
        },
        SqlValue::Float(f) => {
            let mut r = "f:".to_owned();
            r.append(f.as_str());
            r
        },
        SqlValue::Text(s) => {
            let mut r = "s:".to_owned();
            r.append(s.as_str());
            r
        },
        SqlValue::Bytes(b) => {
            let mut r = "x:[".to_owned();
            r.append(hex_list_exec(b).as_str());
            r.append("]");
            r
        },
    }
}

/// The key of a row: its values' keys joined by `|`.
pub open spec fn row_key_spec(row: Seq<SqlValue>) -> Seq<char>
    decreases row.len(),
{
    if row.len() == 0 {
        seq![]
    } else if row.len() == 1 {
        value_key(row[0])
    } else {
        row_key_spec(row.drop_last()) + "|"@ + value_key(row.last())
    }
}

pub fn row_key(row: &Vec<SqlValue>) -> (r: String)
    ensures
        r@ == row_key_spec(row@),
{
    let mut r = String::new();
    let mut i: usize = 0;
    while i < row.len()
        invariant
            i <= row@.len(),
            r@ == row_key_spec(row@.take(i as int)),
        decreases row.len() - i,
    {
        if i > 0 {
            r.append("|");
        }
        r.append(sql_value_key(&row[i]).as_str());
        proof {
            let t = row@.take(i + 1);
            assert(t.drop_last() =~= row@.take(i as int));
            assert(t.last() == row@[i as int]);
            if i == 0 {
                assert(row_key_spec(row@.take(0)) =~= seq![]);
            }
        }
        i = i + 1;
    }
    assert(row@.take(i as int) =~= row@);
    r
}

/// Whether some row before `i` has the same key as row `i`.
pub open spec fn seen_before(rows: Seq<Vec<SqlValue>>, i: int) -> bool {
    exists|j: int| 0 <= j < i && row_key_spec((#[trigger] rows[j])@) == row_key_spec(rows[i]@)
}

/// The rows without those whose key an earlier row already had, in order.
pub open spec fn deduped(rows: Seq<Vec<SqlValue>>) -> Seq<Vec<SqlValue>>
    decreases rows.len(),
{
    if rows.len() == 0 {
        seq![]
    } else if seen_before(rows, rows.len() - 1) {
        deduped(rows.drop_last())
    } else {
        deduped(rows.drop_last()).push(rows.last())
    }
}

/// No two rows share a key.
pub open spec fn distinct_row_keys(rows: Seq<Vec<SqlValue>>) -> bool {
    forall|a: int, b: int|
        0 <= a < b < rows.len() ==> row_key_spec((#[trigger] rows[a])@) != row_key_spec((#[trigger] rows[b])@)
}

proof fn lemma_distinct_by_key_of(rows: Seq<Vec<SqlValue>>)
    requires
        forall|a: int, b: int| 0 <= a < b < rows.len() ==> key_of(#[trigger] rows[a]) != key_of(#[trigger] rows[b]),
    ensures
        distinct_row_keys(rows),
{
    reveal(key_of);
}

/// The row key, as a name of its own so that proofs about duplicate removal
/// need not look inside it.
#[verifier::opaque]
spec fn key_of(r: Vec<SqlValue>) -> Seq<char> {
    row_key_spec(r@)
}

proof fn lemma_deduped_from_input(rows: Seq<Vec<SqlValue>>)
    ensures
        forall|a: int| 0 <= a < deduped(rows).len() ==> exists|j: int| 0 <= j < rows.len() && rows[j] == #[trigger] deduped(rows)[a],
    decreases rows.len(),
{
    if rows.len() > 0 {
        let init = rows.drop_last();
        lemma_deduped_from_input(init);
        let d0 = deduped(init);
        let d = deduped(rows);
        let n = rows.len() - 1;
        assert forall|a: int| 0 <= a < d.len() implies exists|j: int| 0 <= j < rows.len() && rows[j] == #[trigger] d[a] by {
            if a < d0.len() {
                assert(d[a] == d0[a]);
                let j = choose|j: int| 0 <= j < init.len() && init[j] == d0[a];
                assert(rows[j] == init[j]);
            } else {
                assert(rows[n] == d[a]);
            }
        }
    }
}

proof fn lemma_deduped_keeps_keys(rows: Seq<Vec<SqlValue>>)
    ensures
        forall|j: int|
            0 <= j < rows.len() ==> exists|a: int|
                0 <= a < deduped(rows).len() && key_of(#[trigger] deduped(rows)[a]) == key_of(#[trigger] rows[j]),
    decreases rows.len(),
{
    if rows.len() > 0 {
        let init = rows.drop_last();
        lemma_deduped_keeps_keys(init);
        let d0 = deduped(init);
        let d = deduped(rows);
        let n = rows.len() - 1;
        assert forall|j: int| 0 <= j < rows.len() implies exists|a: int|
            0 <= a < d.len() && key_of(#[trigger] d[a]) == key_of(#[trigger] rows[j]) by {
            if seen_before(rows, n) {
                if j < n {
                    assert(rows[j] == init[j]);
                    let a = choose|a: int| 0 <= a < d0.len() && key_of(#[trigger] d0[a]) == key_of(#[trigger] init[j]);
                    assert(d[a] == d0[a]);
                } else {
                    let k = choose|k: int| 0 <= k < n && row_key_spec((#[trigger] rows[k])@) == row_key_spec(rows[n]@);
                    assert(rows[k] == init[k]);
                    let a = choose|a: int| 0 <= a < d0.len() && key_of(#[trigger] d0[a]) == key_of(#[trigger] init[k]);
                    assert(d[a] == d0[a]);
                    reveal(key_of);
                }
            } else {
                if j < n {
                    assert(rows[j] == init[j]);
                    let a = choose|a: int| 0 <= a < d0.len() && key_of(#[trigger] d0[a]) == key_of(#[trigger] init[j]);
                    assert(d[a] == d0[a]);
                } else {
                    assert(d[d0.len() as int] == rows[n]);
                }
            }
        }
    }
}

proof fn lemma_deduped_distinct(rows: Seq<Vec<SqlValue>>)
    ensures
        forall|a: int, b: int| 0 <= a < b < deduped(rows).len() ==> key_of(#[trigger] deduped(rows)[a]) != key_of(#[trigger] deduped(rows)[b]),
    decreases rows.len(),
{
    if rows.len() > 0 {
        let init = rows.drop_last();
        lemma_deduped_distinct(init);
        lemma_deduped_from_input(init);
        let d0 = deduped(init);
        let d = deduped(rows);
        let n = rows.len() - 1;
        if !seen_before(rows, n) {
            assert forall|a: int, b: int| 0 <= a < b < d.len() implies key_of(#[trigger] d[a]) != key_of(#[trigger] d[b]) by {
                assert(d[a] == d0[a]);
                if b < d0.len() {
                    assert(d[b] == d0[b]);
                } else {
                    let j = choose|j: int| 0 <= j < init.len() && init[j] == d0[a];
                    assert(rows[j] == init[j]);
                    assert(d[b] == rows[n]);
                    if key_of(d[a]) == key_of(d[b]) {
                        reveal(key_of);
                        assert(row_key_spec(rows[j]@) == row_key_spec(rows[n]@));
                        assert(seen_before(rows, n));
                    }
                }
            }
        }
    }
}

proof fn lemma_deduped_distinct_is_identity(rows: Seq<Vec<SqlValue>>)
    requires
        distinct_row_keys(rows),
    ensures
        deduped(rows) == rows,
    decreases rows.len(),
{
    if rows.len() > 0 {
        let init = rows.drop_last();
        assert forall|a: int, b: int| 0 <= a < b < init.len() implies row_key_spec((#[trigger] init[a])@) != row_key_spec((#[trigger] init[b])@) by {
            assert(init[a] == rows[a]);
            assert(init[b] == rows[b]);
        }
        lemma_deduped_distinct_is_identity(init);
        let n = rows.len() - 1;
        if seen_before(rows, n) {
            let j = choose|j: int| 0 <= j < n && row_key_spec((#[trigger] rows[j])@) == row_key_spec(rows[n]@);
            assert(row_key_spec(rows[j]@) != row_key_spec(rows[n]@));
        }
        assert(init.push(rows[n]) =~= rows);
    }
}

/// Removing duplicates keeps one row per key: the result's keys are
/// distinct, every row comes from the input, every input key is kept, and
/// removing duplicates again changes nothing.
pub proof fn lemma_dedupe_laws(rows: Seq<Vec<SqlValue>>)
    ensures
        distinct_row_keys(deduped(rows)),
        forall|a: int| 0 <= a < deduped(rows).len() ==> exists|j: int| 0 <= j < rows.len() && rows[j] == #[trigger] deduped(rows)[a],
        forall|j: int|
            0 <= j < rows.len() ==> exists|a: int|
                0 <= a < deduped(rows).len() && row_key_spec((#[trigger] deduped(rows)[a])@) == row_key_spec((#[trigger] rows[j])@),
        deduped(deduped(rows)) == deduped(rows),
{
    lemma_deduped_from_input(rows);
    lemma_deduped_keeps_keys(rows);
    lemma_deduped_distinct(rows);
    lemma_distinct_by_key_of(deduped(rows));
    lemma_deduped_distinct_is_identity(deduped(rows));
    reveal(key_of);
}

spec fn has_key(v: Seq<String>, k: Seq<char>) -> bool {
    exists|j: int| 0 <= j < v.len() && (#[trigger] v[j])@ == k
}

spec fn key_before(rows: Seq<Vec<SqlValue>>, i: int, k: Seq<char>) -> bool {
    exists|j: int| 0 <= j < i && row_key_spec((#[trigger] rows[j])@) == k
}

fn contains_str(v: &Vec<String>, k: &String) -> (r: bool)
    ensures
        r == exists|j: int| 0 <= j < v@.len() && (#[trigger] v@[j])@ == k@,
{
    let mut i: usize = 0;
    while i < v.len()
        invariant
            i <= v@.len(),
            forall|j: int| 0 <= j < i ==> (#[trigger] v@[j])@ != k@,
        decreases v.len() - i,
    {
        if v[i] == *k {
            return true;
        }
        i = i + 1;
    }
    false
}

/// Drops every row whose key an earlier row already had (see `deduped`).
pub fn dedupe_rows(rows: &mut Vec<Vec<SqlValue>>)
    ensures
        final(rows)@ == deduped(old(rows)@),
{
    let ghost orig = rows@;
    let mut input: Vec<Vec<SqlValue>> = Vec::new();
    std::mem::swap(rows, &mut input);
    let mut seen: Vec<String> = Vec::new();
    let mut out: Vec<Vec<SqlValue>> = Vec::new();
    let n = input.len();
    let mut i: usize = 0;
    assert(orig.take(0) =~= seq![]);
    while i < n
        invariant
            n == orig.len(),
            i <= n,
            input@ == orig.skip(i as int),
            out@ == deduped(orig.take(i as int)),
            forall|k: Seq<char>| #[trigger] has_key(seen@, k) <==> key_before(orig, i as int, k),
        decreases n - i,
    {
        let row = input.remove(0);
        assert(row == orig[i as int]);
        assert(input@ =~= orig.skip(i + 1));
        let key = row_key(&row);
        let ghost t = orig.take(i + 1);
        assert(t.drop_last() =~= orig.take(i as int));
        assert(t.last() == orig[i as int]);
        assert(seen_before(t, i as int) <==> key_before(orig, i as int, key@)) by {
            if seen_before(t, i as int) {
                let j = choose|j: int| 0 <= j < i && row_key_spec((#[trigger] t[j])@) == row_key_spec(t[i as int]@);
                assert(t[j] == orig[j]);
            }
            if exists|j: int| 0 <= j < i && row_key_spec((#[trigger] orig[j])@) == key@ {
                let j = choose|j: int| 0 <= j < i && row_key_spec((#[trigger] orig[j])@) == key@;
                assert(t[j] == orig[j]);
            }
        }
        let ghost seen0 = seen@;
        let c = contains_str(&seen, &key);
        assert(c == has_key(seen0, key@));
        assert(has_key(seen0, key@) == key_before(orig, i as int, key@));
        assert(deduped(t) == if seen_before(t, i as int) {
            deduped(orig.take(i as int))
        } else {
            deduped(orig.take(i as int)).push(orig[i as int])
        });
        if !c {
            seen.push(key);
            out.push(row);
            proof {
                assert forall|k: Seq<char>| #[trigger] has_key(seen@, k) <==> key_before(orig, i + 1, k) by {
                    assert(has_key(seen0, k) <==> key_before(orig, i as int, k));
                    if exists|j: int| 0 <= j < seen@.len() && (#[trigger] seen@[j])@ == k {
                        let j = choose|j: int| 0 <= j < seen@.len() && (#[trigger] seen@[j])@ == k;
                        if j < seen0.len() {
                            assert(seen0[j] == seen@[j]);
                        }
                    }
                    if exists|j: int| 0 <= j < i + 1 && row_key_spec((#[trigger] orig[j])@) == k {
                        let j = choose|j: int| 0 <= j < i + 1 && row_key_spec((#[trigger] orig[j])@) == k;
                        if j < i {
                            let j2 = choose|j2: int| 0 <= j2 < seen0.len() && (#[trigger] seen0[j2])@ == k;
                            assert(seen@[j2] == seen0[j2]);
                        } else {
                            assert(seen@[seen0.len() as int]@ == k);
                        }
                    }
                }
            }
        } else {
            proof {
                assert forall|k: Seq<char>| #[trigger] has_key(seen@, k) <==> key_before(orig, i + 1, k) by {
                    assert(has_key(seen0, k) <==> key_before(orig, i as int, k));
                    if exists|j: int| 0 <= j < i + 1 && row_key_spec((#[trigger] orig[j])@) == k {
                        let j = choose|j: int| 0 <= j < i + 1 && row_key_spec((#[trigger] orig[j])@) == k;
                        if j == i {
                            let j2 = choose|j2: int| 0 <= j2 < seen@.len() && (#[trigger] seen@[j2])@ == key@;
                            assert(seen@[j2]@ == k);
                        }
                    }
                }
            }
        }
        i = i + 1;
    }
    assert(orig.take(n as int) =~= orig);
    *rows = out;
}

} // verus!
