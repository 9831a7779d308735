use matchbox_vm::qoq::ast::{Expression, JoinKind};
use matchbox_vm::qoq::rows::{
    aggregate_count_identifier, aggregate_identifier_index, apply_join, column_lookup, cross_join, lookup_path_index, materialize_table, merge_lookups, pad_left_row,
    pad_right_row, ResolvedRow, ResolvedTable,
};
use matchbox_vm::qoq::value::{QueryColumn, QueryColumnType, SqlValue};

fn col(name: &str) -> QueryColumn {
    QueryColumn { name: name.to_string(), col_type: QueryColumnType::Integer }
}

fn int_rows(rows: &[&[i64]]) -> Vec<Vec<SqlValue>> {
    rows.iter().map(|r| r.iter().map(|v| SqlValue::Int(*v)).collect()).collect()
}

fn table(alias: &str, names: &[&str], rows: &[&[i64]]) -> ResolvedTable {
    let cols: Vec<QueryColumn> = names.iter().map(|n| col(n)).collect();
    let idx: Vec<usize> = (0..cols.len()).collect();
    materialize_table(&cols, &idx, alias, int_rows(rows))
}

fn values(t: &ResolvedTable) -> Vec<Vec<SqlValue>> {
    t.rows.iter().map(|r| r.values.clone()).collect()
}

#[test]
fn lookup_by_bare_and_qualified_name() {
    let lk = column_lookup(&vec![col("Id"), col("Name")], "P", 3);
    assert_eq!(lookup_path_index(&lk, &vec!["id".to_string()]), Some(3));
    assert_eq!(lookup_path_index(&lk, &vec!["p".to_string(), "NAME".to_string()]), Some(4));
    assert_eq!(lookup_path_index(&lk, &vec!["q".to_string(), "name".to_string()]), None);
    assert_eq!(lk.len(), 4);
}

#[test]
fn a_later_column_wins_a_shared_name() {
    let lk = column_lookup(&vec![col("x"), col("X")], "t", 0);
    assert_eq!(lookup_path_index(&lk, &vec!["x".to_string()]), Some(1));
}

#[test]
fn materialize_selects_columns() {
    let cols = vec![col("a"), col("b"), col("c")];
    let t = materialize_table(&cols, &vec![2, 0], "t", int_rows(&[&[3, 1], &[6, 4]]));
    assert_eq!(t.columns, vec![col("c"), col("a")]);
    assert_eq!(lookup_path_index(&t.lookup, &vec!["a".to_string()]), Some(1));
    assert_eq!(values(&t), int_rows(&[&[3, 1], &[6, 4]]));
}

#[test]
fn cross_join_is_left_major() {
    let l = table("l", &["a"], &[&[1], &[2]]);
    let r = table("r", &["b"], &[&[10], &[20]]);
    let t = cross_join(&l, &r);
    assert_eq!(values(&t), int_rows(&[&[1, 10], &[1, 20], &[2, 10], &[2, 20]]));
    assert_eq!(lookup_path_index(&t.lookup, &vec!["r".to_string(), "b".to_string()]), Some(1));
    assert_eq!(merge_lookups(&l, &r), t.lookup);
}

#[test]
fn inner_and_outer_joins() {
    let l = table("l", &["a"], &[&[1], &[2]]);
    let r = table("r", &["b"], &[&[1], &[3]]);
    let passes = vec![vec![true, false], vec![false, false]];
    let inner = apply_join(&l, &r, JoinKind::Inner, &passes);
    assert_eq!(values(&inner), int_rows(&[&[1, 1]]));
    let left = apply_join(&l, &r, JoinKind::Left, &passes);
    assert_eq!(values(&left), vec![vec![SqlValue::Int(1), SqlValue::Int(1)], vec![SqlValue::Int(2), SqlValue::Null]]);
    let right = apply_join(&l, &r, JoinKind::Right, &passes);
    assert_eq!(values(&right), vec![vec![SqlValue::Int(1), SqlValue::Int(1)], vec![SqlValue::Null, SqlValue::Int(3)]]);
    let full = apply_join(&l, &r, JoinKind::Full, &passes);
    assert_eq!(
        values(&full),
        vec![
            vec![SqlValue::Int(1), SqlValue::Int(1)],
            vec![SqlValue::Int(2), SqlValue::Null],
            vec![SqlValue::Null, SqlValue::Int(3)]
        ]
    );
}

#[test]
fn padding_rows() {
    let row = ResolvedRow { values: vec![SqlValue::Int(5)] };
    assert_eq!(pad_right_row(&row, 2).values, vec![SqlValue::Int(5), SqlValue::Null, SqlValue::Null]);
    assert_eq!(pad_left_row(&row, 1).values, vec![SqlValue::Null, SqlValue::Int(5)]);
}

#[test]
fn count_over_a_column_skips_nulls_and_missing_values() {
    let lookup = vec![("a".to_string(), 0usize), ("b".to_string(), 1usize)];
    let r1 = ResolvedRow { values: vec![SqlValue::Int(1), SqlValue::Null] };
    let r2 = ResolvedRow { values: vec![SqlValue::Int(2), SqlValue::Text("x".to_string())] };
    let r3 = ResolvedRow { values: vec![SqlValue::Null] };
    let group = vec![&r1, &r2, &r3];
    let a = Expression::Identifier(vec!["A".to_string()]);
    let b = Expression::Identifier(vec!["b".to_string()]);
    assert_eq!(aggregate_identifier_index(&group, &lookup, &b), Some(1));
    assert_eq!(aggregate_count_identifier(&group, &lookup, &a), Some(2));
    assert_eq!(aggregate_count_identifier(&group, &lookup, &b), Some(1));
    let empty: Vec<&ResolvedRow> = Vec::new();
    assert_eq!(aggregate_count_identifier(&empty, &lookup, &a), None);
    assert_eq!(aggregate_count_identifier(&group, &lookup, &Expression::Star), None);
    let c = Expression::Identifier(vec!["c".to_string()]);
    assert_eq!(aggregate_count_identifier(&group, &lookup, &c), None);
}
