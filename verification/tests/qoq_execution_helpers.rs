use matchbox_vm::qoq::ast::{Expression, QueryKind, SelectStatement};
use matchbox_vm::qoq::exec::{
    aggregate_output_type, contains_aggregate, identifier_path, materialized_source_column_indices,
    merge_columns, merge_union_columns, projection_name, resolve_result_order_specs,
    resolve_source_column_index, simple_streaming_aggregate_plan, table_ref_alias, StreamingAggregate,
    StreamingAggregateArg,
};
use matchbox_vm::qoq::parser::parse;
use matchbox_vm::qoq::plan::{SourceColumnDependency, SourceColumnRequirement, SourceColumnUsage};
use matchbox_vm::qoq::rows::{execute_simple_identifier_projection, ResolvedRow};
use matchbox_vm::qoq::value::{QueryColumn, QueryColumnType, SqlValue};

fn select_of(sql: &str) -> SelectStatement {
    match parse(sql).unwrap().kind {
        QueryKind::Select(s) => s,
        _ => panic!("expected select"),
    }
}

fn col(name: &str) -> QueryColumn {
    QueryColumn { name: name.to_string(), col_type: QueryColumnType::Varchar }
}

#[test]
fn projection_names() {
    let s = select_of("SELECT a.b, upper(x), 1 + 2 FROM t");
    assert_eq!(projection_name(&s.projection[0].expr, 0), "b");
    assert_eq!(projection_name(&s.projection[1].expr, 1), "upper");
    assert_eq!(projection_name(&s.projection[2].expr, 2), "expr3");
    assert_eq!(projection_name(&Expression::Identifier(vec![]), 9), "column10");
    assert_eq!(identifier_path(&vec!["a".to_string(), "b".to_string()]), "a.b");
}

#[test]
fn aggregate_detection() {
    let s = select_of("SELECT Count(x), x + MAX(y), CASE WHEN a THEN avg(b) END, lower(c), (SELECT sum(z) FROM u) FROM t");
    assert!(contains_aggregate(&s.projection[0].expr));
    assert!(contains_aggregate(&s.projection[1].expr));
    assert!(contains_aggregate(&s.projection[2].expr));
    assert!(!contains_aggregate(&s.projection[3].expr));
    assert!(!contains_aggregate(&s.projection[4].expr));
}

#[test]
fn streaming_aggregate_plans() {
    let p = simple_streaming_aggregate_plan(&select_of("SELECT COUNT(*) FROM t")).unwrap();
    assert_eq!(p.op, StreamingAggregate::Count);
    assert!(matches!(p.arg, StreamingAggregateArg::Star));
    assert_eq!(p.output_name, "COUNT");
    let p = simple_streaming_aggregate_plan(&select_of("SELECT avg(price) AS mean FROM t")).unwrap();
    assert_eq!(p.op, StreamingAggregate::Avg);
    match p.arg {
        StreamingAggregateArg::Identifier(path) => assert_eq!(path, vec!["price".to_string()]),
        _ => panic!(),
    }
    assert_eq!(p.output_name, "mean");
    assert!(simple_streaming_aggregate_plan(&select_of("SELECT sum(*) FROM t")).is_none());
    assert!(simple_streaming_aggregate_plan(&select_of("SELECT lower(x) FROM t")).is_none());
    assert!(simple_streaming_aggregate_plan(&select_of("SELECT max(a, b) FROM t")).is_none());
    assert_eq!(aggregate_output_type(StreamingAggregate::Sum, &SqlValue::Int(1)), QueryColumnType::Double);
    assert_eq!(aggregate_output_type(StreamingAggregate::Count, &SqlValue::Null), QueryColumnType::Integer);
    assert_eq!(aggregate_output_type(StreamingAggregate::Min, &SqlValue::Int(1)), QueryColumnType::Integer);
}

#[test]
fn order_specs_by_position_and_name() {
    let s = select_of("SELECT a, b FROM t ORDER BY 2 DESC, A, 0, zzz, 1");
    let specs = resolve_result_order_specs(&s, &vec![col("a"), col("b")]);
    assert_eq!(specs, vec![(1, true), (0, false), (0, false)]);
}

#[test]
fn source_column_index_resolution() {
    let cols = vec![col("id"), col("Name")];
    let path = vec!["people".to_string()];
    assert_eq!(resolve_source_column_index(&cols, &path, None, &vec!["NAME".to_string()]), Ok(1));
    assert_eq!(resolve_source_column_index(&cols, &path, Some("p"), &vec!["P".to_string(), "id".to_string()]), Ok(0));
    assert_eq!(resolve_source_column_index(&cols, &path, Some("p"), &vec!["people".to_string(), "id".to_string()]), Ok(0));
    let e = resolve_source_column_index(&cols, &path, Some("p"), &vec!["q".to_string(), "id".to_string()]).unwrap_err();
    assert_eq!(e.message, "unknown identifier 'q.id'");
    let e = resolve_source_column_index(&cols, &path, None, &vec!["age".to_string()]).unwrap_err();
    assert_eq!(e.message, "unknown identifier 'age'");
}

#[test]
fn materialized_columns() {
    let cols = vec![col("A"), col("b"), col("c")];
    assert_eq!(materialized_source_column_indices(&cols, None), vec![0, 1, 2]);
    let dep = SourceColumnDependency {
        source_path: vec!["t".to_string()],
        alias: "t".to_string(),
        all_columns_required: false,
        columns: vec![
            SourceColumnRequirement { name: "a".to_string(), usages: vec![SourceColumnUsage::Projection] },
            SourceColumnRequirement { name: "C".to_string(), usages: vec![SourceColumnUsage::Where] },
        ],
    };
    assert_eq!(materialized_source_column_indices(&cols, Some(&dep)), vec![0, 2]);
    let all = SourceColumnDependency { all_columns_required: true, ..dep };
    assert_eq!(materialized_source_column_indices(&cols, Some(&all)), vec![0, 1, 2]);
}

#[test]
fn union_and_join_columns() {
    let l = vec![col("a")];
    let r = vec![col("x"), col("y")];
    assert_eq!(merge_union_columns(&l, &r), r);
    assert_eq!(merge_union_columns(&r, &l), r);
    assert_eq!(merge_columns(&l, &r), vec![col("a"), col("x"), col("y")]);
}

#[test]
fn column_only_projections_copy_columns() {
    let lookup = vec![("a".to_string(), 0usize), ("t.b".to_string(), 1usize), ("b".to_string(), 1usize)];
    let rows = vec![
        ResolvedRow { values: vec![SqlValue::Int(1), SqlValue::Text("x".to_string())] },
        ResolvedRow { values: vec![SqlValue::Int(2)] },
    ];
    let s = select_of("SELECT t.b AS bee, a FROM t");
    let r = execute_simple_identifier_projection(&s, &rows, &lookup).unwrap();
    assert_eq!(r.columns, vec![
        QueryColumn { name: "bee".to_string(), col_type: QueryColumnType::Varchar },
        QueryColumn { name: "a".to_string(), col_type: QueryColumnType::Integer },
    ]);
    assert_eq!(r.rows, vec![
        vec![SqlValue::Text("x".to_string()), SqlValue::Int(1)],
        vec![SqlValue::Null, SqlValue::Int(2)],
    ]);
    let computed = select_of("SELECT a, a + 1 FROM t");
    assert!(execute_simple_identifier_projection(&computed, &rows, &lookup).is_none());
    let unknown = select_of("SELECT zz FROM t");
    assert!(execute_simple_identifier_projection(&unknown, &rows, &lookup).is_none());
    assert!(execute_simple_identifier_projection(&s, &[], &lookup).is_none());
}

#[test]
fn from_items_are_known_by_alias_or_last_name_part() {
    let s = select_of("SELECT * FROM db.people p, db.orders, (SELECT 1 FROM x) sq, (SELECT 2 FROM y)");
    assert_eq!(table_ref_alias(&s.from[0]), "p");
    assert_eq!(table_ref_alias(&s.from[1]), "orders");
    assert_eq!(table_ref_alias(&s.from[2]), "sq");
    assert_eq!(table_ref_alias(&s.from[3]), "subquery");
}
