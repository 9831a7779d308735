use matchbox_vm::qoq::ast::QueryKind;
use matchbox_vm::qoq::parser::parse;
use matchbox_vm::qoq::plan::{source_column_dependency_plan, SourceColumnDependencyPlan, SourceColumnUsage};

fn plan(sql: &str) -> SourceColumnDependencyPlan {
    source_column_dependency_plan(&parse(sql).unwrap())
}

#[test]
fn single_source_columns_with_usages() {
    let p = plan("SELECT Name, age FROM people WHERE age > 3 ORDER BY name");
    assert!(p.safe_for_pruning);
    assert_eq!(p.sources.len(), 1);
    let s = &p.sources[0];
    assert_eq!(s.source_path, vec!["people".to_string()]);
    assert_eq!(s.alias, "people");
    assert!(!s.all_columns_required);
    assert_eq!(s.columns.len(), 2);
    assert_eq!(s.columns[0].name, "age");
    assert_eq!(s.columns[0].usages, vec![SourceColumnUsage::Projection, SourceColumnUsage::Where]);
    assert_eq!(s.columns[1].name, "Name");
    assert_eq!(s.columns[1].usages, vec![SourceColumnUsage::Projection, SourceColumnUsage::OrderBy]);
}

#[test]
fn aggregates_record_the_aggregate_usage_and_count_star_reads_nothing() {
    let p = plan("SELECT COUNT(*), SUM(price) FROM orders GROUP BY region");
    let s = &p.sources[0];
    assert_eq!(s.columns.len(), 2);
    assert_eq!(s.columns[0].name, "price");
    assert_eq!(s.columns[0].usages, vec![SourceColumnUsage::Projection, SourceColumnUsage::Aggregate]);
    assert_eq!(s.columns[1].name, "region");
    assert_eq!(s.columns[1].usages, vec![SourceColumnUsage::GroupBy]);
    assert!(!s.all_columns_required);
}

#[test]
fn star_requires_every_column() {
    let p = plan("SELECT * FROM t");
    assert!(p.sources[0].all_columns_required);
    assert!(p.safe_for_pruning);
}

#[test]
fn joins_bind_by_alias_and_record_join_conditions() {
    let p = plan("SELECT a.x, b.y FROM alpha a JOIN beta b ON a.id = b.aid");
    assert_eq!(p.sources.len(), 2);
    assert_eq!(p.sources[0].alias, "a");
    assert_eq!(p.sources[1].alias, "b");
    let a_cols: Vec<&str> = p.sources[0].columns.iter().map(|c| c.name.as_str()).collect();
    let b_cols: Vec<&str> = p.sources[1].columns.iter().map(|c| c.name.as_str()).collect();
    assert_eq!(a_cols, vec!["id", "x"]);
    assert_eq!(b_cols, vec!["aid", "y"]);
    assert_eq!(p.sources[0].columns[0].usages, vec![SourceColumnUsage::JoinOn]);
    assert!(p.safe_for_pruning);
}

#[test]
fn an_unqualified_column_over_two_tables_is_unsafe() {
    let p = plan("SELECT x FROM a, b");
    assert!(!p.safe_for_pruning);
    assert!(p.sources.iter().all(|s| s.columns.is_empty()));
}

#[test]
fn the_same_source_twice_is_planned_once() {
    let p = plan("SELECT x FROM t UNION SELECT y FROM T");
    assert_eq!(p.sources.len(), 1);
    assert_eq!(p.sources[0].columns.len(), 2);
}

#[test]
fn first_spelling_of_a_column_is_kept() {
    let p = plan("SELECT Amount, AMOUNT, amount FROM t");
    assert_eq!(p.sources[0].columns.len(), 1);
    assert_eq!(p.sources[0].columns[0].name, "Amount");
}

#[test]
fn plan_for_a_select_and_source_lookup() {
    let q = parse("SELECT v FROM Data d").unwrap();
    let select = match &q.kind {
        QueryKind::Select(s) => s,
        _ => panic!(),
    };
    let p = SourceColumnDependencyPlan::for_select(select);
    let found = p.source_for(&vec!["DATA".to_string()], "D").unwrap();
    assert_eq!(found.columns[0].name, "v");
    assert!(p.source_for(&vec!["data".to_string()], "x").is_none());
}
