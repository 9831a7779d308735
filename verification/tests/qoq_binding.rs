use matchbox_vm::qoq::ast::{Expression, QueryKind};
use matchbox_vm::qoq::bind::{bind_params, sql_value_to_expression, BindParams};
use matchbox_vm::qoq::parser::parse;
use matchbox_vm::qoq::value::SqlValue;

fn where_of(q: &matchbox_vm::qoq::ast::Query) -> &Expression {
    match &q.kind {
        QueryKind::Select(s) => s.where_clause.as_ref().unwrap(),
        _ => panic!("expected select"),
    }
}

#[test]
fn positional_parameters_are_taken_in_order() {
    let q = parse("SELECT a FROM t WHERE a = ? AND b = ?").unwrap();
    let mut params = BindParams::new();
    params.positional = vec![SqlValue::Int(-42), SqlValue::Text("x".to_string())];
    let bound = bind_params(&q, &params).unwrap();
    match where_of(&bound) {
        Expression::Binary { left, right, .. } => {
            match &**left {
                Expression::Binary { right, .. } => assert_eq!(**right, Expression::Number("-42".to_string())),
                _ => panic!(),
            }
            match &**right {
                Expression::Binary { right, .. } => assert_eq!(**right, Expression::String("x".to_string())),
                _ => panic!(),
            }
        }
        _ => panic!(),
    }
}

#[test]
fn string_literals_keep_their_quotes_while_bound_text_has_none() {
    let q = parse("SELECT a FROM t WHERE b = 'x' AND c = ?").unwrap();
    let mut params = BindParams::new();
    params.positional.push(SqlValue::Text("x".to_string()));
    let bound = bind_params(&q, &params).unwrap();
    match where_of(&bound) {
        Expression::Binary { left, right, .. } => {
            match &**left {
                Expression::Binary { right, .. } => assert_eq!(**right, Expression::String("'x'".to_string())),
                _ => panic!(),
            }
            match &**right {
                Expression::Binary { right, .. } => assert_eq!(**right, Expression::String("x".to_string())),
                _ => panic!(),
            }
        }
        _ => panic!(),
    }
}

#[test]
fn named_parameters_are_looked_up_by_lowercase_name() {
    let q = parse("SELECT a FROM t WHERE a = :UserId").unwrap();
    let mut params = BindParams::default();
    params.insert_named("userid".to_string(), SqlValue::Bool(true));
    let bound = bind_params(&q, &params).unwrap();
    match where_of(&bound) {
        Expression::Binary { right, .. } => assert_eq!(**right, Expression::Boolean(true)),
        _ => panic!(),
    }
}

#[test]
fn missing_parameters_are_errors() {
    let q = parse("SELECT a FROM t WHERE a = ?").unwrap();
    let e = bind_params(&q, &BindParams::new()).unwrap_err();
    assert_eq!(e.message, "missing positional QoQ parameter");
    assert_eq!(e.span, None);
    let q = parse("SELECT a FROM t WHERE a = :Name").unwrap();
    let e = bind_params(&q, &BindParams::new()).unwrap_err();
    assert_eq!(e.message, "missing named QoQ parameter 'Name'");
}

#[test]
fn a_query_without_placeholders_binds_to_itself() {
    let q = parse("SELECT a, COUNT(*) FROM t JOIN u ON t.id = u.id WHERE a IS NOT NULL GROUP BY a").unwrap();
    let bound = bind_params(&q, &BindParams::new()).unwrap();
    assert_eq!(bound, q);
}

#[test]
fn insert_named_replaces() {
    let mut p = BindParams::new();
    p.insert_named("k".to_string(), SqlValue::Int(1));
    p.insert_named("k".to_string(), SqlValue::Int(2));
    assert_eq!(p.named.len(), 1);
    assert_eq!(p.named[0].1, SqlValue::Int(2));
}

#[test]
fn value_literals() {
    assert_eq!(sql_value_to_expression(&SqlValue::Null), Expression::Null);
    assert_eq!(sql_value_to_expression(&SqlValue::Int(i64::MIN)), Expression::Number("-9223372036854775808".to_string()));
    assert_eq!(sql_value_to_expression(&SqlValue::Int(0)), Expression::Number("0".to_string()));
    assert_eq!(sql_value_to_expression(&SqlValue::Float("2.0".to_string())), Expression::Number("2".to_string()));
    assert_eq!(sql_value_to_expression(&SqlValue::Float("2.5".to_string())), Expression::Number("2.5".to_string()));
    assert_eq!(sql_value_to_expression(&SqlValue::Bytes(b"hi".to_vec())), Expression::String("hi".to_string()));
    assert_eq!(sql_value_to_expression(&SqlValue::Bytes(vec![0xff])), Expression::String("\u{fffd}".to_string()));
}
