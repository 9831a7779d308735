use matchbox_vm::qoq::value::{dedupe_rows, infer_query_type, row_key, sql_to_string, sql_value_key, QueryColumnType, SqlValue};

#[test]
fn value_keys() {
    assert_eq!(sql_value_key(&SqlValue::Null), "null");
    assert_eq!(sql_value_key(&SqlValue::Bool(true)), "b:true");
    assert_eq!(sql_value_key(&SqlValue::Int(-7)), "i:-7");
    assert_eq!(sql_value_key(&SqlValue::Float("1.5".to_string())), "f:1.5");
    assert_eq!(sql_value_key(&SqlValue::Text("a".to_string())), "s:a");
    assert_eq!(sql_value_key(&SqlValue::Bytes(vec![0, 10, 255])), format!("x:{:x?}", vec![0u8, 10, 255]));
    assert_eq!(sql_value_key(&SqlValue::Bytes(vec![])), "x:[]");
}

#[test]
fn row_keys_join_value_keys() {
    assert_eq!(row_key(&vec![SqlValue::Int(1), SqlValue::Null]), "i:1|null");
    assert_eq!(row_key(&vec![]), "");
}

#[test]
fn value_text() {
    assert_eq!(sql_to_string(&SqlValue::Null), "");
    assert_eq!(sql_to_string(&SqlValue::Bool(false)), "false");
    assert_eq!(sql_to_string(&SqlValue::Int(120)), "120");
    assert_eq!(sql_to_string(&SqlValue::Float("3.0".to_string())), "3");
    assert_eq!(sql_to_string(&SqlValue::Bytes(b"ok".to_vec())), "ok");
}

#[test]
fn types_of_values() {
    assert_eq!(infer_query_type(&SqlValue::Null), QueryColumnType::Null);
    assert_eq!(infer_query_type(&SqlValue::Int(1)), QueryColumnType::Integer);
    assert_eq!(infer_query_type(&SqlValue::Float("1".to_string())), QueryColumnType::Double);
    assert_eq!(infer_query_type(&SqlValue::Text(String::new())), QueryColumnType::Varchar);
    assert_eq!(infer_query_type(&SqlValue::Bytes(vec![])), QueryColumnType::Blob);
    assert_eq!(infer_query_type(&SqlValue::Bool(true)), QueryColumnType::Boolean);
}

#[test]
fn dedupe_keeps_first_occurrences_in_order() {
    let mut rows = vec![
        vec![SqlValue::Int(1)],
        vec![SqlValue::Int(2)],
        vec![SqlValue::Int(1)],
        vec![SqlValue::Text("1".to_string())],
        vec![SqlValue::Int(2)],
    ];
    dedupe_rows(&mut rows);
    assert_eq!(rows, vec![vec![SqlValue::Int(1)], vec![SqlValue::Int(2)], vec![SqlValue::Text("1".to_string())]]);
    let again = rows.clone();
    dedupe_rows(&mut rows);
    assert_eq!(rows, again);
}
