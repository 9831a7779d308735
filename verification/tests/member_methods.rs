use matchbox_vm::vm::member::{member_method, ReceiverKind};
use matchbox_vm::vm::type_hint::{value_matches_type_name, ValueKind};

#[test]
fn member_methods_resolve_by_kind_ignoring_case() {
    assert_eq!(member_method(ReceiverKind::Number, "ATN"), Some("atan".to_string()));
    assert_eq!(member_method(ReceiverKind::String, "toUpperCase"), Some("ucase".to_string()));
    assert_eq!(member_method(ReceiverKind::String, "split"), Some("listtoarray".to_string()));
    assert_eq!(member_method(ReceiverKind::String, "JSFormat"), Some("jsstringformat".to_string()));
    assert_eq!(member_method(ReceiverKind::Array, "Count"), Some("len".to_string()));
    assert_eq!(member_method(ReceiverKind::Struct, "keyExists"), Some("structkeyexists".to_string()));
    assert_eq!(member_method(ReceiverKind::Future, "onError"), Some("futureonerror".to_string()));
    assert_eq!(member_method(ReceiverKind::DateTime, "format"), Some("datetimeformat".to_string()));
    assert_eq!(member_method(ReceiverKind::Number, "len"), None);
    assert_eq!(member_method(ReceiverKind::Other, "len"), None);
    assert_eq!(member_method(ReceiverKind::Array, "ÄPPEND"), None);
}

#[test]
fn type_hints_match_by_kind_or_class_lookup() {
    assert!(value_matches_type_name(ValueKind::Int, "  Numeric ", None) == false);
    assert!(value_matches_type_name(ValueKind::Number, "  Numeric ", None));
    assert!(value_matches_type_name(ValueKind::Int, "LONG", None));
    assert!(value_matches_type_name(ValueKind::Struct, "any", None));
    assert!(!value_matches_type_name(ValueKind::Null, "object", None));
    assert!(value_matches_type_name(ValueKind::Null, "\tvoid\n", None));
    assert!(value_matches_type_name(ValueKind::ClassOrInstance, "Component", None));
    assert!(value_matches_type_name(ValueKind::ClassOrInstance, "Person", Some(true)));
    assert!(!value_matches_type_name(ValueKind::ClassOrInstance, "Person", Some(false)));
    assert!(!value_matches_type_name(ValueKind::String, "Person", Some(true)));
    assert!(!value_matches_type_name(ValueKind::ClassOrInstance, "Person", None));
}
