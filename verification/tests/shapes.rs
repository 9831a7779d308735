use matchbox_vm::vm::shape::{Shape, ShapeRegistry};

#[test]
fn registry_starts_with_an_empty_root() {
    let reg = ShapeRegistry::new();
    assert_eq!(reg.get_root(), 0);
    assert_eq!(reg.shapes.len(), 1);
    assert_eq!(reg.get_index(0, "x"), None);
    let s = Shape::new();
    assert!(s.fields.is_empty());
    assert!(s.transitions.is_empty());
}

#[test]
fn transitions_add_fields_in_order() {
    let mut reg = ShapeRegistry::new();
    let root = reg.get_root();
    let a = reg.transition(root, "x");
    let b = reg.transition(a, "y");
    assert_eq!(a, 1);
    assert_eq!(b, 2);
    assert_eq!(reg.get_index(a, "x"), Some(0));
    assert_eq!(reg.get_index(b, "x"), Some(0));
    assert_eq!(reg.get_index(b, "y"), Some(1));
    assert_eq!(reg.get_index(a, "y"), None);
    assert_eq!(reg.get_index(root, "x"), None);
}

#[test]
fn transition_is_recorded_and_reused() {
    let mut reg = ShapeRegistry::new();
    let a = reg.transition(0, "name");
    let again = reg.transition(0, "name");
    assert_eq!(a, again);
    assert_eq!(reg.shapes.len(), 2);
    let other = reg.transition(0, "age");
    assert_ne!(other, a);
    assert_eq!(reg.get_index(other, "age"), Some(0));
    assert_eq!(reg.get_index(other, "name"), None);
}

#[test]
fn a_child_shape_starts_without_transitions() {
    let mut reg = ShapeRegistry::new();
    let a = reg.transition(0, "x");
    let b = reg.transition(a, "y");
    assert!(reg.shapes[b as usize].transitions.is_empty());
    assert_eq!(reg.shapes[a as usize].transitions.len(), 1);
    assert_eq!(reg.shapes[0].transitions.len(), 1);
}
