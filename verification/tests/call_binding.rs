use matchbox_vm::vm::call::reorder_arguments;

fn strs(v: &[&str]) -> Vec<String> {
    v.iter().map(|s| s.to_string()).collect()
}

#[test]
fn positional_arguments_fill_parameters_in_order() {
    let params = strs(&["a", "b", "c"]);
    assert_eq!(reorder_arguments(vec![1, 2], Vec::new(), &params, 0), vec![1, 2, 0]);
    assert_eq!(reorder_arguments(vec![1, 2, 3, 4], Vec::new(), &params, 0), vec![1, 2, 3]);
}

#[test]
fn named_arguments_go_to_their_parameter_ignoring_case() {
    let params = strs(&["First", "second", "third"]);
    let r = reorder_arguments(vec![7, 8, 9], strs(&["", "THIRD", "first"]), &params, -1);
    // 7 is positional and lands in the first parameter, then `first = 9`
    // replaces it; `third = 8`.
    assert_eq!(r, vec![9, -1, 8]);
}

#[test]
fn unknown_names_are_dropped_and_later_names_win() {
    let params = strs(&["x", "y"]);
    let r = reorder_arguments(vec![1, 2, 3], strs(&["nope", "y", "Y"]), &params, 0);
    assert_eq!(r, vec![0, 3]);
}

#[test]
fn unnamed_arguments_are_fitted_to_the_arity() {
    use_pad();
}

fn use_pad() {
    assert_eq!(matchbox_vm::vm::call::pad_to_arity(vec![1, 2], 4, 0), vec![1, 2, 0, 0]);
    assert_eq!(matchbox_vm::vm::call::pad_to_arity(vec![1, 2, 3], 2, 0), vec![1, 2]);
    assert_eq!(matchbox_vm::vm::call::pad_to_arity(Vec::<i32>::new(), 0, 0), Vec::<i32>::new());
}
