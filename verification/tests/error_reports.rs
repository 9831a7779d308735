use matchbox_vm::vm::report::source_context;

#[test]
fn excerpt_shows_three_lines_around_the_failing_one() {
    let src = "l1\nl2\r\nl3\nl4\nl5\nl6\nl7\nl8\nl9\n";
    let got = source_context(src, 5);
    let mut want = String::from("\n");
    for n in 2..=8 {
        let prefix = if n == 5 { "> " } else { "  " };
        want.push_str(&format!("{}{:4} | l{}\n", prefix, n, n));
    }
    assert_eq!(got, want);
}

#[test]
fn excerpt_is_clipped_at_the_start_and_end_of_the_source() {
    let src = "first\nsecond\nthird";
    assert_eq!(source_context(src, 1), "\n>    1 | first\n     2 | second\n     3 | third\n");
    assert_eq!(source_context(src, 3), "\n     1 | first\n     2 | second\n>    3 | third\n");
}

#[test]
fn excerpt_is_empty_without_such_a_line() {
    assert_eq!(source_context("a\nb\n", 0), "");
    assert_eq!(source_context("a\nb\n", 3), "");
    assert_eq!(source_context("", 1), "");
}

#[test]
fn line_numbers_wider_than_four_digits_are_not_cut() {
    let mut src = String::new();
    for i in 1..=10000 {
        src.push_str(&format!("x{}\n", i));
    }
    let got = source_context(&src, 10000);
    assert!(got.ends_with("> 10000 | x10000\n"), "{}", got);
    assert!(got.starts_with("\n  9997 | x9997\n"), "{}", got);
}

#[test]
fn a_carriage_return_without_a_newline_is_kept() {
    assert_eq!(source_context("a\r", 1), "\n>    1 | a\r\n");
}
