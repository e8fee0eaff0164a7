use rbf::interpreter::Interpreter;

#[test]
fn text_without_brackets_is_valid() {
    assert!(Interpreter::check_valid(""));
    assert!(Interpreter::check_valid("+-<>.,"));
}

#[test]
fn nested_and_repeated_loops_are_valid() {
    assert!(Interpreter::check_valid("[]"));
    assert!(Interpreter::check_valid("[[]]"));
    assert!(Interpreter::check_valid("[][]"));
    assert!(Interpreter::check_valid("+[>[-]<-]."));
}

#[test]
fn close_without_open_is_invalid() {
    assert!(!Interpreter::check_valid("]"));
    assert!(!Interpreter::check_valid("[]]"));
    assert!(!Interpreter::check_valid("+]+"));
}

#[test]
fn open_without_close_is_invalid() {
    assert!(!Interpreter::check_valid("["));
    assert!(!Interpreter::check_valid("[[]"));
    assert!(!Interpreter::check_valid("[+"));
}

#[test]
fn close_before_open_is_invalid_though_the_counts_agree() {
    assert!(!Interpreter::check_valid("]["));
    assert!(!Interpreter::check_valid("[]]["));
}

#[test]
fn new_rejects_an_extra_close() {
    let result = Interpreter::new("+[-]]");
    assert_eq!(result.err(), Some("Invalid program".to_string()));
}

#[test]
fn new_rejects_an_extra_open() {
    let result = Interpreter::new("[+[-]");
    assert_eq!(result.err(), Some("Invalid program".to_string()));
}

#[test]
fn new_rejects_an_extra_close_and_an_extra_open() {
    let result = Interpreter::new("]+[");
    assert_eq!(result.err(), Some("Invalid program".to_string()));
}

#[test]
fn new_checks_the_text_after_cleaning() {
    assert!(Interpreter::new("open [ then comment then close ]").is_ok());
    assert!(Interpreter::new("only a comment").is_ok());
    assert!(Interpreter::new("comment ] then [").is_err());
}

#[test]
fn new_starts_with_a_zeroed_tape_and_both_pointers_at_zero() {
    let interpreter = Interpreter::new("+>+").unwrap();
    assert_eq!(interpreter.program_pointer(), 0);
    assert_eq!(interpreter.data_pointer(), 0);
    assert_eq!(interpreter.tape().len(), 30000);
    assert!(interpreter.tape().iter().all(|cell| *cell == 0));
}
