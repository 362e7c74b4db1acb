use scratch_test_interpreter::{Interpreter, Limits};

#[test]
fn limits_new_has_no_bounds() {
    let l = Limits::new();
    assert_eq!(*l.max_string_length(), None);
    assert_eq!(*l.max_executed_stmts(), None);
    assert_eq!(*l.max_statement_stack_height(), None);
    assert_eq!(Limits::default(), l);
}

#[test]
fn limits_restrictive_values() {
    let l = Limits::restrictive();
    assert_eq!(*l.max_statement_stack_height(), Some(100));
    assert_eq!(*l.max_string_length(), Some(1024));
    assert_eq!(*l.max_executed_stmts(), Some(10 * 1024));
}

#[test]
fn limits_setters_change_one_field() {
    let mut l = Limits::new();
    l.set_max_string_length(Some(5)).set_max_executed_stmts(Some(7));
    assert_eq!(*l.max_string_length(), Some(5));
    assert_eq!(*l.max_executed_stmts(), Some(7));
    assert_eq!(*l.max_statement_stack_height(), None);
    l.set_max_statement_stack_height(Some(3));
    assert_eq!(*l.max_statement_stack_height(), Some(3));
}

#[test]
fn limits_with_builders() {
    let l = Limits::new()
        .with_max_string_length(Some(1))
        .with_max_statement_stack_height(Some(2))
        .with_max_executed_stmts(Some(3));
    assert_eq!(*l.max_string_length(), Some(1));
    assert_eq!(*l.max_statement_stack_height(), Some(2));
    assert_eq!(*l.max_executed_stmts(), Some(3));
}

#[test]
fn interpreter_limits_accessors() {
    let mut i = Interpreter::new_restrictive();
    assert_eq!(*i.limits(), Limits::restrictive());
    i.set_limits(Limits::new());
    assert_eq!(*i.limits(), Limits::new());
    i.limits_mut().set_max_executed_stmts(Some(9));
    assert_eq!(*i.limits().max_executed_stmts(), Some(9));
    let i = i.with_limits(Limits::restrictive());
    assert_eq!(*i.clone().limits(), Limits::restrictive());
    let mut i = i.change_limits(|l| l.with_max_string_length(Some(4)));
    assert_eq!(*i.limits().max_string_length(), Some(4));
    assert_eq!(*i.limits().max_statement_stack_height(), Some(100));
}
