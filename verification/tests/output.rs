use forth::error::ForthError;
use forth::interpreter::Interpreter;

fn written(interp: &Interpreter) -> String {
    interp.output.iter().collect()
}

#[test]
fn dot_writes_the_top_in_decimal() {
    let mut interp = Interpreter::new();
    assert_eq!(interp.exec("1 42 .".to_string()), Ok(()));
    assert_eq!(written(&interp), "42");
    assert_eq!(interp.parameter_stack, vec![1]);
}

#[test]
fn dot_writes_negative_numbers() {
    let mut interp = Interpreter::new();
    assert_eq!(interp.exec("-2147483648 . cr -1 .".to_string()), Ok(()));
    assert_eq!(written(&interp), "-2147483648\n-1");
}

#[test]
fn cr_writes_a_line_feed() {
    let mut interp = Interpreter::new();
    assert_eq!(interp.exec("cr cr".to_string()), Ok(()));
    assert_eq!(written(&interp), "\n\n");
}

#[test]
fn emit_writes_text() {
    let mut interp = Interpreter::new();
    assert_eq!(interp.exec("72 emit 105 emit 33 emit".to_string()), Ok(()));
    assert_eq!(written(&interp), "Hi!");
}

#[test]
fn emit_takes_the_value_off_the_stack_before_it_refuses_it() {
    let mut interp = Interpreter::new();
    assert_eq!(interp.exec("1 300 emit".to_string()), Err(ForthError::InvalidCharacter));
    assert_eq!(interp.parameter_stack, vec![1]);
    assert_eq!(written(&interp), "");
    assert_eq!(interp.exec("emit".to_string()), Ok(()));
    assert_eq!(interp.exec("emit".to_string()), Err(ForthError::EmptyStack));
}

#[test]
fn dump_writes_the_stack_and_keeps_it() {
    let mut interp = Interpreter::new();
    assert_eq!(interp.exec("1 -2 3 dump".to_string()), Ok(()));
    assert_eq!(written(&interp), "ds =  [1, -2, 3] \n");
    assert_eq!(interp.parameter_stack, vec![1, -2, 3]);
}

#[test]
fn dump_of_an_empty_stack() {
    let mut interp = Interpreter::new();
    assert_eq!(interp.exec("dump".to_string()), Ok(()));
    assert_eq!(written(&interp), "ds =  [] \n");
}

#[test]
fn output_accumulates_until_it_is_taken() {
    let mut interp = Interpreter::new();
    assert_eq!(interp.exec("1 .".to_string()), Ok(()));
    assert_eq!(interp.exec("2 .".to_string()), Ok(()));
    assert_eq!(written(&interp), "12");
    interp.output.clear();
    assert_eq!(interp.exec("3 .".to_string()), Ok(()));
    assert_eq!(written(&interp), "3");
}

#[test]
fn output_written_before_a_failure_stays() {
    let mut interp = Interpreter::new();
    assert_eq!(interp.exec("1 . 2 . .".to_string()), Err(ForthError::EmptyStack));
    assert_eq!(written(&interp), "12");
}

#[test]
fn recall_pushes_the_last_result() {
    let mut interp = Interpreter::new();
    assert_eq!(interp.exec("1 2".to_string()), Ok(()));
    assert_eq!(interp.last_result, Some(vec![1, 2]));
    assert_eq!(interp.exec("$".to_string()), Ok(()));
    assert_eq!(interp.parameter_stack, vec![1, 2, 1, 2]);
    assert_eq!(interp.last_result, Some(vec![1, 2, 1, 2]));
}

#[test]
fn recall_without_a_last_result() {
    let mut interp = Interpreter::new();
    assert_eq!(interp.exec("$".to_string()), Err(ForthError::EmptyStack));
    assert_eq!(interp.exec("1".to_string()), Ok(()));
    assert_eq!(interp.exec("drop drop".to_string()), Err(ForthError::EmptyStack));
    assert_eq!(interp.last_result, None);
    assert_eq!(interp.exec("5 $".to_string()), Err(ForthError::EmptyStack));
    assert_eq!(interp.parameter_stack, vec![5]);
}

#[test]
fn recall_of_an_empty_result_pushes_nothing() {
    let mut interp = Interpreter::new();
    assert_eq!(interp.exec("".to_string()), Ok(()));
    assert_eq!(interp.exec("7 $".to_string()), Ok(()));
    assert_eq!(interp.parameter_stack, vec![7]);
}

#[test]
fn the_return_stack_is_left_alone() {
    let mut interp = Interpreter::new();
    interp.return_stack = vec![9, 8];
    assert_eq!(interp.exec("1 2 + dup . : x 3 ; x dump".to_string()), Ok(()));
    assert_eq!(interp.return_stack, vec![9, 8]);
}
