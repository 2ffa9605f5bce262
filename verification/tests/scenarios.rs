use forth::error::ForthError;
use forth::interpreter::Interpreter;

fn exec(interp: &mut Interpreter, line: &str) -> Result<(), ForthError> {
    interp.exec(line.to_string())
}

fn output(interp: &Interpreter) -> String {
    interp.output.iter().collect()
}

#[test]
fn a_new_engine_is_empty() {
    let interp = Interpreter::new();
    assert!(interp.parameter_stack.is_empty());
    assert!(interp.return_stack.is_empty());
    assert!(interp.statement.is_empty());
    assert_eq!(interp.statement_index, 0);
    assert_eq!(interp.last_result, None);
    assert!(interp.output.is_empty());
    assert!(!interp.halted);
    assert_eq!(interp.step_limit, usize::MAX);
    assert_eq!(interp.dictionary.len(), 46);
}

#[test]
fn an_empty_line_is_a_no_op() {
    let mut interp = Interpreter::new();
    assert_eq!(exec(&mut interp, ""), Ok(()));
    assert_eq!(exec(&mut interp, "   \t "), Ok(()));
    assert!(interp.parameter_stack.is_empty());
    assert_eq!(interp.last_result, Some(vec![]));
}

#[test]
fn numbers_are_pushed_in_order() {
    let mut interp = Interpreter::new();
    assert_eq!(exec(&mut interp, "1 -2  3"), Ok(()));
    assert_eq!(interp.parameter_stack, vec![1, -2, 3]);
    assert_eq!(interp.last_result, Some(vec![1, -2, 3]));
}

#[test]
fn the_stack_persists_between_lines() {
    let mut interp = Interpreter::new();
    assert_eq!(exec(&mut interp, "1 2"), Ok(()));
    assert_eq!(exec(&mut interp, "+"), Ok(()));
    assert_eq!(interp.parameter_stack, vec![3]);
}

#[test]
fn defining_double_and_running_it() {
    let mut interp = Interpreter::new();
    assert_eq!(exec(&mut interp, ": double 2 * ;"), Ok(()));
    assert!(interp.parameter_stack.is_empty());
    assert_eq!(exec(&mut interp, "5 double"), Ok(()));
    assert_eq!(interp.parameter_stack, vec![10]);
}

#[test]
fn a_definition_can_be_used_later_on_the_same_line() {
    let mut interp = Interpreter::new();
    assert_eq!(exec(&mut interp, ": double 2 * ; 5 double"), Ok(()));
    assert_eq!(interp.parameter_stack, vec![10]);
}

#[test]
fn redefining_a_word_leaves_compiled_callers_alone() {
    let mut interp = Interpreter::new();
    assert_eq!(exec(&mut interp, ": double 2 * ;"), Ok(()));
    assert_eq!(exec(&mut interp, ": quad double double ;"), Ok(()));
    assert_eq!(exec(&mut interp, ": double 3 * ;"), Ok(()));
    assert_eq!(exec(&mut interp, "5 quad"), Ok(()));
    assert_eq!(interp.parameter_stack, vec![20]);
    assert_eq!(exec(&mut interp, "drop 5 double"), Ok(()));
    assert_eq!(interp.parameter_stack, vec![15]);
}

#[test]
fn branch_skips_exactly_one_cell() {
    let mut interp = Interpreter::new();
    assert_eq!(exec(&mut interp, "1 2 branch 1 ."), Ok(()));
    assert_eq!(interp.parameter_stack, vec![1, 2]);
    assert_eq!(output(&interp), "");
}

#[test]
fn the_cell_that_branch_skips_is_never_run() {
    let mut interp = Interpreter::new();
    assert_eq!(exec(&mut interp, "branch 1 . 5"), Ok(()));
    assert_eq!(interp.parameter_stack, vec![5]);
    let mut other = Interpreter::new();
    assert_eq!(exec(&mut other, ". 5"), Err(ForthError::EmptyStack));
}

#[test]
fn jump_outside_a_statement_of_three_is_refused() {
    let mut interp = Interpreter::new();
    interp.parse("1 2 3".to_string());
    assert_eq!(interp.statement.len(), 3);
    assert_eq!(
        interp.jump(-5),
        Err(ForthError::InvalidJump("Invalid jump offset -5 to index -5".to_string()))
    );
    assert_eq!(interp.statement_index, 0);
    assert_eq!(
        interp.jump(5),
        Err(ForthError::InvalidJump("Invalid jump offset 5 to index 5".to_string()))
    );
    assert_eq!(interp.statement_index, 0);
    assert_eq!(interp.jump(2), Ok(()));
    assert_eq!(interp.statement_index, 2);
    assert_eq!(
        interp.jump(1),
        Err(ForthError::InvalidJump("Invalid jump offset 1 to index 3".to_string()))
    );
    assert_eq!(interp.jump(-2), Ok(()));
    assert_eq!(interp.statement_index, 0);
    assert_eq!(
        interp.jump(-1),
        Err(ForthError::InvalidJump("Invalid jump offset -1 to index -1".to_string()))
    );
    assert_eq!(interp.jump(0), Ok(()));
    assert_eq!(interp.statement_index, 0);
}

#[test]
fn dot_on_an_empty_stack_fails_and_leaves_it_empty() {
    let mut interp = Interpreter::new();
    assert_eq!(exec(&mut interp, "."), Err(ForthError::EmptyStack));
    assert!(interp.parameter_stack.is_empty());
    assert_eq!(output(&interp), "");
    assert_eq!(interp.last_result, None);
}

#[test]
fn an_unterminated_definition_defines_nothing() {
    let mut interp = Interpreter::new();
    let before = interp.dictionary.len();
    assert_eq!(exec(&mut interp, ": foo 1 2 +"), Err(ForthError::UnterminatedWordDefinition));
    assert_eq!(interp.dictionary.get("foo"), None);
    assert_eq!(interp.dictionary.len(), before);
    assert!(interp.parameter_stack.is_empty());
    assert_eq!(exec(&mut interp, "foo"), Err(ForthError::WordNotFound));
}

#[test]
fn emit_writes_a_character() {
    let mut interp = Interpreter::new();
    assert_eq!(exec(&mut interp, "65 emit"), Ok(()));
    assert_eq!(output(&interp), "A");
    assert!(interp.parameter_stack.is_empty());
}

#[test]
fn emit_refuses_what_is_no_byte() {
    let mut interp = Interpreter::new();
    assert_eq!(exec(&mut interp, "9999 emit"), Err(ForthError::InvalidCharacter));
    assert!(interp.parameter_stack.is_empty());
    assert_eq!(exec(&mut interp, "256 emit"), Err(ForthError::InvalidCharacter));
    assert_eq!(exec(&mut interp, "-1 emit"), Err(ForthError::InvalidCharacter));
    assert_eq!(output(&interp), "");
    assert_eq!(exec(&mut interp, "0 emit 255 emit"), Ok(()));
    assert_eq!(output(&interp), "\u{0}\u{ff}");
}
