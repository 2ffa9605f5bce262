use forth::dictionary::{DictionaryExt, Entry};
use forth::error::ForthError;
use forth::interpreter::Interpreter;
use forth::primitive::{BinaryOp, Primitive, StackOp};
use forth::statement::StatementExt;
use forth::types::{ForthCell, Statement};
use forth::word::ForthWord;

#[test]
fn colon_adds_one_entry() {
    let mut interp = Interpreter::new();
    let before = interp.dictionary.len();
    assert_eq!(interp.exec(": double 2 * ;".to_string()), Ok(()));
    assert_eq!(interp.dictionary.len(), before + 1);
    assert_eq!(interp.dictionary.get("double"), Some(before));
    let star = interp.dictionary.get("*").unwrap();
    let entry = interp.dictionary.entry(before);
    assert_eq!(entry.name, "double");
    assert_eq!(entry.code, ForthWord::Forth(vec![ForthCell::Number(2), ForthCell::Word(star)]));
}

#[test]
fn colon_leaves_the_pointer_on_the_semicolon() {
    let mut interp = Interpreter::new();
    assert_eq!(interp.exec("1 : two 2 ; 3".to_string()), Ok(()));
    assert_eq!(interp.parameter_stack, vec![1, 3]);
    assert_eq!(interp.statement_index, 5);
    interp.parse(": two 2 ;".to_string());
    assert_eq!(interp.exec_current(), Ok(()));
    assert_eq!(interp.statement_index, 3);
}

#[test]
fn an_empty_definition_does_nothing() {
    let mut interp = Interpreter::new();
    assert_eq!(interp.exec(": nothing ; 1 nothing 2".to_string()), Ok(()));
    assert_eq!(interp.parameter_stack, vec![1, 2]);
}

#[test]
fn colon_without_a_name() {
    let mut interp = Interpreter::new();
    let before = interp.dictionary.len();
    assert_eq!(interp.exec(":".to_string()), Err(ForthError::WordNameNotFound));
    assert_eq!(interp.exec("1 2 :".to_string()), Err(ForthError::WordNameNotFound));
    assert_eq!(interp.statement_index, 2);
    assert_eq!(interp.dictionary.len(), before);
}

#[test]
fn colon_without_a_semicolon() {
    let mut interp = Interpreter::new();
    let before = interp.dictionary.len();
    assert_eq!(interp.exec(": foo".to_string()), Err(ForthError::UnterminatedWordDefinition));
    assert_eq!(interp.statement_index, 1);
    assert_eq!(interp.exec(": foo 1 2 +".to_string()), Err(ForthError::UnterminatedWordDefinition));
    assert_eq!(interp.statement_index, 4);
    assert_eq!(interp.dictionary.len(), before);
    assert_eq!(interp.dictionary.get("foo"), None);
}

#[test]
fn colon_with_an_unknown_word_in_the_body() {
    let mut interp = Interpreter::new();
    let before = interp.dictionary.len();
    assert_eq!(interp.exec(": foo 1 bar 2 ;".to_string()), Err(ForthError::WordNotFound));
    assert_eq!(interp.statement_index, 3);
    assert_eq!(interp.dictionary.len(), before);
    assert_eq!(interp.exec(": foo bar".to_string()), Err(ForthError::WordNotFound));
}

#[test]
fn a_word_cannot_refer_to_itself_while_it_is_being_defined() {
    let mut interp = Interpreter::new();
    assert_eq!(interp.exec(": again again ;".to_string()), Err(ForthError::WordNotFound));
    assert_eq!(interp.exec(": again 1 ;".to_string()), Ok(()));
    assert_eq!(interp.exec(": again again again ;".to_string()), Ok(()));
    assert_eq!(interp.exec("again".to_string()), Ok(()));
    assert_eq!(interp.parameter_stack, vec![1, 1]);
}

#[test]
fn semicolon_alone_is_an_error() {
    let mut interp = Interpreter::new();
    assert_eq!(interp.exec(";".to_string()), Err(ForthError::SemicolonOutsideOfWordDefinition));
    assert_eq!(
        interp.exec("1 ; 2".to_string()),
        Err(ForthError::SemicolonOutsideOfWordDefinition)
    );
    assert_eq!(interp.parameter_stack, vec![1]);
    assert_eq!(
        interp.exec(": a 1 ; ;".to_string()),
        Err(ForthError::SemicolonOutsideOfWordDefinition)
    );
}

#[test]
fn a_builtin_can_be_redefined() {
    let mut interp = Interpreter::new();
    assert_eq!(interp.exec(": square dup dup * * ;".to_string()), Ok(()));
    assert_eq!(interp.exec("2 square".to_string()), Ok(()));
    assert_eq!(interp.parameter_stack, vec![8]);
}

#[test]
fn a_number_is_never_a_word() {
    let mut interp = Interpreter::new();
    assert_eq!(interp.exec(": 5 6 ;".to_string()), Ok(()));
    assert_eq!(interp.exec("5".to_string()), Ok(()));
    assert_eq!(interp.parameter_stack, vec![5]);
    assert_eq!(interp.parse_word("5".to_string()), Ok(ForthCell::Number(5)));
}

#[test]
fn compiled_words_nest() {
    let mut interp = Interpreter::new();
    assert_eq!(interp.exec(": double 2 * ;".to_string()), Ok(()));
    assert_eq!(interp.exec(": quad double double ;".to_string()), Ok(()));
    assert_eq!(interp.exec(": sixteen quad quad ;".to_string()), Ok(()));
    assert_eq!(interp.exec("3 sixteen".to_string()), Ok(()));
    assert_eq!(interp.parameter_stack, vec![48]);
}

#[test]
fn a_failure_inside_a_compiled_word_ends_the_line() {
    let mut interp = Interpreter::new();
    assert_eq!(interp.exec(": bad 1 drop drop 7 ;".to_string()), Ok(()));
    assert_eq!(interp.exec("bad 8".to_string()), Err(ForthError::EmptyStack));
    assert!(interp.parameter_stack.is_empty());
    assert_eq!(interp.statement_index, 0);
}

#[test]
fn branch_in_a_compiled_word_moves_the_pointer_of_the_line() {
    let mut interp = Interpreter::new();
    assert_eq!(interp.exec(": skip branch ;".to_string()), Ok(()));
    assert_eq!(interp.exec("skip 1 10 20".to_string()), Ok(()));
    assert_eq!(interp.parameter_stack, vec![20]);
}

#[test]
fn parse_word_classifies_a_token() {
    let interp = Interpreter::new();
    assert_eq!(interp.parse_word("42".to_string()), Ok(ForthCell::Number(42)));
    assert_eq!(interp.parse_word("-42".to_string()), Ok(ForthCell::Number(-42)));
    assert_eq!(
        interp.parse_word("dup".to_string()),
        Ok(ForthCell::Word(interp.dictionary.get("dup").unwrap()))
    );
    assert_eq!(interp.parse_word("nonsense".to_string()), Err(ForthError::WordNotFound));
    assert_eq!(interp.parse_word("".to_string()), Err(ForthError::WordNotFound));
    assert_eq!(interp.parse_word("+5".to_string()), Err(ForthError::WordNotFound));
    assert_eq!(interp.parse_word("2147483648".to_string()), Err(ForthError::WordNotFound));
}

#[test]
fn a_statement_is_parsed_cell_by_cell() {
    let interp = Interpreter::new();
    let dup = interp.dictionary.get("dup").unwrap();
    let star = interp.dictionary.get("*").unwrap();
    assert_eq!(
        <Statement as StatementExt>::parse(&interp, " 3 dup  * "),
        Ok(vec![ForthCell::Number(3), ForthCell::Word(dup), ForthCell::Word(star)])
    );
    assert_eq!(
        ForthWord::parse(&interp, "3 dup *".to_string()),
        Ok(vec![ForthCell::Number(3), ForthCell::Word(dup), ForthCell::Word(star)])
    );
}

#[test]
fn an_empty_line_parses_to_an_empty_statement() {
    let interp = Interpreter::new();
    assert_eq!(<Statement as StatementExt>::parse(&interp, ""), Ok(vec![]));
    assert_eq!(ForthWord::parse(&interp, "  ".to_string()), Ok(vec![]));
}

#[test]
fn an_unknown_token_fails_the_parse() {
    let interp = Interpreter::new();
    assert_eq!(
        <Statement as StatementExt>::parse(&interp, "1 nonsense 2"),
        Err(ForthError::WordNotFound)
    );
    assert_eq!(ForthWord::parse(&interp, "(comment) 1".to_string()), Err(ForthError::WordNotFound));
}

#[test]
fn a_comment_is_left_out() {
    let interp = Interpreter::new();
    assert_eq!(
        <Statement as StatementExt>::parse(&interp, "1 ( one ) 2 ( two and more) 3"),
        Ok(vec![ForthCell::Number(1), ForthCell::Number(2), ForthCell::Number(3)])
    );
    assert_eq!(
        <Statement as StatementExt>::parse(&interp, "( a b -- c ) 4"),
        Ok(vec![ForthCell::Number(4)])
    );
    assert_eq!(<Statement as StatementExt>::parse(&interp, "5 ( last )"), Ok(vec![ForthCell::Number(5)]));
}

#[test]
fn a_comment_ends_at_the_first_token_that_ends_in_a_parenthesis() {
    let interp = Interpreter::new();
    assert_eq!(
        <Statement as StatementExt>::parse(&interp, "( nonsense 1) 2 ) 3"),
        Err(ForthError::WordNotFound)
    );
    assert_eq!(
        <Statement as StatementExt>::parse(&interp, "( ( x) 2"),
        Ok(vec![ForthCell::Number(2)])
    );
}

#[test]
fn a_comment_that_is_not_closed() {
    let interp = Interpreter::new();
    assert_eq!(
        <Statement as StatementExt>::parse(&interp, "1 ( never closed"),
        Err(ForthError::UnterminatedComment)
    );
    assert_eq!(<Statement as StatementExt>::parse(&interp, "("), Err(ForthError::UnterminatedComment));
    assert_eq!(
        <Statement as StatementExt>::parse(&interp, "( )x"),
        Err(ForthError::UnterminatedComment)
    );
}

#[test]
fn a_parsed_statement_can_be_run_as_a_word() {
    let mut interp = Interpreter::new();
    let stmt = ForthWord::parse(&interp, "3 dup * 1 ( and one ) +".to_string()).unwrap();
    let word = ForthWord::Forth(stmt);
    assert_eq!(word.run(&mut interp), Ok(()));
    assert_eq!(interp.parameter_stack, vec![10]);
}

#[test]
fn a_native_word_can_be_run_directly() {
    let mut interp = Interpreter::new();
    interp.parameter_stack = vec![2, 3];
    assert_eq!(ForthWord::Native(Primitive::Binary(BinaryOp::Add)).run(&mut interp), Ok(()));
    assert_eq!(interp.parameter_stack, vec![5]);
    assert_eq!(interp.apply(Primitive::Shuffle(StackOp::Dup)), Ok(()));
    assert_eq!(interp.parameter_stack, vec![5, 5]);
}

#[test]
fn running_a_word_stops_at_the_first_failure() {
    let mut interp = Interpreter::new();
    let stmt = ForthWord::parse(&interp, "1 drop drop 2".to_string()).unwrap();
    assert_eq!(ForthWord::Forth(stmt).run(&mut interp), Err(ForthError::EmptyStack));
    assert!(interp.parameter_stack.is_empty());
}

#[test]
fn run_entry_runs_by_handle() {
    let mut interp = Interpreter::new();
    interp.parameter_stack = vec![6];
    let square = interp.dictionary.get("square").unwrap();
    assert_eq!(interp.run_entry(square), Ok(()));
    assert_eq!(interp.parameter_stack, vec![36]);
}

#[test]
fn an_entry_can_be_inserted_by_hand() {
    let mut interp = Interpreter::new();
    let plus = interp.dictionary.get("+").unwrap();
    let body = vec![ForthCell::Number(10), ForthCell::Word(plus)];
    interp.dictionary.insert_entry(Entry::from_statement("ten+", body));
    assert_eq!(interp.exec("5 ten+".to_string()), Ok(()));
    assert_eq!(interp.parameter_stack, vec![15]);
}

#[test]
fn the_engine_skips_comments() {
    let mut interp = Interpreter::new();
    assert_eq!(interp.exec("1 ( one ) 2 ( two and more) 3".to_string()), Ok(()));
    assert_eq!(interp.parameter_stack, vec![1, 2, 3]);
    assert_eq!(interp.exec("( only a comment )".to_string()), Ok(()));
    assert_eq!(interp.statement_index, 4);
    assert_eq!(interp.parameter_stack, vec![1, 2, 3]);
}

#[test]
fn nothing_inside_a_comment_is_run() {
    let mut interp = Interpreter::new();
    assert_eq!(interp.exec("( . drop nonsense ; bye ) 7".to_string()), Ok(()));
    assert_eq!(interp.parameter_stack, vec![7]);
    assert!(!interp.halted);
}

#[test]
fn the_engine_reports_a_comment_that_is_not_closed() {
    let mut interp = Interpreter::new();
    assert_eq!(interp.exec("1 ( never closed 2".to_string()), Err(ForthError::UnterminatedComment));
    assert_eq!(interp.parameter_stack, vec![1]);
    assert_eq!(interp.statement_index, 1);
    assert_eq!(interp.exec("(".to_string()), Err(ForthError::UnterminatedComment));
    assert_eq!(interp.exec("1 (comment) 2".to_string()), Err(ForthError::WordNotFound));
}

#[test]
fn skip_comment_moves_to_the_closing_token() {
    let mut interp = Interpreter::new();
    interp.parse("( a b) c".to_string());
    assert_eq!(interp.skip_comment(), Ok(()));
    assert_eq!(interp.statement_index, 2);
    interp.parse("( a b c".to_string());
    assert_eq!(interp.skip_comment(), Err(ForthError::UnterminatedComment));
    assert_eq!(interp.statement_index, 0);
    interp.statement_index = 9;
    assert_eq!(interp.skip_comment(), Err(ForthError::UnterminatedComment));
}

#[test]
fn a_definition_may_hold_comments() {
    let mut interp = Interpreter::new();
    assert_eq!(interp.exec(": double ( n -- 2n ) 2 * ( done ) ; 4 double".to_string()), Ok(()));
    assert_eq!(interp.parameter_stack, vec![8]);
    let double = interp.dictionary.get("double").unwrap();
    assert_eq!(interp.dictionary.body(double).len(), 2);
}

#[test]
fn a_semicolon_inside_a_comment_does_not_end_a_definition() {
    let mut interp = Interpreter::new();
    assert_eq!(interp.exec(": three ( not yet ; ) 3 ; three".to_string()), Ok(()));
    assert_eq!(interp.parameter_stack, vec![3]);
}

#[test]
fn a_comment_in_a_definition_that_is_not_closed() {
    let mut interp = Interpreter::new();
    let before = interp.dictionary.len();
    assert_eq!(interp.exec(": foo 1 ( 2 ;".to_string()), Err(ForthError::UnterminatedComment));
    assert_eq!(interp.statement_index, 3);
    assert_eq!(interp.dictionary.len(), before);
    assert_eq!(
        interp.exec(": foo 1 ( 2 )".to_string()),
        Err(ForthError::UnterminatedWordDefinition)
    );
}

#[test]
fn a_word_called_like_the_comment_sign_is_a_word() {
    let mut interp = Interpreter::new();
    assert_eq!(interp.exec(": ( 5 ;".to_string()), Ok(()));
    assert_eq!(interp.exec("( 1 )".to_string()), Err(ForthError::WordNotFound));
    assert_eq!(interp.parameter_stack, vec![5, 1]);
}

#[test]
fn a_defined_word_does_what_its_parsed_body_does() {
    let body = "dup ( n n ) * 1 + ( and one ) dup .";
    let mut defined = Interpreter::new();
    assert_eq!(defined.exec(format!(": poly {} ;", body)), Ok(()));
    assert_eq!(defined.exec("7 poly".to_string()), Ok(()));

    let mut parsed = Interpreter::new();
    let stmt = ForthWord::parse(&parsed, body.to_string()).unwrap();
    let poly = defined.dictionary.get("poly").unwrap();
    assert_eq!(defined.dictionary.body(poly), &stmt);
    parsed.parameter_stack.push(7);
    assert_eq!(ForthWord::Forth(stmt).run(&mut parsed), Ok(()));

    assert_eq!(defined.parameter_stack, vec![50]);
    assert_eq!(parsed.parameter_stack, defined.parameter_stack);
    assert_eq!(parsed.output, defined.output);
}
