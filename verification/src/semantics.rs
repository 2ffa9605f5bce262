//! What the engine does, as functions on its state.
//!
//! Every operation of the engine is stated here as a function from the
//! state before to the state after and the outcome. The executable engine
//! is proved to compute exactly these functions.
//!
//! Native words pop their arguments one by one, top first, and give up
//! at the first pop that finds the stack empty: what was popped by then
//! stays popped. So a word that needs more items than the stack holds
//! leaves it empty.

use vstd::prelude::*;
use crate::dictionary::{lookup, EntryModel};
use crate::error::{ErrorKind, Outcome};
use crate::primitive::{
    binary_value,
    divide_value,
    scale_quotient,
    scale_remainder,
    unary_value,
    BinaryOp,
    DivOp,
    OutputOp,
    Primitive,
    ScaleOp,
    StackOp,
    UnaryOp,
};
use crate::text::{
    comment_end,
    int_text,
    lemma_comment_end,
    list_text,
    opens_comment,
    parse_number,
};
use crate::types::{ForthCell, TRUE};
use crate::word::WordModel;

verus! {

/// The state of an engine.
#[verifier::ext_equal]
pub struct EngineState {
    pub dictionary: Seq<EntryModel>,
    pub parameter_stack: Seq<i32>,
    pub return_stack: Seq<i32>,
    /// The tokens of the line that is being run.
    pub statement: Seq<Seq<char>>,
    /// The instruction pointer: the position in `statement` of the current token.
    pub statement_index: usize,
    /// The parameter stack as the last run left it, if that run succeeded.
    pub last_result: Option<Seq<i32>>,
    /// The text written so far.
    pub output: Seq<char>,
    /// Whether `bye` has been run.
    pub halted: bool,
    /// How many tokens of the statement one run may run after its first.
    pub step_limit: usize,
}

/// Whether a state is one that an engine can be in: a machine word can
/// count the tokens of its statement and the entries of its dictionary.
pub open spec fn fits(s: EngineState) -> bool {
    s.statement.len() <= usize::MAX && s.dictionary.len() <= usize::MAX
}

/// A state after an operation, and how the operation ended.
pub type Step = (EngineState, Outcome);

/// The operation succeeded and left the state `s`.
pub open spec fn done(s: EngineState) -> Step {
    (s, Ok(()))
}

/// The operation failed with `e` and left the state `s`.
pub open spec fn fail(s: EngineState, e: ErrorKind) -> Step {
    (s, Err(e))
}

/// `s` with another parameter stack.
pub open spec fn with_stack(s: EngineState, stack: Seq<i32>) -> EngineState {
    EngineState { parameter_stack: stack, ..s }
}

/// `s` with the instruction pointer elsewhere.
pub open spec fn with_index(s: EngineState, index: usize) -> EngineState {
    EngineState { statement_index: index, ..s }
}

/// `s` with another output.
pub open spec fn with_output(s: EngineState, output: Seq<char>) -> EngineState {
    EngineState { output: output, ..s }
}

/// The stack without its `n` topmost items.
pub open spec fn below(stack: Seq<i32>, n: int) -> Seq<i32> {
    stack.subrange(0, stack.len() - n)
}

/// The item `n` places under the top of the stack; the top itself for 0.
pub open spec fn peek(stack: Seq<i32>, n: int) -> i32 {
    stack[stack.len() - 1 - n]
}

/// A word that needs more items than the stack holds empties it and fails.
pub open spec fn underflow(s: EngineState) -> Step {
    fail(with_stack(s, Seq::empty()), ErrorKind::EmptyStack)
}

/// A unary word replaces the top of the stack by its value for it.
pub open spec fn unary_step(op: UnaryOp, s: EngineState) -> Step {
    let stack = s.parameter_stack;
    if stack.len() < 1 {
        underflow(s)
    } else {
        done(with_stack(s, below(stack, 1).push(unary_value(op, peek(stack, 0)))))
    }
}

/// A binary word replaces the two topmost items by its value for them.
pub open spec fn binary_step(op: BinaryOp, s: EngineState) -> Step {
    let stack = s.parameter_stack;
    if stack.len() < 2 {
        underflow(s)
    } else {
        done(
            with_stack(s, below(stack, 2).push(binary_value(op, peek(stack, 1), peek(stack, 0)))),
        )
    }
}

/// `/` and `mod`: both items are popped before the divisor is looked at.
pub open spec fn divide_step(op: DivOp, s: EngineState) -> Step {
    let stack = s.parameter_stack;
    if stack.len() < 2 {
        underflow(s)
    } else if peek(stack, 0) == 0 {
        fail(with_stack(s, below(stack, 2)), ErrorKind::DivisionByZero)
    } else {
        done(
            with_stack(s, below(stack, 2).push(divide_value(op, peek(stack, 1), peek(stack, 0)))),
        )
    }
}

/// `*/` leaves the quotient; `*/mod` leaves the remainder and, on top of it, the quotient.
pub open spec fn scale_step(op: ScaleOp, s: EngineState) -> Step {
    let stack = s.parameter_stack;
    if stack.len() < 3 {
        underflow(s)
    } else if peek(stack, 0) == 0 {
        fail(with_stack(s, below(stack, 3)), ErrorKind::DivisionByZero)
    } else {
        let x = peek(stack, 2);
        let y = peek(stack, 1);
        let z = peek(stack, 0);
        match op {
            ScaleOp::StarSlash => done(
                with_stack(s, below(stack, 3).push(scale_quotient(x, y, z))),
            ),
            ScaleOp::StarSlashMod => done(
                with_stack(
                    s,
                    below(stack, 3).push(scale_remainder(x, y, z)).push(scale_quotient(x, y, z)),
                ),
            ),
        }
    }
}

/// The stack that a shuffling word leaves; `None` where the stack holds too
/// few items for it.
///
/// With `y` below `x` on top: `dup` leaves `x x`, `swap` leaves `x y`,
/// `over` leaves `x y x`; with `z y x`, `rot` leaves `y x z`.
pub open spec fn shuffled(op: StackOp, stack: Seq<i32>) -> Option<Seq<i32>> {
    match op {
        StackOp::Drop => if stack.len() < 1 {
            None
        } else {
            Some(below(stack, 1))
        },
        StackOp::Dup => if stack.len() < 1 {
            None
        } else {
            Some(stack.push(peek(stack, 0)))
        },
        StackOp::QuestionDup => if stack.len() < 1 {
            None
        } else if peek(stack, 0) != 0 {
            Some(stack.push(peek(stack, 0)))
        } else {
            Some(stack)
        },
        StackOp::Over => if stack.len() < 2 {
            None
        } else {
            Some(below(stack, 2).push(peek(stack, 0)).push(peek(stack, 1)).push(peek(stack, 0)))
        },
        StackOp::Swap => if stack.len() < 2 {
            None
        } else {
            Some(below(stack, 2).push(peek(stack, 0)).push(peek(stack, 1)))
        },
        StackOp::Rot => if stack.len() < 3 {
            None
        } else {
            Some(below(stack, 3).push(peek(stack, 1)).push(peek(stack, 0)).push(peek(stack, 2)))
        },
    }
}

/// A shuffling word replaces the stack by the shuffled one.
pub open spec fn shuffle_step(op: StackOp, s: EngineState) -> Step {
    match shuffled(op, s.parameter_stack) {
        Some(stack) => done(with_stack(s, stack)),
        None => underflow(s),
    }
}

/// The values that `emit` accepts: those of one byte.
pub open spec fn is_byte(x: i32) -> bool {
    0 <= x <= 255
}

/// What `dump` writes for a stack.
pub open spec fn dump_text(stack: Seq<i32>) -> Seq<char> {
    "ds =  "@ + list_text(stack) + seq![' ', '\n']
}

/// `.` pops an item and writes it in decimal; `cr` writes a line feed;
/// `emit` pops an item and writes the character of that code, where it is
/// the value of a byte; `dump` writes the whole stack and keeps it.
pub open spec fn output_step(op: OutputOp, s: EngineState) -> Step {
    let stack = s.parameter_stack;
    match op {
        OutputOp::Dot => if stack.len() < 1 {
            underflow(s)
        } else {
            done(
                with_output(
                    with_stack(s, below(stack, 1)),
                    s.output + int_text(peek(stack, 0) as int),
                ),
            )
        },
        OutputOp::Cr => done(with_output(s, s.output.push('\n'))),
        OutputOp::Emit => if stack.len() < 1 {
            underflow(s)
        } else if is_byte(peek(stack, 0)) {
            done(
                with_output(
                    with_stack(s, below(stack, 1)),
                    s.output.push(peek(stack, 0) as u8 as char),
                ),
            )
        } else {
            fail(with_stack(s, below(stack, 1)), ErrorKind::InvalidCharacter)
        },
        OutputOp::Dump => done(with_output(s, s.output + dump_text(stack))),
    }
}

/// The token under the instruction pointer.
pub open spec fn current(s: EngineState) -> Option<Seq<char>> {
    if s.statement_index < s.statement.len() {
        Some(s.statement[s.statement_index as int])
    } else {
        None
    }
}

/// Whether a token follows the current one.
pub open spec fn has_next(s: EngineState) -> bool {
    s.statement_index + 1 < s.statement.len()
}

/// Whether a token precedes the current one.
pub open spec fn has_prev(s: EngineState) -> bool {
    s.statement_index > 0
}

/// `next`: the instruction pointer moves on by one token, where one follows.
pub open spec fn next_step(s: EngineState) -> Step {
    if has_next(s) {
        done(with_index(s, (s.statement_index + 1) as usize))
    } else {
        fail(s, ErrorKind::InvalidJump("No next statement"@))
    }
}

/// `prev`: the instruction pointer moves back by one token, where one precedes.
pub open spec fn prev_step(s: EngineState) -> Step {
    if has_prev(s) {
        done(with_index(s, (s.statement_index - 1) as usize))
    } else {
        fail(s, ErrorKind::InvalidJump("No previous statement"@))
    }
}

/// The text of the error for a jump by `offset` that would land on `target`.
pub open spec fn jump_text(offset: int, target: int) -> Seq<char> {
    "Invalid jump offset "@ + int_text(offset) + " to index "@ + int_text(target)
}

/// A jump moves the instruction pointer by `offset`, counted from the current token.
pub open spec fn jump_step(s: EngineState, offset: i32) -> Step {
    let target = s.statement_index + offset;
    if 0 <= target < s.statement.len() {
        done(with_index(s, target as usize))
    } else {
        fail(s, ErrorKind::InvalidJump(jump_text(offset as int, target)))
    }
}

/// `branch`: the instruction pointer moves on to the operand, the token
/// after the word, and then jumps by the integer that this token denotes.
pub open spec fn branch_step(s: EngineState) -> Step {
    let at_operand = if s.statement_index < s.statement.len() {
        with_index(s, (s.statement_index + 1) as usize)
    } else {
        s
    };
    match current(at_operand) {
        Some(token) => match parse_number(token) {
            Some(offset) => jump_step(at_operand, offset),
            None => fail(at_operand, ErrorKind::ExpectedNumber),
        },
        None => fail(at_operand, ErrorKind::ExpectedNumber),
    }
}

/// `?branch`: pops a flag. On `TRUE` it does what `branch` does; on
/// anything else it steps over its operand, if there is one, without
/// reading it.
pub open spec fn question_branch_step(s: EngineState) -> Step {
    let stack = s.parameter_stack;
    if stack.len() < 1 {
        underflow(s)
    } else {
        let popped = with_stack(s, below(stack, 1));
        if peek(stack, 0) == TRUE {
            branch_step(popped)
        } else if has_next(popped) {
            done(with_index(popped, (popped.statement_index + 1) as usize))
        } else {
            done(popped)
        }
    }
}

/// The cell that a token compiles to: a number where the token is an
/// integer literal, else the word of that name.
pub open spec fn classify(d: Seq<EntryModel>, token: Seq<char>) -> Result<ForthCell, ErrorKind> {
    match parse_number(token) {
        Some(n) => Ok(ForthCell::Number(n)),
        None => match lookup(d, token) {
            Some(h) => Ok(ForthCell::Word(h as usize)),
            None => Err(ErrorKind::WordNotFound),
        },
    }
}

/// A comment: the instruction pointer, which is on a `(`, moves on to the
/// first token after it that ends in `)`. What runs next is the token
/// after that one.
pub open spec fn comment_step(s: EngineState) -> Step {
    match comment_end(s.statement, s.statement_index + 1) {
        Some(after) => done(with_index(s, (after - 1) as usize)),
        None => fail(s, ErrorKind::UnterminatedComment),
    }
}

/// The body of a definition is compiled token by token from position `at`,
/// with `body` compiled so far, until a `;` ends it. A `(` that names no
/// word opens a comment, which is left out. The instruction pointer is
/// left on the `;`, or on the token at which compiling failed, or on the
/// last token where no `;` comes.
pub open spec fn compile_step(s: EngineState, name: Seq<char>, at: int, body: Seq<ForthCell>) -> Step
    decreases s.statement.len() - at,
    via compile_step_decreases
{
    if 0 <= at < s.statement.len() {
        let here = with_index(s, at as usize);
        let token = s.statement[at];
        if token == seq![';'] {
            done(
                EngineState {
                    dictionary: s.dictionary.push(
                        EntryModel { name: name, code: WordModel::Forth(body) },
                    ),
                    ..here
                },
            )
        } else {
            match classify(s.dictionary, token) {
                Ok(cell) => compile_step(s, name, at + 1, body.push(cell)),
                Err(e) => if opens_comment(token) {
                    match comment_end(s.statement, at + 1) {
                        Some(after) => compile_step(s, name, after, body),
                        None => fail(here, ErrorKind::UnterminatedComment),
                    }
                } else {
                    fail(here, e)
                },
            }
        }
    } else {
        fail(
            with_index(s, (s.statement.len() - 1) as usize),
            ErrorKind::UnterminatedWordDefinition,
        )
    }
}

/// A comment ends after the `(` that opens it.
#[via_fn]
proof fn compile_step_decreases(s: EngineState, name: Seq<char>, at: int, body: Seq<ForthCell>) {
    if 0 <= at {
        lemma_comment_end(s.statement, at + 1);
    }
}

/// `:` takes the token after itself as a name and compiles the tokens after
/// that, up to a `;`, into a new entry of that name.
pub open spec fn colon_step(s: EngineState) -> Step {
    if !has_next(s) {
        fail(s, ErrorKind::WordNameNotFound)
    } else {
        compile_step(s, s.statement[s.statement_index + 1], s.statement_index + 2, Seq::empty())
    }
}

/// `$` pushes what the last run left on the stack, bottom first.
pub open spec fn recall_step(s: EngineState) -> Step {
    match s.last_result {
        Some(saved) => done(with_stack(s, s.parameter_stack + saved)),
        None => fail(s, ErrorKind::EmptyStack),
    }
}

/// What a native word does.
pub open spec fn native_step(p: Primitive, s: EngineState) -> Step {
    match p {
        Primitive::Unary(op) => unary_step(op, s),
        Primitive::Binary(op) => binary_step(op, s),
        Primitive::Divide(op) => divide_step(op, s),
        Primitive::Scale(op) => scale_step(op, s),
        Primitive::Shuffle(op) => shuffle_step(op, s),
        Primitive::Output(op) => output_step(op, s),
        Primitive::Branch => branch_step(s),
        Primitive::QuestionBranch => question_branch_step(s),
        Primitive::Colon => colon_step(s),
        Primitive::Semicolon => fail(s, ErrorKind::SemicolonOutsideOfWordDefinition),
        Primitive::Bye => done(EngineState { halted: true, ..s }),
        Primitive::Recall => recall_step(s),
    }
}

/// Running the entry with handle `h`: a native word does its operation,
/// a compiled one runs its cells.
pub open spec fn entry_step(h: int, s: EngineState) -> Step
    decreases h + 1, 0nat,
{
    if 0 <= h < s.dictionary.len() {
        match s.dictionary[h].code {
            WordModel::Native(p) => native_step(p, s),
            WordModel::Forth(body) => cells_step(body, h, s),
        }
    } else {
        fail(s, ErrorKind::WordNotFound)
    }
}

/// Running cells from left to right: a number is pushed, a word is run.
/// The run ends with the last cell, at the first failure, or once `bye`
/// has been run. `bound` is above the handle of every word in `cells`.
pub open spec fn cells_step(cells: Seq<ForthCell>, bound: int, s: EngineState) -> Step
    decreases bound, cells.len(),
{
    if cells.len() == 0 || s.halted {
        done(s)
    } else {
        let first = match cells[0] {
            ForthCell::Number(n) => done(with_stack(s, s.parameter_stack.push(n))),
            ForthCell::Word(h) => if h < bound {
                entry_step(h as int, s)
            } else {
                fail(s, ErrorKind::WordNotFound)
            },
        };
        match first.1 {
            Ok(_) => cells_step(cells.subrange(1, cells.len() as int), bound, first.0),
            Err(_) => first,
        }
    }
}

/// Running the token under the instruction pointer: a number is pushed, a
/// word is run, and a `(` that names no word opens a comment.
pub open spec fn current_step(s: EngineState) -> Step {
    match current(s) {
        Some(token) => match classify(s.dictionary, token) {
            Ok(ForthCell::Number(n)) => done(with_stack(s, s.parameter_stack.push(n))),
            Ok(ForthCell::Word(h)) => entry_step(h as int, s),
            Err(e) => if opens_comment(token) {
                comment_step(s)
            } else {
                fail(s, e)
            },
        },
        None => fail(s, ErrorKind::InvalidJump("No current statement"@)),
    }
}

/// `advance`: the instruction pointer moves on by one, and the token that
/// it comes to is run.
pub open spec fn advance_step(s: EngineState) -> Step {
    if has_next(s) {
        current_step(with_index(s, (s.statement_index + 1) as usize))
    } else {
        fail(s, ErrorKind::InvalidJump("No next statement"@))
    }
}

/// `retreat`: the instruction pointer moves back by one, and the token that
/// it comes to is run.
pub open spec fn retreat_step(s: EngineState) -> Step {
    if has_prev(s) {
        current_step(with_index(s, (s.statement_index - 1) as usize))
    } else {
        fail(s, ErrorKind::InvalidJump("No previous statement"@))
    }
}

/// The rest of a run: as long as a token follows and `bye` has not been
/// run, the instruction pointer moves on by one and that token is run.
/// `fuel` is the number of tokens that may still be run.
pub open spec fn rest_step(s: EngineState, fuel: nat) -> Step
    decreases fuel,
{
    if s.halted || !has_next(s) {
        done(s)
    } else if fuel == 0 {
        fail(s, ErrorKind::StepLimitExceeded)
    } else {
        let ran = advance_step(s);
        match ran.1 {
            Ok(_) => rest_step(ran.0, (fuel - 1) as nat),
            Err(_) => ran,
        }
    }
}

/// A run: the current token is run, then the rest. An empty statement is
/// not run at all.
pub open spec fn run_step(s: EngineState) -> Step {
    if s.statement.len() == 0 || s.halted {
        done(s)
    } else {
        let ran = current_step(s);
        match ran.1 {
            Ok(_) => rest_step(ran.0, s.step_limit as nat),
            Err(_) => ran,
        }
    }
}

/// The state in which a line is about to be run.
pub open spec fn loaded(s: EngineState, tokens: Seq<Seq<char>>) -> EngineState {
    EngineState { statement: tokens, statement_index: 0, ..s }
}

/// Running a line of tokens from its first: a run that succeeds saves the
/// parameter stack as the last result, one that fails clears it.
pub open spec fn exec_step(s: EngineState, tokens: Seq<Seq<char>>) -> Step {
    let ran = run_step(loaded(s, tokens));
    match ran.1 {
        Ok(_) => done(EngineState { last_result: Some(ran.0.parameter_stack), ..ran.0 }),
        Err(_) => (EngineState { last_result: None, ..ran.0 }, ran.1),
    }
}

} // verus!
