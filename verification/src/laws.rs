//! Laws of the engine, proved from what its operations are defined to do.

use vstd::prelude::*;
use vstd::string::*;
use crate::builtins::with_builtins;
use crate::dictionary::{
    bound_to,
    dictionary_wf,
    extends,
    lemma_lookup,
    lemma_lookup_push,
    lookup,
    EntryModel,
};
use crate::primitive::{
    divide_value,
    lemma_div_bounds,
    trunc_div,
    trunc_rem,
    BinaryOp,
    DivOp,
    OutputOp,
    Primitive,
    ScaleOp,
    StackOp,
    UnaryOp,
};
use crate::error::ErrorKind;
use crate::semantics::{
    advance_step,
    branch_step,
    cells_step,
    classify,
    colon_step,
    compile_step,
    current,
    current_step,
    divide_step,
    done,
    entry_step,
    exec_step,
    fits,
    has_next,
    loaded,
    native_step,
    rest_step,
    retreat_step,
    run_step,
    shuffle_step,
    with_index,
    with_stack,
    EngineState,
};
use crate::statement::{parse_from, parse_statement};
use crate::text::{
    closes_comment,
    comment_end,
    int_text,
    is_digit,
    law_decimal_round_trip,
    lemma_comment_end,
    opens_comment,
    parse_number,
};
use crate::types::ForthCell;
use crate::word::{cells_below, code_below, word_step, WordModel};

verus! {

/// `trunc_div` and `trunc_rem` are the quotient and the remainder of the
/// division that rounds toward zero: together they give back the dividend,
/// and the remainder is smaller in size than the divisor and has the sign
/// of the dividend.
pub proof fn law_truncating_division(a: int, b: int)
    requires
        b != 0,
    ensures
        a == b * trunc_div(a, b) + trunc_rem(a, b),
        a >= 0 ==> 0 <= trunc_rem(a, b),
        a <= 0 ==> trunc_rem(a, b) <= 0,
        b > 0 ==> -b < trunc_rem(a, b) < b,
        b < 0 ==> b < trunc_rem(a, b) < -b,
{
    let x: int = if a < 0 {
        -a
    } else {
        a
    };
    let d: int = if b < 0 {
        -b
    } else {
        b
    };
    lemma_div_bounds(x, d);
    assert(x == d * (x / d) + x % d) by (nonlinear_arith)
        requires
            d > 0,
    ;
    assert(b * trunc_div(a, b) == if a < 0 {
        -(d * (x / d))
    } else {
        d * (x / d)
    }) by (nonlinear_arith)
        requires
            b != 0,
            d == if b < 0 {
                -b
            } else {
                b
            },
            x == if a < 0 {
                -a
            } else {
                a
            },
            trunc_div(a, b) == if (a < 0) == (b < 0) {
                x / d
            } else {
                -(x / d)
            },
    ;
}

/// With `a` and, on top of it, a divisor `b` other than zero on the stack,
/// `/` leaves in their place the quotient of `a` by `b` rounded toward
/// zero, and `mod` the remainder of that division. The one case left out
/// for `/` is the least integer divided by -1, whose quotient no cell holds.
pub proof fn law_division(s: EngineState, a: i32, b: i32)
    requires
        b != 0,
    ensures
        !(a == i32::MIN && b == -1) ==> divide_value(DivOp::Div, a, b) == trunc_div(
            a as int,
            b as int,
        ),
        !(a == i32::MIN && b == -1) ==> divide_step(
            DivOp::Div,
            with_stack(s, s.parameter_stack.push(a).push(b)),
        ) == done(with_stack(s, s.parameter_stack.push(trunc_div(a as int, b as int) as i32))),
        divide_value(DivOp::Mod, a, b) == trunc_rem(a as int, b as int),
        divide_step(DivOp::Mod, with_stack(s, s.parameter_stack.push(a).push(b))) == done(
            with_stack(s, s.parameter_stack.push(trunc_rem(a as int, b as int) as i32)),
        ),
{
    let x: int = if a < 0 {
        -a
    } else {
        a as int
    };
    let d: int = if b < 0 {
        -b
    } else {
        b as int
    };
    lemma_div_bounds(x, d);
    let stack = s.parameter_stack.push(a).push(b);
    assert(stack.subrange(0, stack.len() - 2) =~= s.parameter_stack);
}

/// `dup drop` changes nothing, on any stack that holds an item.
pub proof fn law_dup_drop(s: EngineState)
    requires
        s.parameter_stack.len() >= 1,
    ensures
        shuffle_step(StackOp::Dup, s).1 is Ok,
        shuffle_step(StackOp::Drop, shuffle_step(StackOp::Dup, s).0) == done(s),
{
    let duplicated = shuffle_step(StackOp::Dup, s).0;
    assert(shuffle_step(StackOp::Drop, duplicated).0 =~= s);
}

/// `swap swap` changes nothing, on any stack that holds two items.
pub proof fn law_swap_swap(s: EngineState)
    requires
        s.parameter_stack.len() >= 2,
    ensures
        shuffle_step(StackOp::Swap, s).1 is Ok,
        shuffle_step(StackOp::Swap, shuffle_step(StackOp::Swap, s).0) == done(s),
{
    let swapped = shuffle_step(StackOp::Swap, s).0;
    assert(shuffle_step(StackOp::Swap, swapped).0 =~= s);
}

/// Running a token that is no integer literal and stands for a native
/// word is running that word.
pub proof fn lemma_word_token(s: EngineState, name: Seq<char>, h: int, p: Primitive)
    requires
        current(s) == Some(name),
        parse_number(name) is None,
        bound_to(s.dictionary, name, h, p),
        fits(s),
    ensures
        current_step(s) == native_step(p, s),
{
    assert(classify(s.dictionary, name) == Ok::<ForthCell, ErrorKind>(
        ForthCell::Word(h as usize),
    ));
    assert(entry_step(h, s) == native_step(p, s));
}

/// Running a token that is an integer literal pushes its value.
pub proof fn lemma_number_token(s: EngineState, text: Seq<char>, n: i32)
    requires
        current(s) == Some(text),
        parse_number(text) == Some(n),
    ensures
        current_step(s) == done(with_stack(s, s.parameter_stack.push(n))),
{
}

/// The line `a b /`, with `a` and `b` written in decimal and `b` other than
/// zero, leaves the quotient of `a` by `b` rounded toward zero on top of
/// what the stack held; the line `a b mod` leaves the remainder. This holds
/// in every engine in which the name still stands for the native word,
/// that has not been halted and may run three tokens. The one case left
/// out for `/` is the least integer divided by -1.
pub proof fn law_division_line(s: EngineState, a: i32, b: i32, op: DivOp, h: int)
    requires
        bound_to(s.dictionary, division_name(op), h, Primitive::Divide(op)),
        fits(s),
        b != 0,
        op == DivOp::Div ==> !(a == i32::MIN && b == -1),
        !s.halted,
        s.step_limit >= 2,
    ensures
        ({
            let ran = exec_step(s, seq![int_text(a as int), int_text(b as int), division_name(op)]);
            let value = match op {
                DivOp::Div => trunc_div(a as int, b as int),
                DivOp::Mod => trunc_rem(a as int, b as int),
            };
            &&& ran.1 is Ok
            &&& i32::MIN <= value <= i32::MAX
            &&& ran.0.parameter_stack == s.parameter_stack.push(value as i32)
        }),
{
    let name = division_name(op);
    let tokens = seq![int_text(a as int), int_text(b as int), name];
    assert(tokens.len() == 3 && tokens[0] == int_text(a as int) && tokens[1] == int_text(b as int)
        && tokens[2] == name);
    reveal_strlit("/");
    reveal_strlit("mod");
    assert(parse_number(name) is None) by {
        assert(!is_digit(name[0]));
    }
    law_decimal_round_trip(a);
    law_decimal_round_trip(b);
    law_division(s, a, b);
    let s0 = loaded(s, tokens);
    lemma_number_token(s0, tokens[0], a);
    let s1 = with_index(current_step(s0).0, 1);
    lemma_number_token(s1, tokens[1], b);
    let s2 = with_index(current_step(s1).0, 2);
    lemma_word_token(s2, name, h, Primitive::Divide(op));
    let s3 = current_step(s2).0;
    assert(s2.parameter_stack == s.parameter_stack.push(a).push(b));
    assert(s2.parameter_stack.subrange(0, s2.parameter_stack.len() - 2) =~= s.parameter_stack);
    assert(current_step(s2).1 is Ok);
    assert(rest_step(s3, (s.step_limit - 2) as nat) == done(s3));
    assert(rest_step(current_step(s1).0, (s.step_limit - 1) as nat) == done(s3));
    assert(rest_step(current_step(s0).0, s.step_limit as nat) == done(s3));
}

/// The names of the two words that divide.
pub open spec fn division_name(op: DivOp) -> Seq<char> {
    match op {
        DivOp::Div => "/"@,
        DivOp::Mod => "mod"@,
    }
}

/// The line `dup drop` leaves the stack as it was, wherever it held an
/// item: in every engine in which the two names still stand for the native
/// words, that has not been halted and may run two tokens.
pub proof fn law_dup_drop_line(s: EngineState, dup: int, drop: int)
    requires
        bound_to(s.dictionary, "dup"@, dup, Primitive::Shuffle(StackOp::Dup)),
        bound_to(s.dictionary, "drop"@, drop, Primitive::Shuffle(StackOp::Drop)),
        fits(s),
        s.parameter_stack.len() >= 1,
        !s.halted,
        s.step_limit >= 1,
    ensures
        exec_step(s, seq!["dup"@, "drop"@]).1 is Ok,
        exec_step(s, seq!["dup"@, "drop"@]).0.parameter_stack == s.parameter_stack,
{
    let tokens = seq!["dup"@, "drop"@];
    assert(tokens.len() == 2 && tokens[0] == "dup"@ && tokens[1] == "drop"@);
    reveal_strlit("dup");
    reveal_strlit("drop");
    assert(parse_number("dup"@) is None) by {
        assert(!is_digit("dup"@[0]));
    }
    assert(parse_number("drop"@) is None) by {
        assert(!is_digit("drop"@[0]));
    }
    let s0 = loaded(s, tokens);
    lemma_word_token(s0, "dup"@, dup, Primitive::Shuffle(StackOp::Dup));
    let s1 = with_index(current_step(s0).0, 1);
    lemma_word_token(s1, "drop"@, drop, Primitive::Shuffle(StackOp::Drop));
    let s2 = current_step(s1).0;
    assert(s2.parameter_stack =~= s.parameter_stack);
    assert(rest_step(s2, (s.step_limit - 1) as nat) == done(s2));
    assert(rest_step(current_step(s0).0, s.step_limit as nat) == done(s2));
}

/// The line `swap swap` leaves the stack as it was, wherever it held two
/// items: in every engine in which `swap` still stands for the native
/// word, that has not been halted and may run two tokens.
pub proof fn law_swap_swap_line(s: EngineState, swap: int)
    requires
        bound_to(s.dictionary, "swap"@, swap, Primitive::Shuffle(StackOp::Swap)),
        fits(s),
        s.parameter_stack.len() >= 2,
        !s.halted,
        s.step_limit >= 1,
    ensures
        exec_step(s, seq!["swap"@, "swap"@]).1 is Ok,
        exec_step(s, seq!["swap"@, "swap"@]).0.parameter_stack == s.parameter_stack,
{
    let tokens = seq!["swap"@, "swap"@];
    assert(tokens.len() == 2 && tokens[0] == "swap"@ && tokens[1] == "swap"@);
    reveal_strlit("swap");
    assert(parse_number("swap"@) is None) by {
        assert(!is_digit("swap"@[0]));
    }
    let s0 = loaded(s, tokens);
    lemma_word_token(s0, "swap"@, swap, Primitive::Shuffle(StackOp::Swap));
    let s1 = with_index(current_step(s0).0, 1);
    lemma_word_token(s1, "swap"@, swap, Primitive::Shuffle(StackOp::Swap));
    let s2 = current_step(s1).0;
    assert(s2.parameter_stack =~= s.parameter_stack);
    assert(rest_step(s2, (s.step_limit - 1) as nat) == done(s2));
    assert(rest_step(current_step(s0).0, s.step_limit as nat) == done(s2));
}

/// `branch` with an operand `offset` leaves the instruction pointer
/// `offset` tokens after the operand, where that is inside the statement;
/// the run then goes on with the token after that. So with the operand 1
/// exactly one token after the operand is never run. Where the target is
/// outside the statement, the pointer stays on the operand.
pub proof fn law_branch(s: EngineState, offset: i32)
    requires
        fits(s),
        has_next(s),
        parse_number(s.statement[s.statement_index + 1]) == Some(offset),
    ensures
        ({
            let operand = s.statement_index + 1;
            if 0 <= operand + offset < s.statement.len() {
                branch_step(s) == done(with_index(s, (operand + offset) as usize))
            } else {
                &&& branch_step(s).0 == with_index(s, operand as usize)
                &&& branch_step(s).1 matches Err(ErrorKind::InvalidJump(_))
            }
        }),
{
}

/// What `law_definition` says, of the compiling of a body from any position on.
proof fn lemma_compile(s: EngineState, name: Seq<char>, at: int, body: Seq<ForthCell>)
    requires
        fits(s),
        0 <= at,
    ensures
        ({
            let ran = compile_step(s, name, at, body);
            match ran.1 {
                Ok(_) => {
                    &&& ran.0 == EngineState {
                        dictionary: ran.0.dictionary,
                        statement_index: ran.0.statement_index,
                        ..s
                    }
                    &&& ran.0.dictionary.len() == s.dictionary.len() + 1
                    &&& ran.0.dictionary.drop_last() == s.dictionary
                    &&& ran.0.dictionary.last().name == name
                    &&& ran.0.dictionary.last().code is Forth
                    &&& at <= ran.0.statement_index
                    &&& current(ran.0) == Some(seq![';'])
                },
                Err(e) => {
                    &&& ran.0 == with_index(s, ran.0.statement_index)
                    &&& e == ErrorKind::WordNotFound || e == ErrorKind::UnterminatedComment || e
                        == ErrorKind::UnterminatedWordDefinition
                },
            }
        }),
    decreases s.statement.len() - at,
{
    if at < s.statement.len() {
        let token = s.statement[at];
        if token == seq![';'] {
            let ran = compile_step(s, name, at, body);
            assert(ran.0.dictionary.drop_last() =~= s.dictionary);
        } else {
            match classify(s.dictionary, token) {
                Ok(cell) => lemma_compile(s, name, at + 1, body.push(cell)),
                Err(_) => {
                    if opens_comment(token) {
                        lemma_comment_end(s.statement, at + 1);
                        match comment_end(s.statement, at + 1) {
                            Some(after) => lemma_compile(s, name, after, body),
                            None => {},
                        }
                    }
                },
            }
        }
    }
}

/// A definition that succeeds adds exactly one entry: a compiled word
/// under the name that follows the `:`, which from then on stands for
/// it. It leaves the instruction pointer on the `;` and changes nothing
/// else. A definition that fails defines nothing: it only moves the
/// instruction pointer.
pub proof fn law_definition(s: EngineState)
    requires
        fits(s),
    ensures
        ({
            let ran = colon_step(s);
            match ran.1 {
                Ok(_) => {
                    &&& ran.0 == EngineState {
                        dictionary: ran.0.dictionary,
                        statement_index: ran.0.statement_index,
                        ..s
                    }
                    &&& ran.0.dictionary.len() == s.dictionary.len() + 1
                    &&& ran.0.dictionary.drop_last() == s.dictionary
                    &&& ran.0.dictionary.last().name == s.statement[s.statement_index + 1]
                    &&& ran.0.dictionary.last().code is Forth
                    &&& lookup(ran.0.dictionary, s.statement[s.statement_index + 1]) == Some(
                        s.dictionary.len() as int,
                    )
                    &&& s.statement_index + 1 < ran.0.statement_index
                    &&& current(ran.0) == Some(seq![';'])
                },
                Err(e) => {
                    &&& ran.0 == with_index(s, ran.0.statement_index)
                    &&& e == ErrorKind::WordNameNotFound || e == ErrorKind::WordNotFound || e
                        == ErrorKind::UnterminatedComment || e
                        == ErrorKind::UnterminatedWordDefinition
                },
            }
        }),
{
    if has_next(s) {
        lemma_compile(s, s.statement[s.statement_index + 1], s.statement_index + 2, Seq::empty());
    } else {
        assert(colon_step(s).0 =~= with_index(s, s.statement_index));
    }
}

/// A comment inside a part of a statement ends where it ends in the whole
/// statement, as long as it ends inside the part.
proof fn lemma_comment_in_part(tokens: Seq<Seq<char>>, first: int, end: int, at: int)
    requires
        0 <= first <= at,
        end <= tokens.len(),
        comment_end(tokens, at) matches Some(after) && after <= end,
    ensures
        comment_end(tokens.subrange(first, end), at - first) == Some(
            comment_end(tokens, at)->0 - first,
        ),
    decreases tokens.len() - at,
{
    lemma_comment_end(tokens, at);
    let part = tokens.subrange(first, end);
    assert(part[at - first] == tokens[at]);
    if !closes_comment(tokens[at]) {
        lemma_comment_in_part(tokens, first, end, at + 1);
    }
}

/// What `law_definition_parses` says, of the compiling of a body from any
/// position on.
proof fn lemma_compile_parses(
    s: EngineState,
    name: Seq<char>,
    first: int,
    at: int,
    body: Seq<ForthCell>,
)
    requires
        fits(s),
        0 <= first <= at,
        compile_step(s, name, at, body).1 is Ok,
    ensures
        ({
            let ran = compile_step(s, name, at, body).0;
            let end = ran.statement_index as int;
            &&& at <= end < s.statement.len()
            &&& ran.dictionary.last().code is Forth
            &&& parse_from(s.dictionary, s.statement.subrange(first, end), at - first, body) == Ok::<
                Seq<ForthCell>,
                ErrorKind,
            >(ran.dictionary.last().code->Forth_0)
        }),
    decreases s.statement.len() - at,
{
    let token = s.statement[at];
    let end = compile_step(s, name, at, body).0.statement_index as int;
    let part = s.statement.subrange(first, end);
    if token != seq![';'] {
        match classify(s.dictionary, token) {
            Ok(cell) => {
                lemma_compile_parses(s, name, first, at + 1, body.push(cell));
                assert(part[at - first] == token);
            },
            Err(_) => {
                lemma_comment_end(s.statement, at + 1);
                let after = comment_end(s.statement, at + 1)->0;
                lemma_compile_parses(s, name, first, after, body);
                assert(part[at - first] == token);
                lemma_comment_in_part(s.statement, first, end, at + 1);
            },
        }
    }
}

/// What `:` compiles is what `parse` makes of the tokens between the name
/// and the `;` that ends the definition.
pub proof fn law_definition_parses(s: EngineState)
    requires
        fits(s),
        colon_step(s).1 is Ok,
    ensures
        ({
            let ran = colon_step(s).0;
            let first = s.statement_index + 2;
            let end = ran.statement_index as int;
            &&& first <= end < s.statement.len()
            &&& ran.dictionary.last().code is Forth
            &&& parse_statement(s.dictionary, s.statement.subrange(first, end)) == Ok::<
                Seq<ForthCell>,
                ErrorKind,
            >(ran.dictionary.last().code->Forth_0)
        }),
{
    lemma_compile_parses(
        s,
        s.statement[s.statement_index + 1],
        s.statement_index + 2,
        s.statement_index + 2,
        Seq::empty(),
    );
}

/// Cells run the same under every bound that is above the handles of
/// their words.
pub proof fn lemma_cells_bound(cells: Seq<ForthCell>, low: int, high: int, s: EngineState)
    requires
        cells_below(cells, low),
        low <= high,
    ensures
        cells_step(cells, low, s) == cells_step(cells, high, s),
    decreases cells.len(),
{
    if cells.len() > 0 && !s.halted {
        let rest = cells.subrange(1, cells.len() as int);
        assert forall|i: int| 0 <= i < rest.len() implies (#[trigger] rest[i] matches ForthCell::Word(
            h,
        ) ==> h < low) by {
            assert(rest[i] == cells[i + 1]);
        }
        let head = match cells[0] {
            ForthCell::Number(n) => done(with_stack(s, s.parameter_stack.push(n))),
            ForthCell::Word(h) => entry_step(h as int, s),
        };
        if head.1 is Ok {
            lemma_cells_bound(rest, low, high, head.0);
        }
    }
}

/// Running a compiled entry is running its cells as a word of their own:
/// a word that `:` defined does what `run` does with the statement that
/// `parse` makes of its body.
pub proof fn law_entry_runs_its_body(h: int, s: EngineState)
    requires
        dictionary_wf(s.dictionary),
        0 <= h < s.dictionary.len(),
        s.dictionary[h].code is Forth,
    ensures
        entry_step(h, s) == word_step(s.dictionary[h].code, s),
{
    lemma_cells_bound(s.dictionary[h].code->Forth_0, h, s.dictionary.len() as int, s);
}

/// What holds between the state before any operation of the engine and the
/// state after it, whether the operation succeeds or fails:
/// entries are only ever added, and a well-formed dictionary stays so; the
/// return stack and the step limit stay as they are; text is only ever
/// added to the output; and `bye`, once run, stays run.
pub open spec fn follows(a: EngineState, b: EngineState) -> bool {
    &&& extends(a.dictionary, b.dictionary)
    &&& dictionary_wf(a.dictionary) ==> dictionary_wf(b.dictionary)
    &&& b.return_stack == a.return_stack
    &&& b.step_limit == a.step_limit
    &&& a.output.is_prefix_of(b.output)
    &&& a.halted ==> b.halted
}

/// What holds in addition of every operation but `exec`, which loads a new
/// statement and sets the last result: those two stay as they are.
pub open spec fn follows_within(a: EngineState, b: EngineState) -> bool {
    &&& follows(a, b)
    &&& b.statement == a.statement
    &&& b.last_result == a.last_result
}

/// Compiling a body leaves the engine in a state that follows.
proof fn lemma_compile_follows(s: EngineState, name: Seq<char>, at: int, body: Seq<ForthCell>)
    requires
        cells_below(body, s.dictionary.len() as int),
    ensures
        follows_within(s, compile_step(s, name, at, body).0),
    decreases s.statement.len() - at,
{
    if 0 <= at < s.statement.len() {
        let token = s.statement[at];
        if token == seq![';'] {
            let entry = EntryModel { name: name, code: WordModel::Forth(body) };
            let d = s.dictionary.push(entry);
            if dictionary_wf(s.dictionary) {
                assert forall|h: int| 0 <= h < d.len() implies code_below(
                    #[trigger] d[h].code,
                    h,
                ) by {
                    if h < s.dictionary.len() {
                        assert(d[h] == s.dictionary[h]);
                    }
                }
            }
        } else {
            match classify(s.dictionary, token) {
                Ok(cell) => {
                    lemma_lookup(s.dictionary, token);
                    lemma_compile_follows(s, name, at + 1, body.push(cell));
                },
                Err(_) => {
                    if opens_comment(token) {
                        lemma_comment_end(s.statement, at + 1);
                        match comment_end(s.statement, at + 1) {
                            Some(after) => lemma_compile_follows(s, name, after, body),
                            None => {},
                        }
                    }
                },
            }
        }
    }
}

/// A native word leaves the engine in a state that follows.
pub proof fn law_native_follows(p: Primitive, s: EngineState)
    ensures
        follows_within(s, native_step(p, s).0),
{
    match p {
        Primitive::Colon => {
            lemma_compile_follows(
                s,
                s.statement[s.statement_index + 1],
                s.statement_index + 2,
                Seq::empty(),
            );
        },
        _ => {},
    }
}

/// Running an entry leaves the engine in a state that follows.
pub proof fn law_entry_follows(h: int, s: EngineState)
    ensures
        follows_within(s, entry_step(h, s).0),
    decreases h + 1, 0nat,
{
    if 0 <= h < s.dictionary.len() {
        match s.dictionary[h].code {
            WordModel::Native(p) => law_native_follows(p, s),
            WordModel::Forth(body) => law_cells_follows(body, h, s),
        }
    }
}

/// Running cells leaves the engine in a state that follows.
pub proof fn law_cells_follows(cells: Seq<ForthCell>, bound: int, s: EngineState)
    ensures
        follows_within(s, cells_step(cells, bound, s).0),
    decreases bound, cells.len(),
{
    if cells.len() > 0 && !s.halted {
        let first = match cells[0] {
            ForthCell::Number(n) => done(with_stack(s, s.parameter_stack.push(n))),
            ForthCell::Word(h) => if h < bound {
                law_entry_follows(h as int, s);
                entry_step(h as int, s)
            } else {
                (s, Err(ErrorKind::WordNotFound))
            },
        };
        if first.1 is Ok {
            law_cells_follows(cells.subrange(1, cells.len() as int), bound, first.0);
        }
    }
}

/// Running the current token, and moving the instruction pointer by one
/// and running the token it comes to, leave the engine in a state that follows.
pub proof fn law_current_follows(s: EngineState)
    ensures
        follows_within(s, current_step(s).0),
        follows_within(s, advance_step(s).0),
        follows_within(s, retreat_step(s).0),
{
    lemma_token_follows(s);
    lemma_token_follows(with_index(s, (s.statement_index + 1) as usize));
    lemma_token_follows(with_index(s, (s.statement_index - 1) as usize));
}

/// Running the current token leaves the engine in a state that follows.
proof fn lemma_token_follows(s: EngineState)
    ensures
        follows_within(s, current_step(s).0),
{
    match current(s) {
        Some(token) => match classify(s.dictionary, token) {
            Ok(ForthCell::Word(h)) => law_entry_follows(h as int, s),
            _ => {},
        },
        None => {},
    }
}

/// The rest of a run leaves the engine in a state that follows.
proof fn lemma_rest_follows(s: EngineState, fuel: nat)
    ensures
        follows_within(s, rest_step(s, fuel).0),
    decreases fuel,
{
    if !s.halted && has_next(s) && fuel > 0 {
        law_current_follows(s);
        let ran = advance_step(s);
        if ran.1 is Ok {
            lemma_rest_follows(ran.0, (fuel - 1) as nat);
        }
    }
}

/// A run leaves the engine in a state that follows.
pub proof fn law_run_follows(s: EngineState)
    ensures
        follows_within(s, run_step(s).0),
{
    if s.statement.len() > 0 && !s.halted {
        law_current_follows(s);
        let ran = current_step(s);
        if ran.1 is Ok {
            lemma_rest_follows(ran.0, s.step_limit as nat);
        }
    }
}

/// Running a line leaves the engine in a state that follows. In particular
/// every entry that was there is still there, under the same handle: what
/// was compiled against it still runs it, whatever the line defined.
pub proof fn law_exec_follows(s: EngineState, tokens: Seq<Seq<char>>)
    ensures
        follows(s, exec_step(s, tokens).0),
{
    law_run_follows(loaded(s, tokens));
}

/// Enough of a name to tell the builtin words apart: its length, its first
/// two characters and its last.
spec fn signature(name: Seq<char>) -> (nat, char, char, char) {
    (name.len(), name[0], name[if name.len() > 1 {
        1int
    } else {
        0int
    }], name.last())
}

/// The signatures of the names of the builtin words: all different.
proof fn lemma_builtin_names()
    ensures
        signature("bye"@) == (3nat, 'b', 'y', 'e'),
        signature("/"@) == (1nat, '/', '/', '/'),
        signature("*"@) == (1nat, '*', '*', '*'),
        signature("+"@) == (1nat, '+', '+', '+'),
        signature("-"@) == (1nat, '-', '-', '-'),
        signature("mod"@) == (3nat, 'm', 'o', 'd'),
        signature("and"@) == (3nat, 'a', 'n', 'd'),
        signature("or"@) == (2nat, 'o', 'r', 'r'),
        signature("xor"@) == (3nat, 'x', 'o', 'r'),
        signature("rshift"@) == (6nat, 'r', 's', 't'),
        signature("lshift"@) == (6nat, 'l', 's', 't'),
        signature("max"@) == (3nat, 'm', 'a', 'x'),
        signature("min"@) == (3nat, 'm', 'i', 'n'),
        signature("negate"@) == (6nat, 'n', 'e', 'e'),
        signature("not"@) == (3nat, 'n', 'o', 't'),
        signature("abs"@) == (3nat, 'a', 'b', 's'),
        signature("<"@) == (1nat, '<', '<', '<'),
        signature(">"@) == (1nat, '>', '>', '>'),
        signature("="@) == (1nat, '=', '=', '='),
        signature("0<"@) == (2nat, '0', '<', '<'),
        signature("0>"@) == (2nat, '0', '>', '>'),
        signature("0="@) == (2nat, '0', '=', '='),
        signature("1+"@) == (2nat, '1', '+', '+'),
        signature("1-"@) == (2nat, '1', '-', '-'),
        signature("2+"@) == (2nat, '2', '+', '+'),
        signature("2-"@) == (2nat, '2', '-', '-'),
        signature("2/"@) == (2nat, '2', '/', '/'),
        signature("2*"@) == (2nat, '2', '*', '*'),
        signature("*/"@) == (2nat, '*', '/', '/'),
        signature("*/mod"@) == (5nat, '*', '/', 'd'),
        signature("drop"@) == (4nat, 'd', 'r', 'p'),
        signature("dup"@) == (3nat, 'd', 'u', 'p'),
        signature("?dup"@) == (4nat, '?', 'd', 'p'),
        signature("over"@) == (4nat, 'o', 'v', 'r'),
        signature("swap"@) == (4nat, 's', 'w', 'p'),
        signature("rot"@) == (3nat, 'r', 'o', 't'),
        signature("branch"@) == (6nat, 'b', 'r', 'h'),
        signature("?branch"@) == (7nat, '?', 'b', 'h'),
        signature("emit"@) == (4nat, 'e', 'm', 't'),
        signature("dump"@) == (4nat, 'd', 'u', 'p'),
        signature("cr"@) == (2nat, 'c', 'r', 'r'),
        signature("."@) == (1nat, '.', '.', '.'),
        signature(":"@) == (1nat, ':', ':', ':'),
        signature(";"@) == (1nat, ';', ';', ';'),
        signature("$"@) == (1nat, '$', '$', '$'),
        signature("square"@) == (6nat, 's', 'q', 'e'),
{
    reveal_strlit("bye");
    reveal_strlit("/");
    reveal_strlit("*");
    reveal_strlit("+");
    reveal_strlit("-");
    reveal_strlit("mod");
    reveal_strlit("and");
    reveal_strlit("or");
    reveal_strlit("xor");
    reveal_strlit("rshift");
    reveal_strlit("lshift");
    reveal_strlit("max");
    reveal_strlit("min");
    reveal_strlit("negate");
    reveal_strlit("not");
    reveal_strlit("abs");
    reveal_strlit("<");
    reveal_strlit(">");
    reveal_strlit("=");
    reveal_strlit("0<");
    reveal_strlit("0>");
    reveal_strlit("0=");
    reveal_strlit("1+");
    reveal_strlit("1-");
    reveal_strlit("2+");
    reveal_strlit("2-");
    reveal_strlit("2/");
    reveal_strlit("2*");
    reveal_strlit("*/");
    reveal_strlit("*/mod");
    reveal_strlit("drop");
    reveal_strlit("dup");
    reveal_strlit("?dup");
    reveal_strlit("over");
    reveal_strlit("swap");
    reveal_strlit("rot");
    reveal_strlit("branch");
    reveal_strlit("?branch");
    reveal_strlit("emit");
    reveal_strlit("dump");
    reveal_strlit("cr");
    reveal_strlit(".");
    reveal_strlit(":");
    reveal_strlit(";");
    reveal_strlit("$");
    reveal_strlit("square");

}

/// In a dictionary to which the builtin words were just added, each of
/// their names stands for its own entry: no two of them share a name.
#[verifier::rlimit(50)]
pub proof fn law_builtins_bound(d: Seq<EntryModel>)
    ensures
        with_builtins(d).len() == d.len() + 46,
        bound_to(with_builtins(d), "bye"@, d.len() as int + 0, Primitive::Bye),
        bound_to(with_builtins(d), "/"@, d.len() as int + 1, Primitive::Divide(DivOp::Div)),
        bound_to(with_builtins(d), "*"@, d.len() as int + 2, Primitive::Binary(BinaryOp::Mul)),
        bound_to(with_builtins(d), "+"@, d.len() as int + 3, Primitive::Binary(BinaryOp::Add)),
        bound_to(with_builtins(d), "-"@, d.len() as int + 4, Primitive::Binary(BinaryOp::Sub)),
        bound_to(with_builtins(d), "mod"@, d.len() as int + 5, Primitive::Divide(DivOp::Mod)),
        bound_to(with_builtins(d), "and"@, d.len() as int + 6, Primitive::Binary(BinaryOp::And)),
        bound_to(with_builtins(d), "or"@, d.len() as int + 7, Primitive::Binary(BinaryOp::Or)),
        bound_to(with_builtins(d), "xor"@, d.len() as int + 8, Primitive::Binary(BinaryOp::Xor)),
        bound_to(with_builtins(d), "rshift"@, d.len() as int + 9, Primitive::Binary(BinaryOp::Rshift)),
        bound_to(with_builtins(d), "lshift"@, d.len() as int + 10, Primitive::Binary(BinaryOp::Lshift)),
        bound_to(with_builtins(d), "max"@, d.len() as int + 11, Primitive::Binary(BinaryOp::Max)),
        bound_to(with_builtins(d), "min"@, d.len() as int + 12, Primitive::Binary(BinaryOp::Min)),
        bound_to(with_builtins(d), "negate"@, d.len() as int + 13, Primitive::Unary(UnaryOp::Negate)),
        bound_to(with_builtins(d), "not"@, d.len() as int + 14, Primitive::Unary(UnaryOp::Not)),
        bound_to(with_builtins(d), "abs"@, d.len() as int + 15, Primitive::Unary(UnaryOp::Abs)),
        bound_to(with_builtins(d), "<"@, d.len() as int + 16, Primitive::Binary(BinaryOp::Less)),
        bound_to(with_builtins(d), ">"@, d.len() as int + 17, Primitive::Binary(BinaryOp::Greater)),
        bound_to(with_builtins(d), "="@, d.len() as int + 18, Primitive::Binary(BinaryOp::Equal)),
        bound_to(with_builtins(d), "0<"@, d.len() as int + 19, Primitive::Unary(UnaryOp::ZeroLess)),
        bound_to(with_builtins(d), "0>"@, d.len() as int + 20, Primitive::Unary(UnaryOp::ZeroGreater)),
        bound_to(with_builtins(d), "0="@, d.len() as int + 21, Primitive::Unary(UnaryOp::ZeroEqual)),
        bound_to(with_builtins(d), "1+"@, d.len() as int + 22, Primitive::Unary(UnaryOp::OnePlus)),
        bound_to(with_builtins(d), "1-"@, d.len() as int + 23, Primitive::Unary(UnaryOp::OneMinus)),
        bound_to(with_builtins(d), "2+"@, d.len() as int + 24, Primitive::Unary(UnaryOp::TwoPlus)),
        bound_to(with_builtins(d), "2-"@, d.len() as int + 25, Primitive::Unary(UnaryOp::TwoMinus)),
        bound_to(with_builtins(d), "2/"@, d.len() as int + 26, Primitive::Unary(UnaryOp::TwoSlash)),
        bound_to(with_builtins(d), "2*"@, d.len() as int + 27, Primitive::Unary(UnaryOp::TwoStar)),
        bound_to(with_builtins(d), "*/"@, d.len() as int + 28, Primitive::Scale(ScaleOp::StarSlash)),
        bound_to(with_builtins(d), "*/mod"@, d.len() as int + 29, Primitive::Scale(ScaleOp::StarSlashMod)),
        bound_to(with_builtins(d), "drop"@, d.len() as int + 30, Primitive::Shuffle(StackOp::Drop)),
        bound_to(with_builtins(d), "dup"@, d.len() as int + 31, Primitive::Shuffle(StackOp::Dup)),
        bound_to(with_builtins(d), "?dup"@, d.len() as int + 32, Primitive::Shuffle(StackOp::QuestionDup)),
        bound_to(with_builtins(d), "over"@, d.len() as int + 33, Primitive::Shuffle(StackOp::Over)),
        bound_to(with_builtins(d), "swap"@, d.len() as int + 34, Primitive::Shuffle(StackOp::Swap)),
        bound_to(with_builtins(d), "rot"@, d.len() as int + 35, Primitive::Shuffle(StackOp::Rot)),
        bound_to(with_builtins(d), "branch"@, d.len() as int + 36, Primitive::Branch),
        bound_to(with_builtins(d), "?branch"@, d.len() as int + 37, Primitive::QuestionBranch),
        bound_to(with_builtins(d), "emit"@, d.len() as int + 38, Primitive::Output(OutputOp::Emit)),
        bound_to(with_builtins(d), "dump"@, d.len() as int + 39, Primitive::Output(OutputOp::Dump)),
        bound_to(with_builtins(d), "cr"@, d.len() as int + 40, Primitive::Output(OutputOp::Cr)),
        bound_to(with_builtins(d), "."@, d.len() as int + 41, Primitive::Output(OutputOp::Dot)),
        bound_to(with_builtins(d), ":"@, d.len() as int + 42, Primitive::Colon),
        bound_to(with_builtins(d), ";"@, d.len() as int + 43, Primitive::Semicolon),
        bound_to(with_builtins(d), "$"@, d.len() as int + 44, Primitive::Recall),
        lookup(with_builtins(d), "square"@) == Some(d.len() as int + 45),
{
    lemma_builtin_names();
    lemma_lookup_push();
}

} // verus!
