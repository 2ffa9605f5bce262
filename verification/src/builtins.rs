//! The native words: what each does to the engine, and the dictionary
//! that an engine starts with.

use vstd::prelude::*;
use vstd::string::*;
use crate::dictionary::{dictionary_wf, extends, Dictionary, DictionaryExt, Entry, EntryModel};
use crate::error::{outcome, ForthError, ForthResult};
use crate::interpreter::Interpreter;
use crate::primitive::{
    binary,
    divide,
    scale,
    unary,
    BinaryOp,
    DivOp,
    OutputOp,
    Primitive,
    ScaleOp,
    StackOp,
    UnaryOp,
};
use crate::semantics::{
    below,
    binary_step,
    branch_step,
    colon_step,
    compile_step,
    divide_step,
    native_step,
    output_step,
    question_branch_step,
    recall_step,
    scale_step,
    shuffle_step,
    unary_step,
    with_stack,
    EngineState,
};
use crate::text::{
    append_list,
    append_text,
    decimal,
    find_comment_end,
    is_comment_start,
    lemma_comment_end,
    parse_int,
};
use crate::types::{ForthCell, TRUE};
use crate::word::{cells_below, ForthWord, WordModel};

verus! {

impl Interpreter {
    /// A word that replaces the top of the stack by a function of it.
    fn unary_word(&mut self, op: UnaryOp) -> (r: ForthResult<()>)
        ensures
            (final(self)@, outcome(r)) == unary_step(op, old(self)@),
            final(self).dictionary == old(self).dictionary,
    {
        match self.parameter_stack.pop() {
            Some(a) => {
                self.parameter_stack.push(unary(op, a));
                assert(self@ =~= unary_step(op, old(self)@).0);
                Ok(())
            },
            None => {
                assert(self@ =~= unary_step(op, old(self)@).0);
                Err(ForthError::EmptyStack)
            },
        }
    }

    /// A word that replaces the two topmost items by a function of them.
    fn binary_word(&mut self, op: BinaryOp) -> (r: ForthResult<()>)
        ensures
            (final(self)@, outcome(r)) == binary_step(op, old(self)@),
            final(self).dictionary == old(self).dictionary,
    {
        let b: i32 = match self.parameter_stack.pop() {
            Some(b) => b,
            None => {
                assert(self@ =~= binary_step(op, old(self)@).0);
                return Err(ForthError::EmptyStack);
            },
        };
        let a: i32 = match self.parameter_stack.pop() {
            Some(a) => a,
            None => {
                assert(self@ =~= binary_step(op, old(self)@).0);
                return Err(ForthError::EmptyStack);
            },
        };
        self.parameter_stack.push(binary(op, a, b));
        assert(self@ =~= binary_step(op, old(self)@).0);
        Ok(())
    }

    /// `/` and `mod`.
    fn divide_word(&mut self, op: DivOp) -> (r: ForthResult<()>)
        ensures
            (final(self)@, outcome(r)) == divide_step(op, old(self)@),
            final(self).dictionary == old(self).dictionary,
    {
        let b: i32 = match self.parameter_stack.pop() {
            Some(b) => b,
            None => {
                assert(self@ =~= divide_step(op, old(self)@).0);
                return Err(ForthError::EmptyStack);
            },
        };
        let a: i32 = match self.parameter_stack.pop() {
            Some(a) => a,
            None => {
                assert(self@ =~= divide_step(op, old(self)@).0);
                return Err(ForthError::EmptyStack);
            },
        };
        if b == 0 {
            assert(self@ =~= divide_step(op, old(self)@).0);
            return Err(ForthError::DivisionByZero);
        }
        self.parameter_stack.push(divide(op, a, b));
        assert(self@ =~= divide_step(op, old(self)@).0);
        Ok(())
    }

    /// `*/` and `*/mod`.
    fn scale_word(&mut self, op: ScaleOp) -> (r: ForthResult<()>)
        ensures
            (final(self)@, outcome(r)) == scale_step(op, old(self)@),
            final(self).dictionary == old(self).dictionary,
    {
        let z: i32 = match self.parameter_stack.pop() {
            Some(z) => z,
            None => {
                assert(self@ =~= scale_step(op, old(self)@).0);
                return Err(ForthError::EmptyStack);
            },
        };
        let y: i32 = match self.parameter_stack.pop() {
            Some(y) => y,
            None => {
                assert(self@ =~= scale_step(op, old(self)@).0);
                return Err(ForthError::EmptyStack);
            },
        };
        let x: i32 = match self.parameter_stack.pop() {
            Some(x) => x,
            None => {
                assert(self@ =~= scale_step(op, old(self)@).0);
                return Err(ForthError::EmptyStack);
            },
        };
        if z == 0 {
            assert(self@ =~= scale_step(op, old(self)@).0);
            return Err(ForthError::DivisionByZero);
        }
        let (quotient, remainder) = scale(x, y, z);
        match op {
            ScaleOp::StarSlash => {
                self.parameter_stack.push(quotient);
            },
            ScaleOp::StarSlashMod => {
                self.parameter_stack.push(remainder);
                self.parameter_stack.push(quotient);
            },
        }
        assert(self@ =~= scale_step(op, old(self)@).0);
        Ok(())
    }

    /// A word that only moves items of the stack.
    fn shuffle_word(&mut self, op: StackOp) -> (r: ForthResult<()>)
        ensures
            (final(self)@, outcome(r)) == shuffle_step(op, old(self)@),
            final(self).dictionary == old(self).dictionary,
    {
        let x: i32 = match self.parameter_stack.pop() {
            Some(x) => x,
            None => {
                assert(self@ =~= shuffle_step(op, old(self)@).0);
                return Err(ForthError::EmptyStack);
            },
        };
        match op {
            StackOp::Drop => {},
            StackOp::Dup => {
                self.parameter_stack.push(x);
                self.parameter_stack.push(x);
            },
            StackOp::QuestionDup => {
                self.parameter_stack.push(x);
                if x != 0 {
                    self.parameter_stack.push(x);
                }
            },
            StackOp::Over | StackOp::Swap | StackOp::Rot => {
                let y: i32 = match self.parameter_stack.pop() {
                    Some(y) => y,
                    None => {
                        assert(self@ =~= shuffle_step(op, old(self)@).0);
                        return Err(ForthError::EmptyStack);
                    },
                };
                match op {
                    StackOp::Over => {
                        self.parameter_stack.push(x);
                        self.parameter_stack.push(y);
                        self.parameter_stack.push(x);
                    },
                    StackOp::Swap => {
                        self.parameter_stack.push(x);
                        self.parameter_stack.push(y);
                    },
                    _ => {
                        let z: i32 = match self.parameter_stack.pop() {
                            Some(z) => z,
                            None => {
                                assert(self@ =~= shuffle_step(op, old(self)@).0);
                                return Err(ForthError::EmptyStack);
                            },
                        };
                        self.parameter_stack.push(y);
                        self.parameter_stack.push(x);
                        self.parameter_stack.push(z);
                    },
                }
            },
        }
        assert(self@ =~= shuffle_step(op, old(self)@).0);
        Ok(())
    }

    /// A word that writes to the output.
    fn output_word(&mut self, op: OutputOp) -> (r: ForthResult<()>)
        ensures
            (final(self)@, outcome(r)) == output_step(op, old(self)@),
            final(self).dictionary == old(self).dictionary,
    {
        match op {
            OutputOp::Dot => {
                match self.parameter_stack.pop() {
                    Some(x) => {
                        let digits: String = decimal(x as i128);
                        append_text(&mut self.output, digits.as_str());
                        assert(self@ =~= output_step(op, old(self)@).0);
                        Ok(())
                    },
                    None => {
                        assert(self@ =~= output_step(op, old(self)@).0);
                        Err(ForthError::EmptyStack)
                    },
                }
            },
            OutputOp::Cr => {
                self.output.push('\n');
                Ok(())
            },
            OutputOp::Emit => {
                match self.parameter_stack.pop() {
                    Some(x) => {
                        if 0 <= x && x <= 255 {
                            self.output.push(x as u8 as char);
                            assert(self@ =~= output_step(op, old(self)@).0);
                            Ok(())
                        } else {
                            assert(self@ =~= output_step(op, old(self)@).0);
                            Err(ForthError::InvalidCharacter)
                        }
                    },
                    None => {
                        assert(self@ =~= output_step(op, old(self)@).0);
                        Err(ForthError::EmptyStack)
                    },
                }
            },
            OutputOp::Dump => {
                append_text(&mut self.output, "ds =  ");
                append_list(&mut self.output, &self.parameter_stack);
                self.output.push(' ');
                self.output.push('\n');
                assert(self@ =~= output_step(op, old(self)@).0);
                Ok(())
            },
        }
    }

    /// `branch`.
    fn branch_word(&mut self) -> (r: ForthResult<()>)
        ensures
            (final(self)@, outcome(r)) == branch_step(old(self)@),
            final(self).dictionary == old(self).dictionary,
    {
        if self.statement_index < self.statement.len() {
            self.statement_index = self.statement_index + 1;
        }
        match self.get_current() {
            Some(token) => match parse_int(token.as_str()) {
                Some(offset) => self.jump(offset),
                None => Err(ForthError::ExpectedNumber),
            },
            None => Err(ForthError::ExpectedNumber),
        }
    }

    /// `?branch`.
    fn question_branch_word(&mut self) -> (r: ForthResult<()>)
        ensures
            (final(self)@, outcome(r)) == question_branch_step(old(self)@),
            final(self).dictionary == old(self).dictionary,
    {
        match self.parameter_stack.pop() {
            Some(x) => {
                assert(self@ =~= with_stack(
                    old(self)@,
                    below(old(self)@.parameter_stack, 1),
                ));
                if x == TRUE {
                    self.branch_word()
                } else {
                    if self.has_next() {
                        self.statement_index = self.statement_index + 1;
                    }
                    Ok(())
                }
            },
            None => {
                assert(self@ =~= question_branch_step(old(self)@).0);
                Err(ForthError::EmptyStack)
            },
        }
    }

    /// `$`.
    fn recall_word(&mut self) -> (r: ForthResult<()>)
        ensures
            (final(self)@, outcome(r)) == recall_step(old(self)@),
            final(self).dictionary == old(self).dictionary,
    {
        match &self.last_result {
            Some(saved) => {
                let n: usize = saved.len();
                let mut i: usize = 0;
                while i < n
                    invariant
                        self.last_result == Some(*saved),
                        n == saved@.len(),
                        i <= n,
                        self.parameter_stack@ == old(self).parameter_stack@ + saved@.subrange(
                            0,
                            i as int,
                        ),
                        self.dictionary == old(self).dictionary,
                        self.return_stack == old(self).return_stack,
                        self.statement == old(self).statement,
                        self.statement_index == old(self).statement_index,
                        self.last_result == old(self).last_result,
                        self.output == old(self).output,
                        self.halted == old(self).halted,
                        self.step_limit == old(self).step_limit,
                    decreases n - i,
                {
                    self.parameter_stack.push(saved[i]);
                    assert(saved@.subrange(0, i + 1) =~= saved@.subrange(0, i as int).push(
                        saved@[i as int],
                    ));
                    i = i + 1;
                }
                assert(saved@.subrange(0, n as int) =~= saved@);
                assert(self@ =~= recall_step(old(self)@).0);
                Ok(())
            },
            None => Err(ForthError::EmptyStack),
        }
    }

    /// Runs a native word.
    pub fn apply(&mut self, p: Primitive) -> (r: ForthResult<()>)
        requires
            old(self).wf(),
        ensures
            (final(self)@, outcome(r)) == native_step(p, old(self)@),
            final(self).wf(),
            extends(old(self).dictionary@, final(self).dictionary@),
    {
        match p {
            Primitive::Unary(op) => self.unary_word(op),
            Primitive::Binary(op) => self.binary_word(op),
            Primitive::Divide(op) => self.divide_word(op),
            Primitive::Scale(op) => self.scale_word(op),
            Primitive::Shuffle(op) => self.shuffle_word(op),
            Primitive::Output(op) => self.output_word(op),
            Primitive::Branch => self.branch_word(),
            Primitive::QuestionBranch => self.question_branch_word(),
            Primitive::Colon => self.colon_word(),
            Primitive::Semicolon => Err(ForthError::SemicolonOutsideOfWordDefinition),
            Primitive::Bye => {
                self.halted = true;
                Ok(())
            },
            Primitive::Recall => self.recall_word(),
        }
    }

    /// `:`.
    fn colon_word(&mut self) -> (r: ForthResult<()>)
        requires
            old(self).wf(),
        ensures
            (final(self)@, outcome(r)) == colon_step(old(self)@),
            final(self).wf(),
            extends(old(self).dictionary@, final(self).dictionary@),
    {
        if !self.has_next() {
            return Err(ForthError::WordNameNotFound);
        }
        let name: String = self.statement[self.statement_index + 1].clone();
        let n: usize = self.statement.len();
        let mut at: usize = self.statement_index + 2;
        let mut body: Vec<ForthCell> = Vec::new();
        let semicolon: String = ";".to_owned();
        proof {
            reveal_strlit(";");
            assert(semicolon@ =~= seq![';']);
        }
        while at < n
            invariant
                *self == *old(self),
                self.wf(),
                n == self.statement@.len(),
                2 <= at <= n,
                semicolon@ == seq![';'],
                cells_below(body@, self.dictionary@.len() as int),
                colon_step(old(self)@) == compile_step(old(self)@, name@, at as int, body@),
            decreases n - at,
        {
            if self.statement[at] == semicolon {
                self.statement_index = at;
                self.dictionary.insert_entry(Entry { name, code: ForthWord::Forth(body) });
                assert(self@ =~= colon_step(old(self)@).0);
                return Ok(());
            }
            match self.parse_word(self.statement[at].clone()) {
                Ok(cell) => {
                    body.push(cell);
                    at = at + 1;
                },
                Err(e) => {
                    if !is_comment_start(self.statement[at].as_str()) {
                        self.statement_index = at;
                        assert(self@ =~= colon_step(old(self)@).0);
                        return Err(e);
                    }
                    match find_comment_end(&self.statement, at + 1) {
                        Some(after) => {
                            proof {
                                lemma_comment_end(self@.statement, at + 1);
                            }
                            at = after;
                        },
                        None => {
                            self.statement_index = at;
                            assert(self@ =~= colon_step(old(self)@).0);
                            return Err(ForthError::UnterminatedComment);
                        },
                    }
                },
            }
        }
        self.statement_index = n - 1;
        assert(self@ =~= colon_step(old(self)@).0);
        Err(ForthError::UnterminatedWordDefinition)
    }
}

/// The entry of a native word.
pub open spec fn native_entry(name: Seq<char>, p: Primitive) -> EntryModel {
    EntryModel { name: name, code: WordModel::Native(p) }
}

/// The position of `*` among the builtin words.
pub const STAR: usize = 2;

/// The position of `dup` among the builtin words.
pub const DUP: usize = 31;

/// A dictionary with the builtin words added, in this order. The last one,
/// `square`, is compiled: `dup *`.
pub open spec fn with_builtins(d: Seq<EntryModel>) -> Seq<EntryModel> {
    d
        .push(native_entry("bye"@, Primitive::Bye))
        .push(native_entry("/"@, Primitive::Divide(DivOp::Div)))
        .push(native_entry("*"@, Primitive::Binary(BinaryOp::Mul)))
        .push(native_entry("+"@, Primitive::Binary(BinaryOp::Add)))
        .push(native_entry("-"@, Primitive::Binary(BinaryOp::Sub)))
        .push(native_entry("mod"@, Primitive::Divide(DivOp::Mod)))
        .push(native_entry("and"@, Primitive::Binary(BinaryOp::And)))
        .push(native_entry("or"@, Primitive::Binary(BinaryOp::Or)))
        .push(native_entry("xor"@, Primitive::Binary(BinaryOp::Xor)))
        .push(native_entry("rshift"@, Primitive::Binary(BinaryOp::Rshift)))
        .push(native_entry("lshift"@, Primitive::Binary(BinaryOp::Lshift)))
        .push(native_entry("max"@, Primitive::Binary(BinaryOp::Max)))
        .push(native_entry("min"@, Primitive::Binary(BinaryOp::Min)))
        .push(native_entry("negate"@, Primitive::Unary(UnaryOp::Negate)))
        .push(native_entry("not"@, Primitive::Unary(UnaryOp::Not)))
        .push(native_entry("abs"@, Primitive::Unary(UnaryOp::Abs)))
        .push(native_entry("<"@, Primitive::Binary(BinaryOp::Less)))
        .push(native_entry(">"@, Primitive::Binary(BinaryOp::Greater)))
        .push(native_entry("="@, Primitive::Binary(BinaryOp::Equal)))
        .push(native_entry("0<"@, Primitive::Unary(UnaryOp::ZeroLess)))
        .push(native_entry("0>"@, Primitive::Unary(UnaryOp::ZeroGreater)))
        .push(native_entry("0="@, Primitive::Unary(UnaryOp::ZeroEqual)))
        .push(native_entry("1+"@, Primitive::Unary(UnaryOp::OnePlus)))
        .push(native_entry("1-"@, Primitive::Unary(UnaryOp::OneMinus)))
        .push(native_entry("2+"@, Primitive::Unary(UnaryOp::TwoPlus)))
        .push(native_entry("2-"@, Primitive::Unary(UnaryOp::TwoMinus)))
        .push(native_entry("2/"@, Primitive::Unary(UnaryOp::TwoSlash)))
        .push(native_entry("2*"@, Primitive::Unary(UnaryOp::TwoStar)))
        .push(native_entry("*/"@, Primitive::Scale(ScaleOp::StarSlash)))
        .push(native_entry("*/mod"@, Primitive::Scale(ScaleOp::StarSlashMod)))
        .push(native_entry("drop"@, Primitive::Shuffle(StackOp::Drop)))
        .push(native_entry("dup"@, Primitive::Shuffle(StackOp::Dup)))
        .push(native_entry("?dup"@, Primitive::Shuffle(StackOp::QuestionDup)))
        .push(native_entry("over"@, Primitive::Shuffle(StackOp::Over)))
        .push(native_entry("swap"@, Primitive::Shuffle(StackOp::Swap)))
        .push(native_entry("rot"@, Primitive::Shuffle(StackOp::Rot)))
        .push(native_entry("branch"@, Primitive::Branch))
        .push(native_entry("?branch"@, Primitive::QuestionBranch))
        .push(native_entry("emit"@, Primitive::Output(OutputOp::Emit)))
        .push(native_entry("dump"@, Primitive::Output(OutputOp::Dump)))
        .push(native_entry("cr"@, Primitive::Output(OutputOp::Cr)))
        .push(native_entry("."@, Primitive::Output(OutputOp::Dot)))
        .push(native_entry(":"@, Primitive::Colon))
        .push(native_entry(";"@, Primitive::Semicolon))
        .push(native_entry("$"@, Primitive::Recall))
        .push(
        EntryModel {
            name: "square"@,
            code: WordModel::Forth(
                seq![
                    ForthCell::Word((d.len() + DUP) as usize),
                    ForthCell::Word((d.len() + STAR) as usize),
                ],
            ),
        },
    )
}

/// The state of a new engine: the builtin words, nothing on the stacks, no
/// statement, nothing written, and the largest step limit there is.
pub open spec fn initial_state() -> EngineState {
    EngineState {
        dictionary: with_builtins(Seq::empty()),
        parameter_stack: Seq::empty(),
        return_stack: Seq::empty(),
        statement: Seq::empty(),
        statement_index: 0,
        last_result: None,
        output: Seq::empty(),
        halted: false,
        step_limit: usize::MAX,
    }
}

/// Adds the builtin words to a dictionary.
pub fn insert_builtins(dict: &mut Dictionary)
    requires
        dictionary_wf(old(dict)@),
    ensures
        final(dict)@ == with_builtins(old(dict)@),
        dictionary_wf(final(dict)@),
{
    dict.insert_entry(Entry::new("bye", ForthWord::Native(Primitive::Bye)));
    dict.insert_entry(Entry::new("/", ForthWord::Native(Primitive::Divide(DivOp::Div))));
    let star: usize = dict.len();
    dict.insert_entry(Entry::new("*", ForthWord::Native(Primitive::Binary(BinaryOp::Mul))));
    dict.insert_entry(Entry::new("+", ForthWord::Native(Primitive::Binary(BinaryOp::Add))));
    dict.insert_entry(Entry::new("-", ForthWord::Native(Primitive::Binary(BinaryOp::Sub))));
    dict.insert_entry(Entry::new("mod", ForthWord::Native(Primitive::Divide(DivOp::Mod))));
    dict.insert_entry(Entry::new("and", ForthWord::Native(Primitive::Binary(BinaryOp::And))));
    dict.insert_entry(Entry::new("or", ForthWord::Native(Primitive::Binary(BinaryOp::Or))));
    dict.insert_entry(Entry::new("xor", ForthWord::Native(Primitive::Binary(BinaryOp::Xor))));
    dict.insert_entry(Entry::new("rshift", ForthWord::Native(Primitive::Binary(BinaryOp::Rshift))));
    dict.insert_entry(Entry::new("lshift", ForthWord::Native(Primitive::Binary(BinaryOp::Lshift))));
    dict.insert_entry(Entry::new("max", ForthWord::Native(Primitive::Binary(BinaryOp::Max))));
    dict.insert_entry(Entry::new("min", ForthWord::Native(Primitive::Binary(BinaryOp::Min))));
    dict.insert_entry(Entry::new("negate", ForthWord::Native(Primitive::Unary(UnaryOp::Negate))));
    dict.insert_entry(Entry::new("not", ForthWord::Native(Primitive::Unary(UnaryOp::Not))));
    dict.insert_entry(Entry::new("abs", ForthWord::Native(Primitive::Unary(UnaryOp::Abs))));
    dict.insert_entry(Entry::new("<", ForthWord::Native(Primitive::Binary(BinaryOp::Less))));
    dict.insert_entry(Entry::new(">", ForthWord::Native(Primitive::Binary(BinaryOp::Greater))));
    dict.insert_entry(Entry::new("=", ForthWord::Native(Primitive::Binary(BinaryOp::Equal))));
    dict.insert_entry(Entry::new("0<", ForthWord::Native(Primitive::Unary(UnaryOp::ZeroLess))));
    dict.insert_entry(Entry::new("0>", ForthWord::Native(Primitive::Unary(UnaryOp::ZeroGreater))));
    dict.insert_entry(Entry::new("0=", ForthWord::Native(Primitive::Unary(UnaryOp::ZeroEqual))));
    dict.insert_entry(Entry::new("1+", ForthWord::Native(Primitive::Unary(UnaryOp::OnePlus))));
    dict.insert_entry(Entry::new("1-", ForthWord::Native(Primitive::Unary(UnaryOp::OneMinus))));
    dict.insert_entry(Entry::new("2+", ForthWord::Native(Primitive::Unary(UnaryOp::TwoPlus))));
    dict.insert_entry(Entry::new("2-", ForthWord::Native(Primitive::Unary(UnaryOp::TwoMinus))));
    dict.insert_entry(Entry::new("2/", ForthWord::Native(Primitive::Unary(UnaryOp::TwoSlash))));
    dict.insert_entry(Entry::new("2*", ForthWord::Native(Primitive::Unary(UnaryOp::TwoStar))));
    dict.insert_entry(Entry::new("*/", ForthWord::Native(Primitive::Scale(ScaleOp::StarSlash))));
    dict.insert_entry(Entry::new("*/mod", ForthWord::Native(Primitive::Scale(ScaleOp::StarSlashMod))));
    dict.insert_entry(Entry::new("drop", ForthWord::Native(Primitive::Shuffle(StackOp::Drop))));
    let dup: usize = dict.len();
    dict.insert_entry(Entry::new("dup", ForthWord::Native(Primitive::Shuffle(StackOp::Dup))));
    dict.insert_entry(Entry::new("?dup", ForthWord::Native(Primitive::Shuffle(StackOp::QuestionDup))));
    dict.insert_entry(Entry::new("over", ForthWord::Native(Primitive::Shuffle(StackOp::Over))));
    dict.insert_entry(Entry::new("swap", ForthWord::Native(Primitive::Shuffle(StackOp::Swap))));
    dict.insert_entry(Entry::new("rot", ForthWord::Native(Primitive::Shuffle(StackOp::Rot))));
    dict.insert_entry(Entry::new("branch", ForthWord::Native(Primitive::Branch)));
    dict.insert_entry(Entry::new("?branch", ForthWord::Native(Primitive::QuestionBranch)));
    dict.insert_entry(Entry::new("emit", ForthWord::Native(Primitive::Output(OutputOp::Emit))));
    dict.insert_entry(Entry::new("dump", ForthWord::Native(Primitive::Output(OutputOp::Dump))));
    dict.insert_entry(Entry::new("cr", ForthWord::Native(Primitive::Output(OutputOp::Cr))));
    dict.insert_entry(Entry::new(".", ForthWord::Native(Primitive::Output(OutputOp::Dot))));
    dict.insert_entry(Entry::new(":", ForthWord::Native(Primitive::Colon)));
    dict.insert_entry(Entry::new(";", ForthWord::Native(Primitive::Semicolon)));
    dict.insert_entry(Entry::new("$", ForthWord::Native(Primitive::Recall)));
    let mut square: Vec<ForthCell> = Vec::new();
    square.push(ForthCell::Word(dup));
    square.push(ForthCell::Word(star));
    assert(square@ =~= seq![ForthCell::Word(dup), ForthCell::Word(star)]);
    dict.insert_entry(Entry::from_statement("square", square));
}

} // verus!
