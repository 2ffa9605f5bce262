//! The engine: a dictionary, two stacks, and an instruction pointer that
//! steps over the tokens of a line.

use vstd::prelude::*;
use vstd::string::*;
use crate::builtins::{initial_state, insert_builtins};
use crate::dictionary::{dictionary_wf, extends, Dictionary};
use crate::error::{outcome, ErrorKind, ForthError, ForthResult};
use crate::semantics::{
    advance_step,
    cells_step,
    classify,
    comment_step,
    current,
    current_step,
    entry_step,
    exec_step,
    fits,
    has_next,
    has_prev,
    jump_step,
    loaded,
    next_step,
    prev_step,
    rest_step,
    retreat_step,
    run_step,
    with_stack,
    EngineState,
};
use crate::text::{
    decimal,
    find_comment_end,
    is_comment_start,
    lemma_comment_end,
    parse_int,
    split_tokens,
    texts,
    tokenize,
};
use crate::types::{ForthCell, Int};
use crate::word::WordModel;

verus! {

/// A stack of cells, top last.
pub type Stack = Vec<Int>;

/// The engine. Its dictionary and its stacks live as long as it does; the
/// statement and the instruction pointer are replaced by every `exec`.
#[derive(Debug)]
pub struct Interpreter {
    pub dictionary: Dictionary,
    /// The operand stack.
    pub parameter_stack: Stack,
    /// Kept for control-flow words to come; no builtin word touches it.
    pub return_stack: Stack,
    /// The tokens of the line that is being run.
    pub statement: Vec<String>,
    /// The instruction pointer: the position in `statement` of the current token.
    pub statement_index: usize,
    /// The parameter stack as the last run left it, if that run succeeded.
    pub last_result: Option<Stack>,
    /// The text that the words `.`, `cr`, `emit` and `dump` have written.
    /// The engine only ever appends to it; whoever shows it may clear it.
    pub output: Vec<char>,
    /// Set by `bye`: nothing more is run, and the caller is expected to leave.
    pub halted: bool,
    /// How many tokens of the statement one run may run after its first. A
    /// line with a backward branch can loop for ever; this bound makes
    /// every run return.
    pub step_limit: usize,
}

impl View for Interpreter {
    type V = EngineState;

    open spec fn view(&self) -> EngineState {
        EngineState {
            dictionary: self.dictionary@,
            parameter_stack: self.parameter_stack@,
            return_stack: self.return_stack@,
            statement: texts(self.statement@),
            statement_index: self.statement_index,
            last_result: match self.last_result {
                Some(saved) => Some(saved@),
                None => None,
            },
            output: self.output@,
            halted: self.halted,
            step_limit: self.step_limit,
        }
    }
}

impl Interpreter {
    /// The dictionary is well formed: compiled entries refer to older entries only.
    pub open spec fn wf(&self) -> bool {
        dictionary_wf(self.dictionary@)
    }

    /// The state of an engine is one that an engine can be in.
    pub proof fn lemma_fits(&self)
        ensures
            fits(self@),
    {
        self.dictionary.lemma_fits();
        assert(self@.statement.len() == self.statement.len());
    }

    /// An engine with the builtin words in its dictionary and nothing else.
    pub fn new() -> (interp: Interpreter)
        ensures
            interp@ == initial_state(),
            interp.wf(),
    {
        let mut dict: Dictionary = Dictionary::new();
        insert_builtins(&mut dict);
        let interp = Interpreter {
            dictionary: dict,
            parameter_stack: Vec::new(),
            return_stack: Vec::new(),
            statement: Vec::new(),
            statement_index: 0,
            last_result: None,
            output: Vec::new(),
            halted: false,
            step_limit: usize::MAX,
        };
        assert(interp@ =~= initial_state());
        interp
    }

    /// Makes the tokens of `string` the statement, with the instruction
    /// pointer on the first of them.
    pub fn parse(&mut self, string: String)
        ensures
            final(self)@ == loaded(old(self)@, tokenize(string@)),
            final(self).dictionary == old(self).dictionary,
    {
        self.statement = split_tokens(string.as_str());
        self.statement_index = 0;
    }

    /// The cell that a token stands for: a number where it is an integer
    /// literal, else the newest word of that name.
    pub fn parse_word(&self, word: String) -> (r: ForthResult<ForthCell>)
        ensures
            match r {
                Ok(cell) => classify(self@.dictionary, word@) == Ok::<ForthCell, ErrorKind>(cell),
                Err(e) => classify(self@.dictionary, word@) == Err::<ForthCell, ErrorKind>(e@),
            },
            r matches Ok(ForthCell::Word(h)) ==> h < self.dictionary@.len(),
    {
        match parse_int(word.as_str()) {
            Some(n) => Ok(ForthCell::Number(n)),
            None => match self.dictionary.get(word.as_str()) {
                Some(h) => Ok(ForthCell::Word(h)),
                None => Err(ForthError::WordNotFound),
            },
        }
    }

    /// The token under the instruction pointer, if it points at one.
    pub fn get_current(&self) -> (r: Option<String>)
        ensures
            match r {
                Some(token) => current(self@) == Some(token@),
                None => current(self@) is None,
            },
    {
        if self.statement_index < self.statement.len() {
            Some(self.statement[self.statement_index].clone())
        } else {
            None
        }
    }

    /// Whether a token follows the current one.
    pub fn has_next(&self) -> (b: bool)
        ensures
            b == has_next(self@),
            b ==> self.statement_index < usize::MAX,
    {
        let n: usize = self.statement.len();
        self.statement_index < n && self.statement_index + 1 < n
    }

    /// Whether a token precedes the current one.
    pub fn has_prev(&self) -> (b: bool)
        ensures
            b == has_prev(self@),
    {
        self.statement_index > 0
    }

    /// Moves the instruction pointer on by one token.
    pub fn next(&mut self) -> (r: ForthResult<()>)
        ensures
            (final(self)@, outcome(r)) == next_step(old(self)@),
            final(self).dictionary == old(self).dictionary,
    {
        if self.has_next() {
            self.statement_index = self.statement_index + 1;
            Ok(())
        } else {
            Err(ForthError::InvalidJump("No next statement".to_owned()))
        }
    }

    /// Moves the instruction pointer back by one token.
    pub fn prev(&mut self) -> (r: ForthResult<()>)
        ensures
            (final(self)@, outcome(r)) == prev_step(old(self)@),
            final(self).dictionary == old(self).dictionary,
    {
        if self.has_prev() {
            self.statement_index = self.statement_index - 1;
            Ok(())
        } else {
            Err(ForthError::InvalidJump("No previous statement".to_owned()))
        }
    }

    /// Moves the instruction pointer by `offset` tokens. A target before the
    /// first token or after the last is refused, and the pointer stays.
    pub fn jump(&mut self, offset: i32) -> (r: ForthResult<()>)
        ensures
            (final(self)@, outcome(r)) == jump_step(old(self)@, offset),
            final(self).dictionary == old(self).dictionary,
            r is Ok <==> 0 <= old(self).statement_index + offset < old(self).statement@.len(),
            r matches Err(e) ==> e@ is InvalidJump,
    {
        let target: i128 = self.statement_index as i128 + offset as i128;
        if 0 <= target && target < self.statement.len() as i128 {
            self.statement_index = target as usize;
            Ok(())
        } else {
            let mut text: String = "Invalid jump offset ".to_owned();
            text.append(decimal(offset as i128).as_str());
            text.append(" to index ");
            text.append(decimal(target).as_str());
            Err(ForthError::InvalidJump(text))
        }
    }

    /// Runs the entry with handle `h`: a native word does its operation, a
    /// compiled word runs its cells from left to right, on the same stacks.
    pub fn run_entry(&mut self, h: usize) -> (r: ForthResult<()>)
        requires
            old(self).wf(),
            h < old(self).dictionary@.len(),
        ensures
            (final(self)@, outcome(r)) == entry_step(h as int, old(self)@),
            final(self).wf(),
            extends(old(self).dictionary@, final(self).dictionary@),
        decreases h,
    {
        if let Some(p) = self.dictionary.native(h) {
            return self.apply(p);
        }
        let ghost body: Seq<ForthCell> = old(self).dictionary@[h as int].code->Forth_0;
        let n: usize = self.dictionary.body(h).len();
        let mut i: usize = 0;
        proof {
            assert(body.subrange(0, n as int) =~= body);
        }
        while i < n && !self.halted
            invariant
                self.wf(),
                extends(old(self).dictionary@, self.dictionary@),
                h < old(self).dictionary@.len(),
                old(self).dictionary@[h as int].code == WordModel::Forth(body),
                n == body.len(),
                i <= n,
                entry_step(h as int, old(self)@) == cells_step(
                    body.subrange(i as int, n as int),
                    h as int,
                    self@,
                ),
            decreases n - i,
        {
            let cell: ForthCell = self.dictionary.body(h)[i];
            proof {
                let rest = body.subrange(i as int, n as int);
                assert(rest[0] == body[i as int]);
                assert(rest.subrange(1, rest.len() as int) =~= body.subrange(i + 1, n as int));
            }
            let ghost before = self@;
            let step: ForthResult<()> = match cell {
                ForthCell::Number(k) => {
                    self.parameter_stack.push(k);
                    assert(self@ =~= with_stack(
                        before,
                        before.parameter_stack.push(k),
                    ));
                    Ok(())
                },
                ForthCell::Word(k) => self.run_entry(k),
            };
            if let Err(e) = step {
                return Err(e);
            }
            i = i + 1;
        }
        Ok(())
    }

    /// Skips a comment: moves the instruction pointer from the `(` that it
    /// is on to the first token after it that ends in `)`.
    pub fn skip_comment(&mut self) -> (r: ForthResult<()>)
        ensures
            (final(self)@, outcome(r)) == comment_step(old(self)@),
            final(self).dictionary == old(self).dictionary,
    {
        if self.statement_index >= self.statement.len() {
            return Err(ForthError::UnterminatedComment);
        }
        match find_comment_end(&self.statement, self.statement_index + 1) {
            Some(after) => {
                proof {
                    lemma_comment_end(self@.statement, self.statement_index + 1);
                }
                self.statement_index = after - 1;
                Ok(())
            },
            None => Err(ForthError::UnterminatedComment),
        }
    }

    /// Runs the token under the instruction pointer: a number is pushed, a
    /// word is run, and a `(` that names no word opens a comment.
    pub fn exec_current(&mut self) -> (r: ForthResult<()>)
        requires
            old(self).wf(),
        ensures
            (final(self)@, outcome(r)) == current_step(old(self)@),
            final(self).wf(),
            extends(old(self).dictionary@, final(self).dictionary@),
    {
        match self.get_current() {
            Some(token) => {
                let opening: bool = is_comment_start(token.as_str());
                match self.parse_word(token) {
                    Ok(ForthCell::Number(n)) => {
                        self.parameter_stack.push(n);
                        assert(self@ =~= current_step(old(self)@).0);
                        Ok(())
                    },
                    Ok(ForthCell::Word(h)) => self.run_entry(h),
                    Err(e) => if opening {
                        self.skip_comment()
                    } else {
                        Err(e)
                    },
                }
            },
            None => Err(ForthError::InvalidJump("No current statement".to_owned())),
        }
    }

    /// Moves the instruction pointer on by one token and runs that token.
    pub fn advance(&mut self) -> (r: ForthResult<()>)
        requires
            old(self).wf(),
        ensures
            (final(self)@, outcome(r)) == advance_step(old(self)@),
            final(self).wf(),
            extends(old(self).dictionary@, final(self).dictionary@),
    {
        match self.next() {
            Ok(_) => self.exec_current(),
            Err(e) => Err(e),
        }
    }

    /// Moves the instruction pointer back by one token and runs that token.
    pub fn retreat(&mut self) -> (r: ForthResult<()>)
        requires
            old(self).wf(),
        ensures
            (final(self)@, outcome(r)) == retreat_step(old(self)@),
            final(self).wf(),
            extends(old(self).dictionary@, final(self).dictionary@),
    {
        match self.prev() {
            Ok(_) => self.exec_current(),
            Err(e) => Err(e),
        }
    }

    /// Runs the statement from the instruction pointer on: the current
    /// token, then one token after the other for as long as one follows.
    /// A word may move the instruction pointer in between. The run ends
    /// early at the first failure, once `bye` has been run, and with
    /// `StepLimitExceeded` when `step_limit` tokens have been run after
    /// the first and more are left.
    pub fn run(&mut self) -> (r: ForthResult<()>)
        requires
            old(self).wf(),
        ensures
            (final(self)@, outcome(r)) == run_step(old(self)@),
            final(self).wf(),
            extends(old(self).dictionary@, final(self).dictionary@),
    {
        if self.statement.len() == 0 || self.halted {
            return Ok(());
        }
        let mut fuel: usize = self.step_limit;
        if let Err(e) = self.exec_current() {
            return Err(e);
        }
        while self.has_next() && !self.halted
            invariant
                self.wf(),
                extends(old(self).dictionary@, self.dictionary@),
                run_step(old(self)@) == rest_step(self@, fuel as nat),
            decreases fuel,
        {
            if fuel == 0 {
                return Err(ForthError::StepLimitExceeded);
            }
            fuel = fuel - 1;
            if let Err(e) = self.advance() {
                return Err(e);
            }
        }
        Ok(())
    }

    /// Runs one line: splits it into tokens and runs them from the first.
    /// After a run that succeeded the parameter stack is saved as the last
    /// result; after one that failed there is no last result. Nothing that
    /// the line did before it failed is undone.
    pub fn exec(&mut self, string: String) -> (r: ForthResult<()>)
        requires
            old(self).wf(),
        ensures
            (final(self)@, outcome(r)) == exec_step(old(self)@, tokenize(string@)),
            final(self).wf(),
            extends(old(self).dictionary@, final(self).dictionary@),
    {
        self.parse(string);
        match self.run() {
            Ok(_) => {
                self.last_result = Some(self.parameter_stack.clone());
                Ok(())
            },
            Err(e) => {
                self.last_result = None;
                Err(e)
            },
        }
    }
}

} // verus!
