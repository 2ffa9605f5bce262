//! The code of a dictionary entry.

use vstd::prelude::*;
use crate::dictionary::extends;
use crate::error::{outcome, ErrorKind, ForthResult};
use crate::interpreter::Interpreter;
use crate::primitive::Primitive;
use crate::semantics::{cells_step, native_step, with_stack, EngineState, Step};
use crate::statement::{parse_statement, StatementExt};
use crate::text::tokenize;
use crate::types::{ForthCell, Statement};

verus! {

/// What a word does when it is run: a native operation of the engine, or
/// a compiled sequence of cells.
#[derive(Clone, Debug, PartialEq, Eq)]
pub enum ForthWord {
    Native(Primitive),
    Forth(Statement),
}

/// A `ForthWord` as contracts see it.
pub enum WordModel {
    Native(Primitive),
    Forth(Seq<ForthCell>),
}

impl View for ForthWord {
    type V = WordModel;

    open spec fn view(&self) -> WordModel {
        match self {
            ForthWord::Native(p) => WordModel::Native(*p),
            ForthWord::Forth(body) => WordModel::Forth(body@),
        }
    }
}

/// Every word that `cells` refer to has a handle below `bound`.
pub open spec fn cells_below(cells: Seq<ForthCell>, bound: int) -> bool {
    forall|i: int|
        0 <= i < cells.len() ==> (#[trigger] cells[i] matches ForthCell::Word(h) ==> h < bound)
}

/// Every word that `code` refers to has a handle below `bound`.
pub open spec fn code_below(code: WordModel, bound: int) -> bool {
    code matches WordModel::Forth(body) ==> cells_below(body, bound)
}

/// Running a word that need not be in the dictionary: a native word does
/// its operation, a compiled one runs its cells.
pub open spec fn word_step(code: WordModel, s: EngineState) -> Step {
    match code {
        WordModel::Native(p) => native_step(p, s),
        WordModel::Forth(body) => cells_step(body, s.dictionary.len() as int, s),
    }
}

impl ForthWord {
    /// Compiles a line against the dictionary of `interp`.
    pub fn parse(interp: &Interpreter, string: String) -> (r: ForthResult<Statement>)
        ensures
            match r {
                Ok(stmt) => parse_statement(interp.dictionary@, tokenize(string@)) == Ok::<
                    Seq<ForthCell>,
                    ErrorKind,
                >(stmt@) && cells_below(stmt@, interp.dictionary@.len() as int),
                Err(e) => parse_statement(interp.dictionary@, tokenize(string@)) == Err::<
                    Seq<ForthCell>,
                    ErrorKind,
                >(e@),
            },
    {
        <Statement as StatementExt>::parse(interp, string.as_str())
    }

    /// Runs the word on the engine `interp`.
    pub fn run(&self, interp: &mut Interpreter) -> (r: ForthResult<()>)
        requires
            old(interp).wf(),
            code_below(self@, old(interp).dictionary@.len() as int),
        ensures
            (final(interp)@, outcome(r)) == word_step(self@, old(interp)@),
            final(interp).wf(),
            extends(old(interp).dictionary@, final(interp).dictionary@),
    {
        match self {
            ForthWord::Native(p) => interp.apply(*p),
            ForthWord::Forth(body) => {
                let n: usize = body.len();
                let ghost bound: int = interp.dictionary@.len() as int;
                let mut i: usize = 0;
                proof {
                    assert(body@.subrange(0, n as int) =~= body@);
                }
                while i < n && !interp.halted
                    invariant
                        interp.wf(),
                        extends(old(interp).dictionary@, interp.dictionary@),
                        bound == old(interp).dictionary@.len(),
                        cells_below(body@, bound),
                        n == body@.len(),
                        i <= n,
                        word_step(self@, old(interp)@) == cells_step(
                            body@.subrange(i as int, n as int),
                            bound,
                            interp@,
                        ),
                    decreases n - i,
                {
                    let cell: ForthCell = body[i];
                    proof {
                        let rest = body@.subrange(i as int, n as int);
                        assert(rest[0] == body@[i as int]);
                        assert(rest.subrange(1, rest.len() as int) =~= body@.subrange(
                            i + 1,
                            n as int,
                        ));
                    }
                    let ghost before = interp@;
                    let step: ForthResult<()> = match cell {
                        ForthCell::Number(k) => {
                            interp.parameter_stack.push(k);
                            assert(interp@ =~= with_stack(
                                before,
                                before.parameter_stack.push(k),
                            ));
                            Ok(())
                        },
                        ForthCell::Word(k) => interp.run_entry(k),
                    };
                    if let Err(e) = step {
                        return Err(e);
                    }
                    i = i + 1;
                }
                Ok(())
            },
        }
    }
}

} // verus!
