//! Compiling a line into a statement ahead of running it.
//!
//! Token by token: an integer literal becomes a number cell; any other
//! token that names a word becomes a reference to that word; a `(` that
//! names no word opens a comment, which runs up to and including the next
//! token that ends in `)`; anything else is an error.

use vstd::prelude::*;
use vstd::string::*;
use crate::dictionary::EntryModel;
use crate::error::{ErrorKind, ForthError, ForthResult};
use crate::interpreter::Interpreter;
use crate::semantics::classify;
use crate::text::{
    comment_end,
    find_comment_end,
    is_comment_start,
    lemma_comment_end,
    opens_comment,
    split_tokens,
    texts,
    tokenize,
};
use crate::types::{ForthCell, Statement};
use crate::word::cells_below;

verus! {

/// The cells that the tokens from position `at` on add to `cells`.
pub open spec fn parse_from(
    d: Seq<EntryModel>,
    tokens: Seq<Seq<char>>,
    at: int,
    cells: Seq<ForthCell>,
) -> Result<Seq<ForthCell>, ErrorKind>
    decreases tokens.len() - at,
    via parse_from_decreases
{
    if 0 <= at < tokens.len() {
        match classify(d, tokens[at]) {
            Ok(cell) => parse_from(d, tokens, at + 1, cells.push(cell)),
            Err(_) => if opens_comment(tokens[at]) {
                match comment_end(tokens, at + 1) {
                    Some(after) => parse_from(d, tokens, after, cells),
                    None => Err(ErrorKind::UnterminatedComment),
                }
            } else {
                Err(ErrorKind::WordNotFound)
            },
        }
    } else {
        Ok(cells)
    }
}

/// A comment ends after the `(` that opens it.
#[via_fn]
proof fn parse_from_decreases(
    d: Seq<EntryModel>,
    tokens: Seq<Seq<char>>,
    at: int,
    cells: Seq<ForthCell>,
) {
    if 0 <= at {
        lemma_comment_end(tokens, at + 1);
    }
}

/// The statement that a sequence of tokens compiles to.
pub open spec fn parse_statement(d: Seq<EntryModel>, tokens: Seq<Seq<char>>) -> Result<
    Seq<ForthCell>,
    ErrorKind,
> {
    parse_from(d, tokens, 0, Seq::empty())
}

/// What a statement can be made from: a line of text.
pub trait StatementExt: Sized {
    /// The cells of the statement, in order.
    spec fn cells(&self) -> Seq<ForthCell>;

    /// Compiles a line against the dictionary of `interp`.
    fn parse(interp: &Interpreter, string: &str) -> (r: ForthResult<Self>)
        ensures
            match r {
                Ok(stmt) => parse_statement(interp.dictionary@, tokenize(string@)) == Ok::<
                    Seq<ForthCell>,
                    ErrorKind,
                >(stmt.cells()) && cells_below(stmt.cells(), interp.dictionary@.len() as int),
                Err(e) => parse_statement(interp.dictionary@, tokenize(string@)) == Err::<
                    Seq<ForthCell>,
                    ErrorKind,
                >(e@),
            },
    ;
}

impl StatementExt for Statement {
    open spec fn cells(&self) -> Seq<ForthCell> {
        self@
    }

    fn parse(interp: &Interpreter, string: &str) -> (r: ForthResult<Statement>) {
        let tokens: Vec<String> = split_tokens(string);
        let n: usize = tokens.len();
        let mut stmt: Vec<ForthCell> = Vec::new();
        let mut at: usize = 0;
        while at < n
            invariant
                n == tokens@.len(),
                at <= n,
                texts(tokens@) == tokenize(string@),
                cells_below(stmt@, interp.dictionary@.len() as int),
                parse_statement(interp.dictionary@, tokenize(string@)) == parse_from(
                    interp.dictionary@,
                    tokenize(string@),
                    at as int,
                    stmt@,
                ),
            decreases n - at,
        {
            match interp.parse_word(tokens[at].clone()) {
                Ok(cell) => {
                    stmt.push(cell);
                    at = at + 1;
                },
                Err(_) => {
                    if !is_comment_start(tokens[at].as_str()) {
                        return Err(ForthError::WordNotFound);
                    }
                    let after: usize = match find_comment_end(&tokens, at + 1) {
                        Some(after) => after,
                        None => {
                            return Err(ForthError::UnterminatedComment);
                        },
                    };
                    proof {
                        lemma_comment_end(tokenize(string@), at + 1);
                    }
                    at = after;
                },
            }
        }
        Ok(stmt)
    }
}

} // verus!
