//! Cells: the units of compiled code.

use vstd::prelude::*;

verus! {

/// The integers of the parameter stack.
pub type Int = i32;

/// The flag that comparisons leave for "true": all bits set.
pub const TRUE: i32 = -1;

/// The flag that comparisons leave for "false".
pub const FALSE: i32 = 0;

/// One cell of compiled code: a number to push, or a word to run.
///
/// A word is named by its handle, the position of its entry in the
/// dictionary. Entries are never changed or removed, so a handle always
/// names the entry it was compiled against, whatever is defined later under
/// the same name.
#[derive(Clone, Copy, Debug, PartialEq, Eq)]
pub enum ForthCell {
    Number(Int),
    Word(usize),
}

/// A flat, indexable sequence of cells.
pub type Statement = Vec<ForthCell>;

} // verus!
