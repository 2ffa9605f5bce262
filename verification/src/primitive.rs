//! The native words, and what the arithmetic ones compute.
//!
//! Cells are 32-bit two's complement integers. Sums, differences and
//! products wrap; quotients truncate toward zero.

use vstd::prelude::*;
use crate::types::{FALSE, TRUE};

verus! {

/// Words that replace the top of the stack by a function of it.
#[derive(Clone, Copy, Debug, PartialEq, Eq)]
pub enum UnaryOp {
    /// `negate`
    Negate,
    /// `not`
    Not,
    /// `abs`
    Abs,
    /// `0<`
    ZeroLess,
    /// `0>`
    ZeroGreater,
    /// `0=`
    ZeroEqual,
    /// `1+`
    OnePlus,
    /// `1-`
    OneMinus,
    /// `2+`
    TwoPlus,
    /// `2-`
    TwoMinus,
    /// `2/`
    TwoSlash,
    /// `2*`
    TwoStar,
}

/// Words that replace the two topmost items by a function of them.
#[derive(Clone, Copy, Debug, PartialEq, Eq)]
pub enum BinaryOp {
    /// `+`
    Add,
    /// `-`
    Sub,
    /// `*`
    Mul,
    /// `and`
    And,
    /// `or`
    Or,
    /// `xor`
    Xor,
    /// `rshift`
    Rshift,
    /// `lshift`
    Lshift,
    /// `max`
    Max,
    /// `min`
    Min,
    /// `<`
    Less,
    /// `>`
    Greater,
    /// `=`
    Equal,
}

/// The two words that divide the second item by the top one.
#[derive(Clone, Copy, Debug, PartialEq, Eq)]
pub enum DivOp {
    /// `/`
    Div,
    /// `mod`
    Mod,
}

/// The two words that multiply and then divide, with a 64-bit product in between.
#[derive(Clone, Copy, Debug, PartialEq, Eq)]
pub enum ScaleOp {
    /// `*/`
    StarSlash,
    /// `*/mod`
    StarSlashMod,
}

/// Words that only move items of the stack.
#[derive(Clone, Copy, Debug, PartialEq, Eq)]
pub enum StackOp {
    /// `drop`
    Drop,
    /// `dup`
    Dup,
    /// `?dup`
    QuestionDup,
    /// `over`
    Over,
    /// `swap`
    Swap,
    /// `rot`
    Rot,
}

/// Words that write to the output.
#[derive(Clone, Copy, Debug, PartialEq, Eq)]
pub enum OutputOp {
    /// `.`
    Dot,
    /// `cr`
    Cr,
    /// `emit`
    Emit,
    /// `dump`
    Dump,
}

/// A native word: an operation that the engine itself carries out.
#[derive(Clone, Copy, Debug, PartialEq, Eq)]
pub enum Primitive {
    Unary(UnaryOp),
    Binary(BinaryOp),
    Divide(DivOp),
    Scale(ScaleOp),
    Shuffle(StackOp),
    Output(OutputOp),
    /// `branch`
    Branch,
    /// `?branch`
    QuestionBranch,
    /// `:`
    Colon,
    /// `;`
    Semicolon,
    /// `bye`
    Bye,
    /// `$`
    Recall,
}

/// The flag for a truth value.
pub open spec fn flag(b: bool) -> i32 {
    if b {
        TRUE
    } else {
        FALSE
    }
}

/// The quotient of `a` by `b`, rounded toward zero.
pub open spec fn trunc_div(a: int, b: int) -> int {
    if a >= 0 && b > 0 {
        a / b
    } else if a < 0 && b < 0 {
        (-a) / (-b)
    } else if a < 0 {
        -((-a) / b)
    } else {
        -(a / (-b))
    }
}

/// The remainder that goes with `trunc_div`: it has the sign of `a`.
pub open spec fn trunc_rem(a: int, b: int) -> int {
    if a >= 0 && b > 0 {
        a % b
    } else if a < 0 && b < 0 {
        -((-a) % (-b))
    } else if a < 0 {
        -((-a) % b)
    } else {
        a % (-b)
    }
}

/// What a unary word leaves for `a`.
pub open spec fn unary_value(op: UnaryOp, a: i32) -> i32 {
    match op {
        UnaryOp::Negate => 0i32.wrapping_sub(a),
        UnaryOp::Not => !a,
        UnaryOp::Abs => if a < 0 {
            0i32.wrapping_sub(a)
        } else {
            a
        },
        UnaryOp::ZeroLess => flag(a < 0),
        UnaryOp::ZeroGreater => flag(a > 0),
        UnaryOp::ZeroEqual => flag(a == 0),
        UnaryOp::OnePlus => a.wrapping_add(1),
        UnaryOp::OneMinus => a.wrapping_sub(1),
        UnaryOp::TwoPlus => a.wrapping_add(2),
        UnaryOp::TwoMinus => a.wrapping_sub(2),
        UnaryOp::TwoSlash => a >> 1u32,
        UnaryOp::TwoStar => a.wrapping_shl(1),
    }
}

/// What a binary word leaves for `a` below `b`. A shift count is taken
/// modulo 32; a right shift keeps the sign.
pub open spec fn binary_value(op: BinaryOp, a: i32, b: i32) -> i32 {
    match op {
        BinaryOp::Add => a.wrapping_add(b),
        BinaryOp::Sub => a.wrapping_sub(b),
        BinaryOp::Mul => a.wrapping_mul(b),
        BinaryOp::And => a & b,
        BinaryOp::Or => a | b,
        BinaryOp::Xor => a ^ b,
        BinaryOp::Rshift => a.wrapping_shr(b as u32),
        BinaryOp::Lshift => a.wrapping_shl(b as u32),
        BinaryOp::Max => if a < b {
            b
        } else {
            a
        },
        BinaryOp::Min => if b < a {
            b
        } else {
            a
        },
        BinaryOp::Less => flag(a < b),
        BinaryOp::Greater => flag(a > b),
        BinaryOp::Equal => flag(a == b),
    }
}

/// What `/` and `mod` leave for `a` below a divisor `b` other than zero.
/// The one quotient that no cell holds, that of the least integer by -1,
/// wraps to the least integer.
pub open spec fn divide_value(op: DivOp, a: i32, b: i32) -> i32 {
    match op {
        DivOp::Div => if a == i32::MIN && b == -1 {
            i32::MIN
        } else {
            trunc_div(a as int, b as int) as i32
        },
        DivOp::Mod => trunc_rem(a as int, b as int) as i32,
    }
}

/// The quotient that `*/` and `*/mod` leave: that of the exact product
/// `x * y` by `z`, cut to the low 32 bits.
pub open spec fn scale_quotient(x: i32, y: i32, z: i32) -> i32 {
    (trunc_div(x * y, z as int) as i64) as i32
}

/// The remainder that `*/mod` leaves below the quotient.
pub open spec fn scale_remainder(x: i32, y: i32, z: i32) -> i32 {
    (trunc_rem(x * y, z as int) as i64) as i32
}

/// Computes what a unary word leaves for `a`.
pub fn unary(op: UnaryOp, a: i32) -> (r: i32)
    ensures
        r == unary_value(op, a),
{
    match op {
        UnaryOp::Negate => 0i32.wrapping_sub(a),
        UnaryOp::Not => !a,
        UnaryOp::Abs => if a < 0 {
            0i32.wrapping_sub(a)
        } else {
            a
        },
        UnaryOp::ZeroLess => truth(a < 0),
        UnaryOp::ZeroGreater => truth(a > 0),
        UnaryOp::ZeroEqual => truth(a == 0),
        UnaryOp::OnePlus => a.wrapping_add(1),
        UnaryOp::OneMinus => a.wrapping_sub(1),
        UnaryOp::TwoPlus => a.wrapping_add(2),
        UnaryOp::TwoMinus => a.wrapping_sub(2),
        UnaryOp::TwoSlash => a >> 1u32,
        UnaryOp::TwoStar => a.wrapping_shl(1),
    }
}

/// Computes what a binary word leaves for `a` below `b`.
pub fn binary(op: BinaryOp, a: i32, b: i32) -> (r: i32)
    ensures
        r == binary_value(op, a, b),
{
    match op {
        BinaryOp::Add => a.wrapping_add(b),
        BinaryOp::Sub => a.wrapping_sub(b),
        BinaryOp::Mul => a.wrapping_mul(b),
        BinaryOp::And => a & b,
        BinaryOp::Or => a | b,
        BinaryOp::Xor => a ^ b,
        BinaryOp::Rshift => a.wrapping_shr(#[verifier::truncate] (b as u32)),
        BinaryOp::Lshift => a.wrapping_shl(#[verifier::truncate] (b as u32)),
        BinaryOp::Max => if a < b {
            b
        } else {
            a
        },
        BinaryOp::Min => if b < a {
            b
        } else {
            a
        },
        BinaryOp::Less => truth(a < b),
        BinaryOp::Greater => truth(a > b),
        BinaryOp::Equal => truth(a == b),
    }
}

/// The flag for a truth value.
pub fn truth(b: bool) -> (r: i32)
    ensures
        r == flag(b),
{
    if b {
        TRUE
    } else {
        FALSE
    }
}

/// A quotient of natural numbers is no larger than the dividend, and the
/// remainder is smaller than the divisor.
pub proof fn lemma_div_bounds(x: int, d: int)
    by (nonlinear_arith)
    requires
        x >= 0,
        d > 0,
    ensures
        0 <= x / d <= x,
        0 <= x % d < d,
        x % d <= x,
        d == 1 ==> x / d == x,
        d >= 2 && x > 0 ==> x / d < x,
{
}

/// `/` and `mod` on a divisor other than zero.
pub fn divide(op: DivOp, a: i32, b: i32) -> (r: i32)
    requires
        b != 0,
    ensures
        r == divide_value(op, a, b),
{
    proof {
        let x: int = if a < 0 {
            -a
        } else {
            a as int
        };
        let d: int = if b < 0 {
            -b
        } else {
            b as int
        };
        lemma_div_bounds(x, d);
    }
    match op {
        DivOp::Div => {
            let c = a.checked_div(b);
            match c {
                Some(q) => {
                    assert(q == trunc_div(a as int, b as int));
                    q
                },
                None => {
                    assert(a == i32::MIN && b == -1);
                    i32::MIN
                },
            }
        },
        DivOp::Mod => {
            let c = a.checked_rem(b);
            match c {
                Some(m) => {
                    assert(m == trunc_rem(a as int, b as int));
                    m
                },
                None => {
                    assert(a == i32::MIN && b == -1);
                    assert(trunc_rem(a as int, b as int) == 0);
                    0
                },
            }
        },
    }
}

/// The quotient and the remainder of the 64-bit product `x * y` by a divisor
/// `z` other than zero.
pub fn scale(x: i32, y: i32, z: i32) -> (r: (i32, i32))
    requires
        z != 0,
    ensures
        r.0 == scale_quotient(x, y, z),
        r.1 == scale_remainder(x, y, z),
{
    assert(-0x4000_0000_0000_0000 <= x * y <= 0x4000_0000_0000_0000) by (nonlinear_arith)
        requires
            -0x8000_0000 <= x <= 0x7fff_ffff,
            -0x8000_0000 <= y <= 0x7fff_ffff,
    ;
    let product: i64 = (x as i64) * (y as i64);
    let q: i64 = match product.checked_div(z as i64) {
        Some(q) => q,
        None => 0,
    };
    let m: i64 = match product.checked_rem(z as i64) {
        Some(m) => m,
        None => 0,
    };
    (#[verifier::truncate] (q as i32), #[verifier::truncate] (m as i32))
}

} // verus!
