//! The mathematical model of expression trees and what they mean.
//!
//! Numbers are exact 32-bit integers. An operation whose exact result is not
//! a 32-bit integer has no value: it fails with `Overflow`, and a division by
//! zero fails with `DivisionByZero`. Division rounds towards zero.

use vstd::prelude::*;
use crate::error::CalcError;

verus! {

/// One of the four binary operators.
#[derive(Clone, Copy, Debug, PartialEq, Eq, Structural)]
pub enum Operator {
    Add,
    Sub,
    Mul,
    Div,
}

/// An expression tree. A variable carries its name and the handle of its
/// cell; an operator or a block whose child is `None` is incomplete.
pub enum Expr {
    Num(i32),
    Op(Operator, Option<Box<Expr>>, Option<Box<Expr>>),
    Sym(Seq<char>),
    Var(Seq<char>, usize),
    Block(Option<Box<Expr>>),
}

/// The variable cells: the cell with handle `h` is `cells[h]`, and it is
/// empty while it holds `None`.
pub type CellSeq = Seq<Option<i32>>;

/// `v` is a 32-bit integer.
pub open spec fn in_range(v: int) -> bool {
    i32::MIN <= v <= i32::MAX
}

/// The absolute value of `v`.
pub open spec fn magnitude(v: int) -> int {
    if v < 0 {
        -v
    } else {
        v
    }
}

/// The quotient of `a` by `b`, rounded towards zero.
pub open spec fn truncated_quotient(a: int, b: int) -> int {
    if (a < 0) == (b < 0) {
        magnitude(a) / magnitude(b)
    } else {
        -(magnitude(a) / magnitude(b))
    }
}

/// The exact result of `l op r` over the integers.
pub open spec fn exact(op: Operator, l: int, r: int) -> int {
    match op {
        Operator::Add => l + r,
        Operator::Sub => l - r,
        Operator::Mul => l * r,
        Operator::Div => truncated_quotient(l, r),
    }
}

/// The result of `l op r` in 32 bits.
pub open spec fn apply(op: Operator, l: i32, r: i32) -> Result<i32, CalcError> {
    if op == Operator::Div && r == 0 {
        Err(CalcError::DivisionByZero)
    } else if !in_range(exact(op, l as int, r as int)) {
        Err(CalcError::Overflow)
    } else {
        Ok(exact(op, l as int, r as int) as i32)
    }
}

/// What the cell with handle `h` holds.
pub open spec fn fetch(cells: CellSeq, h: usize) -> Result<i32, CalcError> {
    if h < cells.len() && cells[h as int] is Some {
        Ok(cells[h as int]->0)
    } else {
        Err(CalcError::NotInitialized)
    }
}

/// The cells after `v` was written to the cell with handle `h`.
pub open spec fn store(cells: CellSeq, h: usize, v: i32) -> Result<CellSeq, CalcError> {
    if h < cells.len() {
        Ok(cells.update(h as int, Some(v)))
    } else {
        Err(CalcError::NotInitialized)
    }
}

/// The value of `e`. The left operand of an operator is evaluated first.
pub open spec fn eval(e: Expr, cells: CellSeq) -> Result<i32, CalcError>
    decreases e,
{
    match e {
        Expr::Num(v) => Ok(v),
        Expr::Op(op, Some(l), Some(r)) => match eval(*l, cells) {
            Err(err) => Err(err),
            Ok(a) => match eval(*r, cells) {
                Err(err) => Err(err),
                Ok(b) => apply(op, a, b),
            },
        },
        Expr::Op(_, _, _) => Err(CalcError::IncompleteExpression),
        Expr::Sym(_) => Err(CalcError::UndefinedValue),
        Expr::Var(_, h) => fetch(cells, h),
        Expr::Block(Some(body)) => eval(*body, cells),
        Expr::Block(None) => Err(CalcError::InvalidBracket),
    }
}

/// The cells after the value of `value` was assigned to `target`, or why the
/// assignment fails. A failed assignment leaves the cells as they were.
pub open spec fn assigned(target: Expr, value: Expr, cells: CellSeq) -> Result<CellSeq, CalcError> {
    match target {
        Expr::Num(_) => Err(CalcError::CannotAssignToLiteral),
        Expr::Op(_, _, _) => Err(CalcError::CannotAssignToOperator),
        Expr::Sym(_) => Err(CalcError::CannotAssignUninitialized),
        Expr::Block(_) => Err(CalcError::CannotAssignToBlock),
        Expr::Var(_, h) => match eval(value, cells) {
            Err(err) => Err(err),
            Ok(v) => store(cells, h, v),
        },
    }
}

/// The character of the decimal digit `d`.
pub open spec fn digit_char(d: int) -> char {
    if d == 0 {
        '0'
    } else if d == 1 {
        '1'
    } else if d == 2 {
        '2'
    } else if d == 3 {
        '3'
    } else if d == 4 {
        '4'
    } else if d == 5 {
        '5'
    } else if d == 6 {
        '6'
    } else if d == 7 {
        '7'
    } else if d == 8 {
        '8'
    } else {
        '9'
    }
}

/// The decimal digits of `n`, without leading zeros.
pub open spec fn digits(n: nat) -> Seq<char>
    decreases n,
{
    if n < 10 {
        seq![digit_char(n as int)]
    } else {
        digits(n / 10).push(digit_char((n % 10) as int))
    }
}

/// The decimal text of `v`, with a leading `-` when it is negative.
pub open spec fn decimal(v: int) -> Seq<char> {
    if v < 0 {
        seq!['-'] + digits((-v) as nat)
    } else {
        digits(v as nat)
    }
}

/// The character that stands for `op`.
pub open spec fn operator_char(op: Operator) -> char {
    match op {
        Operator::Add => '+',
        Operator::Sub => '-',
        Operator::Mul => '*',
        Operator::Div => '/',
    }
}

/// The text shown for an operator that lacks a child.
pub open spec fn invalid_text() -> Seq<char> {
    seq!['I', 'N', 'V', 'A', 'L', 'I', 'D', '_', 'E', 'X', 'P', 'R']
}

/// The canonical text of `e`.
pub open spec fn describe(e: Expr) -> Seq<char>
    decreases e,
{
    match e {
        Expr::Num(v) => decimal(v as int),
        Expr::Op(op, Some(l), Some(r)) => describe(*l) + seq![' ', operator_char(op), ' ']
            + describe(*r),
        Expr::Op(_, _, _) => invalid_text(),
        Expr::Sym(name) => name,
        Expr::Var(name, _) => name,
        Expr::Block(Some(body)) => seq!['['] + describe(*body) + seq![']'],
        Expr::Block(None) => seq!['[', ' ', ']'],
    }
}

/// Every variable in `e` names a cell among the first `n`.
pub open spec fn handles_below(e: Expr, n: nat) -> bool
    decreases e,
{
    match e {
        Expr::Num(_) => true,
        Expr::Op(_, l, r) => child_handles_below(l, n) && child_handles_below(r, n),
        Expr::Sym(_) => true,
        Expr::Var(_, h) => h < n,
        Expr::Block(body) => child_handles_below(body, n),
    }
}

/// Every variable in the child, if there is one, names a cell among the
/// first `n`.
pub open spec fn child_handles_below(child: Option<Box<Expr>>, n: nat) -> bool
    decreases child,
{
    match child {
        Some(e) => handles_below(*e, n),
        None => true,
    }
}

} // verus!
