//! The nodes of an expression tree.
//!
//! There are five kinds of node. Each offers the same four operations,
//! declared by [`Node`]: its value, its kind, its text, and assignment to it.
//! [`AnyNode`] is a node of any kind; it is what a parent holds as a child.
//!
//! A variable does not hold its value: it holds the handle of a cell, and
//! the cells are handed to the operations that read or write them.
//!
//! The value and the text of a tree are computed by calls that go as deep as
//! the tree is high. A tree that the parser built is no higher than
//! `MAX_TOKENS`, the largest number of tokens of a statement; a tree built by
//! hand is as high as its builder made it.

use vstd::prelude::*;
use vstd::string::*;
use crate::error::CalcError;
use crate::interpreter::cells::Cells;
use crate::interpreter::expr::{
    apply, assigned, decimal, describe, digit_char, digits, eval, invalid_text, operator_char,
    Expr, Operator,
};

verus! {

/// The kind of a node.
#[derive(Clone, Copy, Debug, PartialEq, Eq, Structural)]
pub enum NodeType {
    Num,
    Op,
    Sym,
    Var,
    Block,
}

/// A literal number.
#[derive(Debug, PartialEq, Eq)]
pub struct NumNode {
    pub val: i32,
}

/// A binary operator with its two operands. A node without both operands is
/// incomplete and has no value.
#[derive(Debug, PartialEq, Eq)]
pub struct OperatorNode {
    pub operator: Operator,
    pub left: Option<Box<AnyNode>>,
    pub right: Option<Box<AnyNode>>,
}

/// A name that no declaration has bound.
#[derive(Debug, PartialEq, Eq)]
pub struct SymNode {
    pub sym: String,
}

/// A declared variable: its name and the handle of its cell.
#[derive(Debug, PartialEq, Eq)]
pub struct VarNode {
    pub name: String,
    pub cell: usize,
}

/// A bracketed group. A block without a body has no value.
#[derive(Debug, PartialEq, Eq)]
pub struct Block {
    pub body: Option<Box<AnyNode>>,
}

/// A node of any kind.
#[derive(Debug, PartialEq, Eq)]
pub enum AnyNode {
    Num(NumNode),
    Op(OperatorNode),
    Sym(SymNode),
    Var(VarNode),
    Block(Block),
}

/// The expression that a node stands for.
pub open spec fn expr_of(node: AnyNode) -> Expr
    decreases node,
{
    match node {
        AnyNode::Num(n) => Expr::Num(n.val),
        AnyNode::Op(n) => Expr::Op(n.operator, child_of(n.left), child_of(n.right)),
        AnyNode::Sym(n) => Expr::Sym(n.sym@),
        AnyNode::Var(n) => Expr::Var(n.name@, n.cell),
        AnyNode::Block(n) => Expr::Block(child_of(n.body)),
    }
}

/// The expression that a child stands for, if there is a child.
pub open spec fn child_of(child: Option<Box<AnyNode>>) -> Option<Box<Expr>>
    decreases child,
{
    match child {
        Some(node) => Some(Box::new(expr_of(*node))),
        None => None,
    }
}

/// The expressions that a sequence of nodes stands for.
pub open spec fn exprs_of(nodes: Seq<AnyNode>) -> Seq<Expr> {
    Seq::new(nodes.len(), |i: int| nodes[i]@)
}

/// The kind of the node that stands for `e`.
pub open spec fn node_type_of(e: Expr) -> NodeType {
    match e {
        Expr::Num(_) => NodeType::Num,
        Expr::Op(_, _, _) => NodeType::Op,
        Expr::Sym(_) => NodeType::Sym,
        Expr::Var(_, _) => NodeType::Var,
        Expr::Block(_) => NodeType::Block,
    }
}

impl View for NumNode {
    type V = Expr;

    open spec fn view(&self) -> Expr {
        Expr::Num(self.val)
    }
}

impl View for OperatorNode {
    type V = Expr;

    open spec fn view(&self) -> Expr {
        Expr::Op(self.operator, child_of(self.left), child_of(self.right))
    }
}

impl View for SymNode {
    type V = Expr;

    open spec fn view(&self) -> Expr {
        Expr::Sym(self.sym@)
    }
}

impl View for VarNode {
    type V = Expr;

    open spec fn view(&self) -> Expr {
        Expr::Var(self.name@, self.cell)
    }
}

impl View for Block {
    type V = Expr;

    open spec fn view(&self) -> Expr {
        Expr::Block(child_of(self.body))
    }
}

impl View for AnyNode {
    type V = Expr;

    open spec fn view(&self) -> Expr {
        expr_of(*self)
    }
}

/// What every kind of node offers. The model of a node is the expression it
/// stands for.
pub trait Node: View<V = Expr> {
    /// The value of the node, read from `cells`.
    fn evaluate(&self, cells: &Cells) -> (r: Result<i32, CalcError>)
        ensures
            r == eval(self@, cells@),
    ;

    /// The kind of the node.
    fn node_type(&self) -> (t: NodeType)
        ensures
            t == node_type_of(self@),
    ;

    /// The canonical text of the node.
    fn text(&self) -> (s: String)
        ensures
            s@ == describe(self@),
    ;

    /// Assigns the value of `val` to the node. Only a variable can be
    /// assigned to; a failed assignment leaves `cells` as they were.
    fn assign(&self, val: AnyNode, cells: &mut Cells) -> (r: Result<(), CalcError>)
        ensures
            match assigned(self@, val@, old(cells)@) {
                Ok(after) => r is Ok && final(cells)@ == after,
                Err(err) => r == Err::<(), CalcError>(err) && final(cells)@ == old(cells)@,
            },
    ;
}

/// Computes `l op r`. Fails with `DivisionByZero` if `op` is the division
/// and `r` is zero, and with `Overflow` if the exact result is not a 32-bit
/// integer.
pub fn apply_operator(op: Operator, l: i32, r: i32) -> (res: Result<i32, CalcError>)
    ensures
        res == apply(op, l, r),
{
    let a = l as i64;
    let b = r as i64;
    let wide: i64 = match op {
        Operator::Add => a + b,
        Operator::Sub => a - b,
        Operator::Mul => {
            assert(-0x4000_0000_0000_0000 <= a * b <= 0x4000_0000_0000_0000) by (nonlinear_arith)
                requires
                    -0x8000_0000 <= a <= 0x7fff_ffff,
                    -0x8000_0000 <= b <= 0x7fff_ffff,
            ;
            a * b
        },
        Operator::Div => {
            if r == 0 {
                return Err(CalcError::DivisionByZero);
            }
            let ma: i64 = if a < 0 {
                -a
            } else {
                a
            };
            let mb: i64 = if b < 0 {
                -b
            } else {
                b
            };
            let q: i64 = ma / mb;
            assert(0 <= q <= ma) by (nonlinear_arith)
                requires
                    q == ma / mb,
                    0 <= ma,
                    0 < mb,
            ;
            if (a < 0) == (b < 0) {
                q
            } else {
                -q
            }
        },
    };
    if wide < -2147483648 || wide > 2147483647 {
        Err(CalcError::Overflow)
    } else {
        Ok(wide as i32)
    }
}

/// The text of one decimal digit.
fn digit_text(d: u32) -> (s: &'static str)
    requires
        d < 10,
    ensures
        s@ == seq![digit_char(d as int)],
{
    proof {
        reveal_strlit("0");
        reveal_strlit("1");
        reveal_strlit("2");
        reveal_strlit("3");
        reveal_strlit("4");
        reveal_strlit("5");
        reveal_strlit("6");
        reveal_strlit("7");
        reveal_strlit("8");
        reveal_strlit("9");
    }
    let s = if d == 0 {
        "0"
    } else if d == 1 {
        "1"
    } else if d == 2 {
        "2"
    } else if d == 3 {
        "3"
    } else if d == 4 {
        "4"
    } else if d == 5 {
        "5"
    } else if d == 6 {
        "6"
    } else if d == 7 {
        "7"
    } else if d == 8 {
        "8"
    } else {
        "9"
    };
    assert(s@ =~= seq![digit_char(d as int)]);
    s
}

/// Appends the decimal digits of `n` to `s`.
fn append_digits(s: &mut String, n: u32)
    ensures
        final(s)@ == old(s)@ + digits(n as nat),
    decreases n,
{
    if n >= 10 {
        append_digits(s, n / 10);
    }
    s.append(digit_text(n % 10));
    assert(s@ =~= old(s)@ + digits(n as nat));
}

/// The decimal text of `v`.
pub fn decimal_text(v: i32) -> (s: String)
    ensures
        s@ == decimal(v as int),
{
    let mut s = String::new();
    let size: u32 = if v < 0 {
        proof {
            reveal_strlit("-");
        }
        s.append("-");
        (-(v as i64)) as u32
    } else {
        v as u32
    };
    append_digits(&mut s, size);
    assert(s@ =~= decimal(v as int));
    s
}

/// The text of an operator between its operands: the operator's character
/// with a space on either side.
fn operator_text(op: Operator) -> (s: &'static str)
    ensures
        s@ == seq![' ', operator_char(op), ' '],
{
    proof {
        reveal_strlit(" + ");
        reveal_strlit(" - ");
        reveal_strlit(" * ");
        reveal_strlit(" / ");
    }
    let s = match op {
        Operator::Add => " + ",
        Operator::Sub => " - ",
        Operator::Mul => " * ",
        Operator::Div => " / ",
    };
    assert(s@ =~= seq![' ', operator_char(op), ' ']);
    s
}

impl NumNode {
    /// The literal `val`.
    pub fn new(val: i32) -> (node: NumNode)
        ensures
            node@ == Expr::Num(val),
    {
        NumNode { val }
    }
}

impl Node for NumNode {
    /// A literal evaluates to itself.
    fn evaluate(&self, cells: &Cells) -> (r: Result<i32, CalcError>) {
        Ok(self.val)
    }

    fn node_type(&self) -> (t: NodeType) {
        NodeType::Num
    }

    fn text(&self) -> (s: String) {
        decimal_text(self.val)
    }

    /// Always fails with `CannotAssignToLiteral`.
    fn assign(&self, val: AnyNode, cells: &mut Cells) -> (r: Result<(), CalcError>) {
        Err(CalcError::CannotAssignToLiteral)
    }
}

impl OperatorNode {
    /// The operator `operator`, still without operands.
    pub fn new(operator: Operator) -> (node: OperatorNode)
        ensures
            node@ == Expr::Op(operator, None, None),
    {
        OperatorNode { operator, left: None, right: None }
    }
}

impl Node for OperatorNode {
    /// Fails with `IncompleteExpression` if an operand is missing; else
    /// evaluates the left operand, then the right one, and applies the
    /// operator.
    fn evaluate(&self, cells: &Cells) -> (r: Result<i32, CalcError>)
        decreases self,
    {
        match (&self.left, &self.right) {
            (Some(left), Some(right)) => {
                let a = match left.evaluate(cells) {
                    Ok(a) => a,
                    Err(err) => {
                        return Err(err);
                    },
                };
                let b = match right.evaluate(cells) {
                    Ok(b) => b,
                    Err(err) => {
                        return Err(err);
                    },
                };
                apply_operator(self.operator, a, b)
            },
            _ => Err(CalcError::IncompleteExpression),
        }
    }

    fn node_type(&self) -> (t: NodeType) {
        NodeType::Op
    }

    fn text(&self) -> (s: String)
        decreases self,
    {
        match (&self.left, &self.right) {
            (Some(left), Some(right)) => {
                let mut s = left.text();
                s.append(operator_text(self.operator));
                let r = right.text();
                s.append(r.as_str());
                s
            },
            _ => {
                proof {
                    reveal_strlit("INVALID_EXPR");
                }
                let s = String::from_str("INVALID_EXPR");
                assert(s@ =~= invalid_text());
                s
            },
        }
    }

    /// Always fails with `CannotAssignToOperator`.
    fn assign(&self, val: AnyNode, cells: &mut Cells) -> (r: Result<(), CalcError>) {
        Err(CalcError::CannotAssignToOperator)
    }
}

impl SymNode {
    /// The unresolved name `sym`.
    pub fn new(sym: String) -> (node: SymNode)
        ensures
            node@ == Expr::Sym(sym@),
    {
        SymNode { sym }
    }
}

impl Node for SymNode {
    /// Always fails with `UndefinedValue`.
    fn evaluate(&self, cells: &Cells) -> (r: Result<i32, CalcError>) {
        Err(CalcError::UndefinedValue)
    }

    fn node_type(&self) -> (t: NodeType) {
        NodeType::Sym
    }

    fn text(&self) -> (s: String) {
        self.sym.clone()
    }

    /// Always fails with `CannotAssignUninitialized`.
    fn assign(&self, val: AnyNode, cells: &mut Cells) -> (r: Result<(), CalcError>) {
        Err(CalcError::CannotAssignUninitialized)
    }
}

impl VarNode {
    /// The variable `name`, bound to the cell `cell`.
    pub fn new(name: String, cell: usize) -> (node: VarNode)
        ensures
            node@ == Expr::Var(name@, cell),
    {
        VarNode { name, cell }
    }

    /// Binds the variable to the cell `cell`.
    pub fn intialize(&mut self, cell: usize)
        ensures
            final(self)@ == Expr::Var(old(self).name@, cell),
    {
        self.cell = cell;
    }

    /// Writes `new_val` into the variable's cell. Fails with
    /// `NotInitialized`, and changes nothing, if the variable names no cell
    /// of `cells`.
    pub fn set_val(&self, new_val: i32, cells: &mut Cells) -> (r: Result<(), CalcError>)
        ensures
            self.cell < old(cells)@.len() ==> r is Ok && final(cells)@ == old(cells)@.update(
                self.cell as int,
                Some(new_val),
            ),
            self.cell >= old(cells)@.len() ==> r == Err::<(), CalcError>(CalcError::NotInitialized)
                && final(cells)@ == old(cells)@,
    {
        cells.set(self.cell, new_val)
    }
}

impl Node for VarNode {
    /// The value in the variable's cell. Fails with `NotInitialized` if the
    /// cell is empty.
    fn evaluate(&self, cells: &Cells) -> (r: Result<i32, CalcError>) {
        cells.get(self.cell)
    }

    fn node_type(&self) -> (t: NodeType) {
        NodeType::Var
    }

    fn text(&self) -> (s: String) {
        self.name.clone()
    }

    /// Evaluates `val` and writes its value into the variable's cell, where
    /// every node bound to that cell reads it.
    fn assign(&self, val: AnyNode, cells: &mut Cells) -> (r: Result<(), CalcError>) {
        match val.evaluate(cells) {
            Ok(v) => self.set_val(v, cells),
            Err(err) => Err(err),
        }
    }
}

impl Block {
    /// A block, still without a body.
    pub fn new() -> (node: Block)
        ensures
            node@ == Expr::Block(None),
    {
        Block { body: None }
    }
}

impl Node for Block {
    /// The value of the body. Fails with `InvalidBracket` if there is none.
    fn evaluate(&self, cells: &Cells) -> (r: Result<i32, CalcError>)
        decreases self,
    {
        match &self.body {
            Some(body) => body.evaluate(cells),
            None => Err(CalcError::InvalidBracket),
        }
    }

    fn node_type(&self) -> (t: NodeType) {
        NodeType::Block
    }

    fn text(&self) -> (s: String)
        decreases self,
    {
        proof {
            reveal_strlit("[");
            reveal_strlit("]");
            reveal_strlit("[ ]");
        }
        match &self.body {
            Some(body) => {
                let mut s = String::from_str("[");
                let inner = body.text();
                s.append(inner.as_str());
                s.append("]");
                assert(s@ =~= describe(self@));
                s
            },
            None => {
                let s = String::from_str("[ ]");
                assert(s@ =~= describe(self@));
                s
            },
        }
    }

    /// Always fails with `CannotAssignToBlock`.
    fn assign(&self, val: AnyNode, cells: &mut Cells) -> (r: Result<(), CalcError>) {
        Err(CalcError::CannotAssignToBlock)
    }
}

impl Node for AnyNode {
    fn evaluate(&self, cells: &Cells) -> (r: Result<i32, CalcError>)
        decreases self,
    {
        match self {
            AnyNode::Num(node) => node.evaluate(cells),
            AnyNode::Op(node) => node.evaluate(cells),
            AnyNode::Sym(node) => node.evaluate(cells),
            AnyNode::Var(node) => node.evaluate(cells),
            AnyNode::Block(node) => node.evaluate(cells),
        }
    }

    fn node_type(&self) -> (t: NodeType) {
        match self {
            AnyNode::Num(node) => node.node_type(),
            AnyNode::Op(node) => node.node_type(),
            AnyNode::Sym(node) => node.node_type(),
            AnyNode::Var(node) => node.node_type(),
            AnyNode::Block(node) => node.node_type(),
        }
    }

    fn text(&self) -> (s: String)
        decreases self,
    {
        match self {
            AnyNode::Num(node) => node.text(),
            AnyNode::Op(node) => node.text(),
            AnyNode::Sym(node) => node.text(),
            AnyNode::Var(node) => node.text(),
            AnyNode::Block(node) => node.text(),
        }
    }

    fn assign(&self, val: AnyNode, cells: &mut Cells) -> (r: Result<(), CalcError>) {
        match self {
            AnyNode::Num(node) => node.assign(val, cells),
            AnyNode::Op(node) => node.assign(val, cells),
            AnyNode::Sym(node) => node.assign(val, cells),
            AnyNode::Var(node) => node.assign(val, cells),
            AnyNode::Block(node) => node.assign(val, cells),
        }
    }
}

} // verus!
