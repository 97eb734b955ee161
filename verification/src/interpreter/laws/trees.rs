//! What holds of the value and of the size of every tree.

use vstd::prelude::*;
use crate::error::ErrorKind;
use crate::interpreter::expr::{eval, CellSeq, Expr};
use crate::interpreter::lexer::Lexeme;
use crate::interpreter::machine::{lemma_parse_moves_on, lemma_reduce_stays, Machine, MAX_TOKENS};

verus! {

/// The tree is complete: every operator has both operands, every block has
/// a body, every variable has a value, and no name is unresolved.
pub open spec fn complete(e: Expr, cells: CellSeq) -> bool
    decreases e,
{
    match e {
        Expr::Num(_) => true,
        Expr::Op(_, Some(l), Some(r)) => complete(*l, cells) && complete(*r, cells),
        Expr::Op(_, _, _) => false,
        Expr::Sym(_) => false,
        Expr::Var(_, h) => h < cells.len() && cells[h as int] is Some,
        Expr::Block(Some(body)) => complete(*body, cells),
        Expr::Block(None) => false,
    }
}

/// Only a complete tree has a value: an operator evaluates only when both
/// operands are there, a block only when its body is there, and a variable
/// only when its cell holds a value.
pub proof fn law_value_needs_complete_tree(e: Expr, cells: CellSeq)
    requires
        eval(e, cells) is Ok,
    ensures
        complete(e, cells),
    decreases e,
{
    match e {
        Expr::Op(_, Some(l), Some(r)) => {
            law_value_needs_complete_tree(*l, cells);
            law_value_needs_complete_tree(*r, cells);
        },
        Expr::Block(Some(body)) => {
            law_value_needs_complete_tree(*body, cells);
        },
        _ => {},
    }
}

/// A complete tree has a value unless its arithmetic fails: the only errors
/// it can end with are `Overflow` and `DivisionByZero`.
pub proof fn law_complete_tree_fails_only_in_arithmetic(e: Expr, cells: CellSeq)
    requires
        complete(e, cells),
    ensures
        eval(e, cells) is Err ==> eval(e, cells)->Err_0.kind() == ErrorKind::ArithmeticError,
    decreases e,
{
    match e {
        Expr::Op(_, Some(l), Some(r)) => {
            law_complete_tree_fails_only_in_arithmetic(*l, cells);
            law_complete_tree_fails_only_in_arithmetic(*r, cells);
        },
        Expr::Block(Some(body)) => {
            law_complete_tree_fails_only_in_arithmetic(*body, cells);
        },
        _ => {},
    }
}

/// The number of nodes of a tree.
pub open spec fn nodes(e: Expr) -> nat
    decreases e,
{
    match e {
        Expr::Op(_, l, r) => 1 + child_nodes(l) + child_nodes(r),
        Expr::Block(body) => 1 + child_nodes(body),
        _ => 1,
    }
}

/// The number of nodes of a child, if there is one.
pub open spec fn child_nodes(child: Option<Box<Expr>>) -> nat
    decreases child,
{
    match child {
        Some(e) => nodes(*e),
        None => 0,
    }
}

/// The height of a tree: how deep a call that walks the tree goes.
pub open spec fn height(e: Expr) -> nat
    decreases e,
{
    match e {
        Expr::Op(_, l, r) => 1 + if child_height(l) >= child_height(r) {
            child_height(l)
        } else {
            child_height(r)
        },
        Expr::Block(body) => 1 + child_height(body),
        _ => 1,
    }
}

/// The height of a child, if there is one.
pub open spec fn child_height(child: Option<Box<Expr>>) -> nat
    decreases child,
{
    match child {
        Some(e) => height(*e),
        None => 0,
    }
}

/// The number of nodes of all the trees of a stack.
pub open spec fn total_nodes(stack: Seq<Expr>) -> nat
    decreases stack.len(),
{
    if stack.len() == 0 {
        0
    } else {
        total_nodes(stack.drop_last()) + nodes(stack.last())
    }
}

/// A tree is no higher than it has nodes.
pub proof fn lemma_height_within_nodes(e: Expr)
    ensures
        height(e) <= nodes(e),
    decreases e,
{
    match e {
        Expr::Op(_, l, r) => {
            if let Some(l) = l {
                lemma_height_within_nodes(*l);
            }
            if let Some(r) = r {
                lemma_height_within_nodes(*r);
            }
        },
        Expr::Block(Some(body)) => {
            lemma_height_within_nodes(*body);
        },
        _ => {},
    }
}

/// One more tree adds its nodes.
pub proof fn lemma_total_push(stack: Seq<Expr>, e: Expr)
    ensures
        total_nodes(stack.push(e)) == total_nodes(stack) + nodes(e),
{
    assert(stack.push(e).drop_last() =~= stack);
}

/// Each tree of a stack has no more nodes than the whole stack.
pub proof fn lemma_total_bounds_each(stack: Seq<Expr>, i: int)
    requires
        0 <= i < stack.len(),
    ensures
        nodes(stack[i]) <= total_nodes(stack),
    decreases stack.len(),
{
    if i < stack.len() - 1 {
        lemma_total_bounds_each(stack.drop_last(), i);
    }
}

/// What a token does with its operands adds at most one node.
pub proof fn lemma_reduce_adds_one(m: Machine, token: Lexeme, before: nat)
    ensures
        total_nodes(m.reduce(token, before).machine.stack) <= total_nodes(m.stack) + 1,
{
    let n = m.stack.len() as int;
    let after = m.reduce(token, before).machine;
    if n >= 1 {
        assert(m.stack.drop_last().push(m.stack.last()) =~= m.stack);
        lemma_total_push(m.stack.drop_last(), m.stack.last());
    }
    if n >= 2 {
        let below = m.stack.take(n - 2);
        assert(below.push(m.stack[n - 2]) =~= m.stack.drop_last());
        lemma_total_push(below, m.stack[n - 2]);
    }
    match token {
        Lexeme::OpenBlock => {
            if n >= 1 {
                lemma_total_push(
                    m.stack.drop_last(),
                    Expr::Block(Some(Box::new(m.stack.last()))),
                );
            }
        },
        Lexeme::DecVar => {
            if n == before + 1 {
                if let Expr::Sym(name) = m.stack.last() {
                    lemma_total_push(
                        m.stack.drop_last(),
                        Expr::Var(name, m.cells.len() as usize),
                    );
                }
            }
        },
        Lexeme::Asgn => {
            if n >= 2 {
                lemma_total_push(m.stack.take(n - 2), m.stack[n - 2]);
            }
        },
        Lexeme::Add | Lexeme::Sub | Lexeme::Mul | Lexeme::Div => {
            if n >= 2 {
                lemma_total_push(m.stack.take(n - 2), after.stack.last());
            }
        },
        _ => {},
    }
}

/// A run of the parser makes at most one node for each token that it reads.
pub proof fn lemma_parse_adds_nodes(m: Machine)
    requires
        m.in_bounds(),
    ensures
        total_nodes(m.parse().machine.stack) + m.pos <= total_nodes(m.stack) + m.parse().machine.pos,
    decreases m.tokens.len() - m.pos,
{
    lemma_parse_moves_on(m);
    if m.tokens.len() <= MAX_TOKENS && m.pos < m.tokens.len() {
        match m.tokens[m.pos as int] {
            Lexeme::CloseBlock => {},
            Lexeme::Int(v) => {
                lemma_total_push(m.stack, Expr::Num(v));
                lemma_parse_adds_nodes(m.advance().push(Expr::Num(v)));
            },
            Lexeme::Sym(name) => {
                if m.vars.contains_key(name) {
                    lemma_total_push(m.stack, Expr::Var(name, m.vars[name]));
                    lemma_parse_adds_nodes(m.advance().push(Expr::Var(name, m.vars[name])));
                } else {
                    lemma_total_push(m.stack, Expr::Sym(name));
                }
            },
            Lexeme::Break => {
                let next = Machine { stack: Seq::empty(), ..m.advance() };
                assert(total_nodes(next.stack) == 0);
                lemma_parse_adds_nodes(next);
            },
            token => {
                let inner = m.nested(token);
                let entered = m.enter(token);
                if token is DecVar && entered.names_here() {
                    lemma_total_push(
                        entered.stack,
                        Expr::Sym(entered.tokens[entered.pos as int]->Sym_0),
                    );
                } else {
                    lemma_parse_moves_on(entered);
                    lemma_parse_adds_nodes(entered);
                }
                if inner.result is Ok {
                    let reduced = inner.machine.reduce(token, m.stack.len());
                    lemma_reduce_stays(inner.machine, token, m.stack.len());
                    lemma_reduce_adds_one(inner.machine, token, m.stack.len());
                    if reduced.result is Ok {
                        lemma_parse_moves_on(reduced.machine);
                        lemma_parse_adds_nodes(reduced.machine);
                    }
                }
            },
        }
    }
}

/// Whatever the tokens of a statement are, each tree that the parser builds
/// of them has no more nodes than the statement has tokens, and no more than
/// `MAX_TOKENS`; so a call that walks such a tree goes no deeper than that.
pub proof fn law_tree_is_no_larger_than_statement(
    tokens: Seq<Lexeme>,
    vars: Map<Seq<char>, usize>,
    cells: CellSeq,
    i: int,
)
    requires
        0 <= i < Machine::start(tokens, vars, cells).parse().machine.stack.len(),
    ensures
        nodes(Machine::start(tokens, vars, cells).parse().machine.stack[i]) <= tokens.len(),
        height(Machine::start(tokens, vars, cells).parse().machine.stack[i]) <= MAX_TOKENS,
{
    let m = Machine::start(tokens, vars, cells);
    let after = m.parse().machine;
    lemma_parse_moves_on(m);
    lemma_parse_adds_nodes(m);
    assert(total_nodes(m.stack) == 0);
    lemma_total_bounds_each(after.stack, i);
    lemma_height_within_nodes(after.stack[i]);
}

/// The tree lacks no child: every operator has both operands and every
/// block has a body.
pub open spec fn whole(e: Expr) -> bool
    decreases e,
{
    match e {
        Expr::Op(_, Some(l), Some(r)) => whole(*l) && whole(*r),
        Expr::Op(_, _, _) => false,
        Expr::Block(Some(body)) => whole(*body),
        Expr::Block(None) => false,
        _ => true,
    }
}

/// Every tree of the stack lacks no child.
pub open spec fn all_whole(stack: Seq<Expr>) -> bool {
    forall|i: int| 0 <= i < stack.len() ==> whole(#[trigger] stack[i])
}

/// One more tree that lacks no child leaves a stack of such trees.
pub proof fn lemma_push_whole(stack: Seq<Expr>, e: Expr)
    requires
        all_whole(stack),
        whole(e),
    ensures
        all_whole(stack.push(e)),
{
    assert forall|i: int| 0 <= i < stack.push(e).len() implies whole(#[trigger] stack.push(e)[i]) by {
        if i < stack.len() {
            assert(stack.push(e)[i] == stack[i]);
        }
    }
}

/// What a token does with its operands makes no tree that lacks a child.
pub proof fn lemma_reduce_whole(m: Machine, token: Lexeme, before: nat)
    requires
        all_whole(m.stack),
    ensures
        all_whole(m.reduce(token, before).machine.stack),
{
    let after = m.reduce(token, before).machine;
    let n = m.stack.len() as int;
    if n >= 1 {
        assert(whole(m.stack[n - 1]));
    }
    if n >= 2 {
        assert(whole(m.stack[n - 2]));
    }
    assert forall|i: int| 0 <= i < after.stack.len() implies whole(#[trigger] after.stack[i]) by {
        if i < after.stack.len() - 1 {
            assert(after.stack[i] == m.stack[i]);
        }
    }
}

/// A run of the parser makes no tree that lacks a child.
pub proof fn lemma_parse_whole(m: Machine)
    requires
        m.in_bounds(),
        all_whole(m.stack),
    ensures
        all_whole(m.parse().machine.stack),
    decreases m.tokens.len() - m.pos,
{
    if m.tokens.len() <= MAX_TOKENS && m.pos < m.tokens.len() {
        match m.tokens[m.pos as int] {
            Lexeme::CloseBlock => {},
            Lexeme::Int(v) => {
                lemma_push_whole(m.stack, Expr::Num(v));
                lemma_parse_whole(m.advance().push(Expr::Num(v)));
            },
            Lexeme::Sym(name) => {
                if m.vars.contains_key(name) {
                    lemma_push_whole(m.stack, Expr::Var(name, m.vars[name]));
                    lemma_parse_whole(m.advance().push(Expr::Var(name, m.vars[name])));
                } else {
                    lemma_push_whole(m.stack, Expr::Sym(name));
                }
            },
            Lexeme::Break => {
                lemma_parse_whole(Machine { stack: Seq::empty(), ..m.advance() });
            },
            token => {
                let inner = m.nested(token);
                let entered = m.enter(token);
                if token is DecVar && entered.names_here() {
                    lemma_push_whole(
                        entered.stack,
                        Expr::Sym(entered.tokens[entered.pos as int]->Sym_0),
                    );
                } else {
                    lemma_parse_moves_on(entered);
                    lemma_parse_whole(entered);
                }
                if inner.result is Ok {
                    let reduced = inner.machine.reduce(token, m.stack.len());
                    lemma_reduce_stays(inner.machine, token, m.stack.len());
                    lemma_reduce_whole(inner.machine, token, m.stack.len());
                    if reduced.result is Ok {
                        lemma_parse_whole(reduced.machine);
                    }
                }
            },
        }
    }
}

/// Whatever the tokens of a statement are, no tree that the parser builds of
/// them lacks a child: an operator node is made only of two operands, and a
/// block only of a body.
pub proof fn law_parser_builds_whole_trees(
    tokens: Seq<Lexeme>,
    vars: Map<Seq<char>, usize>,
    cells: CellSeq,
)
    ensures
        all_whole(Machine::start(tokens, vars, cells).parse().machine.stack),
{
    lemma_parse_whole(Machine::start(tokens, vars, cells));
}

} // verus!
