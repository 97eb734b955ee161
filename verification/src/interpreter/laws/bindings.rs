//! What holds of the declared names and the cells of their variables.

use vstd::prelude::*;
use crate::error::CalcError;
use crate::interpreter::expr::{eval, handles_below, CellSeq, Expr};
use crate::interpreter::lexer::{lex, Lexeme};
use crate::interpreter::laws::chains::{
    chain_declaration_text, chain_known, chain_tokens, chain_value, law_declaration_with_value,
    Link, Operand,
};
use crate::interpreter::laws::lexing::is_name;
use crate::interpreter::laws::statements::{declared, law_variable_reads_its_cell};
use crate::interpreter::machine::{
    lemma_parse_moves_on, lemma_reduce_stays, Machine, MAX_TOKENS,
};
use crate::interpreter::{interpret, Session};

verus! {

/// The value of an expression depends only on the cells that its variables
/// name.
pub proof fn lemma_eval_reads_own_cells(e: Expr, n: nat, c1: CellSeq, c2: CellSeq)
    requires
        handles_below(e, n),
        n <= c1.len(),
        n <= c2.len(),
        forall|h: int| 0 <= h < n ==> c1[h] == c2[h],
    ensures
        eval(e, c1) == eval(e, c2),
    decreases e,
{
    match e {
        Expr::Op(_, Some(l), Some(r)) => {
            lemma_eval_reads_own_cells(*l, n, c1, c2);
            lemma_eval_reads_own_cells(*r, n, c1, c2);
        },
        Expr::Block(Some(body)) => {
            lemma_eval_reads_own_cells(*body, n, c1, c2);
        },
        _ => {},
    }
}

/// `later` has at least the cells of `earlier`, and every name that
/// `earlier` declares is declared in `later`, perhaps bound to a newer cell.
pub open spec fn keeps(earlier: Session, later: Session) -> bool {
    &&& earlier.cells.len() <= later.cells.len()
    &&& forall|name: Seq<char>| #[trigger]
        earlier.vars.contains_key(name) ==> later.vars.contains_key(name)
}

/// The session that a machine holds.
pub open spec fn session_of(m: Machine) -> Session {
    Session { vars: m.vars, cells: m.cells }
}

/// No token from the current position on is `let`.
pub open spec fn no_let_ahead(m: Machine) -> bool {
    forall|i: int| m.pos <= i < m.tokens.len() ==> !(#[trigger] m.tokens[i] is DecVar)
}

/// What a token does with its operands removes no cell and forgets no name;
/// and unless the token is `let`, the table and the number of cells stay as
/// they are.
pub proof fn lemma_reduce_keeps(m: Machine, token: Lexeme, before: nat)
    ensures
        keeps(session_of(m), session_of(m.reduce(token, before).machine)),
        !(token is DecVar) ==> m.reduce(token, before).machine.vars == m.vars && m.reduce(
            token,
            before,
        ).machine.cells.len() == m.cells.len(),
{
}

/// A run of the parser removes no cell and forgets no name.
pub proof fn lemma_parse_keeps(m: Machine)
    requires
        m.in_bounds(),
    ensures
        keeps(session_of(m), session_of(m.parse().machine)),
    decreases m.tokens.len() - m.pos,
{
    if m.tokens.len() <= MAX_TOKENS && m.pos < m.tokens.len() {
        match m.tokens[m.pos as int] {
            Lexeme::CloseBlock => {},
            Lexeme::Int(v) => {
                lemma_parse_keeps(m.advance().push(Expr::Num(v)));
            },
            Lexeme::Sym(name) => {
                if m.vars.contains_key(name) {
                    lemma_parse_keeps(m.advance().push(Expr::Var(name, m.vars[name])));
                }
            },
            Lexeme::Break => {
                lemma_parse_keeps(Machine { stack: Seq::empty(), ..m.advance() });
            },
            token => {
                let inner = m.nested(token);
                if !(token is DecVar && m.enter(token).names_here()) {
                    lemma_parse_moves_on(m.enter(token));
                    lemma_parse_keeps(m.enter(token));
                }
                if inner.result is Ok {
                    let reduced = inner.machine.reduce(token, m.stack.len());
                    lemma_reduce_stays(inner.machine, token, m.stack.len());
                    lemma_reduce_keeps(inner.machine, token, m.stack.len());
                    if reduced.result is Ok {
                        lemma_parse_keeps(reduced.machine);
                    }
                }
            },
        }
    }
}

/// A run of the parser that meets no `let` leaves the table and the number
/// of cells as they are.
pub proof fn lemma_parse_without_let(m: Machine)
    requires
        m.in_bounds(),
        no_let_ahead(m),
    ensures
        m.parse().machine.vars == m.vars,
        m.parse().machine.cells.len() == m.cells.len(),
    decreases m.tokens.len() - m.pos,
{
    if m.tokens.len() <= MAX_TOKENS && m.pos < m.tokens.len() {
        match m.tokens[m.pos as int] {
            Lexeme::CloseBlock => {},
            Lexeme::Int(v) => {
                lemma_parse_without_let(m.advance().push(Expr::Num(v)));
            },
            Lexeme::Sym(name) => {
                if m.vars.contains_key(name) {
                    lemma_parse_without_let(m.advance().push(Expr::Var(name, m.vars[name])));
                }
            },
            Lexeme::Break => {
                lemma_parse_without_let(Machine { stack: Seq::empty(), ..m.advance() });
            },
            token => {
                assert(!(token is DecVar));
                let inner = m.nested(token);
                lemma_parse_moves_on(m.enter(token));
                lemma_parse_without_let(m.enter(token));
                if inner.result is Ok {
                    let reduced = inner.machine.reduce(token, m.stack.len());
                    lemma_reduce_stays(inner.machine, token, m.stack.len());
                    lemma_reduce_keeps(inner.machine, token, m.stack.len());
                    if reduced.result is Ok {
                        lemma_parse_without_let(reduced.machine);
                    }
                }
            },
        }
    }
}

/// Whatever a statement is and however it ends, the session keeps every
/// cell, and every declared name stays declared: the bindings last for the
/// whole session. A name may come to be bound to a newer cell, by a
/// declaration; no cell is ever removed.
pub proof fn law_statement_keeps_bindings(text: Seq<char>, s: Session)
    ensures
        keeps(s, interpret(text, s).session),
{
    if let Some(tokens) = lex(text) {
        lemma_parse_keeps(Machine::start(tokens, s.vars, s.cells));
    }
}

/// A statement without `let` leaves the table as it is and adds no cell: only
/// a declaration binds a name or makes a cell.
pub proof fn law_only_let_binds(text: Seq<char>, s: Session)
    requires
        lex(text) is Some ==> forall|i: int|
            0 <= i < lex(text)->0.len() ==> !(#[trigger] lex(text)->0[i] is DecVar),
    ensures
        interpret(text, s).session.vars == s.vars,
        interpret(text, s).session.cells.len() == s.cells.len(),
{
    if let Some(tokens) = lex(text) {
        lemma_parse_without_let(Machine::start(tokens, s.vars, s.cells));
    }
}

/// Declaring a name again gives it a cell of its own. Let `name` be
/// declared with the value of a chain, in a session where it may be bound
/// already, and let `e` be any tree built before, such as a variable of the
/// earlier binding of `name`. Then the name is bound to a new cell, which no
/// tree built before names; the new variable has the value of the chain; and
/// `e` has the value it had before.
pub proof fn law_declared_again_is_independent(
    name: Seq<char>,
    first: Operand,
    rest: Seq<Link>,
    s: Session,
    e: Expr,
)
    requires
        is_name(name),
        s.cells.len() <= usize::MAX,
        chain_known(first, rest, declared(name, s)),
        chain_tokens(first, rest).len() + 3 <= MAX_TOKENS,
        handles_below(e, s.cells.len()),
    ensures
        ({
            let after = interpret(chain_declaration_text(name, first, rest), s);
            let value = chain_value(first, rest, declared(name, s));
            &&& after.session.vars.contains_key(name)
            &&& after.session.vars[name] == s.cells.len()
            &&& !handles_below(Expr::Var(name, after.session.vars[name]), s.cells.len())
            &&& eval(e, after.session.cells) == eval(e, s.cells)
            &&& value is Ok ==> after.result == value && interpret(name, after.session).result
                == value
            &&& value is Err ==> after.result == value && interpret(name, after.session).result
                == Err::<i32, CalcError>(CalcError::NotInitialized)
        }),
{
    let after = interpret(chain_declaration_text(name, first, rest), s);
    law_declaration_with_value(name, first, rest, s);
    lemma_eval_reads_own_cells(e, s.cells.len(), s.cells, after.session.cells);
    law_variable_reads_its_cell(name, after.session);
}

} // verus!
