//! What holds of every statement of a given shape.
//!
//! Each law is stated over [`interpret`], which is what
//! `Interpreter::evaluate` computes.

use vstd::prelude::*;
use crate::error::CalcError;
use crate::interpreter::expr::{apply, eval, fetch, operator_char, Expr, Operator};
use crate::interpreter::laws::lexing::{
    is_literal, is_name, lemma_lex_literal, lemma_lex_literal_alone, lemma_lex_name,
    lemma_lex_operator, lemma_lex_punctuation, lemma_lex_space, lemma_lex_word, operator_lexeme,
};
use crate::interpreter::lexer::{keyword_let, lex, number_value, Lexeme};
use crate::interpreter::machine::{Machine, MAX_TOKENS};
use crate::interpreter::{interpret, run, Answer, Session};

verus! {

/// What a machine that stands before an operator does: the nested run reads
/// what follows, then the operator takes its operands and the run reads on.
pub proof fn lemma_operator_step(m: Machine, op: Operator)
    requires
        m.pos < m.tokens.len() <= MAX_TOKENS,
        m.tokens[m.pos as int] == operator_lexeme(op),
    ensures
        m.parse() == ({
            let inner = m.advance().parse();
            if inner.result is Err {
                inner
            } else {
                let reduced = inner.machine.combine(op);
                if reduced.result is Err || !m.precedes(reduced.machine) {
                    reduced
                } else {
                    reduced.machine.parse()
                }
            }
        }),
{
    match op {
        Operator::Add => {},
        Operator::Sub => {},
        Operator::Mul => {},
        Operator::Div => {},
    }
}

/// Evaluating a name that was never declared fails with `UndefinedValue`
/// and changes nothing.
pub proof fn law_undeclared_name(name: Seq<char>, s: Session)
    requires
        is_name(name),
        !s.vars.contains_key(name),
    ensures
        interpret(name, s).result == Err::<i32, CalcError>(CalcError::UndefinedValue),
        interpret(name, s).session == s,
{
    lemma_lex_name(name);
    let m0 = Machine::start(seq![Lexeme::Sym(name)], s.vars, s.cells);
    assert(m0.parse() == m0.advance().push(Expr::Sym(name)).done());
}

/// Evaluating a declared name returns what its cell holds, and fails with
/// `NotInitialized` while the variable has no value. It changes nothing.
pub proof fn law_variable_reads_its_cell(name: Seq<char>, s: Session)
    requires
        is_name(name),
        s.vars.contains_key(name),
    ensures
        interpret(name, s).result == fetch(s.cells, s.vars[name]),
        fetch(s.cells, s.vars[name]) is Err ==> interpret(name, s).result == Err::<i32, CalcError>(
            CalcError::NotInitialized,
        ),
        interpret(name, s).session == s,
{
    lemma_lex_name(name);
    let m0 = Machine::start(seq![Lexeme::Sym(name)], s.vars, s.cells);
    let m1 = m0.advance().push(Expr::Var(name, s.vars[name]));
    assert(m0.parse() == m1.parse());
    assert(m1.parse() == m1.done());
}

/// The statement `a op b`, with one space on either side of the operator.
pub open spec fn binary_text(a: Seq<char>, op: Operator, b: Seq<char>) -> Seq<char> {
    a + seq![' ', operator_char(op), ' '] + b
}

/// The text `a op b` is three tokens, unless a literal is malformed.
pub proof fn lemma_lex_binary(a: Seq<char>, op: Operator, b: Seq<char>)
    requires
        is_literal(a),
        is_literal(b),
    ensures
        lex(binary_text(a, op, b)) == if number_value(a) is Some && number_value(b) is Some {
            Some(
                seq![
                    Lexeme::Int(number_value(a)->0),
                    operator_lexeme(op),
                    Lexeme::Int(number_value(b)->0),
                ],
            )
        } else {
            None
        },
{
    let tail = seq![' ', operator_char(op), ' '] + b;
    assert(binary_text(a, op, b) =~= a + tail);
    assert(tail[0] == ' ');
    lemma_lex_literal(a, tail);
    lemma_lex_operator(op, b);
    lemma_lex_literal_alone(b);
    if number_value(a) is Some && number_value(b) is Some {
        let x = Lexeme::Int(number_value(a)->0);
        let y = Lexeme::Int(number_value(b)->0);
        assert(seq![x] + (seq![operator_lexeme(op)] + seq![y]) =~= seq![
            x,
            operator_lexeme(op),
            y,
        ]);
    }
}

/// The statement of the tokens `a op b` has the value of `a op b`, and
/// changes nothing.
pub proof fn lemma_run_binary(a: i32, op: Operator, b: i32, s: Session)
    ensures
        run(seq![Lexeme::Int(a), operator_lexeme(op), Lexeme::Int(b)], s) == (Answer {
            session: s,
            result: apply(op, a, b),
        }),
{
    let tokens = seq![Lexeme::Int(a), operator_lexeme(op), Lexeme::Int(b)];
    let m0 = Machine::start(tokens, s.vars, s.cells);
    let m1 = m0.advance().push(Expr::Num(a));
    let m2 = m1.advance();
    let m3 = m2.advance().push(Expr::Num(b));
    let m4 = m3.combine(op).machine;
    assert(m0.parse() == m1.parse());
    assert(m3.parse() == m3.done());
    assert(m2.parse() == m3.parse());
    lemma_operator_step(m1, op);
    assert(m3.stack.len() == 2);
    assert(m3.combine(op).result is Ok);
    assert(m1.precedes(m4));
    assert(m4.parse() == m4.done());
    assert(m1.parse() == m4.done());
    assert(m4.stack.len() == 1);
    assert(m4.stack[0] == Expr::Op(op, Some(Box::new(Expr::Num(a))), Some(Box::new(Expr::Num(b)))));
    assert(eval(Expr::Num(a), s.cells) == Ok::<i32, CalcError>(a));
    assert(eval(Expr::Num(b), s.cells) == Ok::<i32, CalcError>(b));
    assert(eval(m4.stack[0], s.cells) == apply(op, a, b));
}

/// For literals `a` and `b` and an operator `op`, the statement `a op b` has
/// the value of `op` applied to the values of `a` and `b`. It fails with
/// `LexError` if a literal is malformed, and changes nothing.
pub proof fn law_binary_expression(a: Seq<char>, op: Operator, b: Seq<char>, s: Session)
    requires
        is_literal(a),
        is_literal(b),
    ensures
        interpret(binary_text(a, op, b), s).result == if number_value(a) is Some && number_value(
            b,
        ) is Some {
            apply(op, number_value(a)->0, number_value(b)->0)
        } else {
            Err(CalcError::LexError)
        },
        interpret(binary_text(a, op, b), s).session == s,
{
    lemma_lex_binary(a, op, b);
    if number_value(a) is Some && number_value(b) is Some {
        lemma_run_binary(number_value(a)->0, op, number_value(b)->0, s);
    }
}

/// The statement `let name`.
pub open spec fn declaration_text(name: Seq<char>) -> Seq<char> {
    keyword_let() + seq![' '] + name
}

/// The session after `name` was declared: the name is bound to a new, empty
/// cell, whose handle is the number of cells there were.
pub open spec fn declared(name: Seq<char>, s: Session) -> Session {
    Session { vars: s.vars.insert(name, s.cells.len() as usize), cells: s.cells.push(None) }
}

/// The text `let name` is two tokens.
pub proof fn lemma_lex_declaration(name: Seq<char>)
    requires
        is_name(name),
    ensures
        lex(declaration_text(name)) == Some(seq![Lexeme::DecVar, Lexeme::Sym(name)]),
{
    let tail = seq![' '] + name;
    assert(declaration_text(name) =~= keyword_let() + tail);
    assert(tail[0] == ' ');
    lemma_lex_word(keyword_let(), tail);
    lemma_lex_space(name);
    lemma_lex_name(name);
    assert(seq![Lexeme::DecVar] + seq![Lexeme::Sym(name)] =~= seq![
        Lexeme::DecVar,
        Lexeme::Sym(name),
    ]);
}

/// Declaring a name binds it to a new, empty cell, whether the name was
/// bound before or not, and leaves every cell that was there as it is. The
/// statement itself has no value: its root is the new variable, so it fails
/// with `NotInitialized`.
pub proof fn law_declaration(name: Seq<char>, s: Session)
    requires
        is_name(name),
        s.cells.len() <= usize::MAX,
    ensures
        interpret(declaration_text(name), s).result == Err::<i32, CalcError>(
            CalcError::NotInitialized,
        ),
        interpret(declaration_text(name), s).session == declared(name, s),
{
    lemma_lex_declaration(name);
    let tokens = seq![Lexeme::DecVar, Lexeme::Sym(name)];
    let m0 = Machine::start(tokens, s.vars, s.cells);
    let m1 = m0.advance();
    let m2 = m1.advance().push(Expr::Sym(name));
    let m3 = m2.declare(0).machine;
    assert(m1.names_here());
    assert(m0.nested(Lexeme::DecVar) == m2.done());
    assert(m2.stack.len() == 1);
    assert(m2.stack.last() == Expr::Sym(name));
    assert(m2.declare(0).result is Ok);
    assert(m0.precedes(m3));
    assert(m3.parse() == m3.done());
    assert(m0.parse() == m3.done());
    assert(m3.stack.len() == 1);
    assert(m3.stack[0] == Expr::Var(name, s.cells.len() as usize));
    assert(m3.cells[s.cells.len() as int] == None::<i32>);
}

/// The statement `name = lit`.
pub open spec fn assignment_text(name: Seq<char>, lit: Seq<char>) -> Seq<char> {
    name + seq![' ', '=', ' '] + lit
}

/// The text `name = lit` is three tokens, unless the literal is malformed.
pub proof fn lemma_lex_assignment(name: Seq<char>, lit: Seq<char>)
    requires
        is_name(name),
        is_literal(lit),
    ensures
        lex(assignment_text(name, lit)) == match number_value(lit) {
            Some(v) => Some(seq![Lexeme::Sym(name), Lexeme::Asgn, Lexeme::Int(v)]),
            None => None,
        },
{
    let t3 = seq![' '] + lit;
    let t2 = seq!['='] + t3;
    let t1 = seq![' '] + t2;
    assert(assignment_text(name, lit) =~= name + t1);
    assert(t1[0] == ' ');
    lemma_lex_word(name, t1);
    lemma_lex_space(t2);
    lemma_lex_punctuation('=', t3);
    lemma_lex_space(lit);
    lemma_lex_literal_alone(lit);
    if let Some(v) = number_value(lit) {
        assert(seq![Lexeme::Sym(name)] + (seq![Lexeme::Asgn] + seq![Lexeme::Int(v)]) =~= seq![
            Lexeme::Sym(name),
            Lexeme::Asgn,
            Lexeme::Int(v),
        ]);
    }
}

/// Assigning a literal to a declared variable writes the literal's value
/// into the variable's cell, and the statement has that value.
pub proof fn law_assignment(name: Seq<char>, lit: Seq<char>, s: Session)
    requires
        is_name(name),
        is_literal(lit),
        number_value(lit) is Some,
        s.vars.contains_key(name),
        s.vars[name] < s.cells.len(),
    ensures
        interpret(assignment_text(name, lit), s).result == Ok::<i32, CalcError>(
            number_value(lit)->0,
        ),
        interpret(assignment_text(name, lit), s).session == (Session {
            vars: s.vars,
            cells: s.cells.update(s.vars[name] as int, Some(number_value(lit)->0)),
        }),
{
    lemma_lex_assignment(name, lit);
    let v = number_value(lit)->0;
    let h = s.vars[name];
    let tokens = seq![Lexeme::Sym(name), Lexeme::Asgn, Lexeme::Int(v)];
    let m0 = Machine::start(tokens, s.vars, s.cells);
    let m1 = m0.advance().push(Expr::Var(name, h));
    let m2 = m1.advance();
    let m3 = m2.advance().push(Expr::Num(v));
    let m4 = m3.assign().machine;
    assert(m0.parse() == m1.parse());
    assert(m3.parse() == m3.done());
    assert(m2.parse() == m3.parse());
    assert(m3.stack.len() == 2);
    assert(m3.stack[0] == Expr::Var(name, h));
    assert(m3.stack[1] == Expr::Num(v));
    assert(eval(Expr::Num(v), s.cells) == Ok::<i32, CalcError>(v));
    assert(m3.assign().result is Ok);
    assert(m1.precedes(m4));
    assert(m4.parse() == m4.done());
    assert(m1.parse() == m4.done());
    assert(m4.stack =~= seq![Expr::Var(name, h)]);
}

/// Assigning to a name that was never declared does not reach the
/// assignment: the undeclared name ends the run, and the statement fails
/// with `UndefinedValue` and changes nothing.
pub proof fn law_assignment_to_undeclared_name(name: Seq<char>, lit: Seq<char>, s: Session)
    requires
        is_name(name),
        is_literal(lit),
        number_value(lit) is Some,
        !s.vars.contains_key(name),
    ensures
        interpret(assignment_text(name, lit), s).result == Err::<i32, CalcError>(
            CalcError::UndefinedValue,
        ),
        interpret(assignment_text(name, lit), s).session == s,
{
    lemma_lex_assignment(name, lit);
    let v = number_value(lit)->0;
    let tokens = seq![Lexeme::Sym(name), Lexeme::Asgn, Lexeme::Int(v)];
    let m0 = Machine::start(tokens, s.vars, s.cells);
    assert(m0.parse() == m0.advance().push(Expr::Sym(name)).done());
}

/// A variable that was declared, then assigned a literal, then read, has the
/// literal's value, whatever the name was bound to before: each statement
/// finds what the statements before it left in the session.
pub proof fn law_declare_assign_read(name: Seq<char>, lit: Seq<char>, s: Session)
    requires
        is_name(name),
        is_literal(lit),
        number_value(lit) is Some,
        s.cells.len() <= usize::MAX,
    ensures
        ({
            let s1 = interpret(declaration_text(name), s).session;
            let s2 = interpret(assignment_text(name, lit), s1).session;
            interpret(name, s2).result == Ok::<i32, CalcError>(number_value(lit)->0)
        }),
{
    let s1 = interpret(declaration_text(name), s).session;
    law_declaration(name, s);
    assert(s1.vars.contains_key(name));
    assert(s1.vars[name] == s.cells.len());
    law_assignment(name, lit, s1);
    let s2 = interpret(assignment_text(name, lit), s1).session;
    law_variable_reads_its_cell(name, s2);
}

/// A statement of more than `MAX_TOKENS` tokens fails with
/// `StatementTooLong`, and changes nothing.
pub proof fn law_statement_too_long(text: Seq<char>, s: Session)
    requires
        lex(text) is Some,
        lex(text)->0.len() > MAX_TOKENS,
    ensures
        interpret(text, s).result == Err::<i32, CalcError>(CalcError::StatementTooLong),
        interpret(text, s).session == s,
{
}

} // verus!
