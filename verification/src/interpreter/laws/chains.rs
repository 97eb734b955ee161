//! Chains of operands and operators, and how they group.
//!
//! A chain is a statement of the form `a op b op c ..`, whose operands are
//! numeric literals and declared names. The parser lets each operator first
//! read everything that follows it, so a chain groups to the right:
//! `a op (b op (c ..))`, whatever the operators are. Assigning a chain to a
//! variable assigns that value.

use vstd::prelude::*;
use crate::error::CalcError;
use crate::interpreter::expr::{apply, eval, fetch, operator_char, store, Expr, Operator};
use crate::interpreter::laws::lexing::{
    is_literal, is_name, lemma_lex_literal, lemma_lex_operator, lemma_lex_punctuation,
    lemma_lex_space, lemma_lex_word, operator_lexeme,
};
use crate::interpreter::laws::statements::lemma_operator_step;
use crate::interpreter::laws::statements::declared;
use crate::interpreter::lexer::{followed, is_delimiter, keyword_let, lex, number_value, Lexeme};
use crate::interpreter::machine::{Machine, MAX_TOKENS};
use crate::interpreter::{interpret, Answer, Session};

verus! {

/// An operand as it is written: a numeric literal or a name.
pub enum Operand {
    Literal(Seq<char>),
    Name(Seq<char>),
}

/// An operator and the operand that follows it.
pub struct Link {
    pub operator: Operator,
    pub operand: Operand,
}

impl Operand {
    /// The text of the operand.
    pub open spec fn text(self) -> Seq<char> {
        match self {
            Operand::Literal(lit) => lit,
            Operand::Name(name) => name,
        }
    }

    /// The operand is a literal with a value, or a name that is declared in
    /// `s`.
    pub open spec fn known(self, s: Session) -> bool {
        match self {
            Operand::Literal(lit) => is_literal(lit) && number_value(lit) is Some,
            Operand::Name(name) => is_name(name) && s.vars.contains_key(name),
        }
    }

    /// The token of the operand.
    pub open spec fn lexeme(self) -> Lexeme {
        match self {
            Operand::Literal(lit) => Lexeme::Int(number_value(lit)->0),
            Operand::Name(name) => Lexeme::Sym(name),
        }
    }

    /// The node that the parser makes of the operand.
    pub open spec fn expr(self, s: Session) -> Expr {
        match self {
            Operand::Literal(lit) => Expr::Num(number_value(lit)->0),
            Operand::Name(name) => Expr::Var(name, s.vars[name]),
        }
    }

    /// The value of the operand: that of the literal, or what the cell of
    /// the variable holds.
    pub open spec fn value(self, s: Session) -> Result<i32, CalcError> {
        match self {
            Operand::Literal(lit) => Ok(number_value(lit)->0),
            Operand::Name(name) => fetch(s.cells, s.vars[name]),
        }
    }
}

/// Every operand of the chain is known in `s`.
pub open spec fn chain_known(first: Operand, rest: Seq<Link>, s: Session) -> bool {
    first.known(s) && forall|i: int| 0 <= i < rest.len() ==> (#[trigger] rest[i]).operand.known(s)
}

/// The text of the chain: the operands in order, each operator between its
/// neighbours with a space on either side.
pub open spec fn chain_text(first: Operand, rest: Seq<Link>) -> Seq<char>
    decreases rest.len(),
{
    if rest.len() == 0 {
        first.text()
    } else {
        first.text() + (seq![' ', operator_char(rest[0].operator), ' '] + chain_text(
            rest[0].operand,
            rest.skip(1),
        ))
    }
}

/// The tokens of the chain.
pub open spec fn chain_tokens(first: Operand, rest: Seq<Link>) -> Seq<Lexeme>
    decreases rest.len(),
{
    if rest.len() == 0 {
        seq![first.lexeme()]
    } else {
        seq![first.lexeme(), operator_lexeme(rest[0].operator)] + chain_tokens(
            rest[0].operand,
            rest.skip(1),
        )
    }
}

/// The tree of the chain: the first operand is the left child of the first
/// operator, and the rest of the chain is its right child.
pub open spec fn chain_tree(first: Operand, rest: Seq<Link>, s: Session) -> Expr
    decreases rest.len(),
{
    if rest.len() == 0 {
        first.expr(s)
    } else {
        Expr::Op(
            rest[0].operator,
            Some(Box::new(first.expr(s))),
            Some(Box::new(chain_tree(rest[0].operand, rest.skip(1), s))),
        )
    }
}

/// The value of the chain: the first operator is applied to the first
/// operand and to the value of the rest of the chain. The first operand is
/// evaluated first, so its error comes before any error of the rest.
pub open spec fn chain_value(first: Operand, rest: Seq<Link>, s: Session) -> Result<i32, CalcError>
    decreases rest.len(),
{
    if rest.len() == 0 {
        first.value(s)
    } else {
        match first.value(s) {
            Err(err) => Err(err),
            Ok(a) => match chain_value(rest[0].operand, rest.skip(1), s) {
                Err(err) => Err(err),
                Ok(b) => apply(rest[0].operator, a, b),
            },
        }
    }
}

/// The tokens of a chain that is followed by a text which starts with a
/// delimiter, or by nothing, are the tokens of the chain and then those of
/// that text.
pub proof fn lemma_lex_chain_then(first: Operand, rest: Seq<Link>, s: Session, tail: Seq<char>)
    requires
        chain_known(first, rest, s),
        tail.len() == 0 || is_delimiter(tail[0]),
    ensures
        lex(chain_text(first, rest) + tail) == match lex(tail) {
            Some(more) => Some(chain_tokens(first, rest) + more),
            None => None,
        },
    decreases rest.len(),
{
    let after = if rest.len() == 0 {
        tail
    } else {
        seq![' ', operator_char(rest[0].operator), ' '] + (chain_text(rest[0].operand, rest.skip(1))
            + tail)
    };
    assert(chain_text(first, rest) + tail =~= first.text() + after);
    assert(after.len() == 0 || is_delimiter(after[0]));
    match first {
        Operand::Literal(lit) => {
            lemma_lex_literal(lit, after);
        },
        Operand::Name(name) => {
            lemma_lex_word(name, after);
        },
    }
    assert(lex(first.text() + after) == followed(first.lexeme(), lex(after)));
    if rest.len() == 0 {
        if let Some(more) = lex(tail) {
            assert(seq![first.lexeme()] + more =~= chain_tokens(first, rest) + more);
        }
    } else {
        let next = rest[0].operand;
        let more = rest.skip(1);
        assert(rest[0].operand.known(s));
        assert forall|i: int| 0 <= i < more.len() implies (#[trigger] more[i]).operand.known(s) by {
            assert(more[i] == rest[i + 1]);
        }
        lemma_lex_chain_then(next, more, s, tail);
        lemma_lex_operator(rest[0].operator, chain_text(next, more) + tail);
        if let Some(last) = lex(tail) {
            assert(seq![first.lexeme()] + (seq![operator_lexeme(rest[0].operator)] + (chain_tokens(
                next,
                more,
            ) + last)) =~= chain_tokens(first, rest) + last);
        }
    }
}

/// The text of a chain is the tokens of the chain.
pub proof fn lemma_lex_chain(first: Operand, rest: Seq<Link>, s: Session)
    requires
        chain_known(first, rest, s),
    ensures
        lex(chain_text(first, rest)) == Some(chain_tokens(first, rest)),
{
    lemma_lex_chain_then(first, rest, s, Seq::empty());
    assert(chain_text(first, rest) + Seq::<char>::empty() =~= chain_text(first, rest));
    assert(chain_tokens(first, rest) + Seq::<Lexeme>::empty() =~= chain_tokens(first, rest));
}

/// The value of the tree of a chain is the value of the chain.
pub proof fn lemma_chain_tree_value(first: Operand, rest: Seq<Link>, s: Session)
    ensures
        eval(chain_tree(first, rest, s), s.cells) == chain_value(first, rest, s),
    decreases rest.len(),
{
    match first {
        Operand::Literal(lit) => {
            assert(eval(first.expr(s), s.cells) == first.value(s));
        },
        Operand::Name(name) => {
            assert(eval(first.expr(s), s.cells) == first.value(s));
        },
    }
    if rest.len() > 0 {
        lemma_chain_tree_value(rest[0].operand, rest.skip(1), s);
    }
}

/// The parser reads a chain that stands at the end of the input, where no
/// bracket is open, to its end, and leaves the tree of the chain as one more
/// operand. Nothing else changes.
pub proof fn lemma_parse_chain(m: Machine, read: Seq<Lexeme>, first: Operand, rest: Seq<Link>)
    requires
        m.tokens == read + chain_tokens(first, rest),
        m.tokens.len() <= MAX_TOKENS,
        m.pos == read.len(),
        m.depth == 0,
        chain_known(first, rest, Session { vars: m.vars, cells: m.cells }),
    ensures
        m.parse() == (Machine {
            pos: m.tokens.len(),
            stack: m.stack.push(chain_tree(first, rest, Session { vars: m.vars, cells: m.cells })),
            ..m
        }).done(),
    decreases rest.len(),
{
    let s = Session { vars: m.vars, cells: m.cells };
    let chain = chain_tokens(first, rest);
    assert(m.tokens[m.pos as int] == chain[0]);
    assert(chain[0] == first.lexeme());
    let m1 = m.advance().push(first.expr(s));
    assert(m.parse() == m1.parse()) by {
        match first {
            Operand::Literal(lit) => {},
            Operand::Name(name) => {},
        }
    }
    if rest.len() == 0 {
        assert(m1.pos == m.tokens.len());
        assert(m1.parse() == m1.done());
    } else {
        let op = rest[0].operator;
        let next = rest[0].operand;
        let more = rest.skip(1);
        assert(chain[1] == operator_lexeme(op));
        assert(m.tokens[m.pos as int + 1] == chain[1]);
        assert(m.tokens.len() == read.len() + 2 + chain_tokens(next, more).len());
        lemma_operator_step(m1, op);
        let m2 = m1.advance();
        let read2 = read + seq![first.lexeme(), operator_lexeme(op)];
        assert(m.tokens =~= read2 + chain_tokens(next, more));
        assert(next.known(s));
        assert forall|i: int| 0 <= i < more.len() implies (#[trigger] more[i]).operand.known(s) by {
            assert(more[i] == rest[i + 1]);
        }
        lemma_parse_chain(m2, read2, next, more);
        let m3 = Machine {
            pos: m.tokens.len(),
            stack: m1.stack.push(chain_tree(next, more, s)),
            ..m2
        };
        assert(m2.parse() == m3.done());
        let m4 = m3.combine(op).machine;
        assert(m3.stack.len() >= 2);
        assert(m3.combine(op).result is Ok);
        assert(m3.stack.take(m3.stack.len() - 2) =~= m.stack);
        assert(m4.stack =~= m.stack.push(chain_tree(first, rest, s)));
        assert(m1.precedes(m4));
        assert(m4.parse() == m4.done());
    }
}

/// The operands of the chain, as the parser puts them on the stack before
/// any operator of the chain takes them.
pub open spec fn chain_operands(first: Operand, rest: Seq<Link>, s: Session) -> Seq<Expr>
    decreases rest.len(),
{
    if rest.len() == 0 {
        seq![first.expr(s)]
    } else {
        seq![first.expr(s)] + chain_operands(rest[0].operand, rest.skip(1), s)
    }
}

/// The operators of a chain wait until what follows the chain is read: if
/// the run that starts behind the last operand fails, the chain fails in the
/// same way, with all its operands on the stack.
pub proof fn lemma_parse_chain_fails(
    m: Machine,
    read: Seq<Lexeme>,
    first: Operand,
    rest: Seq<Link>,
    after: Seq<Lexeme>,
)
    requires
        m.tokens == read + chain_tokens(first, rest) + after,
        m.tokens.len() <= MAX_TOKENS,
        m.pos == read.len(),
        chain_known(first, rest, Session { vars: m.vars, cells: m.cells }),
        (Machine {
            pos: (read.len() + chain_tokens(first, rest).len()) as nat,
            stack: m.stack + chain_operands(first, rest, Session { vars: m.vars, cells: m.cells }),
            ..m
        }).parse().result is Err,
    ensures
        m.parse() == (Machine {
            pos: (read.len() + chain_tokens(first, rest).len()) as nat,
            stack: m.stack + chain_operands(first, rest, Session { vars: m.vars, cells: m.cells }),
            ..m
        }).parse(),
    decreases rest.len(),
{
    let s = Session { vars: m.vars, cells: m.cells };
    let chain = chain_tokens(first, rest);
    let reached = Machine {
        pos: (read.len() + chain.len()) as nat,
        stack: m.stack + chain_operands(first, rest, s),
        ..m
    };
    assert(m.tokens[m.pos as int] == chain[0]);
    assert(chain[0] == first.lexeme());
    let m1 = m.advance().push(first.expr(s));
    assert(m.parse() == m1.parse()) by {
        match first {
            Operand::Literal(lit) => {},
            Operand::Name(name) => {},
        }
    }
    if rest.len() == 0 {
        assert(m1.stack =~= reached.stack);
        assert(m1 == reached);
    } else {
        let op = rest[0].operator;
        let next = rest[0].operand;
        let more = rest.skip(1);
        assert(chain[1] == operator_lexeme(op));
        assert(m.tokens[m.pos as int + 1] == chain[1]);
        lemma_operator_step(m1, op);
        let m2 = m1.advance();
        let read2 = read + seq![first.lexeme(), operator_lexeme(op)];
        assert(m.tokens =~= read2 + chain_tokens(next, more) + after);
        assert(next.known(s));
        assert forall|i: int| 0 <= i < more.len() implies (#[trigger] more[i]).operand.known(s) by {
            assert(more[i] == rest[i + 1]);
        }
        let reached2 = Machine {
            pos: (read2.len() + chain_tokens(next, more).len()) as nat,
            stack: m2.stack + chain_operands(next, more, s),
            ..m2
        };
        assert(reached2.stack =~= reached.stack);
        assert(reached2 == reached);
        lemma_parse_chain_fails(m2, read2, next, more, after);
    }
}

/// A chain of `n` operators has `2 * n + 1` tokens.
pub proof fn lemma_chain_length(first: Operand, rest: Seq<Link>)
    ensures
        chain_tokens(first, rest).len() == 2 * rest.len() + 1,
    decreases rest.len(),
{
    if rest.len() > 0 {
        lemma_chain_length(rest[0].operand, rest.skip(1));
    }
}

/// A chain groups to the right: the statement `a op b op c ..` has the value
/// of `a op (b op (c ..))`, which is not what the usual precedence of the
/// operators gives. The statement changes nothing.
pub proof fn law_chain_groups_to_the_right(first: Operand, rest: Seq<Link>, s: Session)
    requires
        chain_known(first, rest, s),
        chain_tokens(first, rest).len() <= MAX_TOKENS,
    ensures
        interpret(chain_text(first, rest), s) == (Answer {
            session: s,
            result: chain_value(first, rest, s),
        }),
{
    lemma_lex_chain(first, rest, s);
    let m = Machine::start(chain_tokens(first, rest), s.vars, s.cells);
    assert(Seq::<Lexeme>::empty() + chain_tokens(first, rest) =~= chain_tokens(first, rest));
    lemma_parse_chain(m, Seq::empty(), first, rest);
    lemma_chain_tree_value(first, rest, s);
    let after = m.parse().machine;
    assert(after.stack =~= seq![chain_tree(first, rest, s)]);
}

/// The statement `name = chain`.
pub open spec fn chain_assignment_text(name: Seq<char>, first: Operand, rest: Seq<Link>) -> Seq<
    char,
> {
    name + (seq![' ', '=', ' '] + chain_text(first, rest))
}

/// Assigning a chain to a declared variable writes the value of the chain
/// into the variable's cell, and the statement has that value. If the chain
/// has no value the statement fails with the chain's error and changes
/// nothing.
pub proof fn law_chain_assignment(name: Seq<char>, first: Operand, rest: Seq<Link>, s: Session)
    requires
        is_name(name),
        s.vars.contains_key(name),
        s.vars[name] < s.cells.len(),
        chain_known(first, rest, s),
        chain_tokens(first, rest).len() + 2 <= MAX_TOKENS,
    ensures
        interpret(chain_assignment_text(name, first, rest), s) == match chain_value(first, rest, s) {
            Ok(v) => Answer {
                session: Session { vars: s.vars, cells: s.cells.update(s.vars[name] as int, Some(v)) },
                result: Ok(v),
            },
            Err(err) => Answer { session: s, result: Err(err) },
        },
{
    let h = s.vars[name];
    let chain = chain_tokens(first, rest);
    let text = chain_assignment_text(name, first, rest);
    // the tokens
    let t3 = chain_text(first, rest);
    let t2 = seq![' '] + t3;
    let t1 = seq!['='] + t2;
    let t0 = seq![' '] + t1;
    assert(text =~= name + t0);
    assert(t0[0] == ' ');
    lemma_lex_word(name, t0);
    lemma_lex_space(t1);
    lemma_lex_punctuation('=', t2);
    lemma_lex_space(t3);
    lemma_lex_chain(first, rest, s);
    let read = seq![Lexeme::Sym(name), Lexeme::Asgn];
    let tokens = read + chain;
    assert(seq![Lexeme::Sym(name)] + (seq![Lexeme::Asgn] + chain) =~= tokens);
    assert(lex(text) == Some(tokens));
    // the run
    let m0 = Machine::start(tokens, s.vars, s.cells);
    let m1 = m0.advance().push(Expr::Var(name, h));
    let m2 = m1.advance();
    assert(tokens[0] == Lexeme::Sym(name));
    assert(tokens[1] == Lexeme::Asgn);
    assert(m0.parse() == m1.parse());
    lemma_parse_chain(m2, read, first, rest);
    let tree = chain_tree(first, rest, s);
    let m3 = Machine { pos: tokens.len(), stack: m1.stack.push(tree), ..m2 };
    assert(m2.parse() == m3.done());
    lemma_chain_tree_value(first, rest, s);
    assert(m3.stack.len() == 2);
    assert(m3.stack[0] == Expr::Var(name, h));
    assert(m3.stack[1] == tree);
    let m4 = m3.assign().machine;
    assert(m1.parse() == ({
        let reduced = m3.assign();
        if reduced.result is Err || !m1.precedes(reduced.machine) {
            reduced
        } else {
            reduced.machine.parse()
        }
    }));
    match chain_value(first, rest, s) {
        Ok(v) => {
            assert(m3.assign().result is Ok);
            assert(m1.precedes(m4));
            assert(m4.parse() == m4.done());
            assert(m4.stack =~= seq![Expr::Var(name, h)]);
            assert(m4.cells == s.cells.update(h as int, Some(v)));
            assert(store(s.cells, h, v) == Ok::<Seq<Option<i32>>, CalcError>(m4.cells));
        },
        Err(err) => {
            assert(m3.assign().result == Err::<(), CalcError>(err));
        },
    }
}

/// The statement `let name = chain`.
pub open spec fn chain_declaration_text(name: Seq<char>, first: Operand, rest: Seq<Link>) -> Seq<
    char,
> {
    keyword_let() + (seq![' '] + (name + (seq![' ', '=', ' '] + chain_text(first, rest))))
}

/// The tokens of the statement `let name = chain`.
pub open spec fn chain_declaration_tokens(name: Seq<char>, first: Operand, rest: Seq<Link>) -> Seq<
    Lexeme,
> {
    seq![Lexeme::DecVar, Lexeme::Sym(name), Lexeme::Asgn] + chain_tokens(first, rest)
}

/// The text `let name = chain` is the tokens of that statement.
pub proof fn lemma_lex_chain_declaration(
    name: Seq<char>,
    first: Operand,
    rest: Seq<Link>,
    s: Session,
)
    requires
        is_name(name),
        chain_known(first, rest, s),
    ensures
        lex(chain_declaration_text(name, first, rest)) == Some(
            chain_declaration_tokens(name, first, rest),
        ),
{
    let chain = chain_tokens(first, rest);
    let t5 = chain_text(first, rest);
    let t4 = seq![' '] + t5;
    let t3 = seq!['='] + t4;
    let t2 = seq![' '] + t3;
    let t1 = name + t2;
    let t0 = seq![' '] + t1;
    assert(chain_declaration_text(name, first, rest) =~= keyword_let() + t0);
    assert(name + (seq![' ', '=', ' '] + t5) =~= t1);
    lemma_lex_chain(first, rest, s);
    lemma_lex_space(t5);
    lemma_lex_punctuation('=', t4);
    lemma_lex_space(t3);
    assert(t2[0] == ' ');
    lemma_lex_word(name, t2);
    lemma_lex_space(t1);
    assert(t0[0] == ' ');
    lemma_lex_word(keyword_let(), t0);
    assert(seq![Lexeme::DecVar] + (seq![Lexeme::Sym(name)] + (seq![Lexeme::Asgn] + chain))
        =~= chain_declaration_tokens(name, first, rest));
}

/// Declaring a name with a value binds the name to a new cell, whether the
/// name was bound before or not, and then assigns the value of the chain to
/// it. The chain is read after the name is bound anew, so the name stands in
/// it for the new variable. The cells that were there stay as they are. If
/// the chain has no value the statement fails with the chain's error, and the
/// name stays bound to the new, empty cell.
pub proof fn law_declaration_with_value(
    name: Seq<char>,
    first: Operand,
    rest: Seq<Link>,
    s: Session,
)
    requires
        is_name(name),
        s.cells.len() <= usize::MAX,
        chain_known(first, rest, declared(name, s)),
        chain_tokens(first, rest).len() + 3 <= MAX_TOKENS,
    ensures
        interpret(chain_declaration_text(name, first, rest), s) == match chain_value(
            first,
            rest,
            declared(name, s),
        ) {
            Ok(v) => Answer {
                session: Session {
                    vars: declared(name, s).vars,
                    cells: s.cells.push(Some(v)),
                },
                result: Ok(v),
            },
            Err(err) => Answer { session: declared(name, s), result: Err(err) },
        },
{
    let s1 = declared(name, s);
    let h = s.cells.len() as usize;
    let chain = chain_tokens(first, rest);
    let read = seq![Lexeme::DecVar, Lexeme::Sym(name), Lexeme::Asgn];
    let tokens = read + chain;
    lemma_lex_chain_declaration(name, first, rest, s1);
    let m0 = Machine::start(tokens, s.vars, s.cells);
    let m1 = m0.advance();
    let m2 = m1.advance().push(Expr::Sym(name));
    let m3 = m2.declare(0).machine;
    assert(tokens[0] == Lexeme::DecVar);
    assert(tokens[1] == Lexeme::Sym(name));
    assert(tokens[2] == Lexeme::Asgn);
    assert(m1.names_here());
    assert(m0.nested(Lexeme::DecVar) == m2.done());
    assert(m2.stack.len() == 1);
    assert(m2.stack.last() == Expr::Sym(name));
    assert(m2.declare(0).result is Ok);
    assert(m0.precedes(m3));
    assert(m0.parse() == m3.parse());
    assert(m3.stack =~= seq![Expr::Var(name, h)]);
    assert(m3.vars == s1.vars && m3.cells == s1.cells);
    // the assignment
    let m4 = m3.advance();
    lemma_parse_chain(m4, read, first, rest);
    let tree = chain_tree(first, rest, s1);
    let m5 = Machine { pos: tokens.len(), stack: m4.stack.push(tree), ..m4 };
    assert(m3.nested(Lexeme::Asgn) == m5.done());
    lemma_chain_tree_value(first, rest, s1);
    assert(m5.stack.len() == 2);
    assert(m5.stack[0] == Expr::Var(name, h));
    assert(m5.stack[1] == tree);
    let m6 = m5.assign().machine;
    assert(m3.parse() == ({
        let reduced = m5.assign();
        if reduced.result is Err || !m3.precedes(reduced.machine) {
            reduced
        } else {
            reduced.machine.parse()
        }
    }));
    match chain_value(first, rest, s1) {
        Ok(v) => {
            assert(store(s1.cells, h, v) is Ok);
            assert(m5.assign().result is Ok);
            assert(m3.precedes(m6));
            assert(m6.parse() == m6.done());
            assert(m6.stack =~= seq![Expr::Var(name, h)]);
            assert(m6.cells =~= s.cells.push(Some(v)));
        },
        Err(err) => {
            assert(m5.assign().result == Err::<(), CalcError>(err));
        },
    }
}

} // verus!
