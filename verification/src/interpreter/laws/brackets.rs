//! What holds of statements with brackets.
//!
//! A closing bracket ends the run of the operator before it, so that
//! operator takes its operands at once: in `[a op1 b] op2 ..` the group is
//! computed first. A bracket that has no partner makes the statement fail.

use vstd::prelude::*;
use crate::error::CalcError;
use crate::interpreter::expr::{apply, eval, operator_char, Expr, Operator};
use crate::interpreter::laws::chains::{
    chain_known, chain_operands, chain_text, chain_tokens, chain_tree, chain_value,
    lemma_chain_tree_value, lemma_lex_chain, lemma_lex_chain_then, lemma_parse_chain,
    lemma_parse_chain_fails, Link, Operand,
};
use crate::interpreter::laws::lexing::{
    is_literal, lemma_lex_literal, lemma_lex_literal_alone, lemma_lex_operator,
    lemma_lex_punctuation, lemma_lex_word, operator_lexeme,
};
use crate::interpreter::laws::statements::lemma_operator_step;
use crate::interpreter::lexer::{followed, is_delimiter, lex, number_value, Lexeme};
use crate::interpreter::machine::{Machine, MAX_TOKENS};
use crate::interpreter::{interpret, run, Answer, Session};

verus! {

/// The statement `[a op1 b] op2 c`.
pub open spec fn grouped_text(
    a: Seq<char>,
    op1: Operator,
    b: Seq<char>,
    op2: Operator,
    c: Seq<char>,
) -> Seq<char> {
    seq!['['] + a + seq![' ', operator_char(op1), ' '] + b + seq![
        ']',
        ' ',
        operator_char(op2),
        ' ',
    ] + c
}

/// The tokens of the statement `[a op1 b] op2 c`.
pub open spec fn grouped_tokens(a: i32, op1: Operator, b: i32, op2: Operator, c: i32) -> Seq<
    Lexeme,
> {
    seq![
        Lexeme::OpenBlock,
        Lexeme::Int(a),
        operator_lexeme(op1),
        Lexeme::Int(b),
        Lexeme::CloseBlock,
        operator_lexeme(op2),
        Lexeme::Int(c),
    ]
}

/// The value of `(a op1 b) op2 c`: the group is computed first, and its
/// error, if it has one, is the error of the whole.
pub open spec fn grouped_value(a: i32, op1: Operator, b: i32, op2: Operator, c: i32) -> Result<
    i32,
    CalcError,
> {
    match apply(op1, a, b) {
        Ok(v) => apply(op2, v, c),
        Err(err) => Err(err),
    }
}

/// The text `[a op1 b] op2 c` is seven tokens, unless a literal is
/// malformed.
pub proof fn lemma_lex_grouped(
    a: Seq<char>,
    op1: Operator,
    b: Seq<char>,
    op2: Operator,
    c: Seq<char>,
)
    requires
        is_literal(a),
        is_literal(b),
        is_literal(c),
    ensures
        lex(grouped_text(a, op1, b, op2, c)) == if number_value(a) is Some && number_value(b) is Some
            && number_value(c) is Some {
            Some(
                grouped_tokens(
                    number_value(a)->0,
                    op1,
                    number_value(b)->0,
                    op2,
                    number_value(c)->0,
                ),
            )
        } else {
            None
        },
{
    let t5 = seq![' ', operator_char(op2), ' '] + c;
    let t4 = seq![']'] + t5;
    let t3 = b + t4;
    let t2 = seq![' ', operator_char(op1), ' '] + t3;
    let t1 = a + t2;
    let t0 = seq!['['] + t1;
    assert(grouped_text(a, op1, b, op2, c) =~= t0);
    lemma_lex_literal_alone(c);
    lemma_lex_operator(op2, c);
    lemma_lex_punctuation(']', t5);
    assert(t4[0] == ']');
    lemma_lex_literal(b, t4);
    lemma_lex_operator(op1, t3);
    assert(t2[0] == ' ');
    lemma_lex_literal(a, t2);
    lemma_lex_punctuation('[', t1);
    if number_value(a) is Some && number_value(b) is Some && number_value(c) is Some {
        let x = Lexeme::Int(number_value(a)->0);
        let y = Lexeme::Int(number_value(b)->0);
        let z = Lexeme::Int(number_value(c)->0);
        let o1 = operator_lexeme(op1);
        let o2 = operator_lexeme(op2);
        assert(seq![Lexeme::OpenBlock] + (seq![x] + (seq![o1] + (seq![y] + (seq![
            Lexeme::CloseBlock,
        ] + (seq![o2] + seq![z]))))) =~= grouped_tokens(
            number_value(a)->0,
            op1,
            number_value(b)->0,
            op2,
            number_value(c)->0,
        ));
    }
}

/// The statement of the tokens `[a op1 b] op2 c` has the value of
/// `(a op1 b) op2 c`, and changes nothing.
pub proof fn lemma_run_grouped(a: i32, op1: Operator, b: i32, op2: Operator, c: i32, s: Session)
    ensures
        run(grouped_tokens(a, op1, b, op2, c), s) == (Answer {
            session: s,
            result: grouped_value(a, op1, b, op2, c),
        }),
{
    let tokens = grouped_tokens(a, op1, b, op2, c);
    let m0 = Machine::start(tokens, s.vars, s.cells);
    let m1 = m0.enter(Lexeme::OpenBlock);
    let m2 = m1.advance().push(Expr::Num(a));
    let m3 = m2.advance();
    let m4 = m3.advance().push(Expr::Num(b));
    let m5 = m4.close().machine;
    let m6 = m5.combine(op1).machine;
    let m7 = m6.advance();
    let m8 = m7.advance().push(Expr::Num(c));
    let m9 = m8.combine(op2).machine;
    let m10 = m9.enclose().machine;
    let group = Expr::Op(op1, Some(Box::new(Expr::Num(a))), Some(Box::new(Expr::Num(b))));
    let whole = Expr::Op(op2, Some(Box::new(group)), Some(Box::new(Expr::Num(c))));
    // the inner operator, ended by the closing bracket
    assert(m4.parse() == m5.done());
    assert(m3.parse() == m4.parse());
    lemma_operator_step(m2, op1);
    assert(m4.stack.len() == 2);
    assert(m5.combine(op1).result is Ok);
    assert(m2.precedes(m6));
    assert(m6.stack =~= seq![group]);
    // the outer operator, ended by the end of the input
    assert(m8.parse() == m8.done());
    assert(m7.parse() == m8.parse());
    lemma_operator_step(m6, op2);
    assert(m8.stack.len() == 2);
    assert(m8.combine(op2).result is Ok);
    assert(m6.precedes(m9));
    assert(m9.stack =~= seq![whole]);
    assert(m9.parse() == m9.done());
    assert(m6.parse() == m9.done());
    assert(m2.parse() == m9.done());
    assert(m1.parse() == m2.parse());
    // the bracket takes everything as its body
    assert(m0.parse() == ({
        let reduced = m9.reduce(Lexeme::OpenBlock, m0.stack.len());
        if reduced.result is Err || !m0.precedes(reduced.machine) {
            reduced
        } else {
            reduced.machine.parse()
        }
    }));
    assert(m9.enclose().result is Ok);
    assert(m0.precedes(m10));
    assert(m10.parse() == m10.done());
    assert(m10.stack =~= seq![Expr::Block(Some(Box::new(whole)))]);
    assert(eval(Expr::Num(a), s.cells) == Ok::<i32, CalcError>(a));
    assert(eval(Expr::Num(b), s.cells) == Ok::<i32, CalcError>(b));
    assert(eval(Expr::Num(c), s.cells) == Ok::<i32, CalcError>(c));
    assert(eval(group, s.cells) == apply(op1, a, b));
    assert(eval(whole, s.cells) == grouped_value(a, op1, b, op2, c));
    assert(eval(m10.stack[0], s.cells) == eval(whole, s.cells));
}

/// For literals `a`, `b` and `c`, the statement `[a op1 b] op2 c` computes
/// the bracketed group first and combines its value with `c`. It fails with
/// `LexError` if a literal is malformed, and changes nothing.
pub proof fn law_bracketed_group_first(
    a: Seq<char>,
    op1: Operator,
    b: Seq<char>,
    op2: Operator,
    c: Seq<char>,
    s: Session,
)
    requires
        is_literal(a),
        is_literal(b),
        is_literal(c),
    ensures
        interpret(grouped_text(a, op1, b, op2, c), s).result == if number_value(a) is Some
            && number_value(b) is Some && number_value(c) is Some {
            grouped_value(number_value(a)->0, op1, number_value(b)->0, op2, number_value(c)->0)
        } else {
            Err(CalcError::LexError)
        },
        interpret(grouped_text(a, op1, b, op2, c), s).session == s,
{
    lemma_lex_grouped(a, op1, b, op2, c);
    if number_value(a) is Some && number_value(b) is Some && number_value(c) is Some {
        lemma_run_grouped(
            number_value(a)->0,
            op1,
            number_value(b)->0,
            op2,
            number_value(c)->0,
            s,
        );
    }
}

/// A chain behind an opening bracket that is never closed fails with
/// `UnbalancedBrackets`, and changes nothing.
pub proof fn law_unclosed_bracket(first: Operand, rest: Seq<Link>, s: Session)
    requires
        chain_known(first, rest, s),
        chain_tokens(first, rest).len() + 1 <= MAX_TOKENS,
    ensures
        interpret(seq!['['] + chain_text(first, rest), s) == (Answer {
            session: s,
            result: Err(CalcError::UnbalancedBrackets),
        }),
{
    let chain = chain_tokens(first, rest);
    lemma_lex_chain(first, rest, s);
    lemma_lex_punctuation('[', chain_text(first, rest));
    let read = seq![Lexeme::OpenBlock];
    let tokens = read + chain;
    let m0 = Machine::start(tokens, s.vars, s.cells);
    let m1 = m0.enter(Lexeme::OpenBlock);
    let reached = Machine {
        pos: (read.len() + chain.len()) as nat,
        stack: m1.stack + chain_operands(first, rest, s),
        ..m1
    };
    assert(tokens =~= read + chain + Seq::<Lexeme>::empty());
    assert(reached.parse() == reached.failed(CalcError::UnbalancedBrackets));
    lemma_parse_chain_fails(m1, read, first, rest, Seq::empty());
    assert(tokens[0] == Lexeme::OpenBlock);
    assert(m0.parse() == m1.parse());
}

/// A chain followed by a closing bracket that no bracket opened fails with
/// `BracketError`, and changes nothing.
pub proof fn law_unopened_bracket(first: Operand, rest: Seq<Link>, s: Session)
    requires
        chain_known(first, rest, s),
        chain_tokens(first, rest).len() + 1 <= MAX_TOKENS,
    ensures
        interpret(chain_text(first, rest) + seq![']'], s) == (Answer {
            session: s,
            result: Err(CalcError::BracketError),
        }),
{
    let chain = chain_tokens(first, rest);
    let tail = seq![']'];
    assert(tail[0] == ']');
    lemma_lex_chain_then(first, rest, s, tail);
    lemma_lex_punctuation(']', Seq::empty());
    assert(seq![']'] + Seq::<char>::empty() =~= tail);
    let after = seq![Lexeme::CloseBlock];
    assert(seq![Lexeme::CloseBlock] + Seq::<Lexeme>::empty() =~= after);
    let tokens = chain + after;
    assert(lex(chain_text(first, rest) + tail) == Some(tokens));
    let m0 = Machine::start(tokens, s.vars, s.cells);
    let reached = Machine {
        pos: chain.len() as nat,
        stack: m0.stack + chain_operands(first, rest, s),
        ..m0
    };
    assert(tokens =~= Seq::<Lexeme>::empty() + chain + after);
    assert(tokens[chain.len() as int] == Lexeme::CloseBlock);
    assert(reached.parse() == reached.failed(CalcError::BracketError));
    lemma_parse_chain_fails(m0, Seq::empty(), first, rest, after);
}

/// The statement `[a op1 b] op2 chain`.
pub open spec fn group_then_chain_text(
    a: Operand,
    op1: Operator,
    b: Operand,
    op2: Operator,
    first: Operand,
    rest: Seq<Link>,
) -> Seq<char> {
    seq!['['] + (a.text() + (seq![' ', operator_char(op1), ' '] + (b.text() + (seq![']'] + (seq![
        ' ',
        operator_char(op2),
        ' ',
    ] + chain_text(first, rest))))))
}

/// The value of `(a op1 b) op2 chain`: the group is computed first, then the
/// chain, then `op2` is applied to the two.
pub open spec fn group_then_chain_value(
    a: Operand,
    op1: Operator,
    b: Operand,
    op2: Operator,
    first: Operand,
    rest: Seq<Link>,
    s: Session,
) -> Result<i32, CalcError> {
    match chain_value(a, seq![Link { operator: op1, operand: b }], s) {
        Err(err) => Err(err),
        Ok(v) => match chain_value(first, rest, s) {
            Err(err) => Err(err),
            Ok(w) => apply(op2, v, w),
        },
    }
}

/// The tokens of the statement `[a op1 b] op2 chain`.
pub open spec fn group_then_chain_tokens(
    a: Operand,
    op1: Operator,
    b: Operand,
    op2: Operator,
    first: Operand,
    rest: Seq<Link>,
) -> Seq<Lexeme> {
    seq![
        Lexeme::OpenBlock,
        a.lexeme(),
        operator_lexeme(op1),
        b.lexeme(),
        Lexeme::CloseBlock,
        operator_lexeme(op2),
    ] + chain_tokens(first, rest)
}

/// The tree of the statement `[a op1 b] op2 chain`: the block holds the
/// outer operator, whose left operand is the group.
pub open spec fn group_then_chain_tree(
    a: Operand,
    op1: Operator,
    b: Operand,
    op2: Operator,
    first: Operand,
    rest: Seq<Link>,
    s: Session,
) -> Expr {
    Expr::Block(
        Some(
            Box::new(
                Expr::Op(
                    op2,
                    Some(
                        Box::new(
                            Expr::Op(op1, Some(Box::new(a.expr(s))), Some(Box::new(b.expr(s)))),
                        ),
                    ),
                    Some(Box::new(chain_tree(first, rest, s))),
                ),
            ),
        ),
    )
}

/// An operand in front of a text that starts with a delimiter adds its
/// token.
pub proof fn lemma_lex_operand(operand: Operand, s: Session, tail: Seq<char>)
    requires
        operand.known(s),
        tail.len() == 0 || is_delimiter(tail[0]),
    ensures
        lex(operand.text() + tail) == followed(operand.lexeme(), lex(tail)),
{
    match operand {
        Operand::Literal(lit) => {
            lemma_lex_literal(lit, tail);
        },
        Operand::Name(name) => {
            lemma_lex_word(name, tail);
        },
    }
}

/// The text `[a op1 b] op2 chain` is the tokens of that statement.
pub proof fn lemma_lex_group_then_chain(
    a: Operand,
    op1: Operator,
    b: Operand,
    op2: Operator,
    first: Operand,
    rest: Seq<Link>,
    s: Session,
)
    requires
        a.known(s),
        b.known(s),
        chain_known(first, rest, s),
    ensures
        lex(group_then_chain_text(a, op1, b, op2, first, rest)) == Some(
            group_then_chain_tokens(a, op1, b, op2, first, rest),
        ),
{
    let chain = chain_tokens(first, rest);
    let t6 = chain_text(first, rest);
    let t5 = seq![' ', operator_char(op2), ' '] + t6;
    let t4 = seq![']'] + t5;
    let t3 = b.text() + t4;
    let t2 = seq![' ', operator_char(op1), ' '] + t3;
    let t1 = a.text() + t2;
    lemma_lex_chain(first, rest, s);
    lemma_lex_operator(op2, t6);
    lemma_lex_punctuation(']', t5);
    assert(t4[0] == ']');
    lemma_lex_operand(b, s, t4);
    lemma_lex_operator(op1, t3);
    assert(t2[0] == ' ');
    lemma_lex_operand(a, s, t2);
    lemma_lex_punctuation('[', t1);
    assert(seq![Lexeme::OpenBlock] + (seq![a.lexeme()] + (seq![operator_lexeme(op1)] + (seq![
        b.lexeme(),
    ] + (seq![Lexeme::CloseBlock] + (seq![operator_lexeme(op2)] + chain))))) =~= group_then_chain_tokens(
        a,
        op1,
        b,
        op2,
        first,
        rest,
    ));
}

/// What a machine that stands before a known operand does: the operand is
/// put on the stack and the run reads on.
pub proof fn lemma_operand_step(m: Machine, operand: Operand)
    requires
        m.pos < m.tokens.len() <= MAX_TOKENS,
        m.tokens[m.pos as int] == operand.lexeme(),
        operand.known(Session { vars: m.vars, cells: m.cells }),
    ensures
        m.parse() == m.advance().push(operand.expr(Session { vars: m.vars, cells: m.cells })).parse(),
{
    match operand {
        Operand::Literal(lit) => {},
        Operand::Name(name) => {},
    }
}

/// The group of `[a op1 b] ..`: from behind the opening bracket, the parser
/// reads the group up to its closing bracket, lets `op1` take its operands,
/// and reads on behind the bracket with the group as one operand.
pub proof fn lemma_parse_group(m: Machine, a: Operand, op1: Operator, b: Operand)
    requires
        m.pos + 4 <= m.tokens.len() <= MAX_TOKENS,
        m.depth > 0,
        m.tokens[m.pos as int] == a.lexeme(),
        m.tokens[m.pos as int + 1] == operator_lexeme(op1),
        m.tokens[m.pos as int + 2] == b.lexeme(),
        m.tokens[m.pos as int + 3] == Lexeme::CloseBlock,
        a.known(Session { vars: m.vars, cells: m.cells }),
        b.known(Session { vars: m.vars, cells: m.cells }),
    ensures
        m.parse() == (Machine {
            pos: m.pos + 4,
            depth: (m.depth - 1) as nat,
            stack: m.stack.push(
                Expr::Op(
                    op1,
                    Some(Box::new(a.expr(Session { vars: m.vars, cells: m.cells }))),
                    Some(Box::new(b.expr(Session { vars: m.vars, cells: m.cells }))),
                ),
            ),
            ..m
        }).parse(),
{
    let s = Session { vars: m.vars, cells: m.cells };
    let m2 = m.advance().push(a.expr(s));
    let m3 = m2.advance();
    let m4 = m3.advance().push(b.expr(s));
    let m5 = m4.close().machine;
    let m6 = m5.combine(op1).machine;
    lemma_operand_step(m, a);
    lemma_operand_step(m3, b);
    assert(m4.parse() == m5.done());
    lemma_operator_step(m2, op1);
    assert(m4.stack.len() == m.stack.len() + 2);
    assert(m5.combine(op1).result is Ok);
    assert(m2.precedes(m6));
    assert(m5.stack.take(m5.stack.len() - 2) =~= m.stack);
}

/// The parser makes the tree of the statement `[a op1 b] op2 chain` of its
/// tokens, and changes nothing else.
pub proof fn lemma_run_group_then_chain(
    a: Operand,
    op1: Operator,
    b: Operand,
    op2: Operator,
    first: Operand,
    rest: Seq<Link>,
    s: Session,
)
    requires
        a.known(s),
        b.known(s),
        chain_known(first, rest, s),
        chain_tokens(first, rest).len() + 6 <= MAX_TOKENS,
    ensures
        ({
            let tokens = group_then_chain_tokens(a, op1, b, op2, first, rest);
            let m0 = Machine::start(tokens, s.vars, s.cells);
            m0.parse() == (Machine {
                pos: tokens.len(),
                stack: seq![group_then_chain_tree(a, op1, b, op2, first, rest, s)],
                ..m0
            }).done()
        }),
{
    let chain = chain_tokens(first, rest);
    let read = seq![
        Lexeme::OpenBlock,
        a.lexeme(),
        operator_lexeme(op1),
        b.lexeme(),
        Lexeme::CloseBlock,
        operator_lexeme(op2),
    ];
    let tokens = read + chain;
    let group = Expr::Op(op1, Some(Box::new(a.expr(s))), Some(Box::new(b.expr(s))));
    let tree = chain_tree(first, rest, s);
    let whole = Expr::Op(op2, Some(Box::new(group)), Some(Box::new(tree)));
    let m0 = Machine::start(tokens, s.vars, s.cells);
    let m1 = m0.enter(Lexeme::OpenBlock);
    let m6 = Machine { pos: 5, depth: 0, stack: m1.stack.push(group), ..m1 };
    let m7 = m6.advance();
    assert(tokens[0] == Lexeme::OpenBlock);
    assert(tokens[1] == a.lexeme());
    assert(tokens[2] == operator_lexeme(op1));
    assert(tokens[3] == b.lexeme());
    assert(tokens[4] == Lexeme::CloseBlock);
    assert(tokens[5] == operator_lexeme(op2));
    assert(tokens.len() == 6 + chain.len());
    lemma_parse_group(m1, a, op1, b);
    assert(m1.parse() == m6.parse());
    // the outer operator, which reads the chain to the end of the input
    lemma_operator_step(m6, op2);
    lemma_parse_chain(m7, read, first, rest);
    let m8 = Machine { pos: tokens.len(), stack: m7.stack.push(tree), ..m7 };
    assert(m7.parse() == m8.done());
    let m9 = m8.combine(op2).machine;
    assert(m8.stack.len() == 2);
    assert(m8.combine(op2).result is Ok);
    assert(m6.precedes(m9));
    assert(m9.stack =~= seq![whole]);
    assert(m9.parse() == m9.done());
    assert(m6.parse() == m9.done());
    // the bracket takes everything as its body
    let m10 = m9.enclose().machine;
    assert(m0.parse() == ({
        let reduced = m9.reduce(Lexeme::OpenBlock, m0.stack.len());
        if reduced.result is Err || !m0.precedes(reduced.machine) {
            reduced
        } else {
            reduced.machine.parse()
        }
    }));
    assert(m9.enclose().result is Ok);
    assert(m0.precedes(m10));
    assert(m10.parse() == m10.done());
    assert(m10.stack =~= seq![Expr::Block(Some(Box::new(whole)))]);
}

/// The value of the tree of `[a op1 b] op2 chain` is the value of
/// `(a op1 b) op2 chain`.
pub proof fn lemma_group_then_chain_value(
    a: Operand,
    op1: Operator,
    b: Operand,
    op2: Operator,
    first: Operand,
    rest: Seq<Link>,
    s: Session,
)
    ensures
        eval(group_then_chain_tree(a, op1, b, op2, first, rest, s), s.cells)
            == group_then_chain_value(a, op1, b, op2, first, rest, s),
{
    let group = Expr::Op(op1, Some(Box::new(a.expr(s))), Some(Box::new(b.expr(s))));
    let tree = chain_tree(first, rest, s);
    let whole = Expr::Op(op2, Some(Box::new(group)), Some(Box::new(tree)));
    let links = seq![Link { operator: op1, operand: b }];
    lemma_chain_tree_value(a, links, s);
    assert(links.skip(1) =~= Seq::<Link>::empty());
    assert(chain_tree(b, links.skip(1), s) == b.expr(s));
    assert(chain_tree(a, links, s) == group);
    lemma_chain_tree_value(first, rest, s);
    assert(eval(whole, s.cells) == group_then_chain_value(a, op1, b, op2, first, rest, s));
    assert(eval(Expr::Block(Some(Box::new(whole))), s.cells) == eval(whole, s.cells));
}

/// In the statement `[a op1 b] op2 chain` the bracketed group is computed
/// first, and its value is combined with the value of the chain. The
/// statement changes nothing.
pub proof fn law_group_then_chain(
    a: Operand,
    op1: Operator,
    b: Operand,
    op2: Operator,
    first: Operand,
    rest: Seq<Link>,
    s: Session,
)
    requires
        a.known(s),
        b.known(s),
        chain_known(first, rest, s),
        chain_tokens(first, rest).len() + 6 <= MAX_TOKENS,
    ensures
        interpret(group_then_chain_text(a, op1, b, op2, first, rest), s) == (Answer {
            session: s,
            result: group_then_chain_value(a, op1, b, op2, first, rest, s),
        }),
{
    lemma_lex_group_then_chain(a, op1, b, op2, first, rest, s);
    lemma_run_group_then_chain(a, op1, b, op2, first, rest, s);
    lemma_group_then_chain_value(a, op1, b, op2, first, rest, s);
}

} // verus!
