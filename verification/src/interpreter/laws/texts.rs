//! What holds of the text of a tree.
//!
//! The text of a number that is not negative is a literal of that number,
//! and the text of the tree of a chain is a chain that reads back as the same
//! tree. The text of other trees need not read back: it holds no brackets but
//! those of blocks, and a negative number reads as a subtraction.

use vstd::prelude::*;
use crate::interpreter::expr::{decimal, describe, digit_char, digits, operator_char};
use crate::interpreter::laws::chains::{
    chain_known, chain_text, chain_tokens, chain_tree, chain_value, law_chain_groups_to_the_right,
    lemma_chain_length, Link, Operand,
};
use crate::interpreter::machine::MAX_TOKENS;
use crate::interpreter::laws::lexing::{is_literal, lemma_lex_literal_alone};
use crate::interpreter::lexer::{
    digit_value, digits_value, in_number, is_digit, lex, number_value, points, whole_part, Lexeme,
};
use crate::interpreter::{interpret, Answer, Session};

verus! {

/// The decimal digits of `n` are digits, and their value is `n`.
pub proof fn lemma_digits_value(n: nat)
    ensures
        digits(n).len() > 0,
        forall|k: int| 0 <= k < digits(n).len() ==> is_digit(#[trigger] digits(n)[k]),
        digits_value(digits(n)) == n,
        points(digits(n)) == 0,
    decreases n,
{
    let d = digit_char((n % 10) as int);
    assert(is_digit(d) && digit_value(d) == n % 10);
    if n < 10 {
        assert(digits(n).drop_last() =~= Seq::<char>::empty());
        assert(digits_value(digits(n)) == digits_value(Seq::<char>::empty()) * 10 + digit_value(d));
        assert(points(digits(n)) == points(Seq::<char>::empty()));
    } else {
        lemma_digits_value(n / 10);
        assert(digits(n).drop_last() =~= digits(n / 10));
        assert(digits(n).last() == d);
    }
}

/// The text of a number that is not negative is a literal of that number.
pub proof fn lemma_decimal_is_literal(v: i32)
    requires
        v >= 0,
    ensures
        is_literal(decimal(v as int)),
        number_value(decimal(v as int)) == Some(v),
{
    lemma_digits_value(v as nat);
    let text = decimal(v as int);
    assert(text == digits(v as nat));
    assert forall|k: int| 0 <= k < text.len() implies in_number(#[trigger] text[k]) by {
        assert(is_digit(text[k]));
    }
    assert(is_digit(text[0]));
    assert(whole_part(text) == text);
}

/// The text of a number that is not negative reads back as that number: it
/// is one token, the number itself.
pub proof fn law_number_text_reads_back(v: i32)
    requires
        v >= 0,
    ensures
        lex(decimal(v as int)) == Some(seq![Lexeme::Int(v)]),
{
    lemma_decimal_is_literal(v);
    lemma_lex_literal_alone(decimal(v as int));
}

/// The operand as the text of its node writes it: a literal in the decimal
/// digits of its value, a name as it is.
pub open spec fn canonical(operand: Operand) -> Operand {
    match operand {
        Operand::Literal(lit) => Operand::Literal(decimal(number_value(lit)->0 as int)),
        Operand::Name(name) => Operand::Name(name),
    }
}

/// The links with their operands as the text of their nodes writes them.
pub open spec fn canonical_links(rest: Seq<Link>) -> Seq<Link> {
    Seq::new(
        rest.len(),
        |i: int| Link { operator: rest[i].operator, operand: canonical(rest[i].operand) },
    )
}

/// A known operand written anew is known, and has the same node and the
/// same value.
pub proof fn lemma_canonical_operand(operand: Operand, s: Session)
    requires
        operand.known(s),
    ensures
        canonical(operand).known(s),
        canonical(operand).expr(s) == operand.expr(s),
        canonical(operand).value(s) == operand.value(s),
        canonical(operand).text() == describe(operand.expr(s)),
{
    match operand {
        Operand::Literal(lit) => {
            lemma_decimal_is_literal(number_value(lit)->0);
        },
        Operand::Name(name) => {},
    }
}

/// A known chain written anew is known, has the same tree and the same
/// value, and its text is the text of its tree.
pub proof fn lemma_canonical_chain(first: Operand, rest: Seq<Link>, s: Session)
    requires
        chain_known(first, rest, s),
    ensures
        chain_known(canonical(first), canonical_links(rest), s),
        chain_tree(canonical(first), canonical_links(rest), s) == chain_tree(first, rest, s),
        chain_value(canonical(first), canonical_links(rest), s) == chain_value(first, rest, s),
        chain_text(canonical(first), canonical_links(rest)) == describe(chain_tree(first, rest, s)),
    decreases rest.len(),
{
    lemma_canonical_operand(first, s);
    let links = canonical_links(rest);
    assert forall|i: int| 0 <= i < links.len() implies (#[trigger] links[i]).operand.known(s) by {
        assert(rest[i].operand.known(s));
        lemma_canonical_operand(rest[i].operand, s);
    }
    if rest.len() > 0 {
        let next = rest[0].operand;
        let more = rest.skip(1);
        assert(next.known(s));
        assert forall|i: int| 0 <= i < more.len() implies (#[trigger] more[i]).operand.known(s) by {
            assert(more[i] == rest[i + 1]);
        }
        lemma_canonical_chain(next, more, s);
        assert(links.skip(1) =~= canonical_links(more));
        assert(links[0].operand == canonical(next));
        let left = describe(first.expr(s));
        let middle = seq![' ', operator_char(rest[0].operator), ' '];
        let right = describe(chain_tree(next, more, s));
        assert(left + (middle + right) =~= left + middle + right);
    }
}

/// The text of the tree of a chain reads back: evaluating it gives the
/// value of the chain, and changes nothing.
pub proof fn law_chain_text_reads_back(first: Operand, rest: Seq<Link>, s: Session)
    requires
        chain_known(first, rest, s),
        chain_tokens(first, rest).len() <= MAX_TOKENS,
    ensures
        interpret(describe(chain_tree(first, rest, s)), s) == (Answer {
            session: s,
            result: chain_value(first, rest, s),
        }),
{
    lemma_canonical_chain(first, rest, s);
    lemma_chain_length(first, rest);
    lemma_chain_length(canonical(first), canonical_links(rest));
    law_chain_groups_to_the_right(canonical(first), canonical_links(rest), s);
}

} // verus!
