//! What holds of the tokens of a text.
//!
//! The tokens from a position on depend only on the text from that position
//! on, so the tokens of a text can be read off piece by piece: a literal, a
//! name, a space or a single character in front of a text adds its token to
//! the tokens of that text.

use vstd::prelude::*;
use crate::interpreter::expr::{operator_char, Operator};
use crate::interpreter::lexer::{
    followed, in_number, is_delimiter, is_digit, keyword_let, lemma_name_end_bounds,
    lemma_number_end_bounds, lex, lex_from, name_end, name_token, number_end, number_value,
    punctuation, Lexeme,
};

verus! {

/// `lit` has the form of a numeric literal: it starts with a digit and holds
/// only digits and decimal points.
pub open spec fn is_literal(lit: Seq<char>) -> bool {
    &&& lit.len() > 0
    &&& is_digit(lit[0])
    &&& forall|k: int| 0 <= k < lit.len() ==> in_number(#[trigger] lit[k])
}

/// `name` has the form of a name: it starts with no digit, holds no
/// delimiter, and is not the keyword `let`.
pub open spec fn is_name(name: Seq<char>) -> bool {
    &&& name.len() > 0
    &&& !is_digit(name[0])
    &&& forall|k: int| 0 <= k < name.len() ==> !is_delimiter(#[trigger] name[k])
    &&& name != keyword_let()
}

/// A run of number characters from `i` up to `j`, where the text ends or
/// another character stands, ends at `j`.
pub proof fn lemma_number_run(s: Seq<char>, i: int, j: int)
    requires
        0 <= i <= j <= s.len(),
        forall|k: int| i <= k < j ==> in_number(#[trigger] s[k]),
        j == s.len() || !in_number(s[j]),
    ensures
        number_end(s, i) == j,
    decreases j - i,
{
    if i < j {
        lemma_number_run(s, i + 1, j);
    }
}

/// A run of characters that are no delimiters from `i` up to `j`, where the
/// text ends or a delimiter stands, ends at `j`.
pub proof fn lemma_name_run(s: Seq<char>, i: int, j: int)
    requires
        0 <= i <= j <= s.len(),
        forall|k: int| i <= k < j ==> !is_delimiter(#[trigger] s[k]),
        j == s.len() || is_delimiter(s[j]),
    ensures
        name_end(s, i) == j,
    decreases j - i,
{
    if i < j {
        lemma_name_run(s, i + 1, j);
    }
}

/// Where a run of number characters ends does not depend on what stands
/// before it.
pub proof fn lemma_number_end_shift(before: Seq<char>, rest: Seq<char>, i: int)
    requires
        0 <= i <= rest.len(),
    ensures
        number_end(before + rest, before.len() + i) == before.len() + number_end(rest, i),
    decreases rest.len() - i,
{
    if i < rest.len() {
        assert((before + rest)[before.len() + i] == rest[i]);
        if in_number(rest[i]) {
            lemma_number_end_shift(before, rest, i + 1);
        }
    }
}

/// Where a name ends does not depend on what stands before it.
pub proof fn lemma_name_end_shift(before: Seq<char>, rest: Seq<char>, i: int)
    requires
        0 <= i <= rest.len(),
    ensures
        name_end(before + rest, before.len() + i) == before.len() + name_end(rest, i),
    decreases rest.len() - i,
{
    if i < rest.len() {
        assert((before + rest)[before.len() + i] == rest[i]);
        if !is_delimiter(rest[i]) {
            lemma_name_end_shift(before, rest, i + 1);
        }
    }
}

/// The tokens from a position on do not depend on what stands before it.
pub proof fn lemma_lex_shift(before: Seq<char>, rest: Seq<char>, i: int)
    requires
        0 <= i <= rest.len(),
    ensures
        lex_from(before + rest, before.len() + i) == lex_from(rest, i),
    decreases rest.len() - i,
{
    let t = before + rest;
    let k = before.len() as int;
    if i < rest.len() {
        assert(t[k + i] == rest[i]);
        if is_digit(rest[i]) {
            let end = number_end(rest, i + 1);
            lemma_number_end_bounds(rest, i + 1);
            lemma_number_end_shift(before, rest, i + 1);
            assert(t.subrange(k + i, k + end) =~= rest.subrange(i, end));
            lemma_lex_shift(before, rest, end);
        } else if rest[i] == ' ' {
            lemma_lex_shift(before, rest, i + 1);
        } else if punctuation(rest[i]) is Some {
            lemma_lex_shift(before, rest, i + 1);
        } else {
            let end = name_end(rest, i + 1);
            lemma_name_end_bounds(rest, i + 1);
            lemma_name_end_shift(before, rest, i + 1);
            assert(t.subrange(k + i, k + end) =~= rest.subrange(i, end));
            lemma_lex_shift(before, rest, end);
        }
    }
}

/// A space in front of a text adds no token.
pub proof fn lemma_lex_space(rest: Seq<char>)
    ensures
        lex(seq![' '] + rest) == lex(rest),
{
    let t = seq![' '] + rest;
    assert(t[0] == ' ');
    lemma_lex_shift(seq![' '], rest, 0);
}

/// An operator, a bracket or `;` in front of a text adds its token.
pub proof fn lemma_lex_punctuation(c: char, rest: Seq<char>)
    requires
        punctuation(c) is Some,
    ensures
        lex(seq![c] + rest) == followed(punctuation(c)->0, lex(rest)),
{
    let t = seq![c] + rest;
    assert(t[0] == c);
    lemma_lex_shift(seq![c], rest, 0);
}

/// A literal in front of a text that starts with no number character adds
/// its token, or makes the whole malformed.
pub proof fn lemma_lex_literal(lit: Seq<char>, rest: Seq<char>)
    requires
        is_literal(lit),
        rest.len() == 0 || !in_number(rest[0]),
    ensures
        lex(lit + rest) == match number_value(lit) {
            Some(v) => followed(Lexeme::Int(v), lex(rest)),
            None => None,
        },
{
    let t = lit + rest;
    let j = lit.len() as int;
    assert forall|k: int| 1 <= k < j implies in_number(#[trigger] t[k]) by {
        assert(t[k] == lit[k]);
    }
    assert(t[0] == lit[0]);
    if rest.len() > 0 {
        assert(t[j] == rest[0]);
    }
    lemma_number_run(t, 1, j);
    assert(t.subrange(0, j) =~= lit);
    lemma_lex_shift(lit, rest, 0);
}

/// A name in front of a text that starts with a delimiter adds its token.
pub proof fn lemma_lex_word(name: Seq<char>, rest: Seq<char>)
    requires
        name.len() > 0,
        !is_digit(name[0]),
        forall|k: int| 0 <= k < name.len() ==> !is_delimiter(#[trigger] name[k]),
        rest.len() == 0 || is_delimiter(rest[0]),
    ensures
        lex(name + rest) == followed(name_token(name), lex(rest)),
{
    let t = name + rest;
    let j = name.len() as int;
    assert forall|k: int| 1 <= k < j implies !is_delimiter(#[trigger] t[k]) by {
        assert(t[k] == name[k]);
    }
    assert(t[0] == name[0]);
    assert(!is_delimiter(name[0]));
    if rest.len() > 0 {
        assert(t[j] == rest[0]);
    }
    lemma_name_run(t, 1, j);
    assert(t.subrange(0, j) =~= name);
    lemma_lex_shift(name, rest, 0);
}

/// The token of an operator.
pub open spec fn operator_lexeme(op: Operator) -> Lexeme {
    match op {
        Operator::Add => Lexeme::Add,
        Operator::Sub => Lexeme::Sub,
        Operator::Mul => Lexeme::Mul,
        Operator::Div => Lexeme::Div,
    }
}

/// The character of an operator stands for its token.
pub proof fn lemma_operator_char(op: Operator)
    ensures
        punctuation(operator_char(op)) == Some(operator_lexeme(op)),
        !in_number(operator_char(op)),
{
}

/// The text ` op rest`, after a space, is the token of `op` and the tokens
/// of `rest`.
pub proof fn lemma_lex_operator(op: Operator, rest: Seq<char>)
    ensures
        lex(seq![' ', operator_char(op), ' '] + rest) == followed(operator_lexeme(op), lex(rest)),
{
    lemma_operator_char(op);
    let oc = operator_char(op);
    lemma_lex_space(rest);
    lemma_lex_punctuation(oc, seq![' '] + rest);
    lemma_lex_space(seq![oc] + (seq![' '] + rest));
    assert(seq![' ', oc, ' '] + rest =~= seq![' '] + (seq![oc] + (seq![' '] + rest)));
}

/// A literal alone is one token, or malformed.
pub proof fn lemma_lex_literal_alone(lit: Seq<char>)
    requires
        is_literal(lit),
    ensures
        lex(lit) == match number_value(lit) {
            Some(v) => Some(seq![Lexeme::Int(v)]),
            None => None,
        },
{
    lemma_lex_literal(lit, Seq::empty());
    assert(lit + Seq::<char>::empty() =~= lit);
    if let Some(v) = number_value(lit) {
        assert(seq![Lexeme::Int(v)] + Seq::<Lexeme>::empty() =~= seq![Lexeme::Int(v)]);
    }
}

/// A name alone is one token.
pub proof fn lemma_lex_name(name: Seq<char>)
    requires
        is_name(name),
    ensures
        lex(name) == Some(seq![Lexeme::Sym(name)]),
{
    lemma_name_run(name, 1, name.len() as int);
    assert(name.subrange(0, name.len() as int) =~= name);
    assert(lex_from(name, name.len() as int) == Some(Seq::<Lexeme>::empty()));
    assert(seq![Lexeme::Sym(name)] + Seq::<Lexeme>::empty() =~= seq![Lexeme::Sym(name)]);
}

} // verus!
