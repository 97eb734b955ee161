//! Splitting a line of text into tokens.
//!
//! A digit starts a number, which runs over every following digit and
//! decimal point. Its value is its integer part: the digits after the point
//! are dropped, as a division drops them. Each of `+ - * / = [ ] ;` is a
//! token of its own, a space separates tokens, and any other character starts
//! a name, which runs up to the next of those ten characters. The name `let`
//! is the declaration keyword.

use vstd::prelude::*;
use vstd::string::*;
use crate::error::CalcError;

verus! {

/// A token.
#[derive(Debug, PartialEq, Eq)]
pub enum Token {
    Add,
    Sub,
    Mul,
    Div,
    Asgn,
    OpenBlock,
    CloseBlock,
    DecVar,
    Break,
    Int(i32),
    Sym(String),
}

/// The model of a token: a name is the sequence of its characters.
pub enum Lexeme {
    Add,
    Sub,
    Mul,
    Div,
    Asgn,
    OpenBlock,
    CloseBlock,
    DecVar,
    Break,
    Int(i32),
    Sym(Seq<char>),
}

impl View for Token {
    type V = Lexeme;

    open spec fn view(&self) -> Lexeme {
        match *self {
            Token::Add => Lexeme::Add,
            Token::Sub => Lexeme::Sub,
            Token::Mul => Lexeme::Mul,
            Token::Div => Lexeme::Div,
            Token::Asgn => Lexeme::Asgn,
            Token::OpenBlock => Lexeme::OpenBlock,
            Token::CloseBlock => Lexeme::CloseBlock,
            Token::DecVar => Lexeme::DecVar,
            Token::Break => Lexeme::Break,
            Token::Int(v) => Lexeme::Int(v),
            Token::Sym(name) => Lexeme::Sym(name@),
        }
    }
}

impl Clone for Token {
    /// A token with the same model.
    fn clone(&self) -> (res: Token)
        ensures
            res@ == self@,
    {
        match self {
            Token::Add => Token::Add,
            Token::Sub => Token::Sub,
            Token::Mul => Token::Mul,
            Token::Div => Token::Div,
            Token::Asgn => Token::Asgn,
            Token::OpenBlock => Token::OpenBlock,
            Token::CloseBlock => Token::CloseBlock,
            Token::DecVar => Token::DecVar,
            Token::Break => Token::Break,
            Token::Int(v) => Token::Int(*v),
            Token::Sym(name) => Token::Sym(name.clone()),
        }
    }
}

/// The models of a sequence of tokens.
pub open spec fn lexemes_of(tokens: Seq<Token>) -> Seq<Lexeme> {
    Seq::new(tokens.len(), |i: int| tokens[i]@)
}

/// `c` is a decimal digit.
pub open spec fn is_digit(c: char) -> bool {
    '0' <= c && c <= '9'
}

/// `c` may stand inside a number: a digit or the decimal point.
pub open spec fn in_number(c: char) -> bool {
    is_digit(c) || c == '.'
}

/// `c` ends a name: an operator, a bracket, `;` or a space.
pub open spec fn is_delimiter(c: char) -> bool {
    c == '+' || c == '-' || c == '*' || c == '/' || c == '=' || c == '[' || c == ']' || c == ';'
        || c == ' '
}

/// The token that the single character `c` stands for, if it is one.
pub open spec fn punctuation(c: char) -> Option<Lexeme> {
    if c == '+' {
        Some(Lexeme::Add)
    } else if c == '-' {
        Some(Lexeme::Sub)
    } else if c == '*' {
        Some(Lexeme::Mul)
    } else if c == '/' {
        Some(Lexeme::Div)
    } else if c == '=' {
        Some(Lexeme::Asgn)
    } else if c == '[' {
        Some(Lexeme::OpenBlock)
    } else if c == ']' {
        Some(Lexeme::CloseBlock)
    } else if c == ';' {
        Some(Lexeme::Break)
    } else {
        None
    }
}

/// Where the run of number characters that holds position `i` ends: the
/// first position from `i` on that holds no digit and no decimal point.
pub open spec fn number_end(s: Seq<char>, i: int) -> int
    decreases s.len() - i,
{
    if 0 <= i < s.len() && in_number(s[i]) {
        number_end(s, i + 1)
    } else {
        i
    }
}

/// Where the name that holds position `i` ends: the first position from `i`
/// on that holds a delimiter.
pub open spec fn name_end(s: Seq<char>, i: int) -> int
    decreases s.len() - i,
{
    if 0 <= i < s.len() && !is_delimiter(s[i]) {
        name_end(s, i + 1)
    } else {
        i
    }
}

/// The value of the digit `c`.
pub open spec fn digit_value(c: char) -> nat {
    (c as int - '0' as int) as nat
}

/// The value of a sequence of digits, read as a decimal number.
pub open spec fn digits_value(s: Seq<char>) -> nat
    decreases s.len(),
{
    if s.len() == 0 {
        0
    } else {
        digits_value(s.drop_last()) * 10 + digit_value(s.last())
    }
}

/// How many decimal points `s` holds.
pub open spec fn points(s: Seq<char>) -> nat
    decreases s.len(),
{
    if s.len() == 0 {
        0
    } else {
        points(s.drop_last()) + if s.last() == '.' {
            1nat
        } else {
            0nat
        }
    }
}

/// The integer part of a literal: what stands before its first decimal point.
pub open spec fn whole_part(lit: Seq<char>) -> Seq<char>
    decreases lit.len(),
{
    if lit.len() == 0 || points(lit) == 0 {
        lit
    } else {
        whole_part(lit.drop_last())
    }
}

/// The value of a numeric literal, or `None` if it is malformed: it holds
/// more than one decimal point, or its integer part is larger than
/// `i32::MAX`.
pub open spec fn number_value(lit: Seq<char>) -> Option<i32> {
    if points(lit) > 1 || digits_value(whole_part(lit)) > i32::MAX {
        None
    } else {
        Some(digits_value(whole_part(lit)) as i32)
    }
}

/// The keyword that declares a variable.
pub open spec fn keyword_let() -> Seq<char> {
    seq!['l', 'e', 't']
}

/// The token that a name stands for.
pub open spec fn name_token(name: Seq<char>) -> Lexeme {
    if name == keyword_let() {
        Lexeme::DecVar
    } else {
        Lexeme::Sym(name)
    }
}

/// `token` in front of the tokens of the rest, if the rest has any.
pub open spec fn followed(token: Lexeme, rest: Option<Seq<Lexeme>>) -> Option<Seq<Lexeme>> {
    match rest {
        Some(tokens) => Some(seq![token] + tokens),
        None => None,
    }
}

/// The end of the run of number characters from `i` lies between `i` and the
/// end of the text.
pub proof fn lemma_number_end_bounds(s: Seq<char>, i: int)
    requires
        0 <= i <= s.len(),
    ensures
        i <= number_end(s, i) <= s.len(),
    decreases s.len() - i,
{
    if i < s.len() && in_number(s[i]) {
        lemma_number_end_bounds(s, i + 1);
    }
}

/// The end of the name from `i` lies between `i` and the end of the text.
pub proof fn lemma_name_end_bounds(s: Seq<char>, i: int)
    requires
        0 <= i <= s.len(),
    ensures
        i <= name_end(s, i) <= s.len(),
    decreases s.len() - i,
{
    if i < s.len() && !is_delimiter(s[i]) {
        lemma_name_end_bounds(s, i + 1);
    }
}

/// The tokens of the text from position `i` on, or `None` if a numeric
/// literal in it is malformed.
pub open spec fn lex_from(s: Seq<char>, i: int) -> Option<Seq<Lexeme>>
    decreases s.len() - i,
{
    if i < 0 || i >= s.len() {
        Some(Seq::empty())
    } else if is_digit(s[i]) {
        let end = number_end(s, i + 1);
        proof {
            lemma_number_end_bounds(s, i + 1);
        }
        match number_value(s.subrange(i, end)) {
            Some(v) => followed(Lexeme::Int(v), lex_from(s, end)),
            None => None,
        }
    } else if s[i] == ' ' {
        lex_from(s, i + 1)
    } else if punctuation(s[i]) is Some {
        followed(punctuation(s[i])->0, lex_from(s, i + 1))
    } else {
        let end = name_end(s, i + 1);
        proof {
            lemma_name_end_bounds(s, i + 1);
        }
        followed(name_token(s.subrange(i, end)), lex_from(s, end))
    }
}

/// The tokens of a line of text, or `None` if a numeric literal in it is
/// malformed.
pub open spec fn lex(s: Seq<char>) -> Option<Seq<Lexeme>> {
    lex_from(s, 0)
}

/// The characters of `text`, in order.
fn characters(text: &str) -> (chars: Vec<char>)
    ensures
        chars@ == text@,
{
    let mut chars: Vec<char> = Vec::new();
    for c in it: text.chars()
        invariant
            chars.len() == it.index(),
            forall|i: int| 0 <= i < chars.len() ==> chars@[i] == it.seq()[i],
    {
        chars.push(c);
    }
    chars
}

/// Reads the number that starts at `start`: where it ends, and its value.
fn scan_number(chars: &Vec<char>, start: usize) -> (r: (usize, Option<i32>))
    requires
        start < chars.len(),
        is_digit(chars@[start as int]),
    ensures
        start < r.0 <= chars.len(),
        r.0 == number_end(chars@, start + 1),
        r.1 == number_value(chars@.subrange(start as int, r.0 as int)),
{
    let mut pos: usize = start;
    let mut seen_points: u8 = 0;
    let mut value: u64 = 0;
    let mut too_large = false;
    let ghost exact: nat = 0;
    assert(chars@.subrange(start as int, start as int) =~= Seq::<char>::empty());
    assert(number_end(chars@, start as int) == number_end(chars@, start + 1));
    while pos < chars.len() && (('0' <= chars[pos] && chars[pos] <= '9') || chars[pos] == '.')
        invariant
            start <= pos <= chars.len(),
            pos == start ==> is_digit(chars@[start as int]),
            number_end(chars@, pos as int) == number_end(chars@, start + 1),
            seen_points <= 2,
            seen_points < 2 ==> seen_points == points(chars@.subrange(start as int, pos as int)),
            seen_points == 2 ==> points(chars@.subrange(start as int, pos as int)) >= 2,
            exact == digits_value(whole_part(chars@.subrange(start as int, pos as int))),
            too_large ==> exact > i32::MAX,
            !too_large ==> value == exact && value <= i32::MAX,
        decreases chars.len() - pos,
    {
        let c = chars[pos];
        let ghost before = chars@.subrange(start as int, pos as int);
        let ghost after = chars@.subrange(start as int, pos + 1);
        proof {
            assert(after.drop_last() =~= before);
            assert(after.last() == c);
            if c != '.' && points(before) == 0 {
                assert(whole_part(after) == after);
                assert(whole_part(before) == before);
            }
        }
        if c == '.' {
            if seen_points < 2 {
                seen_points = seen_points + 1;
            }
        } else if seen_points == 0 {
            let d: u64 = digit_of(c);
            proof {
                exact = exact * 10 + digit_value(c);
            }
            if !too_large {
                value = value * 10 + d;
                if value > 2147483647 {
                    too_large = true;
                }
            }
        }
        pos = pos + 1;
    }
    if seen_points > 1 || too_large {
        (pos, None)
    } else {
        (pos, Some(value as i32))
    }
}

/// The value of the digit `c`.
fn digit_of(c: char) -> (d: u64)
    requires
        is_digit(c),
    ensures
        d == digit_value(c),
        d <= 9,
{
    (c as u32 - '0' as u32) as u64
}

/// Finds where the name that starts at `start` ends.
fn scan_name(chars: &Vec<char>, start: usize) -> (end: usize)
    requires
        start < chars.len(),
    ensures
        start < end <= chars.len(),
        end == name_end(chars@, start + 1),
{
    let mut pos: usize = start + 1;
    while pos < chars.len() && !delimits(chars[pos])
        invariant
            start < pos <= chars.len(),
            name_end(chars@, pos as int) == name_end(chars@, start + 1),
        decreases chars.len() - pos,
    {
        pos = pos + 1;
    }
    pos
}

/// Whether `c` ends a name.
fn delimits(c: char) -> (b: bool)
    ensures
        b == is_delimiter(c),
{
    c == '+' || c == '-' || c == '*' || c == '/' || c == '=' || c == '[' || c == ']' || c == ';'
        || c == ' '
}

/// The token of the single character `c`, if it stands for one.
fn punctuation_token(c: char) -> (t: Option<Token>)
    ensures
        match t {
            Some(token) => punctuation(c) == Some(token@),
            None => punctuation(c) is None,
        },
{
    if c == '+' {
        Some(Token::Add)
    } else if c == '-' {
        Some(Token::Sub)
    } else if c == '*' {
        Some(Token::Mul)
    } else if c == '/' {
        Some(Token::Div)
    } else if c == '=' {
        Some(Token::Asgn)
    } else if c == '[' {
        Some(Token::OpenBlock)
    } else if c == ']' {
        Some(Token::CloseBlock)
    } else if c == ';' {
        Some(Token::Break)
    } else {
        None
    }
}

/// The tokens of the whole line, given the tokens read so far and the tokens
/// of the rest.
spec fn joined(tokens: Seq<Lexeme>, rest: Option<Seq<Lexeme>>) -> Option<Seq<Lexeme>> {
    match rest {
        Some(more) => Some(tokens + more),
        None => None,
    }
}

/// Splits a line of text into its tokens.
///
/// Fails with `LexError` exactly when a numeric literal of the line holds
/// more than one decimal point or has an integer part above `i32::MAX`. A
/// numeric literal is a run of digits and points that starts with a digit
/// where a token starts; digits and points inside a name belong to the name.
pub fn tokenize(expr: String) -> (r: Result<Vec<Token>, CalcError>)
    ensures
        match lex(expr@) {
            Some(lexemes) => r is Ok && lexemes_of(r->Ok_0@) == lexemes,
            None => r == Err::<Vec<Token>, CalcError>(CalcError::LexError),
        },
{
    let text = expr.as_str();
    let chars = characters(text);
    let mut tokens: Vec<Token> = Vec::new();
    let mut pos: usize = 0;
    assert(lexemes_of(tokens@) =~= Seq::<Lexeme>::empty());
    assert(joined(lexemes_of(tokens@), lex_from(expr@, 0)) == lex(expr@)) by {
        match lex_from(expr@, 0) {
            Some(more) => {
                assert(Seq::<Lexeme>::empty() + more =~= more);
            },
            None => {},
        }
    }
    while pos < chars.len()
        invariant
            pos <= chars.len(),
            chars@ == expr@,
            text@ == expr@,
            joined(lexemes_of(tokens@), lex_from(expr@, pos as int)) == lex(expr@),
        decreases chars.len() - pos,
    {
        let c = chars[pos];
        let ghost read = lexemes_of(tokens@);
        if '0' <= c && c <= '9' {
            let (end, value) = scan_number(&chars, pos);
            match value {
                Some(v) => {
                    tokens.push(Token::Int(v));
                    proof {
                        lemma_read_one(read, Lexeme::Int(v), lex_from(expr@, end as int));
                        assert(lexemes_of(tokens@) =~= read.push(Lexeme::Int(v)));
                    }
                    pos = end;
                },
                None => {
                    return Err(CalcError::LexError);
                },
            }
        } else if c == ' ' {
            pos = pos + 1;
        } else {
            match punctuation_token(c) {
                Some(token) => {
                    let ghost lexeme = token@;
                    tokens.push(token);
                    proof {
                        lemma_read_one(read, lexeme, lex_from(expr@, pos + 1));
                        assert(lexemes_of(tokens@) =~= read.push(lexeme));
                    }
                    pos = pos + 1;
                },
                None => {
                    let end = scan_name(&chars, pos);
                    let ghost name = expr@.subrange(pos as int, end as int);
                    let token = if end - pos == 3 && chars[pos] == 'l' && chars[pos + 1] == 'e'
                        && chars[pos + 2] == 't' {
                        assert(name =~= keyword_let());
                        Token::DecVar
                    } else {
                        assert(name != keyword_let()) by {
                            if name == keyword_let() {
                                assert(name.len() == 3);
                                assert(name[0] == 'l' && name[1] == 'e' && name[2] == 't');
                            }
                        }
                        Token::Sym(String::from_str(text.substring_char(pos, end)))
                    };
                    let ghost lexeme = token@;
                    assert(lexeme == name_token(name));
                    tokens.push(token);
                    proof {
                        lemma_read_one(read, lexeme, lex_from(expr@, end as int));
                        assert(lexemes_of(tokens@) =~= read.push(lexeme));
                    }
                    pos = end;
                },
            }
        }
    }
    assert(lexemes_of(tokens@) + Seq::<Lexeme>::empty() =~= lexemes_of(tokens@));
    Ok(tokens)
}

/// Reading one more token moves it from the rest to what was read.
proof fn lemma_read_one(read: Seq<Lexeme>, token: Lexeme, rest: Option<Seq<Lexeme>>)
    ensures
        joined(read, followed(token, rest)) == joined(read.push(token), rest),
{
    match rest {
        Some(more) => {
            assert(read + (seq![token] + more) =~= read.push(token) + more);
        },
        None => {},
    }
}

} // verus!
