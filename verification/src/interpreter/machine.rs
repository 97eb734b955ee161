//! The mathematical model of the parser.
//!
//! The parser is a machine with a position in the token sequence, a stack of
//! operands, the number of brackets that are open, the table of declared
//! names and the cells of their variables. [`Machine::parse`] says what one
//! run of it does.
//!
//! A run reads tokens from the current position. A number or a declared name
//! becomes an operand. An operator, an opening bracket, `let` and `=` first
//! let a nested run read what follows, and only then take their operands from
//! the stack: so the operator that is met last combines first, and operators
//! have no precedence. A closing bracket and an undeclared name end the run
//! they are met in.
//!
//! The name behind `let` is not looked up: the run that `let` starts takes
//! it as a fresh name, whatever it is bound to, and ends there. So a name can
//! be declared again; it is then bound to a new cell, and the cell it was
//! bound to before stays as it is.
//!
//! A statement of more than [`MAX_TOKENS`] tokens is not parsed. A run nests
//! no deeper than the statement has tokens, and the trees it builds have no
//! more nodes than that, so the limit bounds the depth of every call that
//! parses the statement or walks its tree.

use vstd::prelude::*;
use crate::error::CalcError;
use crate::interpreter::expr::{assigned, handles_below, CellSeq, Expr, Operator};
use crate::interpreter::lexer::Lexeme;

verus! {

/// The largest number of tokens of a statement that is parsed.
pub const MAX_TOKENS: usize = 1024;

/// The state of the parser.
pub struct Machine {
    /// The tokens of the statement.
    pub tokens: Seq<Lexeme>,
    /// How many tokens have been read.
    pub pos: nat,
    /// How many brackets are open.
    pub depth: nat,
    /// The operands, the last one on top.
    pub stack: Seq<Expr>,
    /// The handle of the cell of each declared name.
    pub vars: Map<Seq<char>, usize>,
    /// The cells.
    pub cells: CellSeq,
}

/// How a run ended, and the state it left.
pub struct Outcome {
    pub machine: Machine,
    pub result: Result<(), CalcError>,
}

impl Machine {
    /// The machine at the start of a statement: nothing read, no operand, no
    /// open bracket.
    pub open spec fn start(tokens: Seq<Lexeme>, vars: Map<Seq<char>, usize>, cells: CellSeq) -> Machine {
        Machine { tokens, pos: 0, depth: 0, stack: Seq::empty(), vars, cells }
    }

    /// The position is within the tokens, and no more brackets are open than
    /// tokens were read.
    pub open spec fn in_bounds(self) -> bool {
        self.depth <= self.pos <= self.tokens.len()
    }

    /// The machine is within bounds, and every handle in the table or on the
    /// stack names a cell.
    pub open spec fn wf(self) -> bool {
        &&& self.in_bounds()
        &&& forall|name: Seq<char>| #[trigger]
            self.vars.contains_key(name) ==> self.vars[name] < self.cells.len()
        &&& forall|i: int|
            0 <= i < self.stack.len() ==> handles_below(#[trigger] self.stack[i], self.cells.len())
    }

    /// The run ended without an error and left this state.
    pub open spec fn done(self) -> Outcome {
        Outcome { machine: self, result: Ok(()) }
    }

    /// The run failed with `err` and left this state.
    pub open spec fn failed(self, err: CalcError) -> Outcome {
        Outcome { machine: self, result: Err(err) }
    }

    /// The state after the current token was passed over.
    pub open spec fn advance(self) -> Machine {
        Machine { pos: self.pos + 1, ..self }
    }

    /// The state with one more operand.
    pub open spec fn push(self, e: Expr) -> Machine {
        Machine { stack: self.stack.push(e), ..self }
    }

    /// The state in which the nested run of `token` starts: the token is
    /// passed over, and an opening bracket is counted.
    pub open spec fn enter(self, token: Lexeme) -> Machine {
        if token is OpenBlock {
            Machine { pos: self.pos + 1, depth: self.depth + 1, ..self }
        } else {
            self.advance()
        }
    }

    /// The end of the input: an error if a bracket is still open.
    pub open spec fn finish(self) -> Outcome {
        if self.depth > 0 {
            self.failed(CalcError::UnbalancedBrackets)
        } else {
            self.done()
        }
    }

    /// A closing bracket: an error if no bracket is open; else the bracket
    /// is closed and passed over.
    pub open spec fn close(self) -> Outcome {
        if self.depth == 0 {
            self.failed(CalcError::BracketError)
        } else {
            Machine { pos: self.pos + 1, depth: (self.depth - 1) as nat, ..self }.done()
        }
    }

    /// An operator takes the two topmost operands, the upper one as its
    /// right operand, and leaves the operator node in their place.
    pub open spec fn combine(self, op: Operator) -> Outcome {
        let n = self.stack.len() as int;
        if n < 2 {
            self.failed(CalcError::IncompleteExpression)
        } else {
            Machine {
                stack: self.stack.take(n - 2).push(
                    Expr::Op(
                        op,
                        Some(Box::new(self.stack[n - 2])),
                        Some(Box::new(self.stack[n - 1])),
                    ),
                ),
                ..self
            }.done()
        }
    }

    /// An opening bracket takes the topmost operand as the body of a block.
    pub open spec fn enclose(self) -> Outcome {
        if self.stack.len() == 0 {
            self.failed(CalcError::InvalidBracket)
        } else {
            Machine {
                stack: self.stack.drop_last().push(Expr::Block(Some(Box::new(self.stack.last())))),
                ..self
            }.done()
        }
    }

    /// A name stands at the current position.
    pub open spec fn names_here(self) -> bool {
        self.pos < self.tokens.len() && self.tokens[self.pos as int] is Sym
    }

    /// The run that `let` starts where a name follows it: the name becomes
    /// an unresolved name on the stack, whether it is bound or not, and the
    /// run ends.
    pub open spec fn take_name(self) -> Outcome {
        self.advance().push(Expr::Sym(self.tokens[self.pos as int]->Sym_0)).done()
    }

    /// `let` asks that its nested run left exactly one operand more than the
    /// `before` that were there, and that this operand is an unresolved name.
    /// It then adds an empty cell, binds the name to it in the table, whatever
    /// the name was bound to before, and leaves the variable in place of the
    /// name. The cells that were there stay as they are. An operand of another
    /// kind is taken off the stack.
    pub open spec fn declare(self, before: nat) -> Outcome {
        if self.stack.len() != before + 1 {
            self.failed(CalcError::DeclarationError)
        } else {
            match self.stack.last() {
                Expr::Sym(name) => {
                    let handle = self.cells.len() as usize;
                    Machine {
                        stack: self.stack.drop_last().push(Expr::Var(name, handle)),
                        vars: self.vars.insert(name, handle),
                        cells: self.cells.push(None),
                        ..self
                    }.done()
                },
                _ => Machine { stack: self.stack.drop_last(), ..self }.failed(
                    CalcError::DeclarationError,
                ),
            }
        }
    }

    /// `=` takes the two topmost operands, assigns the value of the upper
    /// one to the lower one, and leaves the lower one: the statement's value
    /// is the variable, not what was assigned. If the assignment fails both
    /// operands are gone.
    pub open spec fn assign(self) -> Outcome {
        let n = self.stack.len() as int;
        if n < 2 {
            self.failed(CalcError::IncompleteExpression)
        } else {
            match assigned(self.stack[n - 2], self.stack[n - 1], self.cells) {
                Ok(cells) => Machine {
                    stack: self.stack.take(n - 2).push(self.stack[n - 2]),
                    cells,
                    ..self
                }.done(),
                Err(err) => Machine { stack: self.stack.take(n - 2), ..self }.failed(err),
            }
        }
    }

    /// What `token` does once its nested run has ended without an error.
    /// `before` is the number of operands when `token` was met.
    pub open spec fn reduce(self, token: Lexeme, before: nat) -> Outcome {
        match token {
            Lexeme::OpenBlock => self.enclose(),
            Lexeme::DecVar => self.declare(before),
            Lexeme::Asgn => self.assign(),
            Lexeme::Add => self.combine(Operator::Add),
            Lexeme::Sub => self.combine(Operator::Sub),
            Lexeme::Mul => self.combine(Operator::Mul),
            Lexeme::Div => self.combine(Operator::Div),
            _ => self.done(),
        }
    }

    /// `later` has the same tokens and has read more of them.
    pub open spec fn precedes(self, later: Machine) -> bool {
        later.tokens == self.tokens && self.pos < later.pos <= later.tokens.len()
    }

    /// One run of the parser from this state.
    ///
    /// A statement of more than `MAX_TOKENS` tokens fails with
    /// `StatementTooLong` before anything is read. Else the run reads on
    /// after a token has been dealt with, until the input ends, a closing
    /// bracket or an undeclared name is met, or an error occurs. The test
    /// `self.precedes(..)` is there for the definition to be well-founded; by
    /// [`lemma_parse_moves_on`] it always holds of a machine within bounds.
    pub open spec fn parse(self) -> Outcome
        decreases self.tokens.len() - self.pos,
    {
        if self.tokens.len() > MAX_TOKENS {
            self.failed(CalcError::StatementTooLong)
        } else if self.pos >= self.tokens.len() {
            self.finish()
        } else {
            match self.tokens[self.pos as int] {
                Lexeme::CloseBlock => self.close(),
                Lexeme::Int(v) => self.advance().push(Expr::Num(v)).parse(),
                Lexeme::Sym(name) => if self.vars.contains_key(name) {
                    self.advance().push(Expr::Var(name, self.vars[name])).parse()
                } else {
                    self.advance().push(Expr::Sym(name)).done()
                },
                Lexeme::Break => Machine { stack: Seq::empty(), ..self.advance() }.parse(),
                token => {
                    let entered = self.enter(token);
                    let inner = if token is DecVar && entered.names_here() {
                        entered.take_name()
                    } else {
                        entered.parse()
                    };
                    if inner.result is Err {
                        inner
                    } else {
                        let reduced = inner.machine.reduce(token, self.stack.len());
                        if reduced.result is Err || !self.precedes(reduced.machine) {
                            reduced
                        } else {
                            reduced.machine.parse()
                        }
                    }
                },
            }
        }
    }

    /// The nested run of `token`, which is an operator, an opening bracket,
    /// `let` or `=`, met in this state.
    pub open spec fn nested(self, token: Lexeme) -> Outcome {
        let entered = self.enter(token);
        if token is DecVar && entered.names_here() {
            entered.take_name()
        } else {
            entered.parse()
        }
    }

    /// The statement left exactly one operand and no open bracket.
    pub open spec fn valid(self) -> bool {
        self.stack.len() == 1 && self.depth == 0
    }
}

/// `reduce` keeps the tokens, the position and the open brackets.
pub proof fn lemma_reduce_stays(m: Machine, token: Lexeme, before: nat)
    ensures
        m.reduce(token, before).machine.pos == m.pos,
        m.reduce(token, before).machine.depth == m.depth,
        m.reduce(token, before).machine.tokens == m.tokens,
{
}

/// `reduce` keeps a well-formed machine well-formed.
pub proof fn lemma_reduce_wf(m: Machine, token: Lexeme, before: nat)
    requires
        m.wf(),
    ensures
        m.reduce(token, before).machine.wf(),
{
    let after = m.reduce(token, before).machine;
    let n = m.stack.len() as int;
    match token {
        Lexeme::OpenBlock => {
            if n > 0 {
                assert(handles_below(m.stack[n - 1], m.cells.len()));
                assert forall|i: int| 0 <= i < after.stack.len() implies handles_below(
                    #[trigger] after.stack[i],
                    after.cells.len(),
                ) by {
                    if i < n - 1 {
                        assert(after.stack[i] == m.stack[i]);
                    }
                }
            }
        },
        Lexeme::DecVar => {
            if n == before + 1 {
                assert forall|i: int| 0 <= i < after.stack.len() implies handles_below(
                    #[trigger] after.stack[i],
                    after.cells.len(),
                ) by {
                    if i < n - 1 {
                        assert(after.stack[i] == m.stack[i]);
                        lemma_handles_below_more(m.stack[i], m.cells.len(), after.cells.len());
                    }
                }
            }
        },
        Lexeme::Asgn => {
            if n >= 2 {
                assert forall|i: int| 0 <= i < after.stack.len() implies handles_below(
                    #[trigger] after.stack[i],
                    after.cells.len(),
                ) by {
                    assert(after.stack[i] == m.stack[i]);
                }
            }
        },
        Lexeme::Add | Lexeme::Sub | Lexeme::Mul | Lexeme::Div => {
            if n >= 2 {
                assert(handles_below(m.stack[n - 1], m.cells.len()));
                assert(handles_below(m.stack[n - 2], m.cells.len()));
                assert forall|i: int| 0 <= i < after.stack.len() implies handles_below(
                    #[trigger] after.stack[i],
                    after.cells.len(),
                ) by {
                    if i < n - 2 {
                        assert(after.stack[i] == m.stack[i]);
                    }
                }
            }
        },
        _ => {},
    }
}

/// A handle below `n` is below every larger bound.
pub proof fn lemma_handles_below_more(e: Expr, n: nat, more: nat)
    requires
        handles_below(e, n),
        n <= more,
    ensures
        handles_below(e, more),
    decreases e,
{
    match e {
        Expr::Op(_, l, r) => {
            if let Some(l) = l {
                lemma_handles_below_more(*l, n, more);
            }
            if let Some(r) = r {
                lemma_handles_below_more(*r, n, more);
            }
        },
        Expr::Block(Some(body)) => {
            lemma_handles_below_more(*body, n, more);
        },
        _ => {},
    }
}

/// A run never moves back, keeps the tokens, and keeps the machine within
/// bounds.
pub proof fn lemma_parse_moves_on(m: Machine)
    requires
        m.in_bounds(),
    ensures
        m.parse().machine.in_bounds(),
        m.parse().machine.pos >= m.pos,
        m.parse().machine.tokens == m.tokens,
    decreases m.tokens.len() - m.pos,
{
    if m.tokens.len() <= MAX_TOKENS && m.pos < m.tokens.len() {
        match m.tokens[m.pos as int] {
            Lexeme::CloseBlock => {},
            Lexeme::Int(v) => {
                lemma_parse_moves_on(m.advance().push(Expr::Num(v)));
            },
            Lexeme::Sym(name) => {
                if m.vars.contains_key(name) {
                    lemma_parse_moves_on(m.advance().push(Expr::Var(name, m.vars[name])));
                }
            },
            Lexeme::Break => {
                lemma_parse_moves_on(Machine { stack: Seq::empty(), ..m.advance() });
            },
            token => {
                let inner = m.nested(token);
                if !(token is DecVar && m.enter(token).names_here()) {
                    lemma_parse_moves_on(m.enter(token));
                }
                if inner.result is Ok {
                    let reduced = inner.machine.reduce(token, m.stack.len());
                    lemma_reduce_stays(inner.machine, token, m.stack.len());
                    if reduced.result is Ok {
                        lemma_parse_moves_on(reduced.machine);
                    }
                }
            },
        }
    }
}

/// A run keeps a well-formed machine well-formed.
pub proof fn lemma_parse_wf(m: Machine)
    requires
        m.wf(),
    ensures
        m.parse().machine.wf(),
    decreases m.tokens.len() - m.pos,
{
    lemma_parse_moves_on(m);
    if m.tokens.len() <= MAX_TOKENS && m.pos < m.tokens.len() {
        match m.tokens[m.pos as int] {
            Lexeme::CloseBlock => {},
            Lexeme::Int(v) => {
                lemma_push_wf(m.advance(), Expr::Num(v));
                lemma_parse_wf(m.advance().push(Expr::Num(v)));
            },
            Lexeme::Sym(name) => {
                if m.vars.contains_key(name) {
                    let e = Expr::Var(name, m.vars[name]);
                    lemma_push_wf(m.advance(), e);
                    lemma_parse_wf(m.advance().push(e));
                } else {
                    lemma_push_wf(m.advance(), Expr::Sym(name));
                }
            },
            Lexeme::Break => {
                lemma_parse_wf(Machine { stack: Seq::empty(), ..m.advance() });
            },
            token => {
                let inner = m.nested(token);
                let entered = m.enter(token);
                if token is DecVar && entered.names_here() {
                    lemma_push_wf(entered.advance(), Expr::Sym(entered.tokens[entered.pos as int]->Sym_0));
                } else {
                    lemma_parse_moves_on(entered);
                    lemma_parse_wf(entered);
                }
                if inner.result is Ok {
                    let reduced = inner.machine.reduce(token, m.stack.len());
                    lemma_reduce_stays(inner.machine, token, m.stack.len());
                    lemma_reduce_wf(inner.machine, token, m.stack.len());
                    if reduced.result is Ok {
                        lemma_parse_wf(reduced.machine);
                    }
                }
            },
        }
    }
}

/// Pushing an operand whose handles name cells keeps the machine
/// well-formed.
pub proof fn lemma_push_wf(m: Machine, e: Expr)
    requires
        m.wf(),
        handles_below(e, m.cells.len()),
    ensures
        m.push(e).wf(),
{
    let after = m.push(e);
    assert forall|i: int| 0 <= i < after.stack.len() implies handles_below(
        #[trigger] after.stack[i],
        after.cells.len(),
    ) by {
        if i < m.stack.len() {
            assert(after.stack[i] == m.stack[i]);
        }
    }
}

} // verus!
