//! The evaluator: lexer, expression trees, parser and the session around them.
//!
//! [`Interpreter::evaluate`] takes one statement as text and returns its
//! value. The names declared so far and the values of their variables are
//! kept from one statement to the next; the tokens and the tree are built anew
//! for each statement. [`interpret`] says what a statement does to a session
//! and what it returns.

use vstd::prelude::*;
use crate::error::CalcError;
use crate::interpreter::cells::Cells;
use crate::interpreter::expr::{eval, CellSeq};
use crate::interpreter::lexer::{lex, tokenize, Lexeme};
use crate::interpreter::machine::Machine;
use crate::interpreter::nodes::{AnyNode, Node};
use crate::interpreter::parser::Parser;

pub mod cells;
pub mod expr;
pub mod laws;
pub mod lexer;
pub mod machine;
pub mod nodes;
pub mod parser;

verus! {

/// What a session keeps between statements: the handle of the cell of each
/// declared name, and the cells.
pub struct Session {
    pub vars: Map<Seq<char>, usize>,
    pub cells: CellSeq,
}

/// What a statement returns, and the session after it.
pub struct Answer {
    pub session: Session,
    pub result: Result<i32, CalcError>,
}

impl Session {
    /// The session in which nothing is declared.
    pub open spec fn empty() -> Session {
        Session { vars: Map::empty(), cells: Seq::empty() }
    }

    /// Every declared name is bound to a cell, and the number of cells is a
    /// `usize`.
    pub open spec fn wf(self) -> bool {
        &&& self.cells.len() <= usize::MAX
        &&& forall|name: Seq<char>| #[trigger]
            self.vars.contains_key(name) ==> self.vars[name] < self.cells.len()
    }
}

/// What the statement with the tokens `tokens` does in the session `s`: the
/// parser runs from the start of the tokens, and fails with
/// `StatementTooLong` if there are more than `MAX_TOKENS` of them; if it ends
/// without an error and
/// leaves exactly one operand and no open bracket, the result is the value of
/// that operand, else `InvalidResult`. The session keeps what the statement
/// declared and assigned, also where it fails.
pub open spec fn run(tokens: Seq<Lexeme>, s: Session) -> Answer {
    let parsed = Machine::start(tokens, s.vars, s.cells).parse();
    Answer {
        session: Session { vars: parsed.machine.vars, cells: parsed.machine.cells },
        result: match parsed.result {
            Err(err) => Err(err),
            Ok(()) => if parsed.machine.valid() {
                eval(parsed.machine.stack[0], parsed.machine.cells)
            } else {
                Err(CalcError::InvalidResult)
            },
        },
    }
}

/// What the statement `text` does in the session `s`. A text that cannot be
/// split into tokens fails with `LexError` and leaves the session as it was.
pub open spec fn interpret(text: Seq<char>, s: Session) -> Answer {
    match lex(text) {
        Some(tokens) => run(tokens, s),
        None => Answer { session: s, result: Err(CalcError::LexError) },
    }
}

/// A tree that is evaluated from its root.
pub struct AbstractTree {
    pub root: Option<AnyNode>,
}

impl AbstractTree {
    /// The tree with the root `root`.
    pub fn new(root: Option<AnyNode>) -> (tree: AbstractTree)
        ensures
            tree.root == root,
    {
        AbstractTree { root }
    }

    /// The value of the root, read from `cells`. A tree without a root
    /// fails with `InvalidResult`.
    pub fn eval(&self, cells: &Cells) -> (r: Result<i32, CalcError>)
        ensures
            r == match self.root {
                Some(root) => eval(root@, cells@),
                None => Err(CalcError::InvalidResult),
            },
    {
        match &self.root {
            Some(root) => root.evaluate(cells),
            None => Err(CalcError::InvalidResult),
        }
    }
}

/// A session of the evaluator.
pub struct Interpreter {
    ast: AbstractTree,
    parser: Parser,
}

impl View for Interpreter {
    type V = Session;

    closed spec fn view(&self) -> Session {
        Session { vars: self.parser@.vars, cells: self.parser@.cells }
    }
}

impl Interpreter {
    /// A session in which nothing is declared.
    pub fn new() -> (interpreter: Interpreter)
        ensures
            interpreter@ == Session::empty(),
            interpreter@.wf(),
    {
        Interpreter { ast: AbstractTree::new(None), parser: Parser::new(Vec::new()) }
    }

    /// Evaluates the statement `expr` and returns its value, or the first
    /// error met. What the statement declared and assigned before an error
    /// stays declared and assigned. A statement of more than `MAX_TOKENS`
    /// tokens fails with `StatementTooLong`: no call made for a statement goes
    /// deeper than that number.
    pub fn evaluate(&mut self, expr: String) -> (r: Result<i32, CalcError>)
        ensures
            final(self)@ == interpret(expr@, old(self)@).session,
            r == interpret(expr@, old(self)@).result,
            old(self)@.wf() ==> final(self)@.wf(),
    {
        let tokens = match tokenize(expr) {
            Ok(tokens) => tokens,
            Err(err) => {
                return Err(err);
            },
        };
        self.parser.set_tokens(tokens);
        let parsed = self.parser.parse();
        proof {
            self.parser.lemma_cells_fit();
        }
        match parsed {
            Ok(()) => {},
            Err(err) => {
                return Err(err);
            },
        }
        if !self.parser.validate() {
            return Err(CalcError::InvalidResult);
        }
        self.ast.root = self.parser.get_tree();
        self.ast.eval(self.parser.cells())
    }
}

} // verus!
