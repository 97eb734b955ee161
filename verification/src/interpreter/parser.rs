//! The parser: one recursive pass that builds the tree of a statement.
//!
//! The parser owns the table of declared names and their cells, which outlive
//! the statement; its position and its two stacks are reset for each
//! statement. Its model is [`Machine`], and [`Parser::parse`] does what
//! [`Machine::parse`] says. An assignment is carried out while the statement
//! is parsed, and stays carried out if the statement fails later.
//!
//! A run calls itself once for each operator, bracket, `let` and `=` that is
//! open at the same time, so the depth of the calls is at most the number of
//! tokens of the statement. A statement of more than [`MAX_TOKENS`] tokens
//! fails with `StatementTooLong`, so no run nests deeper than that.

use vstd::prelude::*;
use vstd::hash_map::StringHashMap;
use crate::error::CalcError;
use crate::interpreter::cells::Cells;
use crate::interpreter::expr::{Expr, Operator};
use crate::interpreter::lexer::{lexemes_of, Token};
use crate::interpreter::machine::{
    lemma_parse_moves_on, lemma_parse_wf, lemma_reduce_stays, Machine, MAX_TOKENS,
};
use crate::interpreter::nodes::{
    exprs_of, AnyNode, Block, Node, NumNode, OperatorNode, SymNode, VarNode,
};

verus! {

/// The tokens of a statement, how many of them are read, and how many
/// brackets are open.
struct Cursor {
    tokens: Vec<Token>,
    pos: usize,
    depth: usize,
}

impl Cursor {
    /// The position is within the tokens, and no more brackets are open than
    /// tokens were read.
    #[verifier::type_invariant]
    spec fn bounded(self) -> bool {
        self.depth <= self.pos <= self.tokens.len()
    }
}

/// The parser of one session.
pub struct Parser {
    cursor: Cursor,
    node_stack: Vec<AnyNode>,
    vars: StringHashMap<usize>,
    cells: Cells,
}

impl View for Parser {
    type V = Machine;

    closed spec fn view(&self) -> Machine {
        Machine {
            tokens: lexemes_of(self.cursor.tokens@),
            pos: self.cursor.pos as nat,
            depth: self.cursor.depth as nat,
            stack: exprs_of(self.node_stack@),
            vars: self.vars@,
            cells: self.cells@,
        }
    }
}

impl Parser {
    /// A parser at the start of the statement `tokens`, with no name
    /// declared.
    pub fn new(tokens: Vec<Token>) -> (parser: Parser)
        ensures
            parser@ == Machine::start(
                lexemes_of(tokens@),
                Map::<Seq<char>, usize>::empty(),
                Seq::<Option<i32>>::empty(),
            ),
    {
        let parser = Parser {
            cursor: Cursor { tokens, pos: 0, depth: 0 },
            node_stack: Vec::new(),
            vars: StringHashMap::new(),
            cells: Cells::new(),
        };
        assert(parser@.stack =~= Seq::<Expr>::empty());
        parser
    }

    /// Starts the statement `tokens`: the position and both stacks are
    /// reset, the declared names and their cells are kept.
    pub fn set_tokens(&mut self, tokens: Vec<Token>)
        ensures
            final(self)@ == Machine::start(lexemes_of(tokens@), old(self)@.vars, old(self)@.cells),
    {
        self.cursor = Cursor { tokens, pos: 0, depth: 0 };
        self.node_stack.clear();
        assert(self@.stack =~= Seq::<Expr>::empty());
    }

    /// Whether the statement left exactly one operand and no open bracket.
    pub fn validate(&self) -> (valid: bool)
        ensures
            valid == self@.valid(),
    {
        self.node_stack.len() == 1 && self.cursor.depth == 0
    }

    /// Takes the root of the tree off the operand stack. Returns `None`, and
    /// changes nothing, unless the parser is valid.
    pub fn get_tree(&mut self) -> (root: Option<AnyNode>)
        ensures
            old(self)@.valid() ==> root is Some && root->0@ == old(self)@.stack[0] && final(self)@
                == (Machine { stack: Seq::empty(), ..old(self)@ }),
            !old(self)@.valid() ==> root is None && final(self)@ == old(self)@,
    {
        if self.validate() {
            let root = self.node_stack.pop();
            assert(self@.stack =~= Seq::<Expr>::empty());
            root
        } else {
            None
        }
    }

    /// The number of cells is a `usize`.
    pub proof fn lemma_cells_fit(&self)
        ensures
            self@.cells.len() <= usize::MAX,
    {
        assert(self.cells.slots@.len() == self.cells.slots.len());
    }

    /// The cells of the declared variables.
    pub fn cells(&self) -> (cells: &Cells)
        ensures
            cells@ == self@.cells,
    {
        &self.cells
    }

    /// The handle of the cell that `name` is bound to, if it is declared.
    pub fn lookup(&self, name: &str) -> (handle: Option<usize>)
        ensures
            handle == if self@.vars.contains_key(name@) {
                Some(self@.vars[name@])
            } else {
                None
            },
    {
        match self.vars.get(name) {
            Some(handle) => Some(*handle),
            None => None,
        }
    }

    /// Puts `node` on the operand stack.
    fn push_node(&mut self, node: AnyNode)
        ensures
            final(self)@ == old(self)@.push(node@),
    {
        self.node_stack.push(node);
        assert(self@.stack =~= old(self)@.stack.push(node@));
    }

    /// Takes the topmost operand off the stack.
    fn pop_node(&mut self) -> (node: AnyNode)
        requires
            old(self)@.stack.len() > 0,
        ensures
            node@ == old(self)@.stack.last(),
            final(self)@ == (Machine { stack: old(self)@.stack.drop_last(), ..old(self)@ }),
    {
        let node = self.node_stack.pop().unwrap();
        assert(self@.stack =~= old(self)@.stack.drop_last());
        node
    }

    /// Deals with a closing bracket.
    fn close(&mut self) -> (r: Result<(), CalcError>)
        requires
            old(self)@.pos < old(self)@.tokens.len(),
        ensures
            final(self)@ == old(self)@.close().machine,
            r == old(self)@.close().result,
    {
        proof {
            use_type_invariant(&self.cursor);
        }
        assert(self@.tokens.len() == self.cursor.tokens.len());
        if self.cursor.depth == 0 {
            Err(CalcError::BracketError)
        } else {
            self.cursor.depth = self.cursor.depth - 1;
            self.cursor.pos = self.cursor.pos + 1;
            Ok(())
        }
    }

    /// Starts the run of `let`: if a name stands at the current position it
    /// is taken as a fresh name, whatever it is bound to, and the run is over.
    fn take_name(&mut self) -> (taken: bool)
        ensures
            taken == old(self)@.names_here(),
            taken ==> final(self)@ == old(self)@.take_name().machine,
            !taken ==> final(self)@ == old(self)@,
    {
        proof {
            use_type_invariant(&self.cursor);
        }
        assert(self@.tokens.len() == self.cursor.tokens.len());
        if self.cursor.pos < self.cursor.tokens.len() {
            assert(self.cursor.tokens[self.cursor.pos as int]@ == self@.tokens[self@.pos as int]);
            match &self.cursor.tokens[self.cursor.pos] {
                Token::Sym(name) => {
                    let node = AnyNode::Sym(SymNode::new(name.clone()));
                    self.cursor.pos = self.cursor.pos + 1;
                    self.push_node(node);
                    true
                },
                _ => false,
            }
        } else {
            false
        }
    }

    /// Lets an operator take its two operands.
    fn combine(&mut self, op: Operator) -> (r: Result<(), CalcError>)
        ensures
            final(self)@ == old(self)@.combine(op).machine,
            r == old(self)@.combine(op).result,
    {
        if self.node_stack.len() < 2 {
            return Err(CalcError::IncompleteExpression);
        }
        let right = self.pop_node();
        let left = self.pop_node();
        let mut node = OperatorNode::new(op);
        node.left = Some(Box::new(left));
        node.right = Some(Box::new(right));
        self.push_node(AnyNode::Op(node));
        assert(self@.stack =~= old(self)@.combine(op).machine.stack);
        Ok(())
    }

    /// Lets an opening bracket take its body.
    fn enclose(&mut self) -> (r: Result<(), CalcError>)
        ensures
            final(self)@ == old(self)@.enclose().machine,
            r == old(self)@.enclose().result,
    {
        if self.node_stack.len() == 0 {
            return Err(CalcError::InvalidBracket);
        }
        let body = self.pop_node();
        let mut node = Block::new();
        node.body = Some(Box::new(body));
        self.push_node(AnyNode::Block(node));
        Ok(())
    }

    /// Lets `let` declare the name on top of the stack.
    fn declare(&mut self, before: usize) -> (r: Result<(), CalcError>)
        ensures
            final(self)@ == old(self)@.declare(before as nat).machine,
            r == old(self)@.declare(before as nat).result,
    {
        assert(self@.stack.len() == self.node_stack.len());
        if before == usize::MAX || self.node_stack.len() != before + 1 {
            return Err(CalcError::DeclarationError);
        }
        match self.pop_node() {
            AnyNode::Sym(unresolved) => {
                let handle = self.cells.allocate();
                let name = unresolved.sym;
                self.vars.insert(name.clone(), handle);
                self.push_node(AnyNode::Var(VarNode::new(name, handle)));
                Ok(())
            },
            _ => Err(CalcError::DeclarationError),
        }
    }

    /// Lets `=` assign the topmost operand to the one below it.
    fn assign(&mut self) -> (r: Result<(), CalcError>)
        ensures
            final(self)@ == old(self)@.assign().machine,
            r == old(self)@.assign().result,
    {
        if self.node_stack.len() < 2 {
            return Err(CalcError::IncompleteExpression);
        }
        let right = self.pop_node();
        let left = self.pop_node();
        assert(self@.stack =~= old(self)@.stack.take(old(self)@.stack.len() - 2));
        match left.assign(right, &mut self.cells) {
            Ok(()) => {
                self.push_node(left);
                Ok(())
            },
            Err(err) => Err(err),
        }
    }

    /// Lets `token` take its operands once its nested run has ended.
    fn reduce(&mut self, token: &Token, before: usize) -> (r: Result<(), CalcError>)
        ensures
            final(self)@ == old(self)@.reduce(token@, before as nat).machine,
            r == old(self)@.reduce(token@, before as nat).result,
    {
        match token {
            Token::OpenBlock => self.enclose(),
            Token::DecVar => self.declare(before),
            Token::Asgn => self.assign(),
            Token::Add => self.combine(Operator::Add),
            Token::Sub => self.combine(Operator::Sub),
            Token::Mul => self.combine(Operator::Mul),
            Token::Div => self.combine(Operator::Div),
            _ => Ok(()),
        }
    }

    /// Runs the parser from the current position: reads tokens until the
    /// input ends, a closing bracket or an undeclared name is met, or an
    /// error occurs.
    ///
    /// The errors are those of [`Machine::parse`]: `StatementTooLong` if the
    /// statement has more than `MAX_TOKENS` tokens, `IncompleteExpression`,
    /// `InvalidBracket`, `BracketError`, `UnbalancedBrackets`,
    /// `DeclarationError`, and what an assignment fails with. After an error
    /// the table and the cells hold what the statement did before it failed.
    pub fn parse(&mut self) -> (r: Result<(), CalcError>)
        ensures
            final(self)@ == old(self)@.parse().machine,
            r == old(self)@.parse().result,
            old(self)@.in_bounds(),
            final(self)@.in_bounds(),
            old(self)@.wf() ==> final(self)@.wf(),
        decreases old(self)@.tokens.len() - old(self)@.pos,
    {
        let ghost goal = self@.parse();
        proof {
            use_type_invariant(&self.cursor);
            lemma_parse_moves_on(self@);
            if self@.wf() {
                lemma_parse_wf(self@);
            }
        }
        if self.cursor.tokens.len() > MAX_TOKENS {
            return Err(CalcError::StatementTooLong);
        }
        while self.cursor.pos < self.cursor.tokens.len()
            invariant
                self@.in_bounds(),
                old(self)@.in_bounds(),
                self@.tokens.len() <= MAX_TOKENS,
                self@.parse() == goal,
                goal == old(self)@.parse(),
                goal.machine.in_bounds(),
                old(self)@.wf() ==> goal.machine.wf(),
                self@.tokens == old(self)@.tokens,
                old(self)@.pos <= self@.pos,
            decreases self@.tokens.len() - self@.pos,
        {
            let ghost m = self@;
            assert(m.tokens.len() == self.cursor.tokens.len());
            let token = self.cursor.tokens[self.cursor.pos].clone();
            assert(token@ == m.tokens[m.pos as int]);
            match token {
                Token::CloseBlock => {
                    return self.close();
                },
                Token::Int(v) => {
                    self.cursor.pos = self.cursor.pos + 1;
                    self.push_node(AnyNode::Num(NumNode::new(v)));
                },
                Token::Sym(name) => {
                    match self.lookup(name.as_str()) {
                        Some(handle) => {
                            self.cursor.pos = self.cursor.pos + 1;
                            self.push_node(AnyNode::Var(VarNode::new(name, handle)));
                        },
                        None => {
                            self.cursor.pos = self.cursor.pos + 1;
                            self.push_node(AnyNode::Sym(SymNode::new(name)));
                            proof {
                                lemma_parse_moves_on(m);
                            }
                            return Ok(());
                        },
                    }
                },
                Token::Break => {
                    self.cursor.pos = self.cursor.pos + 1;
                    self.node_stack.clear();
                    assert(self@.stack =~= Seq::<Expr>::empty());
                },
                _ => {
                    let before = self.node_stack.len();
                    self.cursor.pos = self.cursor.pos + 1;
                    if let Token::OpenBlock = token {
                        self.cursor.depth = self.cursor.depth + 1;
                    }
                    assert(self@ == m.enter(token@));
                    let named = if let Token::DecVar = token {
                        self.take_name()
                    } else {
                        false
                    };
                    if !named {
                        proof {
                            lemma_parse_moves_on(m.enter(token@));
                        }
                        match self.parse() {
                            Ok(()) => {},
                            Err(err) => {
                                return Err(err);
                            },
                        }
                    }
                    assert(self@ == m.nested(token@).machine);
                    proof {
                        lemma_reduce_stays(self@, token@, before as nat);
                    }
                    match self.reduce(&token, before) {
                        Ok(()) => {},
                        Err(err) => {
                            return Err(err);
                        },
                    }
                    assert(m.precedes(self@));
                },
            }
        }
        if self.cursor.depth > 0 {
            Err(CalcError::UnbalancedBrackets)
        } else {
            Ok(())
        }
    }
}

} // verus!
