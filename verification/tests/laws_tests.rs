use feynman::error::{CalcError, ErrorKind};
use feynman::interpreter::cells::Cells;
use feynman::interpreter::expr::Operator;
use feynman::interpreter::lexer::{tokenize, Token};
use feynman::interpreter::nodes::{
    decimal_text, AnyNode, Block, Node, NumNode, OperatorNode, SymNode, VarNode,
};
use feynman::interpreter::parser::Parser;
use feynman::interpreter::Interpreter;

fn eval(calculator: &mut Interpreter, text: &str) -> Result<i32, CalcError> {
    calculator.evaluate(text.to_string())
}

fn machine_result(op: Operator, a: i32, b: i32) -> Option<i32> {
    match op {
        Operator::Add => a.checked_add(b),
        Operator::Sub => a.checked_sub(b),
        Operator::Mul => a.checked_mul(b),
        Operator::Div => a.checked_div(b),
    }
}

fn sign(op: Operator) -> char {
    match op {
        Operator::Add => '+',
        Operator::Sub => '-',
        Operator::Mul => '*',
        Operator::Div => '/',
    }
}

const OPERATORS: [Operator; 4] = [Operator::Add, Operator::Sub, Operator::Mul, Operator::Div];

#[test]
fn binary_expression_law_on_samples() {
    let samples = [0, 1, 2, 7, 12, 1000, 46341, 2147483647];
    for &a in &samples {
        for &b in &samples {
            for op in OPERATORS {
                let text = format!("{} {} {}", a, sign(op), b);
                let got = Interpreter::new().evaluate(text);
                assert_eq!(got.ok(), machine_result(op, a, b));
            }
        }
    }
}

#[test]
fn bracketed_group_law_on_samples() {
    let samples = [0, 3, 10, 65536];
    for &a in &samples {
        for &b in &samples {
            for &c in &samples {
                for op1 in OPERATORS {
                    for op2 in OPERATORS {
                        let text = format!("[{} {} {}] {} {}", a, sign(op1), b, sign(op2), c);
                        let expected = machine_result(op1, a, b)
                            .and_then(|group| machine_result(op2, group, c));
                        assert_eq!(Interpreter::new().evaluate(text).ok(), expected);
                    }
                }
            }
        }
    }
}

#[test]
fn chain_law_on_samples() {
    let samples = [1, 2, 5, 9];
    for &a in &samples {
        for &b in &samples {
            for &c in &samples {
                for op1 in OPERATORS {
                    for op2 in OPERATORS {
                        let text = format!("{} {} {} {} {}", a, sign(op1), b, sign(op2), c);
                        let expected = machine_result(op2, b, c)
                            .and_then(|rest| machine_result(op1, a, rest));
                        assert_eq!(Interpreter::new().evaluate(text).ok(), expected);
                    }
                }
            }
        }
    }
}

#[test]
fn chain_of_four_groups_to_the_right() {
    // 100 - (20 - (3 * (2 + 1)))
    assert_eq!(Interpreter::new().evaluate("100 - 20 - 3 * 2 + 1".to_string()), Ok(89));
    // 2 * (3 * (4 / (5 - 1)))
    assert_eq!(Interpreter::new().evaluate("2 * 3 * 4 / 5 - 1".to_string()), Ok(6));
}

#[test]
fn chain_with_variables() {
    let mut calculator = Interpreter::new();
    assert_eq!(eval(&mut calculator, "let x = 4"), Ok(4));
    assert_eq!(eval(&mut calculator, "let y = 10"), Ok(10));
    assert_eq!(eval(&mut calculator, "x * 2 + y"), Ok(48));
    assert_eq!(eval(&mut calculator, "y - x - 1"), Ok(7));
    assert_eq!(eval(&mut calculator, "y / x"), Ok(2));
    assert_eq!(eval(&mut calculator, "x"), Ok(4));
    assert_eq!(eval(&mut calculator, "y"), Ok(10));
}

#[test]
fn chain_fails_with_the_error_of_its_first_failing_operand() {
    let mut calculator = Interpreter::new();
    assert_eq!(eval(&mut calculator, "let x"), Err(CalcError::NotInitialized));
    assert_eq!(eval(&mut calculator, "x + 1 / 0"), Err(CalcError::NotInitialized));
    assert_eq!(eval(&mut calculator, "1 / 0 + x"), Err(CalcError::NotInitialized));
    assert_eq!(eval(&mut calculator, "1 + 1 / 0"), Err(CalcError::DivisionByZero));
    assert_eq!(eval(&mut calculator, "1 / 0 + 2147483647 + 1"), Err(CalcError::Overflow));
}

#[test]
fn chain_assignment_law() {
    let mut calculator = Interpreter::new();
    assert_eq!(eval(&mut calculator, "let x = 1"), Ok(1));
    assert_eq!(eval(&mut calculator, "let y = 5"), Ok(5));
    assert_eq!(eval(&mut calculator, "x = y * 2 + 1"), Ok(15));
    assert_eq!(eval(&mut calculator, "x"), Ok(15));
    assert_eq!(eval(&mut calculator, "y"), Ok(5));
    assert_eq!(eval(&mut calculator, "x = x - y"), Ok(10));
    assert_eq!(eval(&mut calculator, "x = 1 / 0"), Err(CalcError::DivisionByZero));
    assert_eq!(eval(&mut calculator, "x = 2147483647 + y"), Err(CalcError::Overflow));
    assert_eq!(eval(&mut calculator, "x"), Ok(10));
}

#[test]
fn group_then_chain_law() {
    let mut calculator = Interpreter::new();
    assert_eq!(eval(&mut calculator, "let x = 4"), Ok(4));
    assert_eq!(eval(&mut calculator, "let y = 10"), Ok(10));
    // (x + 1) * (y - 2)
    assert_eq!(eval(&mut calculator, "[x + 1] * y - 2"), Ok(40));
    // (y / x) - (1 - (2 - 3))
    assert_eq!(eval(&mut calculator, "[y / x] - 1 - 2 - 3"), Ok(0));
    assert_eq!(eval(&mut calculator, "[y / 0] - x"), Err(CalcError::DivisionByZero));
    assert_eq!(eval(&mut calculator, "[y / 0] - z"), Err(CalcError::DivisionByZero));
    assert_eq!(eval(&mut calculator, "[y + 1] / x - 4"), Err(CalcError::DivisionByZero));
    assert_eq!(eval(&mut calculator, "x"), Ok(4));
    assert_eq!(eval(&mut calculator, "y"), Ok(10));
}

#[test]
fn closing_bracket_groups_only_the_operator_before_it() {
    // 1 - ((2 - 3) * 4)
    assert_eq!(Interpreter::new().evaluate("[1 - 2 - 3] * 4".to_string()), Ok(5));
}

#[test]
fn unclosed_bracket_law() {
    let mut calculator = Interpreter::new();
    assert_eq!(eval(&mut calculator, "let x = 4"), Ok(4));
    for text in ["[1", "[x", "[1 + 2", "[x * 2 + 1", "[1 / 0"] {
        assert_eq!(eval(&mut calculator, text), Err(CalcError::UnbalancedBrackets));
    }
    assert_eq!(eval(&mut calculator, "x"), Ok(4));
}

#[test]
fn unopened_bracket_law() {
    let mut calculator = Interpreter::new();
    assert_eq!(eval(&mut calculator, "let x = 4"), Ok(4));
    for text in ["1]", "x]", "1 + 2]", "x * 2 + 1]", "1 / 0]"] {
        assert_eq!(eval(&mut calculator, text), Err(CalcError::BracketError));
    }
    assert_eq!(eval(&mut calculator, "x"), Ok(4));
}

#[test]
fn undeclared_name_law() {
    for name in ["y", "total", "x1", "a.b", "_", "LET", "lets"] {
        let mut calculator = Interpreter::new();
        assert_eq!(eval(&mut calculator, name), Err(CalcError::UndefinedValue));
        assert_eq!(eval(&mut calculator, name), Err(CalcError::UndefinedValue));
    }
}

#[test]
fn declaration_law() {
    for name in ["y", "total", "x1", "a.b", "_", "LET", "lets"] {
        let mut calculator = Interpreter::new();
        let declaration = format!("let {}", name);
        assert_eq!(eval(&mut calculator, &declaration), Err(CalcError::NotInitialized));
        assert_eq!(eval(&mut calculator, name), Err(CalcError::NotInitialized));
        assert_eq!(eval(&mut calculator, &format!("{} = 3", name)), Ok(3));
        assert_eq!(eval(&mut calculator, &declaration), Err(CalcError::NotInitialized));
        assert_eq!(eval(&mut calculator, name), Err(CalcError::NotInitialized));
    }
}

#[test]
fn declare_assign_read_law() {
    for (name, literal, value) in [("x", "5", 5), ("rate", "12.75", 12), ("n", "2147483647", 2147483647)] {
        let mut calculator = Interpreter::new();
        assert_eq!(eval(&mut calculator, "let x = 9"), Ok(9));
        assert_eq!(eval(&mut calculator, &format!("let {}", name)), Err(CalcError::NotInitialized));
        assert_eq!(eval(&mut calculator, &format!("{} = {}", name, literal)), Ok(value));
        assert_eq!(eval(&mut calculator, name), Ok(value));
    }
}

#[test]
fn assignment_to_undeclared_name_law() {
    let mut calculator = Interpreter::new();
    assert_eq!(eval(&mut calculator, "y = 5"), Err(CalcError::UndefinedValue));
    assert_eq!(eval(&mut calculator, "y"), Err(CalcError::UndefinedValue));
}

#[test]
fn declaration_with_value_law() {
    let mut calculator = Interpreter::new();
    assert_eq!(eval(&mut calculator, "let y = 4"), Ok(4));
    assert_eq!(eval(&mut calculator, "let x = y * 2 + 1"), Ok(12));
    assert_eq!(eval(&mut calculator, "let x = x - y"), Err(CalcError::NotInitialized));
    assert_eq!(eval(&mut calculator, "let x = y / 0"), Err(CalcError::DivisionByZero));
    assert_eq!(eval(&mut calculator, "x"), Err(CalcError::NotInitialized));
    assert_eq!(eval(&mut calculator, "let y = 10 - y"), Err(CalcError::NotInitialized));
    assert_eq!(eval(&mut calculator, "let y = 10 - 3"), Ok(7));
    assert_eq!(eval(&mut calculator, "y"), Ok(7));
}

#[test]
fn declared_again_is_independent() {
    let mut parser = Parser::new(Vec::new());
    let mut held: Vec<(AnyNode, Result<i32, CalcError>)> = Vec::new();
    for (statement, value) in [("let x = 1", 1), ("let x = 20", 20), ("let x = 300", 300)] {
        parser.set_tokens(tokenize(statement.to_string()).unwrap());
        assert_eq!(parser.parse(), Ok(()));
        let root = parser.get_tree().unwrap();
        assert_eq!(root.evaluate(parser.cells()), Ok(value));
        for (node, before) in &held {
            assert_eq!(&node.evaluate(parser.cells()), before);
            assert_ne!(node, &root);
        }
        held.push((root, Ok(value)));
    }
    assert_eq!(parser.cells().len(), 3);
    assert_eq!(parser.lookup("x"), Some(2));
}

#[test]
fn statements_keep_the_bindings() {
    let statements = [
        "let x = 1",
        "let x",
        "let x = 2",
        "x = ]",
        "[x = 3",
        "let y = x ; ]",
        "1.2.3",
        "x + y",
        "let let z",
        "let z = [x = 4] + y",
        "",
        "= = =",
    ];
    let mut parser = Parser::new(Vec::new());
    let mut bound: Vec<String> = Vec::new();
    let mut cells = 0;
    for statement in statements {
        let table_before: Vec<Option<usize>> =
            ["x", "y", "z"].iter().map(|name| parser.lookup(name)).collect();
        if let Ok(tokens) = tokenize(statement.to_string()) {
            parser.set_tokens(tokens);
            let _ = parser.parse();
        }
        for name in &bound {
            assert!(parser.lookup(name).is_some());
        }
        assert!(parser.cells().len() >= cells);
        let table_after: Vec<Option<usize>> =
            ["x", "y", "z"].iter().map(|name| parser.lookup(name)).collect();
        if !statement.contains("let") {
            assert_eq!(table_after, table_before);
            assert_eq!(parser.cells().len(), cells);
        }
        cells = parser.cells().len();
        for name in ["x", "y", "z"] {
            if let Some(handle) = parser.lookup(name) {
                assert!(handle < cells);
                if !bound.iter().any(|known| known == name) {
                    bound.push(name.to_string());
                }
            }
        }
    }
    assert_eq!(bound.len(), 3);
}

#[test]
fn trees_are_no_larger_than_their_statements() {
    fn size(node: &AnyNode) -> usize {
        match node {
            AnyNode::Op(n) => {
                1 + n.left.as_ref().map_or(0, |l| size(l)) + n.right.as_ref().map_or(0, |r| size(r))
            }
            AnyNode::Block(n) => 1 + n.body.as_ref().map_or(0, |b| size(b)),
            _ => 1,
        }
    }
    for text in ["1", "1 + 2", "[1 + 2] * 3", "let x = [1 + 2] - 3", "1 - 2 - 3 - 4", "[[[[7]]]]"] {
        let tokens = tokenize(text.to_string()).unwrap();
        let count = tokens.len();
        let mut parser = Parser::new(tokens);
        assert_eq!(parser.parse(), Ok(()));
        let root = parser.get_tree().unwrap();
        assert!(size(&root) <= count);
    }
}

#[test]
fn value_needs_a_complete_tree() {
    let mut cells = Cells::new();
    let handle = cells.allocate();
    let incomplete: Vec<AnyNode> = vec![
        AnyNode::Op(OperatorNode::new(Operator::Add)),
        AnyNode::Block(Block::new()),
        AnyNode::Sym(SymNode::new("y".to_string())),
        AnyNode::Var(VarNode::new("x".to_string(), handle)),
    ];
    for node in &incomplete {
        let kind = node.evaluate(&cells).unwrap_err().kind();
        assert_ne!(kind, ErrorKind::ArithmeticError);
    }
    for node in incomplete {
        let mut parent = OperatorNode::new(Operator::Mul);
        parent.left = Some(Box::new(AnyNode::Num(NumNode::new(1))));
        parent.right = Some(Box::new(node));
        assert!(parent.evaluate(&cells).is_err());
    }
}

#[test]
fn complete_tree_fails_only_in_arithmetic() {
    let mut calculator = Interpreter::new();
    assert_eq!(eval(&mut calculator, "let x = 0"), Ok(0));
    for text in ["1 / x", "[2147483647 + 1]", "0 - 2147483647 + 2", "[1 / 0] + 1"] {
        let error = eval(&mut calculator, text).unwrap_err();
        assert_eq!(error.kind(), ErrorKind::ArithmeticError);
    }
    assert_eq!(eval(&mut calculator, "[1 + x] * 3"), Ok(3));
}

#[test]
fn number_text_reads_back() {
    for v in [0, 1, 9, 10, 11, 99, 100, 4096, 1000000007, 2147483646, 2147483647] {
        assert_eq!(tokenize(decimal_text(v)), Ok(vec![Token::Int(v)]));
    }
}

#[test]
fn negative_number_text_reads_as_a_subtraction() {
    assert_eq!(tokenize(decimal_text(-5)), Ok(vec![Token::Sub, Token::Int(5)]));
}

#[test]
fn chain_text_reads_back() {
    let mut parser = Parser::new(tokenize("let x = 6".to_string()).unwrap());
    assert_eq!(parser.parse(), Ok(()));
    for text in ["1", "x", "007 + x", "12.5 * x - 3", "x / 04 / x.", "100 - 20 - 3 * 2 + 1"] {
        parser.set_tokens(tokenize(text.to_string()).unwrap());
        assert_eq!(parser.parse(), Ok(()));
        let tree = parser.get_tree().unwrap();
        let value = tree.evaluate(parser.cells());
        let written = tree.text();
        parser.set_tokens(tokenize(written).unwrap());
        assert_eq!(parser.parse(), Ok(()));
        let read_back = parser.get_tree().unwrap();
        assert_eq!(read_back, tree);
        assert_eq!(read_back.evaluate(parser.cells()), value);
    }
}

#[test]
fn text_of_a_left_nested_tree_reads_back_as_another_tree() {
    // 1 - 2 stands on the left of the outer operator, but the text groups
    // to the right: (1 - 2) - 3 is written as 1 - 2 - 3
    let mut inner = OperatorNode::new(Operator::Sub);
    inner.left = Some(Box::new(AnyNode::Num(NumNode::new(1))));
    inner.right = Some(Box::new(AnyNode::Num(NumNode::new(2))));
    let mut outer = OperatorNode::new(Operator::Sub);
    outer.left = Some(Box::new(AnyNode::Op(inner)));
    outer.right = Some(Box::new(AnyNode::Num(NumNode::new(3))));
    let cells = Cells::new();
    assert_eq!(outer.evaluate(&cells), Ok(-4));
    assert_eq!(outer.text(), "1 - 2 - 3");
    assert_eq!(Interpreter::new().evaluate(outer.text()), Ok(2));
}

#[test]
fn lexing_does_not_depend_on_what_stands_before() {
    let pieces = ["1", "x", "let", "+", "[", "]", ";", "12.5", "a.b", "="];
    for first in pieces {
        for second in pieces {
            let text = format!("{} {}", first, second);
            let mut expected: Vec<Token> = tokenize(first.to_string()).unwrap();
            expected.extend(tokenize(second.to_string()).unwrap());
            assert_eq!(tokenize(text), Ok(expected));
        }
    }
}
