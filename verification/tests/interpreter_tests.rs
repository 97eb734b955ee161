use feynman::error::{CalcError, ErrorKind};
use feynman::interpreter::cells::Cells;
use feynman::interpreter::nodes::{AnyNode, NumNode, SymNode};
use feynman::interpreter::{AbstractTree, Interpreter};

fn eval(calculator: &mut Interpreter, text: &str) -> Result<i32, CalcError> {
    calculator.evaluate(text.to_string())
}

fn once(text: &str) -> Result<i32, CalcError> {
    Interpreter::new().evaluate(text.to_string())
}

#[test]
fn binary_expression_applies_the_operator() {
    assert_eq!(once("8 + 2"), Ok(10));
    assert_eq!(once("8 - 2"), Ok(6));
    assert_eq!(once("8 * 2"), Ok(16));
    assert_eq!(once("8 / 2"), Ok(4));
    assert_eq!(once("2 - 8"), Ok(-6));
    assert_eq!(once("7 / 2"), Ok(3));
    assert_eq!(once("0 / 5"), Ok(0));
}

#[test]
fn binary_expression_of_malformed_literal_is_a_lex_error() {
    assert_eq!(once("1.2.3 + 4"), Err(CalcError::LexError));
    assert_eq!(once("1 + 2147483648"), Err(CalcError::LexError));
}

#[test]
fn binary_expression_may_fail_in_arithmetic() {
    assert_eq!(once("1 / 0"), Err(CalcError::DivisionByZero));
    assert_eq!(once("2147483647 + 1"), Err(CalcError::Overflow));
    assert_eq!(once("65536 * 65536"), Err(CalcError::Overflow));
    assert_eq!(once("2147483647 + 0"), Ok(2147483647));
    assert_eq!(once("0 - 2147483647"), Ok(-2147483647));
}

#[test]
fn fraction_of_a_literal_is_dropped() {
    assert_eq!(once("1.9 + 2.9"), Ok(3));
    assert_eq!(once("7.5"), Ok(7));
}

#[test]
fn bracketed_group_is_evaluated_first() {
    assert_eq!(once("[1 + 2] * 3"), Ok(9));
    assert_eq!(once("[11 - 6] * 2"), Ok(10));
    assert_eq!(once("[8 / 3] * 3"), Ok(6));
    assert_eq!(once("[2 - 5] - 4"), Ok(-7));
    assert_eq!(once("[1 / 0] * 3"), Err(CalcError::DivisionByZero));
    assert_eq!(once("[2147483647 + 1] - 1"), Err(CalcError::Overflow));
}

#[test]
fn declare_assign_read() {
    let mut calculator = Interpreter::new();
    assert_eq!(eval(&mut calculator, "let x"), Err(CalcError::NotInitialized));
    assert_eq!(eval(&mut calculator, "x = 5"), Ok(5));
    assert_eq!(eval(&mut calculator, "x"), Ok(5));
}

#[test]
fn declared_variable_without_a_value_is_not_initialized() {
    let mut calculator = Interpreter::new();
    assert_eq!(eval(&mut calculator, "let x"), Err(CalcError::NotInitialized));
    assert_eq!(eval(&mut calculator, "x"), Err(CalcError::NotInitialized));
    assert_eq!(eval(&mut calculator, "x + 1"), Err(CalcError::NotInitialized));
    assert_eq!(eval(&mut calculator, "x").unwrap_err().kind(), ErrorKind::NotInitialized);
}

#[test]
fn undeclared_name_is_undefined() {
    assert_eq!(once("y"), Err(CalcError::UndefinedValue));
    assert_eq!(once("y").unwrap_err().kind(), ErrorKind::UndefinedValue);
    assert_eq!(once("1 + y"), Err(CalcError::UndefinedValue));
    let mut calculator = Interpreter::new();
    assert_eq!(eval(&mut calculator, "let x = 1"), Ok(1));
    assert_eq!(eval(&mut calculator, "X"), Err(CalcError::UndefinedValue));
}

#[test]
fn undeclared_name_hides_what_follows_it() {
    assert_eq!(once("y + 1"), Err(CalcError::UndefinedValue));
    assert_eq!(once("y = 5"), Err(CalcError::UndefinedValue));
    assert_eq!(once("y ]"), Err(CalcError::UndefinedValue));
}

#[test]
fn unmatched_brackets_are_bracket_errors() {
    assert_eq!(once("[1 + 2").unwrap_err().kind(), ErrorKind::BracketError);
    assert_eq!(once("1 + 2]").unwrap_err().kind(), ErrorKind::BracketError);
    assert_eq!(once("[1 + 2"), Err(CalcError::UnbalancedBrackets));
    assert_eq!(once("1 + 2]"), Err(CalcError::BracketError));
    assert_eq!(once("[]"), Err(CalcError::InvalidBracket));
    assert_eq!(once("[]").unwrap_err().kind(), ErrorKind::BracketError);
}

#[test]
fn operators_have_no_precedence() {
    assert_eq!(once("11 - 6 * 2"), Ok(-1));
    assert_eq!(once("2 * 3 + 4"), Ok(14));
    assert_eq!(once("10 - 2 - 3"), Ok(11));
    assert_eq!(once("100 / 10 / 5"), Ok(50));
    assert_eq!(once("1 - 2 + 3"), Ok(-4));
}

#[test]
fn binding_persists_across_calls() {
    let mut calculator = Interpreter::new();
    assert_eq!(eval(&mut calculator, "let x"), Err(CalcError::NotInitialized));
    assert_eq!(eval(&mut calculator, "x = 3 + 4"), Ok(7));
    assert_eq!(eval(&mut calculator, "x"), Ok(7));
    assert_eq!(eval(&mut calculator, "x * 2"), Ok(14));
    assert_eq!(eval(&mut calculator, "x"), Ok(7));
}

#[test]
fn declaration_with_a_value() {
    let mut calculator = Interpreter::new();
    assert_eq!(eval(&mut calculator, "let x = 5"), Ok(5));
    assert_eq!(eval(&mut calculator, "let y = x + 1"), Ok(6));
    assert_eq!(eval(&mut calculator, "x + y"), Ok(11));
}

#[test]
fn value_of_an_assignment_is_the_variable() {
    let mut calculator = Interpreter::new();
    assert_eq!(eval(&mut calculator, "let x = 1"), Ok(1));
    assert_eq!(eval(&mut calculator, "x = x + 1"), Ok(2));
    assert_eq!(eval(&mut calculator, "x = x + x"), Ok(4));
    assert_eq!(eval(&mut calculator, "[x = 10] + x"), Ok(20));
    assert_eq!(eval(&mut calculator, "x"), Ok(10));
}

#[test]
fn a_short_session() {
    let mut calculator = Interpreter::new();
    assert_eq!(eval(&mut calculator, "let x"), Err(CalcError::NotInitialized));
    assert_eq!(eval(&mut calculator, "x = 3 + 4"), Ok(7));
    assert_eq!(eval(&mut calculator, "x * 2 + 1"), Ok(21));
    assert_eq!(eval(&mut calculator, "[x * 2] + 1"), Ok(15));
}

#[test]
fn sessions_are_independent() {
    let mut first = Interpreter::new();
    let mut second = Interpreter::new();
    assert_eq!(eval(&mut first, "let x = 1"), Ok(1));
    assert_eq!(eval(&mut second, "x"), Err(CalcError::UndefinedValue));
    assert_eq!(eval(&mut second, "let x = 2"), Ok(2));
    assert_eq!(eval(&mut first, "x"), Ok(1));
}

#[test]
fn declaring_a_bound_name_binds_it_anew() {
    let mut calculator = Interpreter::new();
    assert_eq!(eval(&mut calculator, "let x = 1"), Ok(1));
    assert_eq!(eval(&mut calculator, "let x = 2"), Ok(2));
    assert_eq!(eval(&mut calculator, "x"), Ok(2));
    assert_eq!(eval(&mut calculator, "let x"), Err(CalcError::NotInitialized));
    assert_eq!(eval(&mut calculator, "x"), Err(CalcError::NotInitialized));
    assert_eq!(eval(&mut calculator, "x = 3"), Ok(3));
    assert_eq!(eval(&mut calculator, "x"), Ok(3));
}

#[test]
fn variable_of_the_earlier_binding_keeps_its_value() {
    // the first x is read before the name is declared again
    let mut calculator = Interpreter::new();
    assert_eq!(eval(&mut calculator, "let x = 1"), Ok(1));
    assert_eq!(eval(&mut calculator, "x + let x = 5"), Ok(6));
    assert_eq!(eval(&mut calculator, "x"), Ok(5));
    assert_eq!(eval(&mut calculator, "x * let x = 7"), Ok(35));
    assert_eq!(eval(&mut calculator, "x"), Ok(7));
}

#[test]
fn name_declared_again_stands_for_the_new_variable_in_its_value() {
    let mut calculator = Interpreter::new();
    assert_eq!(eval(&mut calculator, "let x = 1"), Ok(1));
    assert_eq!(eval(&mut calculator, "let x = x + 1"), Err(CalcError::NotInitialized));
    assert_eq!(eval(&mut calculator, "x"), Err(CalcError::NotInitialized));
}

#[test]
fn declaration_errors() {
    assert_eq!(once("let"), Err(CalcError::DeclarationError));
    assert_eq!(once("let 5"), Err(CalcError::DeclarationError));
    assert_eq!(once("let 5").unwrap_err().kind(), ErrorKind::DeclarationError);
}

#[test]
fn assignment_errors() {
    assert_eq!(once("5 = 3"), Err(CalcError::CannotAssignToLiteral));
    assert_eq!(once("[1 + 2] = 3"), Err(CalcError::CannotAssignToOperator));
    assert_eq!(once("[1] = 3"), Err(CalcError::CannotAssignToBlock));
    assert_eq!(once("5 = 3").unwrap_err().kind(), ErrorKind::AssignmentError);
}

#[test]
fn incomplete_expressions() {
    assert_eq!(once("+"), Err(CalcError::IncompleteExpression));
    assert_eq!(once("1 +"), Err(CalcError::IncompleteExpression));
    assert_eq!(once("= 1"), Err(CalcError::IncompleteExpression));
    assert_eq!(once("1 +").unwrap_err().kind(), ErrorKind::IncompleteExpression);
}

#[test]
fn statement_must_leave_one_operand() {
    assert_eq!(once(""), Err(CalcError::InvalidResult));
    assert_eq!(once("   "), Err(CalcError::InvalidResult));
    assert_eq!(once("1 2"), Err(CalcError::InvalidResult));
    assert_eq!(once("1 ;"), Err(CalcError::InvalidResult));
    assert_eq!(once("1 2").unwrap_err().kind(), ErrorKind::InvalidResult);
}

#[test]
fn statement_with_an_open_bracket_is_not_valid() {
    // the undeclared name ends the run before the end of the input is seen
    assert_eq!(once("[ y ; z"), Err(CalcError::InvalidResult));
    assert_eq!(once("[ y z"), Err(CalcError::InvalidResult));
}

#[test]
fn statement_end_drops_the_operands_before_it() {
    assert_eq!(once("1 2 ; 3 * 4"), Ok(12));
    assert_eq!(once("1 ; 2 ; 3"), Ok(3));
    let mut calculator = Interpreter::new();
    assert_eq!(eval(&mut calculator, "let x ; x = 3"), Ok(3));
    assert_eq!(eval(&mut calculator, "x ; x * x"), Ok(9));
}

#[test]
fn statement_end_does_not_end_a_waiting_operator() {
    // the operator still waits for its operands when `;` has dropped them
    assert_eq!(once("1 + 2 ; 3 * 4"), Err(CalcError::IncompleteExpression));
    let mut calculator = Interpreter::new();
    assert_eq!(eval(&mut calculator, "let x = 2 ; x * x"), Err(CalcError::IncompleteExpression));
    assert_eq!(eval(&mut calculator, "x"), Err(CalcError::NotInitialized));
}

#[test]
fn failed_statement_keeps_what_it_assigned() {
    let mut calculator = Interpreter::new();
    assert_eq!(eval(&mut calculator, "let x = 1"), Ok(1));
    assert_eq!(eval(&mut calculator, "[x = 5] ]"), Err(CalcError::BracketError));
    assert_eq!(eval(&mut calculator, "x"), Ok(5));
    assert_eq!(eval(&mut calculator, "[x = 6] +"), Err(CalcError::IncompleteExpression));
    assert_eq!(eval(&mut calculator, "x"), Ok(6));
    assert_eq!(eval(&mut calculator, "[x = 7] 2"), Err(CalcError::InvalidResult));
    assert_eq!(eval(&mut calculator, "x"), Ok(7));
}

#[test]
fn statement_that_fails_before_its_assignment_assigns_nothing() {
    let mut calculator = Interpreter::new();
    assert_eq!(eval(&mut calculator, "let x = 1"), Ok(1));
    assert_eq!(eval(&mut calculator, "x = 6 ; 1 +"), Err(CalcError::IncompleteExpression));
    assert_eq!(eval(&mut calculator, "x = 2 ]"), Err(CalcError::BracketError));
    assert_eq!(eval(&mut calculator, "x = 1 / 0"), Err(CalcError::DivisionByZero));
    assert_eq!(eval(&mut calculator, "x"), Ok(1));
}

#[test]
fn failed_statement_keeps_what_it_declared() {
    let mut calculator = Interpreter::new();
    assert_eq!(eval(&mut calculator, "let x = y"), Err(CalcError::UndefinedValue));
    assert_eq!(eval(&mut calculator, "x"), Err(CalcError::NotInitialized));
    assert_eq!(eval(&mut calculator, "x = 2"), Ok(2));
}

#[test]
fn lex_error_changes_nothing() {
    let mut calculator = Interpreter::new();
    assert_eq!(eval(&mut calculator, "let x = 1"), Ok(1));
    assert_eq!(eval(&mut calculator, "x = 2 ; 1.2.3"), Err(CalcError::LexError));
    assert_eq!(eval(&mut calculator, "x"), Ok(1));
    assert_eq!(eval(&mut calculator, "1.2.3").unwrap_err().kind(), ErrorKind::LexError);
}

#[test]
fn arithmetic_errors_are_of_one_kind() {
    assert_eq!(CalcError::Overflow.kind(), ErrorKind::ArithmeticError);
    assert_eq!(CalcError::DivisionByZero.kind(), ErrorKind::ArithmeticError);
}

#[test]
fn every_error_has_its_kind() {
    let kinds = [
        (CalcError::LexError, ErrorKind::LexError),
        (CalcError::IncompleteExpression, ErrorKind::IncompleteExpression),
        (CalcError::BracketError, ErrorKind::BracketError),
        (CalcError::InvalidBracket, ErrorKind::BracketError),
        (CalcError::UnbalancedBrackets, ErrorKind::BracketError),
        (CalcError::DeclarationError, ErrorKind::DeclarationError),
        (CalcError::CannotAssignToLiteral, ErrorKind::AssignmentError),
        (CalcError::CannotAssignToOperator, ErrorKind::AssignmentError),
        (CalcError::CannotAssignUninitialized, ErrorKind::AssignmentError),
        (CalcError::CannotAssignToBlock, ErrorKind::AssignmentError),
        (CalcError::UndefinedValue, ErrorKind::UndefinedValue),
        (CalcError::NotInitialized, ErrorKind::NotInitialized),
        (CalcError::InvalidResult, ErrorKind::InvalidResult),
        (CalcError::Overflow, ErrorKind::ArithmeticError),
        (CalcError::DivisionByZero, ErrorKind::ArithmeticError),
        (CalcError::StatementTooLong, ErrorKind::LimitError),
    ];
    for (error, kind) in kinds {
        assert_eq!(error.kind(), kind);
    }
}

#[test]
fn tree_is_evaluated_from_its_root() {
    let cells = Cells::new();
    let tree = AbstractTree::new(Some(AnyNode::Num(NumNode::new(3))));
    assert_eq!(tree.eval(&cells), Ok(3));
    let tree = AbstractTree::new(Some(AnyNode::Sym(SymNode::new("y".to_string()))));
    assert_eq!(tree.eval(&cells), Err(CalcError::UndefinedValue));
}

#[test]
fn tree_without_a_root_has_no_result() {
    let cells = Cells::new();
    let tree = AbstractTree::new(None);
    assert_eq!(tree.root, None);
    assert_eq!(tree.eval(&cells), Err(CalcError::InvalidResult));
}

fn ones(count: usize) -> String {
    let mut text = String::from("1");
    for _ in 1..count {
        text.push_str(" + 1");
    }
    text
}

#[test]
fn longest_statement_is_evaluated() {
    // 512 operands and 511 operators are 1023 tokens, `;` is one more
    assert_eq!(once(&ones(512)), Ok(512));
    assert_eq!(once(&format!("; {}", ones(512))), Ok(512));
}

#[test]
fn statement_of_too_many_tokens_is_refused() {
    assert_eq!(once(&ones(513)), Err(CalcError::StatementTooLong));
    assert_eq!(once(&ones(513)).unwrap_err().kind(), ErrorKind::LimitError);
    assert_eq!(once(&ones(100000)), Err(CalcError::StatementTooLong));
    assert_eq!(once(&"[".repeat(1025)), Err(CalcError::StatementTooLong));
    assert_eq!(once(&"[".repeat(1024)), Err(CalcError::UnbalancedBrackets));
}

#[test]
fn statement_of_too_many_tokens_changes_nothing() {
    let mut calculator = Interpreter::new();
    assert_eq!(eval(&mut calculator, "let x = 1"), Ok(1));
    let long = format!("[x = 2] ; let y = {}", ones(600));
    assert_eq!(eval(&mut calculator, &long), Err(CalcError::StatementTooLong));
    assert_eq!(eval(&mut calculator, "x"), Ok(1));
    assert_eq!(eval(&mut calculator, "y"), Err(CalcError::UndefinedValue));
}

#[test]
fn deepest_nesting_is_evaluated() {
    let text = format!("{}1{}", "[".repeat(511), "]".repeat(511));
    assert_eq!(once(&text), Ok(1));
    let mut text = String::new();
    for _ in 0..255 {
        text.push_str("[1 + ");
    }
    text.push('1');
    for _ in 0..255 {
        text.push(']');
    }
    assert_eq!(once(&text), Ok(256));
}

#[test]
fn deep_nesting_is_evaluated() {
    let mut text = String::new();
    for _ in 0..200 {
        text.push_str("[1 + ");
    }
    text.push('1');
    for _ in 0..200 {
        text.push(']');
    }
    assert_eq!(once(&text), Ok(201));
}
