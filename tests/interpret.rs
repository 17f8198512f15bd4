use nomvm::ast::{DeclarationAST, ExprAST, StatementAST, AST};
use nomvm::interpret::{InterpretErrorKind, Interpretter, Notice};

fn lit(i: i32) -> Box<ExprAST> {
    Box::new(ExprAST::Literal(i))
}

fn function(name: &str, block: ExprAST) -> DeclarationAST {
    DeclarationAST::Function { name: name.to_string(), parameters: Vec::new(), block }
}

fn run(declarations: Vec<DeclarationAST>) -> (Result<(), InterpretErrorKind>, Vec<Notice>) {
    let mut interpretter = Interpretter::new();
    let mut notices = Vec::new();
    let result = interpretter.run(AST { declarations }, &mut notices).map_err(|e| e.0);
    (result, notices)
}

#[test]
fn main_value_is_reported() {
    let body = ExprAST::Subtract(
        Box::new(ExprAST::Multiply(lit(6), lit(7))),
        Box::new(ExprAST::Divide(lit(-9), lit(2))),
    );
    let (result, notices) = run(vec![function("main", body)]);
    assert!(result.is_ok());
    assert_eq!(notices, vec![Notice::MainValue(46)]);
}

#[test]
fn other_functions_are_not_run() {
    let (result, notices) = run(vec![
        function("helper", ExprAST::Literal(1)),
        function("main", ExprAST::Add(lit(2), lit(3))),
    ]);
    assert!(result.is_ok());
    assert_eq!(notices, vec![Notice::FunctionNotRun, Notice::MainValue(5)]);
}

#[test]
fn block_statements_are_reported_not_run() {
    let block = ExprAST::Block(
        vec![StatementAST::Expression(ExprAST::Literal(1)), StatementAST::Expression(ExprAST::Literal(2))],
        Some(lit(8)),
    );
    let (result, notices) = run(vec![function("main", block)]);
    assert!(result.is_ok());
    assert_eq!(notices, vec![Notice::StatementsNotRun(2), Notice::MainValue(8)]);
}

#[test]
fn block_without_value_is_an_error() {
    let (result, notices) = run(vec![function("main", ExprAST::Block(Vec::new(), None))]);
    assert!(matches!(result, Err(InterpretErrorKind::BlockWithoutValue)));
    assert!(notices.is_empty());
}

#[test]
fn unknown_variable_is_an_error() {
    let body = ExprAST::Block(Vec::new(), Some(Box::new(ExprAST::Variable("x".to_string()))));
    let (result, _) = run(vec![function("main", body)]);
    match result {
        Err(InterpretErrorKind::UnknownVariable(name)) => assert_eq!(name, "x"),
        other => panic!("unexpected result {other:?}"),
    }
}

#[test]
fn division_by_zero_is_an_error() {
    let (result, _) = run(vec![function("main", ExprAST::Divide(lit(1), lit(0)))]);
    assert!(matches!(result, Err(InterpretErrorKind::DivisionByZero)));
}

#[test]
fn overflow_is_an_error() {
    let (result, _) = run(vec![function("main", ExprAST::Add(lit(i32::MAX), lit(1)))]);
    assert!(matches!(result, Err(InterpretErrorKind::ArithmeticOverflow)));
    let (result, _) = run(vec![function("main", ExprAST::Divide(lit(i32::MIN), lit(-1)))]);
    assert!(matches!(result, Err(InterpretErrorKind::ArithmeticOverflow)));
}

#[test]
fn first_error_ends_the_run() {
    let (result, notices) = run(vec![
        function("main", ExprAST::Literal(4)),
        function("main", ExprAST::Variable("y".to_string())),
        function("other", ExprAST::Literal(0)),
    ]);
    assert!(result.is_err());
    assert_eq!(notices, vec![Notice::MainValue(4)]);
}
