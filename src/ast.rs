//! The syntax tree that the tree-walking evaluator consumes.

use vstd::prelude::*;

verus! {

/// A program: a sequence of declarations.
pub struct AST {
    pub declarations: Vec<DeclarationAST>,
}

pub enum DeclarationAST {
    /// A function with its name, the names of its parameters, and its body.
    Function { name: String, parameters: Vec<String>, block: ExprAST },
}

pub enum StatementAST {
    /// An expression evaluated for its effect.
    Expression(ExprAST),
}

pub enum ExprAST {
    Add(Box<ExprAST>, Box<ExprAST>),
    Subtract(Box<ExprAST>, Box<ExprAST>),
    Multiply(Box<ExprAST>, Box<ExprAST>),
    Divide(Box<ExprAST>, Box<ExprAST>),
    Literal(i32),
    /// Statements, then an optional trailing expression that gives the block's value.
    Block(Vec<StatementAST>, Option<Box<ExprAST>>),
    Variable(String),
}

} // verus!
