//! The syntax tree of NASL.
use crate::token::{Category, Token, ACT};
use vstd::prelude::*;

verus! {

/// Whether an assignment gives back the new value (`++a`) or the previous one
/// (`a++`).
#[derive(Clone, Copy, Debug, PartialEq, Eq, Structural)]
pub enum AssignOrder {
    /// Assign first, then return the new value
    AssignReturn,
    /// Return the previous value, then assign
    ReturnAssign,
}

/// Where `local_var` and `global_var` declare their names.
#[derive(Clone, Copy, Debug, PartialEq, Eq, Structural)]
pub enum DeclareScope {
    /// The innermost frame
    Local,
    /// The root frame
    Global,
}

/// A node of the syntax tree.
#[derive(Debug, PartialEq, Eq)]
pub enum Statement {
    /// A literal
    Primitive(Token),
    /// A variable read
    Variable(Token),
    /// A variable with an optional index or key
    Array(Token, Option<Box<Statement>>),
    /// A list: the elements of an array literal or the arguments of a call
    Parameter(Vec<Statement>),
    /// An assignment: operator, order, target, right side
    Assign(Category, AssignOrder, Box<Statement>, Box<Statement>),
    /// An operator and its one or two operands
    Operator(Category, Vec<Statement>),
    /// A call of the named function with its arguments
    Call(Token, Box<Statement>),
    /// An argument passed by name
    NamedParameter(Token, Box<Statement>),
    /// Condition, branch, optional else branch
    If(Box<Statement>, Box<Statement>, Option<Box<Statement>>),
    /// Initialisation, condition, update, body
    For(Box<Statement>, Box<Statement>, Box<Statement>, Box<Statement>),
    /// Condition and body
    While(Box<Statement>, Box<Statement>),
    /// Body and the condition that ends the loop
    Repeat(Box<Statement>, Box<Statement>),
    /// Loop variable, iterated value, body
    ForEach(Token, Box<Statement>, Box<Statement>),
    /// Statements in braces
    Block(Vec<Statement>),
    /// Name, parameter names, body
    FunctionDeclaration(Token, Vec<Token>, Box<Statement>),
    /// A return with its value
    Return(Box<Statement>),
    /// An include of another source
    Include(Box<Statement>),
    /// An exit with its code
    Exit(Box<Statement>),
    /// A declaration of names
    Declare(DeclareScope, Vec<Token>),
    /// A scanning phase
    AttackCategory(ACT),
    /// An empty statement, with the token that ended it
    NoOp(Option<Token>),
    /// The end of the source
    EoF,
}

} // verus!
