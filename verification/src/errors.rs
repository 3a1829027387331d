//! The typed errors of the three phases. Each carries the source line the
//! diagnostic points at; rendering is the caller's business.

use vstd::prelude::*;
use crate::token::TokenType;

verus! {

/// A fatal lexical error.
#[derive(Debug, Clone, Copy, PartialEq, Eq, Structural)]
pub enum LexError {
    /// End of input reached before the closing quote of a string literal;
    /// the line is the one the literal started on.
    UnterminatedString { line: usize },
    /// A character outside every production. As a standalone value this is
    /// the recoverable diagnostic the scanner records before skipping the
    /// character.
    InvalidCharacter { ch: char, line: usize },
}

/// A fatal parse error.
#[derive(Debug, Clone, Copy, PartialEq, Eq, Structural)]
pub enum SyntaxError {
    /// A required token is absent; `expected` names the kind the grammar
    /// demanded, `line` the line of the token found instead.
    ExpectedToken { expected: TokenType, line: usize },
    /// The left side of `=` is not a bare variable.
    InvalidAssignmentTarget { line: usize },
    /// A rule needed a token but the input ended.
    UnexpectedEndOfInput { line: usize },
    /// No expression can start at the token found.
    ExpectedExpression { line: usize },
}

/// A fatal evaluation error.
#[derive(Debug, Clone, Copy, PartialEq, Eq, Structural)]
pub enum RuntimeError {
    /// An operand or condition has the wrong type.
    TypeMismatch { line: usize },
    /// The name is not bound in any enclosing scope.
    UndefinedVariable { line: usize },
    /// The callee of a call is not a function value.
    NotCallable { line: usize },
    /// A call supplies the wrong number of arguments.
    ArityMismatch { expected: usize, got: usize, line: usize },
    /// The explicit maximum call depth was exceeded.
    StackOverflow { line: usize },
}

/// Any error a whole run can end with.
#[derive(Debug, Clone, Copy, PartialEq, Eq, Structural)]
pub enum Error {
    Lex(LexError),
    Syntax(SyntaxError),
    Runtime(RuntimeError),
}

} // verus!
