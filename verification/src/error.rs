//! The errors that parsing, resolution and evaluation report.

use crate::lexer::LexedToken;
use vstd::prelude::*;

verus! {

/// What went wrong while a program was parsed or resolved.
#[derive(Debug, Clone, Copy, PartialEq, Eq, Structural)]
pub enum SyntaxErrorKind {
    /// An expression was expected where the tokens end.
    NothingToParse,
    /// No expression starts with this token.
    UnknownPrefix,
    /// The text of a number token is no integer literal.
    InvalidNumber,
    /// A parenthesis closes directly after it opens.
    EmptyBlock,
    /// An opening parenthesis is never closed.
    MissingClosingParenthesis,
    /// Arguments follow something other than an identifier, or a parameter is
    /// no identifier.
    IdentifierExpected,
    /// Something other than a comma or a closing parenthesis follows an argument
    /// or a parameter.
    CloseOrCommaExpected,
    /// A token that joins no two expressions stands where an operator is needed.
    UnknownInfix,
    /// A declaration has no name where one is needed.
    ExpectedIdentifier,
    /// A declaration holds a second name or a second body.
    InvalidToken,
    /// A declaration holds a token that cannot stand where it is.
    ExpectedAssign,
    /// Guard clauses come before the definition they guard.
    ExpectedDefinition,
    /// Guard clauses are not supported.
    GuardNotSupported,
    /// A name is used that no variable declares.
    VariableNotFound,
    /// A prefix operator other than the minus sign.
    UnknownPrefixOperator,
    /// An infix operator that the language does not have.
    UnknownInfixOperator,
    /// The left side of an assignment is no variable.
    AssignmentTarget,
    /// A constant is assigned to.
    ConstantReassigned,
    /// No function has this name and this number of parameters.
    FunctionNotFound,
    /// What is called is no name.
    CalleeNotIdentifier,
    /// An expression is needed where none is.
    NotAnExpression,
}

/// An error found while a program was parsed or resolved, with the token at
/// which it was found.
#[derive(Debug)]
pub struct SyntaxError {
    pub kind: SyntaxErrorKind,
    /// The offending token; `None` where the tokens ended.
    pub token: Option<LexedToken>,
    /// By how many columns a marker under the token is moved to the right.
    pub offset: isize,
}

impl SyntaxError {
    /// The error of kind `kind` at `token`.
    pub open spec fn at(kind: SyntaxErrorKind, token: LexedToken) -> SyntaxError {
        SyntaxError { kind, token: Some(token), offset: 0 }
    }

    /// The error of kind `kind` that no token stands for.
    pub open spec fn at_end(kind: SyntaxErrorKind) -> SyntaxError {
        SyntaxError { kind, token: None, offset: 0 }
    }

    /// The error of kind `kind` at `token`, with its marker moved by `offset`.
    pub open spec fn at_offset(kind: SyntaxErrorKind, token: LexedToken, offset: isize) -> SyntaxError {
        SyntaxError { kind, token: Some(token), offset }
    }

    /// The error of kind `kind` at a copy of `token`.
    pub fn new(kind: SyntaxErrorKind, token: &LexedToken) -> (r: SyntaxError)
        ensures
            r == SyntaxError::at(kind, *token),
    {
        SyntaxError { kind, token: Some(token.clone()), offset: 0 }
    }

    /// The error of kind `kind` that no token stands for.
    pub fn without_token(kind: SyntaxErrorKind) -> (r: SyntaxError)
        ensures
            r == SyntaxError::at_end(kind),
    {
        SyntaxError { kind, token: None, offset: 0 }
    }

    /// The error of kind `kind` at a copy of `token`, with its marker moved by `offset`.
    pub fn with_offset(kind: SyntaxErrorKind, token: &LexedToken, offset: isize) -> (r: SyntaxError)
        ensures
            r == SyntaxError::at_offset(kind, *token, offset),
    {
        SyntaxError { kind, token: Some(token.clone()), offset }
    }
}

/// What went wrong while a text was split into tokens.
#[derive(Debug, Clone, Copy, PartialEq, Eq, Structural)]
pub enum LexError {
    /// No kind of token recognises the text of line `line` from column
    /// `index` on.
    Unrecognized { line: usize, index: usize },
    /// The pattern of the kind of token at place `token` is no regular
    /// expression.
    InvalidPattern { token: usize },
}

/// What went wrong while a program ran.
#[derive(Debug, Clone, Copy, PartialEq, Eq, Structural)]
pub enum RuntimeError {
    /// A variable is read or assigned that the environment does not hold.
    VariableNotFound,
    /// No function has the name and the number of arguments of a call.
    FunctionNotFound,
    /// A division by zero.
    DivisionByZero,
    /// An exponent that is negative or does not fit in 32 bits.
    ExponentOutOfRange,
    /// A constant is assigned to.
    ConstantReassigned,
    /// A reference that names no variable is followed.
    DanglingReference,
    /// A variable is passed by reference to a function that caches its results.
    ReferenceInCachedCall,
    /// What is evaluated is no expression, or the body of a function of the host.
    NotExecutable,
    /// Evaluation nests deeper than the limit that it was given.
    DepthExceeded,
}

} // verus!
