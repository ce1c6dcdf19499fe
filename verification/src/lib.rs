//! A small expression-oriented scripting language over integers of any
//! size.
//!
//! A program is a list of declarations of variables and functions and of
//! expressions that stand outside every declaration. [`lexer`] splits its
//! text into tokens, [`parser`] finds the declarations, parses their bodies
//! by the levels of the operators and resolves every name, and
//! [`interpreter`] walks the resolved expressions against an environment
//! that it changes in place. [`ast`] holds the resolved program, [`number`]
//! the integers, [`error`] what can go wrong, and [`text`] what is needed of
//! strings.

pub mod ast;
pub mod error;
pub mod interpreter;
pub mod lexer;
pub mod number;
pub mod parser;
pub mod text;
