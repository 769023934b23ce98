//! Coarse syntax categories shared by the lexer and the parser.
//!
//! `Symbol` names every punctuation mark of the language that carries
//! meaning on its own; the lexer folds two-character operators such as
//! `==` and `->` into a single `Symbol`. `AST` and `ASTStruct` give a
//! flat, position-annotated view of a token: a record of what category
//! a lexeme fell into and where it stood in the source.

use vstd::prelude::*;

verus! {

/// A punctuation or operator symbol of the language.
#[derive(Debug, Clone, Copy, PartialEq, Eq, Structural)]
pub enum Symbol {
    /// `=`
    Equal,
    /// `<`
    Less,
    /// `<=`
    LessEqual,
    /// `>`
    Greater,
    /// `>=`
    GreaterEqual,
    /// `!=`
    InEquality,
    /// `==`
    Equality,
    /// `!`, the void sentinel and negation mark
    Bang,
    /// `->`
    Arrow,
    /// `;`
    SemiColon,
    /// `:`
    Colon,
}

/// A coarse syntax category: what kind of thing a lexeme is.
#[derive(Debug, Clone, PartialEq)]
pub enum AST {
    Byte(u8),
    Return,
    Define,
    Declare,
    Type(String),
    Name(String),
    Symbol(Symbol),
}

/// A categorised lexeme together with its position in the source text:
/// the brace depth it appeared at, its column, and its line.
#[derive(Debug, Clone)]
pub struct ASTStruct {
    pub ast: AST,
    pub scope: usize,
    pub char_pos: usize,
    pub line: usize,
}

} // verus!
