//! Single-character token classes.
//!
//! `Tokens` names the class a single source character falls into, and
//! `TokensStruct` records one classified lexeme with its position. The
//! classification is the one-character view of the language's alphabet;
//! the full lexer in `lexer` builds multi-character tokens on top of
//! the same character distinctions.

use vstd::prelude::*;

verus! {

/// The class of a single source character.
#[derive(Debug, Clone, Copy, PartialEq, Eq, Structural)]
pub enum Tokens {
    Bang,
    Equal,
    Add,
    Multiply,
    Subtract,
    Divide,
    Delimiter,
    SemiColon,
    Colon,
    Space,
    NewLine,
    Greater,
    Less,
    Ident,
    Null,
}

/// What class a single character belongs to.
pub open spec fn spec_classify(c: char) -> Tokens {
    if c == '!' {
        Tokens::Bang
    } else if c == '{' || c == '}' || c == '[' || c == ']' || c == '(' || c == ')' {
        Tokens::Delimiter
    } else if c == ' ' || c == '\t' {
        Tokens::Space
    } else if c == '+' {
        Tokens::Add
    } else if c == '*' {
        Tokens::Multiply
    } else if c == '-' {
        Tokens::Subtract
    } else if c == ';' {
        Tokens::SemiColon
    } else if c == ':' {
        Tokens::Colon
    } else if c == '\n' {
        Tokens::NewLine
    } else if c == '=' {
        Tokens::Equal
    } else if c == '>' {
        Tokens::Greater
    } else if c == '<' {
        Tokens::Less
    } else {
        Tokens::Ident
    }
}

/// Classifies one character.
pub fn classify(c: char) -> (t: Tokens)
    ensures
        t == spec_classify(c),
{
    if c == '!' {
        Tokens::Bang
    } else if c == '{' || c == '}' || c == '[' || c == ']' || c == '(' || c == ')' {
        Tokens::Delimiter
    } else if c == ' ' || c == '\t' {
        Tokens::Space
    } else if c == '+' {
        Tokens::Add
    } else if c == '*' {
        Tokens::Multiply
    } else if c == '-' {
        Tokens::Subtract
    } else if c == ';' {
        Tokens::SemiColon
    } else if c == ':' {
        Tokens::Colon
    } else if c == '\n' {
        Tokens::NewLine
    } else if c == '=' {
        Tokens::Equal
    } else if c == '>' {
        Tokens::Greater
    } else if c == '<' {
        Tokens::Less
    } else {
        Tokens::Ident
    }
}

/// One classified lexeme with its position: the line and column where it
/// was read, and the brace depth it appeared at.
#[derive(Debug, Clone, PartialEq)]
pub struct TokensStruct {
    pub token: Tokens,
    pub string: String,
    pub line: usize,
    pub char_pos: usize,
    pub scope: usize,
}

impl TokensStruct {
    pub fn new(token: Tokens, string: String, line: usize, char_pos: usize, scope: usize) -> (t:
        Self)
        ensures
            t.token == token,
            t.string@ == string@,
            t.line == line,
            t.char_pos == char_pos,
            t.scope == scope,
    {
        Self { token, string, line, char_pos, scope }
    }
}

} // verus!
