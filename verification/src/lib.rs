//! A compiler front-end and code generator for a small imperative
//! language whose only scalar type is the byte.
//!
//! The pipeline: `lexer` turns source text into tokens, `parser` builds
//! the abstract syntax tree, and `codegen` lowers the tree into a
//! basic-block intermediate representation (`ir`) that is checked for
//! structural well-formedness and serialized by `encode`.

use vstd::prelude::*;

pub mod ast;
pub mod grammar;
pub mod codegen;
pub mod ir;
pub mod lowering;
pub mod lexer;
pub mod parser;
pub mod sound;
pub mod tokens;

verus! {

} // verus!
