//! The back end of a compiler for a statically typed, expression-oriented
//! language: lowering of expressions into register-addressed instructions,
//! dead code elimination over flattened single-assignment function bodies,
//! and the diagnostic handling both share.

use vstd::prelude::*;

pub mod ast;
pub mod codegen;
pub mod dce;
pub mod errors;
pub mod instruction;
