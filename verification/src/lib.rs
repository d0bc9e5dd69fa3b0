use vstd::prelude::*;

pub mod util;
pub mod ast;
pub mod ast_view;
pub mod ast_copy;
pub mod common;
pub mod semantic;
pub mod tacky;
pub mod assembly;
pub mod token;
pub mod parser;
pub mod lexer;

verus! {
} // verus!
