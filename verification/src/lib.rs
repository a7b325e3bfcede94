use vstd::prelude::*;

pub mod ast;
pub mod ast_store;
pub mod ast_visitor;
pub mod codegen;
pub mod lexer;
pub mod parser;
pub mod parser2;
pub mod passes;
pub mod putting_it_together;
pub mod source;
pub mod span;
pub mod text;
pub mod types;

verus! {

} // verus!
