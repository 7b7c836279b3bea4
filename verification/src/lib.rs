use vstd::prelude::*;

pub mod text;
pub mod token;
pub mod reader;
pub mod lexer;
pub mod allocator;
pub mod dirs;
pub mod testlist;
pub mod builtin;
pub mod assoc;
pub mod node;
pub mod object;
pub mod objsys;
pub mod stack;
pub mod heapobjs;
pub mod expression;
pub mod parser;
pub mod state;
pub mod typechecker;
pub mod values;
pub mod evalhelp;
pub mod api;
pub mod loader;
pub mod evaluator;

verus! {
} // verus!
