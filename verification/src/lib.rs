//! A compiler front end for a small whitespace-tokenized scripting language:
//! a tokenizer, a recursive-descent parser producing an abstract syntax tree,
//! and a tree-walking compiler that lowers the tree to a serialized
//! stack-machine instruction stream.

pub mod parser;
pub mod compiler;
pub mod ndarray;
pub mod wasm_ops;
