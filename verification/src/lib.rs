//! Front end and lowering stage of the ijssel compiler: source text is turned
//! into tokens, tokens into a syntax tree, and the tree into the instruction
//! list of a backend module.

pub mod parser;
pub mod text;
pub mod type_system;
pub mod modules;
pub mod codegen;
pub mod machine;
