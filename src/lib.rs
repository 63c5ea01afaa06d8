//! Front end of a small expression language: a tokenizer that splits source
//! text into statement groups, a precedence-climbing parser, and a lowering
//! pass that emits Cranelift IR for each statement.
pub mod text;
pub mod tokenizer;
pub mod parser;
pub mod lowering;
pub mod compiler;
