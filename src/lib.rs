//! A front end and evaluator for a small stack-oriented scripting notation:
//! a span-tracked scanner, a recursive-descent parser producing a procedure
//! table, and a stack evaluator with a fixed set of built-in operations.
pub mod codegen;
pub mod error;
pub mod parser;
pub mod runtime;
pub mod stack;
pub mod tokenizer;
