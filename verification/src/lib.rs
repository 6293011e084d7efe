//! Expansion of macro-annotated robot descriptions ("xacro") into plain XML
//! trees: a tokenizer for substitution spans, an expression evaluator over a
//! table of properties, and the engine that resolves properties, conditionals
//! and macro calls in an element tree.

pub mod dict;
pub mod document;
pub mod eval;
pub mod expr;
pub mod laws;
pub mod lexer;
pub mod text;
pub mod xacro;
