use vstd::prelude::*;

/// Type annotation: literal typing, strict unification, and the per-function variables.
pub mod annotate;
/// The untyped syntax tree and the model of source types.
pub mod ast;
/// A cursor over tokens.
pub mod iter;
/// Splitting source text into tokens.
pub mod lexer;
/// Lowering annotated declarations to the intermediate representation.
pub mod lower;
/// Decimal and floating-point notation of numeric literals.
pub mod numeric;
/// Recursive-descent parsing of tokens into declarations.
pub mod parser;
/// The intermediate representation and its reference-count accounting.
pub mod qir;
/// Source positions.
pub mod span;
/// Tokens.
pub mod tokens;
/// The type table, its gathering, and diagnostics.
pub mod types;

verus! {

} // verus!
