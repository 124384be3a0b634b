pub mod span;
pub mod ast;
pub mod symbols;
pub mod types;
pub mod hir;
pub mod hir_copy;
pub mod error;
pub mod context;
pub mod builtin;
pub mod analyzer;
pub mod expr;
pub mod call;
pub mod members;
pub mod new;
pub mod postfix;
pub mod decl;
pub mod type_decl;
pub mod laws;
