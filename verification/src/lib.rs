//! Compiler core for EXPRESS schemas: scopes and paths, the global
//! namespace, and the algebra of partial complex entities that decides
//! which combinations of entity types an instance may inhabit.

pub mod ast;
pub mod codegen;
pub mod error;
pub mod exchange;
pub mod ir;
pub mod parser;
