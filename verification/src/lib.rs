//! Attribute-based HTTP request authorization: a small boolean expression
//! language over request attributes (method, path, host, headers), compiled
//! once at startup and evaluated per request.

pub mod ast;
pub mod compiler;
pub mod config;
pub mod context;
pub mod eval;
pub mod lexer;
pub mod parser;
pub mod pattern;
pub mod plugin;
pub mod text;
