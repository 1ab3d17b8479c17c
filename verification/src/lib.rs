//! A minimal in-memory relational engine: a lexer and parser for a small
//! SQL-like statement language, and a storage engine that executes the
//! parsed statements against append-only, row-packed tables.

pub mod backend;
pub mod compiler;
pub mod create;
pub mod insert;
pub mod memory;
pub mod scanner;
pub mod select;
pub mod statements;
