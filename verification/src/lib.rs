//! A small interactive shell: lexing, parsing, builtin commands, job and
//! history bookkeeping, with the logic verified by Verus.
pub mod commands;
pub mod editor;
pub mod error;
pub mod parser;
pub mod repl;
pub mod state;
pub mod utils;
