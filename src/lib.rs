//! Compilation core for the Yarn dialogue language. It takes parsed files
//! and produces a bytecode program, a string table of localizable lines, the
//! declarations of variables and functions, and diagnostics.
//!
//! - `tree`: the parse tree that a parser hands over, one per file.
//! - `types`, `declaration`, `diagnostic`: the value types, operators,
//!   declarations and diagnostics that every stage works with.
//! - `extraction`, `string_table`: the lines of text and their ids.
//! - `collect`: the `<<declare>>` statements.
//! - `type_check`: type inference and checking, with implicit declarations.
//! - `tracking`: the visit counters of tracked nodes.
//! - `codegen`, `program`: bytecode emission with label resolution.
//! - `output`, `compile`: the stages in order, and the combined result.
//! - `handlers`: what running dialogue reports to the game.
//! - `text`: decimal numbers, file names and messages.

pub mod codegen;
pub mod collect;
pub mod compile;
pub mod declaration;
pub mod diagnostic;
pub mod extraction;
pub mod handlers;
pub mod output;
pub mod program;
pub mod string_table;
pub mod text;
pub mod tracking;
pub mod tree;
pub mod type_check;
pub mod types;
