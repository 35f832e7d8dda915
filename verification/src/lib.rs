//! A small engine for scripted instructions.
//!
//! A function is a list of statements over variables that hold tagged values
//! such as `int:42`, `str:hello` or `var:name`. The engine runs functions by
//! name against a context of global variables, and encodes the calls of
//! instructions into frames of eight bytes.
//!
//! - `variable`: declarations, stores of bindings, and the resolution of names
//! - `statement`: the statements and their builders
//! - `instruction`: instruction definitions and the encoding of frames
//! - `loops`: which end of a loop belongs to which loop
//! - `semantics`: what statements, calls and runs do
//! - `function`: function definitions and the interpreter
//! - `engine`: the registries of definitions and the context of a run
//! - `laws`: what holds of every store, function and run
//! - `number`, `utils`: decimal numbers and texts

pub mod engine;
pub mod function;
pub mod instruction;
pub mod laws;
pub mod loops;
pub mod number;
pub mod semantics;
pub mod statement;
pub mod utils;
pub mod variable;
