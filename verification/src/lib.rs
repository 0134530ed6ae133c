//! A shell that forwards commands to the calling shell, or asks a local
//! language model when the line is prefixed with `@`: how lines are
//! understood, what the model's tools may do, and what is shown.

pub mod gauge;
pub mod llm;
pub mod order;
pub mod paths;
pub mod rounding;
pub mod shell;
pub mod text;
pub mod tools;
