//! A stack-based bytecode virtual machine for the OMG language: a binary
//! bytecode decoder, a tagged value model with shared aggregates, structured
//! exception handling, and the built-in function surface of the runtime.

pub mod bytecode;
pub mod envmap;
pub mod error;
pub mod host;
pub mod text;
pub mod render;
pub mod value;
pub mod vm;
