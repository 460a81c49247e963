//! A trace-driven compiler that lowers a typed, allocation-based
//! intermediate representation into a linear stack-machine program for a
//! Bitcoin-Script-like target VM.
//!
//! Client code builds a [`dsl::DSL`] by allocating inputs, constants and
//! hints and by applying registered functions; [`compiler::Compiler`]
//! replays the recorded trace and emits a byte sequence that leaves exactly
//! the declared outputs on the machine's auxiliary stack.

pub mod compiler;
pub mod data_type;
pub mod dsl;
pub mod element;
pub mod errors;
pub mod encode;
pub mod functions;
pub mod memory_map;
pub mod laws;
pub mod memory;
pub mod options;
pub mod script_ops;
pub mod stack;
pub mod strutil;
