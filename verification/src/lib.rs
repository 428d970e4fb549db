//! A small virtual-machine runtime for a visual programming canvas.
//!
//! Programs are written in a line-oriented assembly dialect, assembled by
//! [`parser::Parser`] into an opcode stream plus a symbol table, executed by a
//! [`machine::Machine`] over a fixed 16-bit word [`memory::Memory`], and
//! composed on a [`canvas::Canvas`] whose wires carry messages between blocks.

pub mod block;
pub mod canvas;
pub mod canvas_error;
pub mod compile;
pub mod controller;
pub mod machine;
pub mod machine_error;
pub mod memory;
pub mod message;
pub mod op;
pub mod parse_error;
pub mod parser;
pub mod router;
pub mod symbols;
pub mod text;
