//! A small stack-based bytecode virtual machine: a compact instruction set
//! over an explicit value stack, per-call frames, a constant pool per
//! function, string interning, a mark-sweep garbage collector, and a
//! disassembler.

pub mod chunk;
pub mod common;
pub mod debug;
pub mod laws;
pub mod programs;
pub mod semantics;
pub mod table;
pub mod value;
pub mod vm;

pub use chunk::{Chunk, OpCode};
pub use value::{Obj, ObjFunction, ObjRef, Value};
pub use vm::{InterpretResult, Vm};
