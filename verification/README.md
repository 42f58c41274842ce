# A verified stack-based bytecode machine

A small bytecode virtual machine in the family of the JVM or the CLR: a compact
instruction set over an explicit value stack, per-call frames with slot 0
holding the callee, a constant pool per function, string interning through an
open-addressing hash table, a mark-sweep garbage collector, and a disassembler.
The library is written in Verus and every function in it is verified against
its contract.

## Layout

| Path | Contents |
|------|----------|
| `src/chunk.rs` | Opcodes, their byte encoding, and the assembler (`emit_*`, `patch_jump`, `emit_loop`) |
| `src/value.rs` | Values (numbers are IEEE-754 bit patterns), heap objects, the object heap, FNV-1a hashing, number comparison, negation and whole-number printing |
| `src/table.rs` | The open-addressing hash table used for globals and interning, modelled as a map |
| `src/vm.rs` | The machine: stack, frames, the collector, allocation, and one `step` per instruction |
| `src/semantics.rs` | What each instruction does, stated over the abstract machine state |
| `src/debug.rs` | The disassembler, which decodes a chunk into a listing |
| `src/programs.rs` | The demo programs (recursive Fibonacci, a while-loop sum, a collector workout), built with the assembler, with their exact bytecode stated |
| `src/laws.rs` | Properties of the machine as a whole, proved from the contracts |
| `app/main.rs` | The demo driver and host: runs the programs and does the host's share of the work |
| `tests/` | End-to-end programs and tests of each part |

## The host

The library does everything but floating-point arithmetic, the printing of
numbers that are not whole numbers below 10^15, and native functions. `Vm::step`
runs one instruction and returns an `Action`; when it asks for one of those
three, the host (see `app/main.rs`) performs it and hands the result back with
`Vm::push` or `Vm::record_output`.
