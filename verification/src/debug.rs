//! Disassembler: decodes a chunk into a listing of instructions.  Printing
//! the listing is up to the caller.

use vstd::prelude::*;

use crate::chunk::{Chunk, OpCode, decode_op, read_u16};
use crate::value::Value;

verus! {

/// The operand of a decoded instruction.
#[derive(Debug, Clone, Copy)]
pub enum Operand {
    /// No operand.
    Simple,
    /// A one-byte operand (a local slot or an argument count).
    Byte(u8),
    /// A constant index and the constant, or `None` when the index lies
    /// past the end of the pool (printed as `?`).
    Constant(u8, Option<Value>),
    /// A jump: the instruction's offset and the offset it jumps to.
    Jump(usize, i64),
}

/// One line of a listing.
#[derive(Debug, Clone, Copy)]
pub struct Instruction {
    pub offset: usize,
    /// The source line, or `None` when it is the same as the previous
    /// byte's line (printed as `|`).
    pub line: Option<i32>,
    pub name: &'static str,
    pub operand: Operand,
    /// Offset of the next instruction.
    pub next: usize,
}

/// The mnemonic of an opcode.
pub open spec fn op_name(op: OpCode) -> &'static str {
    match op {
        OpCode::Const => "OP_CONST",
        OpCode::Nil => "OP_NIL",
        OpCode::True => "OP_TRUE",
        OpCode::False => "OP_FALSE",
        OpCode::Pop => "OP_POP",
        OpCode::Dup => "OP_DUP",
        OpCode::GetLocal => "OP_GET_LOCAL",
        OpCode::SetLocal => "OP_SET_LOCAL",
        OpCode::GetGlobal => "OP_GET_GLOBAL",
        OpCode::DefineGlobal => "OP_DEFINE_GLOBAL",
        OpCode::SetGlobal => "OP_SET_GLOBAL",
        OpCode::Add => "OP_ADD",
        OpCode::Sub => "OP_SUB",
        OpCode::Mul => "OP_MUL",
        OpCode::Div => "OP_DIV",
        OpCode::Mod => "OP_MOD",
        OpCode::Negate => "OP_NEGATE",
        OpCode::Not => "OP_NOT",
        OpCode::Equal => "OP_EQUAL",
        OpCode::Greater => "OP_GREATER",
        OpCode::Less => "OP_LESS",
        OpCode::Print => "OP_PRINT",
        OpCode::Jump => "OP_JUMP",
        OpCode::JumpIfFalse => "OP_JUMP_IF_FALSE",
        OpCode::Loop => "OP_LOOP",
        OpCode::Call => "OP_CALL",
        OpCode::Return => "OP_RETURN",
        OpCode::Halt => "OP_HALT",
    }
}

/// Number of bytes an instruction occupies.
pub open spec fn op_len(op: OpCode) -> nat {
    match op {
        OpCode::Const | OpCode::GetLocal | OpCode::SetLocal | OpCode::GetGlobal
        | OpCode::DefineGlobal | OpCode::SetGlobal | OpCode::Call => 2,
        OpCode::Jump | OpCode::JumpIfFalse | OpCode::Loop => 3,
        _ => 1,
    }
}

/// Whether the instruction at `offset` can be decoded: it and its line
/// exist, its byte is an opcode, and its operands lie inside the code.
pub open spec fn decodable(chunk: Chunk, offset: int) -> bool {
    let code = chunk.code@;
    &&& 0 <= offset < code.len()
    &&& offset < chunk.lines@.len()
    &&& decode_op(code[offset]) is Some
    &&& offset + op_len(decode_op(code[offset])->Some_0) <= code.len()
}

/// The decoded instruction at `offset`.
pub open spec fn decoded(chunk: Chunk, offset: int) -> Instruction {
    let code = chunk.code@;
    let op = decode_op(code[offset])->Some_0;
    let line = if offset > 0 && chunk.lines@[offset] == chunk.lines@[offset - 1] {
        None
    } else {
        Some(chunk.lines@[offset])
    };
    let operand = match op {
        OpCode::Const | OpCode::GetGlobal | OpCode::DefineGlobal | OpCode::SetGlobal => {
            let idx = code[offset + 1];
            Operand::Constant(
                idx,
                if (idx as int) < chunk.constants.values@.len() {
                    Some(chunk.constants.values@[idx as int])
                } else {
                    None
                },
            )
        },
        OpCode::GetLocal | OpCode::SetLocal | OpCode::Call => Operand::Byte(code[offset + 1]),
        OpCode::Jump | OpCode::JumpIfFalse => Operand::Jump(
            offset as usize,
            (offset + 3 + read_u16(code, offset + 1)) as i64,
        ),
        OpCode::Loop => Operand::Jump(offset as usize, (offset + 3 - read_u16(code, offset + 1)) as i64),
        _ => Operand::Simple,
    };
    Instruction {
        offset: offset as usize,
        line,
        name: op_name(op),
        operand,
        next: (offset + op_len(op)) as usize,
    }
}

fn name_of(op: OpCode) -> (name: &'static str)
    ensures
        name == op_name(op),
{
    match op {
        OpCode::Const => "OP_CONST",
        OpCode::Nil => "OP_NIL",
        OpCode::True => "OP_TRUE",
        OpCode::False => "OP_FALSE",
        OpCode::Pop => "OP_POP",
        OpCode::Dup => "OP_DUP",
        OpCode::GetLocal => "OP_GET_LOCAL",
        OpCode::SetLocal => "OP_SET_LOCAL",
        OpCode::GetGlobal => "OP_GET_GLOBAL",
        OpCode::DefineGlobal => "OP_DEFINE_GLOBAL",
        OpCode::SetGlobal => "OP_SET_GLOBAL",
        OpCode::Add => "OP_ADD",
        OpCode::Sub => "OP_SUB",
        OpCode::Mul => "OP_MUL",
        OpCode::Div => "OP_DIV",
        OpCode::Mod => "OP_MOD",
        OpCode::Negate => "OP_NEGATE",
        OpCode::Not => "OP_NOT",
        OpCode::Equal => "OP_EQUAL",
        OpCode::Greater => "OP_GREATER",
        OpCode::Less => "OP_LESS",
        OpCode::Print => "OP_PRINT",
        OpCode::Jump => "OP_JUMP",
        OpCode::JumpIfFalse => "OP_JUMP_IF_FALSE",
        OpCode::Loop => "OP_LOOP",
        OpCode::Call => "OP_CALL",
        OpCode::Return => "OP_RETURN",
        OpCode::Halt => "OP_HALT",
    }
}

/// Decode the instruction at `offset`; `None` when it cannot be decoded.
pub fn disassemble_instruction(chunk: &Chunk, offset: usize) -> (ins: Option<Instruction>)
    ensures
        ins is Some <==> decodable(*chunk, offset as int),
        ins matches Some(i) ==> i == decoded(*chunk, offset as int),
{
    let len = chunk.code.len();
    if offset >= len || offset >= chunk.lines.len() {
        return None;
    }
    let op = match OpCode::from_byte(chunk.code[offset]) {
        Some(op) => op,
        None => return None,
    };
    let size: usize = match op {
        OpCode::Const | OpCode::GetLocal | OpCode::SetLocal | OpCode::GetGlobal
        | OpCode::DefineGlobal | OpCode::SetGlobal | OpCode::Call => 2,
        OpCode::Jump | OpCode::JumpIfFalse | OpCode::Loop => 3,
        _ => 1,
    };
    if size > len - offset {
        return None;
    }
    let line = if offset > 0 && chunk.lines[offset] == chunk.lines[offset - 1] {
        None
    } else {
        Some(chunk.lines[offset])
    };
    let operand = match op {
        OpCode::Const | OpCode::GetGlobal | OpCode::DefineGlobal | OpCode::SetGlobal => {
            let idx = chunk.code[offset + 1];
            let value = if (idx as usize) < chunk.constants.values.len() {
                Some(chunk.constants.values[idx as usize])
            } else {
                None
            };
            Operand::Constant(idx, value)
        },
        OpCode::GetLocal | OpCode::SetLocal | OpCode::Call => Operand::Byte(chunk.code[offset + 1]),
        OpCode::Jump | OpCode::JumpIfFalse | OpCode::Loop => {
            let jump = chunk.code[offset + 1] as i128 * 256 + chunk.code[offset + 2] as i128;
            let from = offset as i128 + 3;
            match op {
                OpCode::Loop => Operand::Jump(offset, (from - jump) as i64),
                _ => Operand::Jump(offset, (from + jump) as i64),
            }
        },
        _ => Operand::Simple,
    };
    Some(Instruction { offset, line, name: name_of(op), operand, next: offset + size })
}

/// A listing of a chunk: the instructions in order from offset 0, each
/// starting where the previous one ended.
#[derive(Debug)]
pub struct Disassembly {
    pub instructions: Vec<Instruction>,
    /// Whether decoding reached the end of the code; when false, the
    /// instruction after the last one listed cannot be decoded.
    pub complete: bool,
}

/// Decode a whole chunk.
pub fn disassemble_chunk(chunk: &Chunk) -> (d: Disassembly)
    ensures
        forall|i: int| 0 <= i < d.instructions@.len() ==> decodable(*chunk, #[trigger] d.instructions@[i].offset as int)
            && d.instructions@[i] == decoded(*chunk, d.instructions@[i].offset as int),
        d.instructions@.len() > 0 ==> d.instructions@[0].offset == 0,
        forall|i: int| 0 <= i < d.instructions@.len() - 1 ==> #[trigger] d.instructions@[i + 1].offset == d.instructions@[i].next,
        ({
            let end: int = if d.instructions@.len() == 0 { 0 } else { d.instructions@.last().next as int };
            &&& d.complete == (end >= chunk.code@.len())
            &&& !d.complete ==> !decodable(*chunk, end)
        }),
{
    let mut instructions: Vec<Instruction> = Vec::new();
    let mut offset: usize = 0;
    while offset < chunk.code.len()
        invariant
            forall|i: int| 0 <= i < instructions@.len() ==> decodable(*chunk, #[trigger] instructions@[i].offset as int)
                && instructions@[i] == decoded(*chunk, instructions@[i].offset as int),
            instructions@.len() > 0 ==> instructions@[0].offset == 0,
            forall|i: int| 0 <= i < instructions@.len() - 1 ==> #[trigger] instructions@[i + 1].offset == instructions@[i].next,
            offset == (if instructions@.len() == 0 { 0 } else { instructions@.last().next as int }),
        decreases chunk.code@.len() - offset,
    {
        match disassemble_instruction(chunk, offset) {
            Some(ins) => {
                let ghost before = instructions@;
                instructions.push(ins);
                offset = ins.next;
                proof {
                    assert forall|i: int| 0 <= i < instructions@.len() - 1 implies #[trigger] instructions@[i + 1].offset == instructions@[i].next by {
                        if i < before.len() - 1 {
                            assert(before[i + 1] == instructions@[i + 1]);
                        }
                    }
                }
            },
            None => {
                return Disassembly { instructions, complete: false };
            },
        }
    }
    Disassembly { instructions, complete: true }
}

} // verus!
