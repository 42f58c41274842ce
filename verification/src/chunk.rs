//! Bytecode chunks, the constant pool, and a small assembler API.
//!
//! A `Chunk` is a flat array of opcodes and operands, a parallel line-number
//! table, and a constant pool.  The `emit_*` helpers are what a compiler
//! front-end calls.

use vstd::prelude::*;

use crate::value::{Value, ValueArray};

verus! {

/// The instruction set.  Each opcode is encoded as one byte (its position in
/// this list, starting at zero); some are followed by operand bytes.
#[derive(Debug, Clone, Copy, PartialEq, Eq, Structural)]
pub enum OpCode {
    /// operand: 1-byte constant index
    Const,
    Nil,
    True,
    False,
    Pop,
    Dup,
    /// operand: 1-byte frame-relative slot
    GetLocal,
    SetLocal,
    /// operand: 1-byte constant index naming the variable
    GetGlobal,
    DefineGlobal,
    SetGlobal,
    Add,
    Sub,
    Mul,
    Div,
    Mod,
    Negate,
    Not,
    Equal,
    Greater,
    Less,
    Print,
    /// operand: 2-byte forward offset
    Jump,
    /// operand: 2-byte forward offset
    JumpIfFalse,
    /// operand: 2-byte backward offset
    Loop,
    /// operand: 1-byte argument count
    Call,
    Return,
    Halt,
}

/// Number of opcodes; every byte below this decodes to an opcode.
pub const OPCODE_COUNT: u8 = 28;

/// The byte that encodes `op`.
pub open spec fn op_byte(op: OpCode) -> u8 {
    match op {
        OpCode::Const => 0,
        OpCode::Nil => 1,
        OpCode::True => 2,
        OpCode::False => 3,
        OpCode::Pop => 4,
        OpCode::Dup => 5,
        OpCode::GetLocal => 6,
        OpCode::SetLocal => 7,
        OpCode::GetGlobal => 8,
        OpCode::DefineGlobal => 9,
        OpCode::SetGlobal => 10,
        OpCode::Add => 11,
        OpCode::Sub => 12,
        OpCode::Mul => 13,
        OpCode::Div => 14,
        OpCode::Mod => 15,
        OpCode::Negate => 16,
        OpCode::Not => 17,
        OpCode::Equal => 18,
        OpCode::Greater => 19,
        OpCode::Less => 20,
        OpCode::Print => 21,
        OpCode::Jump => 22,
        OpCode::JumpIfFalse => 23,
        OpCode::Loop => 24,
        OpCode::Call => 25,
        OpCode::Return => 26,
        OpCode::Halt => 27,
    }
}

/// The opcode that byte `b` encodes, if any.
pub open spec fn decode_op(b: u8) -> Option<OpCode> {
    if b == 0 { Some(OpCode::Const) }
    else if b == 1 { Some(OpCode::Nil) }
    else if b == 2 { Some(OpCode::True) }
    else if b == 3 { Some(OpCode::False) }
    else if b == 4 { Some(OpCode::Pop) }
    else if b == 5 { Some(OpCode::Dup) }
    else if b == 6 { Some(OpCode::GetLocal) }
    else if b == 7 { Some(OpCode::SetLocal) }
    else if b == 8 { Some(OpCode::GetGlobal) }
    else if b == 9 { Some(OpCode::DefineGlobal) }
    else if b == 10 { Some(OpCode::SetGlobal) }
    else if b == 11 { Some(OpCode::Add) }
    else if b == 12 { Some(OpCode::Sub) }
    else if b == 13 { Some(OpCode::Mul) }
    else if b == 14 { Some(OpCode::Div) }
    else if b == 15 { Some(OpCode::Mod) }
    else if b == 16 { Some(OpCode::Negate) }
    else if b == 17 { Some(OpCode::Not) }
    else if b == 18 { Some(OpCode::Equal) }
    else if b == 19 { Some(OpCode::Greater) }
    else if b == 20 { Some(OpCode::Less) }
    else if b == 21 { Some(OpCode::Print) }
    else if b == 22 { Some(OpCode::Jump) }
    else if b == 23 { Some(OpCode::JumpIfFalse) }
    else if b == 24 { Some(OpCode::Loop) }
    else if b == 25 { Some(OpCode::Call) }
    else if b == 26 { Some(OpCode::Return) }
    else if b == 27 { Some(OpCode::Halt) }
    else { None }
}

impl OpCode {
    /// The byte that encodes this opcode.
    pub fn to_byte(self) -> (b: u8)
        ensures
            b == op_byte(self),
    {
        match self {
            OpCode::Const => 0,
            OpCode::Nil => 1,
            OpCode::True => 2,
            OpCode::False => 3,
            OpCode::Pop => 4,
            OpCode::Dup => 5,
            OpCode::GetLocal => 6,
            OpCode::SetLocal => 7,
            OpCode::GetGlobal => 8,
            OpCode::DefineGlobal => 9,
            OpCode::SetGlobal => 10,
            OpCode::Add => 11,
            OpCode::Sub => 12,
            OpCode::Mul => 13,
            OpCode::Div => 14,
            OpCode::Mod => 15,
            OpCode::Negate => 16,
            OpCode::Not => 17,
            OpCode::Equal => 18,
            OpCode::Greater => 19,
            OpCode::Less => 20,
            OpCode::Print => 21,
            OpCode::Jump => 22,
            OpCode::JumpIfFalse => 23,
            OpCode::Loop => 24,
            OpCode::Call => 25,
            OpCode::Return => 26,
            OpCode::Halt => 27,
        }
    }

    /// The opcode that the byte `b` encodes; `b` must encode one.
    pub fn from_u8(b: u8) -> (op: OpCode)
        requires
            b < OPCODE_COUNT,
        ensures
            op_byte(op) == b,
            decode_op(b) == Some(op),
    {
        match OpCode::from_byte(b) {
            Some(op) => op,
            None => OpCode::Halt,
        }
    }

    /// Decode a byte; `None` for a byte that encodes no opcode.
    pub fn from_byte(b: u8) -> (op: Option<OpCode>)
        ensures
            op == decode_op(b),
            op.is_some() <==> b < OPCODE_COUNT,
    {
        if b == 0 { Some(OpCode::Const) }
        else if b == 1 { Some(OpCode::Nil) }
        else if b == 2 { Some(OpCode::True) }
        else if b == 3 { Some(OpCode::False) }
        else if b == 4 { Some(OpCode::Pop) }
        else if b == 5 { Some(OpCode::Dup) }
        else if b == 6 { Some(OpCode::GetLocal) }
        else if b == 7 { Some(OpCode::SetLocal) }
        else if b == 8 { Some(OpCode::GetGlobal) }
        else if b == 9 { Some(OpCode::DefineGlobal) }
        else if b == 10 { Some(OpCode::SetGlobal) }
        else if b == 11 { Some(OpCode::Add) }
        else if b == 12 { Some(OpCode::Sub) }
        else if b == 13 { Some(OpCode::Mul) }
        else if b == 14 { Some(OpCode::Div) }
        else if b == 15 { Some(OpCode::Mod) }
        else if b == 16 { Some(OpCode::Negate) }
        else if b == 17 { Some(OpCode::Not) }
        else if b == 18 { Some(OpCode::Equal) }
        else if b == 19 { Some(OpCode::Greater) }
        else if b == 20 { Some(OpCode::Less) }
        else if b == 21 { Some(OpCode::Print) }
        else if b == 22 { Some(OpCode::Jump) }
        else if b == 23 { Some(OpCode::JumpIfFalse) }
        else if b == 24 { Some(OpCode::Loop) }
        else if b == 25 { Some(OpCode::Call) }
        else if b == 26 { Some(OpCode::Return) }
        else if b == 27 { Some(OpCode::Halt) }
        else { None }
    }
}

/// Decoding the encoding of an opcode gives the opcode back, and every byte
/// that decodes is the encoding of what it decodes to.
pub proof fn lemma_opcode_roundtrip(op: OpCode, b: u8)
    ensures
        decode_op(op_byte(op)) == Some(op),
        op_byte(op) < OPCODE_COUNT,
        decode_op(b) matches Some(o) ==> op_byte(o) == b,
{
}

impl From<OpCode> for u8 {
    fn from(op: OpCode) -> (b: u8) {
        op.to_byte()
    }
}

impl vstd::std_specs::convert::FromSpecImpl<OpCode> for u8 {
    open spec fn obeys_from_spec() -> bool {
        true
    }

    open spec fn from_spec(op: OpCode) -> u8 {
        op_byte(op)
    }
}

/// The big-endian 16-bit operand stored at `code[at]`, `code[at + 1]`.
pub open spec fn read_u16(code: Seq<u8>, at: int) -> int {
    code[at] as int * 256 + code[at + 1] as int
}

/// A compiled function body.
#[derive(Debug)]
pub struct Chunk {
    pub code: Vec<u8>,
    pub lines: Vec<i32>,
    pub constants: ValueArray,
}

impl Chunk {
    pub fn new() -> (c: Self)
        ensures
            c.code@ == Seq::<u8>::empty(),
            c.lines@ == Seq::<i32>::empty(),
            c.constants.values@ == Seq::<Value>::empty(),
    {
        Chunk { code: Vec::new(), lines: Vec::new(), constants: ValueArray::new() }
    }

    /// Append one byte with its source line.
    pub fn write(&mut self, byte: u8, line: i32)
        ensures
            final(self).code@ == old(self).code@.push(byte),
            final(self).lines@ == old(self).lines@.push(line),
            final(self).constants == old(self).constants,
    {
        self.code.push(byte);
        self.lines.push(line);
    }

    /// Append a constant to the pool; returns its index.
    pub fn add_constant(&mut self, value: Value) -> (idx: usize)
        requires
            old(self).constants.values@.len() < usize::MAX,
        ensures
            idx == old(self).constants.values@.len(),
            final(self).constants.values@ == old(self).constants.values@.push(value),
            final(self).code == old(self).code,
            final(self).lines == old(self).lines,
    {
        self.constants.write(value)
    }

    pub fn emit_byte(&mut self, byte: u8, line: i32)
        ensures
            final(self).code@ == old(self).code@.push(byte),
            final(self).lines@ == old(self).lines@.push(line),
            final(self).constants == old(self).constants,
    {
        self.write(byte, line);
    }

    pub fn emit_bytes(&mut self, b1: u8, b2: u8, line: i32)
        ensures
            final(self).code@ == old(self).code@.push(b1).push(b2),
            final(self).lines@ == old(self).lines@.push(line).push(line),
            final(self).constants == old(self).constants,
    {
        self.write(b1, line);
        self.write(b2, line);
    }

    pub fn emit_op(&mut self, op: OpCode, line: i32)
        ensures
            final(self).code@ == old(self).code@.push(op_byte(op)),
            final(self).lines@ == old(self).lines@.push(line),
            final(self).constants == old(self).constants,
    {
        self.write(op.to_byte(), line);
    }

    /// Emit `Const <idx>` for a new constant and return the constant's index.
    /// The pool must have room for the index to fit in one byte.
    pub fn emit_constant(&mut self, value: Value, line: i32) -> (idx: usize)
        requires
            old(self).constants.values@.len() <= 255,
        ensures
            idx == old(self).constants.values@.len(),
            final(self).constants.values@ == old(self).constants.values@.push(value),
            final(self).code@ == old(self).code@.push(op_byte(OpCode::Const)).push(idx as u8),
            final(self).lines@ == old(self).lines@.push(line).push(line),
    {
        let index = self.add_constant(value);
        self.emit_bytes(OpCode::Const.to_byte(), index as u8, line);
        index
    }

    /// Emit a jump instruction with a placeholder offset; returns the position
    /// of the operand that `patch_jump` later fills in.
    pub fn emit_jump(&mut self, instruction: OpCode, line: i32) -> (at: usize)
        requires
            old(self).code@.len() + 3 <= usize::MAX,
        ensures
            final(self).code@ == old(self).code@.push(op_byte(instruction)).push(0xffu8).push(0xffu8),
            final(self).lines@ == old(self).lines@.push(line).push(line).push(line),
            final(self).constants == old(self).constants,
            at == old(self).code@.len() + 1,
    {
        self.emit_byte(instruction.to_byte(), line);
        self.emit_byte(0xff, line);
        self.emit_byte(0xff, line);
        self.code.len() - 2
    }

    /// Fill in the operand at `offset` so that the jump lands at the current
    /// end of the code.  The distance must fit in 16 bits.
    pub fn patch_jump(&mut self, offset: usize)
        requires
            offset + 2 <= old(self).code@.len(),
            old(self).code@.len() - offset - 2 <= u16::MAX,
        ensures
            final(self).code@.len() == old(self).code@.len(),
            read_u16(final(self).code@, offset as int) == old(self).code@.len() - offset - 2,
            final(self).code@ == old(self).code@.update(offset as int, ((old(self).code@.len() - offset - 2) / 256) as u8)
                .update(offset + 1, ((old(self).code@.len() - offset - 2) % 256) as u8),
            forall|i: int| 0 <= i < old(self).code@.len() && i != offset && i != offset + 1
                ==> final(self).code@[i] == old(self).code@[i],
            final(self).lines == old(self).lines,
            final(self).constants == old(self).constants,
    {
        let jump = self.code.len() - offset - 2;
        let hi = ((jump >> 8) & 0xff) as u8;
        let lo = (jump & 0xff) as u8;
        assert(hi as int * 256 + lo as int == jump && hi == (jump / 256) as u8 && lo == (jump % 256) as u8) by (bit_vector)
            requires
                jump <= 0xffff,
                hi == ((jump >> 8) & 0xff) as u8,
                lo == (jump & 0xff) as u8,
        ;
        self.code.set(offset, hi);
        self.code.set(offset + 1, lo);
    }

    /// Emit a `Loop` instruction whose operand jumps back to `loop_start`.
    pub fn emit_loop(&mut self, loop_start: usize, line: i32)
        requires
            loop_start <= old(self).code@.len() + 1,
            old(self).code@.len() + 3 - loop_start <= u16::MAX,
        ensures
            final(self).code@.len() == old(self).code@.len() + 3,
            final(self).code@.subrange(0, old(self).code@.len() as int + 1)
                == old(self).code@.push(op_byte(OpCode::Loop)),
            read_u16(final(self).code@, old(self).code@.len() as int + 1) == old(self).code@.len() + 3
                - loop_start,
            final(self).code@ == old(self).code@.push(op_byte(OpCode::Loop)).push(
                ((old(self).code@.len() + 3 - loop_start) / 256) as u8,
            ).push(((old(self).code@.len() + 3 - loop_start) % 256) as u8),
            final(self).lines@ == old(self).lines@.push(line).push(line).push(line),
            final(self).constants == old(self).constants,
    {
        self.emit_byte(OpCode::Loop.to_byte(), line);
        let offset = self.code.len() - loop_start + 2;
        let hi = ((offset >> 8) & 0xff) as u8;
        let lo = (offset & 0xff) as u8;
        assert(hi as int * 256 + lo as int == offset && hi == (offset / 256) as u8 && lo == (offset % 256) as u8)
            by (bit_vector)
            requires
                offset <= 0xffff,
                hi == ((offset >> 8) & 0xff) as u8,
                lo == (offset & 0xff) as u8,
        ;
        let ghost mid = self.code@;
        self.emit_byte(hi, line);
        self.emit_byte(lo, line);
        assert(self.code@.subrange(0, mid.len() as int) =~= mid);
    }

    pub fn count(&self) -> (n: usize)
        ensures
            n == self.code@.len(),
    {
        self.code.len()
    }
}

impl Default for Chunk {
    fn default() -> (c: Self)
        ensures
            c.code@ == Seq::<u8>::empty(),
            c.lines@ == Seq::<i32>::empty(),
            c.constants.values@ == Seq::<Value>::empty(),
    {
        Self::new()
    }
}

} // verus!
