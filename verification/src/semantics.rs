//! The meaning of each instruction, stated over the abstract machine state.
//!
//! `step_spec(pre, post, action, ..)` says what one call of `Vm::step` does:
//! which malformed inputs make it fault (leaving the state unchanged), and
//! for every instruction what happens to the frames, the stack, the globals,
//! the heap, the printed output and the error log.

use vstd::prelude::*;

use crate::chunk::{OpCode, decode_op, read_u16};
use crate::common::{FRAMES_MAX, decimal_digits};
use crate::table::TableKey;
use crate::value::{Obj, ObjFunction, ObjRef, Value, negated, num_less, values_equal, whole_number_text};
use crate::vm::{
    Action, ArithOp, CallFrame, ErrorKind, Fault, InterpretResult, RuntimeError, TraceLine, VmState,
    allocation_policy, chars_of,
};

verus! {

/// The innermost call frame.
pub open spec fn cur_frame(s: VmState) -> CallFrame {
    s.frames.last()
}

/// The function the innermost frame executes.
pub open spec fn cur_fn(s: VmState) -> ObjFunction {
    s.heap[cur_frame(s).function]->Function_0
}

pub open spec fn code(s: VmState) -> Seq<u8> {
    cur_fn(s).chunk.code@
}

pub open spec fn consts(s: VmState) -> Seq<Value> {
    cur_fn(s).chunk.constants.values@
}

pub open spec fn ip(s: VmState) -> int {
    cur_frame(s).ip as int
}

/// Whether the code holds the byte `k` places after the instruction pointer.
pub open spec fn has_byte(s: VmState, k: int) -> bool {
    ip(s) + k < code(s).len()
}

pub open spec fn byte_at(s: VmState, k: int) -> u8 {
    code(s)[ip(s) + k]
}

/// The 16-bit operand of a jump instruction.
pub open spec fn jump_operand(s: VmState) -> int {
    read_u16(code(s), ip(s) + 1)
}

/// The frames with the innermost instruction pointer set to `new_ip`.
pub open spec fn set_ip(s: VmState, new_ip: int) -> Seq<CallFrame> {
    s.frames.update(s.frames.len() - 1, CallFrame { ip: new_ip as usize, ..cur_frame(s) })
}

/// The frames with the innermost instruction pointer moved `k` bytes on.
pub open spec fn advance(s: VmState, k: int) -> Seq<CallFrame> {
    set_ip(s, ip(s) + k)
}

/// The value `d` places below the top of the stack.
pub open spec fn top(s: VmState, d: int) -> Value {
    s.stack[s.stack.len() - 1 - d]
}

/// `nil` and `false` are falsey; everything else is truthy.
pub open spec fn is_falsey(v: Value) -> bool {
    v is Nil || v == Value::Bool(false)
}

/// Whether `v` is a live string object.
pub open spec fn is_str(s: VmState, v: Value) -> bool {
    v matches Value::Obj(r) && s.heap.contains_key(r) && s.heap[r] is String
}

/// The globals key of the string object `r`.
pub open spec fn key_of(s: VmState, r: ObjRef) -> TableKey {
    (r, s.heap[r]->String_0.hash)
}

/// The name constant of a global instruction.
pub open spec fn name_const(s: VmState) -> Value {
    consts(s)[byte_at(s, 1) as int]
}

/// How `print` renders a value that is not a number.
pub open spec fn render(heap: Map<ObjRef, Obj>, v: Value) -> Seq<char> {
    match v {
        Value::Nil => "nil"@,
        Value::Bool(b) => if b {
            "true"@
        } else {
            "false"@
        },
        Value::Number(_) => Seq::empty(),
        Value::Obj(r) => match heap[r] {
            Obj::String(st) => st.chars@,
            Obj::Function(f) => match f.name {
                Some(nm) => "<fn "@ + chars_of(heap, nm) + "/"@ + decimal_digits(f.arity as nat)
                    + ">"@,
                None => "<script>"@,
            },
            Obj::Native(n) => "<native "@ + n.name@ + ">"@,
        },
    }
}

/// The line `print` writes for a value it renders itself: a number that is
/// a whole number below the bound, or any value that is not a number.
pub open spec fn print_text(heap: Map<ObjRef, Obj>, v: Value) -> Seq<char> {
    match v {
        Value::Number(b) => whole_number_text(b)->Some_0,
        _ => render(heap, v),
    }
}

/// The name `kind_name` gives a value's type.
pub open spec fn type_label(heap: Map<ObjRef, Obj>, v: Value) -> Seq<char> {
    match v {
        Value::Nil => "nil"@,
        Value::Bool(_) => "bool"@,
        Value::Number(_) => "number"@,
        Value::Obj(r) => match heap[r] {
            Obj::String(_) => "string"@,
            Obj::Function(_) => "function"@,
            Obj::Native(_) => "native"@,
        },
    }
}

/// One line of a stack trace describes frame `f`: the source line of the
/// instruction before its instruction pointer (0 when there is none) and
/// the function's name (`None` for an unnamed script).
pub open spec fn trace_line_ok(t: TraceLine, f: CallFrame, heap: Map<ObjRef, Obj>) -> bool {
    let fun = heap[f.function]->Function_0;
    let instr: int = if f.ip == 0 {
        0
    } else {
        f.ip - 1
    };
    &&& t.line == (if instr < fun.chunk.lines@.len() {
        fun.chunk.lines@[instr]
    } else {
        0
    })
    &&& match fun.name {
        Some(nm) => t.function_name matches Some(n) && n@ == chars_of(heap, nm),
        None => t.function_name is None,
    }
}

/// A stack trace lists the frames innermost first.
pub open spec fn trace_ok(t: Seq<TraceLine>, frames: Seq<CallFrame>, heap: Map<ObjRef, Obj>) -> bool {
    &&& t.len() == frames.len()
    &&& forall|j: int|
        0 <= j < t.len() ==> trace_line_ok(#[trigger] t[j], frames[frames.len() - 1 - j], heap)
}

/// A runtime error was reported with the trace of `frames`: the error log
/// grew by one entry whose kind satisfies `kind_ok`, and the stack and the
/// frames were cleared.
pub open spec fn errored(
    pre: VmState,
    frames: Seq<CallFrame>,
    post: VmState,
    kind_ok: spec_fn(ErrorKind) -> bool,
) -> bool {
    &&& post.frames == Seq::<CallFrame>::empty()
    &&& post.stack == Seq::<Value>::empty()
    &&& post.globals == pre.globals
    &&& post.strings == pre.strings
    &&& post.heap == pre.heap
    &&& post.bytes_allocated == pre.bytes_allocated
    &&& post.next_gc == pre.next_gc
    &&& post.output == pre.output
    &&& post.errors.len() == pre.errors.len() + 1
    &&& post.errors.subrange(0, pre.errors.len() as int) == pre.errors
    &&& kind_ok(post.errors.last().kind)
    &&& trace_ok(post.errors.last().trace@, frames, pre.heap)
}

/// The malformed input, if any, on which the next instruction faults.
/// `gcap` and `scap` are the capacities of the globals and intern tables.
pub open spec fn fault_of(s: VmState, gcap: nat, scap: nat) -> Option<Fault> {
    let n = s.stack.len();
    if s.frames.len() == 0 {
        Some(Fault::NoFrame)
    } else if !has_byte(s, 0) {
        Some(Fault::CodeOutOfBounds)
    } else {
        match decode_op(byte_at(s, 0)) {
            None => Some(Fault::UnknownOpcode(byte_at(s, 0))),
            Some(op) => match op {
                OpCode::Const => if !has_byte(s, 1) {
                    Some(Fault::CodeOutOfBounds)
                } else if byte_at(s, 1) >= consts(s).len() {
                    Some(Fault::ConstantOutOfBounds)
                } else {
                    None
                },
                OpCode::Pop | OpCode::Dup | OpCode::Not | OpCode::Print | OpCode::Negate => if n == 0 {
                    Some(Fault::StackUnderflow)
                } else {
                    None
                },
                OpCode::GetLocal => if !has_byte(s, 1) {
                    Some(Fault::CodeOutOfBounds)
                } else if cur_frame(s).slots + byte_at(s, 1) >= n {
                    Some(Fault::SlotOutOfBounds)
                } else {
                    None
                },
                OpCode::SetLocal => if !has_byte(s, 1) {
                    Some(Fault::CodeOutOfBounds)
                } else if n == 0 {
                    Some(Fault::StackUnderflow)
                } else if cur_frame(s).slots + byte_at(s, 1) >= n {
                    Some(Fault::SlotOutOfBounds)
                } else {
                    None
                },
                OpCode::GetGlobal | OpCode::DefineGlobal | OpCode::SetGlobal => if !has_byte(s, 1) {
                    Some(Fault::CodeOutOfBounds)
                } else if byte_at(s, 1) >= consts(s).len() {
                    Some(Fault::ConstantOutOfBounds)
                } else if !is_str(s, name_const(s)) {
                    Some(Fault::ConstantNotString)
                } else if op != OpCode::GetGlobal && n == 0 {
                    Some(Fault::StackUnderflow)
                } else if op != OpCode::GetGlobal && gcap > usize::MAX / 2 {
                    Some(Fault::TableFull)
                } else {
                    None
                },
                OpCode::Add => if n < 2 {
                    Some(Fault::StackUnderflow)
                } else if is_str(s, top(s, 0)) && is_str(s, top(s, 1)) && scap > usize::MAX / 2 {
                    Some(Fault::TableFull)
                } else {
                    None
                },
                OpCode::Sub | OpCode::Mul | OpCode::Div | OpCode::Mod | OpCode::Greater | OpCode::Less
                | OpCode::Equal => if n < 2 {
                    Some(Fault::StackUnderflow)
                } else {
                    None
                },
                OpCode::Jump => if !has_byte(s, 2) {
                    Some(Fault::CodeOutOfBounds)
                } else if ip(s) + 3 + jump_operand(s) > usize::MAX {
                    Some(Fault::JumpOutOfRange)
                } else {
                    None
                },
                OpCode::JumpIfFalse => if !has_byte(s, 2) {
                    Some(Fault::CodeOutOfBounds)
                } else if n == 0 {
                    Some(Fault::StackUnderflow)
                } else if is_falsey(top(s, 0)) && ip(s) + 3 + jump_operand(s) > usize::MAX {
                    Some(Fault::JumpOutOfRange)
                } else {
                    None
                },
                OpCode::Loop => if !has_byte(s, 2) {
                    Some(Fault::CodeOutOfBounds)
                } else if ip(s) + 3 < jump_operand(s) {
                    Some(Fault::JumpOutOfRange)
                } else {
                    None
                },
                OpCode::Call => if !has_byte(s, 1) {
                    Some(Fault::CodeOutOfBounds)
                } else if n < byte_at(s, 1) + 1 {
                    Some(Fault::StackUnderflow)
                } else {
                    None
                },
                OpCode::Return => if n == 0 {
                    Some(Fault::StackUnderflow)
                } else {
                    None
                },
                _ => None,
            },
        }
    }
}

/// A plain instruction: the frames and the stack change as given; nothing
/// else does; the step continues.
pub open spec fn plain(pre: VmState, post: VmState, act: Action, frames: Seq<CallFrame>, stack: Seq<Value>) -> bool {
    &&& act is Continue
    &&& post == VmState { frames, stack, ..pre }
}

/// A numeric operation handed to the host: both operands were popped.
pub open spec fn arith(pre: VmState, post: VmState, act: Action, op: ArithOp) -> bool {
    let n = pre.stack.len();
    &&& act == Action::Arithmetic(op, top(pre, 1)->Number_0, top(pre, 0)->Number_0)
    &&& post == VmState { frames: advance(pre, 1), stack: pre.stack.subrange(0, n - 2), ..pre }
}

/// String concatenation: the two operands were replaced by a string object
/// holding their characters, interned; every other live object was live
/// before and is unchanged, and nothing else changed.  When an interned
/// string with those characters exists it is the result and nothing is
/// allocated; otherwise the result is a new string, under a handle no object
/// had, allocated after the operands were popped under the allocator's
/// policy (a collection may run first).
pub open spec fn concatenated(pre: VmState, post: VmState, act: Action) -> bool {
    let n = pre.stack.len();
    let r = post.stack.last()->Obj_0;
    let chars = chars_of(pre.heap, top(pre, 1)->Obj_0) + chars_of(pre.heap, top(pre, 0)->Obj_0);
    let popped = VmState { stack: pre.stack.subrange(0, n - 2), ..pre };
    &&& if exists|k: TableKey| #[trigger] pre.strings.contains_key(k) && chars_of(pre.heap, k.0) == chars {
        &&& post.heap == pre.heap
        &&& post.strings == pre.strings
        &&& post.bytes_allocated == pre.bytes_allocated
        &&& post.next_gc == pre.next_gc
    } else {
        &&& !pre.heap.contains_key(r)
        &&& allocation_policy(popped, post, pre.gc_stress, r, post.heap[r])
    }
    &&& post.gc_stress == pre.gc_stress
    &&& act is Continue
    &&& post.frames == advance(pre, 1)
    &&& post.stack.len() == n - 1
    &&& post.stack.subrange(0, n - 2) == pre.stack.subrange(0, n - 2)
    &&& post.stack.last() is Obj
    &&& post.heap.contains_key(r)
    &&& post.heap[r] is String
    &&& chars_of(post.heap, r) == chars_of(pre.heap, top(pre, 1)->Obj_0) + chars_of(pre.heap, top(pre, 0)->Obj_0)
    &&& forall|x: ObjRef|
        x != r && #[trigger] post.heap.contains_key(x) ==> pre.heap.contains_key(x) && post.heap[x]
            == pre.heap[x]
    &&& post.globals == pre.globals
    &&& post.output == pre.output
    &&& post.errors == pre.errors
}

/// What the instruction `op` does when it does not fault.
pub open spec fn op_step(pre: VmState, post: VmState, act: Action, op: OpCode) -> bool {
    let n = pre.stack.len();
    let st = pre.stack;
    match op {
        OpCode::Const => plain(pre, post, act, advance(pre, 2), st.push(consts(pre)[byte_at(pre, 1) as int])),
        OpCode::Nil => plain(pre, post, act, advance(pre, 1), st.push(Value::Nil)),
        OpCode::True => plain(pre, post, act, advance(pre, 1), st.push(Value::Bool(true))),
        OpCode::False => plain(pre, post, act, advance(pre, 1), st.push(Value::Bool(false))),
        OpCode::Pop => plain(pre, post, act, advance(pre, 1), st.drop_last()),
        OpCode::Dup => plain(pre, post, act, advance(pre, 1), st.push(top(pre, 0))),
        OpCode::GetLocal => plain(
            pre,
            post,
            act,
            advance(pre, 2),
            st.push(st[cur_frame(pre).slots + byte_at(pre, 1)]),
        ),
        OpCode::SetLocal => plain(
            pre,
            post,
            act,
            advance(pre, 2),
            st.update(cur_frame(pre).slots + byte_at(pre, 1), top(pre, 0)),
        ),
        OpCode::GetGlobal => {
            let k = key_of(pre, name_const(pre)->Obj_0);
            if pre.globals.contains_key(k) {
                plain(pre, post, act, advance(pre, 2), st.push(pre.globals[k]))
            } else {
                &&& act == Action::Finished(InterpretResult::RuntimeError)
                &&& errored(
                    pre,
                    advance(pre, 2),
                    post,
                    |e: ErrorKind| e matches ErrorKind::UndefinedVariable { name } && name@ == chars_of(pre.heap, k.0),
                )
            }
        },
        OpCode::DefineGlobal => {
            let k = key_of(pre, name_const(pre)->Obj_0);
            &&& act is Continue
            &&& post == VmState {
                frames: advance(pre, 2),
                stack: st.drop_last(),
                globals: pre.globals.insert(k, top(pre, 0)),
                ..pre
            }
        },
        OpCode::SetGlobal => {
            let k = key_of(pre, name_const(pre)->Obj_0);
            if pre.globals.contains_key(k) {
                &&& act is Continue
                &&& post == VmState {
                    frames: advance(pre, 2),
                    globals: pre.globals.insert(k, top(pre, 0)),
                    ..pre
                }
            } else {
                &&& act == Action::Finished(InterpretResult::RuntimeError)
                &&& errored(
                    pre,
                    advance(pre, 2),
                    post,
                    |e: ErrorKind| e matches ErrorKind::UndefinedVariable { name } && name@ == chars_of(pre.heap, k.0),
                )
            }
        },
        OpCode::Add => if is_str(pre, top(pre, 0)) && is_str(pre, top(pre, 1)) {
            concatenated(pre, post, act)
        } else if top(pre, 0) is Number && top(pre, 1) is Number {
            arith(pre, post, act, ArithOp::Add)
        } else {
            &&& act == Action::Finished(InterpretResult::RuntimeError)
            &&& errored(pre, advance(pre, 1), post, |e: ErrorKind| e is AddOperands)
        },
        OpCode::Sub | OpCode::Mul | OpCode::Div | OpCode::Mod => {
            let aop = match op {
                OpCode::Sub => ArithOp::Sub,
                OpCode::Mul => ArithOp::Mul,
                OpCode::Div => ArithOp::Div,
                _ => ArithOp::Mod,
            };
            if top(pre, 0) is Number && top(pre, 1) is Number {
                arith(pre, post, act, aop)
            } else {
                &&& act == Action::Finished(InterpretResult::RuntimeError)
                &&& errored(pre, advance(pre, 1), post, |e: ErrorKind| e is OperandsMustBeNumbers)
            }
        },
        OpCode::Greater | OpCode::Less => if top(pre, 0) is Number && top(pre, 1) is Number {
            let a = top(pre, 1)->Number_0;
            let b = top(pre, 0)->Number_0;
            let r = if op == OpCode::Greater {
                num_less(b, a)
            } else {
                num_less(a, b)
            };
            plain(pre, post, act, advance(pre, 1), st.subrange(0, n - 2).push(Value::Bool(r)))
        } else {
            &&& act == Action::Finished(InterpretResult::RuntimeError)
            &&& errored(pre, advance(pre, 1), post, |e: ErrorKind| e is OperandsMustBeNumbers)
        },
        OpCode::Negate => if top(pre, 0) is Number {
            plain(pre, post, act, advance(pre, 1), st.drop_last().push(Value::Number(negated(top(pre, 0)->Number_0))))
        } else {
            &&& act == Action::Finished(InterpretResult::RuntimeError)
            &&& errored(pre, advance(pre, 1), post, |e: ErrorKind| e is OperandMustBeNumber)
        },
        OpCode::Not => plain(pre, post, act, advance(pre, 1), st.drop_last().push(Value::Bool(is_falsey(top(pre, 0))))),
        OpCode::Equal => plain(
            pre,
            post,
            act,
            advance(pre, 1),
            st.subrange(0, n - 2).push(Value::Bool(values_equal(top(pre, 1), top(pre, 0)))),
        ),
        OpCode::Print => if top(pre, 0) is Number && whole_number_text(top(pre, 0)->Number_0) is None {
            &&& act == Action::PrintNumber(top(pre, 0)->Number_0)
            &&& post == VmState { frames: advance(pre, 1), stack: st.drop_last(), ..pre }
        } else {
            &&& act is Continue
            &&& post.output.len() == pre.output.len() + 1
            &&& post.output.last()@ == print_text(pre.heap, top(pre, 0))
            &&& post == VmState {
                frames: advance(pre, 1),
                stack: st.drop_last(),
                output: pre.output.push(post.output.last()),
                ..pre
            }
        },
        OpCode::Jump => plain(pre, post, act, set_ip(pre, ip(pre) + 3 + jump_operand(pre)), st),
        OpCode::JumpIfFalse => if is_falsey(top(pre, 0)) {
            plain(pre, post, act, set_ip(pre, ip(pre) + 3 + jump_operand(pre)), st)
        } else {
            plain(pre, post, act, advance(pre, 3), st)
        },
        OpCode::Loop => plain(pre, post, act, set_ip(pre, ip(pre) + 3 - jump_operand(pre)), st),
        OpCode::Call => {
            let argc = byte_at(pre, 1) as int;
            let callee = top(pre, argc);
            let r = callee->Obj_0;
            if callee is Obj && pre.heap[r] is Function {
                let arity = pre.heap[r]->Function_0.arity as int;
                if arity != argc {
                    &&& act == Action::Finished(InterpretResult::RuntimeError)
                    &&& errored(
                        pre,
                        advance(pre, 2),
                        post,
                        |e: ErrorKind| e == ErrorKind::ArityMismatch { expected: arity as usize, got: argc as usize },
                    )
                } else if pre.frames.len() == FRAMES_MAX {
                    &&& act == Action::Finished(InterpretResult::RuntimeError)
                    &&& errored(pre, advance(pre, 2), post, |e: ErrorKind| e is StackOverflow)
                } else {
                    plain(
                        pre,
                        post,
                        act,
                        advance(pre, 2).push(CallFrame { function: r, ip: 0, slots: (n - argc - 1) as usize }),
                        st,
                    )
                }
            } else if callee is Obj && pre.heap[r] is Native {
                &&& act matches Action::CallNative(f, args) && f == pre.heap[r]->Native_0.function && args@
                    == st.subrange(n - argc, n as int)
                &&& post == VmState { frames: advance(pre, 2), stack: st.subrange(0, n - argc - 1), ..pre }
            } else {
                &&& act == Action::Finished(InterpretResult::RuntimeError)
                &&& errored(
                    pre,
                    advance(pre, 2),
                    post,
                    |e: ErrorKind| e matches ErrorKind::NotCallable { type_label: l } && l@ == type_label(pre.heap, callee),
                )
            }
        },
        OpCode::Return => {
            let keep = if cur_frame(pre).slots < n - 1 {
                cur_frame(pre).slots as int
            } else {
                n - 1
            };
            if pre.frames.len() == 1 {
                &&& act == Action::Finished(InterpretResult::Success)
                &&& post == VmState { frames: Seq::empty(), stack: st.subrange(0, keep), ..pre }
            } else {
                plain(pre, post, act, pre.frames.drop_last(), st.subrange(0, keep).push(top(pre, 0)))
            }
        },
        OpCode::Halt => {
            &&& act == Action::Finished(InterpretResult::Success)
            &&& post == VmState { frames: advance(pre, 1), ..pre }
        },
    }
}

/// What `interpret(entry)` does: a handle that is not a live function
/// faults and changes nothing; otherwise the function is pushed and called
/// with no arguments, which fails with a runtime error when it expects
/// arguments or the call stack is full.
pub open spec fn interpret_spec(pre: VmState, post: VmState, act: Action, entry: ObjRef) -> bool {
    if !(pre.heap.contains_key(entry) && pre.heap[entry] is Function) {
        act == Action::Fault(Fault::NotAFunction) && post == pre
    } else {
        let pushed = VmState { stack: pre.stack.push(Value::Obj(entry)), ..pre };
        let arity = pre.heap[entry]->Function_0.arity;
        if arity != 0 {
            &&& act == Action::Finished(InterpretResult::RuntimeError)
            &&& errored(
                pushed,
                pre.frames,
                post,
                |e: ErrorKind| e == ErrorKind::ArityMismatch { expected: arity as usize, got: 0 },
            )
        } else if pre.frames.len() == FRAMES_MAX {
            &&& act == Action::Finished(InterpretResult::RuntimeError)
            &&& errored(pushed, pre.frames, post, |e: ErrorKind| e is StackOverflow)
        } else {
            &&& act is Continue
            &&& post == VmState {
                frames: pre.frames.push(CallFrame { function: entry, ip: 0, slots: pre.stack.len() as usize }),
                ..pushed
            }
        }
    }
}

/// What one call of `step` does: on malformed input it faults and changes
/// nothing; otherwise the current instruction runs as `op_step` says.
pub open spec fn step_spec(pre: VmState, post: VmState, act: Action, gcap: nat, scap: nat) -> bool {
    match fault_of(pre, gcap, scap) {
        Some(f) => act == Action::Fault(f) && post == pre,
        None => op_step(pre, post, act, decode_op(byte_at(pre, 0))->Some_0),
    }
}

} // verus!
