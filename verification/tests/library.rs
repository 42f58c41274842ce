//! Tests of the library's parts: hashing, the assembler, the table, the
//! heap, number comparison and printing, the disassembler, runtime errors,
//! faults and the collector.

use lib::chunk::{Chunk, OpCode};
use lib::common::grow_capacity;
use lib::debug::{disassemble_chunk, disassemble_instruction, Operand};
use lib::table::Table;
use lib::value::{
    copy_string, format_whole_number, hash_string, new_function, number_is_nan, number_less,
    number_negate, numbers_equal,
    Heap, Obj, ObjFunction, ObjNative, ObjRef, ObjString,
    Value, ValueArray,
};
use lib::vm::{Action, ArithOp, ErrorKind, Fault, InterpretResult, Vm, CLOCK_NATIVE};

fn num(x: f64) -> Value {
    Value::Number(x.to_bits())
}

/// The host's rendering of a number the library leaves to it (anything but
/// a whole number below 10^15).
fn render_number(bits: u64) -> String {
    format!("{}", f64::from_bits(bits))
}

/// Drive the machine from `action` on; returns the result, or the fault.
fn drive(vm: &mut Vm, mut action: Action) -> Result<InterpretResult, Fault> {
    loop {
        action = match action {
            Action::Continue => vm.step(),
            Action::Finished(result) => return Ok(result),
            Action::Arithmetic(op, a, b) => {
                let (x, y) = (f64::from_bits(a), f64::from_bits(b));
                let v = match op {
                    ArithOp::Add => num(x + y),
                    ArithOp::Sub => num(x - y),
                    ArithOp::Mul => num(x * y),
                    ArithOp::Div => num(x / y),
                    ArithOp::Mod => num(x % y),
                };
                vm.push(v);
                vm.step()
            }
            Action::PrintNumber(a) => {
                vm.record_output(render_number(a));
                vm.step()
            }
            Action::CallNative(function, args) => {
                assert_eq!(function, CLOCK_NATIVE);
                vm.push(num(args.len() as f64));
                vm.step()
            }
            Action::Fault(fault) => return Err(fault),
        }
    }
}

fn run(vm: &mut Vm, script: ObjRef) -> Result<InterpretResult, Fault> {
    let first = vm.interpret(script);
    drive(vm, first)
}

/// A script whose body is `chunk`.
fn script_with(vm: &mut Vm, chunk: Chunk) -> ObjRef {
    let f = new_function(vm);
    assert!(vm.set_function(f, 0, None, chunk));
    f
}

// ---------------------------------------------------------------------------
// Hashing, capacities, opcodes
// ---------------------------------------------------------------------------

#[test]
fn fnv1a_known_values() {
    assert_eq!(hash_string(""), 0x811c9dc5);
    assert_eq!(hash_string("a"), 0xe40c292c);
    assert_eq!(hash_string("foobar"), 0xbf9cf968);
}

#[test]
fn grow_capacity_starts_at_eight_then_doubles() {
    assert_eq!(grow_capacity(0), 8);
    assert_eq!(grow_capacity(7), 8);
    assert_eq!(grow_capacity(8), 16);
    assert_eq!(grow_capacity(100), 200);
}

#[test]
fn opcode_bytes_roundtrip() {
    for b in 0u8..=255 {
        match OpCode::from_byte(b) {
            Some(op) => {
                assert!(b < 28);
                assert_eq!(op.to_byte(), b);
                assert_eq!(u8::from(op), b);
            }
            None => assert!(b >= 28),
        }
    }
    assert_eq!(OpCode::Halt.to_byte(), 27);
    assert_eq!(OpCode::from_byte(22), Some(OpCode::Jump));
}

// ---------------------------------------------------------------------------
// Assembler
// ---------------------------------------------------------------------------

#[test]
fn write_keeps_code_and_lines_parallel() {
    let mut c = Chunk::new();
    c.write(4, 10);
    c.emit_bytes(6, 1, 11);
    assert_eq!(c.code, vec![4, 6, 1]);
    assert_eq!(c.lines, vec![10, 11, 11]);
    assert_eq!(c.count(), 3);
}

#[test]
fn emit_constant_returns_index_and_emits_const() {
    let mut c = Chunk::new();
    assert_eq!(c.add_constant(Value::Nil), 0);
    let idx = c.emit_constant(num(2.5), 3);
    assert_eq!(idx, 1);
    assert_eq!(c.code, vec![0, 1]);
    assert_eq!(c.constants.len(), 2);
    assert!(!c.constants.is_empty());
}

#[test]
fn patch_jump_targets_current_end() {
    let mut c = Chunk::new();
    let at = c.emit_jump(OpCode::Jump, 1);
    assert_eq!(at, 1);
    assert_eq!(c.code, vec![22, 0xff, 0xff]);
    c.emit_op(OpCode::Nil, 1);
    c.emit_op(OpCode::Nil, 1);
    c.patch_jump(at);
    assert_eq!(c.code, vec![22, 0, 2, 1, 1]);
}

#[test]
fn patch_jump_large_offset_is_big_endian() {
    let mut c = Chunk::new();
    let at = c.emit_jump(OpCode::JumpIfFalse, 1);
    for _ in 0..300 {
        c.emit_op(OpCode::Nil, 1);
    }
    c.patch_jump(at);
    assert_eq!(c.code[1], 1);
    assert_eq!(c.code[2], 44);
}

#[test]
fn emit_loop_jumps_back_to_start() {
    let mut c = Chunk::new();
    c.emit_op(OpCode::Nil, 1);
    c.emit_op(OpCode::Pop, 1);
    c.emit_op(OpCode::Nil, 1);
    c.emit_loop(0, 2);
    assert_eq!(c.code, vec![1, 4, 1, 24, 0, 6]);
    assert_eq!(c.lines, vec![1, 1, 1, 2, 2, 2]);
}

#[test]
fn value_array_write_returns_index() {
    let mut a = ValueArray::new();
    assert!(a.is_empty());
    assert_eq!(a.write(Value::Nil), 0);
    assert_eq!(a.write(Value::Bool(true)), 1);
    assert_eq!(a.len(), 2);
}

// ---------------------------------------------------------------------------
// Values and objects
// ---------------------------------------------------------------------------

#[test]
fn value_predicates_and_accessors() {
    assert!(Value::Nil.is_nil());
    assert!(Value::Bool(false).is_bool());
    assert!(!Value::Bool(false).as_bool());
    assert!(num(1.5).is_number());
    assert_eq!(num(1.5).as_number(), 1.5f64.to_bits());
    assert!(Value::Obj(3).is_obj());
    assert_eq!(Value::Obj(3).as_obj(), 3);
}

#[test]
fn value_kinds_through_the_heap() {
    let mut vm = Vm::new();
    let s = copy_string(&mut vm, "hi");
    let f = new_function(&mut vm);
    let heap = vm.heap();
    assert!(Value::Obj(s).is_string(heap));
    assert!(!Value::Obj(s).is_function(heap));
    assert!(Value::Obj(f).is_function(heap));
    assert!(!Value::Obj(f).is_native(heap));
    assert_eq!(Value::Obj(s).as_string(heap).chars, "hi");
    assert_eq!(Value::Obj(s).kind_name(heap), "string");
    assert_eq!(Value::Obj(f).kind_name(heap), "function");
    assert_eq!(Value::Nil.kind_name(heap), "nil");
    assert_eq!(num(1.0).kind_name(heap), "number");
    assert_eq!(Value::Bool(true).kind_name(heap), "bool");
}

#[test]
fn obj_string_records_byte_length() {
    let s = ObjString::new("héllo".to_string(), 7);
    assert_eq!(s.length, 6);
    assert_eq!(s.hash, 7);
    assert!(!s.is_marked);
}

#[test]
fn obj_mark_bits() {
    let mut o = Obj::Native(ObjNative::new(4, "n".to_string()));
    assert!(!o.is_marked());
    o.set_marked(true);
    assert!(o.is_marked());
    assert_eq!(o.as_native().function, 4);
    let f = Obj::Function(ObjFunction::new());
    assert_eq!(f.as_function().arity, 0);
    let s = Obj::String(ObjString::new("x".to_string(), 1));
    assert_eq!(s.as_string().chars, "x");
}

#[test]
fn heap_never_reuses_a_handle() {
    let mut h = Heap::new();
    assert_eq!(h.slot_count(), 0);
    let a = h.allocate(Obj::Function(ObjFunction::new()));
    let b = h.allocate(Obj::Function(ObjFunction::new()));
    assert_ne!(a, b);
    h.free(a);
    assert!(h.get(a).is_none());
    let c = h.allocate(Obj::Function(ObjFunction::new()));
    assert_ne!(c, a);
    assert_ne!(c, b);
    assert_eq!(c, 2);
    assert!(h.get(a).is_none());
    assert!(h.get(b).is_some());
}

// ---------------------------------------------------------------------------
// Table
// ---------------------------------------------------------------------------

#[test]
fn table_set_get_delete() {
    let mut t = Table::new();
    assert_eq!(t.capacity(), 0);
    assert!(t.get(3, 7).is_none());
    assert!(t.set(3, 7, Value::Bool(true)));
    assert_eq!(t.capacity(), 8);
    assert!(matches!(t.get(3, 7), Some(Value::Bool(true))));
    assert!(!t.set(3, 7, Value::Nil));
    assert!(matches!(t.get(3, 7), Some(Value::Nil)));
    assert!(t.delete(3, 7));
    assert!(t.get(3, 7).is_none());
    assert!(!t.delete(3, 7));
}

#[test]
fn table_grows_past_three_quarters() {
    let mut t = Table::new();
    for k in 0..6usize {
        assert!(t.set(k, 0, num(k as f64)));
    }
    assert_eq!(t.capacity(), 8);
    assert!(t.set(6, 0, Value::Nil));
    assert_eq!(t.capacity(), 16);
    for k in 0..6usize {
        assert_eq!(t.get(k, 0).map(|v| v.as_number()), Some((k as f64).to_bits()));
    }
}

#[test]
fn table_colliding_keys_survive_deletes() {
    let mut t = Table::new();
    // All hash to the same slot.
    for k in 0..5usize {
        t.set(k, 16, Value::Obj(k));
    }
    assert!(t.delete(1, 16));
    assert!(t.delete(2, 16));
    assert!(matches!(t.get(4, 16), Some(Value::Obj(4))));
    assert!(t.set(9, 16, Value::Nil));
    assert!(matches!(t.get(3, 16), Some(Value::Obj(3))));
    assert!(t.get(1, 16).is_none());
}

#[test]
fn table_mark_lists_keys_and_object_values() {
    let mut t = Table::new();
    t.set(10, 1, Value::Obj(20));
    t.set(11, 2, num(1.0));
    let mut roots = vec![99];
    t.mark(&mut roots);
    assert_eq!(roots[0], 99);
    for r in [10, 20, 11] {
        assert!(roots.contains(&r));
    }
    assert_eq!(roots.len(), 4);
}

#[test]
fn table_remove_white_drops_unmarked_keys() {
    let mut h = Heap::new();
    let a = h.allocate(Obj::String(ObjString::new("a".to_string(), 1)));
    let b = h.allocate(Obj::String(ObjString::new("b".to_string(), 2)));
    h.set_marked(a, true);
    let mut t = Table::new();
    t.set(a, 1, Value::Nil);
    t.set(b, 2, Value::Nil);
    t.remove_white(&h);
    assert!(t.get(a, 1).is_some());
    assert!(t.get(b, 2).is_none());
}

#[test]
fn find_string_by_content() {
    let mut vm = Vm::new();
    let r = copy_string(&mut vm, "hello");
    let h = hash_string("hello");
    assert_eq!(vm.strings().find_string(vm.heap(), "hello", h), Some(r));
    assert_eq!(vm.strings().find_string(vm.heap(), "nope", hash_string("nope")), None);
}

// ---------------------------------------------------------------------------
// Interning and the collector
// ---------------------------------------------------------------------------

#[test]
fn copy_string_interns() {
    let mut vm = Vm::new();
    let a = copy_string(&mut vm, "abc");
    let bytes = vm.bytes_allocated();
    let b = copy_string(&mut vm, "abc");
    assert_eq!(a, b);
    assert_eq!(vm.bytes_allocated(), bytes);
    let c = copy_string(&mut vm, "abd");
    assert_ne!(a, c);
}

#[test]
fn collection_frees_unreachable_and_keeps_globals() {
    let mut vm = Vm::new();
    let baseline = vm.bytes_allocated();
    let temp = copy_string(&mut vm, "temporary");
    assert!(vm.bytes_allocated() > baseline);
    vm.collect_garbage();
    assert!(vm.heap().get(temp).is_none());
    assert_eq!(vm.bytes_allocated(), baseline);
    // The clock native and its name are reachable from the globals.
    let clock = copy_string(&mut vm, "clock");
    assert!(vm.heap().get(clock).is_some());
    assert_eq!(vm.bytes_allocated(), baseline);
}

#[test]
fn collection_keeps_stack_values() {
    let mut vm = Vm::new();
    let kept = copy_string(&mut vm, "kept");
    vm.push(Value::Obj(kept));
    vm.collect_garbage();
    assert!(vm.heap().get(kept).is_some());
    assert!(matches!(vm.peek(0), Value::Obj(r) if *r == kept));
    assert!(matches!(vm.pop(), Value::Obj(r) if r == kept));
}

#[test]
fn set_function_rejects_dangling_constants() {
    let mut vm = Vm::new();
    let f = new_function(&mut vm);
    let mut c = Chunk::new();
    c.add_constant(Value::Obj(123456));
    assert!(!vm.set_function(f, 0, None, c));
    let s = copy_string(&mut vm, "s");
    assert!(!vm.set_function(s, 0, None, Chunk::new()));
}

#[test]
fn define_native_installs_a_global() {
    let mut vm = Vm::new();
    vm.define_native("other", 5);
    let name = copy_string(&mut vm, "other");
    let v = vm.globals().get(name, hash_string("other"));
    match v {
        Some(Value::Obj(n)) => match vm.heap().get(n) {
            Some(Obj::Native(native)) => {
                assert_eq!(native.function, 5);
                assert_eq!(native.name, "other");
            }
            _ => panic!("not a native"),
        },
        _ => panic!("not defined"),
    }
}

// ---------------------------------------------------------------------------
// Interpreter
// ---------------------------------------------------------------------------

#[test]
fn print_renders_every_kind_of_value() {
    let mut vm = Vm::new();
    let fib = new_function(&mut vm);
    let fib_name = copy_string(&mut vm, "fib");
    assert!(vm.set_function(fib, 12, Some(fib_name), Chunk::new()));
    let anon = new_function(&mut vm);
    let hello = copy_string(&mut vm, "hello");
    let clock = copy_string(&mut vm, "clock");
    let mut c = Chunk::new();
    c.emit_constant(Value::Obj(fib), 1);
    c.emit_op(OpCode::Print, 1);
    c.emit_op(OpCode::Nil, 1);
    c.emit_op(OpCode::Print, 1);
    c.emit_op(OpCode::True, 1);
    c.emit_op(OpCode::Print, 1);
    c.emit_op(OpCode::False, 1);
    c.emit_op(OpCode::Print, 1);
    c.emit_constant(Value::Obj(hello), 1);
    c.emit_op(OpCode::Print, 1);
    let idx = c.add_constant(Value::Obj(clock));
    c.emit_bytes(OpCode::GetGlobal.to_byte(), idx as u8, 1);
    c.emit_op(OpCode::Print, 1);
    c.emit_constant(Value::Obj(anon), 1);
    c.emit_op(OpCode::Print, 1);
    c.emit_constant(num(2.5), 1);
    c.emit_op(OpCode::Print, 1);
    c.emit_op(OpCode::Nil, 1);
    c.emit_op(OpCode::Return, 1);
    let script = script_with(&mut vm, c);
    assert_eq!(run(&mut vm, script), Ok(InterpretResult::Success));
    assert_eq!(
        vm.output(),
        ["<fn fib/12>", "nil", "true", "false", "hello", "<native clock>", "<script>", "2.5"]
    );
}

#[test]
fn arithmetic_goes_through_the_host() {
    let mut vm = Vm::new();
    let mut c = Chunk::new();
    c.emit_constant(num(7.0), 1);
    c.emit_constant(num(3.0), 1);
    c.emit_op(OpCode::Mod, 1);
    c.emit_op(OpCode::Print, 1);
    c.emit_constant(num(1.0), 1);
    c.emit_constant(num(4.0), 1);
    c.emit_op(OpCode::Div, 1);
    c.emit_op(OpCode::Negate, 1);
    c.emit_op(OpCode::Print, 1);
    c.emit_constant(num(2.0), 1);
    c.emit_constant(num(2.0), 1);
    c.emit_op(OpCode::Equal, 1);
    c.emit_op(OpCode::Print, 1);
    c.emit_op(OpCode::Halt, 1);
    let script = script_with(&mut vm, c);
    assert_eq!(run(&mut vm, script), Ok(InterpretResult::Success));
    assert_eq!(vm.output(), ["1", "-0.25", "true"]);
}

#[test]
fn concatenation_yields_the_interned_string() {
    let mut vm = Vm::new();
    let ab = copy_string(&mut vm, "ab");
    let a = copy_string(&mut vm, "a");
    let b = copy_string(&mut vm, "b");
    let mut c = Chunk::new();
    c.emit_constant(Value::Obj(ab), 1);
    c.emit_constant(Value::Obj(a), 1);
    c.emit_constant(Value::Obj(b), 1);
    c.emit_op(OpCode::Add, 1);
    c.emit_op(OpCode::Dup, 1);
    c.emit_op(OpCode::Print, 1);
    c.emit_op(OpCode::Equal, 1);
    c.emit_op(OpCode::Print, 1);
    c.emit_op(OpCode::Nil, 1);
    c.emit_op(OpCode::Nil, 1);
    c.emit_op(OpCode::Equal, 1);
    c.emit_op(OpCode::Not, 1);
    c.emit_op(OpCode::Print, 1);
    c.emit_op(OpCode::Halt, 1);
    let script = script_with(&mut vm, c);
    assert_eq!(run(&mut vm, script), Ok(InterpretResult::Success));
    assert_eq!(vm.output(), ["ab", "true", "false"]);
}

#[test]
fn globals_define_get_set() {
    let mut vm = Vm::new();
    let x = copy_string(&mut vm, "x");
    let mut c = Chunk::new();
    let xi = c.add_constant(Value::Obj(x)) as u8;
    c.emit_constant(num(1.0), 1);
    c.emit_bytes(OpCode::DefineGlobal.to_byte(), xi, 1);
    c.emit_constant(num(5.0), 2);
    c.emit_bytes(OpCode::SetGlobal.to_byte(), xi, 2);
    c.emit_op(OpCode::Pop, 2);
    c.emit_bytes(OpCode::GetGlobal.to_byte(), xi, 3);
    c.emit_op(OpCode::Print, 3);
    c.emit_op(OpCode::Halt, 3);
    let script = script_with(&mut vm, c);
    assert_eq!(run(&mut vm, script), Ok(InterpretResult::Success));
    assert_eq!(vm.output(), ["5"]);
}

#[test]
fn undefined_global_is_a_runtime_error() {
    let mut vm = Vm::new();
    let y = copy_string(&mut vm, "y");
    let mut c = Chunk::new();
    let yi = c.add_constant(Value::Obj(y)) as u8;
    c.emit_op(OpCode::Nil, 1);
    c.emit_bytes(OpCode::SetGlobal.to_byte(), yi, 4);
    c.emit_op(OpCode::Halt, 5);
    let script = script_with(&mut vm, c);
    assert_eq!(run(&mut vm, script), Ok(InterpretResult::RuntimeError));
    assert!(vm.globals().get(y, hash_string("y")).is_none());
    let errors = vm.errors();
    assert_eq!(errors.len(), 1);
    assert!(matches!(&errors[0].kind, ErrorKind::UndefinedVariable { name } if name == "y"));
    assert_eq!(errors[0].trace.len(), 1);
    assert_eq!(errors[0].trace[0].line, 4);
    assert!(errors[0].trace[0].function_name.is_none());
    assert!(vm.stack_values().is_empty());
    assert!(vm.call_frames().is_empty());
}

#[test]
fn operand_type_errors() {
    let cases: [(OpCode, Value, Value); 3] = [
        (OpCode::Sub, Value::Nil, num(1.0)),
        (OpCode::Add, Value::Nil, num(1.0)),
        (OpCode::Less, Value::Bool(true), num(1.0)),
    ];
    for (op, a, b) in cases {
        let mut vm = Vm::new();
        let mut c = Chunk::new();
        c.emit_constant(a, 1);
        c.emit_constant(b, 1);
        c.emit_op(op, 1);
        c.emit_op(OpCode::Halt, 1);
        let script = script_with(&mut vm, c);
        assert_eq!(run(&mut vm, script), Ok(InterpretResult::RuntimeError));
        match (&vm.errors()[0].kind, op) {
            (ErrorKind::AddOperands, OpCode::Add) => {}
            (ErrorKind::OperandsMustBeNumbers, OpCode::Sub) => {}
            (ErrorKind::OperandsMustBeNumbers, OpCode::Less) => {}
            (k, _) => panic!("unexpected error {:?}", k),
        }
    }
    let mut vm = Vm::new();
    let mut c = Chunk::new();
    c.emit_op(OpCode::True, 1);
    c.emit_op(OpCode::Negate, 1);
    let script = script_with(&mut vm, c);
    assert_eq!(run(&mut vm, script), Ok(InterpretResult::RuntimeError));
    assert!(matches!(vm.errors()[0].kind, ErrorKind::OperandMustBeNumber));
}

#[test]
fn calling_a_number_is_an_error() {
    let mut vm = Vm::new();
    let mut c = Chunk::new();
    c.emit_constant(num(1.0), 1);
    c.emit_bytes(OpCode::Call.to_byte(), 0, 1);
    let script = script_with(&mut vm, c);
    assert_eq!(run(&mut vm, script), Ok(InterpretResult::RuntimeError));
    assert!(matches!(vm.errors()[0].kind, ErrorKind::NotCallable { type_label: "number" }));
}

#[test]
fn arity_mismatch_is_an_error() {
    let mut vm = Vm::new();
    let f = new_function(&mut vm);
    let fname = copy_string(&mut vm, "f");
    let mut body = Chunk::new();
    body.emit_op(OpCode::Nil, 9);
    body.emit_op(OpCode::Return, 9);
    assert!(vm.set_function(f, 2, Some(fname), body));
    let mut c = Chunk::new();
    c.emit_constant(Value::Obj(f), 1);
    c.emit_constant(num(1.0), 2);
    c.emit_bytes(OpCode::Call.to_byte(), 1, 3);
    let script = script_with(&mut vm, c);
    assert_eq!(run(&mut vm, script), Ok(InterpretResult::RuntimeError));
    assert!(matches!(vm.errors()[0].kind, ErrorKind::ArityMismatch { expected: 2, got: 1 }));
    assert_eq!(vm.errors()[0].trace[0].line, 3);
    // A function that takes arguments cannot be the entry point.
    let mut vm2 = Vm::new();
    let g = new_function(&mut vm2);
    assert!(vm2.set_function(g, 1, None, Chunk::new()));
    assert_eq!(run(&mut vm2, g), Ok(InterpretResult::RuntimeError));
}

#[test]
fn unbounded_recursion_overflows_the_frames() {
    let mut vm = Vm::new();
    let f = new_function(&mut vm);
    let fname = copy_string(&mut vm, "f");
    let mut body = Chunk::new();
    let fi = body.add_constant(Value::Obj(fname)) as u8;
    body.emit_bytes(OpCode::GetGlobal.to_byte(), fi, 1);
    body.emit_bytes(OpCode::Call.to_byte(), 0, 1);
    body.emit_op(OpCode::Return, 1);
    assert!(vm.set_function(f, 0, Some(fname), body));
    let mut c = Chunk::new();
    let ni = c.add_constant(Value::Obj(fname)) as u8;
    c.emit_constant(Value::Obj(f), 1);
    c.emit_bytes(OpCode::DefineGlobal.to_byte(), ni, 1);
    c.emit_bytes(OpCode::GetGlobal.to_byte(), ni, 2);
    c.emit_bytes(OpCode::Call.to_byte(), 0, 2);
    let script = script_with(&mut vm, c);
    assert_eq!(run(&mut vm, script), Ok(InterpretResult::RuntimeError));
    let e = &vm.errors()[0];
    assert!(matches!(e.kind, ErrorKind::StackOverflow));
    assert_eq!(e.trace.len(), 256);
    assert_eq!(e.trace[0].function_name.as_deref(), Some("f"));
    assert!(e.trace[255].function_name.is_none());
}

#[test]
fn native_call_hands_arguments_to_the_host() {
    let mut vm = Vm::new();
    let clock = copy_string(&mut vm, "clock");
    let mut c = Chunk::new();
    let ci = c.add_constant(Value::Obj(clock)) as u8;
    c.emit_bytes(OpCode::GetGlobal.to_byte(), ci, 1);
    c.emit_constant(num(1.0), 1);
    c.emit_constant(num(2.0), 1);
    c.emit_bytes(OpCode::Call.to_byte(), 2, 1);
    c.emit_op(OpCode::Print, 1);
    c.emit_op(OpCode::Halt, 1);
    let script = script_with(&mut vm, c);
    assert_eq!(run(&mut vm, script), Ok(InterpretResult::Success));
    assert_eq!(vm.output(), ["2"]);
}

#[test]
fn jump_if_false_and_loop() {
    // i = 3; while (i > 0) { print i; i = i - 1; }
    let mut vm = Vm::new();
    let mut c = Chunk::new();
    c.emit_constant(num(3.0), 1);
    let start = c.count();
    c.emit_bytes(OpCode::GetLocal.to_byte(), 1, 1);
    c.emit_constant(num(0.0), 1);
    c.emit_op(OpCode::Greater, 1);
    let exit = c.emit_jump(OpCode::JumpIfFalse, 1);
    c.emit_op(OpCode::Pop, 1);
    c.emit_bytes(OpCode::GetLocal.to_byte(), 1, 1);
    c.emit_op(OpCode::Print, 1);
    c.emit_bytes(OpCode::GetLocal.to_byte(), 1, 1);
    c.emit_constant(num(1.0), 1);
    c.emit_op(OpCode::Sub, 1);
    c.emit_bytes(OpCode::SetLocal.to_byte(), 1, 1);
    c.emit_op(OpCode::Pop, 1);
    c.emit_loop(start, 1);
    c.patch_jump(exit);
    c.emit_op(OpCode::Halt, 1);
    let script = script_with(&mut vm, c);
    assert_eq!(run(&mut vm, script), Ok(InterpretResult::Success));
    assert_eq!(vm.output(), ["3", "2", "1"]);
}

#[test]
fn malformed_bytecode_faults() {
    let mut vm = Vm::new();
    let mut c = Chunk::new();
    c.write(99, 1);
    let script = script_with(&mut vm, c);
    assert_eq!(run(&mut vm, script), Err(Fault::UnknownOpcode(99)));

    let mut vm = Vm::new();
    let mut c = Chunk::new();
    c.emit_op(OpCode::Pop, 1);
    c.emit_op(OpCode::Pop, 1);
    let script = script_with(&mut vm, c);
    assert_eq!(run(&mut vm, script), Err(Fault::StackUnderflow));

    let mut vm = Vm::new();
    let mut c = Chunk::new();
    c.emit_bytes(OpCode::Const.to_byte(), 5, 1);
    let script = script_with(&mut vm, c);
    assert_eq!(run(&mut vm, script), Err(Fault::ConstantOutOfBounds));

    let mut vm = Vm::new();
    let mut c = Chunk::new();
    let i = c.add_constant(num(1.0)) as u8;
    c.emit_bytes(OpCode::GetGlobal.to_byte(), i, 1);
    let script = script_with(&mut vm, c);
    assert_eq!(run(&mut vm, script), Err(Fault::ConstantNotString));

    let mut vm = Vm::new();
    let mut c = Chunk::new();
    c.emit_op(OpCode::Nil, 1);
    let script = script_with(&mut vm, c);
    assert_eq!(run(&mut vm, script), Err(Fault::CodeOutOfBounds));

    let mut vm = Vm::new();
    let s = copy_string(&mut vm, "not a function");
    let first = vm.interpret(s);
    assert!(matches!(first, Action::Fault(Fault::NotAFunction)));
    assert!(matches!(vm.step(), Action::Fault(Fault::NoFrame)));
}

#[test]
fn top_level_return_pops_the_script() {
    let mut vm = Vm::new();
    let mut c = Chunk::new();
    c.emit_op(OpCode::Nil, 1);
    c.emit_op(OpCode::Return, 1);
    let script = script_with(&mut vm, c);
    assert_eq!(run(&mut vm, script), Ok(InterpretResult::Success));
    assert!(vm.stack_values().is_empty());
    assert!(vm.call_frames().is_empty());
}

// ---------------------------------------------------------------------------
// Disassembler
// ---------------------------------------------------------------------------

#[test]
fn disassembler_lists_instructions() {
    let mut c = Chunk::new();
    c.emit_constant(num(1.5), 1);
    c.emit_op(OpCode::Nil, 1);
    let at = c.emit_jump(OpCode::Jump, 2);
    c.patch_jump(at);
    c.emit_op(OpCode::Return, 3);
    let d = disassemble_chunk(&c);
    assert!(d.complete);
    let ins = &d.instructions;
    assert_eq!(ins.len(), 4);
    assert_eq!((ins[0].offset, ins[0].line, ins[0].name, ins[0].next), (0, Some(1), "OP_CONST", 2));
    assert!(matches!(ins[0].operand, Operand::Constant(0, Some(Value::Number(b))) if b == 1.5f64.to_bits()));
    assert_eq!((ins[1].offset, ins[1].line, ins[1].name), (2, None, "OP_NIL"));
    assert_eq!((ins[2].offset, ins[2].line, ins[2].name, ins[2].next), (3, Some(2), "OP_JUMP", 6));
    assert!(matches!(ins[2].operand, Operand::Jump(3, 6)));
    assert_eq!((ins[3].offset, ins[3].name), (6, "OP_RETURN"));
}

#[test]
fn disassembler_loop_target_and_bad_bytes() {
    let mut c = Chunk::new();
    c.emit_op(OpCode::Nil, 1);
    c.emit_loop(0, 1);
    let ins = disassemble_instruction(&c, 1).unwrap();
    assert_eq!(ins.name, "OP_LOOP");
    assert!(matches!(ins.operand, Operand::Jump(1, 0)));
    let mut bad = Chunk::new();
    bad.write(200, 1);
    assert!(disassemble_instruction(&bad, 0).is_none());
    let d = disassemble_chunk(&bad);
    assert!(!d.complete);
    assert!(d.instructions.is_empty());
    let mut c2 = Chunk::new();
    c2.emit_bytes(OpCode::Const.to_byte(), 9, 1);
    let ins = disassemble_instruction(&c2, 0).unwrap();
    assert!(matches!(ins.operand, Operand::Constant(9, None)));
}

/// Doubles that exercise every corner of IEEE-754 comparison.
fn sample_doubles() -> Vec<f64> {
    vec![
        0.0,
        -0.0,
        1.0,
        -1.0,
        0.5,
        -2.5,
        1e-310,
        -1e-310,
        f64::MIN_POSITIVE,
        f64::MAX,
        f64::MIN,
        f64::INFINITY,
        f64::NEG_INFINITY,
        f64::NAN,
        -f64::NAN,
        f64::from_bits(0x7FF0_0000_0000_0001),
        f64::from_bits(0xFFF8_0000_0000_0042),
        3.0,
        3.0000000000000004,
    ]
}

#[test]
fn number_comparison_matches_ieee() {
    let xs = sample_doubles();
    for &x in &xs {
        assert_eq!(number_is_nan(x.to_bits()), x.is_nan(), "nan({x})");
        for &y in &xs {
            assert_eq!(numbers_equal(x.to_bits(), y.to_bits()), x == y, "{x} == {y}");
            assert_eq!(number_less(x.to_bits(), y.to_bits()), x < y, "{x} < {y}");
        }
    }
}

#[test]
fn value_equality_follows_the_kinds() {
    assert!(Value::Nil == Value::Nil);
    assert!(Value::Bool(true) == Value::Bool(true));
    assert!(Value::Bool(true) != Value::Bool(false));
    assert!(num(0.0) == num(-0.0));
    assert!(num(f64::NAN) != num(f64::NAN));
    assert!(num(2.0) != num(3.0));
    assert!(Value::Obj(4) == Value::Obj(4));
    assert!(Value::Obj(4) != Value::Obj(5));
    assert!(Value::Nil != Value::Bool(false));
    assert!(num(0.0) != Value::Bool(false));
}

/// Run `a <op> b` as a program and return the boolean it leaves.
fn compare_in_vm(a: f64, op: OpCode, b: f64) -> bool {
    let mut vm = Vm::new();
    let mut c = Chunk::new();
    c.emit_constant(num(a), 1);
    c.emit_constant(num(b), 1);
    c.emit_op(op, 1);
    c.emit_op(OpCode::Print, 1);
    c.emit_op(OpCode::Nil, 1);
    c.emit_op(OpCode::Return, 1);
    let script = script_with(&mut vm, c);
    assert_eq!(run(&mut vm, script), Ok(InterpretResult::Success));
    match vm.output() {
        [line] if line == "true" => true,
        [line] if line == "false" => false,
        other => panic!("unexpected output {:?}", other),
    }
}

#[test]
fn comparison_instructions_match_ieee() {
    let xs = sample_doubles();
    for &x in &xs {
        for &y in &xs {
            assert_eq!(compare_in_vm(x, OpCode::Less, y), x < y, "{x} < {y}");
            assert_eq!(compare_in_vm(x, OpCode::Greater, y), x > y, "{x} > {y}");
            assert_eq!(compare_in_vm(x, OpCode::Equal, y), x == y, "{x} == {y}");
        }
    }
}

#[test]
fn negation_matches_ieee() {
    for x in sample_doubles() {
        assert_eq!(number_negate(x.to_bits()), (-x).to_bits(), "-({x})");
    }
    let mut vm = Vm::new();
    let mut c = Chunk::new();
    c.emit_constant(num(0.0), 1);
    c.emit_op(OpCode::Negate, 1);
    c.emit_op(OpCode::Print, 1);
    c.emit_constant(num(-7.0), 1);
    c.emit_op(OpCode::Negate, 1);
    c.emit_op(OpCode::Print, 1);
    c.emit_op(OpCode::Halt, 1);
    let script = script_with(&mut vm, c);
    assert_eq!(run(&mut vm, script), Ok(InterpretResult::Success));
    assert_eq!(vm.output(), ["-0", "7"]);
}

#[test]
fn whole_numbers_print_like_rust_formats_them() {
    let mut xs = sample_doubles();
    xs.extend([
        2.0,
        -21.0,
        10946.0,
        5050.0,
        999_999_999_999_999.0,
        -999_999_999_999_999.0,
        1e15,
        4503599627370496.0,
        9007199254740993.0,
        123456.5,
        0.1,
        1e-300,
        7.0e14,
    ]);
    for x in xs {
        let expected = if x.fract() == 0.0 && x.abs() < 1e15 {
            Some(format!("{:.0}", x))
        } else {
            None
        };
        assert_eq!(format_whole_number(x.to_bits()), expected, "{x}");
    }
}

#[test]
fn whole_numbers_print_without_the_host() {
    let mut vm = Vm::new();
    let mut c = Chunk::new();
    c.emit_constant(num(42.0), 1);
    c.emit_op(OpCode::Print, 1);
    c.emit_constant(num(2.5), 1);
    c.emit_op(OpCode::Print, 1);
    c.emit_op(OpCode::Halt, 1);
    let script = script_with(&mut vm, c);
    assert!(matches!(vm.interpret(script), Action::Continue));
    assert!(matches!(vm.step(), Action::Continue));
    assert!(matches!(vm.step(), Action::Continue));
    assert_eq!(vm.output(), ["42"]);
    assert!(matches!(vm.step(), Action::Continue));
    match vm.step() {
        Action::PrintNumber(bits) => assert_eq!(bits, 2.5f64.to_bits()),
        other => panic!("expected the host to print 2.5, got {:?}", other),
    }
    assert_eq!(vm.display_value(num(-3.0)), Some("-3".to_string()));
    assert_eq!(vm.display_value(num(0.75)), None);
    assert_eq!(vm.display_value(Value::Nil), Some("nil".to_string()));
}

#[test]
fn allocation_collects_only_when_due() {
    let mut vm = Vm::new();
    let lost = copy_string(&mut vm, "nobody refers to me");
    let before = vm.bytes_allocated();
    // Far below the threshold: nothing is collected, the bytes are charged.
    let kept = new_function(&mut vm);
    assert!(matches!(vm.heap().get(lost), Some(Obj::String(_))));
    assert!(vm.heap().get(kept).is_some());
    assert!(vm.bytes_allocated() > before);
    // In stress mode every allocation collects first: the unreachable
    // string is gone.
    vm.set_gc_stress(true);
    let fresh = new_function(&mut vm);
    assert!(!matches!(vm.heap().get(lost), Some(Obj::String(_))));
    assert!(matches!(vm.heap().get(fresh), Some(Obj::Function(_))));
}

#[test]
fn byte_accounting_is_exact() {
    let mut vm = Vm::new();
    // The "clock" name (96 + 5 bytes) and its native object (32 bytes).
    assert_eq!(vm.bytes_allocated(), 133);
    let f = new_function(&mut vm);
    assert_eq!(vm.bytes_allocated(), 133 + 96);
    let s = copy_string(&mut vm, "abc");
    assert_eq!(vm.bytes_allocated(), 133 + 96 + 99);
    // Interning an existing string charges nothing.
    assert_eq!(copy_string(&mut vm, "abc"), s);
    assert_eq!(vm.bytes_allocated(), 133 + 96 + 99);
    // Neither is reachable: a collection gives back exactly their bytes.
    vm.collect_garbage();
    assert_eq!(vm.bytes_allocated(), 133);
    assert!(vm.heap().get(f).is_none());
    assert!(vm.heap().get(s).is_none());
}

#[test]
fn collection_traces_constants_of_live_functions() {
    let mut vm = Vm::new();
    let f = new_function(&mut vm);
    let name = copy_string(&mut vm, "worker");
    let constant = copy_string(&mut vm, "a constant string");
    let mut c = Chunk::new();
    c.add_constant(Value::Obj(constant));
    assert!(vm.set_function(f, 0, Some(name), c));
    // Only the function itself is a root.
    vm.push(Value::Obj(f));
    vm.collect_garbage();
    assert!(matches!(vm.heap().get(f), Some(Obj::Function(_))));
    assert!(matches!(vm.heap().get(name), Some(Obj::String(s)) if s.chars == "worker"));
    assert!(matches!(vm.heap().get(constant), Some(Obj::String(s)) if s.chars == "a constant string"));
}

#[test]
fn collection_prunes_the_intern_table() {
    let mut vm = Vm::new();
    let gone = copy_string(&mut vm, "transient");
    let h = hash_string("transient");
    assert_eq!(vm.strings().find_string(vm.heap(), "transient", h), Some(gone));
    vm.collect_garbage();
    assert_eq!(vm.strings().get(gone, h), None);
    assert_eq!(vm.strings().find_string(vm.heap(), "transient", h), None);
    // The live "clock" name is still interned.
    let clock_hash = hash_string("clock");
    assert!(vm.strings().find_string(vm.heap(), "clock", clock_hash).is_some());
}

#[test]
fn a_second_collection_frees_nothing() {
    let mut vm = Vm::new();
    let kept = copy_string(&mut vm, "kept");
    vm.push(Value::Obj(kept));
    copy_string(&mut vm, "dropped");
    vm.collect_garbage();
    let after_first = vm.bytes_allocated();
    let slots = vm.heap().slot_count();
    vm.collect_garbage();
    assert_eq!(vm.bytes_allocated(), after_first);
    assert_eq!(vm.heap().slot_count(), slots);
    assert!(vm.heap().get(kept).is_some());
}

#[test]
fn defaults_are_empty() {
    let t = Table::default();
    assert_eq!(t.capacity(), 0);
    assert_eq!(t.get(0, 0), None);
    let a = ValueArray::default();
    assert!(a.is_empty());
    assert_eq!(a.len(), 0);
    let c = Chunk::default();
    assert_eq!(c.count(), 0);
}

#[test]
fn opcode_from_u8_decodes_every_opcode_byte() {
    for b in 0u8..28 {
        assert_eq!(OpCode::from_u8(b).to_byte(), b);
        assert_eq!(OpCode::from_byte(b), Some(OpCode::from_u8(b)));
    }
    assert_eq!(OpCode::from_u8(0), OpCode::Const);
    assert_eq!(OpCode::from_u8(17), OpCode::Not);
    assert_eq!(OpCode::from_u8(22), OpCode::Jump);
    assert_eq!(OpCode::from_u8(24), OpCode::Loop);
    assert_eq!(OpCode::from_u8(27), OpCode::Halt);
    assert_eq!(OpCode::from_byte(28), None);
}

#[test]
fn table_mark_lists_each_key_and_object_value_once() {
    let mut t = Table::new();
    // 10 -> object 11, 11 -> object 11, 12 -> a number, 13 deleted.
    t.set(10, 1, Value::Obj(11));
    t.set(11, 2, Value::Obj(11));
    t.set(12, 3, num(1.0));
    t.set(13, 4, Value::Obj(10));
    t.delete(13, 4);
    let mut roots = vec![7];
    t.mark(&mut roots);
    assert_eq!(roots[0], 7);
    let mut listed = roots[1..].to_vec();
    listed.sort();
    assert_eq!(listed, vec![10, 11, 11, 11, 12]);
}

#[test]
fn table_reads_give_the_latest_write() {
    let mut t = Table::new();
    assert!(t.set(5, 9, num(1.0)));
    assert!(!t.set(5, 9, num(2.0)));
    assert!(t.delete(5, 9));
    assert_eq!(t.get(5, 9), None);
    assert!(!t.delete(5, 9));
    assert!(t.set(5, 9, num(3.0)));
    assert!(matches!(t.get(5, 9), Some(Value::Number(b)) if b == 3.0f64.to_bits()));
    // Other keys keep their values across growth.
    for k in 100..140usize {
        t.set(k, k as u32, Value::Obj(k));
    }
    assert!(t.capacity() >= 64);
    assert!(matches!(t.get(5, 9), Some(Value::Number(b)) if b == 3.0f64.to_bits()));
    for k in 100..140usize {
        assert!(matches!(t.get(k, k as u32), Some(Value::Obj(r)) if r == k));
    }
}

#[test]
fn track_object_takes_objects_with_reachable_references() {
    let mut vm = Vm::new();
    let name = copy_string(&mut vm, "worker");
    let constant = copy_string(&mut vm, "constant");
    vm.push(Value::Obj(name));
    vm.push(Value::Obj(constant));
    let mut chunk = Chunk::new();
    chunk.add_constant(Value::Obj(constant));
    let f = vm.track_object(Obj::Function(ObjFunction {
        is_marked: false,
        arity: 2,
        chunk,
        name: Some(name),
    }));
    assert_ne!(f, name);
    assert_ne!(f, constant);
    vm.push(Value::Obj(f));
    vm.collect_garbage();
    assert!(matches!(vm.heap().get(f), Some(Obj::Function(fun)) if fun.arity == 2 && fun.name == Some(name)));
    assert!(vm.heap().get(constant).is_some());
}

#[test]
fn new_objects_get_handles_never_used_before() {
    let mut vm = Vm::new();
    let a = new_function(&mut vm);
    vm.collect_garbage();
    assert!(vm.heap().get(a).is_none());
    let b = new_function(&mut vm);
    let c = copy_string(&mut vm, "fresh");
    assert_ne!(b, a);
    assert_ne!(c, a);
    assert_ne!(c, b);
}

#[test]
fn a_new_machine_is_not_tracing() {
    let vm = Vm::new();
    assert!(!vm.trace_execution);
    assert!(!vm.gc_stress);
}

#[test]
fn a_new_machine_has_small_tables() {
    let vm = Vm::new();
    assert_eq!(vm.strings().capacity(), 8);
    assert_eq!(vm.globals().capacity(), 8);
}

#[test]
fn table_capacities_are_powers_of_two() {
    let mut t = Table::new();
    for k in 0..200usize {
        t.set(k, k as u32, Value::Nil);
        let cap = t.capacity();
        assert!(cap >= 8 && cap.is_power_of_two(), "capacity {cap}");
        assert!(4 * (k + 1) <= 3 * cap);
    }
}
