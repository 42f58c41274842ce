//! The virtual machine: value stack, call frames, interpreter, and the
//! mark-sweep garbage collector.
//!
//! The interpreter executes one instruction per call of `Vm::step`.  Work
//! that needs the host (floating-point arithmetic, number printing, native
//! functions) is handed out as an `Action`; the host performs it and hands the
//! result back with `push` or `record_output`.

use vstd::prelude::*;

use crate::chunk::{Chunk, OpCode, decode_op};
use crate::common::{FRAMES_MAX, STACK_MAX, GC_HEAP_GROW_FACTOR, GC_INITIAL_THRESHOLD};
use crate::table::{Table, TableKey, table_refers};
use crate::semantics::{
    byte_at, code, consts, errored, has_byte, interpret_spec, ip, is_falsey, is_str, jump_operand, key_of,
    name_const, print_text, render, set_ip, step_spec, trace_line_ok,
};
use crate::common::decimal_string;
use crate::value::{
    Heap, NativeFn, Obj, ObjFunction, ObjNative, ObjRef, ObjString, Value, fnv1a, format_whole_number,
    hash_string, number_less, number_negate, obj_marked, obj_size, object_size, points_to, utf8_len,
    lemma_utf8_len_bound, NATIVE_OBJ_BYTES, STRING_OBJ_BYTES,
    values_equal, whole_number_text, with_mark,
};

verus! {

/// How a run of the interpreter ended.
#[derive(Debug, Clone, Copy, PartialEq, Eq, Structural)]
pub enum InterpretResult {
    Success,
    RuntimeError,
}

/// One activation record on the call stack.
#[derive(Debug, Clone, Copy)]
pub struct CallFrame {
    /// The function being executed.
    pub function: ObjRef,
    /// Index into the function's code (instruction pointer).
    pub ip: usize,
    /// Base index of this frame's locals inside the shared value stack.
    pub slots: usize,
}

/// What went wrong in a runtime error.
#[derive(Debug)]
pub enum ErrorKind {
    /// `expected {expected} argument(s) but got {got}`
    ArityMismatch { expected: usize, got: usize },
    /// `stack overflow`
    StackOverflow,
    /// `can only call functions (got a {type_label})`
    NotCallable { type_label: &'static str },
    /// `undefined variable '{name}'`
    UndefinedVariable { name: String },
    /// `operands must be two numbers or two strings`
    AddOperands,
    /// `operands must be numbers`
    OperandsMustBeNumbers,
    /// `operand must be a number`
    OperandMustBeNumber,
}

/// One line of a runtime error's stack trace: `[line {line}] in {name}`,
/// where a frame without a function name is `<script>`.
#[derive(Debug)]
pub struct TraceLine {
    pub line: i32,
    pub function_name: Option<String>,
}

/// A runtime error together with the stack trace at the point it occurred,
/// innermost frame first.
#[derive(Debug)]
pub struct RuntimeError {
    pub kind: ErrorKind,
    pub trace: Vec<TraceLine>,
}

/// A floating-point operation on two numbers that the host performs; the
/// result is a number.
#[derive(Debug, Clone, Copy, PartialEq, Eq, Structural)]
pub enum ArithOp {
    Add,
    Sub,
    Mul,
    Div,
    Mod,
}

/// Malformed bytecode or machine state: the instruction cannot run.
#[derive(Debug, Clone, Copy, PartialEq, Eq, Structural)]
pub enum Fault {
    /// There is no call frame to execute.
    NoFrame,
    /// A frame's function handle does not name a function.
    NotAFunction,
    /// The instruction or one of its operands lies past the end of the code.
    CodeOutOfBounds,
    /// The byte does not encode an opcode.
    UnknownOpcode(u8),
    /// The instruction needs more values than the stack holds.
    StackUnderflow,
    /// A local slot lies past the top of the stack.
    SlotOutOfBounds,
    /// A constant index lies past the end of the constant pool.
    ConstantOutOfBounds,
    /// A global's name constant is not a string.
    ConstantNotString,
    /// A table would have to grow beyond what `usize` can count.
    TableFull,
    /// A jump leaves the range of instruction offsets.
    JumpOutOfRange,
}

/// What the host has to do after a call of `step`.
#[derive(Debug)]
pub enum Action {
    /// The instruction completed; step again.
    Continue,
    /// The run is over.
    Finished(InterpretResult),
    /// The two number operands (bit patterns, left then right) have been
    /// popped; push the result of the operation.
    Arithmetic(ArithOp, u64, u64),
    /// A number that is not a whole number below the print bound has been
    /// popped for printing; record the host's rendering with
    /// `record_output`.
    PrintNumber(u64),
    /// A native function was called with these arguments; the callee and the
    /// arguments have been popped; push the result.
    CallNative(NativeFn, Vec<Value>),
    /// The instruction cannot run; nothing changed.
    Fault(Fault),
}

/// The machine state as the contracts see it.
pub struct VmState {
    pub frames: Seq<CallFrame>,
    pub stack: Seq<Value>,
    pub globals: Map<TableKey, Value>,
    pub strings: Map<TableKey, Value>,
    pub heap: Map<ObjRef, Obj>,
    pub bytes_allocated: nat,
    pub next_gc: nat,
    pub output: Seq<String>,
    pub errors: Seq<RuntimeError>,
    /// Whether every allocation runs a collection first.
    pub gc_stress: bool,
    /// Whether the host traces each instruction.
    pub trace_execution: bool,
}

/// The whole machine state.
pub struct Vm {
    frames: Vec<CallFrame>,
    stack: Vec<Value>,
    globals: Table,
    /// interned string pool
    strings: Table,
    heap: Heap,
    bytes_allocated: usize,
    next_gc: usize,
    /// Gray stack for the mark phase.
    gray_stack: Vec<ObjRef>,
    /// Lines printed by the program.
    output: Vec<String>,
    /// Runtime errors reported so far.
    errors: Vec<RuntimeError>,
    /// When true, the host prints the stack and the current instruction before each step.
    pub trace_execution: bool,
    /// When true, every allocation runs a full collection first.
    pub gc_stress: bool,
}

impl View for Vm {
    type V = VmState;

    closed spec fn view(&self) -> VmState {
        VmState {
            frames: self.frames@,
            stack: self.stack@,
            globals: self.globals@,
            strings: self.strings@,
            heap: self.heap@,
            bytes_allocated: self.bytes_allocated as nat,
            next_gc: self.next_gc as nat,
            output: self.output@,
            errors: self.errors@,
            gc_stress: self.gc_stress,
            trace_execution: self.trace_execution,
        }
    }
}

// ---------------------------------------------------------------------------
// Roots, reachability and the machine invariant
// ---------------------------------------------------------------------------

/// The collector's roots: the value stack, the functions of the open call
/// frames, and the keys and values of the globals table.
pub open spec fn is_root(s: VmState, r: ObjRef) -> bool {
    ||| exists|i: int| 0 <= i < s.stack.len() && s.stack[i] == Value::Obj(r)
    ||| exists|i: int| 0 <= i < s.frames.len() && s.frames[i].function == r
    ||| table_refers(s.globals, r)
}

/// Step `i` of `path` follows a reference held by a live object.
pub open spec fn link(heap: Map<ObjRef, Obj>, path: Seq<ObjRef>, i: int) -> bool {
    heap.contains_key(path[i]) && points_to(heap[path[i]], path[i + 1])
}

/// Every step of `path` follows a reference held by a live object.
pub open spec fn is_path(heap: Map<ObjRef, Obj>, path: Seq<ObjRef>) -> bool {
    forall|i: int| 0 <= i < path.len() - 1 ==> #[trigger] link(heap, path, i)
}

/// Object `r` can be reached from a root by following references.
pub open spec fn reachable(s: VmState, r: ObjRef) -> bool {
    exists|path: Seq<ObjRef>|
        #[trigger] is_path(s.heap, path) && path.len() >= 1 && is_root(s, path[0]) && path.last()
            == r
}

/// A value that is an object handle names a live object.
pub open spec fn value_live(heap: Map<ObjRef, Obj>, v: Value) -> bool {
    v matches Value::Obj(o) ==> heap.contains_key(o)
}

/// Every key of `m` names a live string whose hash is the key's hash.
pub open spec fn keys_name_strings(m: Map<TableKey, Value>, heap: Map<ObjRef, Obj>) -> bool {
    forall|k: TableKey|
        #[trigger] m.contains_key(k) ==> heap.contains_key(k.0) && heap[k.0] is String
            && heap[k.0]->String_0.hash == k.1
}

/// A string object's length and hash agree with its characters.
pub open spec fn string_ok(o: Obj) -> bool {
    o matches Obj::String(s) ==> s.length == utf8_len(s.chars@) && s.hash == fnv1a(
        vstd::utf8::encode_utf8(s.chars@),
    )
}

/// The characters of the string object `r`.
pub open spec fn chars_of(heap: Map<ObjRef, Obj>, r: ObjRef) -> Seq<char> {
    heap[r]->String_0.chars@
}

/// The machine invariant, stated over the abstract state.
pub open spec fn state_ok(s: VmState) -> bool {
    let h = s.heap;
    &&& s.frames.len() <= FRAMES_MAX
    &&& s.bytes_allocated <= usize::MAX
    &&& s.next_gc <= usize::MAX
    &&& forall|i: int| 0 <= i < s.stack.len() ==> value_live(h, #[trigger] s.stack[i])
    &&& forall|i: int|
        0 <= i < s.frames.len() ==> h.contains_key(#[trigger] s.frames[i].function)
            && h[s.frames[i].function] is Function
    &&& keys_name_strings(s.globals, h)
    &&& forall|k: TableKey| #[trigger] s.globals.contains_key(k) ==> value_live(h, s.globals[k])
    &&& keys_name_strings(s.strings, h)
    &&& forall|r: ObjRef, c: ObjRef|
        h.contains_key(r) && #[trigger] points_to(h[r], c) ==> h.contains_key(c)
    &&& forall|r: ObjRef|
        #[trigger] h.contains_key(r) && h[r] is Function && h[r]->Function_0.name is Some
            ==> h.contains_key(h[r]->Function_0.name->Some_0) && h[h[r]->Function_0.name->Some_0] is String
    &&& forall|r: ObjRef| #[trigger] h.contains_key(r) ==> !obj_marked(h[r]) && string_ok(h[r])
    &&& forall|r: ObjRef|
        #[trigger] h.contains_key(r) && h[r] is String ==> s.strings.contains_key(
            (r, h[r]->String_0.hash),
        )
    &&& forall|k1: TableKey, k2: TableKey|
        #[trigger] s.strings.contains_key(k1) && #[trigger] s.strings.contains_key(k2) && chars_of(
            h,
            k1.0,
        ) == chars_of(h, k2.0) ==> k1 == k2
}

/// The collection relation: the heap keeps exactly the reachable objects,
/// unchanged, the intern table keeps exactly the keys whose strings
/// survive, and nothing else the program can see changes.
pub open spec fn collected(pre: VmState, post: VmState) -> bool {
    &&& post.gc_stress == pre.gc_stress
    &&& post.trace_execution == pre.trace_execution
    &&& post.frames == pre.frames
    &&& post.stack == pre.stack
    &&& post.globals == pre.globals
    &&& post.output == pre.output
    &&& post.errors == pre.errors
    &&& forall|r: ObjRef|
        #[trigger] post.heap.contains_key(r) <==> pre.heap.contains_key(r) && reachable(pre, r)
    &&& forall|r: ObjRef| #[trigger] post.heap.contains_key(r) ==> post.heap[r] == pre.heap[r]
    &&& forall|k: TableKey|
        #[trigger] post.strings.contains_key(k) <==> pre.strings.contains_key(k)
            && post.heap.contains_key(k.0)
    &&& forall|k: TableKey| #[trigger] post.strings.contains_key(k) ==> post.strings[k] == pre.strings[k]
}

/// The bytes still charged after a collection of `s` has freed, in
/// increasing handle order below `n`, every object that is not reachable,
/// each subtraction stopping at zero.
pub open spec fn bytes_after_sweep(s: VmState, n: nat) -> nat
    decreases n,
{
    if n == 0 {
        s.bytes_allocated
    } else {
        let b = bytes_after_sweep(s, (n - 1) as nat);
        let r = (n - 1) as usize;
        if s.heap.contains_key(r) && !reachable(s, r) {
            if b >= obj_size(s.heap[r]) {
                (b - obj_size(s.heap[r])) as nat
            } else {
                0
            }
        } else {
            b
        }
    }
}

/// The bytes still charged after a collection of `s`.
pub open spec fn bytes_after_collection(s: VmState) -> nat {
    bytes_after_sweep(s, usize::MAX as nat + 1)
}

/// The collection threshold set after a collection that left `b` bytes:
/// `GC_HEAP_GROW_FACTOR` times as many, saturating at the top of `usize`.
pub open spec fn next_threshold(b: nat) -> nat {
    if b * GC_HEAP_GROW_FACTOR > usize::MAX {
        usize::MAX as nat
    } else {
        (b * GC_HEAP_GROW_FACTOR) as nat
    }
}

/// Handles at or above `n` that hold no live object change nothing.
proof fn lemma_sweep_tail(s: VmState, n: nat, m: nat)
    requires
        n <= m <= usize::MAX + 1,
        forall|x: ObjRef| #[trigger] s.heap.contains_key(x) ==> x < n,
    ensures
        bytes_after_sweep(s, m) == bytes_after_sweep(s, n),
    decreases m - n,
{
    if m > n {
        lemma_sweep_tail(s, n, (m - 1) as nat);
        assert(!s.heap.contains_key((m - 1) as usize));
    }
}

// ---------------------------------------------------------------------------
// Collector bookkeeping
// ---------------------------------------------------------------------------

/// Number of live unmarked objects with a handle below `n`.
spec fn unmarked_below(h: Map<ObjRef, Obj>, n: nat) -> nat
    decreases n,
{
    if n == 0 {
        0
    } else {
        unmarked_below(h, (n - 1) as nat) + if h.contains_key((n - 1) as usize) && !obj_marked(
            h[(n - 1) as usize],
        ) {
            1nat
        } else {
            0nat
        }
    }
}

proof fn lemma_unmarked_mark(h: Map<ObjRef, Obj>, r: ObjRef, n: nat)
    requires
        h.contains_key(r),
        !obj_marked(h[r]),
        r < n,
        n <= usize::MAX + 1,
    ensures
        unmarked_below(h.insert(r, with_mark(h[r], true)), n) + 1 == unmarked_below(h, n),
    decreases n,
{
    let h2 = h.insert(r, with_mark(h[r], true));
    if r == n - 1 {
        lemma_unmarked_same(h, h2, (n - 1) as nat);
    } else {
        lemma_unmarked_mark(h, r, (n - 1) as nat);
    }
}

proof fn lemma_unmarked_same(h: Map<ObjRef, Obj>, h2: Map<ObjRef, Obj>, n: nat)
    requires
        n <= usize::MAX + 1,
        forall|x: ObjRef| x < n ==> (#[trigger] h.contains_key(x) <==> h2.contains_key(x)),
        forall|x: ObjRef| x < n && #[trigger] h.contains_key(x) ==> obj_marked(h[x]) == obj_marked(h2[x]),
    ensures
        unmarked_below(h, n) == unmarked_below(h2, n),
    decreases n,
{
    if n > 0 {
        lemma_unmarked_same(h, h2, (n - 1) as nat);
        let x = (n - 1) as usize;
        assert(x < n);
        assert(h.contains_key(x) == h2.contains_key(x));
        if h.contains_key(x) {
            assert(obj_marked(h[x]) == obj_marked(h2[x]));
        }
    }
}

proof fn lemma_with_mark(o: Obj, a: bool, b: bool)
    ensures
        obj_marked(with_mark(o, a)) == a,
        with_mark(with_mark(o, a), b) == with_mark(o, b),
        with_mark(o, obj_marked(o)) == o,
        forall|c: ObjRef| points_to(with_mark(o, a), c) == points_to(o, c),
        (with_mark(o, a) is String) == (o is String),
        (with_mark(o, a) is Function) == (o is Function),
        o is String ==> with_mark(o, a)->String_0.chars == o->String_0.chars
            && with_mark(o, a)->String_0.hash == o->String_0.hash,
{
}

/// A root is reachable.
pub proof fn lemma_root_reachable(s: VmState, r: ObjRef)
    requires
        is_root(s, r),
    ensures
        reachable(s, r),
{
    let p = seq![r];
    assert(is_path(s.heap, p));
}

/// Extending a path to a reachable object by one reference reaches the
/// referenced object.
proof fn lemma_reach_step(s: VmState, g: ObjRef, c: ObjRef)
    requires
        reachable(s, g),
        s.heap.contains_key(g),
        points_to(s.heap[g], c),
    ensures
        reachable(s, c),
{
    let p = choose|path: Seq<ObjRef>|
        #[trigger] is_path(s.heap, path) && path.len() >= 1 && is_root(s, path[0]) && path.last() == g;
    let p2 = p.push(c);
    assert forall|i: int| 0 <= i < p2.len() - 1 implies #[trigger] link(s.heap, p2, i) by {
        if i < p.len() - 1 {
            assert(link(s.heap, p, i));
        }
    }
    assert(is_path(s.heap, p2));
}

/// Every object on a path from a root is marked, when the roots are marked
/// and the marked objects are closed under references.
proof fn lemma_path_marked(s0: VmState, h: Map<ObjRef, Obj>, p: Seq<ObjRef>, i: int)
    requires
        is_path(s0.heap, p),
        p.len() >= 1,
        is_root(s0, p[0]),
        0 <= i < p.len(),
        forall|r: ObjRef| #[trigger] is_root(s0, r) ==> h.contains_key(r) && obj_marked(h[r]),
        forall|r: ObjRef, c: ObjRef|
            #[trigger] h.contains_key(r) && obj_marked(h[r]) && #[trigger] points_to(s0.heap[r], c)
                ==> h.contains_key(c) && obj_marked(h[c]),
    ensures
        h.contains_key(p[i]) && obj_marked(h[p[i]]),
    decreases i,
{
    if i > 0 {
        lemma_path_marked(s0, h, p, i - 1);
        assert(link(s0.heap, p, i - 1));
    }
}

/// A collection keeps the machine invariant.
proof fn lemma_collected_ok(s0: VmState, s1: VmState)
    requires
        state_ok(s0),
        collected(s0, s1),
        s1.bytes_allocated <= usize::MAX,
        s1.next_gc <= usize::MAX,
    ensures
        state_ok(s1),
{
    let h0 = s0.heap;
    let h1 = s1.heap;
    assert forall|r: ObjRef| #[trigger] is_root(s0, r) implies h1.contains_key(r) by {
        lemma_root_reachable(s0, r);
        if exists|x: int| 0 <= x < s0.stack.len() && s0.stack[x] == Value::Obj(r) {
            let x = choose|x: int| 0 <= x < s0.stack.len() && s0.stack[x] == Value::Obj(r);
            assert(value_live(h0, s0.stack[x]));
        } else if exists|x: int| 0 <= x < s0.frames.len() && s0.frames[x].function == r {
            let x = choose|x: int| 0 <= x < s0.frames.len() && s0.frames[x].function == r;
            assert(h0.contains_key(s0.frames[x].function));
        } else {
            let k = choose|k: TableKey| s0.globals.contains_key(k) && (k.0 == r || s0.globals[k] == Value::Obj(r));
            assert(value_live(h0, s0.globals[k]));
        }
    }
    assert forall|i: int| 0 <= i < s1.stack.len() implies value_live(h1, #[trigger] s1.stack[i]) by {
        if s1.stack[i] is Obj {
            assert(is_root(s0, s1.stack[i]->Obj_0));
        }
    }
    assert forall|i: int| 0 <= i < s1.frames.len() implies h1.contains_key(#[trigger] s1.frames[i].function)
        && h1[s1.frames[i].function] is Function by {
        assert(is_root(s0, s1.frames[i].function));
    }
    assert forall|k: TableKey| #[trigger] s1.globals.contains_key(k) implies h1.contains_key(k.0) && h1[k.0] is String
        && h1[k.0]->String_0.hash == k.1 by {
        assert(table_refers(s0.globals, k.0));
        assert(is_root(s0, k.0));
    }
    assert forall|k: TableKey| #[trigger] s1.globals.contains_key(k) implies value_live(h1, s1.globals[k]) by {
        if s1.globals[k] is Obj {
            assert(table_refers(s0.globals, s1.globals[k]->Obj_0));
            assert(is_root(s0, s1.globals[k]->Obj_0));
        }
    }
    assert forall|k: TableKey| #[trigger] s1.strings.contains_key(k) implies h1.contains_key(k.0) && h1[k.0] is String
        && h1[k.0]->String_0.hash == k.1 by {
        assert(s0.strings.contains_key(k));
    }
    assert forall|r: ObjRef, c: ObjRef| h1.contains_key(r) && #[trigger] points_to(h1[r], c) implies h1.contains_key(c) by {
        assert(h1[r] == h0[r]);
        lemma_reach_step(s0, r, c);
    }
    assert forall|r: ObjRef|
        #[trigger] h1.contains_key(r) && h1[r] is Function && h1[r]->Function_0.name is Some
        implies h1.contains_key(h1[r]->Function_0.name->Some_0) && h1[h1[r]->Function_0.name->Some_0] is String by {
        let nm = h1[r]->Function_0.name->Some_0;
        assert(points_to(h0[r], nm));
        lemma_reach_step(s0, r, nm);
    }
    assert forall|r: ObjRef| #[trigger] h1.contains_key(r) implies !obj_marked(h1[r]) && string_ok(h1[r]) by {
        assert(h0.contains_key(r));
    }
    assert forall|r: ObjRef| #[trigger] h1.contains_key(r) && h1[r] is String implies s1.strings.contains_key(
        (r, h1[r]->String_0.hash),
    ) by {
        assert(h0.contains_key(r));
        assert(s0.strings.contains_key((r, h0[r]->String_0.hash)));
    }
    assert forall|k1: TableKey, k2: TableKey|
        #[trigger] s1.strings.contains_key(k1) && #[trigger] s1.strings.contains_key(k2) && chars_of(h1, k1.0)
            == chars_of(h1, k2.0) implies k1 == k2 by {
        assert(s0.strings.contains_key(k1) && s0.strings.contains_key(k2));
        assert(h1[k1.0] == h0[k1.0] && h1[k2.0] == h0[k2.0]);
    }
}

/// What an allocation of object `o` under handle `r` did: `r` now holds `o`,
/// every other live object was live before and is unchanged, everything
/// reachable before is still live (a collection may have run first), the
/// intern table lost only keys of freed strings and gained at most keys of
/// `r`, and nothing else the program can see changed.
pub open spec fn allocated(pre: VmState, post: VmState, r: ObjRef, o: Obj) -> bool {
    &&& post.frames == pre.frames
    &&& post.stack == pre.stack
    &&& post.globals == pre.globals
    &&& post.output == pre.output
    &&& post.errors == pre.errors
    &&& post.heap.contains_key(r)
    &&& post.heap[r] == o
    &&& forall|x: ObjRef|
        x != r && #[trigger] post.heap.contains_key(x) ==> pre.heap.contains_key(x) && post.heap[x]
            == pre.heap[x]
    &&& forall|x: ObjRef|
        #[trigger] pre.heap.contains_key(x) && reachable(pre, x) ==> x != r && post.heap.contains_key(x)
    &&& forall|k: TableKey|
        #[trigger] post.strings.contains_key(k) && k.0 != r ==> pre.strings.contains_key(k)
            && post.strings[k] == pre.strings[k]
    &&& forall|k: TableKey|
        #[trigger] pre.strings.contains_key(k) && post.heap.contains_key(k.0) && k.0 != r
            ==> post.strings.contains_key(k)
}

/// `a + b`, saturating at the top of `usize`.
pub open spec fn sat_add(a: nat, b: nat) -> nat {
    if a + b > usize::MAX {
        usize::MAX as nat
    } else {
        a + b
    }
}

/// Whether allocating `size` bytes in state `s` runs a collection first:
/// always in stress mode, otherwise when the bytes allocated would pass the
/// threshold.
pub open spec fn collects_before(s: VmState, stress: bool, size: nat) -> bool {
    stress || sat_add(s.bytes_allocated, size) > s.next_gc
}

/// The allocator's policy for storing `o` under `r`: when no collection is
/// due, the object is added and its bytes are charged, and nothing else
/// changes; when one is due, every object that was unreachable is gone, the
/// threshold is reset from what the collection left, and the new object's
/// bytes are charged on top.
pub open spec fn allocation_policy(pre: VmState, post: VmState, stress: bool, r: ObjRef, o: Obj) -> bool {
    if collects_before(pre, stress, obj_size(o) as nat) {
        &&& forall|x: ObjRef|
            #[trigger] pre.heap.contains_key(x) && !reachable(pre, x) && x != r ==> !post.heap.contains_key(x)
        &&& post.bytes_allocated == sat_add(bytes_after_collection(pre), obj_size(o) as nat)
        &&& post.next_gc == next_threshold(bytes_after_collection(pre))
    } else {
        &&& post.heap == pre.heap.insert(r, o)
        &&& post.bytes_allocated == sat_add(pre.bytes_allocated, obj_size(o) as nat)
        &&& post.next_gc == pre.next_gc
    }
}

/// An object that `track_object` can take: not a string (strings are
/// interned through `copy_string`), not marked, and everything it refers to
/// is reachable, so a collection that runs first keeps it; a function's name
/// is a string.
pub open spec fn trackable(s: VmState, o: Obj) -> bool {
    &&& !(o is String)
    &&& !obj_marked(o)
    &&& forall|c: ObjRef| #[trigger] points_to(o, c) ==> s.heap.contains_key(c) && reachable(s, c)
    &&& o is Function && o->Function_0.name is Some ==> s.heap.contains_key(o->Function_0.name->Some_0)
        && s.heap[o->Function_0.name->Some_0] is String
}

/// Inserting a non-string object whose references are live, under a handle
/// no live object has, keeps the machine invariant.
proof fn lemma_insert_tracked_ok(s0: VmState, s1: VmState, r: ObjRef, o: Obj)
    requires
        state_ok(s0),
        !(o is String),
        !obj_marked(o),
        forall|c: ObjRef| #[trigger] points_to(o, c) ==> s0.heap.contains_key(c),
        o is Function && o->Function_0.name is Some ==> s0.heap.contains_key(o->Function_0.name->Some_0)
            && s0.heap[o->Function_0.name->Some_0] is String,
        !s0.heap.contains_key(r),
        s1 == (VmState { heap: s0.heap.insert(r, o), ..s0 }),
    ensures
        state_ok(s1),
{
    let h1 = s1.heap;
    assert forall|x: ObjRef, c: ObjRef| h1.contains_key(x) && #[trigger] points_to(h1[x], c) implies h1.contains_key(c) by {
        if x != r {
            assert(s0.heap.contains_key(x));
        }
    }
    assert forall|k1: TableKey, k2: TableKey|
        #[trigger] s1.strings.contains_key(k1) && #[trigger] s1.strings.contains_key(k2) && chars_of(h1, k1.0)
            == chars_of(h1, k2.0) implies k1 == k2 by {
        assert(s0.heap.contains_key(k1.0) && s0.heap.contains_key(k2.0));
    }
    assert forall|x: ObjRef|
        #[trigger] h1.contains_key(x) && h1[x] is Function && h1[x]->Function_0.name is Some
        implies h1.contains_key(h1[x]->Function_0.name->Some_0) && h1[h1[x]->Function_0.name->Some_0] is String by {
        if x != r {
            assert(s0.heap.contains_key(x));
        }
    }
}

/// Inserting a new string whose characters no interned string has, together
/// with its intern-table key, keeps the machine invariant.
proof fn lemma_insert_string_ok(s0: VmState, s1: VmState, r: ObjRef, o: Obj)
    requires
        state_ok(s0),
        o is String,
        !obj_marked(o),
        string_ok(o),
        !s0.heap.contains_key(r),
        forall|k: TableKey| #[trigger] s0.strings.contains_key(k) ==> chars_of(s0.heap, k.0) != o->String_0.chars@,
        s1 == (VmState {
            heap: s0.heap.insert(r, o),
            strings: s0.strings.insert((r, o->String_0.hash), Value::Nil),
            ..s0
        }),
    ensures
        state_ok(s1),
{
    let h1 = s1.heap;
    assert forall|x: ObjRef, c: ObjRef| h1.contains_key(x) && #[trigger] points_to(h1[x], c) implies h1.contains_key(c) by {
        if x != r {
            assert(s0.heap.contains_key(x));
        }
    }
    assert forall|k: TableKey| #[trigger] s1.strings.contains_key(k) implies h1.contains_key(k.0) && h1[k.0] is String
        && h1[k.0]->String_0.hash == k.1 by {
        if k != (r, o->String_0.hash) {
            assert(s0.strings.contains_key(k));
        }
    }
    assert forall|k1: TableKey, k2: TableKey|
        #[trigger] s1.strings.contains_key(k1) && #[trigger] s1.strings.contains_key(k2) && chars_of(h1, k1.0)
            == chars_of(h1, k2.0) implies k1 == k2 by {
        let kn = (r, o->String_0.hash);
        if k1 != kn {
            assert(s0.strings.contains_key(k1));
            assert(s0.heap.contains_key(k1.0));
        }
        if k2 != kn {
            assert(s0.strings.contains_key(k2));
            assert(s0.heap.contains_key(k2.0));
        }
    }
    assert forall|x: ObjRef|
        #[trigger] h1.contains_key(x) && h1[x] is Function && h1[x]->Function_0.name is Some
        implies h1.contains_key(h1[x]->Function_0.name->Some_0) && h1[h1[x]->Function_0.name->Some_0] is String by {
        if x != r {
            assert(s0.heap.contains_key(x));
        }
    }
    assert forall|x: ObjRef| #[trigger] h1.contains_key(x) && h1[x] is String implies s1.strings.contains_key(
        (x, h1[x]->String_0.hash),
    ) by {
        if x != r {
            assert(s0.heap.contains_key(x));
        }
    }
}

/// Storing a live value under the key of a live string keeps the machine
/// invariant.
proof fn lemma_set_global_ok(s0: VmState, s1: VmState, k: TableKey, v: Value)
    requires
        state_ok(s0),
        s0.heap.contains_key(k.0),
        s0.heap[k.0] is String,
        s0.heap[k.0]->String_0.hash == k.1,
        value_live(s0.heap, v),
        s1 == (VmState { globals: s0.globals.insert(k, v), ..s0 }),
    ensures
        state_ok(s1),
{
}

/// Replacing the value stack by one whose objects are live keeps the
/// machine invariant.
proof fn lemma_stack_ok(s0: VmState, s1: VmState)
    requires
        state_ok(s0),
        forall|i: int| 0 <= i < s1.stack.len() ==> value_live(s0.heap, #[trigger] s1.stack[i]),
        s1 == (VmState { stack: s1.stack, ..s0 }),
    ensures
        state_ok(s1),
{
}

/// Changing only the frames, the stack, the globals, the output and the
/// error log keeps the machine invariant when every referenced object is a
/// live object of the right kind.
proof fn lemma_update_ok(s0: VmState, s1: VmState)
    requires
        state_ok(s0),
        s1.heap == s0.heap,
        s1.strings == s0.strings,
        s1.frames.len() <= FRAMES_MAX,
        s1.bytes_allocated == s0.bytes_allocated,
        s1.next_gc == s0.next_gc,
        forall|i: int| 0 <= i < s1.stack.len() ==> value_live(s0.heap, #[trigger] s1.stack[i]),
        forall|i: int|
            0 <= i < s1.frames.len() ==> s0.heap.contains_key(#[trigger] s1.frames[i].function)
                && s0.heap[s1.frames[i].function] is Function,
        keys_name_strings(s1.globals, s0.heap),
        forall|k: TableKey| #[trigger] s1.globals.contains_key(k) ==> value_live(s0.heap, s1.globals[k]),
    ensures
        state_ok(s1),
{
}

/// A constant of a live function is a live value.
proof fn lemma_const_live(s: VmState, f: ObjRef, i: int)
    requires
        state_ok(s),
        s.heap.contains_key(f),
        s.heap[f] is Function,
        0 <= i < s.heap[f]->Function_0.chunk.constants.values@.len(),
    ensures
        value_live(s.heap, s.heap[f]->Function_0.chunk.constants.values@[i]),
{
    let v = s.heap[f]->Function_0.chunk.constants.values@[i];
    if v is Obj {
        assert(points_to(s.heap[f], v->Obj_0));
    }
}

/// The number under which the host registers its clock function.
pub const CLOCK_NATIVE: NativeFn = 0;

impl Vm {
    /// The machine invariant, stated over the abstract state, holds of a
    /// well-formed machine.
    pub proof fn lemma_state_ok(&self)
        requires
            self.wf(),
        ensures
            state_ok(self@),
    {
    }

    /// One more than the largest object handle ever handed out; every live
    /// handle lies below it and the next object gets it.
    pub closed spec fn handle_bound(&self) -> nat {
        self.heap.slot_bound()
    }

    /// Every live handle lies below the handle bound.
    pub proof fn lemma_handles_below_bound(&self)
        ensures
            forall|r: ObjRef| #[trigger] self@.heap.contains_key(r) ==> r < self.handle_bound(),
    {
        self.heap.lemma_handles_below_bound();
    }

    /// Number of slots of the intern table.
    pub closed spec fn strings_cap(&self) -> nat {
        self.strings.spec_capacity()
    }

    /// Number of slots of the globals table.
    pub closed spec fn globals_cap(&self) -> nat {
        self.globals.spec_capacity()
    }

    /// The machine invariant.
    pub closed spec fn wf(&self) -> bool {
        &&& self.globals.wf()
        &&& self.strings.wf()
        &&& self.gray_stack@.len() == 0
        &&& state_ok(self@)
    }

    /// The collector's invariant while marking: only mark bits differ from
    /// the heap of `s0`; gray objects are marked; marked objects are
    /// reachable; and a marked object that is neither gray nor `except` has
    /// all its children marked.
    closed spec fn gc_inv(&self, s0: VmState, n: nat, except: Option<ObjRef>) -> bool {
        let h = self.heap@;
        &&& self.heap.slot_bound() == n
        &&& n <= usize::MAX
        &&& forall|r: ObjRef| #[trigger] h.contains_key(r) <==> s0.heap.contains_key(r)
        &&& forall|r: ObjRef| #[trigger] h.contains_key(r) ==> r < n
        &&& forall|r: ObjRef| #[trigger] h.contains_key(r) ==> h[r] == with_mark(s0.heap[r], obj_marked(h[r]))
        &&& forall|i: int| 0 <= i < self.gray_stack@.len() ==> h.contains_key(#[trigger] self.gray_stack@[i])
            && obj_marked(h[self.gray_stack@[i]])
        &&& forall|r: ObjRef| #[trigger] h.contains_key(r) && obj_marked(h[r]) ==> reachable(s0, r)
        &&& forall|r: ObjRef, c: ObjRef|
            #[trigger] h.contains_key(r) && obj_marked(h[r]) && !self.gray_stack@.contains(r) && except != Some(r)
                && #[trigger] points_to(s0.heap[r], c) ==> h.contains_key(c) && obj_marked(h[c])
        &&& self.frames@ == s0.frames
        &&& self.stack@ == s0.stack
        &&& self.globals@ == s0.globals
        &&& self.strings@ == s0.strings
        &&& self.output@ == s0.output
        &&& self.errors@ == s0.errors
        &&& self.bytes_allocated == s0.bytes_allocated
        &&& self.gc_stress == s0.gc_stress
        &&& self.trace_execution == s0.trace_execution
        &&& self.globals.wf()
        &&& self.strings.wf()
    }

    /// Mark `r` gray unless it is already marked.
    fn mark_object(&mut self, r: ObjRef, Ghost(s0): Ghost<VmState>, Ghost(n): Ghost<nat>, Ghost(except): Ghost<Option<ObjRef>>)
        requires
            old(self).gc_inv(s0, n, except),
            state_ok(s0),
            s0.heap.contains_key(r),
            reachable(s0, r),
        ensures
            final(self).globals_cap() == old(self).globals_cap(),
            final(self).strings_cap() == old(self).strings_cap(),
            final(self).gc_inv(s0, n, except),
            obj_marked(final(self).heap@[r]),
            forall|x: ObjRef| #[trigger] old(self).heap@.contains_key(x) && obj_marked(old(self).heap@[x])
                ==> obj_marked(final(self).heap@[x]),
            obj_marked(old(self).heap@[r]) ==> final(self).heap@ == old(self).heap@
                && final(self).gray_stack@ == old(self).gray_stack@,
            !obj_marked(old(self).heap@[r]) ==> unmarked_below(final(self).heap@, n) + 1
                == unmarked_below(old(self).heap@, n) && final(self).gray_stack@ == old(self).gray_stack@.push(r),
    {
        let marked = match self.heap.get(r) {
            Some(o) => o.is_marked(),
            None => true,
        };
        if marked {
            return;
        }
        let ghost h = self.heap@;
        proof {
            lemma_unmarked_mark(h, r, n);
            lemma_with_mark(s0.heap[r], false, true);
            lemma_with_mark(h[r], false, true);
        }
        self.heap.set_marked(r, true);
        self.gray_stack.push(r);
        proof {
            let h2 = self.heap@;
            assert forall|x: ObjRef| #[trigger] h2.contains_key(x) implies h2[x] == with_mark(s0.heap[x], obj_marked(h2[x])) by {
                if x == r {
                    lemma_with_mark(s0.heap[x], obj_marked(h[x]), true);
                }
            }
            assert forall|i: int| 0 <= i < self.gray_stack@.len() implies h2.contains_key(#[trigger] self.gray_stack@[i])
                && obj_marked(h2[self.gray_stack@[i]]) by {
                if i < self.gray_stack@.len() - 1 {
                    assert(old(self).gray_stack@[i] == self.gray_stack@[i]);
                }
            }
            assert forall|x: ObjRef, c: ObjRef|
                #[trigger] h2.contains_key(x) && obj_marked(h2[x]) && !self.gray_stack@.contains(x) && except != Some(x)
                    && #[trigger] points_to(s0.heap[x], c) implies h2.contains_key(c) && obj_marked(h2[c]) by {
                assert(x != r) by {
                    assert(self.gray_stack@[self.gray_stack@.len() - 1] == r);
                }
                assert(!old(self).gray_stack@.contains(x)) by {
                    if old(self).gray_stack@.contains(x) {
                        let i = choose|i: int| 0 <= i < old(self).gray_stack@.len() && old(self).gray_stack@[i] == x;
                        assert(self.gray_stack@[i] == x);
                    }
                }
            }
        }
    }

    /// Blacken gray objects until none is left: mark everything the gray
    /// objects refer to.
    fn trace_references(&mut self, Ghost(s0): Ghost<VmState>, Ghost(n): Ghost<nat>)
        requires
            old(self).gc_inv(s0, n, None),
            state_ok(s0),
        ensures
            final(self).globals_cap() == old(self).globals_cap(),
            final(self).strings_cap() == old(self).strings_cap(),
            final(self).gc_inv(s0, n, None),
            final(self).gray_stack@.len() == 0,
            forall|x: ObjRef| #[trigger] old(self).heap@.contains_key(x) && obj_marked(old(self).heap@[x])
                ==> obj_marked(final(self).heap@[x]),
    {
        let ghost h_entry = self.heap@;
        while self.gray_stack.len() > 0
            invariant
                self.globals_cap() == old(self).globals_cap(),
                self.strings_cap() == old(self).strings_cap(),
                self.gc_inv(s0, n, None),
                state_ok(s0),
                forall|x: ObjRef| #[trigger] h_entry.contains_key(x) && obj_marked(h_entry[x])
                    ==> obj_marked(self.heap@[x]),
                forall|x: ObjRef| #[trigger] h_entry.contains_key(x) <==> self.heap@.contains_key(x),
            decreases unmarked_below(self.heap@, n), self.gray_stack@.len(),
        {
            let ghost gray0 = self.gray_stack@;
            let ghost u0 = unmarked_below(self.heap@, n);
            let g = self.gray_stack.pop().unwrap();
            proof {
                assert(gray0[gray0.len() - 1] == g);
                assert(self.heap@.contains_key(g) && obj_marked(self.heap@[g]));
                assert forall|r: ObjRef, c: ObjRef|
                    #[trigger] self.heap@.contains_key(r) && obj_marked(self.heap@[r]) && !self.gray_stack@.contains(r)
                        && Some(g) != Some(r) && #[trigger] points_to(s0.heap[r], c) implies self.heap@.contains_key(c)
                        && obj_marked(self.heap@[c]) by {
                    if gray0.contains(r) {
                        let i = choose|i: int| 0 <= i < gray0.len() && gray0[i] == r;
                        if i < gray0.len() - 1 {
                            assert(self.gray_stack@[i] == r);
                        }
                    }
                }
            }
            let mut children: Vec<ObjRef> = Vec::new();
            match self.heap.get(g) {
                Some(Obj::Function(f)) => {
                    match f.name {
                        Some(nm) => {
                            children.push(nm);
                            proof {
                                assert(children@[0] == nm);
                            }
                        },
                        None => {},
                    }
                    let mut i: usize = 0;
                    while i < f.chunk.constants.values.len()
                        invariant
                self.globals_cap() == old(self).globals_cap(),
                self.strings_cap() == old(self).strings_cap(),
                            i <= f.chunk.constants.values@.len(),
                            forall|j: int| 0 <= j < children@.len() ==> points_to(Obj::Function(*f), #[trigger] children@[j]),
                            f.name matches Some(nm) ==> children@.contains(nm),
                            forall|j: int| 0 <= j < i && #[trigger] f.chunk.constants.values@[j] is Obj
                                ==> children@.contains(f.chunk.constants.values@[j]->Obj_0),
                        decreases f.chunk.constants.values@.len() - i,
                    {
                        let ghost before = children@;
                        match f.chunk.constants.values[i] {
                            Value::Obj(o) => {
                                children.push(o);
                                proof {
                                    assert(children@[children@.len() - 1] == o);
                                }
                            },
                            _ => {},
                        }
                        proof {
                            assert forall|j: int| 0 <= j < children@.len() implies points_to(Obj::Function(*f), #[trigger] children@[j]) by {
                                if j < before.len() {
                                    assert(before[j] == children@[j]);
                                } else {
                                    assert(f.chunk.constants.values@[i as int] == Value::Obj(children@[j]));
                                }
                            }
                            assert forall|x: ObjRef| before.contains(x) implies #[trigger] children@.contains(x) by {
                                let j = choose|j: int| 0 <= j < before.len() && before[j] == x;
                                assert(children@[j] == x);
                            }
                        }
                        i = i + 1;
                    }
                },
                _ => {},
            }
            let ghost gobj = self.heap@[g];
            proof {
                lemma_with_mark(s0.heap[g], true, true);
                assert forall|c: ObjRef| points_to(s0.heap[g], c) implies children@.contains(c) by {
                    assert(points_to(gobj, c));
                }
                assert forall|j: int| 0 <= j < children@.len() implies #[trigger] points_to(s0.heap[g], children@[j]) by {
                    assert(points_to(gobj, children@[j]));
                }
            }
            let ghost gray1 = self.gray_stack@;
            let mut j: usize = 0;
            while j < children.len()
                invariant
                self.globals_cap() == old(self).globals_cap(),
                self.strings_cap() == old(self).strings_cap(),
                    self.gc_inv(s0, n, Some(g)),
                    state_ok(s0),
                    s0.heap.contains_key(g),
                    reachable(s0, g),
                    j <= children@.len(),
                    forall|x: int| 0 <= x < children@.len() ==> #[trigger] points_to(s0.heap[g], children@[x]),
                    forall|c: ObjRef| points_to(s0.heap[g], c) ==> children@.contains(c),
                    forall|x: int| 0 <= x < j ==> self.heap@.contains_key(#[trigger] children@[x]) && obj_marked(self.heap@[children@[x]]),
                    forall|x: ObjRef| #[trigger] h_entry.contains_key(x) && obj_marked(h_entry[x])
                        ==> obj_marked(self.heap@[x]),
                    forall|x: ObjRef| #[trigger] h_entry.contains_key(x) <==> self.heap@.contains_key(x),
                    self.heap@.contains_key(g) && obj_marked(self.heap@[g]),
                    unmarked_below(self.heap@, n) + self.gray_stack@.len() == u0 + gray0.len() - 1,
                    self.gray_stack@.len() >= gray1.len(),
                    gray1.len() == gray0.len() - 1,
                decreases children@.len() - j,
            {
                let c = children[j];
                proof {
                    assert(points_to(s0.heap[g], c));
                    lemma_reach_step(s0, g, c);
                }
                let ghost hb = self.heap@;
                self.mark_object(c, Ghost(s0), Ghost(n), Ghost(Some(g)));
                proof {
                    assert forall|x: int| 0 <= x < j + 1 implies self.heap@.contains_key(#[trigger] children@[x]) && obj_marked(self.heap@[children@[x]]) by {
                        if x < j {
                            assert(hb.contains_key(children@[x]));
                        }
                    }
                }
                j = j + 1;
            }
            proof {
                assert forall|r: ObjRef, c: ObjRef|
                    #[trigger] self.heap@.contains_key(r) && obj_marked(self.heap@[r]) && !self.gray_stack@.contains(r)
                        && None::<ObjRef> != Some(r) && #[trigger] points_to(s0.heap[r], c) implies self.heap@.contains_key(c)
                        && obj_marked(self.heap@[c]) by {
                    if r == g {
                        let x = choose|x: int| 0 <= x < children@.len() && children@[x] == c;
                        assert(obj_marked(self.heap@[children@[x]]));
                        assert(state_ok(s0));
                    }
                }
            }
        }
    }

    /// Mark every root.
    fn mark_roots(&mut self, Ghost(s0): Ghost<VmState>, Ghost(n): Ghost<nat>)
        requires
            old(self).gc_inv(s0, n, None),
            state_ok(s0),
        ensures
            final(self).globals_cap() == old(self).globals_cap(),
            final(self).strings_cap() == old(self).strings_cap(),
            final(self).gc_inv(s0, n, None),
            forall|r: ObjRef| #[trigger] is_root(s0, r) ==> final(self).heap@.contains_key(r) && obj_marked(final(self).heap@[r]),
    {
        let mut roots: Vec<ObjRef> = Vec::new();
        let mut i: usize = 0;
        while i < self.stack.len()
            invariant
                self.globals_cap() == old(self).globals_cap(),
                self.strings_cap() == old(self).strings_cap(),
                self.gc_inv(s0, n, None),
                i <= self.stack@.len(),
                forall|j: int| 0 <= j < roots@.len() ==> is_root(s0, #[trigger] roots@[j]),
                forall|j: int| 0 <= j < i && #[trigger] self.stack@[j] is Obj ==> roots@.contains(self.stack@[j]->Obj_0),
            decreases self.stack@.len() - i,
        {
            let ghost before = roots@;
            match self.stack[i] {
                Value::Obj(o) => {
                    roots.push(o);
                    proof {
                        assert(roots@[roots@.len() - 1] == o);
                        assert(s0.stack[i as int] == Value::Obj(o));
                    }
                },
                _ => {},
            }
            proof {
                assert forall|j: int| 0 <= j < roots@.len() implies is_root(s0, #[trigger] roots@[j]) by {
                    if j < before.len() {
                        assert(before[j] == roots@[j]);
                    }
                }
                assert forall|x: ObjRef| before.contains(x) implies #[trigger] roots@.contains(x) by {
                    let j = choose|j: int| 0 <= j < before.len() && before[j] == x;
                    assert(roots@[j] == x);
                }
            }
            i = i + 1;
        }
        let mut i: usize = 0;
        while i < self.frames.len()
            invariant
                self.globals_cap() == old(self).globals_cap(),
                self.strings_cap() == old(self).strings_cap(),
                self.gc_inv(s0, n, None),
                i <= self.frames@.len(),
                forall|j: int| 0 <= j < roots@.len() ==> is_root(s0, #[trigger] roots@[j]),
                forall|j: int| 0 <= j < self.stack@.len() && #[trigger] self.stack@[j] is Obj ==> roots@.contains(self.stack@[j]->Obj_0),
                forall|j: int| 0 <= j < i ==> roots@.contains(#[trigger] self.frames@[j].function),
            decreases self.frames@.len() - i,
        {
            let ghost before = roots@;
            roots.push(self.frames[i].function);
            proof {
                assert(roots@[roots@.len() - 1] == self.frames@[i as int].function);
                assert forall|j: int| 0 <= j < roots@.len() implies is_root(s0, #[trigger] roots@[j]) by {
                    if j < before.len() {
                        assert(before[j] == roots@[j]);
                    }
                }
                assert forall|x: ObjRef| before.contains(x) implies #[trigger] roots@.contains(x) by {
                    let j = choose|j: int| 0 <= j < before.len() && before[j] == x;
                    assert(roots@[j] == x);
                }
            }
            i = i + 1;
        }
        let ghost before = roots@;
        self.globals.mark(&mut roots);
        proof {
            assert forall|j: int| 0 <= j < roots@.len() implies is_root(s0, #[trigger] roots@[j]) by {
                if !before.contains(roots@[j]) {
                    assert(roots@.contains(roots@[j]));
                } else {
                    let k = choose|k: int| 0 <= k < before.len() && before[k] == roots@[j];
                }
            }
            assert forall|r: ObjRef| #[trigger] is_root(s0, r) implies roots@.contains(r) by {
                if exists|x: int| 0 <= x < s0.stack.len() && s0.stack[x] == Value::Obj(r) {
                    let x = choose|x: int| 0 <= x < s0.stack.len() && s0.stack[x] == Value::Obj(r);
                    assert(self.stack@[x] is Obj);
                    assert(before.contains(r));
                } else if exists|x: int| 0 <= x < s0.frames.len() && s0.frames[x].function == r {
                    let x = choose|x: int| 0 <= x < s0.frames.len() && s0.frames[x].function == r;
                    assert(before.contains(self.frames@[x].function));
                }
            }
        }
        let mut j: usize = 0;
        while j < roots.len()
            invariant
                self.globals_cap() == old(self).globals_cap(),
                self.strings_cap() == old(self).strings_cap(),
                self.gc_inv(s0, n, None),
                state_ok(s0),
                j <= roots@.len(),
                forall|x: int| 0 <= x < roots@.len() ==> is_root(s0, #[trigger] roots@[x]),
                forall|r: ObjRef| #[trigger] is_root(s0, r) ==> roots@.contains(r),
                forall|x: int| 0 <= x < j ==> self.heap@.contains_key(#[trigger] roots@[x]) && obj_marked(self.heap@[roots@[x]]),
            decreases roots@.len() - j,
        {
            let r = roots[j];
            proof {
                assert(is_root(s0, r));
                lemma_root_reachable(s0, r);
                let h = s0.heap;
                if exists|x: int| 0 <= x < s0.stack.len() && s0.stack[x] == Value::Obj(r) {
                    let x = choose|x: int| 0 <= x < s0.stack.len() && s0.stack[x] == Value::Obj(r);
                    assert(value_live(h, s0.stack[x]));
                } else if exists|x: int| 0 <= x < s0.frames.len() && s0.frames[x].function == r {
                    let x = choose|x: int| 0 <= x < s0.frames.len() && s0.frames[x].function == r;
                    assert(h.contains_key(s0.frames[x].function));
                } else {
                    let k = choose|k: TableKey| s0.globals.contains_key(k) && (k.0 == r || s0.globals[k] == Value::Obj(r));
                    assert(value_live(h, s0.globals[k]));
                }
            }
            let ghost hb = self.heap@;
            self.mark_object(r, Ghost(s0), Ghost(n), Ghost(None));
            proof {
                assert forall|x: int| 0 <= x < j + 1 implies self.heap@.contains_key(#[trigger] roots@[x]) && obj_marked(self.heap@[roots@[x]]) by {
                    if x < j {
                        assert(hb.contains_key(roots@[x]));
                    }
                }
            }
            j = j + 1;
        }
        proof {
            assert forall|r: ObjRef| #[trigger] is_root(s0, r) implies self.heap@.contains_key(r) && obj_marked(self.heap@[r]) by {
                let x = choose|x: int| 0 <= x < roots@.len() && roots@[x] == r;
            }
        }
    }

    /// Run a full mark-sweep collection: mark everything reachable from the
    /// roots, drop unmarked strings from the intern table, free every
    /// unmarked object, and set the next threshold to twice what is left.
    pub fn collect_garbage(&mut self)
        requires
            old(self).wf(),
        ensures
            final(self).wf(),
            collected(old(self)@, final(self)@),
            final(self)@.bytes_allocated == bytes_after_collection(old(self)@),
            final(self)@.bytes_allocated <= old(self)@.bytes_allocated,
            final(self).strings_cap() == old(self).strings_cap(),
            final(self).globals_cap() == old(self).globals_cap(),
            final(self)@.next_gc == next_threshold(final(self)@.bytes_allocated),
            final(self).handle_bound() == old(self).handle_bound(),
    {
        let ghost s0 = self@;
        let n = self.heap.slot_count();
        proof {
            assert forall|r: ObjRef| #[trigger] self.heap@.contains_key(r) implies self.heap@[r] == with_mark(
                s0.heap[r],
                obj_marked(self.heap@[r]),
            ) by {
                lemma_with_mark(self.heap@[r], false, false);
            }
        }
        self.mark_roots(Ghost(s0), Ghost(n as nat));
        self.trace_references(Ghost(s0), Ghost(n as nat));
        let ghost hm = self.heap@;
        proof {
            assert forall|r: ObjRef| #[trigger] is_root(s0, r) implies hm.contains_key(r) && obj_marked(hm[r]) by {
            }
            assert forall|r: ObjRef, c: ObjRef|
                #[trigger] hm.contains_key(r) && obj_marked(hm[r]) && #[trigger] points_to(s0.heap[r], c)
                    implies hm.contains_key(c) && obj_marked(hm[c]) by {
                assert(!self.gray_stack@.contains(r));
            }
            assert forall|r: ObjRef| #[trigger] s0.heap.contains_key(r) && reachable(s0, r) implies hm.contains_key(r)
                && obj_marked(hm[r]) by {
                let p = choose|path: Seq<ObjRef>|
                    #[trigger] is_path(s0.heap, path) && path.len() >= 1 && is_root(s0, path[0]) && path.last() == r;
                lemma_path_marked(s0, hm, p, p.len() - 1);
            }
            assert forall|k: crate::table::TableKey| #[trigger] self.strings@.contains_key(k) implies self.heap@.contains_key(k.0) by {
                assert(s0.strings.contains_key(k));
            }
        }
        self.strings.remove_white(&self.heap);
        let ghost strings1 = self.strings@;
        let mut r: usize = 0;
        while r < n
            invariant
                self.heap.slot_bound() == n,
                r <= n,
                forall|x: ObjRef| #[trigger] hm.contains_key(x) ==> x < n,
                forall|x: ObjRef| #[trigger] self.heap@.contains_key(x) ==> hm.contains_key(x),
                forall|x: ObjRef| x < r ==> (#[trigger] self.heap@.contains_key(x) <==> hm.contains_key(x) && obj_marked(hm[x])),
                forall|x: ObjRef| x >= r ==> (#[trigger] self.heap@.contains_key(x) <==> hm.contains_key(x)),
                forall|x: ObjRef| #[trigger] self.heap@.contains_key(x) ==> self.heap@[x] == (if x < r {
                    with_mark(hm[x], false)
                } else {
                    hm[x]
                }),
                self.bytes_allocated <= s0.bytes_allocated,
                self.bytes_allocated == bytes_after_sweep(s0, r as nat),
                forall|x: ObjRef| #[trigger] hm.contains_key(x) <==> s0.heap.contains_key(x),
                forall|x: ObjRef| #[trigger] hm.contains_key(x) ==> (obj_marked(hm[x]) <==> reachable(s0, x)),
                forall|x: ObjRef| #[trigger] hm.contains_key(x) ==> hm[x] == with_mark(s0.heap[x], obj_marked(hm[x])),
                self.frames@ == s0.frames,
                self.stack@ == s0.stack,
                self.globals@ == s0.globals,
                self.strings@ == strings1,
                self.globals_cap() == old(self).globals_cap(),
                self.strings_cap() == old(self).strings_cap(),
                self.output@ == s0.output,
                self.errors@ == s0.errors,
                self.gc_stress == s0.gc_stress,
                self.trace_execution == s0.trace_execution,
                self.globals.wf(),
                self.strings.wf(),
                self.gray_stack@.len() == 0,
            decreases n - r,
        {
            let (live, marked, size) = match self.heap.get(r) {
                Some(o) => (true, o.is_marked(), object_size(o)),
                None => (false, false, 0),
            };
            proof {
                if live {
                    assert(self.heap@[r] == hm[r]);
                    assert(hm.contains_key(r));
                    assert(obj_size(hm[r]) == obj_size(s0.heap[r]));
                } else {
                    assert(!hm.contains_key(r));
                }
            }
            if live {
                if marked {
                    proof {
                        lemma_with_mark(hm[r], true, false);
                    }
                    self.heap.set_marked(r, false);
                } else {
                    self.bytes_allocated = self.bytes_allocated.saturating_sub(size);
                    self.heap.free(r);
                }
            }
            r = r + 1;
        }
        proof {
            lemma_sweep_tail(s0, n as nat, usize::MAX as nat + 1);
        }
        self.next_gc = if self.bytes_allocated > usize::MAX / GC_HEAP_GROW_FACTOR {
            usize::MAX
        } else {
            self.bytes_allocated * GC_HEAP_GROW_FACTOR
        };
        proof {
            let s1 = self@;
            assert forall|x: ObjRef| #[trigger] s1.heap.contains_key(x) implies s1.heap[x] == s0.heap[x] by {
                lemma_with_mark(s0.heap[x], obj_marked(hm[x]), false);
                lemma_with_mark(s0.heap[x], false, false);
            }
            assert forall|x: ObjRef| #[trigger] s1.heap.contains_key(x) <==> s0.heap.contains_key(x) && reachable(s0, x) by {
                if s0.heap.contains_key(x) {
                    assert(hm.contains_key(x));
                }
            }
            assert forall|k: TableKey| #[trigger] s1.strings.contains_key(k) <==> s0.strings.contains_key(k)
                && s1.heap.contains_key(k.0) by {
                if s0.strings.contains_key(k) {
                    assert(hm.contains_key(k.0));
                }
            }
            assert(collected(s0, s1));
            lemma_collected_ok(s0, s1);
        }
    }

    /// Collect garbage if this allocation of `size` bytes crosses the
    /// threshold (or always, in stress mode), then charge the bytes.
    fn prepare_allocation(&mut self, size: usize)
        requires
            old(self).wf(),
        ensures
            final(self).wf(),
            final(self)@.gc_stress == old(self)@.gc_stress,
            final(self)@.trace_execution == old(self)@.trace_execution,
            collects_before(old(self)@, old(self)@.gc_stress, size as nat) ==> collected(old(self)@, final(self)@)
                && final(self)@.bytes_allocated == sat_add(bytes_after_collection(old(self)@), size as nat)
                && final(self)@.next_gc == next_threshold(bytes_after_collection(old(self)@)),
            !collects_before(old(self)@, old(self)@.gc_stress, size as nat) ==> final(self)@ == (VmState {
                bytes_allocated: sat_add(old(self)@.bytes_allocated, size as nat),
                ..old(self)@
            }),
            final(self)@.heap == old(self)@.heap || collected(old(self)@, final(self)@),
            final(self)@.frames == old(self)@.frames,
            final(self)@.stack == old(self)@.stack,
            final(self)@.globals == old(self)@.globals,
            final(self)@.output == old(self)@.output,
            final(self)@.errors == old(self)@.errors,
            final(self)@.heap == old(self)@.heap ==> final(self)@.strings == old(self)@.strings,
            final(self).strings_cap() == old(self).strings_cap(),
            final(self).globals_cap() == old(self).globals_cap(),
            final(self).handle_bound() == old(self).handle_bound(),
    {
        if self.gc_stress || self.bytes_allocated.saturating_add(size) > self.next_gc {
            self.collect_garbage();
        }
        let ghost pre = self@;
        self.bytes_allocated = self.bytes_allocated.saturating_add(size);
        proof {
            assert(self@.heap == pre.heap && self@.stack == pre.stack && self@.frames == pre.frames);
            assert(self@.globals == pre.globals && self@.strings == pre.strings);
            assert(state_ok(self@));
        }
    }

    /// Register a new object with the heap and return its handle, one that
    /// no object had before.  A collection runs first when the allocation
    /// crosses the threshold, so the new object itself is never reclaimed by
    /// its own allocation; what it refers to must be reachable, so that
    /// collection keeps it too.
    pub fn track_object(&mut self, obj: Obj) -> (r: ObjRef)
        requires
            old(self).wf(),
            trackable(old(self)@, obj),
        ensures
            final(self).wf(),
            !old(self)@.heap.contains_key(r),
            r == old(self).handle_bound(),
            final(self).handle_bound() == old(self).handle_bound() + 1,
            allocated(old(self)@, final(self)@, r, obj),
            allocation_policy(old(self)@, final(self)@, old(self)@.gc_stress, r, obj),
            final(self)@.gc_stress == old(self)@.gc_stress,
            final(self)@.trace_execution == old(self)@.trace_execution,
            final(self).strings_cap() == old(self).strings_cap(),
            final(self).globals_cap() == old(self).globals_cap(),
    {
        let ghost s0 = self@;
        proof {
            self.lemma_handles_below_bound();
        }
        let size = object_size(&obj);
        self.prepare_allocation(size);
        let ghost mid = self@;
        proof {
            self.lemma_handles_below_bound();
            assert forall|c: ObjRef| #[trigger] points_to(obj, c) implies mid.heap.contains_key(c) by {
                assert(s0.heap.contains_key(c) && reachable(s0, c));
            }
            if obj is Function && obj->Function_0.name is Some {
                let nm = obj->Function_0.name->Some_0;
                assert(points_to(obj, nm));
                assert(mid.heap[nm] == s0.heap[nm]);
            }
        }
        let r = self.heap.allocate(obj);
        proof {
            assert(self@ == (VmState { heap: mid.heap.insert(r, obj), ..mid }));
            lemma_insert_tracked_ok(mid, self@, r, obj);
            assert forall|k: TableKey| #[trigger] self@.strings.contains_key(k) && k.0 != r implies s0.strings.contains_key(k)
                && self@.strings[k] == s0.strings[k] by {
            }
        }
        r
    }

    pub fn new() -> (vm: Self)
        ensures
            vm.wf(),
            vm@.frames == Seq::<CallFrame>::empty(),
            vm@.stack == Seq::<Value>::empty(),
            vm@.output == Seq::<String>::empty(),
            vm@.errors == Seq::<RuntimeError>::empty(),
            !vm@.gc_stress,
            !vm@.trace_execution,
            vm@.bytes_allocated == STRING_OBJ_BYTES + utf8_len("clock"@) + NATIVE_OBJ_BYTES,
            vm@.next_gc == GC_INITIAL_THRESHOLD,
            vm.strings_cap() <= 8,
            vm.globals_cap() <= 8,
            exists|k: TableKey, f: ObjRef|
                vm@.globals == Map::<TableKey, Value>::empty().insert(k, Value::Obj(f)) && chars_of(vm@.heap, k.0)
                    == "clock"@ && vm@.heap[f] is Native && vm@.heap[f]->Native_0.function == CLOCK_NATIVE
                    && vm@.heap[f]->Native_0.name@ == "clock"@,
    {
        let mut vm = Vm {
            frames: Vec::with_capacity(FRAMES_MAX),
            stack: Vec::with_capacity(STACK_MAX),
            globals: Table::new(),
            strings: Table::new(),
            heap: Heap::new(),
            bytes_allocated: 0,
            next_gc: GC_INITIAL_THRESHOLD,
            gray_stack: Vec::new(),
            output: Vec::new(),
            errors: Vec::new(),
            trace_execution: false,
            gc_stress: false,
        };
        proof {
            reveal_strlit("clock");
            lemma_utf8_len_bound("clock"@);
            assert(vm@.strings == Map::<TableKey, Value>::empty());
        }
        vm.define_native("clock", CLOCK_NATIVE);
        vm
    }

    pub fn push(&mut self, value: Value)
        requires
            old(self).wf(),
            value_live(old(self)@.heap, value),
        ensures
            final(self).wf(),
            final(self)@ == (VmState { stack: old(self)@.stack.push(value), ..old(self)@ }),
            final(self).globals_cap() == old(self).globals_cap(),
            final(self).strings_cap() == old(self).strings_cap(),
    {
        let ghost s0 = self@;
        self.stack.push(value);
        proof {
            lemma_stack_ok(s0, self@);
        }
    }

    /// Pop the top of the value stack, which must not be empty.
    pub fn pop(&mut self) -> (v: Value)
        requires
            old(self).wf(),
            old(self)@.stack.len() > 0,
        ensures
            final(self).wf(),
            v == old(self)@.stack.last(),
            final(self)@ == (VmState { stack: old(self)@.stack.drop_last(), ..old(self)@ }),
            final(self).globals_cap() == old(self).globals_cap(),
            final(self).strings_cap() == old(self).strings_cap(),
    {
        let ghost s0 = self@;
        let v = self.stack.pop().unwrap();
        proof {
            assert(self@.stack =~= s0.stack.drop_last());
            lemma_stack_ok(s0, self@);
        }
        v
    }

    /// The value `distance` slots below the top of the stack.
    pub fn peek(&self, distance: usize) -> (v: &Value)
        requires
            distance < self@.stack.len(),
        ensures
            *v == self@.stack[self@.stack.len() - 1 - distance],
    {
        &self.stack[self.stack.len() - 1 - distance]
    }

    /// Install the host function numbered `function` under the global `name`.
    pub fn define_native(&mut self, name: &str, function: NativeFn)
        requires
            old(self).wf(),
            old(self).strings_cap() <= usize::MAX / 2,
            old(self).globals_cap() <= usize::MAX / 2,
        ensures
            final(self).wf(),
            final(self)@.frames == old(self)@.frames,
            final(self)@.stack == old(self)@.stack,
            final(self)@.output == old(self)@.output,
            final(self)@.errors == old(self)@.errors,
            final(self)@.gc_stress == old(self)@.gc_stress,
            final(self)@.trace_execution == old(self)@.trace_execution,
            final(self).strings_cap() <= 2 * old(self).strings_cap() + 8,
            final(self).globals_cap() <= 2 * old(self).globals_cap() + 8,
            exists|k: TableKey, f: ObjRef|
                final(self)@.globals == old(self)@.globals.insert(k, Value::Obj(f)) && chars_of(final(self)@.heap, k.0)
                    == name@ && final(self)@.heap[f] is Native && final(self)@.heap[f]->Native_0.function == function
                    && final(self)@.heap[f]->Native_0.name@ == name@,
            // When the name is new and no collection is due, exactly the name
            // string and the native object are charged.
            !old(self)@.gc_stress && !(exists|k: TableKey| #[trigger] old(self)@.strings.contains_key(k) && chars_of(
                old(self)@.heap,
                k.0,
            ) == name@) && old(self)@.bytes_allocated + STRING_OBJ_BYTES + utf8_len(name@) + NATIVE_OBJ_BYTES
                <= old(self)@.next_gc ==> final(self)@.bytes_allocated == old(self)@.bytes_allocated + STRING_OBJ_BYTES
                + utf8_len(name@) + NATIVE_OBJ_BYTES && final(self)@.next_gc == old(self)@.next_gc,
    {
        let name_obj = copy_string(self, name);
        let hash = hash_string(name);
        self.push(Value::Obj(name_obj));
        let ghost s1 = self@;
        let native = new_native(self, function, name.to_owned());
        proof {
            assert(is_root(s1, name_obj)) by {
                assert(s1.stack[s1.stack.len() - 1] == Value::Obj(name_obj));
            }
            lemma_root_reachable(s1, name_obj);
        }
        self.pop();
        let ghost s2 = self@;
        proof {
            assert(s2.strings.contains_key((name_obj, hash))) by {
                assert(s1.strings.contains_key((name_obj, hash)));
            }
        }
        self.globals.set(name_obj, hash, Value::Obj(native));
        proof {
            lemma_set_global_ok(s2, self@, (name_obj, hash), Value::Obj(native));
        }
    }

    /// The heap, for inspecting objects.
    pub fn heap(&self) -> (h: &Heap)
        ensures
            h@ == self@.heap,
    {
        &self.heap
    }

    /// The globals table.
    pub fn globals(&self) -> (t: &Table)
        requires
            self.wf(),
        ensures
            t.wf(),
            t@ == self@.globals,
            t.spec_capacity() == self.globals_cap(),
    {
        &self.globals
    }

    /// The intern table.
    pub fn strings(&self) -> (t: &Table)
        requires
            self.wf(),
        ensures
            t.wf(),
            t.keys_are_strings(self@.heap),
            t@ == self@.strings,
            t.spec_capacity() == self.strings_cap(),
    {
        &self.strings
    }

    /// The value stack, bottom first.
    pub fn stack_values(&self) -> (s: &[Value])
        ensures
            s@ == self@.stack,
    {
        self.stack.as_slice()
    }

    /// The call frames, outermost first.
    pub fn call_frames(&self) -> (f: &[CallFrame])
        ensures
            f@ == self@.frames,
    {
        self.frames.as_slice()
    }

    /// The lines the program has printed so far.
    pub fn output(&self) -> (o: &[String])
        ensures
            o@ == self@.output,
    {
        self.output.as_slice()
    }

    /// The runtime errors reported so far.
    pub fn errors(&self) -> (e: &[RuntimeError])
        ensures
            e@ == self@.errors,
    {
        self.errors.as_slice()
    }

    pub fn bytes_allocated(&self) -> (n: usize)
        ensures
            n == self@.bytes_allocated,
    {
        self.bytes_allocated
    }

    /// Switch stress mode on or off: when on, every allocation runs a full
    /// collection first.
    pub fn set_gc_stress(&mut self, on: bool)
        requires
            old(self).wf(),
        ensures
            final(self).wf(),
            final(self)@ == (VmState { gc_stress: on, ..old(self)@ }),
            final(self).globals_cap() == old(self).globals_cap(),
            final(self).strings_cap() == old(self).strings_cap(),
            final(self).handle_bound() == old(self).handle_bound(),
    {
        self.gc_stress = on;
    }

    /// Append a printed line (the host's rendering of a number).
    pub fn record_output(&mut self, line: String)
        requires
            old(self).wf(),
        ensures
            final(self).wf(),
            final(self)@ == (VmState { output: old(self)@.output.push(line), ..old(self)@ }),
            final(self).globals_cap() == old(self).globals_cap(),
            final(self).strings_cap() == old(self).strings_cap(),
    {
        self.output.push(line);
    }


    // ------------------------------------------------------------------
    // Interpreter helpers
    // ------------------------------------------------------------------

    /// The code byte `k` places after the current instruction pointer.
    fn code_byte(&self, k: usize) -> (b: Option<u8>)
        requires
            self.wf(),
            self@.frames.len() > 0,
            k <= 2,
        ensures
            b == (if has_byte(self@, k as int) {
                Some(byte_at(self@, k as int))
            } else {
                None
            }),
            code(self@).len() <= usize::MAX,
    {
        let frame = self.frames[self.frames.len() - 1];
        proof {
            assert(self@.frames[self@.frames.len() - 1].function == frame.function);
        }
        match self.heap.get(frame.function) {
            Some(Obj::Function(f)) => {
                if frame.ip < f.chunk.code.len() && k < f.chunk.code.len() - frame.ip {
                    Some(f.chunk.code[frame.ip + k])
                } else {
                    None
                }
            },
            _ => None,
        }
    }

    /// The machine is ready to run instruction `op`.
    closed spec fn at_op(&self, op: OpCode) -> bool {
        &&& self.wf()
        &&& self@.frames.len() > 0
        &&& has_byte(self@, 0)
        &&& decode_op(byte_at(self@, 0)) == Some(op)
    }

    /// The current instruction pointer.
    fn current_ip(&self) -> (cur: usize)
        requires
            self@.frames.len() > 0,
        ensures
            cur == ip(self@),
    {
        self.frames[self.frames.len() - 1].ip
    }

    /// Constant `idx` of the current function.
    fn constant_at(&self, idx: usize) -> (v: Option<Value>)
        requires
            self.wf(),
            self@.frames.len() > 0,
        ensures
            v == (if idx < consts(self@).len() {
                Some(consts(self@)[idx as int])
            } else {
                None
            }),
            v matches Some(x) ==> value_live(self@.heap, x),
    {
        let frame = self.frames[self.frames.len() - 1];
        proof {
            assert(self@.frames[self@.frames.len() - 1].function == frame.function);
        }
        match self.heap.get(frame.function) {
            Some(Obj::Function(f)) => {
                if idx < f.chunk.constants.values.len() {
                    proof {
                        lemma_const_live(self@, frame.function, idx as int);
                    }
                    Some(f.chunk.constants.values[idx])
                } else {
                    None
                }
            },
            _ => None,
        }
    }

    /// Set the current instruction pointer.
    fn set_current_ip(&mut self, new_ip: usize)
        requires
            old(self).wf(),
            old(self)@.frames.len() > 0,
        ensures
            final(self).wf(),
            final(self)@ == (VmState { frames: set_ip(old(self)@, new_ip as int), ..old(self)@ }),
            final(self).globals_cap() == old(self).globals_cap(),
            final(self).strings_cap() == old(self).strings_cap(),
    {
        let ghost s0 = self@;
        let fi = self.frames.len() - 1;
        let mut f = self.frames[fi];
        f.ip = new_ip;
        self.frames.set(fi, f);
        proof {
            assert(self@.frames =~= set_ip(s0, new_ip as int));
            lemma_update_ok(s0, self@);
        }
    }

    /// Report a runtime error with a trace of the current frames, then clear
    /// the stack and the frames.
    fn runtime_error(&mut self, kind: ErrorKind)
        requires
            old(self).wf(),
        ensures
            final(self).wf(),
            errored(old(self)@, old(self)@.frames, final(self)@, |e: ErrorKind| e == kind),
            final(self).globals_cap() == old(self).globals_cap(),
            final(self).strings_cap() == old(self).strings_cap(),
    {
        let ghost s0 = self@;
        let mut trace: Vec<TraceLine> = Vec::new();
        let n = self.frames.len();
        let mut j: usize = 0;
        while j < n
            invariant
                self@ == s0,
                self.wf(),
                n == s0.frames.len(),
                j <= n,
                trace@.len() == j,
                forall|x: int| 0 <= x < j ==> trace_line_ok(#[trigger] trace@[x], s0.frames[n - 1 - x], s0.heap),
            decreases n - j,
        {
            let frame = self.frames[n - 1 - j];
            proof {
                assert(s0.heap.contains_key(s0.frames[n - 1 - j].function));
            }
            let line = match self.heap.get(frame.function) {
                Some(Obj::Function(f)) => {
                    let instr = if frame.ip == 0 { 0 } else { frame.ip - 1 };
                    let line = if instr < f.chunk.lines.len() {
                        f.chunk.lines[instr]
                    } else {
                        0
                    };
                    let name = match f.name {
                        Some(nm) => match self.heap.get(nm) {
                            Some(Obj::String(st)) => Some(st.chars.clone()),
                            _ => None,
                        },
                        None => None,
                    };
                    TraceLine { line, function_name: name }
                },
                _ => TraceLine { line: 0, function_name: None },
            };
            trace.push(line);
            j = j + 1;
        }
        self.errors.push(RuntimeError { kind, trace });
        self.stack.clear();
        self.frames.clear();
        proof {
            assert(self@.errors.subrange(0, s0.errors.len() as int) =~= s0.errors);
            lemma_update_ok(s0, self@);
        }
    }

    /// Whether a value is falsey.
    fn falsey(v: &Value) -> (b: bool)
        ensures
            b == is_falsey(*v),
    {
        match v {
            Value::Nil => true,
            Value::Bool(b) => !*b,
            _ => false,
        }
    }

    /// How `print` shows a value, for the values it renders itself;
    /// `None` for a number that is not a whole number below the print bound
    /// (the host renders those) and for a dangling handle.
    pub fn display_value(&self, v: Value) -> (s: Option<String>)
        requires
            self.wf(),
        ensures
            s is None <==> (v matches Value::Number(b) && whole_number_text(b) is None) || !value_live(
                self@.heap,
                v,
            ),
            s matches Some(t) ==> t@ == print_text(self@.heap, v),
    {
        match v {
            Value::Number(b) => format_whole_number(b),
            Value::Obj(r) => {
                if self.heap.get(r).is_none() {
                    None
                } else {
                    Some(self.render_value(v))
                }
            },
            _ => Some(self.render_value(v)),
        }
    }

    /// Render a value that is not a number, as `print` shows it.
    fn render_value(&self, v: Value) -> (s: String)
        requires
            self.wf(),
            !(v is Number),
            value_live(self@.heap, v),
        ensures
            s@ == render(self@.heap, v),
    {
        match v {
            Value::Nil => "nil".to_owned(),
            Value::Bool(b) => if b {
                "true".to_owned()
            } else {
                "false".to_owned()
            },
            Value::Number(_) => String::new(),
            Value::Obj(r) => match self.heap.get(r) {
                Some(Obj::String(st)) => st.chars.clone(),
                Some(Obj::Function(f)) => match f.name {
                    Some(nm) => {
                        let mut out = "<fn ".to_owned();
                        match self.heap.get(nm) {
                            Some(Obj::String(name)) => out.append(name.chars.as_str()),
                            _ => {},
                        }
                        out.append("/");
                        let digits = decimal_string(f.arity as u64);
                        out.append(digits.as_str());
                        out.append(">");
                        out
                    },
                    None => "<script>".to_owned(),
                },
                Some(Obj::Native(native)) => {
                    let mut out = "<native ".to_owned();
                    out.append(native.name.as_str());
                    out.append(">");
                    out
                },
                None => String::new(),
            },
        }
    }


    // ------------------------------------------------------------------
    // Instructions
    // ------------------------------------------------------------------

    fn op_const(&mut self) -> (act: Action)
        requires
            old(self).at_op(OpCode::Const),
        ensures
            final(self).wf(),
            step_spec(old(self)@, final(self)@, act, old(self).globals_cap(), old(self).strings_cap()),
    {
        let b1 = match self.code_byte(1) {
            Some(b) => b,
            None => return Action::Fault(Fault::CodeOutOfBounds),
        };
        let v = match self.constant_at(b1 as usize) {
            Some(v) => v,
            None => return Action::Fault(Fault::ConstantOutOfBounds),
        };
        let ip = self.current_ip();
        self.push(v);
        self.set_current_ip(ip + 2);
        Action::Continue
    }

    /// `Nil`, `True`, `False`: push a literal.
    fn op_literal(&mut self, op: OpCode) -> (act: Action)
        requires
            old(self).at_op(op),
            op == OpCode::Nil || op == OpCode::True || op == OpCode::False,
        ensures
            final(self).wf(),
            step_spec(old(self)@, final(self)@, act, old(self).globals_cap(), old(self).strings_cap()),
    {
        let v = match op {
            OpCode::True => Value::Bool(true),
            OpCode::False => Value::Bool(false),
            _ => Value::Nil,
        };
        let ip = self.current_ip();
        let _ = self.code_byte(0);
        self.push(v);
        self.set_current_ip(ip + 1);
        Action::Continue
    }

    fn op_pop(&mut self) -> (act: Action)
        requires
            old(self).at_op(OpCode::Pop),
        ensures
            final(self).wf(),
            step_spec(old(self)@, final(self)@, act, old(self).globals_cap(), old(self).strings_cap()),
    {
        if self.stack.len() == 0 {
            return Action::Fault(Fault::StackUnderflow);
        }
        let ip = self.current_ip();
        let _ = self.code_byte(0);
        self.pop();
        self.set_current_ip(ip + 1);
        Action::Continue
    }

    fn op_dup(&mut self) -> (act: Action)
        requires
            old(self).at_op(OpCode::Dup),
        ensures
            final(self).wf(),
            step_spec(old(self)@, final(self)@, act, old(self).globals_cap(), old(self).strings_cap()),
    {
        if self.stack.len() == 0 {
            return Action::Fault(Fault::StackUnderflow);
        }
        let ip = self.current_ip();
        let _ = self.code_byte(0);
        let v = *self.peek(0);
        proof {
            assert(value_live(self@.heap, self@.stack[self@.stack.len() - 1]));
        }
        self.push(v);
        self.set_current_ip(ip + 1);
        Action::Continue
    }

    fn op_get_local(&mut self) -> (act: Action)
        requires
            old(self).at_op(OpCode::GetLocal),
        ensures
            final(self).wf(),
            step_spec(old(self)@, final(self)@, act, old(self).globals_cap(), old(self).strings_cap()),
    {
        let slot = match self.code_byte(1) {
            Some(b) => b as usize,
            None => return Action::Fault(Fault::CodeOutOfBounds),
        };
        let base = self.frames[self.frames.len() - 1].slots;
        let n = self.stack.len();
        if base >= n || slot >= n - base {
            return Action::Fault(Fault::SlotOutOfBounds);
        }
        let ip = self.current_ip();
        let v = self.stack[base + slot];
        proof {
            assert(value_live(self@.heap, self@.stack[base + slot]));
        }
        self.push(v);
        self.set_current_ip(ip + 2);
        Action::Continue
    }

    fn op_set_local(&mut self) -> (act: Action)
        requires
            old(self).at_op(OpCode::SetLocal),
        ensures
            final(self).wf(),
            step_spec(old(self)@, final(self)@, act, old(self).globals_cap(), old(self).strings_cap()),
    {
        let ghost pre = self@;
        let slot = match self.code_byte(1) {
            Some(b) => b as usize,
            None => return Action::Fault(Fault::CodeOutOfBounds),
        };
        let n = self.stack.len();
        if n == 0 {
            return Action::Fault(Fault::StackUnderflow);
        }
        let base = self.frames[self.frames.len() - 1].slots;
        if base >= n || slot >= n - base {
            return Action::Fault(Fault::SlotOutOfBounds);
        }
        let ip = self.current_ip();
        let v = self.stack[n - 1];
        self.stack.set(base + slot, v);
        proof {
            assert(value_live(pre.heap, pre.stack[n - 1]));
            assert forall|i: int| 0 <= i < self@.stack.len() implies value_live(pre.heap, #[trigger] self@.stack[i]) by {
                assert(value_live(pre.heap, pre.stack[i]));
            }
            lemma_update_ok(pre, self@);
        }
        self.set_current_ip(ip + 2);
        Action::Continue
    }

    fn op_not(&mut self) -> (act: Action)
        requires
            old(self).at_op(OpCode::Not),
        ensures
            final(self).wf(),
            step_spec(old(self)@, final(self)@, act, old(self).globals_cap(), old(self).strings_cap()),
    {
        if self.stack.len() == 0 {
            return Action::Fault(Fault::StackUnderflow);
        }
        let ip = self.current_ip();
        let _ = self.code_byte(0);
        let v = self.pop();
        self.push(Value::Bool(Self::falsey(&v)));
        self.set_current_ip(ip + 1);
        Action::Continue
    }

    fn op_halt(&mut self) -> (act: Action)
        requires
            old(self).at_op(OpCode::Halt),
        ensures
            final(self).wf(),
            step_spec(old(self)@, final(self)@, act, old(self).globals_cap(), old(self).strings_cap()),
    {
        let ip = self.current_ip();
        let _ = self.code_byte(0);
        self.set_current_ip(ip + 1);
        Action::Finished(InterpretResult::Success)
    }

    /// The 16-bit operand of a jump instruction.
    fn jump_offset(&self) -> (off: Option<usize>)
        requires
            self.wf(),
            self@.frames.len() > 0,
        ensures
            off == (if has_byte(self@, 2) {
                Some(jump_operand(self@) as usize)
            } else {
                None
            }),
            code(self@).len() <= usize::MAX,
    {
        let b2 = self.code_byte(2);
        let b1 = self.code_byte(1);
        match (b1, b2) {
            (Some(hi), Some(lo)) => Some(hi as usize * 256 + lo as usize),
            _ => None,
        }
    }

    fn op_jump(&mut self, op: OpCode) -> (act: Action)
        requires
            old(self).at_op(op),
            op == OpCode::Jump || op == OpCode::JumpIfFalse || op == OpCode::Loop,
        ensures
            final(self).wf(),
            step_spec(old(self)@, final(self)@, act, old(self).globals_cap(), old(self).strings_cap()),
    {
        let offset = match self.jump_offset() {
            Some(o) => o,
            None => return Action::Fault(Fault::CodeOutOfBounds),
        };
        let ip = self.current_ip();
        match op {
            OpCode::Loop => {
                if ip + 3 < offset {
                    return Action::Fault(Fault::JumpOutOfRange);
                }
                self.set_current_ip(ip + 3 - offset);
            },
            OpCode::JumpIfFalse => {
                if self.stack.len() == 0 {
                    return Action::Fault(Fault::StackUnderflow);
                }
                if Self::falsey(self.peek(0)) {
                    if ip > usize::MAX - 3 - offset {
                        return Action::Fault(Fault::JumpOutOfRange);
                    }
                    self.set_current_ip(ip + 3 + offset);
                } else {
                    self.set_current_ip(ip + 3);
                }
            },
            _ => {
                if ip > usize::MAX - 3 - offset {
                    return Action::Fault(Fault::JumpOutOfRange);
                }
                self.set_current_ip(ip + 3 + offset);
            },
        }
        Action::Continue
    }


    /// `Sub`, `Mul`, `Div`, `Mod`: two numbers go to the host.
    fn op_numeric(&mut self, op: OpCode) -> (act: Action)
        requires
            old(self).at_op(op),
            op == OpCode::Sub || op == OpCode::Mul || op == OpCode::Div || op == OpCode::Mod,
        ensures
            final(self).wf(),
            step_spec(old(self)@, final(self)@, act, old(self).globals_cap(), old(self).strings_cap()),
    {
        if self.stack.len() < 2 {
            return Action::Fault(Fault::StackUnderflow);
        }
        let ip = self.current_ip();
        let _ = self.code_byte(0);
        if !self.peek(0).is_number() || !self.peek(1).is_number() {
            self.set_current_ip(ip + 1);
            self.runtime_error(ErrorKind::OperandsMustBeNumbers);
            return Action::Finished(InterpretResult::RuntimeError);
        }
        let b = self.pop().as_number();
        let a = self.pop().as_number();
        self.set_current_ip(ip + 1);
        let aop = match op {
            OpCode::Sub => ArithOp::Sub,
            OpCode::Mul => ArithOp::Mul,
            OpCode::Div => ArithOp::Div,
            _ => ArithOp::Mod,
        };
        proof {
            assert(self@.stack =~= old(self)@.stack.subrange(0, old(self)@.stack.len() - 2));
        }
        Action::Arithmetic(aop, a, b)
    }

    /// `Greater`, `Less`: compare two numbers as doubles.
    fn op_compare(&mut self, op: OpCode) -> (act: Action)
        requires
            old(self).at_op(op),
            op == OpCode::Greater || op == OpCode::Less,
        ensures
            final(self).wf(),
            step_spec(old(self)@, final(self)@, act, old(self).globals_cap(), old(self).strings_cap()),
    {
        if self.stack.len() < 2 {
            return Action::Fault(Fault::StackUnderflow);
        }
        let ip = self.current_ip();
        let _ = self.code_byte(0);
        if !self.peek(0).is_number() || !self.peek(1).is_number() {
            self.set_current_ip(ip + 1);
            self.runtime_error(ErrorKind::OperandsMustBeNumbers);
            return Action::Finished(InterpretResult::RuntimeError);
        }
        let b = self.pop().as_number();
        let a = self.pop().as_number();
        let r = match op {
            OpCode::Greater => number_less(b, a),
            _ => number_less(a, b),
        };
        self.push(Value::Bool(r));
        self.set_current_ip(ip + 1);
        proof {
            let n = old(self)@.stack.len();
            assert(self@.stack =~= old(self)@.stack.subrange(0, n - 2).push(Value::Bool(r)));
        }
        Action::Continue
    }

    fn op_negate(&mut self) -> (act: Action)
        requires
            old(self).at_op(OpCode::Negate),
        ensures
            final(self).wf(),
            step_spec(old(self)@, final(self)@, act, old(self).globals_cap(), old(self).strings_cap()),
    {
        if self.stack.len() == 0 {
            return Action::Fault(Fault::StackUnderflow);
        }
        let ip = self.current_ip();
        let _ = self.code_byte(0);
        if !self.peek(0).is_number() {
            self.set_current_ip(ip + 1);
            self.runtime_error(ErrorKind::OperandMustBeNumber);
            return Action::Finished(InterpretResult::RuntimeError);
        }
        let n = self.pop().as_number();
        let m = number_negate(n);
        self.push(Value::Number(m));
        self.set_current_ip(ip + 1);
        proof {
            assert(self@.stack =~= old(self)@.stack.drop_last().push(Value::Number(m)));
        }
        Action::Continue
    }

    fn op_equal(&mut self) -> (act: Action)
        requires
            old(self).at_op(OpCode::Equal),
        ensures
            final(self).wf(),
            step_spec(old(self)@, final(self)@, act, old(self).globals_cap(), old(self).strings_cap()),
    {
        if self.stack.len() < 2 {
            return Action::Fault(Fault::StackUnderflow);
        }
        let ip = self.current_ip();
        let _ = self.code_byte(0);
        let b = self.pop();
        let a = self.pop();
        self.push(Value::Bool(a == b));
        self.set_current_ip(ip + 1);
        proof {
            let n = old(self)@.stack.len();
            assert(self@.stack =~= old(self)@.stack.subrange(0, n - 2).push(Value::Bool(values_equal(a, b))));
        }
        Action::Continue
    }

    fn op_print(&mut self) -> (act: Action)
        requires
            old(self).at_op(OpCode::Print),
        ensures
            final(self).wf(),
            step_spec(old(self)@, final(self)@, act, old(self).globals_cap(), old(self).strings_cap()),
    {
        if self.stack.len() == 0 {
            return Action::Fault(Fault::StackUnderflow);
        }
        let ip = self.current_ip();
        let _ = self.code_byte(0);
        proof {
            assert(value_live(self@.heap, self@.stack[self@.stack.len() - 1]));
        }
        let v = self.pop();
        self.set_current_ip(ip + 1);
        match v {
            Value::Number(x) => match format_whole_number(x) {
                Some(line) => {
                    self.record_output(line);
                    Action::Continue
                },
                None => Action::PrintNumber(x),
            },
            _ => {
                let line = self.render_value(v);
                self.record_output(line);
                Action::Continue
            },
        }
    }

    fn op_add(&mut self) -> (act: Action)
        requires
            old(self).at_op(OpCode::Add),
        ensures
            final(self).wf(),
            step_spec(old(self)@, final(self)@, act, old(self).globals_cap(), old(self).strings_cap()),
    {
        let ghost pre = self@;
        if self.stack.len() < 2 {
            return Action::Fault(Fault::StackUnderflow);
        }
        let ip = self.current_ip();
        let _ = self.code_byte(0);
        let both_strings = self.peek(0).is_string(&self.heap) && self.peek(1).is_string(&self.heap);
        if both_strings {
            if self.strings.capacity() > usize::MAX / 2 {
                return Action::Fault(Fault::TableFull);
            }
            let combined = match (self.peek(1), self.peek(0)) {
                (Value::Obj(ra), Value::Obj(rb)) => match (self.heap.get(*ra), self.heap.get(*rb)) {
                    (Some(Obj::String(sa)), Some(Obj::String(sb))) => {
                        let mut c = sa.chars.clone();
                        c.append(sb.chars.as_str());
                        c
                    },
                    _ => String::new(),
                },
                _ => String::new(),
            };
            self.pop();
            self.pop();
            let ghost mid = self@;
            let r = copy_string(self, combined.as_str());
            self.push(Value::Obj(r));
            self.set_current_ip(ip + 1);
            proof {
                let post = self@;
                let n = pre.stack.len();
                assert(mid.stack =~= pre.stack.subrange(0, n - 2));
                assert(post.stack.subrange(0, n - 2) =~= pre.stack.subrange(0, n - 2));
                assert forall|x: ObjRef| x != r && #[trigger] post.heap.contains_key(x) implies pre.heap.contains_key(x)
                    && post.heap[x] == pre.heap[x] by {
                }
            }
            return Action::Continue;
        }
        if self.peek(0).is_number() && self.peek(1).is_number() {
            let b = self.pop().as_number();
            let a = self.pop().as_number();
            self.set_current_ip(ip + 1);
            proof {
                assert(self@.stack =~= old(self)@.stack.subrange(0, old(self)@.stack.len() - 2));
            }
            return Action::Arithmetic(ArithOp::Add, a, b);
        }
        self.set_current_ip(ip + 1);
        self.runtime_error(ErrorKind::AddOperands);
        Action::Finished(InterpretResult::RuntimeError)
    }


    /// The name constant of a global instruction: its handle and hash.
    fn global_name(&self) -> (res: Result<(ObjRef, u32), Fault>)
        requires
            self.wf(),
            self@.frames.len() > 0,
        ensures
            !has_byte(self@, 1) ==> res == Err::<(ObjRef, u32), Fault>(Fault::CodeOutOfBounds),
            has_byte(self@, 1) && byte_at(self@, 1) >= consts(self@).len() ==> res == Err::<(ObjRef, u32), Fault>(Fault::ConstantOutOfBounds),
            has_byte(self@, 1) && byte_at(self@, 1) < consts(self@).len() && !is_str(self@, name_const(self@))
                ==> res == Err::<(ObjRef, u32), Fault>(Fault::ConstantNotString),
            has_byte(self@, 1) && byte_at(self@, 1) < consts(self@).len() && is_str(self@, name_const(self@))
                ==> res == Ok::<(ObjRef, u32), Fault>(key_of(self@, name_const(self@)->Obj_0)),
            code(self@).len() <= usize::MAX,
    {
        let b1 = match self.code_byte(1) {
            Some(b) => b,
            None => return Err(Fault::CodeOutOfBounds),
        };
        let v = match self.constant_at(b1 as usize) {
            Some(v) => v,
            None => return Err(Fault::ConstantOutOfBounds),
        };
        match v {
            Value::Obj(r) => match self.heap.get(r) {
                Some(Obj::String(st)) => Ok((r, st.hash)),
                _ => Err(Fault::ConstantNotString),
            },
            _ => Err(Fault::ConstantNotString),
        }
    }

    /// The characters of the live string `r`.
    fn string_chars(&self, r: ObjRef) -> (s: String)
        requires
            self@.heap.contains_key(r),
            self@.heap[r] is String,
        ensures
            s@ == chars_of(self@.heap, r),
    {
        match self.heap.get(r) {
            Some(Obj::String(st)) => st.chars.clone(),
            _ => String::new(),
        }
    }

    fn op_get_global(&mut self) -> (act: Action)
        requires
            old(self).at_op(OpCode::GetGlobal),
        ensures
            final(self).wf(),
            step_spec(old(self)@, final(self)@, act, old(self).globals_cap(), old(self).strings_cap()),
    {
        let (name, hash) = match self.global_name() {
            Ok(k) => k,
            Err(f) => return Action::Fault(f),
        };
        let ip = self.current_ip();
        match self.globals.get(name, hash) {
            Some(v) => {
                proof {
                    assert(value_live(self@.heap, self@.globals[(name, hash)]));
                }
                self.push(v);
                self.set_current_ip(ip + 2);
                Action::Continue
            },
            None => {
                let n = self.string_chars(name);
                self.set_current_ip(ip + 2);
                self.runtime_error(ErrorKind::UndefinedVariable { name: n });
                Action::Finished(InterpretResult::RuntimeError)
            },
        }
    }

    fn op_define_global(&mut self) -> (act: Action)
        requires
            old(self).at_op(OpCode::DefineGlobal),
        ensures
            final(self).wf(),
            step_spec(old(self)@, final(self)@, act, old(self).globals_cap(), old(self).strings_cap()),
    {
        let ghost pre = self@;
        let (name, hash) = match self.global_name() {
            Ok(k) => k,
            Err(f) => return Action::Fault(f),
        };
        if self.stack.len() == 0 {
            return Action::Fault(Fault::StackUnderflow);
        }
        if self.globals.capacity() > usize::MAX / 2 {
            return Action::Fault(Fault::TableFull);
        }
        let ip = self.current_ip();
        let value = *self.peek(0);
        proof {
            assert(value_live(pre.heap, pre.stack[pre.stack.len() - 1]));
        }
        self.globals.set(name, hash, value);
        proof {
            lemma_set_global_ok(pre, self@, (name, hash), value);
        }
        self.pop();
        self.set_current_ip(ip + 2);
        Action::Continue
    }

    fn op_set_global(&mut self) -> (act: Action)
        requires
            old(self).at_op(OpCode::SetGlobal),
        ensures
            final(self).wf(),
            step_spec(old(self)@, final(self)@, act, old(self).globals_cap(), old(self).strings_cap()),
    {
        let ghost pre = self@;
        let (name, hash) = match self.global_name() {
            Ok(k) => k,
            Err(f) => return Action::Fault(f),
        };
        if self.stack.len() == 0 {
            return Action::Fault(Fault::StackUnderflow);
        }
        if self.globals.capacity() > usize::MAX / 2 {
            return Action::Fault(Fault::TableFull);
        }
        let ip = self.current_ip();
        let value = *self.peek(0);
        proof {
            assert(value_live(pre.heap, pre.stack[pre.stack.len() - 1]));
        }
        let is_new = self.globals.set(name, hash, value);
        if is_new {
            // The key was new, so the variable is undefined.
            self.globals.delete(name, hash);
            proof {
                assert(self@.globals =~= pre.globals);
            }
            let n = self.string_chars(name);
            self.set_current_ip(ip + 2);
            self.runtime_error(ErrorKind::UndefinedVariable { name: n });
            return Action::Finished(InterpretResult::RuntimeError);
        }
        proof {
            lemma_set_global_ok(pre, self@, (name, hash), value);
        }
        self.set_current_ip(ip + 2);
        Action::Continue
    }

    fn op_call(&mut self) -> (act: Action)
        requires
            old(self).at_op(OpCode::Call),
        ensures
            final(self).wf(),
            step_spec(old(self)@, final(self)@, act, old(self).globals_cap(), old(self).strings_cap()),
    {
        let ghost pre = self@;
        let argc = match self.code_byte(1) {
            Some(b) => b as usize,
            None => return Action::Fault(Fault::CodeOutOfBounds),
        };
        let n = self.stack.len();
        if n < argc + 1 {
            return Action::Fault(Fault::StackUnderflow);
        }
        let ip = self.current_ip();
        let callee = self.stack[n - 1 - argc];
        proof {
            assert(value_live(pre.heap, pre.stack[n - 1 - argc]));
        }
        match callee {
            Value::Obj(r) => {
                let (is_fn, arity, native) = match self.heap.get(r) {
                    Some(Obj::Function(f)) => (true, f.arity as usize, None),
                    Some(Obj::Native(nf)) => (false, 0, Some(nf.function)),
                    _ => (false, 0, None),
                };
                if is_fn {
                    if arity != argc {
                        self.set_current_ip(ip + 2);
                        self.runtime_error(ErrorKind::ArityMismatch { expected: arity, got: argc });
                        return Action::Finished(InterpretResult::RuntimeError);
                    }
                    if self.frames.len() == FRAMES_MAX {
                        self.set_current_ip(ip + 2);
                        self.runtime_error(ErrorKind::StackOverflow);
                        return Action::Finished(InterpretResult::RuntimeError);
                    }
                    self.set_current_ip(ip + 2);
                    let ghost mid = self@;
                    self.frames.push(CallFrame { function: r, ip: 0, slots: n - argc - 1 });
                    proof {
                        lemma_update_ok(mid, self@);
                    }
                    return Action::Continue;
                }
                match native {
                    Some(function) => {
                        let ghost st = self.stack@;
                        let mut args: Vec<Value> = Vec::new();
                        let mut i = n - argc;
                        while i < n
                            invariant
                                argc + 1 <= n,
                                n - argc <= i <= n,
                                st == self.stack@,
                                n == st.len(),
                                args@ == st.subrange(n - argc, i as int),
                            decreases n - i,
                        {
                            let x = self.stack[i];
                            args.push(x);
                            proof {
                                assert(args@ =~= st.subrange(n - argc, i + 1));
                            }
                            i = i + 1;
                        }
                        let ghost s1 = self@;
                        self.stack.truncate(n - argc - 1);
                        proof {
                            lemma_update_ok(s1, self@);
                        }
                        self.set_current_ip(ip + 2);
                        return Action::CallNative(function, args);
                    },
                    None => {},
                }
            },
            _ => {},
        }
        let label = callee.kind_name(&self.heap);
        self.set_current_ip(ip + 2);
        self.runtime_error(ErrorKind::NotCallable { type_label: label });
        Action::Finished(InterpretResult::RuntimeError)
    }

    fn op_return(&mut self) -> (act: Action)
        requires
            old(self).at_op(OpCode::Return),
        ensures
            final(self).wf(),
            step_spec(old(self)@, final(self)@, act, old(self).globals_cap(), old(self).strings_cap()),
    {
        let ghost pre = self@;
        let n = self.stack.len();
        if n == 0 {
            return Action::Fault(Fault::StackUnderflow);
        }
        let _ = self.code_byte(0);
        let result = self.pop();
        let frame = self.frames.pop().unwrap();
        if self.frames.len() == 0 {
            // The entry frame is done: drop the entry function's value and
            // its locals.
            self.stack.truncate(frame.slots);
            proof {
                let keep = if frame.slots < n - 1 { frame.slots as int } else { n - 1 };
                assert(self@.stack =~= pre.stack.subrange(0, keep));
                assert(self@.frames =~= Seq::<CallFrame>::empty());
                lemma_update_ok(pre, self@);
            }
            return Action::Finished(InterpretResult::Success);
        }
        self.stack.truncate(frame.slots);
        self.stack.push(result);
        proof {
            assert(value_live(pre.heap, pre.stack[n - 1]));
            assert(self@.frames =~= pre.frames.drop_last());
            let keep = if frame.slots < n - 1 { frame.slots as int } else { n - 1 };
            assert(self@.stack =~= pre.stack.subrange(0, keep).push(pre.stack[n - 1]));
            assert forall|i: int| 0 <= i < self@.stack.len() implies value_live(pre.heap, #[trigger] self@.stack[i]) by {
                if i < keep {
                    assert(value_live(pre.heap, pre.stack[i]));
                }
            }
            lemma_update_ok(pre, self@);
        }
        Action::Continue
    }

    /// Execute one instruction of the innermost frame.
    pub fn step(&mut self) -> (act: Action)
        requires
            old(self).wf(),
        ensures
            final(self).wf(),
            step_spec(old(self)@, final(self)@, act, old(self).globals_cap(), old(self).strings_cap()),
    {
        if self.frames.len() == 0 {
            return Action::Fault(Fault::NoFrame);
        }
        let b0 = match self.code_byte(0) {
            Some(b) => b,
            None => return Action::Fault(Fault::CodeOutOfBounds),
        };
        let op = match OpCode::from_byte(b0) {
            Some(op) => op,
            None => return Action::Fault(Fault::UnknownOpcode(b0)),
        };
        match op {
            OpCode::Const => self.op_const(),
            OpCode::Nil | OpCode::True | OpCode::False => self.op_literal(op),
            OpCode::Pop => self.op_pop(),
            OpCode::Dup => self.op_dup(),
            OpCode::GetLocal => self.op_get_local(),
            OpCode::SetLocal => self.op_set_local(),
            OpCode::GetGlobal => self.op_get_global(),
            OpCode::DefineGlobal => self.op_define_global(),
            OpCode::SetGlobal => self.op_set_global(),
            OpCode::Add => self.op_add(),
            OpCode::Sub | OpCode::Mul | OpCode::Div | OpCode::Mod => self.op_numeric(op),
            OpCode::Greater | OpCode::Less => self.op_compare(op),
            OpCode::Negate => self.op_negate(),
            OpCode::Not => self.op_not(),
            OpCode::Equal => self.op_equal(),
            OpCode::Print => self.op_print(),
            OpCode::Jump | OpCode::JumpIfFalse | OpCode::Loop => self.op_jump(op),
            OpCode::Call => self.op_call(),
            OpCode::Return => self.op_return(),
            OpCode::Halt => self.op_halt(),
        }
    }


    /// Start running the function `entry`: push it and call it with no
    /// arguments.  The host then calls `step` until it stops continuing.
    pub fn interpret(&mut self, entry: ObjRef) -> (act: Action)
        requires
            old(self).wf(),
        ensures
            final(self).wf(),
            interpret_spec(old(self)@, final(self)@, act, entry),
    {
        let arity = match self.heap.get(entry) {
            Some(Obj::Function(f)) => f.arity,
            _ => return Action::Fault(Fault::NotAFunction),
        };
        let n = self.stack.len();
        self.push(Value::Obj(entry));
        if arity != 0 {
            self.runtime_error(ErrorKind::ArityMismatch { expected: arity as usize, got: 0 });
            return Action::Finished(InterpretResult::RuntimeError);
        }
        if self.frames.len() == FRAMES_MAX {
            self.runtime_error(ErrorKind::StackOverflow);
            return Action::Finished(InterpretResult::RuntimeError);
        }
        let ghost mid = self@;
        self.frames.push(CallFrame { function: entry, ip: 0, slots: n });
        proof {
            lemma_update_ok(mid, self@);
        }
        Action::Continue
    }

    /// Give the function object `f` its arity, name and body.  Nothing
    /// changes, and the result is false, unless `f` is a live function, the
    /// name is absent or a live string, and every object in the constant
    /// pool is live.
    pub fn set_function(&mut self, f: ObjRef, arity: u8, name: Option<ObjRef>, chunk: Chunk) -> (ok: bool)
        requires
            old(self).wf(),
        ensures
            final(self).wf(),
            ok == (old(self)@.heap.contains_key(f) && old(self)@.heap[f] is Function && (name matches Some(nm)
                ==> old(self)@.heap.contains_key(nm) && old(self)@.heap[nm] is String) && forall|i: int|
                0 <= i < chunk.constants.values@.len() ==> value_live(old(self)@.heap, #[trigger] chunk.constants.values@[i])),
            ok ==> final(self)@ == (VmState {
                heap: old(self)@.heap.insert(f, Obj::Function(ObjFunction { is_marked: false, arity, chunk, name })),
                ..old(self)@
            }),
            !ok ==> final(self)@ == old(self)@,
            final(self).globals_cap() == old(self).globals_cap(),
            final(self).strings_cap() == old(self).strings_cap(),
    {
        let ghost s0 = self@;
        let is_fn = match self.heap.get(f) {
            Some(Obj::Function(_)) => true,
            _ => false,
        };
        if !is_fn {
            return false;
        }
        match name {
            Some(nm) => match self.heap.get(nm) {
                Some(Obj::String(_)) => {},
                _ => return false,
            },
            None => {},
        }
        let mut i: usize = 0;
        while i < chunk.constants.values.len()
            invariant
                self@ == s0,
                self.wf(),
                self.globals_cap() == old(self).globals_cap(),
                self.strings_cap() == old(self).strings_cap(),
                i <= chunk.constants.values@.len(),
                forall|j: int| 0 <= j < i ==> value_live(s0.heap, #[trigger] chunk.constants.values@[j]),
            decreases chunk.constants.values@.len() - i,
        {
            match chunk.constants.values[i] {
                Value::Obj(o) => {
                    if self.heap.get(o).is_none() {
                        return false;
                    }
                },
                _ => {},
            }
            i = i + 1;
        }
        self.heap.replace(f, Obj::Function(ObjFunction { is_marked: false, arity, chunk, name }));
        proof {
            let s1 = self@;
            let h1 = s1.heap;
            assert forall|x: ObjRef, c: ObjRef| h1.contains_key(x) && #[trigger] points_to(h1[x], c) implies h1.contains_key(c) by {
                if x == f {
                    if name != Some(c) {
                        let j = choose|j: int| 0 <= j < chunk.constants.values@.len() && #[trigger] chunk.constants.values@[j] == Value::Obj(c);
                        assert(value_live(s0.heap, chunk.constants.values@[j]));
                    }
                } else {
                    assert(points_to(s0.heap[x], c));
                }
            }
            assert forall|k1: TableKey, k2: TableKey|
                #[trigger] s1.strings.contains_key(k1) && #[trigger] s1.strings.contains_key(k2) && chars_of(h1, k1.0)
                    == chars_of(h1, k2.0) implies k1 == k2 by {
                assert(s0.heap[k1.0] is String && s0.heap[k2.0] is String);
            }
            assert forall|x: ObjRef|
                #[trigger] h1.contains_key(x) && h1[x] is Function && h1[x]->Function_0.name is Some
                implies h1.contains_key(h1[x]->Function_0.name->Some_0) && h1[h1[x]->Function_0.name->Some_0] is String by {
                if x != f {
                    assert(s0.heap.contains_key(x));
                }
            }
            assert forall|x: ObjRef| #[trigger] h1.contains_key(x) && h1[x] is String implies s1.strings.contains_key(
                (x, h1[x]->String_0.hash),
            ) by {
                assert(s0.heap.contains_key(x));
            }
            assert forall|k: TableKey| #[trigger] s1.globals.contains_key(k) implies h1.contains_key(k.0) && h1[k.0] is String
                && h1[k.0]->String_0.hash == k.1 by {
                assert(s0.heap[k.0] is String);
            }
            assert forall|k: TableKey| #[trigger] s1.strings.contains_key(k) implies h1.contains_key(k.0) && h1[k.0] is String
                && h1[k.0]->String_0.hash == k.1 by {
                assert(s0.heap[k.0] is String);
            }
            assert forall|j: int| 0 <= j < s1.frames.len() implies h1.contains_key(#[trigger] s1.frames[j].function)
                && h1[s1.frames[j].function] is Function by {
                assert(s0.heap.contains_key(s0.frames[j].function));
            }
        }
        true
    }

}

/// Allocate a string with the given characters, interning it: when an
/// interned string with these characters exists, that string is returned
/// and nothing changes.
pub fn copy_string(vm: &mut Vm, chars: &str) -> (r: ObjRef)
    requires
        old(vm).wf(),
        old(vm).strings_cap() <= usize::MAX / 2,
    ensures
        final(vm).wf(),
        final(vm)@.heap.contains_key(r),
        final(vm)@.heap[r] is String,
        chars_of(final(vm)@.heap, r) == chars@,
        final(vm)@.strings.contains_key((r, fnv1a(vstd::utf8::encode_utf8(chars@)))),
        final(vm).globals_cap() == old(vm).globals_cap(),
        (exists|k: TableKey| #[trigger] old(vm)@.strings.contains_key(k) && chars_of(old(vm)@.heap, k.0) == chars@)
            ==> final(vm)@ == old(vm)@ && final(vm).strings_cap() == old(vm).strings_cap(),
        !(exists|k: TableKey| #[trigger] old(vm)@.strings.contains_key(k) && chars_of(old(vm)@.heap, k.0) == chars@)
            ==> !old(vm)@.heap.contains_key(r) && final(vm).handle_bound() == old(vm).handle_bound() + 1
                && allocated(old(vm)@, final(vm)@, r, final(vm)@.heap[r]) && allocation_policy(
                old(vm)@,
                final(vm)@,
                old(vm)@.gc_stress,
                r,
                final(vm)@.heap[r],
            ),
        final(vm).handle_bound() >= old(vm).handle_bound(),
        final(vm).strings_cap() <= 2 * old(vm).strings_cap() + 8,
        final(vm)@.gc_stress == old(vm)@.gc_stress,
        final(vm)@.trace_execution == old(vm)@.trace_execution,
{
    let ghost s0 = vm@;
    let hash = hash_string(chars);
    proof {
        assert(vm.strings.keys_are_strings(vm.heap@));
        vm.lemma_handles_below_bound();
    }
    match vm.strings.find_string(&vm.heap, chars, hash) {
        Some(existing) => {
            proof {
                assert(vm.heap@.contains_key(existing));
            }
            return existing;
        },
        None => {},
    }
    proof {
        assert forall|k: TableKey| #[trigger] s0.strings.contains_key(k) implies chars_of(s0.heap, k.0) != chars@ by {
            if chars_of(s0.heap, k.0) == chars@ {
                assert(string_ok(s0.heap[k.0]));
            }
        }
    }
    let obj = Obj::String(ObjString::new(chars.to_owned(), hash));
    let size = object_size(&obj);
    vm.prepare_allocation(size);
    let ghost mid = vm@;
    let r = vm.heap.allocate(obj);
    proof {
        assert forall|k: TableKey| #[trigger] mid.strings.contains_key(k) implies chars_of(mid.heap, k.0) != chars@ by {
            assert(s0.strings.contains_key(k));
        }
    }
    vm.strings.set(r, hash, Value::Nil);
    proof {
        assert(vm@ == (VmState {
            heap: mid.heap.insert(r, obj),
            strings: mid.strings.insert((r, obj->String_0.hash), Value::Nil),
            ..mid
        }));
        lemma_insert_string_ok(mid, vm@, r, obj);
    }
    r

}


/// Create a fresh function object: no parameters, an empty chunk, no name.
pub fn new_function(vm: &mut Vm) -> (r: ObjRef)
    requires
        old(vm).wf(),
    ensures
        final(vm).wf(),
        !old(vm)@.heap.contains_key(r),
        final(vm).handle_bound() == old(vm).handle_bound() + 1,
        allocated(old(vm)@, final(vm)@, r, final(vm)@.heap[r]),
        allocation_policy(old(vm)@, final(vm)@, old(vm)@.gc_stress, r, final(vm)@.heap[r]),
        final(vm)@.gc_stress == old(vm)@.gc_stress,
        final(vm)@.trace_execution == old(vm)@.trace_execution,
        final(vm)@.heap[r] is Function,
        !obj_marked(final(vm)@.heap[r]),
        final(vm)@.heap[r]->Function_0.arity == 0,
        final(vm)@.heap[r]->Function_0.name is None,
        final(vm)@.heap[r]->Function_0.chunk.code@ == Seq::<u8>::empty(),
        final(vm)@.heap[r]->Function_0.chunk.lines@ == Seq::<i32>::empty(),
        final(vm)@.heap[r]->Function_0.chunk.constants.values@ == Seq::<Value>::empty(),
        final(vm).globals_cap() == old(vm).globals_cap(),
        final(vm).strings_cap() == old(vm).strings_cap(),
{
    let f = ObjFunction::new();
    let obj = Obj::Function(f);
    proof {
        assert forall|c: ObjRef| !points_to(obj, c) by {
            if points_to(obj, c) {
                let i = choose|i: int| 0 <= i < f.chunk.constants.values@.len() && #[trigger] f.chunk.constants.values@[i] == Value::Obj(c);
            }
        }
    }
    vm.track_object(obj)
}

/// Create a native-function wrapper for the host function numbered `function`.
pub fn new_native(vm: &mut Vm, function: NativeFn, name: String) -> (r: ObjRef)
    requires
        old(vm).wf(),
    ensures
        final(vm).wf(),
        !old(vm)@.heap.contains_key(r),
        final(vm).handle_bound() == old(vm).handle_bound() + 1,
        allocated(old(vm)@, final(vm)@, r, final(vm)@.heap[r]),
        allocation_policy(old(vm)@, final(vm)@, old(vm)@.gc_stress, r, final(vm)@.heap[r]),
        final(vm)@.gc_stress == old(vm)@.gc_stress,
        final(vm)@.trace_execution == old(vm)@.trace_execution,
        final(vm)@.heap[r] is Native,
        !obj_marked(final(vm)@.heap[r]),
        final(vm)@.heap[r]->Native_0.function == function,
        final(vm)@.heap[r]->Native_0.name@ == name@,
        final(vm).globals_cap() == old(vm).globals_cap(),
        final(vm).strings_cap() == old(vm).strings_cap(),
{
    let obj = Obj::Native(ObjNative::new(function, name));
    vm.track_object(obj)
}

} // verus!
