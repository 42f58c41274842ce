//! The demo programs, built with the assembler API the way a compiler
//! front-end would: recursive Fibonacci, a while-loop sum, and a loop that
//! makes throwaway strings for the collector.
//!
//! While a program is being built, every object it allocates is kept on the
//! machine's value stack, so a collection triggered by a later allocation
//! cannot reclaim it; the stack is restored before the builder returns.

use vstd::prelude::*;

use crate::chunk::{Chunk, OpCode};
use crate::laws::law_interned_strings;
use crate::value::{Obj, ObjRef, Value};
use crate::vm::{Vm, VmState, allocated, chars_of, copy_string, is_root, lemma_root_reachable, new_function, state_ok};

verus! {

/// The bit pattern of the double `0.0`.
pub const NUMBER_ZERO: u64 = 0;

/// The bit pattern of the double `1.0`.
pub const NUMBER_ONE: u64 = 0x3FF0_0000_0000_0000;

/// The bit pattern of the double `2.0`.
pub const NUMBER_TWO: u64 = 0x4000_0000_0000_0000;

/// Every object that a value of `roots` refers to is live in `post` and
/// unchanged since `pre`.
pub open spec fn kept(pre: VmState, post: VmState, roots: Seq<Value>) -> bool {
    forall|i: int|
        0 <= i < roots.len() && #[trigger] roots[i] is Obj ==> post.heap.contains_key(roots[i]->Obj_0)
            && post.heap[roots[i]->Obj_0] == pre.heap[roots[i]->Obj_0]
}

/// Nothing but the heap, the intern table and the allocator's counters
/// differs between `pre` and `post`.
pub open spec fn same_program_state(pre: VmState, post: VmState) -> bool {
    &&& post.frames == pre.frames
    &&& post.stack == pre.stack
    &&& post.globals == pre.globals
    &&& post.output == pre.output
    &&& post.errors == pre.errors
    &&& post.gc_stress == pre.gc_stress
    &&& post.trace_execution == pre.trace_execution
}

/// After an allocation, the objects the old stack refers to are kept.
proof fn lemma_allocation_keeps_stack(pre: VmState, post: VmState, r: ObjRef, o: Obj)
    requires
        state_ok(pre),
        allocated(pre, post, r, o),
    ensures
        kept(pre, post, pre.stack),
{
    assert forall|i: int| 0 <= i < pre.stack.len() && #[trigger] pre.stack[i] is Obj implies post.heap.contains_key(
        pre.stack[i]->Obj_0,
    ) && post.heap[pre.stack[i]->Obj_0] == pre.heap[pre.stack[i]->Obj_0] by {
        let x = pre.stack[i]->Obj_0;
        assert(is_root(pre, x));
        lemma_root_reachable(pre, x);
    }
}

/// Allocate an empty function and keep it on the stack.
fn rooted_function(vm: &mut Vm) -> (r: ObjRef)
    requires
        old(vm).wf(),
    ensures
        final(vm).wf(),
        same_program_state(old(vm)@, VmState { stack: old(vm)@.stack, ..final(vm)@ }),
        final(vm)@.stack == old(vm)@.stack.push(Value::Obj(r)),
        kept(old(vm)@, final(vm)@, old(vm)@.stack),
        !old(vm)@.heap.contains_key(r),
        final(vm)@.heap.contains_key(r),
        final(vm)@.heap[r] is Function,
        final(vm)@.heap[r]->Function_0.name is None,
        final(vm).strings_cap() == old(vm).strings_cap(),
        final(vm).globals_cap() == old(vm).globals_cap(),
{
    proof {
        vm.lemma_state_ok();
    }
    let ghost s0 = vm@;
    let r = new_function(vm);
    proof {
        lemma_allocation_keeps_stack(s0, vm@, r, vm@.heap[r]);
    }
    vm.push(Value::Obj(r));
    r
}

/// Intern a string and keep it on the stack.
fn rooted_string(vm: &mut Vm, chars: &str) -> (r: ObjRef)
    requires
        old(vm).wf(),
        old(vm).strings_cap() <= usize::MAX / 2,
    ensures
        final(vm).wf(),
        same_program_state(old(vm)@, VmState { stack: old(vm)@.stack, ..final(vm)@ }),
        final(vm)@.stack == old(vm)@.stack.push(Value::Obj(r)),
        kept(old(vm)@, final(vm)@, old(vm)@.stack),
        final(vm)@.heap.contains_key(r),
        final(vm)@.heap[r] is String,
        chars_of(final(vm)@.heap, r) == chars@,
        final(vm).strings_cap() <= 2 * old(vm).strings_cap() + 8,
        final(vm).globals_cap() == old(vm).globals_cap(),
{
    proof {
        vm.lemma_state_ok();
    }
    let ghost s0 = vm@;
    let r = copy_string(vm, chars);
    proof {
        if vm@ != s0 {
            lemma_allocation_keeps_stack(s0, vm@, r, vm@.heap[r]);
        }
    }
    vm.push(Value::Obj(r));
    r
}

/// Pop `k` values pushed while building.
fn unroot(vm: &mut Vm, k: usize)
    requires
        old(vm).wf(),
        k <= old(vm)@.stack.len(),
    ensures
        final(vm).wf(),
        final(vm)@ == (VmState { stack: old(vm)@.stack.subrange(0, old(vm)@.stack.len() - k), ..old(vm)@ }),
        final(vm).strings_cap() == old(vm).strings_cap(),
        final(vm).globals_cap() == old(vm).globals_cap(),
{
    let mut i: usize = 0;
    proof {
        assert(old(vm)@.stack.subrange(0, old(vm)@.stack.len() as int) =~= old(vm)@.stack);
    }
    while i < k
        invariant
            vm.wf(),
            i <= k,
            k <= old(vm)@.stack.len(),
            vm@ == (VmState { stack: old(vm)@.stack.subrange(0, old(vm)@.stack.len() - i), ..old(vm)@ }),
            vm.strings_cap() == old(vm).strings_cap(),
            vm.globals_cap() == old(vm).globals_cap(),
        decreases k - i,
    {
        vm.pop();
        proof {
            assert(vm@.stack =~= old(vm)@.stack.subrange(0, old(vm)@.stack.len() - (i + 1)));
        }
        i = i + 1;
    }
}

/// The code of the Fibonacci function:
/// `fn fib(n) { if (n < 2) return n; return fib(n - 1) + fib(n - 2); }`.
pub open spec fn fib_code() -> Seq<u8> {
    seq![
        6u8, 1, 0, 0, 20, 23, 0, 7, 4, 6, 1, 26, 22, 0, 21, 4, 8, 1, 6, 1, 0, 2, 12, 25, 1, 8, 1, 6, 1, 0, 3, 12,
        25, 1, 11, 26, 1, 26,
    ]
}

/// `f` is the Fibonacci function: one parameter, the code above, and the
/// constants `2`, its own name, `1`, `2`.
pub open spec fn is_fib_function(heap: Map<ObjRef, Obj>, f: ObjRef) -> bool {
    &&& heap.contains_key(f)
    &&& heap[f] is Function
    &&& heap[f]->Function_0.arity == 1
    &&& heap[f]->Function_0.name is Some
    &&& heap[f]->Function_0.chunk.code@ == fib_code()
    &&& heap[f]->Function_0.chunk.constants.values@ == seq![
        Value::Number(NUMBER_TWO),
        Value::Obj(heap[f]->Function_0.name->Some_0),
        Value::Number(NUMBER_ONE),
        Value::Number(NUMBER_TWO),
    ]
}

/// Build the recursive Fibonacci function, named `fib`, which calls itself
/// through the global `fib`.
pub fn build_fib(vm: &mut Vm) -> (f: ObjRef)
    requires
        old(vm).wf(),
        old(vm).strings_cap() <= usize::MAX / 8,
    ensures
        final(vm).wf(),
        same_program_state(old(vm)@, final(vm)@),
        kept(old(vm)@, final(vm)@, old(vm)@.stack),
        !old(vm)@.heap.contains_key(f),
        is_fib_function(final(vm)@.heap, f),
        final(vm)@.heap.contains_key(final(vm)@.heap[f]->Function_0.name->Some_0),
        final(vm)@.heap[final(vm)@.heap[f]->Function_0.name->Some_0] is String,
        chars_of(final(vm)@.heap, final(vm)@.heap[f]->Function_0.name->Some_0) == "fib"@,
        final(vm).strings_cap() <= 4 * old(vm).strings_cap() + 24,
        final(vm).globals_cap() == old(vm).globals_cap(),
{
    proof {
        vm.lemma_state_ok();
    }
    let ghost s0 = vm@;
    let fn_obj = rooted_function(vm);
    let ghost s1 = vm@;
    let fn_name = rooted_string(vm, "fib");
    let ghost s2 = vm@;
    let mut c = Chunk::new();

    // if (n < 2) return n;
    c.emit_bytes(OpCode::GetLocal.to_byte(), 1, 1);
    c.emit_constant(Value::Number(NUMBER_TWO), 1);
    c.emit_op(OpCode::Less, 1);
    let then_jump = c.emit_jump(OpCode::JumpIfFalse, 1);
    c.emit_op(OpCode::Pop, 1);
    c.emit_bytes(OpCode::GetLocal.to_byte(), 1, 1);
    c.emit_op(OpCode::Return, 1);
    let else_jump = c.emit_jump(OpCode::Jump, 1);
    c.patch_jump(then_jump);
    c.emit_op(OpCode::Pop, 1);

    // return fib(n - 1) + fib(n - 2);
    proof {
        vm.lemma_state_ok();
        let h = fnv_key(vm@, fn_name);
        assert(vm@.strings.contains_key((fn_name, h)));
    }
    let fib_name = copy_string(vm, "fib");
    assert(vm@ == s2);
    proof {
        vm.lemma_state_ok();
        law_interned_strings(vm@, fib_name, fn_name);
    }
    let fib_name_idx = c.add_constant(Value::Obj(fib_name));

    c.emit_bytes(OpCode::GetGlobal.to_byte(), fib_name_idx as u8, 2);
    c.emit_bytes(OpCode::GetLocal.to_byte(), 1, 2);
    c.emit_constant(Value::Number(NUMBER_ONE), 2);
    c.emit_op(OpCode::Sub, 2);
    c.emit_bytes(OpCode::Call.to_byte(), 1, 2);

    c.emit_bytes(OpCode::GetGlobal.to_byte(), fib_name_idx as u8, 2);
    c.emit_bytes(OpCode::GetLocal.to_byte(), 1, 2);
    c.emit_constant(Value::Number(NUMBER_TWO), 2);
    c.emit_op(OpCode::Sub, 2);
    c.emit_bytes(OpCode::Call.to_byte(), 1, 2);

    c.emit_op(OpCode::Add, 2);
    c.emit_op(OpCode::Return, 2);

    c.patch_jump(else_jump);
    c.emit_op(OpCode::Nil, 3);
    c.emit_op(OpCode::Return, 3);

    proof {
        assert(c.code@ =~= fib_code());
        assert(s1.stack[s1.stack.len() - 1] == Value::Obj(fn_obj));
        assert(vm@.heap.contains_key(fn_obj));
        assert(c.constants.values@ =~= seq![
            Value::Number(NUMBER_TWO),
            Value::Obj(fn_name),
            Value::Number(NUMBER_ONE),
            Value::Number(NUMBER_TWO),
        ]);
    }
    let ok = vm.set_function(fn_obj, 1, Some(fn_name), c);
    assert(ok);
    unroot(vm, 2);
    proof {
        assert(vm@.stack =~= s0.stack);
        assert forall|i: int| 0 <= i < s0.stack.len() && #[trigger] s0.stack[i] is Obj implies vm@.heap.contains_key(
            s0.stack[i]->Obj_0,
        ) && vm@.heap[s0.stack[i]->Obj_0] == s0.heap[s0.stack[i]->Obj_0] by {
            let x = s0.stack[i]->Obj_0;
            assert(s0.heap.contains_key(x));
            assert(s1.stack[i] == s0.stack[i]);
            assert(s1.heap.contains_key(x) && s1.heap[x] == s0.heap[x]);
            assert(s2.heap.contains_key(x) && s2.heap[x] == s1.heap[x]);
            assert(x != fn_obj);
        }
    }
    fn_obj
}

/// The code of the script that defines `fib` and prints `fib(arg)`.
pub open spec fn fib_script_code() -> Seq<u8> {
    seq![0u8, 0, 9, 1, 8, 1, 0, 2, 25, 1, 21, 1, 26]
}

/// Build the script `fn fib(n) {..}  print fib(arg);`, where `arg_bits` is
/// the bit pattern of the argument.  Its constants are the Fibonacci
/// function, that function's name, and the argument.
pub fn build_fib_script(vm: &mut Vm, arg_bits: u64) -> (s: ObjRef)
    requires
        old(vm).wf(),
        old(vm).strings_cap() <= usize::MAX / 16,
    ensures
        final(vm).wf(),
        same_program_state(old(vm)@, final(vm)@),
        kept(old(vm)@, final(vm)@, old(vm)@.stack),
        !old(vm)@.heap.contains_key(s),
        final(vm)@.heap.contains_key(s),
        final(vm)@.heap[s] is Function,
        final(vm)@.heap[s]->Function_0.arity == 0,
        final(vm)@.heap[s]->Function_0.name is None,
        final(vm)@.heap[s]->Function_0.chunk.code@ == fib_script_code(),
        ({
            let cs = final(vm)@.heap[s]->Function_0.chunk.constants.values@;
            let h = final(vm)@.heap;
            &&& cs.len() == 3
            &&& cs[0] is Obj
            &&& is_fib_function(h, cs[0]->Obj_0)
            &&& cs[1] == Value::Obj(h[cs[0]->Obj_0]->Function_0.name->Some_0)
            &&& h.contains_key(cs[1]->Obj_0) && h[cs[1]->Obj_0] is String
            &&& chars_of(h, cs[1]->Obj_0) == "fib"@
            &&& cs[2] == Value::Number(arg_bits)
        }),
        final(vm).strings_cap() <= 4 * old(vm).strings_cap() + 24,
        final(vm).globals_cap() == old(vm).globals_cap(),
{
    proof {
        vm.lemma_state_ok();
    }
    let ghost s0 = vm@;
    let script = rooted_function(vm);
    let ghost s1 = vm@;
    let mut c = Chunk::new();

    let fib = build_fib(vm);
    let ghost s2 = vm@;
    proof {
        assert(s1.stack[s1.stack.len() - 1] == Value::Obj(script));
    }
    vm.push(Value::Obj(fib));
    c.emit_constant(Value::Obj(fib), 1);
    proof {
        vm.lemma_state_ok();
        let nm = vm@.heap[fib]->Function_0.name->Some_0;
        assert(vm@.strings.contains_key((nm, fnv_key(vm@, nm))));
    }
    let fib_name = copy_string(vm, "fib");
    proof {
        vm.lemma_state_ok();
        law_interned_strings(vm@, fib_name, vm@.heap[fib]->Function_0.name->Some_0);
    }
    let fib_name_idx = c.add_constant(Value::Obj(fib_name));
    c.emit_bytes(OpCode::DefineGlobal.to_byte(), fib_name_idx as u8, 1);

    c.emit_bytes(OpCode::GetGlobal.to_byte(), fib_name_idx as u8, 2);
    c.emit_constant(Value::Number(arg_bits), 2);
    c.emit_bytes(OpCode::Call.to_byte(), 1, 2);
    c.emit_op(OpCode::Print, 2);

    c.emit_op(OpCode::Nil, 3);
    c.emit_op(OpCode::Return, 3);

    proof {
        assert(c.code@ =~= fib_script_code());
        assert(c.constants.values@ =~= seq![Value::Obj(fib), Value::Obj(fib_name), Value::Number(arg_bits)]);
        assert(vm@.heap.contains_key(script) && vm@.heap[script] is Function);
    }
    let ok = vm.set_function(script, 0, None, c);
    assert(ok);
    unroot(vm, 2);
    proof {
        assert(vm@.stack =~= s0.stack);
        assert(script != fib);
        assert forall|i: int| 0 <= i < s0.stack.len() && #[trigger] s0.stack[i] is Obj implies vm@.heap.contains_key(
            s0.stack[i]->Obj_0,
        ) && vm@.heap[s0.stack[i]->Obj_0] == s0.heap[s0.stack[i]->Obj_0] by {
            let x = s0.stack[i]->Obj_0;
            assert(s0.heap.contains_key(x));
            assert(s1.stack[i] == s0.stack[i]);
            assert(s1.heap.contains_key(x) && s1.heap[x] == s0.heap[x]);
            assert(s2.heap.contains_key(x) && s2.heap[x] == s1.heap[x]);
            assert(x != script);
        }
    }
    script
}

/// The code of the script `var i = 1; var sum = 0; while (i <= n) { sum =
/// sum + i; i = i + 1; } print sum;`, with `i` and `sum` in local slots 1
/// and 2.
pub open spec fn sum_loop_code() -> Seq<u8> {
    seq![
        0u8, 0, 0, 1, 6, 1, 0, 2, 19, 17, 23, 0, 20, 4, 6, 2, 6, 1, 11, 7, 2, 4, 6, 1, 0, 3, 11, 7, 1, 4, 24, 0,
        29, 4, 6, 2, 21, 1, 26,
    ]
}

/// Build the script that sums `1..=n` in a while loop and prints the sum,
/// where `n_bits` is the bit pattern of `n`.
pub fn build_sum_loop(vm: &mut Vm, n_bits: u64) -> (s: ObjRef)
    requires
        old(vm).wf(),
    ensures
        final(vm).wf(),
        same_program_state(old(vm)@, final(vm)@),
        kept(old(vm)@, final(vm)@, old(vm)@.stack),
        !old(vm)@.heap.contains_key(s),
        final(vm)@.heap.contains_key(s),
        final(vm)@.heap[s] is Function,
        final(vm)@.heap[s]->Function_0.arity == 0,
        final(vm)@.heap[s]->Function_0.name is None,
        final(vm)@.heap[s]->Function_0.chunk.code@ == sum_loop_code(),
        final(vm)@.heap[s]->Function_0.chunk.constants.values@ == seq![
            Value::Number(NUMBER_ONE),
            Value::Number(NUMBER_ZERO),
            Value::Number(n_bits),
            Value::Number(NUMBER_ONE),
        ],
        final(vm).strings_cap() == old(vm).strings_cap(),
        final(vm).globals_cap() == old(vm).globals_cap(),
{
    proof {
        vm.lemma_state_ok();
    }
    let ghost s0 = vm@;
    let script = rooted_function(vm);
    let ghost s1 = vm@;
    let mut c = Chunk::new();

    // locals: slot 0 = the script itself, slot 1 = i, slot 2 = sum
    c.emit_constant(Value::Number(NUMBER_ONE), 1);
    c.emit_constant(Value::Number(NUMBER_ZERO), 1);

    let loop_start = c.count();
    // condition: not (i > n), that is i <= n
    c.emit_bytes(OpCode::GetLocal.to_byte(), 1, 2);
    c.emit_constant(Value::Number(n_bits), 2);
    c.emit_op(OpCode::Greater, 2);
    c.emit_op(OpCode::Not, 2);
    let exit_jump = c.emit_jump(OpCode::JumpIfFalse, 2);
    c.emit_op(OpCode::Pop, 2);

    // sum = sum + i
    c.emit_bytes(OpCode::GetLocal.to_byte(), 2, 3);
    c.emit_bytes(OpCode::GetLocal.to_byte(), 1, 3);
    c.emit_op(OpCode::Add, 3);
    c.emit_bytes(OpCode::SetLocal.to_byte(), 2, 3);
    c.emit_op(OpCode::Pop, 3);

    // i = i + 1
    c.emit_bytes(OpCode::GetLocal.to_byte(), 1, 4);
    c.emit_constant(Value::Number(NUMBER_ONE), 4);
    c.emit_op(OpCode::Add, 4);
    c.emit_bytes(OpCode::SetLocal.to_byte(), 1, 4);
    c.emit_op(OpCode::Pop, 4);

    c.emit_loop(loop_start, 4);

    c.patch_jump(exit_jump);
    c.emit_op(OpCode::Pop, 5);

    c.emit_bytes(OpCode::GetLocal.to_byte(), 2, 6);
    c.emit_op(OpCode::Print, 6);

    c.emit_op(OpCode::Nil, 7);
    c.emit_op(OpCode::Return, 7);

    proof {
        assert(c.code@ =~= sum_loop_code());
        assert(s1.stack[s1.stack.len() - 1] == Value::Obj(script));
    }
    let ok = vm.set_function(script, 0, None, c);
    assert(ok);
    unroot(vm, 1);
    proof {
        assert(vm@.stack =~= s0.stack);
        assert forall|i: int| 0 <= i < s0.stack.len() && #[trigger] s0.stack[i] is Obj implies vm@.heap.contains_key(
            s0.stack[i]->Obj_0,
        ) && vm@.heap[s0.stack[i]->Obj_0] == s0.heap[s0.stack[i]->Obj_0] by {
            let x = s0.stack[i]->Obj_0;
            assert(s0.heap.contains_key(x));
            assert(x != script);
        }
    }
    script
}

/// The code of the script that makes `iterations` throwaway strings
/// (`"garbage-" + "chunk"`) in a loop and then prints `gc demo done`.
pub open spec fn gc_demo_code() -> Seq<u8> {
    seq![
        0u8, 0, 6, 1, 0, 1, 20, 23, 0, 18, 4, 0, 2, 0, 3, 11, 4, 6, 1, 0, 4, 11, 7, 1, 4, 24, 0, 26, 4, 0, 5, 21,
        1, 26,
    ]
}

/// Build the collector demo: a loop of `iterations` string concatenations
/// whose results are dropped, then `print "gc demo done"`, where
/// `iterations_bits` is the bit pattern of the count.
pub fn build_gc_demo(vm: &mut Vm, iterations_bits: u64) -> (s: ObjRef)
    requires
        old(vm).wf(),
        old(vm).strings_cap() <= usize::MAX / 16,
    ensures
        final(vm).wf(),
        same_program_state(old(vm)@, final(vm)@),
        kept(old(vm)@, final(vm)@, old(vm)@.stack),
        !old(vm)@.heap.contains_key(s),
        final(vm)@.heap.contains_key(s),
        final(vm)@.heap[s] is Function,
        final(vm)@.heap[s]->Function_0.arity == 0,
        final(vm)@.heap[s]->Function_0.name is None,
        final(vm)@.heap[s]->Function_0.chunk.code@ == gc_demo_code(),
        ({
            let cs = final(vm)@.heap[s]->Function_0.chunk.constants.values@;
            let h = final(vm)@.heap;
            &&& cs.len() == 6
            &&& cs[0] == Value::Number(NUMBER_ZERO)
            &&& cs[1] == Value::Number(iterations_bits)
            &&& cs[2] is Obj && h.contains_key(cs[2]->Obj_0) && h[cs[2]->Obj_0] is String
            &&& chars_of(h, cs[2]->Obj_0) == "garbage-"@
            &&& cs[3] is Obj && h.contains_key(cs[3]->Obj_0) && h[cs[3]->Obj_0] is String
            &&& chars_of(h, cs[3]->Obj_0) == "chunk"@
            &&& cs[4] == Value::Number(NUMBER_ONE)
            &&& cs[5] is Obj && h.contains_key(cs[5]->Obj_0) && h[cs[5]->Obj_0] is String
            &&& chars_of(h, cs[5]->Obj_0) == "gc demo done"@
        }),
        final(vm).strings_cap() <= 8 * old(vm).strings_cap() + 56,
        final(vm).globals_cap() == old(vm).globals_cap(),
{
    proof {
        vm.lemma_state_ok();
    }
    let ghost s0 = vm@;
    let script = rooted_function(vm);
    let ghost s1 = vm@;
    let mut c = Chunk::new();

    c.emit_constant(Value::Number(NUMBER_ZERO), 1); // i (slot 1)

    let loop_start = c.count();
    c.emit_bytes(OpCode::GetLocal.to_byte(), 1, 2);
    c.emit_constant(Value::Number(iterations_bits), 2);
    c.emit_op(OpCode::Less, 2);
    let exit = c.emit_jump(OpCode::JumpIfFalse, 2);
    c.emit_op(OpCode::Pop, 2);

    // a throwaway "garbage-" + "chunk"
    let g1 = rooted_string(vm, "garbage-");
    let ghost s2 = vm@;
    let g2 = rooted_string(vm, "chunk");
    let ghost s3 = vm@;
    c.emit_constant(Value::Obj(g1), 3);
    c.emit_constant(Value::Obj(g2), 3);
    c.emit_op(OpCode::Add, 3);
    c.emit_op(OpCode::Pop, 3);

    // i = i + 1
    c.emit_bytes(OpCode::GetLocal.to_byte(), 1, 4);
    c.emit_constant(Value::Number(NUMBER_ONE), 4);
    c.emit_op(OpCode::Add, 4);
    c.emit_bytes(OpCode::SetLocal.to_byte(), 1, 4);
    c.emit_op(OpCode::Pop, 4);

    c.emit_loop(loop_start, 4);
    c.patch_jump(exit);
    c.emit_op(OpCode::Pop, 5);

    let msg = rooted_string(vm, "gc demo done");
    let ghost s4 = vm@;
    let msg_idx = c.add_constant(Value::Obj(msg));
    c.emit_bytes(OpCode::Const.to_byte(), msg_idx as u8, 6);
    c.emit_op(OpCode::Print, 6);

    c.emit_op(OpCode::Nil, 7);
    c.emit_op(OpCode::Return, 7);

    proof {
        assert(c.code@ =~= gc_demo_code());
        assert(s1.stack[s1.stack.len() - 1] == Value::Obj(script));
        assert(s2.stack[s2.stack.len() - 1] == Value::Obj(g1));
        assert(s3.stack[s3.stack.len() - 1] == Value::Obj(g2));
        assert(s2.stack[s1.stack.len() - 1] == Value::Obj(script));
        assert(s3.stack[s1.stack.len() - 1] == Value::Obj(script));
        assert(s3.stack[s2.stack.len() - 1] == Value::Obj(g1));
        assert(vm@.heap.contains_key(script) && vm@.heap[script] is Function);
        assert(vm@.heap.contains_key(g1) && vm@.heap[g1] == s2.heap[g1]);
        assert(vm@.heap.contains_key(g2) && vm@.heap[g2] == s3.heap[g2]);
        assert(c.constants.values@ =~= seq![
            Value::Number(NUMBER_ZERO),
            Value::Number(iterations_bits),
            Value::Obj(g1),
            Value::Obj(g2),
            Value::Number(NUMBER_ONE),
            Value::Obj(msg),
        ]);
    }
    let ok = vm.set_function(script, 0, None, c);
    assert(ok);
    unroot(vm, 4);
    proof {
        assert(vm@.stack =~= s0.stack);
        assert forall|i: int| 0 <= i < s0.stack.len() && #[trigger] s0.stack[i] is Obj implies vm@.heap.contains_key(
            s0.stack[i]->Obj_0,
        ) && vm@.heap[s0.stack[i]->Obj_0] == s0.heap[s0.stack[i]->Obj_0] by {
            let x = s0.stack[i]->Obj_0;
            assert(s0.heap.contains_key(x));
            assert(s1.stack[i] == s0.stack[i]);
            assert(s2.stack[i] == s0.stack[i]);
            assert(s3.stack[i] == s0.stack[i]);
            assert(s1.heap.contains_key(x) && s1.heap[x] == s0.heap[x]);
            assert(s2.heap.contains_key(x) && s2.heap[x] == s1.heap[x]);
            assert(s3.heap.contains_key(x) && s3.heap[x] == s2.heap[x]);
            assert(s4.heap.contains_key(x) && s4.heap[x] == s3.heap[x]);
            assert(x != script);
        }
    }
    script
}

/// The intern-table key of the live string `r`.
spec fn fnv_key(s: VmState, r: ObjRef) -> u32 {
    s.heap[r]->String_0.hash
}

} // verus!
