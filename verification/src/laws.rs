//! Properties of the machine as a whole, each proved from the contracts of
//! the operations it is about.

use vstd::prelude::*;

use crate::chunk::{OpCode, decode_op};
use crate::common::{decimal_digits, digit_char};
use crate::debug::{Operand, decodable, decoded};
use crate::semantics::{
    advance, byte_at, code, consts, cur_fn, cur_frame, fault_of, ip, is_falsey, jump_operand, set_ip, step_spec,
    top,
};
use crate::table::{Table, TableKey};
use crate::value::{Obj, ObjRef, Value, is_nan_bits, obj_marked, num_equal, num_less, points_to, values_equal};
use crate::vm::{
    Action, CallFrame, VmState, chars_of, collected, collects_before, is_path, is_root, link, reachable,
    state_ok,
};

verus! {

/// Strings are interned: two live strings have the same characters exactly
/// when they are the same object, so comparing handles compares contents.
pub proof fn law_interned_strings(s: VmState, a: ObjRef, b: ObjRef)
    requires
        state_ok(s),
        s.heap.contains_key(a),
        s.heap[a] is String,
        s.heap.contains_key(b),
        s.heap[b] is String,
    ensures
        (chars_of(s.heap, a) == chars_of(s.heap, b)) <==> a == b,
{
    let ka = (a, s.heap[a]->String_0.hash);
    let kb = (b, s.heap[b]->String_0.hash);
    assert(s.strings.contains_key(ka));
    assert(s.strings.contains_key(kb));
}

/// Every object on a path of `s0` that starts at a root is reachable.
proof fn lemma_path_prefix_reachable(s0: VmState, p: Seq<ObjRef>, i: int)
    requires
        is_path(s0.heap, p),
        p.len() >= 1,
        is_root(s0, p[0]),
        0 <= i < p.len(),
    ensures
        reachable(s0, p[i]),
{
    let q = p.subrange(0, i + 1);
    assert forall|j: int| 0 <= j < q.len() - 1 implies #[trigger] link(s0.heap, q, j) by {
        assert(link(s0.heap, p, j));
    }
    assert(is_path(s0.heap, q));
}

/// A second collection right after a first frees nothing: after a
/// collection every live object is reachable.
pub proof fn law_collection_idempotent(s0: VmState, s1: VmState, s2: VmState)
    requires
        collected(s0, s1),
        collected(s1, s2),
    ensures
        s2.heap == s1.heap,
        s2.strings == s1.strings,
{
    assert forall|r: ObjRef| #[trigger] s1.heap.contains_key(r) implies reachable(s1, r) by {
        assert(reachable(s0, r));
        let p = choose|path: Seq<ObjRef>|
            #[trigger] is_path(s0.heap, path) && path.len() >= 1 && is_root(s0, path[0]) && path.last() == r;
        assert forall|j: int| 0 <= j < p.len() - 1 implies #[trigger] link(s1.heap, p, j) by {
            assert(link(s0.heap, p, j));
            lemma_path_prefix_reachable(s0, p, j);
            assert(s1.heap.contains_key(p[j]));
        }
        assert(is_path(s1.heap, p));
        assert(is_root(s1, p[0]));
    }
    assert(s2.heap =~= s1.heap);
    assert(s2.strings =~= s1.strings);
}

/// A collection never frees an object a root refers to.
pub proof fn law_collection_keeps_roots(s0: VmState, s1: VmState, r: ObjRef)
    requires
        collected(s0, s1),
        s0.heap.contains_key(r),
        is_root(s0, r),
    ensures
        s1.heap.contains_key(r),
        s1.heap[r] == s0.heap[r],
{
    let p = seq![r];
    assert(is_path(s0.heap, p));
}

/// A collection leaves the intern table without dangling entries: every key
/// it keeps names a live string, and every live string is still interned.
pub proof fn law_collection_prunes_intern_table(s0: VmState, s1: VmState)
    requires
        state_ok(s0),
        collected(s0, s1),
    ensures
        forall|k: TableKey| #[trigger] s1.strings.contains_key(k) ==> s1.heap.contains_key(k.0) && s1.heap[k.0] is String,
        forall|r: ObjRef|
            #[trigger] s1.heap.contains_key(r) && s1.heap[r] is String ==> s1.strings.contains_key(
                (r, s1.heap[r]->String_0.hash),
            ),
{
    assert forall|k: TableKey| #[trigger] s1.strings.contains_key(k) implies s1.heap.contains_key(k.0)
        && s1.heap[k.0] is String by {
        assert(s0.strings.contains_key(k));
    }
    assert forall|r: ObjRef| #[trigger] s1.heap.contains_key(r) && s1.heap[r] is String implies s1.strings.contains_key(
        (r, s1.heap[r]->String_0.hash),
    ) by {
        assert(s0.heap.contains_key(r));
        assert(s0.strings.contains_key((r, s0.heap[r]->String_0.hash)));
    }
}

/// A collection traces function objects: when a function survives, so do
/// its name and every object in its constant pool.
pub proof fn law_collection_keeps_constants(s0: VmState, s1: VmState, f: ObjRef, c: ObjRef)
    requires
        collected(s0, s1),
        s1.heap.contains_key(f),
        s0.heap.contains_key(c),
        points_to(s0.heap[f], c),
    ensures
        s1.heap.contains_key(c),
        s1.heap[c] == s0.heap[c],
{
    let p = choose|path: Seq<ObjRef>|
        #[trigger] is_path(s0.heap, path) && path.len() >= 1 && is_root(s0, path[0]) && path.last() == f;
    let p2 = p.push(c);
    assert forall|i: int| 0 <= i < p2.len() - 1 implies #[trigger] link(s0.heap, p2, i) by {
        if i < p.len() - 1 {
            assert(link(s0.heap, p, i));
        }
    }
    assert(is_path(s0.heap, p2));
    assert(p2.last() == c);
}

/// A jump whose operand was filled in by `patch_jump` at the moment the
/// code had `len` bytes lands at `len`: the operand at `ip + 1` holds
/// `len - (ip + 1) - 2`.
pub proof fn law_patched_jump_lands(pre: VmState, post: VmState, act: Action, gcap: nat, scap: nat, len: int)
    requires
        step_spec(pre, post, act, gcap, scap),
        fault_of(pre, gcap, scap) is None,
        decode_op(byte_at(pre, 0)) == Some(OpCode::Jump),
        jump_operand(pre) == len - (ip(pre) + 1) - 2,
    ensures
        act is Continue,
        post.frames.len() == pre.frames.len(),
        ip(post) == len,
        post.stack == pre.stack,
{
}

/// A `Loop` emitted by `emit_loop(loop_start, ..)` at position `ip` carries
/// the operand `ip + 3 - loop_start`, so it jumps back to `loop_start`.
pub proof fn law_loop_lands(pre: VmState, post: VmState, act: Action, gcap: nat, scap: nat, loop_start: int)
    requires
        step_spec(pre, post, act, gcap, scap),
        fault_of(pre, gcap, scap) is None,
        decode_op(byte_at(pre, 0)) == Some(OpCode::Loop),
        jump_operand(pre) == ip(pre) + 3 - loop_start,
        ip(pre) + 3 <= usize::MAX,
    ensures
        act is Continue,
        ip(post) == loop_start,
        post.stack == pre.stack,
{
}

/// `Const <idx>` pushes constant `idx` of the running function's pool.
pub proof fn law_const_pushes_constant(pre: VmState, post: VmState, act: Action, gcap: nat, scap: nat)
    requires
        step_spec(pre, post, act, gcap, scap),
        fault_of(pre, gcap, scap) is None,
        decode_op(byte_at(pre, 0)) == Some(OpCode::Const),
        ip(pre) + 3 <= usize::MAX,
    ensures
        post.stack == pre.stack.push(consts(pre)[byte_at(pre, 1) as int]),
        ip(post) == ip(pre) + 2,
{
}

/// Calling a function puts the callee in slot 0 of the new frame, with the
/// arguments in slots 1 and up, and starts at the function's first byte.
pub proof fn law_call_slot_zero(pre: VmState, post: VmState, act: Action, gcap: nat, scap: nat)
    requires
        step_spec(pre, post, act, gcap, scap),
        fault_of(pre, gcap, scap) is None,
        decode_op(byte_at(pre, 0)) == Some(OpCode::Call),
        act is Continue,
        pre.stack.len() <= usize::MAX,
    ensures
        post.frames.len() == pre.frames.len() + 1,
        cur_frame(post).ip == 0,
        post.stack[cur_frame(post).slots as int] == top(pre, byte_at(pre, 1) as int),
        post.stack == pre.stack,
        cur_frame(post).slots == pre.stack.len() - 1 - byte_at(pre, 1),
{
}

/// Returning from an inner frame pops the frame and leaves the returned
/// value on top of the caller's stack.
pub proof fn law_return_splices_result(pre: VmState, post: VmState, act: Action, gcap: nat, scap: nat)
    requires
        step_spec(pre, post, act, gcap, scap),
        fault_of(pre, gcap, scap) is None,
        decode_op(byte_at(pre, 0)) == Some(OpCode::Return),
        pre.frames.len() > 1,
    ensures
        act is Continue,
        post.frames == pre.frames.drop_last(),
        post.stack.last() == top(pre, 0),
        post.stack.len() <= pre.stack.len(),
{
}

/// The calling convention over a callee's whole run: a `Call` that enters
/// a function makes a frame whose slot 0 is the callee and whose next slots
/// are the arguments; when that frame later returns (the frames below it and
/// the stack below its base being as the call left them), the caller resumes
/// after the `Call` with the callee and its arguments replaced by the
/// returned value.
pub proof fn law_call_then_return(
    c0: VmState,
    c1: VmState,
    act_c: Action,
    r0: VmState,
    r1: VmState,
    act_r: Action,
    gcap: nat,
    scap: nat,
    gcap2: nat,
    scap2: nat,
)
    requires
        step_spec(c0, c1, act_c, gcap, scap),
        fault_of(c0, gcap, scap) is None,
        decode_op(byte_at(c0, 0)) == Some(OpCode::Call),
        act_c is Continue,
        c1.frames.len() == c0.frames.len() + 1,
        step_spec(r0, r1, act_r, gcap2, scap2),
        fault_of(r0, gcap2, scap2) is None,
        decode_op(byte_at(r0, 0)) == Some(OpCode::Return),
        r0.frames.drop_last() == c1.frames.drop_last(),
        cur_frame(r0).slots == cur_frame(c1).slots,
        c0.stack.len() <= usize::MAX,
        r0.stack.len() > cur_frame(r0).slots,
        r0.stack.subrange(0, cur_frame(r0).slots as int) == c1.stack.subrange(0, cur_frame(c1).slots as int),
    ensures
        c1.stack == c0.stack,
        cur_frame(c1).ip == 0,
        c1.stack[cur_frame(c1).slots as int] == top(c0, byte_at(c0, 1) as int),
        c1.stack.subrange(cur_frame(c1).slots + 1, c1.stack.len() as int) == c0.stack.subrange(
            c0.stack.len() - byte_at(c0, 1),
            c0.stack.len() as int,
        ),
        act_r is Continue,
        r1.frames == c1.frames.drop_last(),
        r1.frames == advance(c0, 2),
        r1.stack == c0.stack.subrange(0, c0.stack.len() - byte_at(c0, 1) - 1).push(top(r0, 0)),
{
    let n = c0.stack.len();
    let argc = byte_at(c0, 1) as int;
    let callee = top(c0, argc);
    assert(callee is Obj && c0.heap[callee->Obj_0] is Function);
    assert(c1.frames == (advance(c0, 2).push(CallFrame { function: callee->Obj_0, ip: 0, slots: (n - argc - 1) as usize })));
    assert(c1.stack == c0.stack);
    assert(cur_frame(c1).slots == n - argc - 1);
    let slots = cur_frame(c1).slots as int;
    assert(c1.frames.drop_last().len() == c0.frames.len());
    assert(r0.frames.drop_last().len() == r0.frames.len() - 1);
    assert(r0.frames.len() > 1);
    assert(c1.frames.drop_last() =~= advance(c0, 2));
    assert(c1.stack.subrange(slots + 1, c1.stack.len() as int) =~= c0.stack.subrange(
        c0.stack.len() - byte_at(c0, 1),
        c0.stack.len() as int,
    ));
    assert(r1.stack =~= c0.stack.subrange(0, c0.stack.len() - byte_at(c0, 1) - 1).push(top(r0, 0)));
}

/// One call that changes a table's contents.
pub enum TableWrite {
    /// `set(k, v)`.
    Store(TableKey, Value),
    /// `delete(k)`.
    Delete(TableKey),
    /// `remove_white(heap)`, given the handles of the heap's unmarked objects.
    RemoveWhite(Ghost<Set<ObjRef>>),
}

/// The table's contents after the write `w` on `m`.
pub open spec fn apply_write(m: Map<TableKey, Value>, w: TableWrite) -> Map<TableKey, Value> {
    match w {
        TableWrite::Store(k, v) => m.insert(k, v),
        TableWrite::Delete(k) => m.remove(k),
        TableWrite::RemoveWhite(white) => Map::new(|k: TableKey| m.contains_key(k) && !white@.contains(k.0), |k: TableKey| m[k]),
    }
}

/// The table's contents after the writes `ws`, in order, starting from `m`.
pub open spec fn apply_writes(m: Map<TableKey, Value>, ws: Seq<TableWrite>) -> Map<TableKey, Value>
    decreases ws.len(),
{
    if ws.len() == 0 {
        m
    } else {
        apply_write(apply_writes(m, ws.drop_last()), ws.last())
    }
}

/// What a read of `k` gives after the writes `ws` on `m`: the value of the
/// latest `set` of `k`, unless a `delete` of `k` or a `remove_white` that
/// found `k`'s string unmarked came after it; what `m` held when none of the
/// writes touched `k`.
pub open spec fn latest_write(m: Map<TableKey, Value>, ws: Seq<TableWrite>, k: TableKey) -> Option<Value>
    decreases ws.len(),
{
    if ws.len() == 0 {
        if m.contains_key(k) {
            Some(m[k])
        } else {
            None
        }
    } else {
        match ws.last() {
            TableWrite::Store(k2, v) => if k2 == k {
                Some(v)
            } else {
                latest_write(m, ws.drop_last(), k)
            },
            TableWrite::Delete(k2) => if k2 == k {
                None
            } else {
                latest_write(m, ws.drop_last(), k)
            },
            TableWrite::RemoveWhite(white) => if white@.contains(k.0) {
                None
            } else {
                latest_write(m, ws.drop_last(), k)
            },
        }
    }
}

/// `remove_white` is the write `RemoveWhite` of the heap's unmarked
/// handles: `t1` is `t0` after `remove_white(heap)`, as its contract states.
pub proof fn law_remove_white_is_a_write(t0: Table, t1: Table, heap: Map<ObjRef, Obj>)
    requires
        forall|k: TableKey| #[trigger] t0@.contains_key(k) ==> heap.contains_key(k.0),
        forall|k: TableKey| #[trigger] t1@.contains_key(k) <==> t0@.contains_key(k) && obj_marked(heap[k.0]),
        forall|k: TableKey| #[trigger] t1@.contains_key(k) ==> t1@[k] == t0@[k],
    ensures
        t1@ == apply_write(t0@, TableWrite::RemoveWhite(Ghost(Set::new(|r: ObjRef| heap.contains_key(r) && !obj_marked(heap[r]))))),
{
    let white = Set::new(|r: ObjRef| heap.contains_key(r) && !obj_marked(heap[r]));
    assert(t1@ =~= apply_write(t0@, TableWrite::RemoveWhite(Ghost(white))));
}

/// Over any history of `set`, `delete` and `remove_white` calls, a read
/// gives the latest write of its key: `t1` is `t0` after the writes `ws`, as
/// the contracts of those calls state each step.
pub proof fn law_table_history(t0: Table, t1: Table, ws: Seq<TableWrite>, k: TableKey)
    requires
        t1@ == apply_writes(t0@, ws),
    ensures
        t1@.contains_key(k) <==> latest_write(t0@, ws, k) is Some,
        t1@.contains_key(k) ==> latest_write(t0@, ws, k) == Some(t1@[k]),
{
    lemma_writes_read(t0@, ws, k);
}

proof fn lemma_writes_read(m: Map<TableKey, Value>, ws: Seq<TableWrite>, k: TableKey)
    ensures
        apply_writes(m, ws).contains_key(k) <==> latest_write(m, ws, k) is Some,
        apply_writes(m, ws).contains_key(k) ==> latest_write(m, ws, k) == Some(apply_writes(m, ws)[k]),
    decreases ws.len(),
{
    if ws.len() > 0 {
        lemma_writes_read(m, ws.drop_last(), k);
    }
}

/// The collection threshold: an allocation runs a collection first exactly
/// when stress mode is on or the allocation's bytes take the bytes
/// allocated past the threshold.
pub proof fn law_collection_threshold(s: VmState, stress: bool, size: nat)
    requires
        s.bytes_allocated + size <= usize::MAX,
    ensures
        collects_before(s, stress, size) == (stress || s.bytes_allocated + size > s.next_gc),
        stress ==> collects_before(s, stress, size),
        s.bytes_allocated + size > s.next_gc ==> collects_before(s, false, size),
        s.bytes_allocated + size <= s.next_gc ==> !collects_before(s, false, size),
{
}

/// Equality of values: every value that is not a NaN equals itself; two
/// booleans are equal exactly when they are the same boolean; `nil` equals
/// `nil`; two objects are equal exactly when they are the same object;
/// values of different kinds are never equal.
pub proof fn law_value_equality(v: Value, x: bool, y: bool, a: ObjRef, b: ObjRef, n: u64)
    ensures
        !(v matches Value::Number(bits) && is_nan_bits(bits)) ==> values_equal(v, v),
        values_equal(Value::Bool(x), Value::Bool(y)) == (x == y),
        values_equal(Value::Nil, Value::Nil),
        values_equal(Value::Obj(a), Value::Obj(b)) == (a == b),
        !values_equal(Value::Nil, Value::Bool(x)),
        !values_equal(Value::Bool(x), Value::Number(n)),
        !values_equal(Value::Number(n), Value::Obj(a)),
        !values_equal(Value::Nil, Value::Obj(a)),
        !values_equal(Value::Bool(x), Value::Obj(a)),
        !values_equal(Value::Nil, Value::Number(n)),
{
}

/// Truthiness: `nil` and `false` are falsey and every other value is truthy;
/// so `Not` on `nil` or `false` pushes `true` and on any other value pushes
/// `false`.
pub proof fn law_truthiness(v: Value, n: u64, r: ObjRef)
    ensures
        is_falsey(Value::Nil),
        is_falsey(Value::Bool(false)),
        !is_falsey(Value::Bool(true)),
        !is_falsey(Value::Number(n)),
        !is_falsey(Value::Obj(r)),
        is_falsey(v) <==> (v == Value::Nil || v == Value::Bool(false)),
{
}

/// `Not` pushes `true` exactly for `nil` and `false`, and `JumpIfFalse`
/// jumps exactly for `nil` and `false`.
pub proof fn law_not_and_jump_if_false(pre: VmState, post: VmState, act: Action, gcap: nat, scap: nat)
    requires
        step_spec(pre, post, act, gcap, scap),
        fault_of(pre, gcap, scap) is None,
        decode_op(byte_at(pre, 0)) == Some(OpCode::Not) || decode_op(byte_at(pre, 0)) == Some(OpCode::JumpIfFalse),
    ensures
        decode_op(byte_at(pre, 0)) == Some(OpCode::Not) ==> post.stack.last() == Value::Bool(
            top(pre, 0) == Value::Nil || top(pre, 0) == Value::Bool(false),
        ),
        decode_op(byte_at(pre, 0)) == Some(OpCode::JumpIfFalse) && (top(pre, 0) == Value::Nil || top(pre, 0)
            == Value::Bool(false)) ==> ip(post) == ip(pre) + 3 + jump_operand(pre),
        decode_op(byte_at(pre, 0)) == Some(OpCode::JumpIfFalse) && !(top(pre, 0) == Value::Nil || top(pre, 0)
            == Value::Bool(false)) ==> post.frames == advance(pre, 3),
{
    if decode_op(byte_at(pre, 0)) == Some(OpCode::JumpIfFalse) && (top(pre, 0) == Value::Nil || top(pre, 0)
        == Value::Bool(false)) {
        let t = ip(pre) + 3 + jump_operand(pre);
        assert(post.frames == set_ip(pre, t));
        assert(post.frames.last() == set_ip(pre, t)[pre.frames.len() - 1]);
    }
}

/// The numeric value of a string of decimal digits, each character counted
/// as its distance from `'0'`.
pub open spec fn digits_value(cs: Seq<char>) -> int
    decreases cs.len(),
{
    if cs.len() == 0 {
        0
    } else {
        digits_value(cs.drop_last()) * 10 + (cs.last() as int - '0' as int)
    }
}

/// Each decimal digit is the character `d` places after `'0'`.
pub proof fn law_digit_chars(d: nat)
    requires
        d < 10,
    ensures
        digit_char(d) as int == '0' as int + d,
{
}

/// The digits that `print` writes for a whole number read back as that
/// number, and they have no leading zero.
pub proof fn law_decimal_digits_read_back(n: nat)
    ensures
        digits_value(decimal_digits(n)) == n,
        decimal_digits(n).len() >= 1,
        n >= 10 ==> decimal_digits(n)[0] != '0',
    decreases n,
{
    law_digit_chars(n % 10);
    let dd = decimal_digits(n);
    if n >= 10 {
        law_decimal_digits_read_back(n / 10);
        let p = decimal_digits(n / 10);
        assert(dd == p.push(digit_char(n % 10)));
        assert(dd.drop_last() =~= p);
        assert(dd.last() == digit_char(n % 10));
        assert(digits_value(dd) == digits_value(p) * 10 + (n % 10));
        assert((n / 10) * 10 + n % 10 == n);
        assert(dd[0] == p[0]);
        if n / 10 < 10 {
            law_digit_chars(n / 10);
        }
    } else {
        assert(dd == seq![digit_char(n)]);
        assert(dd.drop_last() =~= Seq::<char>::empty());
        assert(digits_value(dd.drop_last()) == 0);
        assert(n % 10 == n);
    }
}

/// The disassembler lists each jump with the target the machine goes to:
/// for a `Jump`, `JumpIfFalse` or `Loop` that the machine takes, the listed
/// target of the instruction at the instruction pointer is where the
/// instruction pointer goes.
pub proof fn law_listed_jump_targets(pre: VmState, post: VmState, act: Action, gcap: nat, scap: nat)
    requires
        step_spec(pre, post, act, gcap, scap),
        fault_of(pre, gcap, scap) is None,
        decode_op(byte_at(pre, 0)) == Some(OpCode::Jump) || decode_op(byte_at(pre, 0)) == Some(OpCode::Loop)
            || (decode_op(byte_at(pre, 0)) == Some(OpCode::JumpIfFalse) && (top(pre, 0) == Value::Nil
            || top(pre, 0) == Value::Bool(false))),
        decodable(cur_fn(pre).chunk, ip(pre)),
        ip(pre) + 3 <= usize::MAX,
        ip(pre) + 3 + 0x10000 <= 0x7FFF_FFFF_FFFF_FFFF,
    ensures
        decoded(cur_fn(pre).chunk, ip(pre)).operand == Operand::Jump(ip(pre) as usize, ip(post) as i64),
{
    let t: int = if decode_op(byte_at(pre, 0)) == Some(OpCode::Loop) {
        ip(pre) + 3 - jump_operand(pre)
    } else {
        ip(pre) + 3 + jump_operand(pre)
    };
    assert(code(pre) == cur_fn(pre).chunk.code@);
    assert(post.frames == set_ip(pre, t));
    assert(post.frames.last() == set_ip(pre, t)[pre.frames.len() - 1]);
    assert(ip(post) == t);
}

/// The disassembler lists a `Const` with the constant the machine pushes,
/// and a `GetLocal` with the slot the machine reads; in both, the listed next
/// offset is where the machine continues.
pub proof fn law_listed_operands(pre: VmState, post: VmState, act: Action, gcap: nat, scap: nat)
    requires
        step_spec(pre, post, act, gcap, scap),
        fault_of(pre, gcap, scap) is None,
        decode_op(byte_at(pre, 0)) == Some(OpCode::Const) || decode_op(byte_at(pre, 0)) == Some(OpCode::GetLocal),
        decodable(cur_fn(pre).chunk, ip(pre)),
        ip(pre) + 2 <= usize::MAX,
    ensures
        decoded(cur_fn(pre).chunk, ip(pre)).next == ip(post),
        decode_op(byte_at(pre, 0)) == Some(OpCode::Const) ==> decoded(cur_fn(pre).chunk, ip(pre)).operand
            == Operand::Constant(byte_at(pre, 1), Some(post.stack.last())),
        decode_op(byte_at(pre, 0)) == Some(OpCode::GetLocal) ==> decoded(cur_fn(pre).chunk, ip(pre)).operand
            == Operand::Byte(byte_at(pre, 1)) && post.stack.last() == pre.stack[cur_frame(pre).slots + byte_at(
            pre,
            1,
        )],
{
    assert(code(pre) == cur_fn(pre).chunk.code@);
    assert(post.frames == set_ip(pre, ip(pre) + 2));
    assert(post.frames.last() == set_ip(pre, ip(pre) + 2)[pre.frames.len() - 1]);
}

/// A table read after a write of the same key gives the written value and
/// a write leaves every other key as it was, also when the table grows; a
/// delete of a present key reports it, after which the key reads as absent,
/// a second delete reports nothing, and setting it again reports a new key.
/// `t1` is `t0` after `set(k, v)` returned `new1`, `t2` is `t1` after
/// `delete(k)` returned `removed`, as their contracts state.
pub proof fn law_table_write_read(
    t0: Table,
    t1: Table,
    t2: Table,
    k: TableKey,
    v: Value,
    other: TableKey,
    new1: bool,
    removed: bool,
)
    requires
        t1@ == t0@.insert(k, v),
        new1 == !t0@.contains_key(k),
        t2@ == t1@.remove(k),
        removed == t1@.contains_key(k),
        other != k,
    ensures
        t1@.contains_key(k) && t1@[k] == v,
        t1@.contains_key(other) == t0@.contains_key(other),
        t0@.contains_key(other) ==> t1@[other] == t0@[other],
        removed,
        !t2@.contains_key(k),
        t2@.contains_key(other) == t0@.contains_key(other),
        t0@.contains_key(other) ==> t2@[other] == t0@[other],
        t2@.remove(k) == t2@,
        !t2@.contains_key(k) ==> t2@.insert(k, v).contains_key(k),
{
    assert(t2@.remove(k) =~= t2@);
}

/// Numbers compare as IEEE-754 doubles: of two numbers that are not NaN
/// exactly one is less than, equal to, or greater than the other; `<` is
/// transitive; a number equals itself unless it is a NaN; and `Equal` on
/// values is symmetric.
pub proof fn law_number_order(a: u64, b: u64, c: u64, x: Value, y: Value)
    ensures
        !is_nan_bits(a) && !is_nan_bits(b) ==> (num_less(a, b) || num_equal(a, b) || num_less(b, a)),
        !(num_less(a, b) && num_equal(a, b)),
        !(num_less(a, b) && num_less(b, a)),
        num_less(a, b) && num_less(b, c) ==> num_less(a, c),
        num_equal(a, a) <==> !is_nan_bits(a),
        values_equal(x, y) == values_equal(y, x),
{
}

} // verus!
