//! End-to-end programs built with the assembler API and run on the machine,
//! with the embedder's side (floating-point arithmetic, number printing, the
//! clock native) supplied by a small host loop.

use lib::programs;
use lib::value::{copy_string, Obj, ObjRef, Value};
use lib::vm::{Action, ArithOp, InterpretResult, Vm, CLOCK_NATIVE};

fn num(x: f64) -> Value {
    Value::Number(x.to_bits())
}

/// The host's rendering of a number the library leaves to it (anything but
/// a whole number below 10^15).
fn render_number(bits: u64) -> String {
    format!("{}", f64::from_bits(bits))
}

/// Run `script` to completion, doing the host's share of the work.
fn interpret(vm: &mut Vm, script: ObjRef) -> InterpretResult {
    let mut action = vm.interpret(script);
    loop {
        action = match action {
            Action::Continue => vm.step(),
            Action::Finished(result) => return result,
            Action::Arithmetic(op, a, b) => {
                let (x, y) = (f64::from_bits(a), f64::from_bits(b));
                let v = match op {
                    ArithOp::Add => num(x + y),
                    ArithOp::Sub => num(x - y),
                    ArithOp::Mul => num(x * y),
                    ArithOp::Div => num(x / y),
                    ArithOp::Mod => num(x % y),
                };
                vm.push(v);
                vm.step()
            }
            Action::PrintNumber(a) => {
                vm.record_output(render_number(a));
                vm.step()
            }
            Action::CallNative(function, _args) => {
                assert_eq!(function, CLOCK_NATIVE);
                vm.push(num(0.0));
                vm.step()
            }
            Action::Fault(fault) => panic!("malformed bytecode: {:?}", fault),
        }
    }
}

// The demo programs come from `lib::programs`; their numeric arguments are
// doubles, passed as bit patterns.
fn build_fib_script(vm: &mut Vm, arg: i32) -> ObjRef {
    programs::build_fib_script(vm, (arg as f64).to_bits())
}

fn build_sum_loop(vm: &mut Vm, n: i32) -> ObjRef {
    programs::build_sum_loop(vm, (n as f64).to_bits())
}

fn build_gc_demo(vm: &mut Vm, iterations: i32) -> ObjRef {
    programs::build_gc_demo(vm, (iterations as f64).to_bits())
}

#[test]
fn fib_21_via_recursive_calls() {
    let mut vm = Vm::new();
    let script = build_fib_script(&mut vm, 21);
    let result = interpret(&mut vm, script);

    assert_eq!(result, InterpretResult::Success);
    assert_eq!(vm.output(), ["10946".to_string()]);
}

#[test]
fn fib_matches_known_sequence() {
    for (n, expected) in [(0, "0"), (1, "1"), (10, "55")] {
        let mut vm = Vm::new();
        let script = build_fib_script(&mut vm, n);
        assert_eq!(interpret(&mut vm, script), InterpretResult::Success);
        assert_eq!(vm.output(), [expected.to_string()], "fib({n})");
    }
}

#[test]
fn sum_1_to_100_via_while_loop() {
    let mut vm = Vm::new();
    let script = build_sum_loop(&mut vm, 100);
    let result = interpret(&mut vm, script);

    assert_eq!(result, InterpretResult::Success);
    assert_eq!(vm.output(), ["5050".to_string()]);
}

#[test]
fn sum_loop_matches_gauss_formula() {
    for n in [0, 1, 5, 37] {
        let mut vm = Vm::new();
        let script = build_sum_loop(&mut vm, n);
        assert_eq!(interpret(&mut vm, script), InterpretResult::Success);
        let expected = (n * (n + 1) / 2).to_string();
        assert_eq!(vm.output(), [expected], "sum 1..{n}");
    }
}

#[test]
fn gc_demo_completes_and_reclaims_garbage() {
    let mut vm = Vm::new();
    let before = vm.bytes_allocated();

    let script = build_gc_demo(&mut vm, 20_000);
    let result = interpret(&mut vm, script);

    assert_eq!(result, InterpretResult::Success);
    assert_eq!(vm.output(), ["gc demo done".to_string()]);

    let after_run = vm.bytes_allocated();
    vm.collect_garbage();
    let after_gc = vm.bytes_allocated();

    assert!(after_gc <= after_run);
    assert!(
        after_gc < before + 4096,
        "expected GC to reclaim the throwaway strings, but {after_gc} bytes are \
         still live (baseline was {before})"
    );
}

#[test]
fn gc_demo_full_scale_matches_original_program() {
    let mut vm = Vm::new();
    let script = build_gc_demo(&mut vm, 200_000);
    assert_eq!(interpret(&mut vm, script), InterpretResult::Success);
    assert_eq!(vm.output(), ["gc demo done".to_string()]);
}

#[test]
fn interning_survives_a_gc_triggered_mid_allocation() {
    let mut vm = Vm::new();
    // Collect on every allocation.
    vm.set_gc_stress(true);

    let a = copy_string(&mut vm, "same-content");
    let b = copy_string(&mut vm, "same-content");

    assert!(
        a == b,
        "expected copy_string to return the same interned object twice for identical content"
    );
}

#[test]
fn gc_stress_run_gives_the_same_output() {
    let mut vm = Vm::new();
    let script = build_fib_script(&mut vm, 10);
    vm.set_gc_stress(true);
    assert_eq!(interpret(&mut vm, script), InterpretResult::Success);
    assert_eq!(vm.output(), ["55".to_string()]);
}

#[test]
fn gc_stress_concatenation_loop() {
    let mut vm = Vm::new();
    let script = build_gc_demo(&mut vm, 50);
    vm.set_gc_stress(true);
    assert_eq!(interpret(&mut vm, script), InterpretResult::Success);
    assert_eq!(vm.output(), ["gc demo done".to_string()]);
}

#[test]
fn fib_builder_emits_the_expected_code() {
    let mut vm = Vm::new();
    let f = programs::build_fib(&mut vm);
    match vm.heap().get(f) {
        Some(Obj::Function(fun)) => {
            assert_eq!(fun.arity, 1);
            assert_eq!(
                fun.chunk.code,
                vec![
                    6, 1, 0, 0, 20, 23, 0, 7, 4, 6, 1, 26, 22, 0, 21, 4, 8, 1, 6, 1, 0, 2, 12, 25, 1, 8, 1,
                    6, 1, 0, 3, 12, 25, 1, 11, 26, 1, 26
                ]
            );
            let name = fun.name.expect("fib is named");
            assert!(matches!(vm.heap().get(name), Some(Obj::String(s)) if s.chars == "fib"));
            let consts = &fun.chunk.constants.values;
            assert_eq!(consts.len(), 4);
            assert!(matches!(consts[0], Value::Number(b) if b == 2.0f64.to_bits()));
            assert!(matches!(consts[1], Value::Obj(r) if r == name));
            assert!(matches!(consts[2], Value::Number(b) if b == 1.0f64.to_bits()));
            assert!(matches!(consts[3], Value::Number(b) if b == 2.0f64.to_bits()));
        }
        _ => panic!("build_fib did not make a function"),
    }
    assert!(vm.stack_values().is_empty());
}

#[test]
fn entry_return_clears_the_script_and_its_locals() {
    let mut vm = Vm::new();
    let script = build_sum_loop(&mut vm, 5);
    assert_eq!(interpret(&mut vm, script), InterpretResult::Success);
    assert_eq!(vm.output(), ["15".to_string()]);
    assert!(vm.stack_values().is_empty());
    assert!(vm.call_frames().is_empty());
}

#[test]
fn programs_build_and_run_under_gc_stress() {
    let mut vm = Vm::new();
    vm.set_gc_stress(true);
    let fib = build_fib_script(&mut vm, 10);
    assert_eq!(interpret(&mut vm, fib), InterpretResult::Success);
    let demo = build_gc_demo(&mut vm, 20);
    assert_eq!(interpret(&mut vm, demo), InterpretResult::Success);
    let sum = build_sum_loop(&mut vm, 10);
    assert_eq!(interpret(&mut vm, sum), InterpretResult::Success);
    assert_eq!(
        vm.output(),
        ["55".to_string(), "gc demo done".to_string(), "55".to_string()]
    );
}
