//! Lowering and the netlist evaluator, against the interpreter.

use rune::interp::{Interpreter, Value};
use rune::ir::{self, IntTy, Type};
use rune::verilog::{emit, eval, lower, sanitize, ty_width};

fn mask(width: u32) -> u128 {
    if width >= 128 {
        u128::MAX
    } else {
        (1u128 << width) - 1
    }
}


fn compile(src: &str) -> ir::Module {
    rune::compile(src).expect("typechecks")
}

/// Check that the lowered Verilog netlist computes the same value as the
/// interpreter for `func` over a set of `bit<width>` input tuples.
fn assert_equiv(src: &str, func: &str, width: u32, cases: &[Vec<u128>]) {
    let module = compile(src);
    let design = lower(&module).design;
    let vmod = sanitize(func);

    for case in cases {
        // Interpreter result.
        let args: Vec<Value> = case.iter().map(|&v| Value::Bit(v & mask(width), width)).collect();
        let mut interp = Interpreter::new(module.clone());
        let got = interp.call(func, args).expect("interp runs");
        let expected = match got {
            Value::Bit(v, _) => v,
            Value::Bool(b) => b as u128,
            other => panic!("unexpected interp value {:?}", other),
        };

        // Netlist result.
        let ir_func = module.funcs.get(func).unwrap();
        let mut inputs: Vec<(String, u128)> = Vec::new();
        for (p, v) in ir_func.params.iter().zip(case.iter()) {
            inputs.push((p.name.clone(), *v & mask(width)));
        }
        let actual = eval(&design, &vmod, &inputs).expect("eval netlist");
        assert_eq!(
            actual, expected,
            "mismatch for {}({:?}): netlist {} vs interp {}",
            func, case, actual, expected
        );
    }
}

#[test]
fn add8_lowers_and_matches() {
    let src = "fn add8(a: bit<8>, b: bit<8>) -> bit<8> { a + b }";
    // Exhaustive-ish sampling incl. the wrapping case 200+100=44.
    let cases: Vec<Vec<u128>> = vec![
        vec![200, 100],
        vec![255, 1],
        vec![0, 0],
        vec![17, 25],
        vec![128, 128],
    ];
    assert_equiv(src, "add8", 8, &cases);

    // The emitted module looks right.
    let m = compile(src);
    let text = emit(&m);
    assert!(text.contains("module add8"));
    assert!(text.contains("input [7:0] a"));
    assert!(text.contains("output [7:0] out"));
}

#[test]
fn bit_ops_match_interpreter() {
    let src = r#"
        fn rotl4(x: bit<8>, n: bit<8>) -> bit<8> {
            let m: bit<8> = n & 7;
            (x << m) | (x >> ((8 - m) & 7))
        }
        fn mask_low(x: bit<8>, i: bit<8>) -> bit<8> { (x >> (i & 7)) & 1 }
    "#;
    let mut cases = Vec::new();
    for x in [0u128, 1, 0x80, 0xA5, 0xFF] {
        for n in 0u128..8 {
            cases.push(vec![x, n]);
        }
    }
    assert_equiv(src, "rotl4", 8, &cases);
    assert_equiv(src, "mask_low", 8, &cases);
}

#[test]
fn nested_arithmetic_truncates_each_step() {
    // (a + b) * c wraps at every operation; the SSA lowering must match.
    let src = "fn f(a: bit<8>, b: bit<8>, c: bit<8>) -> bit<8> { (a + b) * c }";
    let cases: Vec<Vec<u128>> = vec![
        vec![200, 100, 3],
        vec![255, 255, 255],
        vec![16, 16, 16],
        vec![1, 2, 3],
    ];
    assert_equiv(src, "f", 8, &cases);
}

#[test]
fn match_on_scalar_lowers() {
    let src = r#"
        fn pick(x: bit<8>) -> bit<8> {
            match x {
                0 => 100,
                1 => 200,
                _ => 7,
            }
        }
    "#;
    assert_equiv(src, "pick", 8, &[vec![0], vec![1], vec![2], vec![255]]);
}

#[test]
fn calls_become_instances() {
    let src = r#"
        fn inc(x: bit<8>) -> bit<8> { x + 1 }
        fn inc2(x: bit<8>) -> bit<8> { inc(inc(x)) }
    "#;
    assert_equiv(src, "inc2", 8, &[vec![0], vec![254], vec![255], vec![40]]);
    let text = emit(&compile(src));
    assert!(text.contains("inc u"), "should instantiate inc: {}", text);
}

#[test]
fn non_synthesizable_is_skipped_not_lowered() {
    let src = r#"
        fn pure_add(a: bit<8>, b: bit<8>) -> bit<8> { a + b }
        fn uses_machine_int(a: u32) -> u32 { a + 1 }
    "#;
    let result = lower(&compile(src));
    assert!(result.design.modules.iter().any(|m| m.name == "pure_add"));
    assert!(result.skipped.iter().any(|(n, _)| n == "uses_machine_int"));
}

#[test]
fn signed_machine_int_not_lowered() {
    // Sanity: `i32` width helper rejects machine integers.
    assert!(ty_width(&Type::Int(IntTy { signed: true, width: 32 })).is_err());
    assert_eq!(ty_width(&Type::Bit(12)).unwrap(), 12);
    assert_eq!(ty_width(&Type::Bool).unwrap(), 1);
}
