//! Emitted text, and sweeps of the netlist against the interpreter.

use rune::interp::{Interpreter, Value};
use rune::verilog;

fn compile(src: &str) -> rune::ir::Module {
    rune::compile(src).expect("typechecks")
}

fn mask(width: u32) -> u128 {
    if width >= 128 {
        u128::MAX
    } else {
        (1u128 << width) - 1
    }
}

const ADD8: &str = "\
// Generated by the Rune Verilog backend (synthesizable subset only).
// Semantics match the Rune interpreter bit-for-bit.

module add8 (
    input [7:0] a,
    input [7:0] b,
    output [7:0] out
);
    wire [7:0] w0 = (a + b);
    assign out = w0;
endmodule
";

const ALU: &str = "\
// Generated by the Rune Verilog backend (synthesizable subset only).
// Semantics match the Rune interpreter bit-for-bit.

module alu (
    input [1:0] op,
    input [7:0] a,
    input [7:0] b,
    output [7:0] out
);
    wire [7:0] w0 = (a ^ b);
    wire [7:0] w1 = (a & b);
    wire w2 = (op == 2'd2);
    wire [7:0] w3 = (w2 ? w1 : w0);
    wire [7:0] w4 = (a - b);
    wire w5 = (op == 2'd1);
    wire [7:0] w6 = (w5 ? w4 : w3);
    wire [7:0] w7 = (a + b);
    wire w8 = (op == 2'd0);
    wire [7:0] w9 = (w8 ? w7 : w6);
    assign out = w9;
endmodule
";

const SKIPS: &str = "\
// Generated by the Rune Verilog backend (synthesizable subset only).
// Semantics match the Rune interpreter bit-for-bit.

// skipped `impure`: parameter `a` has type `u32`, which contains non-hardware (machine-integer) types; returns non-hardware type `u32`

module pure (
    input [7:0] a,
    output [7:0] out
);
    wire [7:0] w0 = (a + 8'd1);
    assign out = w0;
endmodule
";

// ---------------------------------------------------------------- golden text

#[test]
fn golden_add8() {
    let src = "fn add8(a: bit<8>, b: bit<8>) -> bit<8> { a + b }";
    assert_eq!(verilog::emit(&compile(src)), ADD8);
}

#[test]
fn golden_combinational_mux() {
    // A small combinational function exercising compare, if-expr, and bitops.
    let src = r#"
        fn alu(op: bit<2>, a: bit<8>, b: bit<8>) -> bit<8> {
            match op {
                0 => a + b,
                1 => a - b,
                2 => a & b,
                _ => a ^ b,
            }
        }
    "#;
    assert_eq!(verilog::emit(&compile(src)), ALU);
}

#[test]
fn golden_skips_non_synthesizable() {
    // The header lists skipped functions with reasons; only `pure` becomes a module.
    let src = r#"
        fn pure(a: bit<8>) -> bit<8> { a + 1 }
        fn impure(a: u32) -> u32 { a + 1 }
    "#;
    assert_eq!(verilog::emit(&compile(src)), SKIPS);
}

// ----------------------------------------------------- randomized equivalence

/// Tiny deterministic LCG so the sweep is reproducible without an rng crate.
struct Lcg(u64);
impl Lcg {
    fn next(&mut self) -> u64 {
        self.0 = self.0.wrapping_mul(6364136223846793005).wrapping_add(1442695040888963407);
        self.0 >> 16
    }
}

/// For every input vector, assert the lowered netlist equals the interpreter.
fn sweep(src: &str, func: &str, in_widths: &[u32], out_width: u32, vectors: &[Vec<u128>]) {
    let module = compile(src);
    let design = verilog::lower(&module).design;
    let vmod = verilog::sanitize(func);
    let ir_func = module.funcs.get(func).unwrap();

    for v in vectors {
        let args: Vec<Value> = v
            .iter()
            .zip(in_widths)
            .map(|(&x, &w)| Value::Bit(x & mask(w), w))
            .collect();
        let mut interp = Interpreter::new(module.clone());
        let expected = match interp.call(func, args).expect("interp runs") {
            Value::Bit(x, _) => x,
            Value::Bool(b) => b as u128,
            other => panic!("unexpected value {:?}", other),
        };

        let mut inputs: Vec<(String, u128)> = Vec::new();
        for (p, (&x, &w)) in ir_func.params.iter().zip(v.iter().zip(in_widths)) {
            inputs.push((p.name.clone(), x & mask(w)));
        }
        let actual = verilog::eval(&design, &vmod, &inputs).expect("eval netlist") & mask(out_width);
        assert_eq!(
            actual, expected,
            "mismatch {}({:?}): netlist {} vs interp {}",
            func, v, actual, expected
        );
    }
}

#[test]
fn sweep_arithmetic_wraps() {
    let src = "fn f(a: bit<8>, b: bit<8>, c: bit<8>) -> bit<8> { (a + b) * c - 1 }";
    let mut rng = Lcg(0xC0FFEE);
    let mut vecs = Vec::new();
    for _ in 0..400 {
        vecs.push(vec![
            (rng.next() as u128) & 0xFF,
            (rng.next() as u128) & 0xFF,
            (rng.next() as u128) & 0xFF,
        ]);
    }
    // Edge cases.
    vecs.push(vec![255, 255, 255]);
    vecs.push(vec![0, 0, 0]);
    sweep(src, "f", &[8, 8, 8], 8, &vecs);
}

#[test]
fn sweep_shifts_and_compare() {
    let src = r#"
        fn g(x: bit<16>, n: bit<16>) -> bit<16> {
            let s: bit<16> = x << n;
            if s > x { s } else { x >> n }
        }
    "#;
    let mut rng = Lcg(0x1234_5678);
    let mut vecs = Vec::new();
    for _ in 0..400 {
        vecs.push(vec![(rng.next() as u128) & 0xFFFF, (rng.next() as u128) & 0x1F]);
    }
    sweep(src, "g", &[16, 16], 16, &vecs);
}

#[test]
fn sweep_exhaustive_small() {
    // Fully exhaustive over an 8-bit input for a non-trivial function.
    let src = "fn h(x: bit<8>) -> bit<8> { (x ^ (x >> 1)) + 3 }"; // gray-ish
    let vecs: Vec<Vec<u128>> = (0u128..256).map(|x| vec![x]).collect();
    sweep(src, "h", &[8], 8, &vecs);
}
