//! Designs against the interpreter: agreement, totality, and what is skipped.

use rune::interp::{Interpreter, Value};
use rune::ir::Module;
use rune::verilog::{eval, lower, module_name, sanitize, Item, LowerResult};

fn module(src: &str) -> Module {
    rune::compile(src).expect("compiles")
}

fn reason(r: &LowerResult, name: &str) -> String {
    for (n, why) in &r.skipped {
        if n == name {
            return why.clone();
        }
    }
    panic!("`{}` was not skipped", name)
}

fn drive(names: &[&str], values: &[u128]) -> Vec<(String, u128)> {
    names.iter().map(|n| n.to_string()).zip(values.iter().copied()).collect()
}

const NESTED: &str = r#"
    fn inc(x: bit<8>) -> bit<8> { x + 1 }
    fn twice(x: bit<8>) -> bit<8> { inc(inc(x)) }
    fn pick(op: bit<2>, a: bit<8>, b: bit<8>) -> bit<8> {
        let s = twice(a) + b;
        match op { 0 => s, 1 => a / b, 2 => a << b, _ => if a < b { b } else { !a } }
    }
"#;

#[test]
fn netlists_agree_with_the_interpreter_through_calls() {
    let m = module(NESTED);
    let design = lower(&m).design;
    assert_eq!(design.modules.len(), 3);
    for op in 0..4u128 {
        for (a, b) in [(200u128, 100u128), (255, 1), (3, 250), (7, 7)] {
            let args = vec![Value::Bit(op, 2), Value::Bit(a, 8), Value::Bit(b, 8)];
            let want = match Interpreter::new(m.clone()).call("pick", args).expect("runs") {
                Value::Bit(x, 8) => x,
                other => panic!("unexpected {:?}", other),
            };
            let inputs = drive(&["op", "a", "b"], &[op, a, b]);
            assert_eq!(eval(&design, "pick", &inputs).expect("evaluates"), want);
        }
    }
}

#[test]
fn netlists_are_total() {
    let m = module(NESTED);
    let design = lower(&m).design;
    // The interpreter traps on a division by zero; the hardware drives a value.
    let args = vec![Value::Bit(1, 2), Value::Bit(9, 8), Value::Bit(0, 8)];
    assert!(Interpreter::new(m.clone()).call("pick", args).is_err());
    let inputs = drive(&["op", "a", "b"], &[1, 9, 0]);
    assert_eq!(eval(&design, "pick", &inputs).expect("evaluates"), 0);
    // An input that is not driven gives nothing, and neither does an unknown module.
    assert!(eval(&design, "pick", &drive(&["op", "a"], &[1, 9])).is_none());
    assert!(eval(&design, "nothing", &inputs).is_none());
}

#[test]
fn shift_amounts_of_any_width_agree() {
    let src = r#"
        fn a(x: bit<5>, n: bit<8>) -> bit<5> { x << n }
        fn b(x: bit<5>, n: bit<2>) -> bit<5> { x >> n }
        fn c(x: bit<16>, n: bit<3>) -> bit<16> { x << n }
    "#;
    let m = module(src);
    let design = lower(&m).design;
    for (f, xw, nw) in [("a", 5u32, 8u32), ("b", 5, 2), ("c", 16, 3)] {
        for x in [1u128, 19, 31] {
            for n in 0..(1u128 << nw) {
                let args = vec![Value::Bit(x, xw), Value::Bit(n, nw)];
                let want = match Interpreter::new(m.clone()).call(f, args).expect("runs") {
                    Value::Bit(v, _) => v,
                    other => panic!("unexpected {:?}", other),
                };
                assert_eq!(eval(&design, f, &drive(&["x", "n"], &[x, n])).expect("evaluates"), want);
            }
        }
    }
}

#[test]
fn every_function_is_lowered_or_skipped() {
    let src = r#"
        fn ok(x: bit<8>) -> bit<8> { x ^ 1 }
        fn loud(x: bit<8>) -> bit<8> { print(x); x }
        fn machine(x: u8) -> u8 { x }
        fn loops(x: bit<8>) -> bit<8> { let mut y = x; while y > 3 { y = y - 1; } y }
    "#;
    let m = module(src);
    let r = lower(&m);
    assert_eq!(r.design.modules.len() + r.skipped.len(), 4);
    assert_eq!(r.design.modules.len(), 1);
    assert_eq!(r.design.modules[0].name, "ok");
    for name in ["loud", "machine", "loops"] {
        assert!(!reason(&r, name).is_empty());
    }
}

#[test]
fn clashing_module_names_are_told_apart() {
    let src = r#"
        mod a { fn f(x: bit<8>) -> bit<8> { x } }
        fn a__f(x: bit<8>) -> bit<8> { x + 1 }
        fn g(x: bit<8>) -> bit<8> { a::f(x) ^ a__f(x) }
    "#;
    assert_eq!(sanitize("a::f"), "a__f");
    let m = module(src);
    let r = lower(&m);
    assert_eq!(r.design.modules.len(), 3);
    assert!(r.skipped.is_empty());
    // The function that has the identifier for its name keeps it.
    assert_eq!(module_name(&m, "a__f"), "a__f");
    let other = module_name(&m, "a::f");
    assert_eq!(other, "a__f____0");
    let inputs = drive(&["x"], &[6]);
    assert_eq!(eval(&r.design, "a__f", &inputs), Some(7));
    assert_eq!(eval(&r.design, &other, &inputs), Some(6));
    assert_eq!(eval(&r.design, "g", &inputs), Some(6 ^ 7));
}

#[test]
fn statements_with_effects_are_refused() {
    let src = r#"
        const D: bit<8> = 4;
        fn early(x: bit<8>) -> bit<8> { if x == 0 { return 9; } x }
        fn last(x: bit<8>) -> bit<8> { return x; x }
        fn inner(x: bit<8>) -> bit<8> { let y: bit<8> = { return x; 1 }; y }
        fn sets(x: bit<8>) -> bit<8> { { let mut y: bit<8> = x; y = y + 1; y }; x }
        fn reads(x: bit<8>) -> bit<8> { D; x }
        fn pure(x: bit<8>) -> bit<8> { x + 1; x }
    "#;
    let r = lower(&module(src));
    let effects = "codegen unsupported: a statement with effects is not yet supported";
    assert_eq!(reason(&r, "sets"), effects);
    let returns = "codegen unsupported: `return` is not yet supported by codegen";
    assert_eq!(reason(&r, "early"), returns);
    assert_eq!(reason(&r, "last"), returns);
    assert_eq!(reason(&r, "inner"), returns);
    let names: Vec<&str> = r.design.modules.iter().map(|m| m.name.as_str()).collect();
    assert_eq!(names, vec!["pure", "reads"]);
}

#[test]
fn generated_names_avoid_the_parameters() {
    let src = r#"
        fn f(w0: bit<8>) -> bit<8> { (w0 + 1) ^ w0 }
        fn h(call0: bit<8>, u1: bit<8>) -> bit<8> { f(call0) + u1 }
        fn g(out: bit<8>) -> bit<8> { out }
    "#;
    let m = module(src);
    let r = lower(&m);
    assert_eq!(eval(&r.design, "f", &drive(&["w0"], &[0])), Some(1));
    assert_eq!(eval(&r.design, "h", &drive(&["call0", "u1"], &[3, 5])), Some((4 ^ 3) + 5));
    assert_eq!(
        reason(&r, "g"),
        "codegen unsupported: a parameter named `out` collides with the output port"
    );
    let f = r.design.modules.iter().find(|x| x.name == "f").unwrap();
    assert!(f.to_text().contains("w__0"));
    // Where nothing is hidden, the names are short.
    let plain = lower(&module("fn f(a: bit<8>) -> bit<8> { (a + 1) ^ a }"));
    assert!(plain.design.modules[0].to_text().contains("w0"));
}

#[test]
fn instances_fit_their_modules() {
    let r = lower(&module(NESTED));
    let mut seen = 0;
    for m in &r.design.modules {
        for item in &m.items {
            if let Item::Instance { module, conns, out_width, .. } = item {
                let to = r.design.modules.iter().find(|x| x.name == *module).unwrap();
                let inputs: Vec<&String> = conns.iter().map(|(n, _)| n).collect();
                let ports: Vec<&String> = to.ports.iter().map(|p| &p.name).collect();
                assert_eq!(inputs[..], ports[..ports.len() - 1]);
                assert_eq!(*out_width, to.ports.last().unwrap().width);
                seen += 1;
            }
        }
    }
    assert_eq!(seen, 3);
}

#[test]
fn a_pattern_is_refused_for_itself() {
    // The `x` of the arms is the matched value, not the parameter of another type.
    let src = r#"
        fn either(x: bool, n: bit<8>) -> bit<8> { match n { x | x => x + 1, } }
        fn guarded(n: bit<8>) -> bit<8> { match n { x if x < 4 => x, _ => 0 } }
        fn span(n: bit<8>) -> bit<8> { match n { 0..=3 => 1, _ => 0 } }
    "#;
    let r = lower(&module(src));
    let pattern = "codegen unsupported: this pattern is not yet supported by codegen";
    assert_eq!(reason(&r, "either"), pattern);
    assert_eq!(reason(&r, "span"), pattern);
    assert_eq!(
        reason(&r, "guarded"),
        "codegen unsupported: match guards are not yet supported by codegen"
    );
}
