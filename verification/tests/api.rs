//! The parts of the library that embedders use directly.

use rune::ast::{Expr, Func, Item};
use rune::hotreload::ReloadEngine;
use rune::interp::{Interpreter, Value};
use rune::ir::{IntTy, Module, Type};
use rune::lexer::lex;
use rune::parser::parse;
use rune::typeck::{check, check_func_against};
use rune::verilog::{lower, Dir};

fn module(src: &str) -> Module {
    rune::compile(src).expect("compiles")
}

fn func(src: &str) -> Func {
    let tokens = lex(src).expect("lexes");
    let mut program = parse(&tokens).expect("parses");
    match program.items.remove(0) {
        Item::Func(f) => f,
        other => panic!("unexpected {:?}", other),
    }
}

fn i32t() -> IntTy {
    IntTy { signed: true, width: 32 }
}

#[test]
fn functions_are_checked_against_definitions() {
    let m = module("struct P { x: i32 } enum E { A, B(i32) } fn f(p: P) -> i32 { p.x }");
    let good = func("fn g(e: E) -> i32 { match e { A => 0, B(n) => f(P { x: n }) } }");
    let g = check_func_against(&good, &m.structs, &m.enums, &m.funcs).expect("checks");
    assert_eq!(g.name, "g");
    assert_eq!(g.ret, Type::Int(i32t()));
    let bad = func("fn g() -> i32 { f(1) }");
    let ds = check_func_against(&bad, &m.structs, &m.enums, &m.funcs).unwrap_err();
    assert_eq!(ds.len(), 1);
    assert_eq!(ds[0].message, "expected `P` for argument, found `i32`");
}

#[test]
fn a_function_checks_alone_as_in_its_program() {
    let src = "const N: i32 = 1; mod m { struct P { x: i32 } fn get(p: P) -> i32 { p.x } }
fn f(e: E) -> i32 { match e { A => 0, E::B(n) => m::get(m::P { x: n }) } }
enum E { A, B(i32) }
fn g() -> i32 { N }";
    let m = module(src);
    let tokens = lex(src).expect("lexes");
    let program = parse(&tokens).expect("parses");
    let f = match &program.items[2] {
        Item::Func(f) => f,
        other => panic!("unexpected {:?}", other),
    };
    let alone = check_func_against(f, &m.structs, &m.enums, &m.funcs).expect("checks");
    assert_eq!(format!("{:?}", alone), format!("{:?}", m.funcs.get("f").expect("defined")));
    let g = match &program.items[4] {
        Item::Func(g) => g,
        other => panic!("unexpected {:?}", other),
    };
    let ds = check_func_against(g, &m.structs, &m.enums, &m.funcs).unwrap_err();
    assert_eq!(ds[0].message, "unknown identifier `N`");
}

#[test]
fn a_variant_called_like_another_with_its_enum() {
    let tokens = lex("fn f() -> F { A } enum E { A } enum F { B } fn g() -> E { A }").expect("lexes");
    let mut program = parse(&tokens).expect("parses");
    if let Item::Enum(e) = &mut program.items[2] {
        e.variants[0].name = "E::A".to_string();
    }
    if let Item::Func(f) = &mut program.items[0] {
        f.body.tail = Some(Box::new(Expr::Path {
            segments: vec!["E".to_string(), "A".to_string()],
            span: f.span,
        }));
    }
    let m = check(&program).expect("checks");
    for i in [0, 3] {
        let f = match &program.items[i] {
            Item::Func(f) => f,
            other => panic!("unexpected {:?}", other),
        };
        let alone = check_func_against(f, &m.structs, &m.enums, &m.funcs).expect("checks");
        assert_eq!(format!("{:?}", alone), format!("{:?}", m.funcs.get(&f.name).expect("defined")));
    }
}

#[test]
fn tags_follow_the_order_of_variants() {
    let m = module("enum E { A, B(i32), C }");
    let e = m.enums.get("E").expect("defined");
    assert_eq!(e.variant_tag("A"), Some(0));
    assert_eq!(e.variant_tag("C"), Some(2));
    assert_eq!(e.variant_tag("D"), None);
}

#[test]
fn a_new_module_evaluates_its_constants_anew() {
    let mut interp = Interpreter::new(module("const C: i32 = 1; fn f() -> i32 { C }"));
    assert_eq!(interp.call("f", vec![]).expect("runs"), Value::Int(1, i32t()));
    interp.set_module(module("const C: i32 = 2; fn f() -> i32 { C }"));
    assert_eq!(interp.call("f", vec![]).expect("runs"), Value::Int(2, i32t()));
    assert_eq!(interp.eval_const("C").expect("evaluates"), Value::Int(2, i32t()));
    assert_eq!(
        interp.eval_const("D").unwrap_err().message,
        "reference to unknown const `D`"
    );
}

#[test]
fn live_names_are_sorted() {
    let mut engine = ReloadEngine::new("fn f() -> i32 { 1 }").expect("compiles");
    engine.set_live("b", Value::Bool(true));
    engine.set_live("a", Value::Bool(false));
    assert_eq!(engine.live_names(), vec!["a", "b"]);
    assert!(engine.module().funcs.contains_key("f"));
}

#[test]
fn modules_have_input_ports_and_an_output_port() {
    let design = lower(&module("fn f(a: bit<8>, b: bool) -> bit<3> { 5 }")).design;
    let f = &design.modules[0];
    let names: Vec<&str> = f.input_ports().iter().map(|p| p.name.as_str()).collect();
    assert_eq!(names, vec!["a", "b"]);
    assert_eq!(f.output_port().name, "out");
    assert_eq!(f.output_port().width, 3);
    assert!(f.output_port().dir == Dir::Output);
}

#[test]
fn missing_functions_are_reported() {
    let mut interp = Interpreter::new(module("fn f() {}"));
    assert_eq!(
        interp.call("g", vec![]).unwrap_err().message,
        "call to unknown function `g`"
    );
    assert!(interp.run_main().is_err());
}
