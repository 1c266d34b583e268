//! The typechecker.

use rune::ir::{self, IntTy, Type};
use rune::lexer::lex;
use rune::parser::parse;
use rune::typeck::check;
use rune::Diagnostic;

fn ck(src: &str) -> Result<ir::Module, Vec<Diagnostic>> {
    check(&parse(&lex(src).unwrap()).unwrap())
}

fn err_msg(src: &str) -> String {
    ck(src).unwrap_err().remove(0).message
}

#[test]
fn milestone_typechecks() {
    let src = r#"
        fn add8(a: bit<8>, b: bit<8>) -> bit<8> { a + b }
        enum Shape { Circle(u32), Rect(u32, u32) }
        fn area(s: Shape) -> u32 {
            match s {
                Circle(r)  => 3 * r * r,
                Rect(w, h) => w * h,
            }
        }
        fn main() {
            print(add8(200, 100));
            print(area(Rect(3, 4)));
            print(area(Circle(2)));
        }
    "#;
    let m = ck(src).unwrap();
    assert_eq!(m.funcs.len(), 3);
    assert_eq!(m.funcs.get("add8").unwrap().ret, Type::Bit(8));
}

#[test]
fn literal_out_of_range_for_bit() {
    let msg = err_msg("fn f() -> bit<8> { 300 }");
    assert!(msg.contains("does not fit"), "{}", msg);
}

#[test]
fn mismatched_int_widths_error() {
    let msg = err_msg("fn f(a: u8, b: u32) -> u8 { a + b }");
    assert!(msg.contains("mismatched"), "{}", msg);
}

#[test]
fn non_exhaustive_match_errors() {
    let src = r#"
        enum E { A, B }
        fn f(e: E) -> u8 { match e { A => 1 } }
    "#;
    let msg = err_msg(src);
    assert!(msg.contains("non-exhaustive"), "{}", msg);
}

#[test]
fn exhaustive_with_wildcard_ok() {
    let src = r#"
        enum E { A, B, C }
        fn f(e: E) -> u8 { match e { A => 1, _ => 0 } }
    "#;
    assert!(ck(src).is_ok());
}

#[test]
fn assign_immutable_errors() {
    let msg = err_msg("fn f() -> u8 { let x = 1; x = 2; x }");
    assert!(msg.contains("immutable"), "{}", msg);
}

#[test]
fn unknown_type_errors() {
    let msg = err_msg("fn f(x: Nope) -> u8 { 0 }");
    assert!(msg.contains("unknown type"), "{}", msg);
}

#[test]
fn condition_must_be_bool() {
    let msg = err_msg("fn f() -> u8 { if 1 { 2 } else { 3 } }");
    assert!(msg.contains("if condition"), "{}", msg);
}

#[test]
fn literal_inference_through_struct_and_let() {
    let src = r#"
        struct P { x: u16, y: u16 }
        fn f() -> u16 { let p = P { x: 1, y: 2 }; p.x + p.y }
    "#;
    let m = ck(src).unwrap();
    assert_eq!(m.funcs.get("f").unwrap().ret, Type::Int(IntTy { signed: false, width: 16 }));
}

#[test]
fn for_loop_and_array_typecheck() {
    let src = r#"
        fn sum() -> u32 {
            let a: [u32; 3] = [10, 20, 30];
            let mut s: u32 = 0;
            for i in 0..3 { s = s + a[i]; }
            s
        }
    "#;
    assert!(ck(src).is_ok());
}

#[test]
fn items_stand_in_any_order() {
    let tokens = lex(
        "const N: i32 = 3; struct P { x: i32 } fn f(p: P) -> i32 { g() + p.x }
mod m { fn h() -> i32 { 1 } } enum E { A, B(P) } fn g() -> i32 { N + m::h() }",
    )
    .expect("lexes");
    let mut program = parse(&tokens).expect("parses");
    let first = format!("{:?}", check(&program).expect("checks"));
    program.items.rotate_left(2);
    assert_eq!(format!("{:?}", check(&program).expect("checks")), first);
    program.items.reverse();
    assert_eq!(format!("{:?}", check(&program).expect("checks")), first);
    program.items.swap(0, 3);
    assert_eq!(format!("{:?}", check(&program).expect("checks")), first);
}

/// Check the items in source order and the other way round.
fn both_ways(src: &str) -> (Result<ir::Module, Vec<Diagnostic>>, Result<ir::Module, Vec<Diagnostic>>) {
    let mut program = parse(&lex(src).expect("lexes")).expect("parses");
    let first = check(&program);
    program.items.reverse();
    (first, check(&program))
}

#[test]
fn names_of_variants_do_not_depend_on_the_order() {
    for src in [
        "enum E { A } mod E { enum X { A } }",
        "mod E { enum X { A } fn f() -> X { A } } enum E { A } fn g() -> E { A }",
        "enum E { A, B } fn g() -> E { E::B }",
    ] {
        let (a, b) = both_ways(src);
        assert_eq!(format!("{:?}", a.expect("checks")), format!("{:?}", b.expect("checks")));
    }
    let (a, b) = both_ways("enum E { A } enum F { A }");
    assert!(a.unwrap_err()[0].message.starts_with("variant name `A` already used"));
    assert!(b.unwrap_err()[0].message.starts_with("variant name `A` already used"));
}

#[test]
fn imports_do_not_depend_on_the_order() {
    let src = "use a::f; use b::f; use c::*; mod a { fn f() -> i32 { 1 } }
mod b { fn f() -> i32 { 2 } } mod c { fn f() -> i32 { 3 } } fn g() -> i32 { f() }";
    let (a, b) = both_ways(src);
    let (a, b) = (format!("{:?}", a.expect("checks")), format!("{:?}", b.expect("checks")));
    assert_eq!(a, b);
    // A name that is imported by itself goes before one of a whole module.
    let (a, b) = both_ways("use c::*; use a::f; mod a { fn f() -> i32 { 1 } }
mod c { fn f() -> bool { true } } fn g() -> i32 { f() }");
    assert!(a.is_ok() && b.is_ok());
}

#[test]
fn the_only_variant_always_matches() {
    let enums = "enum O { W(i32) } enum E { A(O), B }";
    assert!(ck(&format!("{} fn f(e: E) -> i32 {{ match e {{ A(W(x)) => x, B => 0 }} }}", enums))
        .is_ok());
    assert!(ck(&format!("{} fn f(t: (O, i32)) -> i32 {{ match t {{ (W(x), y) => x + y }} }}", enums))
        .is_ok());
    let two = "enum O { W(i32), V } enum E { A(O), B }";
    assert!(ck(&format!("{} fn f(e: E) -> i32 {{ match e {{ A(W(x)) => x, B => 0 }} }}", two))
        .is_err());
}
