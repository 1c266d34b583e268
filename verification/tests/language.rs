//! What the language promises of single constructs, on concrete values.

use rune::compile;
use rune::interp::{Interpreter, Value};
use rune::ir::IntTy;
use rune::lexer::lex;
use rune::token::Tok;
use rune::Stage;

fn call(src: &str, name: &str, args: Vec<Value>) -> Value {
    Interpreter::new(compile(src).expect("compiles")).call(name, args).expect("runs")
}

fn trap(src: &str, name: &str, args: Vec<Value>) -> String {
    let d = Interpreter::new(compile(src).expect("compiles")).call(name, args).unwrap_err();
    assert_eq!(d.stage, Stage::Runtime);
    d.message
}

fn type_error(src: &str) -> String {
    let ds = compile(src).unwrap_err();
    ds[0].message.clone()
}

fn i8t() -> IntTy {
    IntTy { signed: true, width: 8 }
}

fn u8t() -> IntTy {
    IntTy { signed: false, width: 8 }
}

#[test]
fn integer_arithmetic_wraps() {
    let src = "fn f(a: i8, b: i8) -> i8 { a + b } fn g(a: u8, b: u8) -> u8 { a - b } fn h(a: u8, b: u8) -> u8 { a * b }";
    assert_eq!(
        call(src, "f", vec![Value::Int(100, i8t()), Value::Int(100, i8t())]),
        Value::Int(-56, i8t())
    );
    assert_eq!(
        call(src, "g", vec![Value::Int(1, u8t()), Value::Int(2, u8t())]),
        Value::Int(255, u8t())
    );
    assert_eq!(
        call(src, "h", vec![Value::Int(20, u8t()), Value::Int(13, u8t())]),
        Value::Int(4, u8t())
    );
}

#[test]
fn bit_arithmetic_wraps() {
    let src = "fn f(a: bit<5>, b: bit<5>) -> bit<5> { a * b + 1 }";
    assert_eq!(call(src, "f", vec![Value::Bit(7, 5), Value::Bit(9, 5)]), Value::Bit(0, 5));
}

#[test]
fn signed_division_truncates() {
    let src = "fn q(a: i8, b: i8) -> i8 { a / b } fn r(a: i8, b: i8) -> i8 { a % b }";
    let args = || vec![Value::Int(-7, i8t()), Value::Int(2, i8t())];
    assert_eq!(call(src, "q", args()), Value::Int(-3, i8t()));
    assert_eq!(call(src, "r", args()), Value::Int(-1, i8t()));
    assert_eq!(
        call(src, "q", vec![Value::Int(-128, i8t()), Value::Int(-1, i8t())]),
        Value::Int(-128, i8t())
    );
}

#[test]
fn shifts_are_total_and_reduce_the_amount() {
    let src = "fn l(a: bit<8>, n: bit<8>) -> bit<8> { a << n } fn r(a: bit<8>, n: bit<8>) -> bit<8> { a >> n }";
    assert_eq!(call(src, "l", vec![Value::Bit(3, 8), Value::Bit(9, 8)]), Value::Bit(6, 8));
    assert_eq!(call(src, "l", vec![Value::Bit(3, 8), Value::Bit(8, 8)]), Value::Bit(3, 8));
    assert_eq!(call(src, "r", vec![Value::Bit(0x80, 8), Value::Bit(255, 8)]), Value::Bit(1, 8));
    let odd = "fn l(a: bit<5>, n: bit<8>) -> bit<5> { a << n }";
    assert_eq!(call(odd, "l", vec![Value::Bit(1, 5), Value::Bit(7, 8)]), Value::Bit(4, 5));
}

#[test]
fn zero_divisors_trap() {
    let src = "fn q(a: i8, b: i8) -> i8 { a / b } fn r(a: bit<8>, b: bit<8>) -> bit<8> { a % b }";
    assert_eq!(
        trap(src, "q", vec![Value::Int(1, i8t()), Value::Int(0, i8t())]),
        "division by zero"
    );
    assert_eq!(trap(src, "r", vec![Value::Bit(1, 8), Value::Bit(0, 8)]), "remainder by zero");
}

#[test]
fn indexing_is_checked() {
    let src = "fn at(i: i8) -> i8 { let xs: [i8; 3] = [10, 20, 30]; xs[i] }";
    assert_eq!(call(src, "at", vec![Value::Int(2, i8t())]), Value::Int(30, i8t()));
    assert_eq!(
        trap(src, "at", vec![Value::Int(3, i8t())]),
        "array index 3 out of bounds for length 3"
    );
    assert_eq!(
        trap(src, "at", vec![Value::Int(-1, i8t())]),
        "array index -1 out of bounds for length 3"
    );
}

#[test]
fn assignment_sets_one_variable() {
    let src = "fn f() -> i8 { let mut a: i8 = 1; let b: i8 = a; a = 5; a * 10 + b }";
    assert_eq!(call(src, "f", vec![]), Value::Int(51, i8t()));
}

#[test]
fn values_are_copied() {
    let src = r#"
        struct P { x: i8 }
        fn bump(p: P) -> i8 { let mut q: P = p; q.x = q.x + 1; q.x }
        fn f() -> i8 { let p: P = P { x: 1 }; bump(p) * 10 + p.x }
    "#;
    assert_eq!(call(src, "f", vec![]), Value::Int(21, i8t()));
}

#[test]
fn calls_keep_the_variables_of_the_caller() {
    let src = r#"
        fn g(x: i8) -> i8 { let mut y: i8 = x; y = y + 1; y }
        fn f() -> i8 { let y: i8 = 3; let z: i8 = g(y); y * 10 + z }
    "#;
    assert_eq!(call(src, "f", vec![]), Value::Int(34, i8t()));
}

#[test]
fn deep_recursion_gives_the_same_value() {
    let src = "fn sum(n: i32) -> i32 { if n == 0 { 0 } else { n + sum(n - 1) } }";
    let i32t = IntTy { signed: true, width: 32 };
    assert_eq!(call(src, "sum", vec![Value::Int(60, i32t)]), Value::Int(1830, i32t));
}

#[test]
fn literals_must_fit() {
    assert_eq!(
        type_error("fn f() -> u8 { 256 }"),
        "integer literal `256` does not fit in `u8`"
    );
    assert!(compile("fn f() -> u8 { 255 }").is_ok());
}

#[test]
fn there_are_no_implicit_conversions() {
    assert_eq!(
        type_error("fn f(a: u8, b: u32) -> bool { a == b }"),
        "mismatched types: `u8` and `u32`"
    );
    assert!(type_error("fn f(a: bit<8>, b: u8) -> bool { a < b }").contains("mismatched types"));
}

#[test]
fn widths_are_limited() {
    for src in ["fn f(a: bit<0>) {}", "fn f(a: bit<129>) {}"] {
        assert_eq!(type_error(src), "bit<N> width must be in 1..=128");
    }
    assert!(compile("fn f(a: bit<1>, b: bit<128>) {}").is_ok());
}

#[test]
fn tokens_are_spelled() {
    let ts = lex("x i8 i16 i32 i64 u8 u16 u32 u64 i128").expect("lexes");
    let widths: Vec<u32> = ts
        .iter()
        .filter_map(|t| match t.tok {
            Tok::IntTy(_, w) => Some(w),
            _ => None,
        })
        .collect();
    assert_eq!(widths, vec![8, 16, 32, 64, 8, 16, 32, 64]);
    assert!(matches!(&ts[0].tok, Tok::Ident(n) if n == "x"));
    assert!(matches!(&ts[9].tok, Tok::Ident(n) if n == "i128"));
}

#[test]
fn covering_arms_always_match() {
    let src = r#"
        enum E { A, B(i8), C(bool) }
        fn f(n: i8) -> i8 {
            let e: E = if n == 0 { A } else { if n == 1 { B(5) } else { C(n == 2) } };
            match e {
                B(x) if x > 100 => 1,
                A | C(_) => 2,
                B(x) => x,
            }
        }
        fn g(b: bool) -> i8 { match b { false => 0, true => 1 } }
        fn h(n: i8) -> i8 { match n { 0..=9 => 1, -3 => 2, _ => 3 } }
    "#;
    for (n, want) in [(0, 2), (1, 5), (2, 2), (3, 2)] {
        assert_eq!(call(src, "f", vec![Value::Int(n, i8t())]), Value::Int(want, i8t()));
    }
    assert_eq!(call(src, "g", vec![Value::Bool(true)]), Value::Int(1, i8t()));
    for (n, want) in [(0, 1), (9, 1), (10, 3), (-3, 2)] {
        assert_eq!(call(src, "h", vec![Value::Int(n, i8t())]), Value::Int(want, i8t()));
    }
}

#[test]
fn uncovered_matches_are_refused() {
    assert_eq!(
        type_error("enum E { A, B } fn f(e: E) -> i8 { match e { A => 1 } }"),
        "non-exhaustive match on `E`: variant(s) B not covered"
    );
    assert_eq!(
        type_error("fn f(b: bool) -> i8 { match b { true => 1 } }"),
        "non-exhaustive match on `bool`: add the missing case or a `_` arm"
    );
    assert_eq!(
        type_error("fn f(n: i8) -> i8 { match n { 1 => 1 } }"),
        "non-exhaustive match on `i8`: add a `_` (wildcard) arm"
    );
}

#[test]
fn an_uppercase_name_in_a_pattern_is_a_variant() {
    // A lowercase name binds; an uppercase one has to be a variant.
    assert!(compile("fn f(n: i8) -> i8 { match n { other => other } }").is_ok());
    assert!(compile("fn f(n: i8) -> i8 { match n { Other => 1 } }").is_err());
}
