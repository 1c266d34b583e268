//! Syntax trees of source texts.

use rune::ast::{BinOp, Expr, Item, Program};
use rune::lexer::lex;
use rune::parser::parse;
use rune::{Diagnostic, Stage};

fn parse_src(src: &str) -> Result<Program, Diagnostic> {
    parse(&lex(src).unwrap())
}

#[test]
fn parses_milestone() {
    let src = r#"
        fn add8(a: bit<8>, b: bit<8>) -> bit<8> { a + b }
        enum Shape { Circle(u32), Rect(u32, u32) }
        fn area(s: Shape) -> u32 {
            match s {
                Circle(r)  => 3 * r * r,
                Rect(w, h) => w * h,
            }
        }
        fn main() {
            print(add8(200, 100));
            print(area(Rect(3, 4)));
            print(area(Circle(2)));
        }
    "#;
    let prog = parse_src(src).unwrap();
    assert_eq!(prog.items.len(), 4);
}

#[test]
fn precedence_is_correct() {
    let prog = parse_src("fn f() -> u8 { 1 + 2 * 3 }").unwrap();
    if let Item::Func(f) = &prog.items[0] {
        let tail = f.body.tail.as_ref().unwrap();
        // Should parse as 1 + (2 * 3): top op is Add.
        if let Expr::Binary { op, .. } = tail.as_ref() {
            assert_eq!(*op, BinOp::Add);
        } else {
            panic!("expected binary");
        }
    } else {
        panic!("expected func");
    }
}

#[test]
fn struct_and_field() {
    let prog = parse_src(
        "struct P { x: u32, y: u32 } fn f() -> u32 { let p = P { x: 1, y: 2 }; p.x }",
    )
    .unwrap();
    assert_eq!(prog.items.len(), 2);
}

#[test]
fn for_and_while_and_array() {
    let prog = parse_src(
        "fn f() -> u32 { let mut s = 0; let a = [1, 2, 3]; for i in 0..3 { s = s + a[i]; } while s > 0 { s = s - 1; } s }",
    )
    .unwrap();
    assert_eq!(prog.items.len(), 1);
}

#[test]
fn parse_error_is_structured_not_panic() {
    let err = parse_src("fn f( {").unwrap_err();
    assert_eq!(err.stage, Stage::Parse);
}

#[test]
fn parse_error_on_missing_semi() {
    let err = parse_src("fn f() -> u8 { let x = 1 x }").unwrap_err();
    assert_eq!(err.stage, Stage::Parse);
}
