//! What an interpreter remembers from one call to the next, and what it does not.

use rune::interp::{Interpreter, Value};
use rune::ir::{IntTy, Module};
use rune::lexer::{lex, Tok};
use rune::loader::{rune_modules, std_candidates, Source};
use rune::parser::parse;
use rune::repl::{Outcome, Session};
use rune::Stage;

fn module(src: &str) -> Module {
    rune::compile(src).expect("compiles")
}

fn u32_of(n: i128) -> Value {
    Value::Int(n, IntTy { signed: false, width: 32 })
}

#[test]
fn each_run_gives_its_own_lines() {
    let mut it = Interpreter::new(module("fn main() { print(7); }"));
    assert_eq!(it.run_main().expect("runs"), vec!["7"]);
    assert_eq!(it.run_main().expect("runs"), vec!["7"]);
    assert_eq!(it.output().len(), 2);
}

#[test]
fn constants_are_evaluated_once() {
    let src = "const C: u32 = { print(1); 3 }; fn f() -> u32 { C + C }";
    let mut it = Interpreter::new(module(src));
    assert_eq!(it.eval_const("C").expect("evaluates"), u32_of(3));
    assert_eq!(it.eval_const("C").expect("evaluates"), u32_of(3));
    assert_eq!(it.call("f", Vec::new()).expect("runs"), u32_of(6));
    assert_eq!(it.output().len(), 1);
    assert_eq!(it.eval_const("D").unwrap_err().stage, Stage::Runtime);
}

#[test]
fn a_changed_module_starts_afresh() {
    let mut it = Interpreter::new(module("const C: u32 = { print(1); 3 }; fn f() -> u32 { C }"));
    assert_eq!(it.call("f", Vec::new()).expect("runs"), u32_of(3));
    it.set_module(module("const C: u32 = { print(2); 4 }; fn f() -> u32 { C }"));
    assert_eq!(it.output().len(), 1);
    assert_eq!(it.call("f", Vec::new()).expect("runs"), u32_of(4));
    assert_eq!(it.take_output(), vec!["1", "2"]);
}

#[test]
fn an_initialiser_cannot_return() {
    let src = "const C: u32 = { return; 3 }; fn f() -> u32 { C } fn main() { print(f() + 1); }";
    let ds = rune::compile(src).unwrap_err();
    assert_eq!(ds.len(), 1);
    assert_eq!(ds[0].stage, Stage::Type);
    assert_eq!(ds[0].message, "`return` cannot stand in the initialiser of a constant");
}

#[test]
fn wide_bounds_are_not_negative() {
    let src = r#"
        fn main() {
            let half: bit<128> = 170141183460469231731687303715884105727;
            let mut n: u32 = 0;
            for i in half..half + 2 { n = n + 1; print(i); }
            print(n);
        }
    "#;
    let lines = Interpreter::new(module(src)).run_main().expect("runs");
    assert_eq!(
        lines,
        vec![
            "170141183460469231731687303715884105727",
            "170141183460469231731687303715884105728",
            "2"
        ]
    );
    let index = r#"
        fn main() {
            let a = [1, 2];
            let i: bit<128> = 170141183460469231731687303715884105727;
            print(a[i + 1]);
        }
    "#;
    let d = Interpreter::new(module(index)).run_main().unwrap_err();
    assert_eq!(
        d.message,
        "array index 170141183460469231731687303715884105728 out of bounds for length 2"
    );
}

#[test]
fn a_store_changes_one_place() {
    let src = r#"
        struct P { x: u32, t: (u32, u32) }
        fn main() {
            let mut a = [P { x: 1, t: (2, 3) }, P { x: 4, t: (5, 6) }];
            let b = a;
            a[1].t.0 = 9;
            print(a[0].x); print(a[0].t.0); print(a[1].x); print(a[1].t.0); print(a[1].t.1);
            print(b[1].t.0);
        }
    "#;
    let lines = Interpreter::new(module(src)).run_main().expect("runs");
    assert_eq!(lines, vec!["1", "2", "4", "9", "6", "5"]);
}

#[test]
fn every_token_is_its_own_text() {
    let src = "fn f(x: bit<8>) -> bool { /* a */ 0xff <= x // b\n && 0..=1 }";
    let ts = lex(src).expect("lexes");
    let mut end = 0;
    for t in &ts {
        for c in src[end..t.span.start].split_whitespace() {
            assert!(["/*", "a", "*/", "//", "b"].contains(&c));
        }
        end = t.span.end;
        if t.tok != Tok::Eof {
            let own = lex(&src[t.span.start..t.span.end]).expect("lexes");
            assert_eq!(own.len(), 2);
            assert_eq!(own[0].tok, t.tok);
            assert_eq!(own[1].tok, Tok::Eof);
        }
    }
    assert_eq!(end, src.len());
}

#[test]
fn failures_are_of_one_stage_and_lie_in_the_source() {
    for (src, stage) in [
        ("fn f() { $ }", Stage::Lex),
        ("fn f( {", Stage::Parse),
        ("fn f() -> bit<200> { 1 }", Stage::Parse),
        ("fn", Stage::Parse),
        ("fn f() -> u32 { true } fn g() -> bool { 1 }", Stage::Type),
    ] {
        let ds = rune::compile(src).unwrap_err();
        assert!(!ds.is_empty());
        for d in &ds {
            assert_eq!(d.stage, stage);
            assert!(d.span.start <= d.span.end && d.span.end <= src.len());
        }
    }
    let tokens = lex("fn f() {} 1").expect("lexes");
    assert_eq!(parse(&tokens).unwrap_err().span.start, 10);
}

#[test]
fn files_are_loaded_as_a_whole() {
    let mut s = Session::new();
    let text = "fn a() -> u32 { 1 } fn b() -> u32 { c() } fn c() -> u32 { 2 }".to_string();
    assert_eq!(
        s.load_text("t.rune", &Source::Text(text)),
        Outcome::Message("loaded t.rune: a, b, c".to_string())
    );
    assert_eq!(s.definition_names(), vec!["a", "b", "c"]);
    s.eval_line("let n = a() + b();");
    // The file compiles on its own, but not with what the session holds.
    let clash = "fn z() -> u32 { 0 } fn a() -> bool { true }".to_string();
    assert!(matches!(s.load_text("u.rune", &Source::Text(clash)), Outcome::Error(_)));
    assert_eq!(s.definition_names(), vec!["a", "b", "c"]);
    assert_eq!(s.eval_line("n"), Outcome::Value("3".to_string()));
    assert_eq!(
        s.load_text("e.rune", &Source::Text("// nothing".to_string())),
        Outcome::Message("loaded `e.rune` (no items)".to_string())
    );
}

#[test]
fn the_standard_library_is_looked_for_in_order() {
    let files: Vec<String> = ["math.rune", "a.b.rune", ".rune", "notes.txt", "rune"]
        .iter()
        .map(|s| s.to_string())
        .collect();
    assert_eq!(rune_modules(&files), vec!["math", "a.b"]);
    assert_eq!(
        std_candidates(Some("/opt/std".to_string()), Some("src".to_string())),
        vec!["/opt/std", "src/std", "std"]
    );
    assert_eq!(std_candidates(None, Some(String::new())), vec!["std", "std"]);
    assert_eq!(std_candidates(None, None), vec!["std"]);
}

#[test]
fn other_scripts_are_read_as_such() {
    let mut s = Session::new();
    // A no-break space is whitespace, and a letter beyond ASCII belongs to a word.
    assert_eq!(s.eval_line("\u{a0}1 + 2\u{2003}"), Outcome::Value("3".to_string()));
    assert!(matches!(s.eval_line("fn\u{e9} = 1"), Outcome::Error(_)));
}

#[test]
fn what_a_unit_function_leaves_is_in_range() {
    let mut it = Interpreter::new(module("fn f() { let x: u8 = 250; x + 10 }"));
    let left = it.call("f", vec![]).expect("runs");
    assert_eq!(left, Value::Int(4, IntTy { signed: false, width: 8 }));
    let mut it = Interpreter::new(module("fn f() { let x: bit<4> = 15; (x + 2, [x]) }"));
    let left = it.call("f", vec![]).expect("runs");
    assert_eq!(
        left,
        Value::Tuple(vec![Value::Bit(1, 4), Value::Array(vec![Value::Bit(15, 4)])])
    );
}

#[test]
fn lines_and_columns_begin_at_one() {
    let at: (usize, usize) = rune::span::line_col("ab\ncd", 4);
    assert_eq!(at, (2, 2));
    assert_eq!(rune::span::line_col("ab\ncd", 0), (1, 1));
    assert_eq!(rune::span::line_col("\u{e9}x", 2), (1, 2));
}
