//! The interactive session.

use rune::repl::{split_items, Outcome, Session};

#[test]
fn evaluate_literal_expression() {
    let mut s = Session::new();
    assert_eq!(s.eval_line("1 + 2 * 3"), Outcome::Value("7".to_string()));
}

#[test]
fn define_then_call_function() {
    let mut s = Session::new();
    assert_eq!(
        s.eval_line("fn dbl(x: u32) -> u32 { x * 2 }"),
        Outcome::Defined("dbl".to_string())
    );
    assert_eq!(s.eval_line("dbl(21)"), Outcome::Value("42".to_string()));
}

#[test]
fn persistent_statements() {
    let mut s = Session::new();
    assert_eq!(s.eval_line("let x: u32 = 10;"), Outcome::Empty);
    assert_eq!(s.eval_line("let y: u32 = 32;"), Outcome::Empty);
    assert_eq!(s.eval_line("x + y"), Outcome::Value("42".to_string()));
}

#[test]
fn mutable_statement_persists() {
    let mut s = Session::new();
    assert_eq!(s.eval_line("let mut n: u32 = 1;"), Outcome::Empty);
    assert_eq!(s.eval_line("n = n + 41;"), Outcome::Empty);
    assert_eq!(s.eval_line("n"), Outcome::Value("42".to_string()));
}

#[test]
fn define_enum_and_use_it() {
    let mut s = Session::new();
    assert_eq!(
        s.eval_line("enum Shape { Circle(u32), Rect(u32, u32) }"),
        Outcome::Defined("Shape".to_string())
    );
    assert_eq!(
        s.eval_line("fn area(sh: Shape) -> u32 { match sh { Circle(r) => 3 * r * r, Rect(w, h) => w * h } }"),
        Outcome::Defined("area".to_string())
    );
    assert_eq!(
        s.eval_line("area(Rect(3, 4))"),
        Outcome::Value("12".to_string())
    );
    // The enum value itself prints with its variant name.
    assert_eq!(
        s.eval_line("Rect(3, 4)"),
        Outcome::Value("Rect(3, 4)".to_string())
    );
}

#[test]
fn define_struct_and_use_it() {
    let mut s = Session::new();
    assert_eq!(
        s.eval_line("struct P { x: u32, y: u32 }"),
        Outcome::Defined("P".to_string())
    );
    assert_eq!(s.eval_line("let p = P { x: 11, y: 2 };"), Outcome::Empty);
    assert_eq!(s.eval_line("p.x"), Outcome::Value("11".to_string()));
}

#[test]
fn type_error_is_reported_with_location_and_no_corruption() {
    let mut s = Session::new();
    let out = s.eval_line("true + 1");
    match out {
        Outcome::Error(msg) => {
            assert!(msg.contains("at "), "expected a location in: {}", msg);
        }
        other => panic!("expected Error, got {:?}", other),
    }
    // Session not corrupted: a subsequent valid line still works.
    assert_eq!(s.eval_line("2 + 2"), Outcome::Value("4".to_string()));
}

#[test]
fn bad_statement_rolls_back() {
    let mut s = Session::new();
    assert_eq!(s.eval_line("let x: u32 = 1;"), Outcome::Empty);
    // References an unknown variable -> error, must roll back.
    assert!(matches!(
        s.eval_line("let y: u32 = nope;"),
        Outcome::Error(_)
    ));
    // x is still usable; y was never added.
    assert_eq!(s.eval_line("x + 1"), Outcome::Value("2".to_string()));
}

#[test]
fn redefinition_replaces_previous() {
    let mut s = Session::new();
    assert_eq!(
        s.eval_line("fn f() -> u32 { 1 }"),
        Outcome::Defined("f".to_string())
    );
    assert_eq!(s.eval_line("f()"), Outcome::Value("1".to_string()));
    // Redefining the same name must replace, not error as a duplicate.
    assert_eq!(
        s.eval_line("fn f() -> u32 { 2 }"),
        Outcome::Defined("f".to_string())
    );
    assert_eq!(s.eval_line("f()"), Outcome::Value("2".to_string()));
    assert_eq!(s.definition_names(), vec!["f".to_string()]);
}

#[test]
fn list_and_reset_commands() {
    let mut s = Session::new();
    s.eval_line("fn a() -> u32 { 1 }");
    s.eval_line("struct B { x: u32 }");
    assert_eq!(s.definition_names(), vec!["a".to_string(), "B".to_string()]);
    let listed = match s.eval_line(":list") {
        Outcome::Message(m) => m,
        other => panic!("expected Message, got {:?}", other),
    };
    assert!(listed.contains("a"));
    assert!(listed.contains("B"));

    assert!(matches!(s.eval_line(":reset"), Outcome::Message(_)));
    assert!(s.definition_names().is_empty());
}

#[test]
fn unknown_command_is_friendly_error() {
    let mut s = Session::new();
    match s.eval_line(":frobnicate") {
        Outcome::Error(msg) => assert!(msg.contains("unknown command")),
        other => panic!("expected Error, got {:?}", other),
    }
}

#[test]
fn quit_command() {
    let mut s = Session::new();
    assert_eq!(s.eval_line(":quit"), Outcome::Quit);
    assert_eq!(s.eval_line(":q"), Outcome::Quit);
}

#[test]
fn empty_line_is_empty() {
    let mut s = Session::new();
    assert_eq!(s.eval_line("   "), Outcome::Empty);
}

#[test]
fn expression_that_prints_shows_output() {
    let mut s = Session::new();
    // A unit-typed expression with a side effect (print) runs for effect.
    assert_eq!(
        s.eval_line("print(7)"),
        Outcome::Output(vec!["7".to_string()])
    );
}

#[test]
fn split_items_separates_top_level() {
    let src = "fn a() -> u32 { 1 }\nstruct B { x: u32 }\nenum E { X, Y }";
    let items = split_items(src).unwrap();
    assert_eq!(items.len(), 3);
    assert!(items[0].starts_with("fn a"));
    assert!(items[1].starts_with("struct B"));
    assert!(items[2].starts_with("enum E"));
}
