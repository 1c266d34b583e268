//! Hot reload of a session.

use rune::hotreload::ReloadEngine;
use rune::interp::Value;
use rune::ir::IntTy;

fn u32t() -> IntTy {
    IntTy {
        signed: false,
        width: 32,
    }
}

#[test]
fn behavior_change_preserves_live_state() {
    let mut engine = ReloadEngine::new("fn f() -> u32 { 1 }").unwrap();
    engine.set_live("x", Value::Int(42, u32t()));
    assert_eq!(engine.call("f", vec![]).unwrap(), Value::Int(1, u32t()));

    let report = engine.reload_str("fn f() -> u32 { 2 }");
    assert!(report.applied);
    assert!(report.changed.contains(&"f".to_string()));
    assert!(report.signature_changed.is_empty());
    // Live state survived a behaviour-only change.
    assert_eq!(engine.live("x"), Some(&Value::Int(42, u32t())));
    // New behaviour is in effect.
    assert_eq!(engine.call("f", vec![]).unwrap(), Value::Int(2, u32t()));
}

#[test]
fn signature_change_is_reported_not_crashed() {
    let mut engine = ReloadEngine::new("fn f() -> u32 { 1 }").unwrap();
    let report = engine.reload_str("fn f(a: u32) -> u32 { a }");
    assert!(report.applied);
    assert!(report.signature_changed.contains(&"f".to_string()));
    assert!(report.changed.is_empty());
    // The new arity is callable; no panic.
    assert_eq!(
        engine.call("f", vec![Value::Int(7, u32t())]).unwrap(),
        Value::Int(7, u32t())
    );
}

#[test]
fn type_shape_change_drops_dependent_state() {
    let src = r#"
        struct S { a: u32 }
        fn make() -> S { S { a: 1 } }
    "#;
    let mut engine = ReloadEngine::new(src).unwrap();
    // A live struct value of type S, and a primitive that must survive.
    engine.set_live("s", Value::Struct("S".to_string(), vec![Value::Int(9, u32t())]));
    engine.set_live("p", Value::Int(5, u32t()));

    let new_src = r#"
        struct S { a: u32, b: u32 }
        fn make() -> S { S { a: 1, b: 2 } }
    "#;
    let report = engine.reload_str(new_src);

    assert!(report.applied);
    assert!(report.type_changed.contains(&"S".to_string()));
    assert!(report.dropped_state.contains(&"s".to_string()));
    // Primitive survives.
    assert_eq!(engine.live("p"), Some(&Value::Int(5, u32t())));
    assert_eq!(engine.live("s"), None);
}

#[test]
fn array_of_changed_struct_is_dropped() {
    let src = r#"
        struct S { a: u32 }
        fn make() -> S { S { a: 1 } }
    "#;
    let mut engine = ReloadEngine::new(src).unwrap();
    engine.set_live(
        "arr",
        Value::Array(vec![Value::Struct(
            "S".to_string(),
            vec![Value::Int(1, u32t())],
        )]),
    );
    let new_src = r#"
        struct S { a: u32, b: u32 }
        fn make() -> S { S { a: 1, b: 2 } }
    "#;
    let report = engine.reload_str(new_src);
    assert!(report.dropped_state.contains(&"arr".to_string()));
    assert_eq!(engine.live("arr"), None);
}

#[test]
fn compile_error_is_rejected_and_old_kept() {
    let mut engine = ReloadEngine::new("fn f() -> u32 { 1 }").unwrap();
    engine.set_live("x", Value::Int(42, u32t()));

    // Type error: returning a bool where u32 is expected.
    let report = engine.reload_str("fn f() -> u32 { true }");
    assert!(!report.errors.is_empty());
    assert!(!report.applied);
    // Old module untouched: f still returns 1, live state intact.
    assert_eq!(engine.call("f", vec![]).unwrap(), Value::Int(1, u32t()));
    assert_eq!(engine.live("x"), Some(&Value::Int(42, u32t())));
}

#[test]
fn syntax_error_is_rejected() {
    let mut engine = ReloadEngine::new("fn f() -> u32 { 1 }").unwrap();
    let report = engine.reload_str("fn f( {{{ this is not rune");
    assert!(!report.errors.is_empty());
    assert!(!report.applied);
    assert_eq!(engine.call("f", vec![]).unwrap(), Value::Int(1, u32t()));
}

#[test]
fn added_and_removed_functions_are_reported() {
    let mut engine = ReloadEngine::new("fn f() -> u32 { 1 }").unwrap();
    let report = engine.reload_str("fn g() -> u32 { 2 }");
    assert!(report.added.contains(&"g".to_string()));
    assert!(report.removed.contains(&"f".to_string()));
    assert!(report.applied);
}
