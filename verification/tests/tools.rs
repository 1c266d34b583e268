//! The tests of a program, the session around it, and what loading asks for.

use rune::hotreload::FileWatcher;
use rune::interp::{Interpreter, Value};
use rune::ir::IntTy;
use rune::loader::{compile_path, Files, LoadError, Source};
use rune::name_map::NameMap;
use rune::pkg::{build, Manifest, Package, Packages};
use rune::repl::{split_items, Outcome, Session};
use rune::runner::run_tests;

#[test]
fn program_tests_are_run_and_counted() {
    let src = r#"
        fn main() {}
        fn test_ok() -> bool { true }
        fn test_bad() -> bool { false }
        fn test_trap() -> bool { let z = 0; 1 / z == 1 }
        fn test_takes(x: bool) -> bool { x }
        fn test_number() -> u8 { 1 }
        fn testing() -> bool { false }
    "#;
    let run = run_tests(&rune::compile(src).expect("compiles"));
    assert_eq!(
        run.lines,
        vec!["test_bad ... FAILED", "test_ok ... ok", "test_trap ... FAILED"]
    );
    assert_eq!((run.passed, run.failed), (1, 2));
    assert_eq!(run.summary(), "test result: FAILED. 1 passed; 2 failed");
    assert!(!run.all_passed());
    let good = run_tests(&rune::compile("fn test_a() -> bool { 2 > 1 }").expect("compiles"));
    assert_eq!(good.summary(), "test result: ok. 1 passed; 0 failed");
    assert!(good.all_passed());
}

#[test]
fn names_are_kept_in_order_and_replaced() {
    let mut m: NameMap<u32> = NameMap::new();
    m.insert("b".to_string(), 1);
    m.insert("a".to_string(), 2);
    m.insert("b".to_string(), 3);
    assert_eq!(m.names(), vec!["a", "b"]);
    assert_eq!(m.get("b"), Some(&3));
    assert_eq!(m.get("c"), None);
    assert_eq!(m.len(), 2);
}

#[test]
fn sessions_trim_any_white_space() {
    let mut s = Session::new();
    assert_eq!(s.eval_line("\u{a0}\u{2003}1 + 1\u{3000}"), Outcome::Value("2".to_string()));
    assert_eq!(s.eval_line("\u{2003}"), Outcome::Empty);
}

#[test]
fn a_keyword_ends_where_a_word_ends() {
    assert_eq!(split_items("fn f() {}"), Ok(vec!["fn f() {}".to_string()]));
    // `ß` continues the word, so no item begins here.
    assert_eq!(split_items("fn\u{df} f() {}"), Ok(vec![]));
}

#[test]
fn errors_leave_a_session_as_it_was() {
    let mut s = Session::new();
    s.eval_line("fn f() -> i32 { 1 }");
    s.eval_line("let x = f();");
    assert!(matches!(s.eval_line("fn g() -> i32 { true }"), Outcome::Error(_)));
    assert!(matches!(s.eval_line("x + true"), Outcome::Error(_)));
    assert_eq!(s.definition_names(), vec!["f"]);
    assert_eq!(s.eval_line("x + f()"), Outcome::Value("2".to_string()));
    assert_eq!(s.eval_line("x"), Outcome::Value("1".to_string()));
}

#[test]
fn files_are_loaded_into_a_session() {
    let mut s = Session::new();
    assert_eq!(s.eval_line(":load lib.rune"), Outcome::Load("lib.rune".to_string()));
    let text = "fn one() -> i32 { 1 }\nfn two() -> i32 { 2 }\n".to_string();
    s.load_text("lib.rune", &Source::Text(text));
    assert_eq!(s.definition_names(), vec!["one", "two"]);
    assert_eq!(s.eval_line("one() + two()"), Outcome::Value("3".to_string()));
    assert_eq!(
        s.load_text("gone.rune", &Source::Unreadable("not found".to_string())),
        Outcome::Error("cannot read `gone.rune`: not found".to_string())
    );
    assert_eq!(s.eval_line(":load"), Outcome::Error("usage: :load <file>".to_string()));
    assert!(matches!(s.eval_line(":help"), Outcome::Message(_)));
}

#[test]
fn a_watcher_reports_later_times() {
    let mut w = FileWatcher::new(Some(10));
    assert!(!w.changed(10));
    assert!(w.changed(11));
    assert!(!w.changed(11));
    assert!(!w.changed(5));
    assert!(w.changed(6));
    assert!(FileWatcher::new(None).changed(0));
}

#[test]
fn loading_asks_for_each_file_once() {
    let disk = [
        ("main.rune", "mod a;\nfn main() { print(a::b::c::d::n()); }\n"),
        ("a.rune", "mod b;\n"),
        ("a/b.rune", "mod c;\n"),
        ("a/b/c.rune", "mod d;\n"),
        ("a/b/c/d.rune", "fn n() -> u32 { 7 }\n"),
    ];
    let mut files = Files::new();
    let mut asked: Vec<String> = Vec::new();
    let module = loop {
        match compile_path(&files, "main.rune", None) {
            Ok(m) => break m,
            Err(LoadError::NeedFile(p)) => {
                assert!(!asked.contains(&p));
                let text = disk.iter().find(|(q, _)| *q == p).expect("known").1;
                files.insert(p.clone(), Source::Text(text.to_string()));
                asked.push(p);
            }
            Err(other) => panic!("unexpected {:?}", other),
        }
    };
    assert_eq!(asked.len(), 5);
    assert_eq!(Interpreter::new(module).run_main().expect("runs"), vec!["7"]);
}

#[test]
fn long_chains_of_packages_are_no_cycle() {
    let mut files = Files::new();
    let mut packages = Packages::new();
    let names = ["p0", "p1", "p2", "p3"];
    for (i, name) in names.iter().enumerate() {
        let deps: Vec<(String, String)> = match names.get(i + 1) {
            Some(next) => vec![("next".to_string(), format!("/{}", next))],
            None => vec![],
        };
        let m = Manifest::from_parts(name.to_string(), "1.0.0".to_string(), None, &deps);
        let dir = if i == 0 { "p0".to_string() } else { format!("/{}", name) };
        packages.insert(dir.clone(), Package::Read(format!("/{}", name), m));
        let body = match names.get(i + 1) {
            Some(_) => "fn n() -> u32 { next::n() + 1 }\n",
            None => "fn n() -> u32 { 1 }\n",
        };
        files.insert(format!("{}/src/main.rune", dir), Source::Text(body.to_string()));
    }
    let module = build(&packages, &files, "p0", None).expect("builds");
    assert!(module.funcs.contains_key("next::next::next::n"));
    let value = Interpreter::new(module).call("n", vec![]).expect("runs");
    assert_eq!(value, Value::Int(4, IntTy { signed: false, width: 32 }));
}
