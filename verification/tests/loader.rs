//! File modules, the standard library and packages, on files held in memory.

use rune::interp::Interpreter;
use rune::loader::{compile_path, join_path, load_program, load_std, Files, LoadError, Source};
use rune::pkg::{build, Manifest, Package, Packages};

fn files(entries: &[(&str, &str)]) -> Files {
    let mut f = Files::new();
    for (path, text) in entries {
        f.insert(path.to_string(), Source::Text(text.to_string()));
    }
    f
}

#[test]
fn loads_file_module() {
    let f = files(&[
        ("proj/util.rune", "fn triple(x: u32) -> u32 { x * 3 }\n"),
        ("proj/main.rune", "mod util;\nfn main() { print(util::triple(14)); }\n"),
    ]);
    let module = compile_path(&f, "proj/main.rune", None).expect("compiles");
    assert!(module.funcs.contains_key("util::triple"));
    let out = Interpreter::new(module).run_main().expect("runs");
    assert_eq!(out, vec!["42"]);
}

#[test]
fn missing_module_file_is_reported() {
    let mut f = files(&[("proj/main.rune", "mod nope;\nfn main() {}\n")]);
    // First the file is asked for; once it cannot be read that is reported.
    match compile_path(&f, "proj/main.rune", None) {
        Err(LoadError::NeedFile(p)) => assert_eq!(p, "proj/nope.rune"),
        other => panic!("expected a request, got {:?}", other),
    }
    f.insert("proj/nope.rune".to_string(), Source::Unreadable("not found".to_string()));
    match compile_path(&f, "proj/main.rune", None) {
        Err(LoadError::Failed(ds)) => {
            assert!(ds[0].message.contains("nope.rune"), "{}", ds[0].message);
            assert_eq!(ds[0].message, "cannot read module file `proj/nope.rune`: not found");
        }
        other => panic!("expected an error, got {:?}", other),
    }
}

#[test]
fn nested_modules_come_from_subdirectories() {
    let f = files(&[
        ("main.rune", "mod a;\nmod b { mod c; }\nfn main() { print(a::d::f() + b::c::g()); }\n"),
        ("a.rune", "mod d;\n"),
        ("a/d.rune", "fn f() -> u32 { 40 }\n"),
        ("b/c.rune", "fn g() -> u32 { 2 }\n"),
    ]);
    let module = compile_path(&f, "main.rune", None).expect("compiles");
    assert_eq!(Interpreter::new(module).run_main().expect("runs"), vec!["42"]);
}

#[test]
fn errors_in_files_name_the_file() {
    let f = files(&[("main.rune", "fn main( {")]);
    match load_program(&f, "main.rune") {
        Err(LoadError::Failed(ds)) => assert!(ds[0].message.ends_with(" (in main.rune)")),
        other => panic!("expected an error, got {:?}", other),
    }
}

#[test]
fn standard_library_is_injected_in_order() {
    let f = files(&[
        ("main.rune", "use std::math::twice;\nfn main() { print(twice(std::bits::one())); }\n"),
        ("std/math.rune", "fn twice(x: u32) -> u32 { x * 2 }\n"),
        ("std/bits.rune", "fn one() -> u32 { 1 }\n"),
    ]);
    let names = vec!["math".to_string(), "bits".to_string()];
    let module = compile_path(&f, "main.rune", Some(("std", &names))).expect("compiles");
    assert_eq!(module.funcs.names(), vec!["main", "std::bits::one", "std::math::twice"]);
    assert_eq!(Interpreter::new(module).run_main().expect("runs"), vec!["2"]);
    assert!(load_std(&f, "std", &names).is_ok());
}

fn manifest(name: &str, deps: &[(&str, &str)]) -> Manifest {
    let d: Vec<(String, String)> = deps.iter().map(|(a, b)| (a.to_string(), b.to_string())).collect();
    Manifest::from_parts(name.to_string(), "0.1.0".to_string(), None, &d)
}

#[test]
fn manifest_parts_have_defaults_and_order() {
    let m = manifest("demo", &[("zeta", "../z"), ("alpha", "../a")]);
    assert_eq!(m.name, "demo");
    assert_eq!(m.version, "0.1.0");
    assert_eq!(m.entry, "src/main.rune");
    assert_eq!(m.deps.len(), 2);
    assert_eq!(m.deps[0].name, "alpha");
    assert_eq!(m.deps[0].path, "../a");
    assert_eq!(m.deps[1].name, "zeta");
}

#[test]
fn build_simple_package() {
    let f = files(&[(
        "demo/src/main.rune",
        "fn answer() -> u32 { 42 }\nfn main() { print(answer()); }\n",
    )]);
    let mut p = Packages::new();
    p.insert("demo".to_string(), Package::Read("/demo".to_string(), manifest("demo", &[])));
    let module = build(&p, &f, "demo", None).expect("builds");
    assert!(module.funcs.contains_key("answer"));
    assert!(module.funcs.contains_key("main"));
}

#[test]
fn dependencies_are_exposed_as_modules() {
    let f = files(&[
        ("demo/src/main.rune", "fn main() { print(mathx::square(5)); }\n"),
        ("demo/../mathx/src/main.rune", "fn square(x: u32) -> u32 { x * x }\n"),
    ]);
    let mut p = Packages::new();
    p.insert(
        "demo".to_string(),
        Package::Read("/demo".to_string(), manifest("demo", &[("mathx", "../mathx")])),
    );
    match build(&p, &f, "demo", None) {
        Err(LoadError::NeedPackage(d)) => assert_eq!(d, "demo/../mathx"),
        other => panic!("expected a request, got {:?}", other),
    }
    p.insert(
        "demo/../mathx".to_string(),
        Package::Read("/mathx".to_string(), manifest("mathx", &[])),
    );
    let module = build(&p, &f, "demo", None).expect("builds");
    assert_eq!(Interpreter::new(module).run_main().expect("runs"), vec!["25"]);
}

#[test]
fn dependency_cycles_are_refused() {
    let f = files(&[("a/src/main.rune", ""), ("a/../b/src/main.rune", "")]);
    let mut p = Packages::new();
    p.insert("a".to_string(), Package::Read("/a".to_string(), manifest("a", &[("b", "../b")])));
    p.insert(
        "a/../b".to_string(),
        Package::Read("/b".to_string(), manifest("b", &[("a", "../a")])),
    );
    p.insert(
        "a/../b/../a".to_string(),
        Package::Read("/a".to_string(), manifest("a", &[("b", "../b")])),
    );
    match build(&p, &f, "a", None) {
        Err(LoadError::Failed(ds)) => {
            assert_eq!(ds[0].message, "dependency cycle detected at `a/../b/../a`")
        }
        other => panic!("expected an error, got {:?}", other),
    }
}

#[test]
fn unreadable_packages_are_reported() {
    let f = Files::new();
    let mut p = Packages::new();
    p.insert("x".to_string(), Package::Inaccessible("no such directory".to_string()));
    match build(&p, &f, "x", None) {
        Err(LoadError::Failed(ds)) => {
            assert_eq!(ds[0].message, "cannot access package `x`: no such directory")
        }
        other => panic!("expected an error, got {:?}", other),
    }
    p.insert("y".to_string(), Package::Invalid("/y".to_string(), "invalid `y/rune.toml`".to_string()));
    match build(&p, &f, "y", None) {
        Err(LoadError::Failed(ds)) => assert_eq!(ds[0].message, "invalid `y/rune.toml`"),
        other => panic!("expected an error, got {:?}", other),
    }
}

#[test]
fn a_path_from_the_root_stands_for_itself() {
    assert_eq!(join_path("a", "/b"), "/b");
    assert_eq!(join_path("a", "b"), "a/b");
    assert_eq!(join_path("a/", "b"), "a/b");
    assert_eq!(join_path("", "b"), "b");
    assert_eq!(join_path("a", ""), "a/");
}
