//! The interpreter on whole programs.

use rune::compile;
use rune::interp::Interpreter;
use rune::Stage;

fn run(src: &str) -> Vec<String> {
    let module = compile(src).expect("should typecheck");
    let mut interp = Interpreter::new(module);
    interp.run_main().expect("should run")
}

#[test]
fn const_items_evaluate_at_compile_time() {
    let src = r#"
        const WIDTH: u32 = 8;
        const DOUBLE: u32 = WIDTH * 2;
        const MASK: bit<8> = 0xFF;
        mod cfg { const VERSION: u32 = 3; }
        fn masked(x: bit<8>) -> bit<8> { x & MASK }
        fn main() {
            print(WIDTH);
            print(DOUBLE);
            print(masked(200));
            print(cfg::VERSION);
        }
    "#;
    assert_eq!(run(src), vec!["8", "16", "200", "3"]);
}

#[test]
fn tuples_construct_index_destructure() {
    let src = r#"
        fn divmod(a: u32, b: u32) -> (u32, u32) { (a / b, a % b) }
        fn main() {
            let q: (u32, u32) = divmod(17, 5);
            print(q.0);
            print(q.1);
            let (d, m) = divmod(20, 6);
            print(d);
            print(m);
            print(q);
        }
    "#;
    assert_eq!(run(src), vec!["3", "2", "3", "2", "(3, 2)"]);
}

#[test]
fn mutable_tuple_field_assignment() {
    let src = r#"
        fn main() {
            let mut p: (u32, u32) = (1, 2);
            p.0 = p.0 + 10;
            print(p.0);
            print(p.1);
        }
    "#;
    assert_eq!(run(src), vec!["11", "2"]);
}

#[test]
fn match_guards_or_and_range_patterns() {
    let src = r#"
        fn classify(n: u32) -> u32 {
            match n {
                0 => 100,
                1 | 2 | 3 => 200,
                4..=9 => 300,
                x if x > 100 => 999,
                _ => 0,
            }
        }
        fn main() {
            print(classify(0));
            print(classify(2));
            print(classify(7));
            print(classify(9));
            print(classify(500));
            print(classify(42));
        }
    "#;
    assert_eq!(run(src), vec!["100", "200", "300", "300", "999", "0"]);
}

#[test]
fn half_open_range_pattern_excludes_high() {
    let src = r#"
        fn f(n: u8) -> u8 { match n { 0..2 => 1, _ => 0 } }
        fn main() { print(f(0)); print(f(1)); print(f(2)); }
    "#;
    assert_eq!(run(src), vec!["1", "1", "0"]);
}

#[test]
fn nested_tuple_pattern_in_match() {
    let src = r#"
        fn first_positive(p: (bool, u32)) -> u32 {
            match p {
                (true, x) => x,
                _ => 0,
            }
        }
        fn main() {
            print(first_positive((true, 42)));
            print(first_positive((false, 42)));
        }
    "#;
    assert_eq!(run(src), vec!["42", "0"]);
}

#[test]
fn milestone_program_runs() {
    let src = r#"
        fn add8(a: bit<8>, b: bit<8>) -> bit<8> { a + b }
        enum Shape { Circle(u32), Rect(u32, u32) }
        fn area(s: Shape) -> u32 {
            match s {
                Circle(r)  => 3 * r * r,
                Rect(w, h) => w * h,
            }
        }
        fn main() {
            print(add8(200, 100));
            print(area(Rect(3, 4)));
            print(area(Circle(2)));
        }
    "#;
    assert_eq!(run(src), vec!["44", "12", "12"]);
}

#[test]
fn bit_wrapping_is_exact() {
    let src = "fn main() { let a: bit<8> = 200; let b: bit<8> = 100; print(a + b); }";
    assert_eq!(run(src), vec!["44"]);
}

#[test]
fn signed_wraps_two_complement() {
    let src = "fn main() { let a: i8 = 127; print(a + 1); }";
    assert_eq!(run(src), vec!["-128"]);
}

#[test]
fn for_loop_sums_array() {
    let src = r#"
        fn main() {
            let a: [u32; 4] = [1, 2, 3, 4];
            let mut s: u32 = 0;
            for i in 0..4 { s = s + a[i]; }
            print(s);
        }
    "#;
    assert_eq!(run(src), vec!["10"]);
}

#[test]
fn while_loop_and_if() {
    let src = r#"
        fn main() {
            let mut n: i32 = 5;
            let mut acc: i32 = 1;
            while n > 0 { acc = acc * n; n = n - 1; }
            print(acc);
        }
    "#;
    assert_eq!(run(src), vec!["120"]);
}

#[test]
fn recursion_works() {
    let src = r#"
        fn fib(n: u32) -> u32 {
            if n < 2 { n } else { fib(n - 1) + fib(n - 2) }
        }
        fn main() { print(fib(10)); }
    "#;
    assert_eq!(run(src), vec!["55"]);
}

#[test]
fn struct_field_mutation() {
    let src = r#"
        struct P { x: u32, y: u32 }
        fn main() {
            let mut p = P { x: 1, y: 2 };
            p.x = p.x + 10;
            print(p.x);
            print(p.y);
        }
    "#;
    assert_eq!(run(src), vec!["11", "2"]);
}

#[test]
fn divide_by_zero_is_trapped() {
    let module = compile("fn main() { let z: i32 = 0; print(1 / z); }").unwrap();
    let mut interp = Interpreter::new(module);
    let err = interp.run_main().unwrap_err();
    assert_eq!(err.stage, Stage::Runtime);
    assert!(err.message.contains("division by zero"));
}

#[test]
fn index_out_of_bounds_is_trapped() {
    let module =
        compile("fn main() { let a: [u8; 2] = [1, 2]; let i: u32 = 5; print(a[i]); }").unwrap();
    let mut interp = Interpreter::new(module);
    let err = interp.run_main().unwrap_err();
    assert!(err.message.contains("out of bounds"));
}

#[test]
fn bitwise_and_shift() {
    let src = r#"
        fn main() {
            let a: bit<8> = 0xF0;
            let b: bit<8> = 0x0F;
            print(a | b);
            print(a & b);
            print(a >> 4);
            print(b << 4);
        }
    "#;
    assert_eq!(run(src), vec!["255", "0", "15", "240"]);
}
