//! # The tests of a program
//!
//! A test is a top-level function whose name begins with `test_`, that takes
//! nothing and gives a `bool`. It passes where it gives `true`; one that gives
//! `false` or traps has failed.

use crate::hotreload;
use crate::interp::{self, Interpreter, Value};
use crate::ir::{self, Func, Module, TFunc, TModule, TType, Type};
use crate::semantics;
use crate::text::{self, cat2, cat5, chars_of, usize_text, Text};
use crate::value::{self, VVal};
use vstd::prelude::*;

verus! {

broadcast use {ir::group_model, ir::group_built, text::group_texts, value::group_values};

/// Whether a name begins with `test_`.
pub open spec fn test_name(name: Text) -> bool {
    name.len() >= 5 && name[0] == 't' && name[1] == 'e' && name[2] == 's' && name[3] == 't'
        && name[4] == '_'
}

/// Whether the function called `name` is a test.
pub open spec fn is_test(name: Text, f: TFunc) -> bool {
    test_name(name) && f.params.len() == 0 && f.ret == TType::Bool
}

/// Whether the test called `name` passes, in a memory of its own.
pub open spec fn passes(m: TModule, name: Text) -> bool {
    semantics::settled(
        semantics::call_func(
            m,
            interp::ALLOWANCE as nat,
            name,
            Seq::empty(),
            hotreload::fresh_memory(),
        ).0,
    ) == Ok::<VVal, crate::diagnostic::Diag>(VVal::Bool(true))
}

pub open spec fn test_line(name: Text, ok: bool) -> Text {
    name + if ok {
        " ... ok"@
    } else {
        " ... FAILED"@
    }
}

/// What is known of the tests: a line for each, and how many passed and failed.
#[verifier::ext_equal]
pub struct Tally {
    pub lines: Seq<Text>,
    pub passed: nat,
    pub failed: nat,
}

/// The tally `t` and the tests from position `i` on.
pub open spec fn tally(m: TModule, i: int, t: Tally) -> Tally
    decreases m.funcs.len() - i,
{
    if i < 0 || i >= m.funcs.len() {
        t
    } else {
        let (name, f) = m.funcs[i];
        if !is_test(name, f) {
            tally(m, i + 1, t)
        } else {
            let ok = passes(m, name);
            tally(
                m,
                i + 1,
                Tally {
                    lines: t.lines.push(test_line(name, ok)),
                    passed: if ok {
                        t.passed + 1
                    } else {
                        t.passed
                    },
                    failed: if ok {
                        t.failed
                    } else {
                        t.failed + 1
                    },
                },
            )
        }
    }
}

/// The line behind the tests.
pub open spec fn summary_of(t: Tally) -> Text {
    (if t.failed == 0 {
        "test result: ok. "@
    } else {
        "test result: FAILED. "@
    }) + text::dec(t.passed) + " passed; "@ + text::dec(t.failed) + " failed"@
}

/// What came of running the tests of a program.
pub struct TestRun {
    /// A line for each test, in the order of their names.
    pub lines: Vec<String>,
    pub passed: usize,
    pub failed: usize,
}

impl View for TestRun {
    type V = Tally;

    open spec fn view(&self) -> Tally {
        Tally {
            lines: text::texts(self.lines@),
            passed: self.passed as nat,
            failed: self.failed as nat,
        }
    }
}

impl TestRun {
    /// Whether no test failed.
    pub fn all_passed(&self) -> (r: bool)
        ensures
            r == (self@.failed == 0),
    {
        self.failed == 0
    }

    /// The line that sums the run up.
    pub fn summary(&self) -> (r: String)
        ensures
            r@ == summary_of(self@),
    {
        let head = if self.failed == 0 {
            "test result: ok. "
        } else {
            "test result: FAILED. "
        };
        let p = usize_text(self.passed);
        let f = usize_text(self.failed);
        cat5(head, p.as_str(), " passed; ", f.as_str(), " failed")
    }
}

fn begins_as_test(name: &str) -> (r: bool)
    ensures
        r == test_name(name@),
{
    let v = chars_of(name);
    v.len() >= 5 && v[0] == 't' && v[1] == 'e' && v[2] == 's' && v[3] == 't' && v[4] == '_'
}

fn is_test_func(name: &str, f: &Func) -> (r: bool)
    ensures
        r == is_test(name@, f@),
{
    proof {
        ir::lemma_plain_nodes();
    }
    begins_as_test(name) && f.params.len() == 0 && f.ret.same(&Type::Bool)
}

/// Run one test.
fn run_test(m: &Module, name: &str) -> (r: bool)
    ensures
        r == passes(m@, name@),
{
    let mut interp = Interpreter::new(m.dup());
    let args: Vec<Value> = Vec::new();
    assert(value::values_of(args@) =~= Seq::<VVal>::empty());
    match interp.call(name, args) {
        Ok(Value::Bool(b)) => b,
        _ => false,
    }
}

/// Run every test of the program.
pub fn run_tests(m: &Module) -> (r: TestRun)
    ensures
        r@ == tally(m@, 0, Tally { lines: Seq::empty(), passed: 0, failed: 0 }),
{
    let mut out = TestRun { lines: Vec::new(), passed: 0, failed: 0 };
    let ghost none = Tally { lines: Seq::empty(), passed: 0, failed: 0 };
    assert(out@ =~= none);
    let n: usize = m.funcs.len();
    let mut i: usize = 0;
    while i < n
        invariant
            i <= n,
            n == m@.funcs.len(),
            out.passed <= i,
            out.failed <= i,
            tally(m@, 0, none) == tally(m@, i as int, out@),
        decreases n - i,
    {
        let ghost before = out@;
        let (name, f) = m.funcs.at(i);
        assert(m@.funcs[i as int] == (name@, f@));
        if is_test_func(name.as_str(), f) {
            let ok = run_test(m, name.as_str());
            let line = cat2(
                name.as_str(),
                if ok {
                    " ... ok"
                } else {
                    " ... FAILED"
                },
            );
            out.lines.push(line);
            if ok {
                out.passed += 1;
            } else {
                out.failed += 1;
            }
            assert(out@.lines =~= before.lines.push(test_line(name@, ok)));
        }
        i += 1;
    }
    out
}

proof fn lemma_tally(m: TModule, i: int, t: Tally)
    requires
        t.lines.len() == t.passed + t.failed,
    ensures
        tally(m, i, t).lines.len() == tally(m, i, t).passed + tally(m, i, t).failed,
        t.failed <= tally(m, i, t).failed,
        tally(m, i, t).failed == t.failed ==> forall|j: int|
            i <= j < m.funcs.len() && 0 <= i && is_test((#[trigger] m.funcs[j]).0, m.funcs[j].1)
                ==> passes(m, m.funcs[j].0),
    decreases m.funcs.len() - i,
{
    if 0 <= i < m.funcs.len() {
        let (name, f) = m.funcs[i];
        if !is_test(name, f) {
            lemma_tally(m, i + 1, t);
        } else {
            let ok = passes(m, name);
            lemma_tally(
                m,
                i + 1,
                Tally {
                    lines: t.lines.push(test_line(name, ok)),
                    passed: if ok {
                        t.passed + 1
                    } else {
                        t.passed
                    },
                    failed: if ok {
                        t.failed
                    } else {
                        t.failed + 1
                    },
                },
            );
        }
    }
}

/// Every test has one line, which counts as passed or as failed, and a run without
/// failures is one in which every test passed.
pub proof fn law_tally(m: TModule)
    ensures
        ({
            let t = tally(m, 0, Tally { lines: Seq::empty(), passed: 0, failed: 0 });
            &&& t.lines.len() == t.passed + t.failed
            &&& t.failed == 0 ==> forall|j: int|
                0 <= j < m.funcs.len() && is_test((#[trigger] m.funcs[j]).0, m.funcs[j].1)
                    ==> passes(m, m.funcs[j].0)
        }),
{
    lemma_tally(m, 0, Tally { lines: Seq::empty(), passed: 0, failed: 0 });
}

} // verus!
