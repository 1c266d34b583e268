//! What sessions, test runs, loaded files and packages do, told from outside.

use crate::ast::{AItem, AModDef, AProgram};
use crate::diagnostic::Diag;
use crate::ir::{TFunc, TModule, TType};
use crate::loader::{self, SError, SSource};
use crate::name_map::{self, Table};
use crate::pkg::{self, PDep, PManifest, PPackage};
use crate::repl::{self, RDef, ROutcome, RSession};
use crate::runner::{self, Tally};
use crate::text::Text;
use vstd::prelude::*;

verus! {

// ---- trimming -----------------------------------------------------------

proof fn lemma_lead(s: Text, i: int)
    requires
        0 <= i <= s.len(),
    ensures
        i <= repl::lead(s, i) <= s.len(),
        forall|k: int| i <= k < repl::lead(s, i) ==> repl::white_space(#[trigger] s[k]),
        repl::lead(s, i) < s.len() ==> !repl::white_space(s[repl::lead(s, i)]),
    decreases s.len() - i,
{
    if i < s.len() {
        lemma_lead(s, i + 1);
    }
}

proof fn lemma_trail(s: Text, n: int)
    requires
        0 <= n <= s.len(),
    ensures
        0 <= repl::trail(s, n) <= n,
        forall|k: int| repl::trail(s, n) <= k < n ==> repl::white_space(#[trigger] s[k]),
        repl::trail(s, n) > 0 ==> !repl::white_space(s[repl::trail(s, n) - 1]),
    decreases n,
{
    if n > 0 {
        lemma_trail(s, n - 1);
    }
}

/// What is typed counts without the white space around it: what is left neither begins nor
/// ends with white space, and only white space is gone.
pub proof fn law_trimming(s: Text)
    ensures
        ({
            let t = repl::trimmed(s);
            &&& t.len() > 0 ==> !repl::white_space(t[0]) && !repl::white_space(t.last())
            &&& exists|a: int, b: int|
                #![trigger s.subrange(a, b)]
                0 <= a <= b <= s.len() && t == s.subrange(a, b) && (forall|k: int|
                    0 <= k < a ==> repl::white_space(#[trigger] s[k])) && forall|k: int|
                    b <= k < s.len() ==> repl::white_space(#[trigger] s[k])
        }),
{
    lemma_lead(s, 0);
    lemma_trail(s, s.len() as int);
    let a = repl::lead(s, 0);
    let b = repl::trail(s, s.len() as int);
    if a < b {
        assert(repl::trimmed(s) == s.subrange(a, b));
    } else {
        assert forall|k: int| 0 <= k < s.len() implies repl::white_space(#[trigger] s[k]) by {
            if k >= a {
                assert(k >= b);
            }
        }
        let n = s.len() as int;
        assert(repl::trimmed(s) =~= s.subrange(n, n));
    }
}

// ---- sessions -----------------------------------------------------------

/// A definition that is accepted stands behind those of other names, which all stay, and
/// takes the place of those of its own name.
pub proof fn law_definitions_stay(s: RSession, t: Text, d: RDef)
    ensures
        repl::defined(s, t) matches (ROutcome::Defined(n), s1) ==> {
            &&& s1.stmts == s.stmts
            &&& s1.defs.len() > 0 && s1.defs.last().text == t && s1.defs.last().name == n
            &&& s.defs.contains(d) && d.name != n ==> s1.defs.contains(d)
            &&& s1.defs.contains(d) && d.name != n ==> s.defs.contains(d)
            &&& s1.defs.contains(d) && d.name == n ==> d.text == t
        },
{
    if let (ROutcome::Defined(n), s1) = repl::defined(s, t) {
        let rest = repl::without(s.defs, n, 0);
        lemma_without(s.defs, n, 0, d);
        let last = s1.defs.last();
        assert(s1.defs == rest.push(last));
        if s1.defs.contains(d) {
            let i = choose|i: int| 0 <= i < s1.defs.len() && s1.defs[i] == d;
            if i < rest.len() {
                assert(rest[i] == d);
                assert(rest.contains(d));
            } else {
                assert(d == last);
            }
        }
        if rest.contains(d) {
            let i = choose|i: int| 0 <= i < rest.len() && rest[i] == d;
            assert(s1.defs[i] == d);
        }
    }
}

proof fn lemma_without(defs: Seq<RDef>, n: Text, i: int, d: RDef)
    requires
        0 <= i <= defs.len(),
    ensures
        repl::without(defs, n, i).contains(d) <==> d.name != n && exists|k: int|
            i <= k < defs.len() && #[trigger] defs[k] == d,
    decreases defs.len() - i,
{
    let all = repl::without(defs, n, i);
    if i < defs.len() {
        lemma_without(defs, n, i + 1, d);
        let rest = repl::without(defs, n, i + 1);
        if defs[i].name != n {
            assert(all == seq![defs[i]] + rest);
            assert(all[0] == defs[i]);
            if rest.contains(d) {
                let k = choose|k: int| 0 <= k < rest.len() && rest[k] == d;
                assert(all[k + 1] == d);
            }
            if all.contains(d) && d != defs[i] {
                let k = choose|k: int| 0 <= k < all.len() && all[k] == d;
                assert(rest[k - 1] == d);
            }
        }
    }
}

/// A statement that is accepted is kept behind those before it; one that is not changes
/// nothing. It never changes a definition.
pub proof fn law_statements_are_kept(s: RSession, t: Text)
    ensures
        repl::stated(s, t).1.defs == s.defs,
        repl::stated(s, t).0 is Error ==> repl::stated(s, t).1 == s,
        !(repl::stated(s, t).0 is Error) ==> repl::stated(s, t).1.stmts == s.stmts.push(t),
{
}

/// Whatever is typed, the session loses nothing but what is defined again, unless it is reset.
pub proof fn law_sessions_grow(s: RSession, input: Text)
    ensures
        ({
            let (o, s1) = repl::evaluated(s, input);
            ||| s1 == s
            ||| s1 == (RSession { defs: Seq::empty(), stmts: Seq::empty() }) && o is Message
            ||| s1.stmts == s.stmts && o is Defined
            ||| s1.defs == s.defs && s1.stmts == s.stmts.push(repl::trimmed(input)) && o is Empty
        }),
{
}

/// The one line that evaluating an expression prints is its value; more lines are output, and
/// none is nothing.
pub proof fn law_lines_are_values(lines: Seq<Text>, m: Text)
    ensures
        lines.len() == 1 ==> repl::value_outcome(lines) == ROutcome::Value(lines[0]),
        lines.len() > 1 ==> repl::value_outcome(lines) == ROutcome::Output(lines),
        lines.len() == 0 ==> repl::value_outcome(lines) == ROutcome::Empty,
        repl::effect_outcome(repl::RRun::Lines(lines)) == (if lines.len() == 0 {
            ROutcome::Empty
        } else {
            ROutcome::Output(lines)
        }),
        repl::effect_outcome(repl::RRun::Compile(m)) == ROutcome::Error(m),
        repl::effect_outcome(repl::RRun::Runtime(m)) == ROutcome::Error(m),
{
}

/// The commands by their names: `:reset` empties every session, `:quit` ends it, and `:help`,
/// `:list` and `:quit` leave it as it is.
pub proof fn law_commands(s: RSession)
    ensures
        repl::commanded(s, "reset"@).1 == (RSession { defs: Seq::empty(), stmts: Seq::empty() }),
        repl::commanded(s, "quit"@) == (ROutcome::Quit, s),
        repl::commanded(s, "help"@).1 == s && repl::commanded(s, "help"@).0 is Message,
        repl::commanded(s, "list"@).1 == s && repl::commanded(s, "list"@).0 is Message,
{
    reveal_strlit("reset");
    reveal_strlit("quit");
    reveal_strlit("help");
    reveal_strlit("list");
    reveal_strlit("h");
    reveal_strlit("?");
    reveal_strlit("q");
    reveal_strlit("exit");
    reveal_strlit("l");
    lemma_one_word("reset"@, 0);
    lemma_one_word("quit"@, 0);
    lemma_one_word("help"@, 0);
    lemma_one_word("list"@, 0);
    assert("reset"@.subrange(0, 5) =~= "reset"@);
    assert("quit"@.subrange(0, 4) =~= "quit"@);
    assert("help"@.subrange(0, 4) =~= "help"@);
    assert("list"@.subrange(0, 4) =~= "list"@);
    assert("reset"@[0] == 'r' && "quit"@[0] == 'q' && "help"@[0] == 'h' && "list"@[0] == 'l');
    assert("?"@[0] == '?' && "exit"@[0] == 'e');
    assert("list"@.len() == 4 && "quit"@.len() == 4 && "q"@.len() == 1 && "h"@.len() == 1
        && "l"@.len() == 1 && "help"@.len() == 4);
}

/// `:load` asks for the file that is named behind it, whatever the name, and changes nothing.
pub proof fn law_loading_asks_for_the_file(s: RSession, path: Text)
    requires
        path.len() > 0,
        repl::trimmed(path) == path,
    ensures
        repl::commanded(s, "load "@ + path) == (ROutcome::Load(path), s),
{
    reveal_strlit("load ");
    reveal_strlit("load");
    reveal_strlit("help");
    reveal_strlit("h");
    reveal_strlit("?");
    reveal_strlit("quit");
    reveal_strlit("q");
    reveal_strlit("exit");
    reveal_strlit("list");
    reveal_strlit("l");
    reveal_strlit("reset");
    let c = "load "@ + path;
    assert(c[0] == 'l' && c[1] == 'o' && c[2] == 'a' && c[3] == 'd' && c[4] == ' ');
    reveal_with_fuel(repl::before_space, 6);
    assert(repl::before_space(c, 0) == 4);
    assert(c.subrange(0, 4) =~= "load"@);
    assert(c.subrange(5, c.len() as int) =~= path);
    assert("load"@[0] == 'l' && "load"@[1] == 'o' && "load"@.len() == 4);
    assert("list"@[1] == 'i' && "l"@.len() == 1 && "help"@[0] == 'h' && "h"@[0] == 'h'
        && "?"@[0] == '?' && "quit"@[0] == 'q' && "q"@[0] == 'q' && "exit"@[0] == 'e'
        && "reset"@[0] == 'r');
}

proof fn lemma_one_word(w: Text, i: int)
    requires
        0 <= i <= w.len(),
        forall|k: int| 0 <= k < w.len() ==> 'a' <= #[trigger] w[k] <= 'z',
    ensures
        repl::before_space(w, i) == w.len(),
    decreases w.len() - i,
{
    if i < w.len() {
        assert('a' <= w[i] <= 'z');
        lemma_one_word(w, i + 1);
    }
}

// ---- test runs ----------------------------------------------------------

/// The positions of the functions from `i` on that are tests.
pub open spec fn tests_from(m: TModule, i: int) -> Seq<int>
    decreases m.funcs.len() - i,
{
    if i < 0 || i >= m.funcs.len() {
        Seq::empty()
    } else if a_test(m.funcs[i].0, m.funcs[i].1) {
        seq![i] + tests_from(m, i + 1)
    } else {
        tests_from(m, i + 1)
    }
}

/// Whether a function is a test: it is called `test_` and something, takes nothing and gives a
/// `bool`.
pub open spec fn a_test(name: Text, f: TFunc) -> bool {
    (exists|rest: Text| name == #[trigger] ("test_"@ + rest)) && f.params.len() == 0 && f.ret
        == TType::Bool
}

proof fn lemma_test(name: Text, f: TFunc)
    ensures
        runner::is_test(name, f) <==> a_test(name, f),
{
    reveal_strlit("test_");
    if runner::test_name(name) {
        let rest = name.subrange(5, name.len() as int);
        assert(name =~= "test_"@ + rest);
    }
    if exists|rest: Text| name == #[trigger] ("test_"@ + rest) {
        let rest = choose|rest: Text| name == #[trigger] ("test_"@ + rest);
        assert(name[0] == "test_"@[0] && name[1] == "test_"@[1] && name[2] == "test_"@[2] && name[3]
            == "test_"@[3] && name[4] == "test_"@[4]);
    }
}

/// How many of the positions are of tests that pass.
pub open spec fn passing(m: TModule, ps: Seq<int>) -> nat
    decreases ps.len(),
{
    if ps.len() == 0 {
        0
    } else {
        passing(m, ps.drop_first()) + if runner::passes(m, m.funcs[ps[0]].0) {
            1nat
        } else {
            0
        }
    }
}

proof fn lemma_tally(m: TModule, i: int, t: Tally)
    requires
        0 <= i <= m.funcs.len(),
    ensures
        ({
            let r = runner::tally(m, i, t);
            let ps = tests_from(m, i);
            &&& r.passed == t.passed + passing(m, ps)
            &&& r.passed + r.failed == t.passed + t.failed + ps.len()
            &&& r.lines.len() == t.lines.len() + ps.len()
            &&& forall|k: int| 0 <= k < t.lines.len() ==> #[trigger] r.lines[k] == t.lines[k]
            &&& forall|k: int|
                0 <= k < ps.len() ==> #[trigger] r.lines[t.lines.len() + k] == runner::test_line(
                    m.funcs[ps[k]].0,
                    runner::passes(m, m.funcs[ps[k]].0),
                )
        }),
    decreases m.funcs.len() - i,
{
    if i < m.funcs.len() {
        let (name, f) = m.funcs[i];
        lemma_test(name, f);
        if runner::is_test(name, f) {
            let ok = runner::passes(m, name);
            let u = Tally {
                lines: t.lines.push(runner::test_line(name, ok)),
                passed: if ok {
                    t.passed + 1
                } else {
                    t.passed
                },
                failed: if ok {
                    t.failed
                } else {
                    t.failed + 1
                },
            };
            lemma_tally(m, i + 1, u);
            let rest = tests_from(m, i + 1);
            let ps = seq![i] + rest;
            assert(ps.drop_first() =~= rest);
            let r = runner::tally(m, i, t);
            assert forall|k: int| 0 <= k < t.lines.len() implies #[trigger] r.lines[k]
                == t.lines[k] by {
                assert(u.lines[k] == t.lines[k]);
            }
            assert forall|k: int| 0 <= k < ps.len() implies #[trigger] r.lines[t.lines.len() + k]
                == runner::test_line(
                m.funcs[ps[k]].0,
                runner::passes(m, m.funcs[ps[k]].0),
            ) by {
                if k == 0 {
                    assert(r.lines[t.lines.len() as int] == u.lines[t.lines.len() as int]);
                } else {
                    assert(ps[k] == rest[k - 1]);
                    assert(r.lines[u.lines.len() + (k - 1)] == runner::test_line(
                        m.funcs[rest[k - 1]].0,
                        runner::passes(m, m.funcs[rest[k - 1]].0),
                    ));
                }
            }
        } else {
            lemma_tally(m, i + 1, t);
        }
    }
}

/// A test run has one line for each test, in the order of the functions, and counts those that
/// pass and those that do not. A function is a test exactly if it is called `test_` and
/// something, takes nothing and gives a `bool`.
pub proof fn law_test_runs(m: TModule)
    ensures
        ({
            let r = runner::tally(m, 0, Tally { lines: Seq::empty(), passed: 0, failed: 0 });
            let ps = tests_from(m, 0);
            &&& r.passed == passing(m, ps)
            &&& r.passed + r.failed == ps.len()
            &&& r.lines.len() == ps.len()
            &&& forall|k: int|
                0 <= k < ps.len() ==> #[trigger] r.lines[k] == m.funcs[ps[k]].0 + (
                if runner::passes(m, m.funcs[ps[k]].0) {
                    " ... ok"@
                } else {
                    " ... FAILED"@
                })
        }),
{
    let t = Tally { lines: Seq::empty(), passed: 0, failed: 0 };
    lemma_tally(m, 0, t);
    let r = runner::tally(m, 0, t);
    let ps = tests_from(m, 0);
    assert forall|k: int| 0 <= k < ps.len() implies #[trigger] r.lines[k] == m.funcs[ps[k]].0 + (
    if runner::passes(m, m.funcs[ps[k]].0) {
        " ... ok"@
    } else {
        " ... FAILED"@
    }) by {
        assert(r.lines[t.lines.len() + k] == r.lines[k]);
    }
}

/// The line that sums a run up says `ok` exactly if no test failed.
pub proof fn law_summaries(t: Tally)
    ensures
        ({
            let s = runner::summary_of(t);
            let ok = "test result: ok. "@;
            (s.len() >= ok.len() && s.subrange(0, ok.len() as int) == ok) <==> t.failed == 0
        }),
{
    reveal_strlit("test result: ok. ");
    reveal_strlit("test result: FAILED. ");
    let s = runner::summary_of(t);
    let ok = "test result: ok. "@;
    if t.failed == 0 {
        assert(s.subrange(0, ok.len() as int) =~= ok);
    } else {
        assert(s[13] == "test result: FAILED. "@[13]);
        assert(ok[13] == 'o');
        if s.len() >= ok.len() && s.subrange(0, ok.len() as int) == ok {
            assert(s.subrange(0, ok.len() as int)[13] == s[13]);
        }
    }
}

// ---- paths --------------------------------------------------------------

/// The file called `name` in a directory lies in that directory.
pub proof fn law_files_lie_in_their_directory(dir: Text, name: Text)
    requires
        dir.len() > 0,
        dir.last() != '/',
        forall|k: int| 0 <= k < name.len() ==> #[trigger] name[k] != '/',
    ensures
        loader::parent(loader::joined(dir, name)) == dir,
{
    reveal_strlit("/");
    let p = dir + "/"@ + name;
    assert(loader::joined(dir, name) == p);
    let n = dir.len() + 1;
    assert(p[n - 1] == '/');
    assert forall|k: int| n <= k < p.len() implies #[trigger] p[k] != '/' by {
        assert(p[k] == name[k - n]);
    }
    lemma_slash(p, n as int, p.len() as int);
    assert(p.subrange(0, n - 1) =~= dir);
}

proof fn lemma_slash(p: Text, n: int, m: int)
    requires
        0 < n <= m <= p.len(),
        p[n - 1] == '/',
        forall|k: int| n <= k < m ==> #[trigger] p[k] != '/',
    ensures
        loader::behind_slash(p, m) == Some(n),
    decreases m,
{
    if n < m {
        assert(p[m - 1] != '/');
        lemma_slash(p, n, m - 1);
    }
}

/// A file at the root lies in the root, and one that is named alone in no directory.
pub proof fn law_files_at_the_root(name: Text)
    requires
        forall|k: int| 0 <= k < name.len() ==> #[trigger] name[k] != '/',
    ensures
        loader::parent("/"@ + name) == "/"@,
        loader::parent(name) == Seq::<char>::empty(),
        loader::joined(Seq::empty(), name) == name,
        loader::joined("/"@, name) == "/"@ + name,
{
    reveal_strlit("/");
    let p = "/"@ + name;
    assert(p[0] == '/');
    assert forall|k: int| 1 <= k < p.len() implies #[trigger] p[k] != '/' by {
        assert(p[k] == name[k - 1]);
    }
    lemma_slash(p, 1, p.len() as int);
    assert(p.subrange(0, 1) =~= "/"@);
    lemma_no_slash(name, name.len() as int);
}

proof fn lemma_no_slash(p: Text, m: int)
    requires
        0 <= m <= p.len(),
        forall|k: int| 0 <= k < p.len() ==> #[trigger] p[k] != '/',
    ensures
        loader::behind_slash(p, m) is None,
    decreases m,
{
    if m > 0 {
        assert(p[m - 1] != '/');
        lemma_no_slash(p, m - 1);
    }
}

/// A file is a module file exactly if it is called something and `.rune`; the module is called
/// that something.
pub proof fn law_module_files(name: Text, stem: Text)
    ensures
        loader::stem_of(name) == Some(stem) <==> stem.len() > 0 && name == stem + ".rune"@,
{
    reveal_strlit(".rune");
    if loader::stem_of(name) == Some(stem) {
        let n = name.len() - 5;
        assert(name =~= name.subrange(0, n) + name.subrange(n, name.len() as int));
    }
    if stem.len() > 0 && name == stem + ".rune"@ {
        let n = name.len() - 5;
        assert(name.subrange(n, name.len() as int) =~= ".rune"@);
        assert(name.subrange(0, n) =~= stem);
    }
}

// ---- files --------------------------------------------------------------

/// Whether no item is a module.
pub open spec fn no_modules(items: Seq<AItem>) -> bool {
    forall|i: int| 0 <= i < items.len() ==> !((#[trigger] items[i]) is Mod)
}

proof fn lemma_plain_items(
    files: Table<SSource>,
    depth: nat,
    dir: Text,
    items: Seq<AItem>,
    i: int,
    acc: Seq<AItem>,
    ds: Seq<Diag>,
)
    requires
        0 <= i <= items.len(),
        no_modules(items),
        acc == items.subrange(0, i),
    ensures
        loader::resolve_items(files, depth, dir, items, i, acc, ds) == Ok::<
            (Seq<AItem>, Seq<Diag>),
            SError,
        >((items, ds)),
    decreases items.len() - i,
{
    if i < items.len() {
        assert(!(items[i] is Mod));
        assert(loader::resolve_item(files, depth, dir, items[i]) == Ok::<
            (AItem, Seq<Diag>),
            SError,
        >((items[i], Seq::empty())));
        assert(acc.push(items[i]) =~= items.subrange(0, i + 1));
        assert(ds + Seq::<Diag>::empty() =~= ds);
        lemma_plain_items(files, depth, dir, items, i + 1, acc.push(items[i]), ds);
    } else {
        assert(acc =~= items);
    }
}

/// A program of one file without modules is what the file says.
pub proof fn law_single_files(files: Table<SSource>, entry: Text, src: Text, p: AProgram)
    requires
        name_map::find(files, entry) == Some(SSource::Text(src)),
        loader::parsed(src, entry) == Ok::<AProgram, Diag>(p),
        no_modules(p.items),
    ensures
        loader::loaded(files, entry) == Ok::<AProgram, SError>(p),
{
    assert(Seq::<AItem>::empty() =~= p.items.subrange(0, 0));
    lemma_plain_items(
        files,
        files.len(),
        loader::parent(entry),
        p.items,
        0,
        Seq::empty(),
        Seq::empty(),
    );
    assert(p == (AProgram { items: p.items }));
}

/// A module without a body is read from the file of its name, in the directory of the file that
/// names it: `mod m;` in `dir` holds what `dir/m.rune` says.
pub proof fn law_modules_come_from_their_files(
    files: Table<SSource>,
    depth: nat,
    dir: Text,
    d: AModDef,
    src: Text,
    p: AProgram,
)
    requires
        depth > 0,
        d.items is None,
        dir.len() > 0,
        dir.last() != '/',
        d.name.len() > 0,
        d.name[0] != '/',
        name_map::find(files, dir + "/"@ + (d.name + ".rune"@)) == Some(SSource::Text(src)),
        loader::parsed(src, dir + "/"@ + (d.name + ".rune"@)) == Ok::<AProgram, Diag>(p),
        no_modules(p.items),
    ensures
        loader::resolve_item(files, depth, dir, AItem::Mod(d)) == Ok::<
            (AItem, Seq<Diag>),
            SError,
        >(
            (
                AItem::Mod(AModDef { name: d.name, items: Some(p.items), span: d.span }),
                Seq::empty(),
            ),
        ),
{
    let path = loader::joined(dir, d.name + ".rune"@);
    assert(path == dir + "/"@ + (d.name + ".rune"@));
    assert(Seq::<AItem>::empty() =~= p.items.subrange(0, 0));
    lemma_plain_items(
        files,
        (depth - 1) as nat,
        loader::joined(dir, d.name),
        p.items,
        0,
        Seq::empty(),
        Seq::empty(),
    );
    assert(loader::opened(files, path, "module file `"@) == Ok::<
        Result<Seq<AItem>, Diag>,
        SError,
    >(Ok(p.items)));
}

/// With a standard library the program is what it is without, behind the module `std`.
pub proof fn law_the_library_stands_in_front(
    files: Table<SSource>,
    p: AProgram,
    dir: Text,
    names: Seq<Text>,
)
    ensures
        loader::with_std(files, p, None) == Ok::<AProgram, SError>(p),
        loader::with_std(files, p, Some((dir, names))) matches Ok(q) ==> {
            &&& q.items.len() == p.items.len() + 1
            &&& q.items.drop_first() == p.items
            &&& q.items[0] matches AItem::Mod(d) && d.name == "std"@ && d.items is Some
        },
{
    if let Ok(q) = loader::with_std(files, p, Some((dir, names))) {
        assert(q.items.drop_first() =~= p.items);
    }
}

/// The modules of the library are those of its files, in order, each called like its file and
/// with what the file says.
pub proof fn law_library_modules(
    files: Table<SSource>,
    dir: Text,
    names: Seq<Text>,
    srcs: Seq<Text>,
    ps: Seq<AProgram>,
)
    requires
        srcs.len() == names.len(),
        ps.len() == names.len(),
        forall|i: int|
            0 <= i < names.len() ==> (name_map::find(
                files,
                loader::joined(dir, #[trigger] names[i] + ".rune"@),
            ) == Some(SSource::Text(srcs[i])) && loader::parsed(
                srcs[i],
                loader::joined(dir, names[i] + ".rune"@),
            ) == Ok::<AProgram, Diag>(ps[i]) && no_modules(ps[i].items)),
    ensures
        loader::std_modules(files, dir, names, 0, Seq::empty(), Seq::empty()) matches Ok((ms, ds))
            && ds.len() == 0 && ms.len() == names.len() && forall|i: int|
            0 <= i < names.len() ==> (#[trigger] ms[i] matches AItem::Mod(d) && d.name == names[i]
                && d.items == Some(ps[i].items)),
{
    lemma_library(files, dir, names, srcs, ps, 0, Seq::empty());
}

proof fn lemma_library(
    files: Table<SSource>,
    dir: Text,
    names: Seq<Text>,
    srcs: Seq<Text>,
    ps: Seq<AProgram>,
    i: int,
    acc: Seq<AItem>,
)
    requires
        0 <= i <= names.len(),
        srcs.len() == names.len(),
        ps.len() == names.len(),
        forall|i: int|
            0 <= i < names.len() ==> (name_map::find(
                files,
                loader::joined(dir, #[trigger] names[i] + ".rune"@),
            ) == Some(SSource::Text(srcs[i])) && loader::parsed(
                srcs[i],
                loader::joined(dir, names[i] + ".rune"@),
            ) == Ok::<AProgram, Diag>(ps[i]) && no_modules(ps[i].items)),
        acc.len() == i,
        forall|k: int|
            0 <= k < i ==> (#[trigger] acc[k] matches AItem::Mod(d) && d.name == names[k] && d.items
                == Some(ps[k].items)),
    ensures
        loader::std_modules(files, dir, names, i, acc, Seq::empty()) matches Ok((ms, ds)) && ds.len()
            == 0 && ms.len() == names.len() && forall|k: int|
            0 <= k < names.len() ==> (#[trigger] ms[k] matches AItem::Mod(d) && d.name == names[k]
                && d.items == Some(ps[k].items)),
    decreases names.len() - i,
{
    if i < names.len() {
        let path = loader::joined(dir, names[i] + ".rune"@);
        assert(name_map::find(files, path) == Some(SSource::Text(srcs[i])));
        assert(no_modules(ps[i].items));
        assert(Seq::<AItem>::empty() =~= ps[i].items.subrange(0, 0));
        lemma_plain_items(
            files,
            files.len(),
            loader::joined(dir, names[i]),
            ps[i].items,
            0,
            Seq::empty(),
            Seq::empty(),
        );
        let x = AItem::Mod(
            AModDef {
                name: names[i],
                items: Some(ps[i].items),
                span: crate::span::Span::nowhere(),
            },
        );
        assert(Seq::<Diag>::empty() + Seq::<Diag>::empty() =~= Seq::<Diag>::empty());
        lemma_library(files, dir, names, srcs, ps, i + 1, acc.push(x));
    }
}

// ---- packages -----------------------------------------------------------

/// A package without dependencies is the program of its entry file.
pub proof fn law_packages_alone(
    pkgs: Table<PPackage>,
    files: Table<SSource>,
    dir: Text,
    depth: nat,
    key: Text,
    m: PManifest,
)
    requires
        name_map::find(pkgs, dir) == Some(PPackage::Read(key, m)),
        m.deps.len() == 0,
    ensures
        pkg::resolved(pkgs, files, dir, Seq::empty(), depth) == loader::loaded(
            files,
            loader::joined(dir, m.entry),
        ),
{
    match loader::loaded(files, loader::joined(dir, m.entry)) {
        Ok(p) => {
            if depth > 0 {
                let none = Seq::<AItem>::empty();
                assert(none + p.items =~= p.items);
                assert(pkg::dep_modules(
                    pkgs,
                    files,
                    dir,
                    Seq::<Text>::empty().push(key),
                    m.deps,
                    0,
                    none,
                    (depth - 1) as nat,
                ) == Ok::<Seq<AItem>, SError>(none));
            }
        },
        Err(_) => {},
    }
}

/// A package on the way to itself is refused.
pub proof fn law_cycles_are_refused(
    pkgs: Table<PPackage>,
    files: Table<SSource>,
    dir: Text,
    visited: Seq<Text>,
    depth: nat,
    key: Text,
    m: PManifest,
)
    requires
        name_map::find(pkgs, dir) == Some(PPackage::Read(key, m)),
        visited.contains(key),
    ensures
        pkg::resolved(pkgs, files, dir, visited, depth) matches Err(SError::Failed(ds)) && ds.len()
            == 1,
{
}

proof fn lemma_dependencies(
    pkgs: Table<PPackage>,
    files: Table<SSource>,
    dir: Text,
    visited: Seq<Text>,
    deps: Seq<PDep>,
    i: int,
    acc: Seq<AItem>,
    depth: nat,
)
    requires
        0 <= i <= deps.len(),
        acc.len() == i,
        forall|k: int|
            0 <= k < i ==> (pkg::resolved(
                pkgs,
                files,
                loader::joined(dir, deps[k].path),
                visited,
                depth,
            ) matches Ok(p) && (#[trigger] acc[k] matches AItem::Mod(d) && d.name == deps[k].name
                && d.items == Some(p.items))),
    ensures
        pkg::dep_modules(pkgs, files, dir, visited, deps, i, acc, depth) matches Ok(ms) ==> ms.len()
            == deps.len() && forall|k: int|
            0 <= k < deps.len() ==> (pkg::resolved(
                pkgs,
                files,
                loader::joined(dir, deps[k].path),
                visited,
                depth,
            ) matches Ok(p) && (#[trigger] ms[k] matches AItem::Mod(d) && d.name == deps[k].name
                && d.items == Some(p.items))),
    decreases deps.len() - i,
{
    if i < deps.len() {
        match pkg::resolved(pkgs, files, loader::joined(dir, deps[i].path), visited, depth) {
            Ok(p) => {
                let x = AItem::Mod(
                    AModDef {
                        name: deps[i].name,
                        items: Some(p.items),
                        span: crate::span::Span::nowhere(),
                    },
                );
                lemma_dependencies(
                    pkgs,
                    files,
                    dir,
                    visited,
                    deps,
                    i + 1,
                    acc.push(x),
                    depth,
                );
            },
            Err(_) => {},
        }
    }
}

/// The program of a package is that of its entry file, behind one module for each dependency,
/// in order, which is called like the dependency and holds the program of the package there.
pub proof fn law_dependencies_are_modules(
    pkgs: Table<PPackage>,
    files: Table<SSource>,
    dir: Text,
    visited: Seq<Text>,
    depth: nat,
    key: Text,
    m: PManifest,
    p: AProgram,
)
    requires
        depth > 0,
        name_map::find(pkgs, dir) == Some(PPackage::Read(key, m)),
        loader::loaded(files, loader::joined(dir, m.entry)) == Ok::<AProgram, SError>(p),
    ensures
        pkg::resolved(pkgs, files, dir, visited, depth) matches Ok(q) ==> {
            let n = m.deps.len() as int;
            &&& q.items.len() == n + p.items.len()
            &&& q.items.subrange(n, q.items.len() as int) == p.items
            &&& forall|k: int|
                0 <= k < n ==> (pkg::resolved(
                    pkgs,
                    files,
                    loader::joined(dir, m.deps[k].path),
                    visited.push(key),
                    (depth - 1) as nat,
                ) matches Ok(r) && (#[trigger] q.items[k] matches AItem::Mod(d) && d.name
                    == m.deps[k].name && d.items == Some(r.items)))
        },
{
    if let Ok(q) = pkg::resolved(pkgs, files, dir, visited, depth) {
        let d = (depth - 1) as nat;
        lemma_dependencies(
            pkgs,
            files,
            dir,
            visited.push(key),
            m.deps,
            0,
            Seq::empty(),
            d,
        );
        let ms = pkg::dep_modules(
            pkgs,
            files,
            dir,
            visited.push(key),
            m.deps,
            0,
            Seq::empty(),
            d,
        )->Ok_0;
        assert(q.items == ms + p.items);
        assert(q.items.subrange(ms.len() as int, q.items.len() as int) =~= p.items);
        assert forall|k: int| 0 <= k < ms.len() implies #[trigger] q.items[k] == ms[k] by {}
    }
}

// ---- manifests ----------------------------------------------------------

proof fn lemma_dep_table(deps: Seq<(Text, Text)>, i: int, acc: Table<Text>)
    requires
        0 <= i <= deps.len(),
        name_map::sorted(acc),
    ensures
        name_map::sorted(pkg::dep_table(deps, i, acc)),
        forall|n: Text|
            (forall|k: int| i <= k < deps.len() ==> (#[trigger] deps[k]).0 != n)
                ==> #[trigger] name_map::find(pkg::dep_table(deps, i, acc), n) == name_map::find(
                acc,
                n,
            ),
        forall|k: int|
            i <= k < deps.len() && (forall|l: int|
                k < l < deps.len() ==> (#[trigger] deps[l]).0 != deps[k].0) ==> name_map::find(
                pkg::dep_table(deps, i, acc),
                (#[trigger] deps[k]).0,
            ) == Some(deps[k].1),
    decreases deps.len() - i,
{
    if i < deps.len() {
        let next = name_map::put(acc, deps[i].0, deps[i].1);
        name_map::law_put_keeps_sorted(acc, deps[i].0, deps[i].1);
        lemma_dep_table(deps, i + 1, next);
        let r = pkg::dep_table(deps, i, acc);
        assert(r == pkg::dep_table(deps, i + 1, next));
        assert forall|n: Text|
            (forall|k: int| i <= k < deps.len() ==> (#[trigger] deps[k]).0 != n) implies #[trigger] name_map::find(
            r,
            n,
        ) == name_map::find(acc, n) by {
            name_map::law_put_then_find(acc, deps[i].0, deps[i].1, n);
            assert(deps[i].0 != n);
        }
        assert forall|k: int|
            i <= k < deps.len() && (forall|l: int|
                k < l < deps.len() ==> (#[trigger] deps[l]).0 != deps[k].0) implies name_map::find(
            r,
            (#[trigger] deps[k]).0,
        ) == Some(deps[k].1) by {
            if k == i {
                name_map::law_put_then_find(acc, deps[i].0, deps[i].1, deps[i].0);
            }
        }
    }
}

/// A manifest has the name and the version that it says, and the entry `src/main.rune` where it
/// says none. Its dependencies stand in the order of their names, each once, with the path that
/// is said last.
pub proof fn law_manifests(
    name: Text,
    version: Text,
    entry: Option<Text>,
    deps: Seq<(Text, Text)>,
    k: int,
)
    ensures
        ({
            let m = pkg::manifest_of(name, version, entry, deps);
            &&& m.name == name && m.version == version
            &&& m.entry == (if entry is Some {
                entry->0
            } else {
                "src/main.rune"@
            })
            &&& forall|i: int, j: int|
                0 <= i < j < m.deps.len() ==> crate::text::text_less(
                    (#[trigger] m.deps[i]).name,
                    (#[trigger] m.deps[j]).name,
                )
            &&& 0 <= k < deps.len() && (forall|l: int|
                k < l < deps.len() ==> (#[trigger] deps[l]).0 != deps[k].0) ==> m.deps.contains(
                PDep { name: deps[k].0, path: deps[k].1 },
            )
        }),
{
    let m = pkg::manifest_of(name, version, entry, deps);
    let t = pkg::dep_table(deps, 0, Seq::empty());
    lemma_dep_table(deps, 0, Seq::empty());
    assert forall|i: int, j: int| 0 <= i < j < m.deps.len() implies crate::text::text_less(
        (#[trigger] m.deps[i]).name,
        (#[trigger] m.deps[j]).name,
    ) by {
        assert(m.deps[i].name == t[i].0 && m.deps[j].name == t[j].0);
    }
    if 0 <= k < deps.len() && (forall|l: int|
        k < l < deps.len() ==> (#[trigger] deps[l]).0 != deps[k].0) {
        assert(name_map::find(t, deps[k].0) == Some(deps[k].1));
        name_map::lemma_find_some(t, deps[k].0, 0);
        let p = choose|p: int|
            0 <= p < t.len() && #[trigger] t[p].0 == deps[k].0 && name_map::find_from(
                t,
                deps[k].0,
                0,
            ) == Some(t[p].1);
        assert(m.deps[p] == (PDep { name: deps[k].0, path: deps[k].1 }));
    }
}

// ---- what is typed ------------------------------------------------------

proof fn lemma_word(s: Text, i: int, j: int)
    requires
        0 <= i <= j <= s.len(),
        forall|k: int| i <= k < j ==> repl::ident_char(#[trigger] s[k]),
        j == s.len() || !repl::ident_char(s[j]),
    ensures
        repl::word_end(s, i) == j,
    decreases j - i,
{
    if i < j {
        assert(repl::ident_char(s[i]));
        lemma_word(s, i + 1, j);
    }
}

/// Whether `s` is `kw`, a blank, the word `name`, and something that does not continue it.
pub open spec fn heads(s: Text, kw: Text, name: Text, rest: Text) -> bool {
    &&& s == kw + " "@ + name + rest
    &&& name.len() > 0
    &&& !repl::white_space(name[0])
    &&& forall|k: int| 0 <= k < name.len() ==> repl::ident_char(#[trigger] name[k])
    &&& rest.len() == 0 || !repl::ident_char(rest[0])
}

proof fn lemma_heads(s: Text, kw: Text, name: Text, rest: Text)
    requires
        heads(s, kw, name, rest),
        kw.len() > 0,
        !repl::white_space(kw[0]),
    ensures
        repl::lead(s, 0) == 0,
        repl::stands_at(s, kw, 0),
        s[0] == kw[0],
        kw.len() > 1 ==> s[1] == kw[1],
        s[kw.len() as int] == ' ',
        repl::keyword_at(s, kw, 0),
        repl::word_behind(s, kw.len() as int) == Some(name),
{
    reveal_strlit(" ");
    let n = kw.len() as int;
    assert(s[0] == kw[0]);
    assert(s.subrange(0, n) =~= kw);
    assert(s[n] == ' ');
    let a = n + 1;
    let b = a + name.len();
    assert(s[a] == name[0]);
    assert(repl::lead(s, a) == a);
    assert(repl::lead(s, n) == a);
    assert forall|k: int| a <= k < b implies repl::ident_char(#[trigger] s[k]) by {
        assert(s[k] == name[k - a]);
    }
    if b < s.len() {
        assert(s[b] == rest[0]);
    }
    lemma_word(s, a, b);
    assert(s.subrange(a, b) =~= name);
}

/// `fn`, `struct` or `enum` with a name behind it defines that name; what begins with `let`,
/// `while`, `for` or `return` is a statement.
pub proof fn law_what_is_typed(s: Text, name: Text, rest: Text)
    ensures
        heads(s, "fn"@, name, rest) ==> repl::kind_of(s) is Definition && repl::header(s) == Some(
            (repl::DefKind::Fn, name),
        ),
        heads(s, "struct"@, name, rest) ==> repl::kind_of(s) is Definition && repl::header(s)
            == Some((repl::DefKind::Struct, name)),
        heads(s, "enum"@, name, rest) ==> repl::kind_of(s) is Definition && repl::header(s) == Some(
            (repl::DefKind::Enum, name),
        ),
        heads(s, "let"@, name, rest) ==> repl::kind_of(s) is Statement,
        heads(s, "while"@, name, rest) ==> repl::kind_of(s) is Statement,
        heads(s, "return"@, name, rest) ==> repl::kind_of(s) is Statement,
{
    reveal_strlit("fn");
    reveal_strlit("struct");
    reveal_strlit("enum");
    reveal_strlit("let");
    reveal_strlit("while");
    reveal_strlit("return");
    assert("fn"@[0] == 'f' && "struct"@[0] == 's' && "enum"@[0] == 'e' && "let"@[0] == 'l'
        && "while"@[0] == 'w' && "return"@[0] == 'r');
    if heads(s, "fn"@, name, rest) {
        lemma_heads(s, "fn"@, name, rest);
    }
    if heads(s, "struct"@, name, rest) {
        lemma_heads(s, "struct"@, name, rest);
        lemma_elsewhere(s, "fn"@);
    }
    if heads(s, "enum"@, name, rest) {
        lemma_heads(s, "enum"@, name, rest);
        lemma_elsewhere(s, "fn"@);
        lemma_elsewhere(s, "struct"@);
    }
    if heads(s, "let"@, name, rest) {
        lemma_heads(s, "let"@, name, rest);
        lemma_elsewhere(s, "fn"@);
        lemma_elsewhere(s, "struct"@);
        lemma_elsewhere(s, "enum"@);
    }
    if heads(s, "while"@, name, rest) {
        lemma_heads(s, "while"@, name, rest);
        lemma_elsewhere(s, "fn"@);
        lemma_elsewhere(s, "struct"@);
        lemma_elsewhere(s, "enum"@);
    }
    if heads(s, "return"@, name, rest) {
        lemma_heads(s, "return"@, name, rest);
        lemma_elsewhere(s, "fn"@);
        lemma_elsewhere(s, "struct"@);
        lemma_elsewhere(s, "enum"@);
    }
}

proof fn lemma_elsewhere(s: Text, kw: Text)
    requires
        s.len() > 0,
        kw.len() > 0,
        s[0] != kw[0],
    ensures
        !repl::stands_at(s, kw, 0),
        !repl::keyword_at(s, kw, 0),
{
    if repl::stands_at(s, kw, 0) {
        assert(s.subrange(0, kw.len() as int)[0] == s[0]);
    }
}

/// What ends with `;` is never an expression.
pub proof fn law_semicolons_end_statements(s: Text)
    requires
        s.len() > 0,
        s.last() == ';',
    ensures
        !(repl::kind_of(s) is Expression),
{
}

// ---- the items of a file ------------------------------------------------

/// How many braces are open at `j` of those that open at `i` or behind.
pub open spec fn open_braces(s: Text, i: int, j: int) -> int
    decreases j - i,
{
    if i >= j {
        0
    } else {
        open_braces(s, i, j - 1) + (if s[j - 1] == '{' {
            1int
        } else if s[j - 1] == '}' {
            -1
        } else {
            0
        })
    }
}

/// Whether an item begins at `a`, opens its first brace at `b` and closes it just before `e`.
pub open spec fn item_between(s: Text, a: int, b: int, e: int) -> bool {
    &&& 0 <= a < b < e <= s.len()
    &&& repl::item_at(s, a)
    &&& forall|k: int| a <= k < e ==> #[trigger] s[k] != '/'
    &&& forall|k: int| a <= k < b ==> #[trigger] s[k] != '{' && s[k] != '}'
    &&& s[b] == '{'
    &&& forall|k: int| b < k < e ==> #[trigger] open_braces(s, b, k) > 0
    &&& open_braces(s, b, e) == 0
}

proof fn lemma_before_brace(s: Text, a: int, b: int, e: int, i: int, acc: Seq<Text>)
    requires
        item_between(s, a, b, e),
        a < i <= b,
    ensures
        repl::items_from(s, i, 0, Some(a), acc) == repl::items_from(s, b, 0, Some(a), acc),
    decreases b - i,
{
    if i < b {
        assert(s[i] != '/' && s[i] != '{' && s[i] != '}');
        lemma_before_brace(s, a, b, e, i + 1, acc);
    }
}

proof fn lemma_in_braces(s: Text, a: int, b: int, e: int, i: int, acc: Seq<Text>)
    requires
        item_between(s, a, b, e),
        b < i < e,
    ensures
        repl::items_from(s, i, open_braces(s, b, i) as nat, Some(a), acc) == repl::items_from(
            s,
            e,
            0,
            None,
            acc.push(repl::trimmed(s.subrange(a, e))),
        ),
    decreases e - i,
{
    let d = open_braces(s, b, i);
    assert(d > 0);
    assert(s[i] != '/');
    assert(open_braces(s, b, i + 1) == d + (if s[i] == '{' {
        1int
    } else if s[i] == '}' {
        -1
    } else {
        0
    }));
    if i + 1 < e {
        assert(open_braces(s, b, i + 1) > 0);
        lemma_in_braces(s, a, b, e, i + 1, acc);
    } else {
        assert(open_braces(s, b, e) == 0);
        assert(s[i] == '}');
        assert(d == 1);
    }
}

/// A file falls into its items: each goes from its first word to the brace that closes the first
/// that it opens. What stands between items is passed over.
pub proof fn law_files_fall_into_items(s: Text, a: int, b: int, e: int, acc: Seq<Text>)
    ensures
        item_between(s, a, b, e) ==> repl::items_from(s, a, 0, None, acc) == repl::items_from(
            s,
            e,
            0,
            None,
            acc.push(repl::trimmed(s.subrange(a, e))),
        ),
        0 <= a < s.len() && !repl::item_at(s, a) && s[a] != '/' && s[a] != '{' && s[a] != '}'
            ==> repl::items_from(s, a, 0, None, acc) == repl::items_from(s, a + 1, 0, None, acc),
        a == s.len() ==> repl::items_from(s, a, 0, None, acc) == Ok::<Seq<Text>, Text>(acc),
{
    if item_between(s, a, b, e) {
        assert(s[a] != '/' && s[a] != '{' && s[a] != '}');
        assert(repl::items_from(s, a, 0, None, acc) == repl::items_from(
            s,
            a + 1,
            0,
            Some(a),
            acc,
        ));
        lemma_before_brace(s, a, b, e, a + 1, acc);
        assert(s[b] != '/');
        assert(open_braces(s, b, b + 1) == open_braces(s, b, b) + 1);
        assert(b + 1 < e) by {
            if b + 1 == e {
                assert(open_braces(s, b, e) == 1);
            }
        }
        lemma_in_braces(s, a, b, e, b + 1, acc);
    }
}

} // verus!
