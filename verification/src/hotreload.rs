//! # Hot reload
//!
//! Makes a running program *swappable*: source is edited, recompiled, and the new
//! definitions are spliced into a live session without losing runtime state.
//!
//! Definitions (functions and named types) live in a [`Module`] and are replaced as
//! a whole. Live runtime state, named [`Value`]s, survives unless it depends on a
//! named type whose shape changed.
//!
//! A compile error in the new source is *rejected*: the old module and all live
//! state are kept, and the errors are returned with `applied == false`. Breaking
//! changes are *reported, not refused*.

use crate::compile;
use crate::diagnostic::{Diag, Diagnostic};
use crate::interp::{self, Interpreter};
use crate::ir::{self, Module, TModule};
use crate::model;
use crate::name_map::{self, NameMap, Table};
use crate::semantics::{self, Mem};
use crate::text::{self, Text};
use crate::value::{self, VVal, Value};
use vstd::prelude::*;

verus! {

broadcast use {text::group_texts, model::group_views, value::group_values};

// ---- what a reload reports ----------------------------------------------

pub open spec fn has_func(m: TModule, n: Text) -> bool {
    name_map::find(m.funcs, n) is Some
}

pub open spec fn has_type(m: TModule, n: Text) -> bool {
    name_map::find(m.structs, n) is Some || name_map::find(m.enums, n) is Some
}

/// Whether `n` is a function or a type in `new` that it is not in `old`.
pub open spec fn appears(old: TModule, new: TModule, n: Text) -> bool {
    (has_func(new, n) && !has_func(old, n)) || (has_type(new, n) && !has_type(old, n))
}

pub open spec fn signature_differs(old: TModule, new: TModule, n: Text) -> bool {
    has_func(old, n) && has_func(new, n) && name_map::find(old.funcs, n)->Some_0.sig()
        != name_map::find(new.funcs, n)->Some_0.sig()
}

/// Whether only the body of the function `n` differs.
pub open spec fn body_differs(old: TModule, new: TModule, n: Text) -> bool {
    has_func(old, n) && has_func(new, n) && !signature_differs(old, new, n) && name_map::find(
        old.funcs,
        n,
    )->Some_0.body != name_map::find(new.funcs, n)->Some_0.body
}

/// Whether the named type has the same definition in both modules. One that is a
/// struct in one and an enum in the other has not.
pub open spec fn same_shape(old: TModule, new: TModule, n: Text) -> bool {
    match (name_map::find(old.structs, n), name_map::find(new.structs, n)) {
        (Some(a), Some(b)) => a == b,
        _ => match (name_map::find(old.enums, n), name_map::find(new.enums, n)) {
            (Some(a), Some(b)) => a == b,
            _ => false,
        },
    }
}

/// Whether the type `n` is in both modules, with different definitions.
pub open spec fn shape_changes(old: TModule, new: TModule, n: Text) -> bool {
    has_type(old, n) && has_type(new, n) && !same_shape(old, new, n)
}

/// Whether a value holds a struct or an enum whose definition changes.
pub open spec fn depends(v: VVal, old: TModule, new: TModule) -> bool
    decreases v, 0int,
{
    match v {
        VVal::Array(xs) => some_depends(xs, old, new, 0),
        VVal::Tuple(xs) => some_depends(xs, old, new, 0),
        VVal::Struct(n, xs) => shape_changes(old, new, n) || some_depends(xs, old, new, 0),
        VVal::Enum(n, _, xs) => shape_changes(old, new, n) || some_depends(xs, old, new, 0),
        _ => false,
    }
}

/// Whether one of the values from position `i` on depends on a changed type.
pub open spec fn some_depends(xs: Seq<VVal>, old: TModule, new: TModule, i: int) -> bool
    decreases xs, xs.len() - i,
{
    if i < 0 || i >= xs.len() {
        false
    } else {
        depends(xs[i], old, new) || some_depends(xs, old, new, i + 1)
    }
}

/// Whether the live value called `n` has to be dropped.
pub open spec fn is_dropped(live: Table<VVal>, old: TModule, new: TModule, n: Text) -> bool {
    match name_map::find(live, n) {
        Some(v) => depends(v, old, new),
        None => false,
    }
}

/// The list holds exactly the names of `s`, in strictly ascending order.
pub open spec fn lists(names: Seq<Text>, s: Set<Text>) -> bool {
    &&& forall|i: int, j: int|
        0 <= i < j < names.len() ==> text::text_less(#[trigger] names[i], #[trigger] names[j])
    &&& forall|n: Text| #[trigger] names.contains(n) <==> s.contains(n)
}

/// A summary of what a single [`ReloadEngine::reload_str`] did. Every list of names
/// is sorted.
#[derive(Debug)]
pub struct ReloadReport {
    /// Functions/types present only in the new source.
    pub added: Vec<String>,
    /// Functions/types present only in the old module.
    pub removed: Vec<String>,
    /// Functions whose body changed but whose signature is identical.
    pub changed: Vec<String>,
    /// Functions swapped with a different signature (a breaking change for callers).
    pub signature_changed: Vec<String>,
    /// Structs/enums present in both whose definition (shape) changed.
    pub type_changed: Vec<String>,
    /// Live variables dropped because a named type they depend on changed shape.
    pub dropped_state: Vec<String>,
    /// Compile errors in the new source. When non-empty the reload was rejected.
    pub errors: Vec<Diagnostic>,
    /// True iff the new module was installed.
    pub applied: bool,
}

impl ReloadReport {
    /// The report on an installed module.
    pub open spec fn tells(&self, live: Table<VVal>, old: TModule, new: TModule) -> bool {
        &&& self.applied
        &&& self.errors@.len() == 0
        &&& lists(text::texts(self.added@), Set::new(|n: Text| appears(old, new, n)))
        &&& lists(text::texts(self.removed@), Set::new(|n: Text| appears(new, old, n)))
        &&& lists(text::texts(self.changed@), Set::new(|n: Text| body_differs(old, new, n)))
        &&& lists(
            text::texts(self.signature_changed@),
            Set::new(|n: Text| signature_differs(old, new, n)),
        )
        &&& lists(
            text::texts(self.type_changed@),
            Set::new(|n: Text| shape_changes(old, new, n)),
        )
        &&& lists(
            text::texts(self.dropped_state@),
            Set::new(|n: Text| is_dropped(live, old, new, n)),
        )
    }

    /// The report on a rejected source.
    pub open spec fn rejects(&self, errors: Seq<Diag>) -> bool {
        &&& !self.applied
        &&& model::views(self.errors@) == errors
        &&& self.added@.len() == 0
        &&& self.removed@.len() == 0
        &&& self.changed@.len() == 0
        &&& self.signature_changed@.len() == 0
        &&& self.type_changed@.len() == 0
        &&& self.dropped_state@.len() == 0
    }
}

impl Default for ReloadReport {
    fn default() -> (r: ReloadReport)
        ensures
            r.rejects(Seq::empty()),
    {
        let r = ReloadReport {
            added: Vec::new(),
            removed: Vec::new(),
            changed: Vec::new(),
            signature_changed: Vec::new(),
            type_changed: Vec::new(),
            dropped_state: Vec::new(),
            errors: Vec::new(),
            applied: false,
        };
        assert(model::views(r.errors@) =~= Seq::<Diag>::empty());
        r
    }
}

// ---- the engine ---------------------------------------------------------

/// The state of an engine as a mathematical object.
#[verifier::ext_equal]
pub struct Session {
    pub module: TModule,
    pub live: Table<VVal>,
}

/// Owns the current typed module (the swappable definitions) plus the live named
/// values that must survive across reloads.
#[derive(Debug)]
pub struct ReloadEngine {
    module: Module,
    live: NameMap<Value>,
}

impl View for ReloadEngine {
    type V = Session;

    closed spec fn view(&self) -> Session {
        Session { module: self.module@, live: self.live@ }
    }
}

/// Names collected in order.
type Names = NameMap<bool>;

proof fn lemma_keys(t: Table<bool>)
    requires
        name_map::sorted(t),
    ensures
        lists(name_map::keys(t), Set::new(|n: Text| name_map::find(t, n) is Some)),
{
    let ks = name_map::keys(t);
    let s = Set::new(|n: Text| name_map::find(t, n) is Some);
    assert forall|i: int, j: int| 0 <= i < j < ks.len() implies text::text_less(
        #[trigger] ks[i],
        #[trigger] ks[j],
    ) by {
        assert(ks[i] == t[i].0 && ks[j] == t[j].0);
    }
    assert forall|n: Text| #[trigger] ks.contains(n) <==> s.contains(n) by {
        if ks.contains(n) {
            let i = choose|i: int| 0 <= i < ks.len() && ks[i] == n;
            assert(t[i].0 == n);
            name_map::lemma_find_sorted(t, i);
        }
        if s.contains(n) {
            name_map::lemma_find_some(t, n, 0);
            let p = choose|p: int|
                0 <= p < t.len() && #[trigger] t[p].0 == n && name_map::find_from(t, n, 0) == Some(
                    t[p].1,
                );
            assert(ks[p] == n);
        }
    }
}

/// The collected names as a list.
fn names_of(set: &Names) -> (r: Vec<String>)
    ensures
        lists(text::texts(r@), Set::new(|n: Text| name_map::find(set@, n) is Some)),
{
    let n = set.len();
    proof {
        lemma_keys(set@);
    }
    set.names()
}

/// Collect the names of `from` that neither `a` nor `b` has.
fn collect<T: View, U: View, V: View>(
    set: &mut Names,
    from: &NameMap<T>,
    a: &NameMap<U>,
    b: &NameMap<V>,
)
    ensures
        forall|n: Text| #[trigger]
            name_map::find(final(set)@, n) is Some <==> (name_map::find(old(set)@, n) is Some || (
            name_map::find(from@, n) is Some && name_map::find(a@, n) is None && name_map::find(
                b@,
                n,
            ) is None)),
{
    let len = from.len();
    let mut i: usize = 0;
    while i < len
        invariant
            len == from@.len(),
            name_map::sorted(from@),
            i <= len,
            forall|n: Text| #[trigger]
                name_map::find(set@, n) is Some <==> (name_map::find(old(set)@, n) is Some || ((
                exists|j: int| 0 <= j < i && (#[trigger] from@[j]).0 == n) && name_map::find(
                    a@,
                    n,
                ) is None && name_map::find(b@, n) is None)),
        decreases len - i,
    {
        let (name, _) = from.at(i);
        let ghost before = set@;
        let _ = set.len();
        if !a.contains_key(name.as_str()) && !b.contains_key(name.as_str()) {
            proof {
                assert forall|n: Text| #[trigger]
                    name_map::find(name_map::put(before, name@, true), n) is Some <==> (
                name_map::find(before, n) is Some || n == name@) by {
                    name_map::law_put_then_find(before, name@, true, n);
                }
            }
            set.insert(name.clone(), true);
        }
        assert forall|n: Text| #[trigger] name_map::find(set@, n) is Some <==> (name_map::find(
            old(set)@,
            n,
        ) is Some || ((exists|j: int| 0 <= j < i + 1 && (#[trigger] from@[j]).0 == n)
            && name_map::find(a@, n) is None && name_map::find(b@, n) is None)) by {
            let was = exists|j: int| 0 <= j < i && (#[trigger] from@[j]).0 == n;
            let now = exists|j: int| 0 <= j < i + 1 && (#[trigger] from@[j]).0 == n;
            if n == name@ {
                assert(from@[i as int].0 == n);
            }
            if now && !was {
                let j = choose|j: int| 0 <= j < i + 1 && (#[trigger] from@[j]).0 == n;
                assert(j == i);
            }
            if was {
                let j = choose|j: int| 0 <= j < i && (#[trigger] from@[j]).0 == n;
                assert(from@[j].0 == n);
            }
            assert(name_map::find(before, n) is Some <==> (name_map::find(old(set)@, n) is Some || (
            was && name_map::find(a@, n) is None && name_map::find(b@, n) is None)));
        }
        i += 1;
    }
    assert forall|n: Text| #[trigger] name_map::find(set@, n) is Some <==> (name_map::find(
        old(set)@,
        n,
    ) is Some || (name_map::find(from@, n) is Some && name_map::find(a@, n) is None
        && name_map::find(b@, n) is None)) by {
        lemma_present(from@, n);
    }
}

/// A name is found in a sorted table exactly if an entry has it.
proof fn lemma_present<T>(t: Table<T>, n: Text)
    requires
        name_map::sorted(t),
    ensures
        name_map::find(t, n) is Some <==> exists|j: int|
            0 <= j < t.len() && (#[trigger] t[j]).0 == n,
{
    if name_map::find(t, n) is Some {
        name_map::lemma_find_some(t, n, 0);
    }
    if exists|j: int| 0 <= j < t.len() && (#[trigger] t[j]).0 == n {
        let j = choose|j: int| 0 <= j < t.len() && (#[trigger] t[j]).0 == n;
        name_map::lemma_find_sorted(t, j);
    }
}

/// The functions and types of `new` that `old` does not have.
fn appearing(old: &Module, new: &Module) -> (r: Vec<String>)
    ensures
        lists(text::texts(r@), Set::new(|n: Text| appears(old@, new@, n))),
{
    let mut set: Names = NameMap::new();
    collect(&mut set, &new.funcs, &old.funcs, &old.funcs);
    collect(&mut set, &new.structs, &old.structs, &old.enums);
    collect(&mut set, &new.enums, &old.structs, &old.enums);
    assert(Set::new(|n: Text| name_map::find(set@, n) is Some) =~= Set::new(
        |n: Text| appears(old@, new@, n),
    ));
    names_of(&set)
}

/// What a reload asks of a name.
#[derive(Clone, Copy, PartialEq, Eq, Structural)]
enum Question {
    Signature,
    Body,
    Shape,
}

impl Question {
    spec fn holds(self, old: TModule, new: TModule, n: Text) -> bool {
        match self {
            Question::Signature => signature_differs(old, new, n),
            Question::Body => body_differs(old, new, n),
            Question::Shape => shape_changes(old, new, n),
        }
    }

    fn ask(self, old: &Module, new: &Module, n: &str) -> (b: bool)
        ensures
            b == self.holds(old@, new@, n@),
    {
        broadcast use {ir::group_model, ir::group_built};

        match self {
            Question::Shape => (old.structs.contains_key(n) || old.enums.contains_key(n)) && (
            new.structs.contains_key(n) || new.enums.contains_key(n)) && !type_defs_equal(
                old,
                new,
                n,
            ),
            _ => match (old.funcs.get(n), new.funcs.get(n)) {
                (Some(f), Some(g)) => {
                    proof {
                        assert(*f == ir::Func {
                            name: f.name,
                            params: f.params,
                            ret: f.ret,
                            body: f.body,
                        });
                        assert(*g == ir::Func {
                            name: g.name,
                            params: g.params,
                            ret: g.ret,
                            body: g.body,
                        });
                    }
                    let differs = !f.signature().same(&g.signature());
                    if self == Question::Signature {
                        differs
                    } else {
                        !differs && !f.body.same(&g.body)
                    }
                },
                _ => false,
            },
        }
    }
}

/// Collect the names of `from` for which the answer is yes.
fn collect_asked<T: View>(
    set: &mut Names,
    from: &NameMap<T>,
    old_module: &Module,
    new_module: &Module,
    q: Question,
)
    ensures
        forall|n: Text| #[trigger]
            name_map::find(final(set)@, n) is Some <==> (name_map::find(old(set)@, n) is Some || (
            name_map::find(from@, n) is Some && q.holds(old_module@, new_module@, n))),
{
    let len = from.len();
    let mut i: usize = 0;
    while i < len
        invariant
            len == from@.len(),
            name_map::sorted(from@),
            i <= len,
            forall|n: Text| #[trigger]
                name_map::find(set@, n) is Some <==> (name_map::find(old(set)@, n) is Some || ((
                exists|j: int| 0 <= j < i && (#[trigger] from@[j]).0 == n) && q.holds(
                    old_module@,
                    new_module@,
                    n,
                ))),
        decreases len - i,
    {
        let (name, _) = from.at(i);
        let ghost before = set@;
        let _ = set.len();
        if q.ask(old_module, new_module, name.as_str()) {
            proof {
                assert forall|n: Text| #[trigger]
                    name_map::find(name_map::put(before, name@, true), n) is Some <==> (
                name_map::find(before, n) is Some || n == name@) by {
                    name_map::law_put_then_find(before, name@, true, n);
                }
            }
            set.insert(name.clone(), true);
        }
        assert forall|n: Text| #[trigger] name_map::find(set@, n) is Some <==> (name_map::find(
            old(set)@,
            n,
        ) is Some || ((exists|j: int| 0 <= j < i + 1 && (#[trigger] from@[j]).0 == n) && q.holds(
            old_module@,
            new_module@,
            n,
        ))) by {
            let was = exists|j: int| 0 <= j < i && (#[trigger] from@[j]).0 == n;
            let now = exists|j: int| 0 <= j < i + 1 && (#[trigger] from@[j]).0 == n;
            if n == name@ {
                assert(from@[i as int].0 == n);
            }
            if now && !was {
                let j = choose|j: int| 0 <= j < i + 1 && (#[trigger] from@[j]).0 == n;
                assert(j == i);
            }
            if was {
                let j = choose|j: int| 0 <= j < i && (#[trigger] from@[j]).0 == n;
                assert(from@[j].0 == n);
            }
            assert(name_map::find(before, n) is Some <==> (name_map::find(old(set)@, n) is Some || (
            was && q.holds(old_module@, new_module@, n))));
        }
        i += 1;
    }
    assert forall|n: Text| #[trigger] name_map::find(set@, n) is Some <==> (name_map::find(
        old(set)@,
        n,
    ) is Some || (name_map::find(from@, n) is Some && q.holds(old_module@, new_module@, n))) by {
        lemma_present(from@, n);
    }
}

/// Whether the named type has the same definition in both modules.
fn type_defs_equal(old: &Module, new: &Module, name: &str) -> (b: bool)
    ensures
        b == same_shape(old@, new@, name@),
{
    if let (Some(a), Some(b)) = (old.structs.get(name), new.structs.get(name)) {
        return a.same(b);
    }
    if let (Some(a), Some(b)) = (old.enums.get(name), new.enums.get(name)) {
        return a.same(b);
    }
    false
}

/// Whether a live value depends on a named type whose shape changes.
fn value_depends(v: &Value, old: &Module, new: &Module) -> (b: bool)
    ensures
        b == depends(v@, old@, new@),
    decreases v, 0int,
{
    match v {
        Value::Bool(_) => false,
        Value::Int(_, _) => false,
        Value::Bit(_, _) => false,
        Value::Unit => false,
        Value::Array(xs) => some_value_depends(xs, old, new),
        Value::Tuple(xs) => some_value_depends(xs, old, new),
        Value::Struct(n, xs) => Question::Shape.ask(old, new, n.as_str()) || some_value_depends(
            xs,
            old,
            new,
        ),
        Value::Enum(n, _, xs) => Question::Shape.ask(old, new, n.as_str()) || some_value_depends(
            xs,
            old,
            new,
        ),
    }
}

fn some_value_depends(xs: &Vec<Value>, old: &Module, new: &Module) -> (b: bool)
    ensures
        b == some_depends(value::values_of(xs@), old@, new@, 0),
    decreases xs, 1int,
{
    let ghost ms = value::values_of(xs@);
    let mut i: usize = 0;
    while i < xs.len()
        invariant
            i <= xs.len(),
            ms == value::values_of(xs@),
            some_depends(ms, old@, new@, 0) == some_depends(ms, old@, new@, i as int),
        decreases xs.len() - i,
    {
        assert(ms[i as int] == xs[i as int]@);
        if value_depends(&xs[i], old, new) {
            return true;
        }
        i += 1;
    }
    false
}

/// The live values that survive, and the names of those that do not.
fn surviving(live: &NameMap<Value>, old: &Module, new: &Module) -> (r: (NameMap<Value>, Vec<String>))
    ensures
        forall|n: Text| #[trigger]
            name_map::find(r.0@, n) == if is_dropped(live@, old@, new@, n) {
                None
            } else {
                name_map::find(live@, n)
            },
        name_map::sorted(r.0@),
        lists(text::texts(r.1@), Set::new(|n: Text| is_dropped(live@, old@, new@, n))),
{
    let len = live.len();
    let mut kept: NameMap<Value> = NameMap::new();
    let mut set: Names = NameMap::new();
    let mut i: usize = 0;
    while i < len
        invariant
            len == live@.len(),
            name_map::sorted(live@),
            i <= len,
            forall|n: Text| #[trigger]
                name_map::find(set@, n) is Some <==> exists|j: int|
                    0 <= j < i && (#[trigger] live@[j]).0 == n && is_dropped(
                        live@,
                        old@,
                        new@,
                        n,
                    ),
            forall|n: Text| #[trigger]
                name_map::find(kept@, n) == if (exists|j: int|
                    0 <= j < i && (#[trigger] live@[j]).0 == n) && !is_dropped(
                    live@,
                    old@,
                    new@,
                    n,
                ) {
                    name_map::find(live@, n)
                } else {
                    None
                },
        decreases len - i,
    {
        let (name, v) = live.at(i);
        let ghost set0 = set@;
        let ghost kept0 = kept@;
        let _ = set.len();
        let _ = kept.len();
        proof {
            name_map::lemma_find_sorted(live@, i as int);
        }
        let gone = value_depends(v, old, new);
        assert(gone == is_dropped(live@, old@, new@, name@));
        if gone {
            set.insert(name.clone(), true);
        } else {
            kept.insert(name.clone(), v.dup());
        }
        assert forall|n: Text| #[trigger] name_map::find(set@, n) is Some <==> exists|j: int|
            0 <= j < i + 1 && (#[trigger] live@[j]).0 == n && is_dropped(live@, old@, new@, n) by {
            if gone {
                name_map::law_put_then_find(set0, name@, true, n);
            }
            if n == name@ {
                assert(live@[i as int].0 == n);
            }
            if exists|j: int| 0 <= j < i + 1 && (#[trigger] live@[j]).0 == n && is_dropped(
                live@,
                old@,
                new@,
                n,
            ) {
                let j = choose|j: int|
                    0 <= j < i + 1 && (#[trigger] live@[j]).0 == n && is_dropped(
                        live@,
                        old@,
                        new@,
                        n,
                    );
                if j < i {
                    assert(live@[j].0 == n);
                    assert(name_map::find(set0, n) is Some);
                }
            }
            if name_map::find(set0, n) is Some {
                let j = choose|j: int|
                    0 <= j < i && (#[trigger] live@[j]).0 == n && is_dropped(
                        live@,
                        old@,
                        new@,
                        n,
                    );
                assert(live@[j].0 == n);
            }
        }
        assert forall|n: Text| #[trigger] name_map::find(kept@, n) == if (exists|j: int|
            0 <= j < i + 1 && (#[trigger] live@[j]).0 == n) && !is_dropped(live@, old@, new@, n) {
            name_map::find(live@, n)
        } else {
            None
        } by {
            let was = exists|j: int| 0 <= j < i && (#[trigger] live@[j]).0 == n;
            let now = exists|j: int| 0 <= j < i + 1 && (#[trigger] live@[j]).0 == n;
            if !gone {
                name_map::law_put_then_find(kept0, name@, v@, n);
            }
            if n == name@ {
                assert(live@[i as int].0 == n);
            }
            if now && !was {
                let j = choose|j: int| 0 <= j < i + 1 && (#[trigger] live@[j]).0 == n;
                assert(j == i);
            }
            if was {
                let j = choose|j: int| 0 <= j < i && (#[trigger] live@[j]).0 == n;
                assert(live@[j].0 == n);
            }
            assert(name_map::find(kept0, n) == if was && !is_dropped(live@, old@, new@, n) {
                name_map::find(live@, n)
            } else {
                None
            });
        }
        i += 1;
    }
    assert forall|n: Text| #[trigger] name_map::find(kept@, n) == if is_dropped(
        live@,
        old@,
        new@,
        n,
    ) {
        None
    } else {
        name_map::find(live@, n)
    } by {
        lemma_present(live@, n);
    }
    proof {
        let a = Set::new(|n: Text| name_map::find(set@, n) is Some);
        let b = Set::new(|n: Text| is_dropped(live@, old@, new@, n));
        assert forall|n: Text| a.contains(n) == b.contains(n) by {
            lemma_present(live@, n);
            if b.contains(n) {
                let j = choose|j: int| 0 <= j < live@.len() && (#[trigger] live@[j]).0 == n;
                assert(live@[j].0 == n);
                assert(name_map::find(set@, n) is Some);
            }
            if a.contains(n) {
                assert(name_map::find(set@, n) is Some);
            }
        }
        assert(a =~= b);
    }
    let _ = kept.len();
    let gone = names_of(&set);
    (kept, gone)
}

/// The memory in which an engine starts a program.
pub open spec fn fresh_memory() -> Mem {
    Mem { env: Seq::empty(), out: Seq::empty(), cache: Seq::empty() }
}

impl ReloadEngine {
    /// Build an engine from initial source. Returns the front-end diagnostics on
    /// a compile failure.
    pub fn new(src: &str) -> (r: Result<ReloadEngine, Vec<Diagnostic>>)
        ensures
            match crate::compiled(src@) {
                Ok(m) => r matches Ok(e) && e@ == (Session { module: m, live: Seq::empty() }),
                Err(ds) => r matches Err(e) && model::views(e@) == ds,
            },
    {
        match compile(src) {
            Ok(module) => Ok(ReloadEngine { module, live: NameMap::new() }),
            Err(ds) => Err(ds),
        }
    }

    /// The module currently installed.
    pub fn module(&self) -> (r: &Module)
        ensures
            r@ == self@.module,
    {
        &self.module
    }

    /// Run `main()` of the current module and return the lines it printed.
    pub fn run_main(&mut self) -> (r: Result<Vec<String>, Diagnostic>)
        ensures
            final(self)@ == old(self)@,
            ({
                let (x, s) = semantics::call_func(
                    old(self)@.module,
                    interp::ALLOWANCE as nat,
                    "main"@,
                    Seq::empty(),
                    fresh_memory(),
                );
                if name_map::find(old(self)@.module.funcs, "main"@) is None {
                    r matches Err(d) && d@ == interp::no_main()
                } else {
                    match r {
                        Ok(lines) => semantics::settled(x) is Ok && text::texts(lines@) == s.out,
                        Err(d) => semantics::settled(x) == Err::<VVal, Diag>(d@),
                    }
                }
            }),
    {
        let mut interp = Interpreter::new(self.module.dup());
        interp.run_main()
    }

    /// Call a function by name on the current module.
    pub fn call(&mut self, name: &str, args: Vec<Value>) -> (r: Result<Value, Diagnostic>)
        ensures
            final(self)@ == old(self)@,
            interp::verdict(r) == semantics::settled(
                semantics::call_func(
                    old(self)@.module,
                    interp::ALLOWANCE as nat,
                    name@,
                    value::values_of(args@),
                    fresh_memory(),
                ).0,
            ),
    {
        let mut interp = Interpreter::new(self.module.dup());
        interp.call(name, args)
    }

    /// Insert or replace a live named value.
    pub fn set_live(&mut self, name: &str, value: Value)
        ensures
            final(self)@ == (Session {
                module: old(self)@.module,
                live: name_map::put(old(self)@.live, name@, value@),
            }),
    {
        self.live.insert(name.to_string(), value);
    }

    /// Look up a live named value.
    pub fn live(&self, name: &str) -> (r: Option<&Value>)
        ensures
            match r {
                Some(v) => name_map::find(self@.live, name@) == Some(v@),
                None => name_map::find(self@.live, name@) is None,
            },
    {
        self.live.get(name)
    }

    /// All live variable names, sorted.
    pub fn live_names(&self) -> (r: Vec<String>)
        ensures
            text::texts(r@) == name_map::keys(self@.live),
            name_map::sorted(self@.live),
    {
        let _ = self.live.len();
        self.live.names()
    }

    /// Recompile `new_src` and, if it typechecks, splice its definitions into the
    /// session, preserving compatible live state.
    pub fn reload_str(&mut self, new_src: &str) -> (r: ReloadReport)
        ensures
            match crate::compiled(new_src@) {
                Err(ds) => r.rejects(ds) && final(self)@ == old(self)@,
                Ok(m) => {
                    &&& r.tells(old(self)@.live, old(self)@.module, m)
                    &&& final(self)@.module == m
                    &&& name_map::sorted(final(self)@.live)
                    &&& forall|n: Text| #[trigger]
                        name_map::find(final(self)@.live, n) == if is_dropped(
                            old(self)@.live,
                            old(self)@.module,
                            m,
                            n,
                        ) {
                            None
                        } else {
                            name_map::find(old(self)@.live, n)
                        }
                },
            },
    {
        let mut report = ReloadReport::default();
        let new_module = match compile(new_src) {
            Ok(m) => m,
            Err(ds) => {
                report.errors = ds;
                return report;
            },
        };
        let ghost before = self@;
        assert(report.errors@.len() == model::views(report.errors@).len());
        report.added = appearing(&self.module, &new_module);
        report.removed = appearing(&new_module, &self.module);
        let mut set: Names = NameMap::new();
        collect_asked(&mut set, &self.module.funcs, &self.module, &new_module, Question::Body);
        assert(Set::new(|n: Text| name_map::find(set@, n) is Some) =~= Set::new(
            |n: Text| body_differs(before.module, new_module@, n),
        ));
        report.changed = names_of(&set);
        let mut set: Names = NameMap::new();
        collect_asked(&mut set, &self.module.funcs, &self.module, &new_module, Question::Signature);
        assert(Set::new(|n: Text| name_map::find(set@, n) is Some) =~= Set::new(
            |n: Text| signature_differs(before.module, new_module@, n),
        ));
        report.signature_changed = names_of(&set);
        let mut set: Names = NameMap::new();
        collect_asked(&mut set, &self.module.structs, &self.module, &new_module, Question::Shape);
        collect_asked(&mut set, &self.module.enums, &self.module, &new_module, Question::Shape);
        assert(Set::new(|n: Text| name_map::find(set@, n) is Some) =~= Set::new(
            |n: Text| shape_changes(before.module, new_module@, n),
        ));
        report.type_changed = names_of(&set);
        let (live, dropped) = surviving(&self.live, &self.module, &new_module);
        report.dropped_state = dropped;
        report.applied = true;
        self.module = new_module;
        self.live = live;
        assert(report.errors@.len() == 0);
        assert(report.tells(before.live, before.module, self@.module));
        report
    }
}

// ---- file watching ------------------------------------------------------

/// Whether a file that was last seen modified at `last`, if it was there, is newer at `mtime`.
pub open spec fn advances(last: Option<u128>, mtime: u128) -> bool {
    match last {
        Some(prev) => mtime > prev,
        None => true,
    }
}

/// Watches a file by the times at which it is seen to have been modified. A time is
/// a count of ticks of any clock.
#[derive(Debug)]
pub struct FileWatcher {
    last: Option<u128>,
}

impl View for FileWatcher {
    type V = Option<u128>;

    closed spec fn view(&self) -> Option<u128> {
        self.last
    }
}

impl FileWatcher {
    /// Start watching a file. Its modification time, if it exists, becomes the
    /// baseline, so that the first [`FileWatcher::changed`] reports an actual edit
    /// only.
    pub fn new(mtime: Option<u128>) -> (r: FileWatcher)
        ensures
            r@ == mtime,
    {
        FileWatcher { last: mtime }
    }

    /// Whether the modification time advanced since the previous call (or since
    /// construction). A file that was not there before counts as changed. Updates
    /// the baseline on every call.
    pub fn changed(&mut self, mtime: u128) -> (r: bool)
        ensures
            r == advances(old(self)@, mtime),
            r == (match old(self)@ {
                Some(prev) => mtime > prev,
                None => true,
            }),
            final(self)@ == Some(mtime),
    {
        let changed = match self.last {
            Some(prev) => mtime > prev,
            None => true,
        };
        self.last = Some(mtime);
        changed
    }
}

// ---- laws ---------------------------------------------------------------

/// A file that stays as it was is not reported again, nor is one that seems older; one that is
/// newer is, and so is one that was not there.
pub proof fn law_only_edits_are_reported(last: Option<u128>, t: u128, u: u128)
    ensures
        !advances(Some(t), t),
        advances(None, t),
        t < u ==> advances(Some(t), u) && !advances(Some(u), t),
        advances(last, t) && t <= u ==> advances(last, u),
{
}

/// Values without a struct or an enum in them never depend on a definition.
pub proof fn law_primitives_survive(v: VVal, old: TModule, new: TModule)
    requires
        v is Bool || v is Int || v is Bit || v is Unit,
    ensures
        !depends(v, old, new),
{
}

/// An array survives exactly if all its elements do.
pub proof fn law_array_survives(xs: Seq<VVal>, old: TModule, new: TModule)
    ensures
        depends(VVal::Array(xs), old, new) <==> exists|i: int|
            0 <= i < xs.len() && depends(#[trigger] xs[i], old, new),
{
    lemma_some_depends(xs, old, new, 0);
}

proof fn lemma_some_depends(xs: Seq<VVal>, old: TModule, new: TModule, i: int)
    requires
        0 <= i <= xs.len(),
    ensures
        some_depends(xs, old, new, i) <==> exists|j: int|
            i <= j < xs.len() && depends(#[trigger] xs[j], old, new),
    decreases xs.len() - i,
{
    if i < xs.len() {
        lemma_some_depends(xs, old, new, i + 1);
    }
}

/// A struct survives exactly if its definition stays the same and all its fields
/// survive.
pub proof fn law_struct_survives(n: Text, xs: Seq<VVal>, old: TModule, new: TModule)
    ensures
        depends(VVal::Struct(n, xs), old, new) <==> (shape_changes(old, new, n) || exists|i: int|
            0 <= i < xs.len() && depends(#[trigger] xs[i], old, new)),
{
    lemma_some_depends(xs, old, new, 0);
}

/// An enum survives exactly if its definition stays the same and all the values that its
/// variant holds survive.
pub proof fn law_enum_survives(n: Text, tag: usize, xs: Seq<VVal>, old: TModule, new: TModule)
    ensures
        depends(VVal::Enum(n, tag, xs), old, new) <==> (shape_changes(old, new, n) || exists|
            i: int,
        |
            0 <= i < xs.len() && depends(#[trigger] xs[i], old, new)),
{
    lemma_some_depends(xs, old, new, 0);
}

/// A tuple survives exactly if all its elements do.
pub proof fn law_tuple_survives(xs: Seq<VVal>, old: TModule, new: TModule)
    ensures
        depends(VVal::Tuple(xs), old, new) <==> exists|i: int|
            0 <= i < xs.len() && depends(#[trigger] xs[i], old, new),
{
    lemma_some_depends(xs, old, new, 0);
}

/// Whether a value of the named type stands somewhere in `v`: `v` itself, or one in a
/// value that `v` holds.
pub open spec fn mentions(v: VVal, n: Text) -> bool
    decreases v,
{
    match v {
        VVal::Array(xs) => exists|i: int|
            0 <= i < xs.len() && mentions(#[trigger] xs[i], n),
        VVal::Tuple(xs) => exists|i: int|
            0 <= i < xs.len() && mentions(#[trigger] xs[i], n),
        VVal::Struct(s, xs) => s == n || exists|i: int|
            0 <= i < xs.len() && mentions(#[trigger] xs[i], n),
        VVal::Enum(s, _, xs) => s == n || exists|i: int|
            0 <= i < xs.len() && mentions(#[trigger] xs[i], n),
        _ => false,
    }
}

/// A live value is dropped exactly if, at any depth, it holds a value of a type that both
/// modules have and define differently.
pub proof fn law_dropped_exactly_if_a_type_in_it_changed(v: VVal, old: TModule, new: TModule)
    ensures
        depends(v, old, new) <==> exists|n: Text| #[trigger]
            mentions(v, n) && shape_changes(old, new, n),
{
    if depends(v, old, new) {
        lemma_culprit(v, old, new);
    }
    if exists|n: Text| #[trigger] mentions(v, n) && shape_changes(old, new, n) {
        let n = choose|n: Text| #[trigger] mentions(v, n) && shape_changes(old, new, n);
        lemma_mentioned(v, n, old, new);
    }
}

proof fn lemma_culprit(v: VVal, old: TModule, new: TModule)
    requires
        depends(v, old, new),
    ensures
        exists|n: Text| #[trigger] mentions(v, n) && shape_changes(old, new, n),
    decreases v,
{
    let xs = match v {
        VVal::Array(xs) => xs,
        VVal::Tuple(xs) => xs,
        VVal::Struct(n, xs) => xs,
        VVal::Enum(n, _, xs) => xs,
        _ => Seq::empty(),
    };
    lemma_some_depends(xs, old, new, 0);
    if some_depends(xs, old, new, 0) {
        let i = choose|i: int| 0 <= i < xs.len() && depends(#[trigger] xs[i], old, new);
        lemma_culprit(xs[i], old, new);
        let n = choose|n: Text| mentions(#[trigger] xs[i], n) && shape_changes(old, new, n);
        assert(mentions(v, n));
    } else {
        match v {
            VVal::Struct(n, xs) => assert(mentions(v, n)),
            VVal::Enum(n, _, xs) => assert(mentions(v, n)),
            _ => {},
        }
    }
}

proof fn lemma_mentioned(v: VVal, n: Text, old: TModule, new: TModule)
    requires
        mentions(v, n),
        shape_changes(old, new, n),
    ensures
        depends(v, old, new),
    decreases v,
{
    let xs = match v {
        VVal::Array(xs) => xs,
        VVal::Tuple(xs) => xs,
        VVal::Struct(s, xs) => xs,
        VVal::Enum(s, _, xs) => xs,
        _ => Seq::empty(),
    };
    lemma_some_depends(xs, old, new, 0);
    if exists|i: int| 0 <= i < xs.len() && mentions(#[trigger] xs[i], n) {
        let i = choose|i: int| 0 <= i < xs.len() && mentions(#[trigger] xs[i], n);
        lemma_mentioned(xs[i], n, old, new);
        assert(some_depends(xs, old, new, 0));
    }
}

/// A type whose entries in the two modules are alike has not changed; where the modules
/// have it with different fields, different variants, or as a struct here and an enum
/// there, it has.
pub proof fn law_types_change(old: TModule, new: TModule, n: Text)
    ensures
        name_map::find(old.structs, n) is Some && name_map::find(new.structs, n) is Some ==> (
        shape_changes(old, new, n) <==> name_map::find(old.structs, n) != name_map::find(
            new.structs,
            n,
        )),
        name_map::find(old.structs, n) is None && name_map::find(new.structs, n) is None
            && name_map::find(old.enums, n) is Some && name_map::find(new.enums, n) is Some ==> (
        shape_changes(old, new, n) <==> name_map::find(old.enums, n) != name_map::find(
            new.enums,
            n,
        )),
        name_map::find(old.structs, n) is Some && name_map::find(new.structs, n) is None
            && name_map::find(old.enums, n) is None && name_map::find(new.enums, n) is Some
            ==> shape_changes(old, new, n) && shape_changes(new, old, n),
        name_map::find(old.structs, n) is None && name_map::find(old.enums, n) is None
            ==> !shape_changes(old, new, n) && !shape_changes(new, old, n),
{
}

/// A function that both modules have is reported as changed exactly if its body alone
/// differs, and as changed in its signature exactly if its parameter types or its result
/// type differ: never both, and neither exactly if nothing of it differs.
pub proof fn law_functions_change(old: TModule, new: TModule, n: Text)
    requires
        name_map::find(old.funcs, n) is Some,
        name_map::find(new.funcs, n) is Some,
    ensures
        ({
            let f = name_map::find(old.funcs, n)->Some_0;
            let g = name_map::find(new.funcs, n)->Some_0;
            let alike = f.ret == g.ret && f.params.len() == g.params.len() && forall|i: int|
                0 <= i < f.params.len() ==> (#[trigger] f.params[i]).ty == g.params[i].ty;
            &&& signature_differs(old, new, n) <==> !alike
            &&& body_differs(old, new, n) <==> alike && f.body != g.body
        }),
{
    let f = name_map::find(old.funcs, n)->Some_0;
    let g = name_map::find(new.funcs, n)->Some_0;
    if f.ret == g.ret && f.params.len() == g.params.len() && forall|i: int|
        0 <= i < f.params.len() ==> (#[trigger] f.params[i]).ty == g.params[i].ty {
        assert(f.sig().params =~= g.sig().params);
    }
    assert(f.sig().params.len() == f.params.len() && g.sig().params.len() == g.params.len());
    if f.sig() == g.sig() {
        assert forall|i: int| 0 <= i < f.params.len() implies (#[trigger] f.params[i]).ty
            == g.params[i].ty by {
            assert(f.sig().params[i] == f.params[i].ty);
            assert(g.sig().params[i] == g.params[i].ty);
        }
    }
}

/// What one direction adds the other removes, and what both modules have is neither.
pub proof fn law_added_and_removed(old: TModule, new: TModule, n: Text)
    ensures
        name_map::find(new.funcs, n) is Some && name_map::find(old.funcs, n) is None ==> appears(
            old,
            new,
            n,
        ),
        (name_map::find(new.structs, n) is Some || name_map::find(new.enums, n) is Some)
            && name_map::find(old.structs, n) is None && name_map::find(old.enums, n) is None
            ==> appears(old, new, n),
        name_map::find(new.funcs, n) is None && name_map::find(new.structs, n) is None
            && name_map::find(new.enums, n) is None ==> !appears(old, new, n),
        appears(old, new, n) && appears(new, old, n) ==> has_func(old, n) != has_func(new, n)
            && has_type(old, n) != has_type(new, n),
        has_func(old, n) && (has_type(old, n) || !has_type(new, n)) ==> !appears(old, new, n),
        has_type(old, n) && !has_func(new, n) ==> !appears(old, new, n),
{
}

/// Reloading the definitions that are installed reports nothing and drops nothing.
pub proof fn law_reload_of_same_module(m: TModule, v: VVal, n: Text)
    ensures
        !appears(m, m, n),
        !signature_differs(m, m, n),
        !body_differs(m, m, n),
        !shape_changes(m, m, n),
        !depends(v, m, m),
{
    lemma_same_module(m, v);
}

proof fn lemma_same_module(m: TModule, v: VVal)
    ensures
        !depends(v, m, m),
    decreases v, 0int,
{
    match v {
        VVal::Array(xs) => lemma_same_module_all(m, xs, 0),
        VVal::Tuple(xs) => lemma_same_module_all(m, xs, 0),
        VVal::Struct(n, xs) => lemma_same_module_all(m, xs, 0),
        VVal::Enum(n, _, xs) => lemma_same_module_all(m, xs, 0),
        _ => {},
    }
}

proof fn lemma_same_module_all(m: TModule, xs: Seq<VVal>, i: int)
    ensures
        !some_depends(xs, m, m, i),
    decreases xs, xs.len() - i,
{
    if 0 <= i < xs.len() {
        lemma_same_module(m, xs[i]);
        lemma_same_module_all(m, xs, i + 1);
    }
}

} // verus!
