//! # Packages
//!
//! A *package* is a directory with a manifest (`rune.toml`) and an entry source
//! file (default `src/main.rune`). Packages may depend on other local packages by
//! path; a dependency's top-level items are exposed under a module named after the
//! dependency, so a consumer can write `use mathx::clamp;` or `mathx::clamp(...)`.
//!
//! Resolution assembles a single [`Program`] in this order: the `std` module (if
//! there is one), one `mod <dep>` per dependency, the package's own items.
//!
//! Nothing here touches the disk: what has been read is handed in, and what is
//! needed next is named ([`LoadError`]).

use crate::ast::{self, AItem, AModDef, AProgram, Item, ModDef, Program};
use crate::diagnostic::{Diag, Diagnostic, Stage};
use crate::ir::{Module, TModule};
use crate::loader::{self, check_loaded, inject_std, join_path, load_program, Files, LoadError, SError, SSource};
use crate::model;
use crate::name_map::{self, NameMap, Table};
use crate::span::Span;
use crate::text::{self, cat3, cat4, Text};
use vstd::prelude::*;

verus! {

broadcast use {ast::group_model, ast::group_built, text::group_texts, model::group_views};

/// A package manifest.
#[derive(Clone, Debug, PartialEq)]
pub struct Manifest {
    pub name: String,
    pub version: String,
    /// Entry source file, relative to the package directory.
    pub entry: String,
    /// The dependencies, by name.
    pub deps: Vec<Dep>,
}

/// A single path dependency: another package on disk.
#[derive(Clone, Debug, PartialEq)]
pub struct Dep {
    pub name: String,
    /// Dependency package directory, relative to the depending package.
    pub path: String,
}

/// A [`Dep`] as a mathematical object.
pub struct PDep {
    pub name: Text,
    pub path: Text,
}

/// A [`Manifest`] as a mathematical object.
pub struct PManifest {
    pub name: Text,
    pub version: Text,
    pub entry: Text,
    pub deps: Seq<PDep>,
}

impl View for Dep {
    type V = PDep;

    open spec fn view(&self) -> PDep {
        PDep { name: self.name@, path: self.path@ }
    }
}

impl View for Manifest {
    type V = PManifest;

    open spec fn view(&self) -> PManifest {
        PManifest {
            name: self.name@,
            version: self.version@,
            entry: self.entry@,
            deps: model::views(self.deps@),
        }
    }
}

/// The dependencies from position `i` on, by name, beside those of `acc`.
pub open spec fn dep_table(deps: Seq<(Text, Text)>, i: int, acc: Table<Text>) -> Table<Text>
    decreases deps.len() - i,
{
    if i < 0 || i >= deps.len() {
        acc
    } else {
        dep_table(deps, i + 1, name_map::put(acc, deps[i].0, deps[i].1))
    }
}

/// The manifest with the given parts: the entry file has a default, and the
/// dependencies stand in the order of their names.
pub open spec fn manifest_of(
    name: Text,
    version: Text,
    entry: Option<Text>,
    deps: Seq<(Text, Text)>,
) -> PManifest {
    let t = dep_table(deps, 0, Seq::empty());
    PManifest {
        name,
        version,
        entry: match entry {
            Some(e) => e,
            None => "src/main.rune"@,
        },
        deps: Seq::new(t.len(), |i: int| PDep { name: t[i].0, path: t[i].1 }),
    }
}

/// Pairs of texts, by view.
pub open spec fn pairs(v: Seq<(String, String)>) -> Seq<(Text, Text)> {
    Seq::new(v.len(), |i: int| (v[i].0@, v[i].1@))
}

impl Manifest {
    /// The manifest with the given parts. A dependency is a name and a path.
    pub fn from_parts(
        name: String,
        version: String,
        entry: Option<String>,
        deps: &Vec<(String, String)>,
    ) -> (r: Manifest)
        ensures
            r@ == manifest_of(name@, version@, text::option_view(entry), pairs(deps@)),
    {
        let ghost ms = pairs(deps@);
        let mut table: NameMap<String> = NameMap::new();
        let mut i: usize = 0;
        while i < deps.len()
            invariant
                i <= deps.len(),
                ms == pairs(deps@),
                dep_table(ms, 0, Seq::empty()) == dep_table(ms, i as int, table@),
            decreases deps.len() - i,
        {
            assert(ms[i as int] == (deps[i as int].0@, deps[i as int].1@));
            table.insert(deps[i].0.clone(), deps[i].1.clone());
            i += 1;
        }
        let n = table.len();
        let mut out: Vec<Dep> = Vec::new();
        i = 0;
        while i < n
            invariant
                n == table@.len(),
                i <= n,
                out.len() == i,
                forall|j: int|
                    0 <= j < i ==> #[trigger] out[j]@ == (PDep {
                        name: table@[j].0,
                        path: table@[j].1,
                    }),
            decreases n - i,
        {
            let (name, path) = table.at(i);
            out.push(Dep { name: name.clone(), path: path.clone() });
            i += 1;
        }
        let entry = match entry {
            Some(e) => e,
            None => "src/main.rune".to_string(),
        };
        let r = Manifest { name, version, entry, deps: out };
        assert(r@.deps =~= Seq::new(
            table@.len(),
            |i: int| PDep { name: table@[i].0, path: table@[i].1 },
        ));
        r
    }
}

/// What reading a package directory gave.
#[derive(Clone, Debug)]
pub enum Package {
    /// The directory cannot be accessed, for the given reason.
    Inaccessible(String),
    /// The manifest cannot be read or is invalid; the canonical directory and the
    /// message.
    Invalid(String, String),
    /// The canonical directory and the manifest.
    Read(String, Manifest),
}

/// A [`Package`] as a mathematical object.
pub enum PPackage {
    Inaccessible(Text),
    Invalid(Text, Text),
    Read(Text, PManifest),
}

impl View for Package {
    type V = PPackage;

    open spec fn view(&self) -> PPackage {
        match *self {
            Package::Inaccessible(r) => PPackage::Inaccessible(r@),
            Package::Invalid(k, r) => PPackage::Invalid(k@, r@),
            Package::Read(k, m) => PPackage::Read(k@, m@),
        }
    }
}

/// The packages read so far, by directory.
pub type Packages = NameMap<Package>;

pub open spec fn failure(message: Text) -> SError {
    SError::Failed(seq![Diag { stage: Stage::Parse, message, span: Span::nowhere() }])
}

pub open spec fn cycle_at(dir: Text) -> SError {
    failure("dependency cycle detected at `"@ + dir + "`"@)
}

/// The manifest of the package in `dir`, which must not be among the packages that
/// are being resolved, and its canonical directory.
pub open spec fn enter(pkgs: Table<PPackage>, dir: Text, visited: Seq<Text>) -> Result<
    (Text, PManifest),
    SError,
> {
    match name_map::find(pkgs, dir) {
        None => Err(SError::NeedPackage(dir)),
        Some(PPackage::Inaccessible(reason)) => Err(
            failure("cannot access package `"@ + dir + "`: "@ + reason),
        ),
        Some(PPackage::Invalid(key, reason)) => if visited.contains(key) {
            Err(cycle_at(dir))
        } else {
            Err(failure(reason))
        },
        Some(PPackage::Read(key, m)) => if visited.contains(key) {
            Err(cycle_at(dir))
        } else {
            Ok((key, m))
        },
    }
}

/// The program of the package in `dir`, with its dependencies in front. Packages
/// depend on one another to the given depth at most.
pub open spec fn resolved(
    pkgs: Table<PPackage>,
    files: Table<SSource>,
    dir: Text,
    visited: Seq<Text>,
    depth: nat,
) -> Result<AProgram, SError>
    decreases depth, 0int, 0int,
{
    match enter(pkgs, dir, visited) {
        Err(e) => Err(e),
        Ok((key, m)) => match loader::loaded(files, loader::joined(dir, m.entry)) {
            Err(e) => Err(e),
            Ok(p) => if depth == 0 {
                if m.deps.len() > 0 {
                    Err(cycle_at(dir))
                } else {
                    Ok(p)
                }
            } else {
                match dep_modules(
                    pkgs,
                    files,
                    dir,
                    visited.push(key),
                    m.deps,
                    0,
                    Seq::empty(),
                    (depth - 1) as nat,
                ) {
                    Err(e) => Err(e),
                    Ok(mods) => Ok(AProgram { items: mods + p.items }),
                }
            },
        },
    }
}

/// The modules `acc` and those of the dependencies from position `i` on.
pub open spec fn dep_modules(
    pkgs: Table<PPackage>,
    files: Table<SSource>,
    dir: Text,
    visited: Seq<Text>,
    deps: Seq<PDep>,
    i: int,
    acc: Seq<AItem>,
    depth: nat,
) -> Result<Seq<AItem>, SError>
    decreases depth, 1int, deps.len() - i,
{
    if i < 0 || i >= deps.len() {
        Ok(acc)
    } else {
        match resolved(pkgs, files, loader::joined(dir, deps[i].path), visited, depth) {
            Err(e) => Err(e),
            Ok(p) => dep_modules(
                pkgs,
                files,
                dir,
                visited,
                deps,
                i + 1,
                acc.push(
                    AItem::Mod(
                        AModDef {
                            name: deps[i].name,
                            items: Some(p.items),
                            span: Span::nowhere(),
                        },
                    ),
                ),
                depth,
            ),
        }
    }
}

/// The program of the package in `dir`, with the standard library and the
/// dependencies in front.
pub open spec fn package_program(
    pkgs: Table<PPackage>,
    files: Table<SSource>,
    dir: Text,
    std: Option<(Text, Seq<Text>)>,
) -> Result<AProgram, SError> {
    match resolved(pkgs, files, dir, Seq::empty(), pkgs.len()) {
        Err(e) => Err(e),
        Ok(p) => loader::with_std(files, p, std),
    }
}

/// The module that the package in `dir` stands for.
pub open spec fn built(
    pkgs: Table<PPackage>,
    files: Table<SSource>,
    dir: Text,
    std: Option<(Text, Seq<Text>)>,
) -> Result<TModule, SError> {
    match package_program(pkgs, files, dir, std) {
        Err(e) => Err(e),
        Ok(p) => loader::checked_program(p),
    }
}

fn fail(message: String) -> (r: LoadError)
    ensures
        r@ == failure(message@),
{
    let mut ds: Vec<Diagnostic> = Vec::new();
    let d = Diagnostic::new(Stage::Parse, message, Span::dummy());
    ds.push(d);
    assert(model::views(ds@) =~= seq![d@]);
    LoadError::Failed(ds)
}

fn cycle(dir: &String) -> (r: LoadError)
    ensures
        r@ == cycle_at(dir@),
{
    fail(cat3("dependency cycle detected at `", dir.as_str(), "`"))
}

fn enter_package<'a>(pkgs: &'a Packages, dir: &String, visited: &Vec<String>) -> (r: Result<
    (&'a String, &'a Manifest),
    LoadError,
>)
    ensures
        match r {
            Ok((k, m)) => enter(pkgs@, dir@, text::texts(visited@)) == Ok::<
                (Text, PManifest),
                SError,
            >((k@, m@)),
            Err(e) => enter(pkgs@, dir@, text::texts(visited@)) == Err::<
                (Text, PManifest),
                SError,
            >(e@),
        },
{
    match pkgs.get(dir.as_str()) {
        None => Err(LoadError::NeedPackage(dir.clone())),
        Some(Package::Inaccessible(reason)) => Err(
            fail(cat4("cannot access package `", dir.as_str(), "`: ", reason.as_str())),
        ),
        Some(Package::Invalid(key, reason)) => if text::contains_text(visited, key.as_str()) {
            Err(cycle(dir))
        } else {
            Err(fail(reason.clone()))
        },
        Some(Package::Read(key, m)) => if text::contains_text(visited, key.as_str()) {
            Err(cycle(dir))
        } else {
            Ok((key, m))
        },
    }
}

fn resolve_inner(
    pkgs: &Packages,
    files: &Files,
    dir: &String,
    visited: &mut Vec<String>,
    depth: usize,
) -> (r: Result<Program, LoadError>)
    ensures
        text::result_view(r) == resolved(
            pkgs@,
            files@,
            dir@,
            text::texts(old(visited)@),
            depth as nat,
        ),
        r is Ok ==> text::texts(final(visited)@) == text::texts(old(visited)@),
    decreases depth,
{
    let ghost v0 = text::texts(visited@);
    let (key, m) = enter_package(pkgs, dir, visited)?;
    let entry = join_path(dir.as_str(), m.entry.as_str());
    let program = load_program(files, entry.as_str())?;
    if depth == 0 {
        if m.deps.len() > 0 {
            return Err(cycle(dir));
        }
        return Ok(program);
    }
    let n = visited.len();
    visited.push(key.clone());
    let ghost v1 = text::texts(visited@);
    assert(v1 =~= v0.push(key@));
    let ghost deps = model::views(m.deps@);
    let mut mods: Vec<Item> = Vec::new();
    assert(ast::items_of(mods@) =~= Seq::<AItem>::empty());
    let ghost whole = dep_modules(
        pkgs@,
        files@,
        dir@,
        v1,
        deps,
        0,
        Seq::empty(),
        (depth - 1) as nat,
    );
    let mut i: usize = 0;
    while i < m.deps.len()
        invariant
            depth > 0,
            n == v0.len(),
            v0 == text::texts(old(visited)@),
            v1 == v0.push(key@),
            i <= m.deps.len(),
            deps == model::views(m.deps@),
            text::texts(visited@) == v1,
            whole == dep_modules(
                pkgs@,
                files@,
                dir@,
                v1,
                deps,
                i as int,
                ast::items_of(mods@),
                (depth - 1) as nat,
            ),
            whole matches Err(e) ==> resolved(
                pkgs@,
                files@,
                dir@,
                text::texts(old(visited)@),
                depth as nat,
            ) == Err::<AProgram, SError>(e),
        decreases m.deps.len() - i,
    {
        let d = &m.deps[i];
        assert(deps[i as int] == d@);
        let at = join_path(dir.as_str(), d.path.as_str());
        let p = resolve_inner(pkgs, files, &at, visited, depth - 1)?;
        let ghost before = ast::items_of(mods@);
        reveal(Program::model);
        let it = Item::Mod(
            ModDef { name: d.name.clone(), items: Some(p.items), span: Span::dummy() },
        );
        let ghost added = it@;
        mods.push(it);
        assert(ast::items_of(mods@) =~= before.push(added));
        i += 1;
    }
    let ghost full = visited@;
    visited.truncate(n);
    assert forall|j: int| 0 <= j < n implies #[trigger] text::texts(visited@)[j] == v0[j] by {
        assert(visited@[j] == full[j]);
        assert(text::texts(full)[j] == v1[j]);
    }
    assert(text::texts(visited@) =~= v0);
    reveal(Program::model);
    let ghost first = ast::items_of(mods@);
    let ghost rest = ast::items_of(program.items@);
    let mut own = program.items;
    mods.append(&mut own);
    assert(ast::items_of(mods@) =~= first + rest);
    Ok(Program { items: mods })
}

/// Assemble the full program for the package in `dir`: the `std` module (if given
/// by its directory and the names of its files), each dependency wrapped in a
/// `mod <dep>`, and the package's own items.
pub fn resolve_program(
    pkgs: &Packages,
    files: &Files,
    dir: &str,
    std: Option<(&str, &Vec<String>)>,
) -> (r: Result<Program, LoadError>)
    ensures
        text::result_view(r) == package_program(pkgs@, files@, dir@, loader::std_view(std)),
{
    let mut visited: Vec<String> = Vec::new();
    assert(text::texts(visited@) =~= Seq::<Text>::empty());
    let at = dir.to_string();
    let p = resolve_inner(pkgs, files, &at, &mut visited, pkgs.len())?;
    inject_std(files, p, std)
}

/// Resolve and typecheck the package in `dir`, yielding its typed IR module.
pub fn build(
    pkgs: &Packages,
    files: &Files,
    dir: &str,
    std: Option<(&str, &Vec<String>)>,
) -> (r: Result<Module, LoadError>)
    ensures
        text::result_view(r) == built(pkgs@, files@, dir@, loader::std_view(std)),
{
    let p = resolve_program(pkgs, files, dir, std)?;
    check_loaded(&p)
}

// ---- what is asked for --------------------------------------------------

/// Whether an error that asks for a file or a package asks for one that was not
/// read yet.
pub open spec fn asks_anew(pkgs: Table<PPackage>, files: Table<SSource>, e: SError) -> bool {
    match e {
        SError::NeedFile(p) => name_map::find(files, p) is None,
        SError::NeedPackage(p) => name_map::find(pkgs, p) is None,
        SError::Failed(_) => true,
    }
}

proof fn lemma_package_asks(
    pkgs: Table<PPackage>,
    files: Table<SSource>,
    dir: Text,
    visited: Seq<Text>,
    depth: nat,
)
    ensures
        resolved(pkgs, files, dir, visited, depth) matches Err(e) ==> asks_anew(pkgs, files, e),
    decreases depth, 0int, 0int,
{
    match enter(pkgs, dir, visited) {
        Err(_) => {},
        Ok((key, m)) => {
            loader::law_loading_asks_for_new_files(files, loader::joined(dir, m.entry), None);
            if depth > 0 {
                lemma_deps_ask(
                    pkgs,
                    files,
                    dir,
                    visited.push(key),
                    m.deps,
                    0,
                    Seq::empty(),
                    (depth - 1) as nat,
                );
            }
        },
    }
}

proof fn lemma_deps_ask(
    pkgs: Table<PPackage>,
    files: Table<SSource>,
    dir: Text,
    visited: Seq<Text>,
    deps: Seq<PDep>,
    i: int,
    acc: Seq<AItem>,
    depth: nat,
)
    ensures
        dep_modules(pkgs, files, dir, visited, deps, i, acc, depth) matches Err(e) ==> asks_anew(
            pkgs,
            files,
            e,
        ),
    decreases depth, 1int, deps.len() - i,
{
    if 0 <= i < deps.len() {
        let at = loader::joined(dir, deps[i].path);
        lemma_package_asks(pkgs, files, at, visited, depth);
        match resolved(pkgs, files, at, visited, depth) {
            Err(_) => {},
            Ok(p) => lemma_deps_ask(
                pkgs,
                files,
                dir,
                visited,
                deps,
                i + 1,
                acc.push(
                    AItem::Mod(
                        AModDef {
                            name: deps[i].name,
                            items: Some(p.items),
                            span: Span::nowhere(),
                        },
                    ),
                ),
                depth,
            ),
        }
    }
}

/// Building a package never asks for a file or a package that was handed in
/// already, so reading what is asked for always leads further.
pub proof fn law_building_asks_for_new_things(
    pkgs: Table<PPackage>,
    files: Table<SSource>,
    dir: Text,
    std: Option<(Text, Seq<Text>)>,
)
    ensures
        built(pkgs, files, dir, std) matches Err(e) ==> asks_anew(pkgs, files, e),
{
    lemma_package_asks(pkgs, files, dir, Seq::empty(), pkgs.len());
    loader::law_loading_asks_for_new_files(files, Seq::empty(), std);
    match resolved(pkgs, files, dir, Seq::empty(), pkgs.len()) {
        Ok(p) => {
            assert(loader::with_std(files, p, std) matches Err(e) ==> loader::asks_anew(files, e));
        },
        Err(_) => {},
    }
}

// ---- cycles -------------------------------------------------------------

/// Whether `key` is the canonical directory of a package that was read.
pub open spec fn is_key(pkgs: Table<PPackage>, key: Text) -> bool {
    exists|i: int|
        0 <= i < pkgs.len() && ((#[trigger] pkgs[i]).1 matches PPackage::Read(k, _) && k == key)
}

/// Whether the packages on the way are different packages that were read.
pub open spec fn on_the_way(pkgs: Table<PPackage>, visited: Seq<Text>) -> bool {
    visited.no_duplicates() && forall|j: int|
        0 <= j < visited.len() ==> is_key(pkgs, #[trigger] visited[j])
}

pub open spec fn position_of(pkgs: Table<PPackage>, key: Text) -> int {
    choose|i: int|
        0 <= i < pkgs.len() && ((#[trigger] pkgs[i]).1 matches PPackage::Read(k, _) && k == key)
}

/// There are no more different packages than were read.
proof fn lemma_way_is_short(pkgs: Table<PPackage>, visited: Seq<Text>)
    requires
        on_the_way(pkgs, visited),
    ensures
        visited.len() <= pkgs.len(),
{
    let at = Seq::new(visited.len(), |j: int| position_of(pkgs, visited[j]));
    assert forall|x: int, y: int| 0 <= x < at.len() && 0 <= y < at.len() && x != y implies at[x]
        != at[y] by {
        assert(is_key(pkgs, visited[x]) && is_key(pkgs, visited[y]));
        assert(visited[x] != visited[y]);
    }
    assert(at.no_duplicates());
    at.unique_seq_to_set();
    let all = vstd::set_lib::set_int_range(0, pkgs.len() as int);
    vstd::set_lib::lemma_int_range(0, pkgs.len() as int);
    assert forall|i: int| #[trigger] at.to_set().contains(i) implies all.contains(i) by {
        let j = choose|j: int| 0 <= j < at.len() && at[j] == i;
        assert(is_key(pkgs, visited[j]));
    }
    vstd::set_lib::lemma_len_subset(at.to_set(), all);
}

proof fn lemma_enter(pkgs: Table<PPackage>, dir: Text, visited: Seq<Text>)
    requires
        on_the_way(pkgs, visited),
        enter(pkgs, dir, visited) is Ok,
    ensures
        on_the_way(pkgs, visited.push(enter(pkgs, dir, visited)->Ok_0.0)),
{
    let (key, m) = enter(pkgs, dir, visited)->Ok_0;
    name_map::lemma_find_some(pkgs, dir, 0);
    assert(is_key(pkgs, key));
    let next = visited.push(key);
    assert forall|x: int, y: int|
        0 <= x < next.len() && 0 <= y < next.len() && x != y implies next[x] != next[y] by {
        if x == visited.len() {
            assert(visited[y] == next[y]);
        } else if y == visited.len() {
            assert(visited[x] == next[x]);
        }
    }
}

proof fn lemma_depth(
    pkgs: Table<PPackage>,
    files: Table<SSource>,
    dir: Text,
    visited: Seq<Text>,
    depth: nat,
    more: nat,
)
    requires
        on_the_way(pkgs, visited),
        visited.len() + depth >= pkgs.len(),
        depth <= more,
    ensures
        resolved(pkgs, files, dir, visited, depth) == resolved(pkgs, files, dir, visited, more),
    decreases depth, 0int, 0int,
{
    match enter(pkgs, dir, visited) {
        Err(_) => {},
        Ok((key, m)) => {
            lemma_enter(pkgs, dir, visited);
            lemma_way_is_short(pkgs, visited.push(key));
            lemma_deps_depth(
                pkgs,
                files,
                dir,
                visited.push(key),
                m.deps,
                0,
                Seq::empty(),
                (depth - 1) as nat,
                (more - 1) as nat,
            );
        },
    }
}

proof fn lemma_deps_depth(
    pkgs: Table<PPackage>,
    files: Table<SSource>,
    dir: Text,
    visited: Seq<Text>,
    deps: Seq<PDep>,
    i: int,
    acc: Seq<AItem>,
    depth: nat,
    more: nat,
)
    requires
        on_the_way(pkgs, visited),
        visited.len() + depth >= pkgs.len(),
        depth <= more,
    ensures
        dep_modules(pkgs, files, dir, visited, deps, i, acc, depth) == dep_modules(
            pkgs,
            files,
            dir,
            visited,
            deps,
            i,
            acc,
            more,
        ),
    decreases depth, 1int, deps.len() - i,
{
    if 0 <= i < deps.len() {
        let at = loader::joined(dir, deps[i].path);
        lemma_depth(pkgs, files, at, visited, depth, more);
        match resolved(pkgs, files, at, visited, depth) {
            Err(_) => {},
            Ok(p) => lemma_deps_depth(
                pkgs,
                files,
                dir,
                visited,
                deps,
                i + 1,
                acc.push(
                    AItem::Mod(
                        AModDef {
                            name: deps[i].name,
                            items: Some(p.items),
                            span: Span::nowhere(),
                        },
                    ),
                ),
                depth,
                more,
            ),
        }
    }
}

/// A cycle is reported only where a package is met on the way to itself: to let
/// packages depend on one another more deeply changes nothing.
pub proof fn law_only_cycles_are_refused(
    pkgs: Table<PPackage>,
    files: Table<SSource>,
    dir: Text,
    more: nat,
)
    requires
        pkgs.len() <= more,
    ensures
        resolved(pkgs, files, dir, Seq::empty(), pkgs.len()) == resolved(
            pkgs,
            files,
            dir,
            Seq::empty(),
            more,
        ),
{
    lemma_depth(pkgs, files, dir, Seq::empty(), pkgs.len(), more);
}

} // verus!
