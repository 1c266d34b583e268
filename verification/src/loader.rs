//! # Module loader
//!
//! Resolves file-based modules. A declaration `mod name;` (with no inline body) is
//! loaded from a sibling source file `name.rune` in the same directory as the
//! declaring file; that module's own file submodules live in a `name/`
//! subdirectory. Inline modules are left untouched but their file submodules are
//! still resolved. Everything is stitched into a single [`ast::Program`].
//!
//! The loader touches no disk. It works on what has been read so far ([`Files`])
//! and names the file that it needs next; the caller reads it and asks again.

use crate::ast::{self, AItem, AModDef, AProgram, Item, ModDef, Program};
use crate::diagnostic::{Diag, Diagnostic, Stage};
use crate::grammar;
use crate::ir::{Module, TModule};
use crate::lexer::{self, lex};
use crate::model;
use crate::name_map::{self, NameMap, Table};
use crate::parser::parse;
use crate::program;
use crate::span::Span;
use crate::text::{self, cat2, cat3, cat4, cat5, chars_of, string_of, Text};
use crate::token;
use crate::typeck::check;
use vstd::prelude::*;

verus! {

broadcast use {
    ast::group_model,
    ast::group_built,
    text::group_texts,
    model::group_views,
    token::group_tokens,
};

/// What reading a file gave: its text, or why it cannot be read.
#[derive(Clone, Debug, PartialEq)]
pub enum Source {
    Text(String),
    Unreadable(String),
}

/// A [`Source`] as a mathematical object.
pub enum SSource {
    Text(Text),
    Unreadable(Text),
}

impl View for Source {
    type V = SSource;

    open spec fn view(&self) -> SSource {
        match *self {
            Source::Text(t) => SSource::Text(t@),
            Source::Unreadable(t) => SSource::Unreadable(t@),
        }
    }
}

/// What has been read, by path.
pub type Files = NameMap<Source>;

/// Why there is no result: the sources are wrong, or something must be read first.
#[derive(Debug)]
pub enum LoadError {
    /// What is wrong.
    Failed(Vec<Diagnostic>),
    /// The file at this path has to be read.
    NeedFile(String),
    /// The package in this directory has to be read.
    NeedPackage(String),
}

/// A [`LoadError`] as a mathematical object.
pub enum SError {
    Failed(Seq<Diag>),
    NeedFile(Text),
    NeedPackage(Text),
}

impl View for LoadError {
    type V = SError;

    open spec fn view(&self) -> SError {
        match *self {
            LoadError::Failed(ds) => SError::Failed(model::views(ds@)),
            LoadError::NeedFile(p) => SError::NeedFile(p@),
            LoadError::NeedPackage(p) => SError::NeedPackage(p@),
        }
    }
}

// ---- paths --------------------------------------------------------------

/// The position behind the last `/` among the first `n` characters.
pub open spec fn behind_slash(p: Text, n: int) -> Option<int>
    decreases n,
{
    if n <= 0 || n > p.len() {
        None
    } else if p[n - 1] == '/' {
        Some(n)
    } else {
        behind_slash(p, n - 1)
    }
}

/// The directory that holds the file at a path.
pub open spec fn parent(p: Text) -> Text {
    match behind_slash(p, p.len() as int) {
        Some(n) => if n == 1 {
            p.subrange(0, 1)
        } else {
            p.subrange(0, n - 1)
        },
        None => Seq::empty(),
    }
}

/// The path of `name` in the directory `dir`. A name that begins at the root stands for
/// itself.
pub open spec fn joined(dir: Text, name: Text) -> Text {
    if dir.len() == 0 || (name.len() > 0 && name[0] == '/') {
        name
    } else if dir[dir.len() - 1] == '/' {
        dir + name
    } else {
        dir + "/"@ + name
    }
}

// ---- the standard library -----------------------------------------------

/// The module that a file of the given name holds: what stands before `.rune`.
pub open spec fn stem_of(name: Text) -> Option<Text> {
    let n = name.len() - 5;
    if n > 0 && name.subrange(n, name.len() as int) == ".rune"@ {
        Some(name.subrange(0, n))
    } else {
        None
    }
}

/// The modules that the files from position `i` on hold.
pub open spec fn stems_from(names: Seq<Text>, i: int) -> Seq<Text>
    decreases names.len() - i,
{
    if i < 0 || i >= names.len() {
        Seq::empty()
    } else {
        match stem_of(names[i]) {
            Some(s) => seq![s] + stems_from(names, i + 1),
            None => stems_from(names, i + 1),
        }
    }
}

/// The modules that the files of the given names hold: those whose names end in
/// `.rune`, without that ending.
pub fn rune_modules(names: &Vec<String>) -> (r: Vec<String>)
    ensures
        text::texts(r@) == stems_from(text::texts(names@), 0),
{
    broadcast use text::group_texts;

    let ghost ms = text::texts(names@);
    let mut out: Vec<String> = Vec::new();
    let mut i: usize = 0;
    assert(text::texts(out@) + stems_from(ms, 0) =~= stems_from(ms, 0));
    while i < names.len()
        invariant
            i <= names.len(),
            ms == text::texts(names@),
            stems_from(ms, 0) == text::texts(out@) + stems_from(ms, i as int),
        decreases names.len() - i,
    {
        broadcast use text::group_texts;

        assert(ms[i as int] == names[i as int]@);
        let c = chars_of(names[i].as_str());
        let ghost before = text::texts(out@);
        let ghost rest = stems_from(ms, i as int + 1);
        if c.len() > 5 {
            let n = c.len() - 5;
            let ending = string_of(&c, n, c.len());
            if text::str_eq(ending.as_str(), ".rune") {
                let stem = string_of(&c, 0, n);
                let ghost added = stem@;
                out.push(stem);
                assert(text::texts(out@) =~= before.push(added));
                assert(before + (seq![added] + rest) =~= text::texts(out@) + rest);
            }
        }
        i += 1;
    }
    assert(text::texts(out@) + Seq::<Text>::empty() =~= text::texts(out@));
    out
}

/// The directories in which the standard library is looked for, the first one first:
/// the one that is set, `std` in the directory of the entry file, and `std`.
pub open spec fn std_places(set: Option<Text>, near: Option<Text>) -> Seq<Text> {
    (match set {
        Some(d) => seq![d],
        None => Seq::empty(),
    }) + (match near {
        Some(d) => seq![joined(d, "std"@)],
        None => Seq::empty(),
    }) + seq!["std"@]
}

/// The directories in which the standard library is looked for.
pub fn std_candidates(set: Option<String>, near: Option<String>) -> (r: Vec<String>)
    ensures
        text::texts(r@) == std_places(text::option_view(set), text::option_view(near)),
{
    let ghost a = text::option_view(set);
    let ghost b = text::option_view(near);
    let mut out: Vec<String> = Vec::new();
    if let Some(d) = set {
        out.push(d);
    }
    if let Some(d) = near {
        out.push(join_path(d.as_str(), "std"));
    }
    out.push("std".to_string());
    assert(text::texts(out@) =~= std_places(a, b));
    out
}

// ---- paths --------------------------------------------------------------

/// The directory that holds the file at a path.
pub fn parent_of(path: &str) -> (r: String)
    ensures
        r@ == parent(path@),
{
    let p = chars_of(path);
    let mut n: usize = p.len();
    while n > 0
        invariant
            n <= p.len(),
            p@ == path@,
            behind_slash(p@, p.len() as int) == behind_slash(p@, n as int),
        decreases n,
    {
        if p[n - 1] == '/' {
            if n == 1 {
                return string_of(&p, 0, 1);
            }
            return string_of(&p, 0, n - 1);
        }
        n -= 1;
    }
    let r = String::new();
    assert(r@ =~= Seq::<char>::empty());
    r
}

/// The path of `name` in the directory `dir`. A name that begins at the root stands for
/// itself.
pub fn join_path(dir: &str, name: &str) -> (r: String)
    ensures
        r@ == joined(dir@, name@),
{
    let d = chars_of(dir);
    let n = chars_of(name);
    if d.len() == 0 || (n.len() > 0 && n[0] == '/') {
        name.to_string()
    } else if d[d.len() - 1] == '/' {
        cat2(dir, name)
    } else {
        cat3(dir, "/", name)
    }
}

// ---- files --------------------------------------------------------------

/// A diagnostic with the file it came from.
pub open spec fn relabelled(d: Diag, path: Text) -> Diag {
    Diag { message: d.message + " (in "@ + path + ")"@, ..d }
}

pub open spec fn read_failure(what: Text, path: Text, reason: Text) -> Diag {
    Diag {
        stage: Stage::Parse,
        message: "cannot read "@ + what + path + "`: "@ + reason,
        span: Span::nowhere(),
    }
}

/// The program that the text of the file at `path` stands for.
pub open spec fn parsed(src: Text, path: Text) -> Result<AProgram, Diag> {
    match lexer::tokens_of_text(src) {
        Err(d) => Err(relabelled(d, path)),
        Ok(ts) => match grammar::program(ts) {
            Err(d) => Err(relabelled(d, path)),
            Ok(p) => Ok(p),
        },
    }
}

/// What the file at `path` holds: its items, what is wrong with it, or that it has
/// to be read first.
pub open spec fn opened(files: Table<SSource>, path: Text, what: Text) -> Result<
    Result<Seq<AItem>, Diag>,
    SError,
> {
    match name_map::find(files, path) {
        None => Err(SError::NeedFile(path)),
        Some(SSource::Unreadable(reason)) => Ok(Err(read_failure(what, path, reason))),
        Some(SSource::Text(src)) => match parsed(src, path) {
            Err(d) => Ok(Err(d)),
            Ok(p) => Ok(Ok(p.items)),
        },
    }
}

/// Module files that nest deeper than there are files.
pub open spec fn too_deep(path: Text) -> Diag {
    Diag {
        stage: Stage::Parse,
        message: "module files nest too deep at `"@ + path + "`"@,
        span: Span::nowhere(),
    }
}

/// What resolving gives: the items and what is wrong with them, or what is needed.
pub type Resolved = Result<(Seq<AItem>, Seq<Diag>), SError>;

/// The items from position `i` on of a file or module with submodules in `dir`,
/// behind the items `acc` and the diagnostics `ds`. Module files nest to the given
/// depth at most.
pub open spec fn resolve_items(
    files: Table<SSource>,
    depth: nat,
    dir: Text,
    items: Seq<AItem>,
    i: int,
    acc: Seq<AItem>,
    ds: Seq<Diag>,
) -> Resolved
    decreases depth, items, items.len() - i,
{
    if i < 0 || i >= items.len() {
        Ok((acc, ds))
    } else {
        match resolve_item(files, depth, dir, items[i]) {
            Err(e) => Err(e),
            Ok((it, more)) => resolve_items(
                files,
                depth,
                dir,
                items,
                i + 1,
                acc.push(it),
                ds + more,
            ),
        }
    }
}

/// The module `d` with the given items.
pub open spec fn with_items(d: AModDef, items: Seq<AItem>) -> AItem {
    AItem::Mod(AModDef { name: d.name, items: Some(items), span: d.span })
}

/// One item, with the file modules in it resolved.
pub open spec fn resolve_item(files: Table<SSource>, depth: nat, dir: Text, it: AItem) -> Result<
    (AItem, Seq<Diag>),
    SError,
>
    decreases depth, it, 0int,
{
    match it {
        AItem::Mod(d) => match d.items {
            Some(inner) => match resolve_items(
                files,
                depth,
                joined(dir, d.name),
                inner,
                0,
                Seq::empty(),
                Seq::empty(),
            ) {
                Err(e) => Err(e),
                Ok((items, ds)) => Ok((with_items(d, items), ds)),
            },
            None => {
                let path = joined(dir, d.name + ".rune"@);
                match opened(files, path, "module file `"@) {
                    Err(e) => Err(e),
                    Ok(Err(diag)) => Ok((it, seq![diag])),
                    Ok(Ok(loaded)) => if depth == 0 {
                        Ok((it, seq![too_deep(path)]))
                    } else {
                        match resolve_items(
                            files,
                            (depth - 1) as nat,
                            joined(dir, d.name),
                            loaded,
                            0,
                            Seq::empty(),
                            Seq::empty(),
                        ) {
                            Err(e) => Err(e),
                            Ok((items, ds)) => Ok((with_items(d, items), ds)),
                        }
                    },
                }
            },
        },
        _ => Ok((it, Seq::empty())),
    }
}

/// The program of an entry file, with its file modules resolved.
pub open spec fn loaded(files: Table<SSource>, entry: Text) -> Result<AProgram, SError> {
    match opened(files, entry, "`"@) {
        Err(e) => Err(e),
        Ok(Err(d)) => Err(SError::Failed(seq![d])),
        Ok(Ok(items)) => match resolve_items(
            files,
            files.len(),
            parent(entry),
            items,
            0,
            Seq::empty(),
            Seq::empty(),
        ) {
            Err(e) => Err(e),
            Ok((items, ds)) => if ds.len() > 0 {
                Err(SError::Failed(ds))
            } else {
                Ok(AProgram { items })
            },
        },
    }
}

// ---- the standard library -----------------------------------------------

/// The modules `acc` and those of the files called `names` from position `i` on in
/// the directory `dir`, with the diagnostics `ds` so far.
pub open spec fn std_modules(
    files: Table<SSource>,
    dir: Text,
    names: Seq<Text>,
    i: int,
    acc: Seq<AItem>,
    ds: Seq<Diag>,
) -> Resolved
    decreases names.len() - i,
{
    if i < 0 || i >= names.len() {
        Ok((acc, ds))
    } else {
        match opened(files, joined(dir, names[i] + ".rune"@), "module file `"@) {
            Err(e) => Err(e),
            Ok(Err(d)) => std_modules(files, dir, names, i + 1, acc, ds.push(d)),
            Ok(Ok(items)) => match resolve_items(
                files,
                files.len(),
                joined(dir, names[i]),
                items,
                0,
                Seq::empty(),
                Seq::empty(),
            ) {
                Err(e) => Err(e),
                Ok((items, more)) => std_modules(
                    files,
                    dir,
                    names,
                    i + 1,
                    acc.push(
                        AItem::Mod(
                            AModDef { name: names[i], items: Some(items), span: Span::nowhere() },
                        ),
                    ),
                    ds + more,
                ),
            },
        }
    }
}

/// The names of a list from position `i` on, in order and without repetition,
/// beside those of `acc`.
pub open spec fn in_order(names: Seq<Text>, i: int, acc: Table<bool>) -> Table<bool>
    decreases names.len() - i,
{
    if i < 0 || i >= names.len() {
        acc
    } else {
        in_order(names, i + 1, name_map::put(acc, names[i], true))
    }
}

/// The module `std` made of the files called `names` in the directory `dir`.
pub open spec fn std_item(files: Table<SSource>, dir: Text, names: Seq<Text>) -> Result<
    AItem,
    SError,
> {
    match std_modules(
        files,
        dir,
        name_map::keys(in_order(names, 0, Seq::empty())),
        0,
        Seq::empty(),
        Seq::empty(),
    ) {
        Err(e) => Err(e),
        Ok((items, ds)) => if ds.len() > 0 {
            Err(SError::Failed(ds))
        } else {
            Ok(
                AItem::Mod(
                    AModDef { name: "std"@, items: Some(items), span: Span::nowhere() },
                ),
            )
        },
    }
}

/// The program with the standard library in front, where there is one.
pub open spec fn with_std(
    files: Table<SSource>,
    p: AProgram,
    std: Option<(Text, Seq<Text>)>,
) -> Result<AProgram, SError> {
    match std {
        None => Ok(p),
        Some((dir, names)) => match std_item(files, dir, names) {
            Err(e) => Err(e),
            Ok(it) => Ok(AProgram { items: seq![it] + p.items }),
        },
    }
}

/// The module that an entry file stands for.
pub open spec fn compiled_path(
    files: Table<SSource>,
    entry: Text,
    std: Option<(Text, Seq<Text>)>,
) -> Result<TModule, SError> {
    match loaded(files, entry) {
        Err(e) => Err(e),
        Ok(p) => match with_std(files, p, std) {
            Err(e) => Err(e),
            Ok(q) => checked_program(q),
        },
    }
}

/// The module that a loaded program stands for.
pub open spec fn checked_program(p: AProgram) -> Result<TModule, SError> {
    match program::check_program(p) {
        Ok(m) => Ok(m),
        Err(ds) => Err(SError::Failed(ds)),
    }
}

// ---- loading ------------------------------------------------------------

fn parse_source(src: &str, path: &str) -> (r: Result<Program, Diagnostic>)
    ensures
        text::result_view(r) == parsed(src@, path@),
{
    let tokens = match lex(src) {
        Ok(ts) => ts,
        Err(d) => {
            return Err(relabel(d, path));
        },
    };
    proof {
        assert(token::tokens_of(tokens@).last() == tokens@.last()@);
        reveal(token::Tok::model);
    }
    match parse(tokens.as_slice()) {
        Ok(p) => Ok(p),
        Err(d) => Err(relabel(d, path)),
    }
}

fn relabel(d: Diagnostic, path: &str) -> (r: Diagnostic)
    ensures
        r@ == relabelled(d@, path@),
{
    Diagnostic::new(d.stage, cat4(d.message.as_str(), " (in ", path, ")"), d.span)
}

/// A file's items or what is wrong with it, by view.
pub open spec fn open_view(r: Result<Result<Vec<Item>, Diagnostic>, LoadError>) -> Result<
    Result<Seq<AItem>, Diag>,
    SError,
> {
    match r {
        Err(e) => Err(e@),
        Ok(Err(d)) => Ok(Err(d@)),
        Ok(Ok(items)) => Ok(Ok(ast::items_of(items@))),
    }
}

fn open_file(files: &Files, path: &String, what: &str) -> (r: Result<
    Result<Vec<Item>, Diagnostic>,
    LoadError,
>)
    ensures
        open_view(r) == opened(files@, path@, what@),
{
    match files.get(path.as_str()) {
        None => Err(LoadError::NeedFile(path.clone())),
        Some(Source::Unreadable(reason)) => Ok(
            Err(
                Diagnostic::new(
                    Stage::Parse,
                    cat5("cannot read ", what, path.as_str(), "`: ", reason.as_str()),
                    Span::dummy(),
                ),
            ),
        ),
        Some(Source::Text(src)) => match parse_source(src.as_str(), path.as_str()) {
            Err(d) => Ok(Err(d)),
            Ok(p) => {
                reveal(Program::model);
                Ok(Ok(p.items))
            },
        },
    }
}

/// What resolving gives, by view.
pub open spec fn resolved_view(r: Result<(Vec<Item>, Vec<Diagnostic>), LoadError>) -> Resolved {
    match r {
        Err(e) => Err(e@),
        Ok((items, ds)) => Ok((ast::items_of(items@), model::views(ds@))),
    }
}

fn resolve_mods(files: &Files, depth: usize, dir: &String, items: &Vec<Item>) -> (r: Result<
    (Vec<Item>, Vec<Diagnostic>),
    LoadError,
>)
    ensures
        resolved_view(r) == resolve_items(
            files@,
            depth as nat,
            dir@,
            ast::items_of(items@),
            0,
            Seq::empty(),
            Seq::empty(),
        ),
    decreases depth, items, 1int,
{
    let ghost ms = ast::items_of(items@);
    let mut acc: Vec<Item> = Vec::new();
    let mut ds: Vec<Diagnostic> = Vec::new();
    assert(ast::items_of(acc@) =~= Seq::<AItem>::empty());
    assert(model::views(ds@) =~= Seq::<Diag>::empty());
    let mut i: usize = 0;
    while i < items.len()
        invariant
            i <= items.len(),
            ms == ast::items_of(items@),
            resolve_items(files@, depth as nat, dir@, ms, 0, Seq::empty(), Seq::empty())
                == resolve_items(
                files@,
                depth as nat,
                dir@,
                ms,
                i as int,
                ast::items_of(acc@),
                model::views(ds@),
            ),
        decreases items.len() - i,
    {
        assert(ms[i as int] == items[i as int]@);
        let ghost before = ast::items_of(acc@);
        let ghost ds0 = model::views(ds@);
        match resolve_mod(files, depth, dir, &items[i]) {
            Err(e) => {
                return Err(e);
            },
            Ok((it, more)) => {
                let ghost added = it@;
                let ghost extra = model::views(more@);
                acc.push(it);
                assert(ast::items_of(acc@) =~= before.push(added));
                let mut more = more;
                ds.append(&mut more);
                assert(model::views(ds@) =~= ds0 + extra);
            },
        }
        i += 1;
    }
    Ok((acc, ds))
}

fn resolve_mod(files: &Files, depth: usize, dir: &String, it: &Item) -> (r: Result<
    (Item, Vec<Diagnostic>),
    LoadError,
>)
    ensures
        match r {
            Err(e) => resolve_item(files@, depth as nat, dir@, it@) == Err::<
                (AItem, Seq<Diag>),
                SError,
            >(e@),
            Ok((x, ds)) => resolve_item(files@, depth as nat, dir@, it@) == Ok::<
                (AItem, Seq<Diag>),
                SError,
            >((x@, model::views(ds@))),
        },
    decreases depth, it, 0int,
{
    match it {
        Item::Mod(d) => {
            proof {
                assert(*it == Item::Mod(*d));
                assert(*d == ModDef { name: d.name, items: d.items, span: d.span });
            }
            let child = join_path(dir.as_str(), d.name.as_str());
            match &d.items {
                Some(inner) => {
                    let (items, ds) = resolve_mods(files, depth, &child, inner)?;
                    Ok(
                        (
                            Item::Mod(
                                ModDef { name: d.name.clone(), items: Some(items), span: d.span },
                            ),
                            ds,
                        ),
                    )
                },
                None => {
                    let file = cat2(d.name.as_str(), ".rune");
                    let path = join_path(dir.as_str(), file.as_str());
                    match open_file(files, &path, "module file `")? {
                        Err(diag) => {
                            let mut ds: Vec<Diagnostic> = Vec::new();
                            ds.push(diag);
                            assert(model::views(ds@) =~= seq![diag@]);
                            Ok((it.dup(), ds))
                        },
                        Ok(loaded) => {
                            if depth == 0 {
                                let mut ds: Vec<Diagnostic> = Vec::new();
                                let d = Diagnostic::new(
                                    Stage::Parse,
                                    cat3("module files nest too deep at `", path.as_str(), "`"),
                                    Span::dummy(),
                                );
                                ds.push(d);
                                assert(model::views(ds@) =~= seq![d@]);
                                return Ok((it.dup(), ds));
                            }
                            let (items, ds) = resolve_mods(files, depth - 1, &child, &loaded)?;
                            Ok(
                                (
                                    Item::Mod(
                                        ModDef {
                                            name: d.name.clone(),
                                            items: Some(items),
                                            span: d.span,
                                        },
                                    ),
                                    ds,
                                ),
                            )
                        },
                    }
                },
            }
        },
        _ => {
            reveal(Item::model);
            let ds: Vec<Diagnostic> = Vec::new();
            assert(model::views(ds@) =~= Seq::<Diag>::empty());
            Ok((it.dup(), ds))
        },
    }
}

/// Load an entry file and recursively resolve its file-based modules into one
/// [`Program`].
pub fn load_program(files: &Files, entry: &str) -> (r: Result<Program, LoadError>)
    ensures
        text::result_view(r) == loaded(files@, entry@),
{
    let path = entry.to_string();
    match open_file(files, &path, "`")? {
        Err(d) => {
            let mut ds: Vec<Diagnostic> = Vec::new();
            ds.push(d);
            assert(model::views(ds@) =~= seq![d@]);
            Err(LoadError::Failed(ds))
        },
        Ok(items) => {
            let dir = parent_of(entry);
            let (items, ds) = resolve_mods(files, files.len(), &dir, &items)?;
            if ds.len() > 0 {
                return Err(LoadError::Failed(ds));
            }
            reveal(Program::model);
            Ok(Program { items })
        },
    }
}

/// Load the files called `names` (without `.rune`) in the directory `dir` as
/// submodules and wrap them in a single top-level `mod std { ... }` item. File
/// `math.rune` becomes `mod math { ... }`, usable as `std::math::...`.
pub fn load_std(files: &Files, dir: &str, names: &Vec<String>) -> (r: Result<Item, LoadError>)
    ensures
        text::result_view(r) == std_item(files@, dir@, text::texts(names@)),
{
    let mut set: NameMap<bool> = NameMap::new();
    let mut i: usize = 0;
    while i < names.len()
        invariant
            i <= names.len(),
            in_order(text::texts(names@), 0, Seq::empty()) == in_order(
                text::texts(names@),
                i as int,
                set@,
            ),
        decreases names.len() - i,
    {
        set.insert(names[i].clone(), true);
        i += 1;
    }
    let sorted = set.names();
    let ghost ms = text::texts(sorted@);
    let mut acc: Vec<Item> = Vec::new();
    let mut ds: Vec<Diagnostic> = Vec::new();
    assert(ast::items_of(acc@) =~= Seq::<AItem>::empty());
    assert(model::views(ds@) =~= Seq::<Diag>::empty());
    let ghost whole = std_modules(files@, dir@, ms, 0, Seq::empty(), Seq::empty());
    i = 0;
    while i < sorted.len()
        invariant
            i <= sorted.len(),
            ms == text::texts(sorted@),
            ms == name_map::keys(in_order(text::texts(names@), 0, Seq::empty())),
            whole == std_modules(files@, dir@, ms, 0, Seq::empty(), Seq::empty()),
            whole == std_modules(
                files@,
                dir@,
                ms,
                i as int,
                ast::items_of(acc@),
                model::views(ds@),
            ),
        decreases sorted.len() - i,
    {
        assert(ms[i as int] == sorted[i as int]@);
        let ghost before = ast::items_of(acc@);
        let ghost ds0 = model::views(ds@);
        let file = cat2(sorted[i].as_str(), ".rune");
        let path = join_path(dir, file.as_str());
        match open_file(files, &path, "module file `")? {
            Err(d) => {
                ds.push(d);
            },
            Ok(items) => {
                let child = join_path(dir, sorted[i].as_str());
                let (items, more) = resolve_mods(files, files.len(), &child, &items)?;
                let ghost extra = model::views(more@);
                let it = Item::Mod(
                    ModDef { name: sorted[i].clone(), items: Some(items), span: Span::dummy() },
                );
                let ghost added = it@;
                acc.push(it);
                assert(ast::items_of(acc@) =~= before.push(added));
                let mut more = more;
                ds.append(&mut more);
                assert(model::views(ds@) =~= ds0 + extra);
            },
        }
        i += 1;
    }
    if ds.len() > 0 {
        return Err(LoadError::Failed(ds));
    }
    Ok(Item::Mod(ModDef { name: "std".to_string(), items: Some(acc), span: Span::dummy() }))
}

/// A standard library: its directory and the names of its files, by view.
pub open spec fn std_view(std: Option<(&str, &Vec<String>)>) -> Option<(Text, Seq<Text>)> {
    match std {
        Some((dir, names)) => Some((dir@, text::texts(names@))),
        None => None,
    }
}

/// Put the standard library, where there is one, in front of a program.
pub(crate) fn inject_std(files: &Files, p: Program, std: Option<(&str, &Vec<String>)>) -> (r: Result<
    Program,
    LoadError,
>)
    ensures
        text::result_view(r) == with_std(files@, p@, std_view(std)),
{
    match std {
        None => Ok(p),
        Some((dir, names)) => {
            let it = load_std(files, dir, names)?;
            reveal(Program::model);
            let ghost first = it@;
            let ghost rest = ast::items_of(p.items@);
            let mut items: Vec<Item> = Vec::new();
            items.push(it);
            let mut own = p.items;
            items.append(&mut own);
            assert(ast::items_of(items@) =~= seq![first] + rest);
            Ok(Program { items })
        },
    }
}

/// Typecheck a loaded program.
pub(crate) fn check_loaded(p: &Program) -> (r: Result<Module, LoadError>)
    ensures
        text::result_view(r) == checked_program(p@),
{
    match check(p) {
        Ok(m) => Ok(m),
        Err(ds) => Err(LoadError::Failed(ds)),
    }
}

/// Compile an entry file (resolving file modules) straight to a typed [`Module`].
/// The standard library, if one is given by its directory and the names of its
/// files, is injected under `std::`.
pub fn compile_path(files: &Files, entry: &str, std: Option<(&str, &Vec<String>)>) -> (r: Result<
    Module,
    LoadError,
>)
    ensures
        text::result_view(r) == compiled_path(files@, entry@, std_view(std)),
{
    let p = load_program(files, entry)?;
    let q = inject_std(files, p, std)?;
    check_loaded(&q)
}

// ---- what is asked for --------------------------------------------------

/// Whether an error that asks for a file asks for one that was not read yet, and
/// for no package.
pub open spec fn asks_anew(files: Table<SSource>, e: SError) -> bool {
    match e {
        SError::NeedFile(p) => name_map::find(files, p) is None,
        SError::NeedPackage(_) => false,
        SError::Failed(_) => true,
    }
}

proof fn lemma_items_ask(
    files: Table<SSource>,
    depth: nat,
    dir: Text,
    items: Seq<AItem>,
    i: int,
    acc: Seq<AItem>,
    ds: Seq<Diag>,
)
    ensures
        resolve_items(files, depth, dir, items, i, acc, ds) matches Err(e) ==> asks_anew(files, e),
    decreases depth, items, items.len() - i,
{
    if 0 <= i < items.len() {
        lemma_item_asks(files, depth, dir, items[i]);
        match resolve_item(files, depth, dir, items[i]) {
            Err(_) => {},
            Ok((it, more)) => lemma_items_ask(
                files,
                depth,
                dir,
                items,
                i + 1,
                acc.push(it),
                ds + more,
            ),
        }
    }
}

proof fn lemma_item_asks(files: Table<SSource>, depth: nat, dir: Text, it: AItem)
    ensures
        resolve_item(files, depth, dir, it) matches Err(e) ==> asks_anew(files, e),
    decreases depth, it, 0int,
{
    match it {
        AItem::Mod(d) => match d.items {
            Some(inner) => lemma_items_ask(
                files,
                depth,
                joined(dir, d.name),
                inner,
                0,
                Seq::empty(),
                Seq::empty(),
            ),
            None => {
                let path = joined(dir, d.name + ".rune"@);
                match opened(files, path, "module file `"@) {
                    Ok(Ok(loaded)) => if depth > 0 {
                        lemma_items_ask(
                            files,
                            (depth - 1) as nat,
                            joined(dir, d.name),
                            loaded,
                            0,
                            Seq::empty(),
                            Seq::empty(),
                        );
                    },
                    _ => {},
                }
            },
        },
        _ => {},
    }
}

proof fn lemma_std_asks(
    files: Table<SSource>,
    dir: Text,
    names: Seq<Text>,
    i: int,
    acc: Seq<AItem>,
    ds: Seq<Diag>,
)
    ensures
        std_modules(files, dir, names, i, acc, ds) matches Err(e) ==> asks_anew(files, e),
    decreases names.len() - i,
{
    if 0 <= i < names.len() {
        match opened(files, joined(dir, names[i] + ".rune"@), "module file `"@) {
            Err(_) => {},
            Ok(Err(d)) => lemma_std_asks(files, dir, names, i + 1, acc, ds.push(d)),
            Ok(Ok(items)) => {
                let inner = joined(dir, names[i]);
                lemma_items_ask(files, files.len(), inner, items, 0, Seq::empty(), Seq::empty());
                match resolve_items(
                    files,
                    files.len(),
                    inner,
                    items,
                    0,
                    Seq::empty(),
                    Seq::empty(),
                ) {
                    Err(_) => {},
                    Ok((items, more)) => lemma_std_asks(
                        files,
                        dir,
                        names,
                        i + 1,
                        acc.push(
                            AItem::Mod(
                                AModDef {
                                    name: names[i],
                                    items: Some(items),
                                    span: Span::nowhere(),
                                },
                            ),
                        ),
                        ds + more,
                    ),
                }
            },
        }
    }
}

/// Loading never asks for a file that was handed in already, so reading what is
/// asked for always leads further.
pub proof fn law_loading_asks_for_new_files(
    files: Table<SSource>,
    entry: Text,
    std: Option<(Text, Seq<Text>)>,
)
    ensures
        loaded(files, entry) matches Err(e) ==> asks_anew(files, e),
        compiled_path(files, entry, std) matches Err(e) ==> asks_anew(files, e),
        forall|p: AProgram|
            (#[trigger] with_std(files, p, std)) matches Err(e) ==> asks_anew(files, e),
{
    match opened(files, entry, "`"@) {
        Ok(Ok(items)) => lemma_items_ask(
            files,
            files.len(),
            parent(entry),
            items,
            0,
            Seq::empty(),
            Seq::empty(),
        ),
        _ => {},
    }
    match std {
        Some((dir, names)) => lemma_std_asks(
            files,
            dir,
            name_map::keys(in_order(names, 0, Seq::empty())),
            0,
            Seq::empty(),
            Seq::empty(),
        ),
        None => {},
    }
}

} // verus!
