//! Module files nest as deep as they like: the bound under which they are resolved
//! is never met.

use crate::ast::AItem;
use crate::diagnostic::Diag;
use crate::grammar;
use crate::graph;
use crate::lexer;
use crate::loader::{self, SSource};
use crate::name_map::{self, Table};
use crate::text::Text;
use crate::token::{KTok, KToken};
use vstd::prelude::*;

verus! {

/// Whether the item, if it is a module, and all modules inside it have names, none of
/// which begins at the root.
pub open spec fn named(it: AItem) -> bool
    decreases it, 0int,
{
    match it {
        AItem::Mod(d) => d.name.len() > 0 && d.name[0] != '/' && match d.items {
            Some(inner) => all_named(inner, 0),
            None => true,
        },
        _ => true,
    }
}

pub open spec fn all_named(items: Seq<AItem>, i: int) -> bool
    decreases items, items.len() - i,
{
    if i < 0 || i >= items.len() {
        true
    } else {
        named(items[i]) && all_named(items, i + 1)
    }
}

proof fn lemma_named_at(items: Seq<AItem>, i: int, k: int)
    requires
        all_named(items, i),
        0 <= i <= k < items.len(),
    ensures
        named(items[k]),
    decreases k - i,
{
    if i < k {
        lemma_named_at(items, i + 1, k);
    }
}

proof fn lemma_all_named(items: Seq<AItem>, i: int)
    requires
        0 <= i,
        forall|k: int| i <= k < items.len() ==> named(#[trigger] items[k]),
    ensures
        all_named(items, i),
    decreases items.len() - i,
{
    if i < items.len() {
        lemma_all_named(items, i + 1);
    }
}

proof fn lemma_items(ts: Seq<KToken>, p: int, acc: Seq<AItem>, inner: bool)
    requires
        lexer::all_spelled(ts),
        forall|k: int| 0 <= k < acc.len() ==> named(#[trigger] acc[k]),
        grammar::items_from(ts, p, acc, inner) is Ok,
    ensures
        all_named(grammar::items_from(ts, p, acc, inner)->Ok_0.0, 0),
    decreases ts.len() - p, 2int,
{
    if grammar::tok_at(ts, p) is Eof || (inner && grammar::tok_at(ts, p) is RBrace) {
        lemma_all_named(acc, 0);
    } else {
        lemma_item(ts, p);
        let (x, q) = grammar::item(ts, p)->Ok_0;
        let next = acc.push(x);
        assert forall|k: int| 0 <= k < next.len() implies named(#[trigger] next[k]) by {
            if k < acc.len() {
                assert(next[k] == acc[k]);
            }
        }
        lemma_items(ts, q, next, inner);
    }
}

proof fn lemma_item(ts: Seq<KToken>, p: int)
    requires
        lexer::all_spelled(ts),
        grammar::item(ts, p) is Ok,
    ensures
        named(grammar::item(ts, p)->Ok_0.0),
    decreases ts.len() - p, 1int,
{
    match grammar::tok_at(ts, p) {
        KTok::Mod => {
            let p1 = p + 1;
            let (name, p2) = grammar::ident(ts, p1)->Ok_0;
            assert(grammar::mod_def(ts, p) is Ok);
            if !(grammar::tok_at(ts, p2) is Semi) {
                lemma_items(ts, p2 + 1, Seq::empty(), true);
            }
        },
        _ => {},
    }
}

/// The modules that a file declares have names.
proof fn lemma_parsed(src: Text, path: Text)
    requires
        loader::parsed(src, path) is Ok,
    ensures
        all_named(loader::parsed(src, path)->Ok_0.items, 0),
{
    lexer::law_tokens_are_spelled(src);
    let ts = lexer::tokens_of_text(src)->Ok_0;
    lemma_items(ts, 0, Seq::empty(), false);
}

proof fn lemma_opened(files: Table<SSource>, path: Text, what: Text)
    requires
        loader::opened(files, path, what) matches Ok(Ok(_)),
    ensures
        all_named(loader::opened(files, path, what)->Ok_0->Ok_0, 0),
        exists|k: int| 0 <= k < files.len() && (#[trigger] files[k]).0 == path,
{
    name_map::lemma_find_some(files, path, 0);
    match name_map::find(files, path) {
        Some(SSource::Text(src)) => lemma_parsed(src, path),
        _ => {},
    }
}

/// Which files have paths longer than `n`.
pub open spec fn longer(files: Table<SSource>, n: nat) -> Seq<bool> {
    Seq::new(files.len(), |i: int| files[i].0.len() > n)
}

/// A file whose path has `b` characters counts among those longer than `a`, but
/// not among those longer than `b`.
proof fn lemma_longer(files: Table<SSource>, a: nat, b: nat, k: int)
    requires
        a < b,
        0 <= k < files.len(),
        files[k].0.len() == b,
    ensures
        graph::count(longer(files, b)) < graph::count(longer(files, a)),
{
    let x = longer(files, b);
    let y = longer(files, a);
    assert(!x[k] && y[k]);
    assert forall|i: int| 0 <= i < x.len() && x[i] implies #[trigger] y[i] by {}
    graph::lemma_count_grows(x, y);
}

proof fn lemma_joined(dir: Text, name: Text)
    requires
        name.len() > 0,
        name[0] != '/',
    ensures
        dir.len() < loader::joined(dir, name).len(),
        loader::joined(dir, name + ".rune"@).len() == loader::joined(dir, name).len() + 5,
{
    reveal_strlit(".rune");
    reveal_strlit("/");
    assert((name + ".rune"@)[0] == name[0]);
}

proof fn lemma_items_depth(
    files: Table<SSource>,
    depth: nat,
    more: nat,
    dir: Text,
    items: Seq<AItem>,
    i: int,
    acc: Seq<AItem>,
    ds: Seq<Diag>,
)
    requires
        0 <= i,
        all_named(items, i),
        graph::count(longer(files, dir.len() + 5)) <= depth <= more,
    ensures
        loader::resolve_items(files, depth, dir, items, i, acc, ds) == loader::resolve_items(
            files,
            more,
            dir,
            items,
            i,
            acc,
            ds,
        ),
    decreases depth, items, items.len() - i,
{
    if i < items.len() {
        lemma_item_depth(files, depth, more, dir, items[i]);
        match loader::resolve_item(files, depth, dir, items[i]) {
            Err(_) => {},
            Ok((it, found)) => lemma_items_depth(
                files,
                depth,
                more,
                dir,
                items,
                i + 1,
                acc.push(it),
                ds + found,
            ),
        }
    }
}

proof fn lemma_item_depth(files: Table<SSource>, depth: nat, more: nat, dir: Text, it: AItem)
    requires
        named(it),
        graph::count(longer(files, dir.len() + 5)) <= depth <= more,
    ensures
        loader::resolve_item(files, depth, dir, it) == loader::resolve_item(files, more, dir, it),
    decreases depth, it, 0int,
{
    match it {
        AItem::Mod(d) => {
            let inside = loader::joined(dir, d.name);
            lemma_joined(dir, d.name);
            match d.items {
                Some(inner) => {
                    lemma_shorter(files, dir.len() + 5, inside.len() + 5);
                    lemma_items_depth(
                        files,
                        depth,
                        more,
                        inside,
                        inner,
                        0,
                        Seq::empty(),
                        Seq::empty(),
                    );
                },
                None => {
                    let path = loader::joined(dir, d.name + ".rune"@);
                    match loader::opened(files, path, "module file `"@) {
                        Ok(Ok(loaded)) => {
                            lemma_opened(files, path, "module file `"@);
                            let k = choose|k: int|
                                0 <= k < files.len() && (#[trigger] files[k]).0 == path;
                            lemma_longer(files, dir.len() + 5, inside.len() + 5, k);
                            lemma_items_depth(
                                files,
                                (depth - 1) as nat,
                                (more - 1) as nat,
                                inside,
                                loaded,
                                0,
                                Seq::empty(),
                                Seq::empty(),
                            );
                        },
                        _ => {},
                    }
                },
            }
        },
        _ => {},
    }
}

proof fn lemma_shorter(files: Table<SSource>, a: nat, b: nat)
    requires
        a <= b,
    ensures
        graph::count(longer(files, b)) <= graph::count(longer(files, a)),
{
    let x = longer(files, b);
    let y = longer(files, a);
    assert forall|i: int| 0 <= i < x.len() && x[i] implies #[trigger] y[i] by {}
    graph::lemma_count_grows(x, y);
}

/// However deep module files nest, they are resolved: to let them nest deeper than
/// there are files changes nothing.
pub proof fn law_nesting_is_not_limited(
    files: Table<SSource>,
    path: Text,
    what: Text,
    dir: Text,
    more: nat,
)
    requires
        loader::opened(files, path, what) matches Ok(Ok(_)),
        files.len() <= more,
    ensures
        ({
            let items = loader::opened(files, path, what)->Ok_0->Ok_0;
            loader::resolve_items(files, files.len(), dir, items, 0, Seq::empty(), Seq::empty())
                == loader::resolve_items(files, more, dir, items, 0, Seq::empty(), Seq::empty())
        }),
{
    lemma_opened(files, path, what);
    graph::lemma_count_bound(longer(files, dir.len() + 5));
    let items = loader::opened(files, path, what)->Ok_0->Ok_0;
    lemma_items_depth(files, files.len(), more, dir, items, 0, Seq::empty(), Seq::empty());
}

} // verus!
