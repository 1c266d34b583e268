//! Directed graphs, and two questions about them: which nodes lie on a cycle, and
//! which nodes stay when everything is removed that leads to a bad node.
//!
//! The nodes are numbered from zero; `adj[i]` lists the nodes that `i` leads to.

use vstd::prelude::*;

verus! {

/// The edges of a graph, by node.
pub open spec fn edges(adj: Seq<Vec<usize>>) -> Seq<Seq<usize>> {
    Seq::new(adj.len(), |i: int| adj[i]@)
}

/// Every edge leads to a node.
pub open spec fn closed(g: Seq<Seq<usize>>) -> bool {
    forall|i: int, j: int| 0 <= i < g.len() && 0 <= j < g[i].len() ==> #[trigger] g[i][j] < g.len()
}

/// Whether an edge leads from `a` to `b`.
pub open spec fn edge(g: Seq<Seq<usize>>, a: int, b: int) -> bool {
    0 <= a < g.len() && exists|j: int| 0 <= j < g[a].len() && #[trigger] g[a][j] == b
}

/// Whether `p` is a way along edges.
pub open spec fn is_path(g: Seq<Seq<usize>>, p: Seq<int>) -> bool {
    forall|i: int| 0 <= i < p.len() - 1 ==> edge(g, #[trigger] p[i], p[i + 1])
}

/// Whether a way of at least one edge leads from `a` to `b`.
pub open spec fn leads(g: Seq<Seq<usize>>, a: int, b: int) -> bool {
    exists|p: Seq<int>| #[trigger]
        is_path(g, p) && p.len() >= 2 && p[0] == a && p[p.len() - 1] == b
}

/// Whether the node `a` lies on a cycle.
pub open spec fn on_cycle(g: Seq<Seq<usize>>, a: int) -> bool {
    leads(g, a, a)
}

/// Whether the nodes of `s` are all fine and lead to nodes of `s` only.
pub open spec fn sound(g: Seq<Seq<usize>>, fine: Seq<bool>, s: Set<int>) -> bool {
    forall|a: int| #[trigger]
        s.contains(a) ==> 0 <= a < g.len() && a < fine.len() && fine[a] && forall|b: int| #[trigger]
            edge(g, a, b) ==> s.contains(b)
}

/// Whether the node `a` is fine and leads, over any number of edges, to fine
/// nodes only.
pub open spec fn stays(g: Seq<Seq<usize>>, fine: Seq<bool>, a: int) -> bool {
    exists|s: Set<int>| #[trigger] sound(g, fine, s) && s.contains(a)
}

// ---- counting -----------------------------------------------------------

/// How many of the marks are set.
pub open spec fn count(b: Seq<bool>) -> nat
    decreases b.len(),
{
    if b.len() == 0 {
        0
    } else {
        count(b.drop_last()) + if b.last() {
            1nat
        } else {
            0
        }
    }
}

pub proof fn lemma_count_bound(b: Seq<bool>)
    ensures
        count(b) <= b.len(),
    decreases b.len(),
{
    if b.len() > 0 {
        lemma_count_bound(b.drop_last());
    }
}

/// Changing a mark changes the count by one.
pub proof fn lemma_count_update(b: Seq<bool>, i: int, v: bool)
    requires
        0 <= i < b.len(),
        b[i] != v,
    ensures
        count(b.update(i, v)) == if v {
            count(b) as int + 1
        } else {
            count(b) - 1
        },
        b[i] ==> count(b) > 0,
    decreases b.len(),
{
    let c = b.update(i, v);
    if i == b.len() - 1 {
        assert(c.drop_last() =~= b.drop_last());
    } else {
        lemma_count_update(b.drop_last(), i, v);
        assert(c.drop_last() =~= b.drop_last().update(i, v));
    }
}

/// Where every mark of `a` is one of `b`, and `b` has one more, `b` counts more.
pub proof fn lemma_count_grows(a: Seq<bool>, b: Seq<bool>)
    requires
        a.len() == b.len(),
        forall|i: int| 0 <= i < a.len() && a[i] ==> #[trigger] b[i],
    ensures
        count(a) <= count(b),
        a != b ==> count(a) < count(b),
    decreases a.len(),
{
    if a.len() > 0 {
        assert forall|i: int|
            0 <= i < a.drop_last().len() && a.drop_last()[i] implies #[trigger] b.drop_last()[i] by {
            assert(b[i]);
        }
        lemma_count_grows(a.drop_last(), b.drop_last());
        if a.last() {
            assert(b[a.len() - 1]);
        }
        if a != b && a.last() == b.last() {
            assert(a.drop_last() != b.drop_last()) by {
                if a.drop_last() == b.drop_last() {
                    assert(a =~= a.drop_last().push(a.last()));
                    assert(b =~= b.drop_last().push(b.last()));
                }
            }
        }
    } else {
        assert(a =~= b);
    }
}

// ---- cycles -------------------------------------------------------------

proof fn lemma_one_edge(g: Seq<Seq<usize>>, a: int, b: int)
    requires
        edge(g, a, b),
    ensures
        leads(g, a, b),
{
    let p = seq![a, b];
    assert(is_path(g, p));
}

proof fn lemma_one_more(g: Seq<Seq<usize>>, a: int, b: int, c: int)
    requires
        leads(g, a, b),
        edge(g, b, c),
    ensures
        leads(g, a, c),
{
    let p = choose|p: Seq<int>| #[trigger]
        is_path(g, p) && p.len() >= 2 && p[0] == a && p[p.len() - 1] == b;
    let q = p.push(c);
    assert forall|i: int| 0 <= i < q.len() - 1 implies edge(g, #[trigger] q[i], q[i + 1]) by {
        if i < p.len() - 1 {
            assert(edge(g, p[i], p[i + 1]));
        }
    }
    assert(is_path(g, q));
}

/// A set that holds all direct successors of `a` and is closed under edges holds
/// everything that `a` leads to.
proof fn lemma_reached(g: Seq<Seq<usize>>, a: int, s: Set<int>, p: Seq<int>, k: int)
    requires
        is_path(g, p),
        1 <= k < p.len(),
        p[0] == a,
        forall|b: int| #[trigger] edge(g, a, b) ==> s.contains(b),
        forall|x: int, y: int| #[trigger] edge(g, x, y) && s.contains(x) ==> s.contains(y),
    ensures
        s.contains(p[k]),
    decreases k,
{
    assert(edge(g, p[k - 1], p[k - 1 + 1]));
    if k > 1 {
        lemma_reached(g, a, s, p, k - 1);
    }
}

/// Whether the node `a` lies on a cycle.
pub fn lies_on_cycle(adj: &Vec<Vec<usize>>, a: usize) -> (r: bool)
    requires
        a < adj.len(),
        closed(edges(adj@)),
    ensures
        r == on_cycle(edges(adj@), a as int),
{
    let ghost g = edges(adj@);
    let n = adj.len();
    let mut seen: Vec<bool> = Vec::new();
    let mut k: usize = 0;
    while k < n
        invariant
            k <= n,
            seen.len() == k,
            forall|i: int| 0 <= i < k ==> !#[trigger] seen[i],
            count(seen@) == 0,
        decreases n - k,
    {
        let ghost before = seen@;
        seen.push(false);
        assert(seen@.drop_last() =~= before);
        k += 1;
    }
    let mut todo: Vec<usize> = Vec::new();
    todo.push(a);
    // Every node on the list, other than `a` at the start, is one that `a` leads
    // to; every seen node is on the list or all its successors are seen.
    let mut done: usize = 0;
    let ghost start = a as int;
    assert(todo@[0] == a);
    while done < todo.len()
        invariant
            g == edges(adj@),
            closed(g),
            n == adj.len(),
            n == g.len(),
            a < n,
            start == a,
            seen.len() == n,
            done <= todo.len(),
            1 <= todo.len(),
            todo@[0] == a,
            todo.len() == 1 + count(seen@),
            forall|i: int| 0 <= i < todo.len() ==> #[trigger] todo@[i] < n,
            forall|i: int| 1 <= i < todo.len() ==> seen[#[trigger] todo@[i] as int],
            forall|x: int|
                0 <= x < n && #[trigger] seen[x] ==> leads(g, start, x) && exists|i: int|
                    1 <= i < todo.len() && #[trigger] todo@[i] == x,
            forall|i: int, y: int|
                0 <= i < done && #[trigger] edge(g, todo@[i] as int, y) ==> 0 <= y < n && seen[y],
        decreases n + 1 - done,
    {
        proof {
            lemma_count_bound(seen@);
        }
        let x = todo[done];
        let ghost before = todo@;
        let ghost seen0 = seen@;
        let mut j: usize = 0;
        while j < adj[x as usize].len()
            invariant
                g == edges(adj@),
                closed(g),
                n == adj.len(),
                n == g.len(),
                a < n,
                start == a,
                x < n,
                seen.len() == n,
                j <= adj[x as int].len(),
                done < before.len() <= todo.len(),
                todo@.subrange(0, before.len() as int) == before,
                todo@[0] == a,
                todo@[done as int] == x,
                x == start || leads(g, start, x as int),
                todo.len() == 1 + count(seen@),
                forall|i: int| 0 <= i < todo.len() ==> #[trigger] todo@[i] < n,
                forall|i: int| 1 <= i < todo.len() ==> seen[#[trigger] todo@[i] as int],
                forall|y: int| 0 <= y < n && seen0[y] ==> #[trigger] seen[y],
                seen0.len() == n,
                forall|y: int|
                    0 <= y < n && #[trigger] seen[y] ==> leads(g, start, y) && exists|i: int|
                        1 <= i < todo.len() && #[trigger] todo@[i] == y,
                forall|i: int, y: int|
                    0 <= i < done && #[trigger] edge(g, todo@[i] as int, y) ==> 0 <= y < n
                        && seen[y],
                forall|k: int| 0 <= k < j ==> seen[#[trigger] g[x as int][k] as int],
            decreases adj[x as int].len() - j,
        {
            assert(g[x as int] == adj[x as int]@);
            let y = adj[x][j];
            assert(g[x as int][j as int] == y);
            assert(edge(g, x as int, y as int));
            if !seen[y] {
                proof {
                    lemma_count_update(seen@, y as int, true);
                    if x == start {
                        lemma_one_edge(g, start, y as int);
                    } else {
                        lemma_one_more(g, start, x as int, y as int);
                    }
                }
                let ghost todo0 = todo@;
                let ghost seen1 = seen@;
                seen.set(y, true);
                todo.push(y);
                assert(todo@[todo0.len() as int] == y);
                assert forall|z: int| 0 <= z < n && #[trigger] seen[z] implies leads(g, start, z)
                    && exists|i: int| 1 <= i < todo.len() && #[trigger] todo@[i] == z by {
                    if z == y {
                        assert(todo@[todo0.len() as int] == z);
                    } else {
                        assert(seen1[z]);
                        let i = choose|i: int| 1 <= i < todo0.len() && #[trigger] todo0[i] == z;
                        assert(todo@[i] == z);
                    }
                }
                assert forall|i: int| 1 <= i < todo.len() implies seen[#[trigger] todo@[i] as int] by {
                    if i < todo0.len() {
                        assert(todo@[i] == todo0[i]);
                        assert(seen1[todo0[i] as int]);
                    }
                }
                assert forall|i: int, z: int|
                    0 <= i < done && #[trigger] edge(g, todo@[i] as int, z) implies 0 <= z < n
                    && seen[z] by {
                    assert(todo@[i] == todo0[i]);
                    assert(seen1[z]);
                }
                assert(todo@.subrange(0, before.len() as int) =~= before);
            }
            j += 1;
        }
        assert forall|i: int, y: int|
            0 <= i < done + 1 && #[trigger] edge(g, todo@[i] as int, y) implies 0 <= y < n
            && seen[y] by {
            if i == done {
                let k = choose|k: int| 0 <= k < g[x as int].len() && #[trigger] g[x as int][k] == y;
                assert(seen[g[x as int][k] as int]);
            }
        }
        done += 1;
        proof {
            lemma_count_bound(seen@);
        }
    }
    proof {
        let s = Set::new(|y: int| 0 <= y < n && seen[y]);
        if on_cycle(g, start) {
            let p = choose|p: Seq<int>| #[trigger]
                is_path(g, p) && p.len() >= 2 && p[0] == start && p[p.len() - 1] == start;
            assert forall|b: int| #[trigger] edge(g, start, b) implies s.contains(b) by {
                assert(edge(g, todo@[0] as int, b));
            }
            assert forall|x: int, y: int| #[trigger] edge(g, x, y) && s.contains(x) implies s.contains(
                y,
            ) by {
                let i = choose|i: int| 1 <= i < todo.len() && #[trigger] todo@[i] == x;
                assert(edge(g, todo@[i] as int, y));
            }
            lemma_reached(g, start, s, p, p.len() - 1);
        }
    }
    seen[a]
}

// ---- pruning ------------------------------------------------------------

/// Whether one of the nodes that `a` leads to is not kept.
fn leads_out(adj: &Vec<Vec<usize>>, kept: &Vec<bool>, a: usize) -> (r: bool)
    requires
        a < adj.len(),
        kept.len() == adj.len(),
        closed(edges(adj@)),
    ensures
        r == exists|b: int| #[trigger] edge(edges(adj@), a as int, b) && !kept[b],
{
    let ghost g = edges(adj@);
    let mut j: usize = 0;
    assert(g[a as int] == adj[a as int]@);
    while j < adj[a].len()
        invariant
            a < adj.len(),
            kept.len() == adj.len(),
            g == edges(adj@),
            closed(g),
            g[a as int] == adj[a as int]@,
            j <= adj[a as int].len(),
            forall|k: int| 0 <= k < j ==> kept[#[trigger] g[a as int][k] as int],
        decreases adj[a as int].len() - j,
    {
        let b = adj[a][j];
        assert(g[a as int][j as int] == b);
        if !kept[b] {
            assert(edge(g, a as int, b as int));
            return true;
        }
        j += 1;
    }
    false
}

/// The marks as a set of nodes.
pub open spec fn marked(b: Seq<bool>) -> Set<int> {
    Set::new(|i: int| 0 <= i < b.len() && b[i])
}

/// The nodes that stay when everything is removed that leads to a bad node.
pub fn prune(adj: &Vec<Vec<usize>>, fine: &Vec<bool>) -> (r: Vec<bool>)
    requires
        fine.len() == adj.len(),
        closed(edges(adj@)),
    ensures
        r.len() == adj.len(),
        forall|i: int|
            0 <= i < r.len() ==> #[trigger] r[i] == stays(edges(adj@), fine@, i),
{
    let ghost g = edges(adj@);
    let n = adj.len();
    let mut kept: Vec<bool> = Vec::new();
    let mut k: usize = 0;
    while k < n
        invariant
            k <= n,
            n == fine.len(),
            kept.len() == k,
            forall|i: int| 0 <= i < k ==> #[trigger] kept[i] == fine[i],
        decreases n - k,
    {
        kept.push(fine[k]);
        k += 1;
    }
    assert forall|s: Set<int>, a: int| #[trigger] sound(g, fine@, s) && #[trigger] s.contains(a) implies 0
        <= a < n && kept[a] by {}
    let mut changed = true;
    while changed
        invariant
            g == edges(adj@),
            closed(g),
            n == adj.len(),
            n == fine.len(),
            n == g.len(),
            kept.len() == n,
            forall|i: int| 0 <= i < n && #[trigger] kept[i] ==> fine[i],
            forall|s: Set<int>, a: int| #[trigger] sound(g, fine@, s) && #[trigger] s.contains(a) ==> 0
                <= a < n && kept[a],
            !changed ==> forall|i: int, b: int|
                0 <= i < n && kept[i] && #[trigger] edge(g, i, b) ==> kept[b],
        decreases count(kept@), (if changed { 1int } else { 0int }),
    {
        changed = false;
        let ghost c0 = count(kept@);
        let mut i: usize = 0;
        while i < n
            invariant
                g == edges(adj@),
                closed(g),
                n == adj.len(),
                n == fine.len(),
                n == g.len(),
                kept.len() == n,
                i <= n,
                forall|j: int| 0 <= j < n && #[trigger] kept[j] ==> fine[j],
                forall|s: Set<int>, a: int| #[trigger]
                    sound(g, fine@, s) && #[trigger] s.contains(a) ==> 0 <= a < n && kept[a],
                !changed ==> forall|j: int, b: int|
                    0 <= j < i && kept[j] && #[trigger] edge(g, j, b) ==> kept[b],
                !changed ==> count(kept@) == c0,
                changed ==> count(kept@) < c0,
            decreases n - i,
        {
            if kept[i] && leads_out(adj, &kept, i) {
                let ghost b = choose|b: int| #[trigger] edge(g, i as int, b) && !kept[b];
                let ghost kept0 = kept@;
                proof {
                    lemma_count_update(kept@, i as int, false);
                }
                kept.set(i, false);
                changed = true;
                assert forall|s: Set<int>, a: int| #[trigger]
                    sound(g, fine@, s) && #[trigger] s.contains(a) implies 0 <= a < n && kept[a] by {
                    assert(kept0[a]);
                    if a == i {
                        assert(edge(g, a, b));
                        assert(s.contains(b));
                        assert(kept0[b]);
                    }
                }
            }
            i += 1;
        }
    }
    proof {
        let s = marked(kept@);
        assert(sound(g, fine@, s)) by {
            assert forall|a: int| #[trigger] s.contains(a) implies 0 <= a < g.len() && a
                < fine@.len() && fine@[a] && forall|b: int| #[trigger]
                edge(g, a, b) ==> s.contains(b) by {
                assert(kept[a]);
                assert forall|b: int| #[trigger] edge(g, a, b) implies s.contains(b) by {
                    let j = choose|j: int| 0 <= j < g[a].len() && #[trigger] g[a][j] == b;
                    assert(g[a][j] < g.len());
                }
            }
        }
        assert forall|i: int| 0 <= i < n implies #[trigger] kept[i] == stays(g, fine@, i) by {
            if kept[i] {
                assert(s.contains(i));
            }
        }
    }
    kept
}

} // verus!
