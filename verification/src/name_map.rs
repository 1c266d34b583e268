//! A map from names to values that keeps its entries sorted by name, so that
//! every traversal is deterministic.

use crate::model::Duplicate;
use crate::text::{self, str_eq, str_less, Text};
use vstd::prelude::*;

verus! {

/// A name-keyed map whose entries stand in strictly ascending name order.
#[derive(Debug, PartialEq)]
pub struct NameMap<T> {
    entries: Vec<(String, T)>,
}

impl<T> NameMap<T> {
    #[verifier::type_invariant]
    spec fn ordered(self) -> bool {
        forall|i: int, j: int|
            0 <= i < j < self.entries@.len() ==> text::text_less(
                #[trigger] self.entries@[i].0@,
                #[trigger] self.entries@[j].0@,
            )
    }
}

/// A name-keyed map as a sequence of entries.
pub type Table<T> = Seq<(Text, T)>;

/// The value of the first entry at or after `i` whose name is `k`.
pub open spec fn find_from<T>(m: Table<T>, k: Text, i: int) -> Option<T>
    decreases m.len() - i,
{
    if i < 0 || i >= m.len() {
        None
    } else if m[i].0 == k {
        Some(m[i].1)
    } else {
        find_from(m, k, i + 1)
    }
}

/// The value stored under the name `k`.
pub open spec fn find<T>(m: Table<T>, k: Text) -> Option<T> {
    find_from(m, k, 0)
}

/// The first position at or after `i` whose name is not below `k`.
pub open spec fn slot_from<T>(m: Table<T>, k: Text, i: int) -> int
    decreases m.len() - i,
{
    if i < 0 || i >= m.len() {
        m.len() as int
    } else if text::text_less(m[i].0, k) {
        slot_from(m, k, i + 1)
    } else {
        i
    }
}

/// The map with `v` stored under `k`, in place of what stood there.
pub open spec fn put<T>(m: Table<T>, k: Text, v: T) -> Table<T> {
    let p = slot_from(m, k, 0);
    if p < m.len() && m[p].0 == k {
        m.update(p, (k, v))
    } else {
        m.insert(p, (k, v))
    }
}

/// The names of a map, in order.
pub open spec fn keys<T>(m: Table<T>) -> Seq<Text> {
    m.map_values(|e: (Text, T)| e.0)
}

/// The entries stand in strictly ascending name order.
pub open spec fn sorted<T>(m: Table<T>) -> bool {
    forall|i: int, j: int| 0 <= i < j < m.len() ==> text::text_less(#[trigger] m[i].0, #[trigger] m[j].0)
}

/// The entries of a vector, by view.
spec fn table_of<T: View>(v: Seq<(String, T)>) -> Table<T::V> {
    v.map_values(|e: (String, T)| (e.0@, e.1@))
}

proof fn lemma_ordered<T: View>(v: Seq<(String, T)>)
    requires
        forall|i: int, j: int|
            0 <= i < j < v.len() ==> text::text_less(#[trigger] v[i].0@, #[trigger] v[j].0@),
    ensures
        sorted(table_of(v)),
{
    let t = table_of(v);
    assert forall|i: int, j: int| 0 <= i < j < t.len() implies text::text_less(
        #[trigger] t[i].0,
        #[trigger] t[j].0,
    ) by {
        assert(t[i].0 == v[i].0@ && t[j].0 == v[j].0@);
    }
}

impl<T: View> View for NameMap<T> {
    type V = Table<T::V>;

    closed spec fn view(&self) -> Table<T::V> {
        table_of(self.entries@)
    }
}

impl<T: View> NameMap<T> {
    pub fn new() -> (r: NameMap<T>)
        ensures
            r@ == Seq::<(Text, T::V)>::empty(),
    {
        let r = NameMap { entries: Vec::new() };
        assert(r@ =~= Seq::<(Text, T::V)>::empty());
        r
    }

    /// The number of entries. The names stand in strictly ascending order.
    pub fn len(&self) -> (n: usize)
        ensures
            n == self@.len(),
            sorted(self@),
    {
        proof {
            use_type_invariant(self);
            lemma_ordered(self.entries@);
        }
        self.entries.len()
    }

    /// Whether the map holds no entry.
    pub fn is_empty(&self) -> (b: bool)
        ensures
            b == (self@.len() == 0),
    {
        self.entries.len() == 0
    }

    /// The value stored under `k`.
    pub fn get(&self, k: &str) -> (r: Option<&T>)
        ensures
            match r {
                Some(t) => find(self@, k@) == Some(t@),
                None => find(self@, k@) is None,
            },
    {
        let mut i: usize = 0;
        while i < self.entries.len()
            invariant
                i <= self.entries.len(),
                find(self@, k@) == find_from(self@, k@, i as int),
            decreases self.entries.len() - i,
        {
            assert(self@[i as int] == (self.entries[i as int].0@, self.entries[i as int].1@));
            if str_eq(self.entries[i].0.as_str(), k) {
                return Some(&self.entries[i].1);
            }
            i += 1;
        }
        None
    }

    /// Whether a value is stored under `k`.
    pub fn contains_key(&self, k: &str) -> (b: bool)
        ensures
            b == find(self@, k@) is Some,
    {
        match self.get(k) {
            Some(_) => true,
            None => false,
        }
    }

    /// The position of the entry called `k`.
    pub fn position(&self, k: &str) -> (r: Option<usize>)
        ensures
            match r {
                Some(i) => i < self@.len() && self@[i as int].0 == k@ && find(self@, k@) == Some(
                    self@[i as int].1,
                ),
                None => find(self@, k@) is None && forall|j: int|
                    0 <= j < self@.len() ==> #[trigger] self@[j].0 != k@,
            },
    {
        let mut i: usize = 0;
        while i < self.entries.len()
            invariant
                i <= self.entries.len(),
                find(self@, k@) == find_from(self@, k@, i as int),
                forall|j: int| 0 <= j < i ==> #[trigger] self@[j].0 != k@,
            decreases self.entries.len() - i,
        {
            assert(self@[i as int] == (self.entries[i as int].0@, self.entries[i as int].1@));
            if str_eq(self.entries[i].0.as_str(), k) {
                return Some(i);
            }
            i += 1;
        }
        None
    }

    /// The entry at position `i`.
    pub fn at(&self, i: usize) -> (r: (&String, &T))
        requires
            i < self@.len(),
        ensures
            (r.0@, r.1@) == self@[i as int],
    {
        (&self.entries[i].0, &self.entries[i].1)
    }

    /// Store `v` under `k`, replacing what stood there.
    pub fn insert(&mut self, k: String, v: T)
        ensures
            final(self)@ == put(old(self)@, k@, v@),
    {
        proof {
            use_type_invariant(&*self);
            lemma_ordered(self.entries@);
            law_put_keeps_sorted(self@, k@, v@);
        }
        let ghost before = self@;
        let mut entries: Vec<(String, T)> = Vec::new();
        std::mem::swap(&mut entries, &mut self.entries);
        let mut i: usize = 0;
        assert(before == table_of(entries@));
        while i < entries.len() && str_less(entries[i].0.as_str(), k.as_str())
            invariant
                i <= entries.len(),
                before == table_of(entries@),
                slot_from(before, k@, 0) == slot_from(before, k@, i as int),
            decreases entries.len() - i,
        {
            assert(before[i as int] == (entries[i as int].0@, entries[i as int].1@));
            i += 1;
        }
        assert(i < before.len() ==> before[i as int] == (
            entries[i as int].0@,
            entries[i as int].1@,
        ));
        assert(slot_from(before, k@, 0) == i);
        let ghost after = put(before, k@, v@);
        if i < entries.len() && str_eq(entries[i].0.as_str(), k.as_str()) {
            entries[i] = (k, v);
        } else {
            entries.insert(i, (k, v));
        }
        assert(table_of(entries@) =~= after);
        assert forall|i: int, j: int| 0 <= i < j < entries@.len() implies text::text_less(
            #[trigger] entries@[i].0@,
            #[trigger] entries@[j].0@,
        ) by {
            assert(after[i].0 == entries@[i].0@ && after[j].0 == entries@[j].0@);
        }
        *self = NameMap { entries };
    }

    /// The names, in order.
    pub fn names(&self) -> (r: Vec<String>)
        ensures
            text::texts(r@) == keys(self@),
    {
        broadcast use text::group_texts;

        let mut out: Vec<String> = Vec::new();
        let mut i: usize = 0;
        while i < self.entries.len()
            invariant
                i <= self.entries.len(),
                out.len() == i,
                forall|j: int| 0 <= j < i ==> #[trigger] out[j]@ == self.entries[j].0@,
            decreases self.entries.len() - i,
        {
            out.push(self.entries[i].0.clone());
            i += 1;
        }
        assert(text::texts(out@) =~= keys(self@));
        out
    }
}

impl<T: Duplicate> NameMap<T> {
    /// A copy of the map.
    pub fn dup(&self) -> (r: NameMap<T>)
        ensures
            r@ == self@,
    {
        proof {
            use_type_invariant(self);
        }
        let mut out: Vec<(String, T)> = Vec::new();
        let mut i: usize = 0;
        while i < self.entries.len()
            invariant
                i <= self.entries.len(),
                out.len() == i,
                forall|j: int|
                    0 <= j < i ==> (#[trigger] out[j]).0@ == self.entries[j].0@ && out[j].1@
                        == self.entries[j].1@,
            decreases self.entries.len() - i,
        {
            out.push((self.entries[i].0.clone(), self.entries[i].1.duplicate()));
            i += 1;
        }
        let r = NameMap { entries: out };
        assert(r@ =~= self@);
        r
    }
}

// ---- laws of the map ----------------------------------------------------

proof fn lemma_slot<T>(m: Table<T>, k: Text, i: int)
    requires
        0 <= i <= m.len(),
        forall|j: int| 0 <= j < i ==> text::text_less(#[trigger] m[j].0, k),
    ensures
        i <= slot_from(m, k, i) <= m.len(),
        forall|j: int| 0 <= j < slot_from(m, k, i) ==> text::text_less(#[trigger] m[j].0, k),
        slot_from(m, k, i) < m.len() ==> !text::text_less(m[slot_from(m, k, i)].0, k),
    decreases m.len() - i,
{
    if i < m.len() && text::text_less(m[i].0, k) {
        lemma_slot(m, k, i + 1);
    }
}

proof fn lemma_find_at<T>(m: Table<T>, k: Text, p: int, i: int)
    requires
        0 <= i <= p < m.len(),
        m[p].0 == k,
        forall|j: int| i <= j < p ==> #[trigger] m[j].0 != k,
    ensures
        find_from(m, k, i) == Some(m[p].1),
    decreases p - i,
{
    if i < p {
        assert(m[i].0 != k);
        lemma_find_at(m, k, p, i + 1);
    }
}

proof fn lemma_find_none<T>(m: Table<T>, k: Text, i: int)
    requires
        0 <= i,
        forall|j: int| i <= j < m.len() ==> #[trigger] m[j].0 != k,
    ensures
        find_from(m, k, i) is None,
    decreases m.len() - i,
{
    if i < m.len() {
        assert(m[i].0 != k);
        lemma_find_none(m, k, i + 1);
    }
}

/// What `find` returns is the value of an entry with that name.
pub proof fn lemma_find_some<T>(m: Table<T>, k: Text, i: int)
    requires
        0 <= i,
        find_from(m, k, i) is Some,
    ensures
        exists|p: int|
            i <= p < m.len() && #[trigger] m[p].0 == k && find_from(m, k, i) == Some(m[p].1),
    decreases m.len() - i,
{
    if m[i].0 == k {
        assert(m[i].0 == k);
    } else {
        lemma_find_some(m, k, i + 1);
        let p = choose|p: int|
            i + 1 <= p < m.len() && #[trigger] m[p].0 == k && find_from(m, k, i + 1) == Some(m[p].1);
        assert(m[p].0 == k);
    }
}

/// In a sorted map the entry at `p` is the one that its name finds.
pub proof fn lemma_find_sorted<T>(m: Table<T>, p: int)
    requires
        sorted(m),
        0 <= p < m.len(),
    ensures
        find(m, m[p].0) == Some(m[p].1),
{
    assert forall|j: int| 0 <= j < p implies #[trigger] m[j].0 != m[p].0 by {
        text::lemma_text_less_irreflexive(m[p].0, 0);
    }
    lemma_find_at(m, m[p].0, p, 0);
}

/// The entries behind setting a name: the new one, and others that were there.
pub proof fn lemma_put_entries<T>(m: Table<T>, k: Text, v: T, i: int)
    requires
        0 <= i < put(m, k, v).len(),
    ensures
        put(m, k, v)[i] == (k, v) || m.contains(put(m, k, v)[i]),
{
    lemma_slot(m, k, 0);
    let p = slot_from(m, k, 0);
    if p < m.len() && m[p].0 == k {
        if i != p {
            assert(put(m, k, v)[i] == m[i]);
        }
    } else if i < p {
        assert(put(m, k, v)[i] == m[i]);
    } else if i > p {
        assert(put(m, k, v)[i] == m[i - 1]);
    }
}

/// Storing into a sorted map keeps it sorted.
pub proof fn law_put_keeps_sorted<T>(m: Table<T>, k: Text, v: T)
    requires
        sorted(m),
    ensures
        sorted(put(m, k, v)),
{
    lemma_slot(m, k, 0);
    let p = slot_from(m, k, 0);
    let r = put(m, k, v);
    if p < m.len() && m[p].0 == k {
        assert forall|i: int, j: int| 0 <= i < j < r.len() implies text::text_less(
            #[trigger] r[i].0,
            #[trigger] r[j].0,
        ) by {
            assert(r[i].0 == m[i].0 && r[j].0 == m[j].0);
        }
    } else {
        if p < m.len() {
            assert(text::text_less(k, m[p].0)) by {
                text::lemma_text_less_total(k, m[p].0, 0);
            }
        }
        assert forall|i: int, j: int| 0 <= i < j < r.len() implies text::text_less(
            #[trigger] r[i].0,
            #[trigger] r[j].0,
        ) by {
            let mi = if i < p { i } else { i - 1 };
            let mj = if j < p { j } else { j - 1 };
            if i < p {
                assert(r[i].0 == m[mi].0);
            } else if i > p {
                assert(r[i].0 == m[mi].0);
            }
            if j < p {
                assert(r[j].0 == m[mj].0);
            } else if j > p {
                assert(r[j].0 == m[mj].0);
            }
            if i == p {
                assert(r[i].0 == k);
                if mj != p {
                    assert(text::text_less(m[p].0, m[mj].0));
                    text::lemma_text_less_transitive(k, m[p].0, m[mj].0, 0);
                }
            }
            if j == p {
                assert(r[j].0 == k);
            }
        }
    }
}

/// In a sorted map a stored value is found again under its name, and every other
/// name finds what it found before.
pub proof fn law_put_then_find<T>(m: Table<T>, k: Text, v: T, other: Text)
    requires
        sorted(m),
    ensures
        find(put(m, k, v), k) == Some(v),
        other != k ==> find(put(m, k, v), other) == find(m, other),
{
    law_put_keeps_sorted(m, k, v);
    lemma_slot(m, k, 0);
    let p = slot_from(m, k, 0);
    let r = put(m, k, v);
    assert(r[p] == (k, v));
    lemma_find_sorted(r, p);
    if other != k {
        if find(m, other) is Some {
            lemma_find_some(m, other, 0);
            let q = choose|q: int|
                0 <= q < m.len() && #[trigger] m[q].0 == other && find_from(m, other, 0) == Some(m[q].1);
            let s = if p < m.len() && m[p].0 == k {
                q
            } else if q < p {
                q
            } else {
                q + 1
            };
            assert(r[s] == m[q]);
            lemma_find_sorted(r, s);
        } else {
            assert forall|j: int| 0 <= j < r.len() implies #[trigger] r[j].0 != other by {
                if r[j].0 == other {
                    let q = if p < m.len() && m[p].0 == k {
                        j
                    } else if j < p {
                        j
                    } else {
                        j - 1
                    };
                    assert(m[q].0 == other);
                    lemma_find_sorted(m, q);
                }
            }
            lemma_find_none(r, other, 0);
        }
    }
}

// ---- equal tables -------------------------------------------------------

/// Sorted tables in which the same names stand for the same are equal.
pub proof fn lemma_tables_equal<T>(a: Table<T>, b: Table<T>)
    requires
        sorted(a),
        sorted(b),
        forall|n: Text| #[trigger] find(a, n) == find(b, n),
    ensures
        a == b,
{
    if a.len() <= b.len() {
        lemma_prefix(a, b, a.len() as int);
        lemma_beyond(a, b);
    } else {
        assert forall|n: Text| #[trigger] find(b, n) == find(a, n) by {
            assert(find(a, n) == find(b, n));
        }
        lemma_prefix(b, a, b.len() as int);
        lemma_beyond(b, a);
    }
    assert(a =~= b);
}

proof fn lemma_beyond<T>(a: Table<T>, b: Table<T>)
    requires
        sorted(b),
        a.len() <= b.len(),
        forall|i: int| 0 <= i < a.len() ==> #[trigger] a[i] == b[i],
        forall|n: Text| #[trigger] find(a, n) == find(b, n),
    ensures
        a.len() == b.len(),
{
    if a.len() < b.len() {
        let p = a.len() as int;
        lemma_find_sorted(b, p);
        assert(find(a, b[p].0) is Some);
        lemma_find_some(a, b[p].0, 0);
        let q = choose|q: int| 0 <= q < a.len() && #[trigger] a[q].0 == b[p].0;
        assert(a[q] == b[q]);
        assert(text::text_less(b[q].0, b[p].0));
        text::lemma_text_less_irreflexive(b[p].0, 0);
    }
}

proof fn lemma_prefix<T>(a: Table<T>, b: Table<T>, k: int)
    requires
        sorted(a),
        sorted(b),
        0 <= k <= a.len() <= b.len(),
        forall|n: Text| #[trigger] find(a, n) == find(b, n),
    ensures
        forall|i: int| 0 <= i < k ==> #[trigger] a[i] == b[i],
    decreases k,
{
    if k > 0 {
        let i = k - 1;
        lemma_prefix(a, b, i);
        lemma_find_sorted(a, i);
        lemma_find_sorted(b, i);
        let x = a[i].0;
        let y = b[i].0;
        if x != y {
            assert(find(b, x) == find(a, x));
            assert(find(a, y) == find(b, y));
            lemma_find_some(b, x, 0);
            lemma_find_some(a, y, 0);
            let p = choose|p: int| 0 <= p < b.len() && #[trigger] b[p].0 == x;
            let q = choose|q: int| 0 <= q < a.len() && #[trigger] a[q].0 == y;
            if p < i {
                assert(a[p] == b[p]);
                assert(text::text_less(a[p].0, a[i].0));
                text::lemma_text_less_irreflexive(x, 0);
            }
            if q < i {
                assert(a[q] == b[q]);
                assert(text::text_less(b[q].0, b[i].0));
                text::lemma_text_less_irreflexive(y, 0);
            }
            assert(text::text_less(b[i].0, b[p].0));
            assert(text::text_less(a[i].0, a[q].0));
            text::lemma_text_less_transitive(x, y, x, 0);
            text::lemma_text_less_irreflexive(x, 0);
        }
        assert(a[i].1 == b[i].1);
    }
}

} // verus!
