//! How operators group: by level, and to the left within a level.

use crate::ast::{AExpr, BinOp};
use crate::grammar;
use crate::token::KToken;
use vstd::prelude::*;

verus! {

/// The level of an operator, from the loosest to the tightest.
pub open spec fn level(op: BinOp) -> int {
    if op is Or {
        0
    } else if op is And {
        1
    } else if op is Eq || op is Ne || op is Lt || op is Le || op is Gt || op is Ge {
        2
    } else if op is BitOr {
        3
    } else if op is BitXor {
        4
    } else if op is BitAnd {
        5
    } else if op is Shl || op is Shr {
        6
    } else if op is Add || op is Sub {
        7
    } else {
        8
    }
}

pub open spec fn joined(op: BinOp, a: AExpr, b: AExpr) -> AExpr {
    AExpr::Binary { op, lhs: Box::new(a), rhs: Box::new(b), span: a.span().cover(b.span()) }
}

/// Operands at `starts` up to `ends`, with one operator between each two and none behind
/// the last.
pub struct Chain {
    pub starts: Seq<int>,
    pub ends: Seq<int>,
    pub operands: Seq<AExpr>,
    pub ops: Seq<BinOp>,
}

impl Chain {
    pub open spec fn written(self, ts: Seq<KToken>, allow: bool) -> bool {
        let n = self.ops.len();
        &&& self.operands.len() == n + 1
        &&& self.starts.len() == n + 1
        &&& self.ends.len() == n + 1
        &&& forall|i: int|
            0 <= i <= n ==> grammar::prefix(ts, #[trigger] self.starts[i], allow) == Ok::<
                (AExpr, int),
                crate::diagnostic::Diag,
            >((self.operands[i], self.ends[i])) && 0 <= self.starts[i] < self.ends[i] <= ts.len()
        &&& forall|i: int|
            0 <= i < n ==> grammar::infix_op(grammar::tok_at(ts, #[trigger] self.ends[i])) == Some(
                self.ops[i],
            ) && self.starts[i + 1] == self.ends[i] + 1
        &&& grammar::infix_op(grammar::tok_at(ts, self.ends[n as int])) is None
    }

    /// The last of the loosest operators between operands `i` and `j`.
    pub open spec fn splits(self, i: int, k: int, j: int) -> bool {
        &&& i <= k < j
        &&& forall|l: int| i <= l < k ==> level(#[trigger] self.ops[l]) >= level(self.ops[k])
        &&& forall|l: int| k < l < j ==> level(#[trigger] self.ops[l]) > level(self.ops[k])
    }

    /// Whether `e` is the expression of operands `i` to `j`: an operand alone, or what
    /// stands to both sides of the last of the loosest operators.
    pub open spec fn grouped(self, i: int, j: int, e: AExpr) -> bool
        decreases j - i,
    {
        if i == j {
            e == self.operands[i]
        } else {
            exists|k: int, a: AExpr, b: AExpr| #[trigger]
                self.parted(i, k, j, e, a, b) && self.grouped(i, k, a) && self.grouped(k + 1, j, b)
        }
    }

    pub open spec fn parted(self, i: int, k: int, j: int, e: AExpr, a: AExpr, b: AExpr) -> bool {
        i <= k < j && self.splits(i, k, j) && e == joined(self.ops[k], a, b)
    }
}

proof fn lemma_levels(a: BinOp)
    ensures
        grammar::binding(a) == 2 * level(a) + 1,
        0 <= level(a) <= 8,
{
}

/// Where operators at least as tight as `min` stop: at the first looser one or the end.
spec fn stops(c: Chain, i: int, min: int, j: int) -> bool {
    &&& i <= j <= c.ops.len()
    &&& forall|l: int| i <= l < j ==> grammar::binding(#[trigger] c.ops[l]) >= min
    &&& j == c.ops.len() || grammar::binding(c.ops[j]) < min
}

spec fn stop(c: Chain, i: int, min: int) -> int
    decreases c.ops.len() - i,
{
    if i < 0 || i >= c.ops.len() || grammar::binding(c.ops[i]) < min {
        i
    } else {
        stop(c, i + 1, min)
    }
}

proof fn lemma_stop(c: Chain, i: int, min: int)
    requires
        0 <= i <= c.ops.len(),
    ensures
        stops(c, i, min, stop(c, i, min)),
    decreases c.ops.len() - i,
{
    if i < c.ops.len() && grammar::binding(c.ops[i]) >= min {
        lemma_stop(c, i + 1, min);
    }
}

proof fn lemma_operand(ts: Seq<KToken>, allow: bool, c: Chain, i: int, min: int) -> (e: AExpr)
    requires
        c.written(ts, allow),
        0 <= i <= c.ops.len(),
    ensures
        c.grouped(i, stop(c, i, min), e),
        grammar::expr_bp(ts, c.starts[i], min, allow) == Ok::<
            (AExpr, int),
            crate::diagnostic::Diag,
        >((e, c.ends[stop(c, i, min)])),
        c.starts[i] < c.ends[stop(c, i, min)] <= ts.len(),
    decreases c.ops.len() - i, 1int,
{
    lemma_stop(c, i, min);
    let e = c.operands[i];
    assert(c.starts[i] < c.ends[i]);
    lemma_rest(ts, allow, c, i, i, e, min)
}

proof fn lemma_rest(
    ts: Seq<KToken>,
    allow: bool,
    c: Chain,
    i: int,
    at: int,
    lhs: AExpr,
    min: int,
) -> (e: AExpr)
    requires
        c.written(ts, allow),
        0 <= i <= at <= c.ops.len(),
        c.grouped(i, at, lhs),
        at <= stop(c, i, min),
        stops(c, i, min, stop(c, i, min)),
        c.starts[i] < c.ends[at] <= ts.len(),
        at < c.ops.len() ==> forall|l: int|
            i <= l < at ==> level(#[trigger] c.ops[l]) >= level(c.ops[at]),
    ensures
        c.grouped(i, stop(c, i, min), e),
        grammar::infix_from(ts, c.ends[at], lhs, min, allow) == Ok::<
            (AExpr, int),
            crate::diagnostic::Diag,
        >((e, c.ends[stop(c, i, min)])),
        c.starts[i] < c.ends[stop(c, i, min)] <= ts.len(),
    decreases c.ops.len() - at, 0int,
{
    let n = c.ops.len() as int;
    let j = stop(c, i, min);
    if at == n {
        assert(j == n);
        lhs
    } else {
        let op = c.ops[at];
        assert(grammar::infix_op(grammar::tok_at(ts, c.ends[at])) == Some(op));
        if grammar::binding(op) < min {
            if at < j {
                assert(grammar::binding(c.ops[at]) >= min);
            }
            lhs
        } else {
            let inner = grammar::binding(op) + 1;
            let rhs = lemma_operand(ts, allow, c, at + 1, inner);
            lemma_stop(c, at + 1, inner);
            let next = stop(c, at + 1, inner);
            assert(c.starts[at + 1] == c.ends[at] + 1);
            let e = joined(op, lhs, rhs);
            lemma_levels(op);
            assert forall|l: int| at < l < next implies level(#[trigger] c.ops[l]) > level(op) by {
                lemma_levels(c.ops[l]);
            }
            assert(c.splits(i, at, next));
            assert(c.parted(i, at, next, e, lhs, rhs));
            assert(c.grouped(i, next, e));
            if next < n {
                lemma_levels(c.ops[next]);
                assert(level(c.ops[next]) <= level(op));
                assert forall|l: int| i <= l < next implies level(#[trigger] c.ops[l]) >= level(
                    c.ops[next],
                ) by {
                }
            }
            if at == j {
                assert(j == n || grammar::binding(c.ops[j]) < min);
            }
            if next > j {
                assert(j < n);
                assert(grammar::binding(c.ops[j]) < min);
                assert(grammar::binding(c.ops[j]) >= inner);
            }
            assert(c.starts[i] < c.ends[next]) by {
                assert(c.starts[i] < c.ends[at]);
            }
            lemma_rest(ts, allow, c, i, next, e, min)
        }
    }
}

/// Operands with operators between them are read as one expression, up to the end of the
/// last, grouped by the levels of the operators and to the left within a level.
pub proof fn law_operators_group_by_level(ts: Seq<KToken>, allow: bool, c: Chain)
    requires
        c.written(ts, allow),
    ensures
        exists|e: AExpr|
            #![trigger c.grouped(0, c.ops.len() as int, e)]
            c.grouped(0, c.ops.len() as int, e) && grammar::expr_bp(ts, c.starts[0], 0, allow)
                == Ok::<(AExpr, int), crate::diagnostic::Diag>((e, c.ends[c.ops.len() as int])),
        allow ==> grammar::expr(ts, c.starts[0]) == grammar::expr_bp(ts, c.starts[0], 0, allow),
{
    let e = lemma_operand(ts, allow, c, 0, 0);
    lemma_stop(c, 0, 0);
    let j = stop(c, 0, 0);
    if j < c.ops.len() {
        lemma_levels(c.ops[j]);
    }
}

/// Between three operands an operator of the same or a tighter level than the next one
/// takes the first two, and one of a looser level leaves the second to the next.
pub proof fn law_two_operators(
    ts: Seq<KToken>,
    allow: bool,
    a: (AExpr, int, int),
    op1: BinOp,
    b: (AExpr, int, int),
    op2: BinOp,
    c: (AExpr, int, int),
)
    requires
        grammar::prefix(ts, a.1, allow) == Ok::<(AExpr, int), crate::diagnostic::Diag>((a.0, a.2)),
        grammar::prefix(ts, b.1, allow) == Ok::<(AExpr, int), crate::diagnostic::Diag>((b.0, b.2)),
        grammar::prefix(ts, c.1, allow) == Ok::<(AExpr, int), crate::diagnostic::Diag>((c.0, c.2)),
        0 <= a.1 < a.2 < b.1 < b.2 < c.1 < c.2 <= ts.len(),
        b.1 == a.2 + 1,
        c.1 == b.2 + 1,
        grammar::infix_op(grammar::tok_at(ts, a.2)) == Some(op1),
        grammar::infix_op(grammar::tok_at(ts, b.2)) == Some(op2),
        grammar::infix_op(grammar::tok_at(ts, c.2)) is None,
    ensures
        level(op1) >= level(op2) ==> grammar::expr_bp(ts, a.1, 0, allow) == Ok::<
            (AExpr, int),
            crate::diagnostic::Diag,
        >((joined(op2, joined(op1, a.0, b.0), c.0), c.2)),
        level(op1) < level(op2) ==> grammar::expr_bp(ts, a.1, 0, allow) == Ok::<
            (AExpr, int),
            crate::diagnostic::Diag,
        >((joined(op1, a.0, joined(op2, b.0, c.0)), c.2)),
        allow ==> grammar::expr(ts, a.1) == grammar::expr_bp(ts, a.1, 0, allow),
{
    let ch = Chain {
        starts: seq![a.1, b.1, c.1],
        ends: seq![a.2, b.2, c.2],
        operands: seq![a.0, b.0, c.0],
        ops: seq![op1, op2],
    };
    assert(ch.written(ts, allow));
    law_operators_group_by_level(ts, allow, ch);
    let e = choose|e: AExpr|
        #![trigger ch.grouped(0, 2, e)]
        ch.grouped(0, 2, e) && grammar::expr_bp(ts, ch.starts[0], 0, allow) == Ok::<
            (AExpr, int),
            crate::diagnostic::Diag,
        >((e, ch.ends[2]));
    let (k, x, y) = choose|k: int, x: AExpr, y: AExpr| #[trigger]
        ch.parted(0, k, 2, e, x, y) && ch.grouped(0, k, x) && ch.grouped(k + 1, 2, y);
    assert(ch.ops[0] == op1 && ch.ops[1] == op2);
    if k == 0 {
        assert(level(ch.ops[1]) > level(ch.ops[0]));
        let (l, u, v) = choose|l: int, u: AExpr, v: AExpr| #[trigger]
            ch.parted(1, l, 2, y, u, v) && ch.grouped(1, l, u) && ch.grouped(l + 1, 2, v);
        assert(l == 1);
    } else {
        assert(k == 1);
        assert(level(ch.ops[0]) >= level(ch.ops[1]));
        let (l, u, v) = choose|l: int, u: AExpr, v: AExpr| #[trigger]
            ch.parted(0, l, 1, x, u, v) && ch.grouped(0, l, u) && ch.grouped(l + 1, 1, v);
        assert(l == 0);
    }
}

/// Parentheses take what stands between them as one operand, whatever the levels.
pub proof fn law_parentheses_group(ts: Seq<KToken>, p: int, e: AExpr, q: int, allow: bool)
    requires
        0 <= p,
        grammar::tok_at(ts, p) is LParen,
        grammar::expr(ts, p + 1) == Ok::<(AExpr, int), crate::diagnostic::Diag>((e, q)),
        p + 1 < q < ts.len(),
        grammar::tok_at(ts, q) is RParen,
    ensures
        grammar::atom(ts, p, allow) == Ok::<(AExpr, int), crate::diagnostic::Diag>((e, q + 1)),
{
}

} // verus!
