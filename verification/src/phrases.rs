//! How the phrases of the language are read: which tokens make up a construct, and what the
//! construct holds.

use crate::ast::{
    ABlock, AElseBranch, AExpr, AFieldDef, AItem, AMatchArm, AParam, APattern, AStmt, ATypeExpr,
    AVariantDef,
};
use crate::diagnostic::Diag;
use crate::grammar::{self, Parsed};
use crate::text::Text;
use crate::token::{KTok, KToken};
use vstd::prelude::*;

verus! {

/// Whether `a` is read, up to `q`.
pub open spec fn reads<A>(r: Parsed<A>, a: A, q: int) -> bool {
    r == Ok::<(A, int), Diag>((a, q))
}

/// Whether `a` is read of the tokens from `p` up to `q`.
pub open spec fn spans<A>(ts: Seq<KToken>, r: Parsed<A>, a: A, p: int, q: int) -> bool {
    reads(r, a, q) && p < q <= ts.len()
}

/// Whether a character is an upper-case letter.
pub open spec fn upper(c: char) -> bool {
    if (c as u32) < 128 {
        'A' <= c <= 'Z'
    } else {
        grammar::char_uppercase(c)
    }
}

// ---- statements ---------------------------------------------------------

/// `: T` behind a name is the annotation `T`; without a colon there is none.
pub proof fn law_annotations_are_read(ts: Seq<KToken>, p: int, ty: Option<ATypeExpr>, r: int)
    requires
        match ty {
            Some(t) => grammar::tok_at(ts, p) is Colon && reads(
                grammar::type_expr(ts, p + 1),
                t,
                r,
            ),
            None => !(grammar::tok_at(ts, p) is Colon) && r == p,
        },
    ensures
        reads(grammar::annotation(ts, p), ty, r),
{
}

/// `= e;` is the initialiser `e`.
pub proof fn law_initialisers_are_read(ts: Seq<KToken>, p: int, init: AExpr, q: int)
    requires
        grammar::tok_at(ts, p) is Eq,
        reads(grammar::expr(ts, p + 1), init, q),
        grammar::tok_at(ts, q) is Semi,
    ensures
        reads(grammar::initialiser(ts, p), init, q + 1),
{
}

/// `let x = e;`, `let mut x = e;` and the same with an annotation behind the name introduce `x`,
/// which can be assigned to exactly if `mut` is written.
#[verifier::rlimit(60)]
pub proof fn law_let_is_read(
    ts: Seq<KToken>,
    p: int,
    n: int,
    name: Text,
    ty: Option<ATypeExpr>,
    r: int,
    init: AExpr,
    e: int,
)
    requires
        grammar::tok_at(ts, p) is Let,
        n == if grammar::tok_at(ts, p + 1) is Mut {
            p + 2
        } else {
            p + 1
        },
        grammar::tok_at(ts, n) == KTok::Ident(name),
        spans(ts, grammar::annotation(ts, n + 1), ty, n, r),
        reads(grammar::initialiser(ts, r), init, e),
    ensures
        reads(
            grammar::let_stmt(ts, p),
            seq![
                AStmt::Let {
                    name,
                    mutable: grammar::tok_at(ts, p + 1) is Mut,
                    ty,
                    init,
                    span: grammar::span_at(ts, p).cover(grammar::prev_span(ts, e)),
                },
            ],
            e,
        ),
{
    assert(grammar::expect(ts, p, KTok::Let, "`let`"@) == Ok::<int, Diag>(p + 1));
    assert(!(grammar::tok_at(ts, n) is LParen));
    assert(grammar::ident(ts, n) == Ok::<(Text, int), Diag>((name, n + 1)));
    assert(grammar::forward(ts, grammar::annotation(ts, n + 1), n) == Ok::<
        (Option<ATypeExpr>, int),
        Diag,
    >((ty, r)));
    assert(n + 1 - 1 == n);
}

/// `let (a, b, ...) = e;` introduces the names for the parts of `e`, which can be assigned to
/// exactly if `mut` is written.
#[verifier::rlimit(60)]
pub proof fn law_destructuring_is_read(
    ts: Seq<KToken>,
    p: int,
    n: int,
    names: Seq<Text>,
    m: int,
    init: AExpr,
    e: int,
)
    requires
        grammar::tok_at(ts, p) is Let,
        n == if grammar::tok_at(ts, p + 1) is Mut {
            p + 2
        } else {
            p + 1
        },
        grammar::tok_at(ts, n) is LParen,
        spans(ts, grammar::names_from(ts, n + 1, Seq::empty()), names, n, m),
        grammar::tok_at(ts, m) is RParen,
        reads(grammar::initialiser(ts, m + 1), init, e),
    ensures
        reads(
            grammar::let_stmt(ts, p),
            grammar::destructured(
                names,
                grammar::tok_at(ts, p + 1) is Mut,
                init,
                grammar::span_at(ts, p).cover(grammar::prev_span(ts, e)),
            ),
            e,
        ),
{
    assert(grammar::expect(ts, p, KTok::Let, "`let`"@) == Ok::<int, Diag>(p + 1));
    assert(grammar::forward(ts, grammar::names_from(ts, n + 1, Seq::empty()), n) == Ok::<
        (Seq<Text>, int),
        Diag,
    >((names, m)));
    assert(grammar::expect(ts, m, KTok::RParen, "`)` in destructuring let"@) == Ok::<int, Diag>(
        m + 1,
    ));
}

/// Destructuring evaluates the value once and introduces each name, in order, for the part of
/// the value at its position.
pub proof fn law_destructuring_takes_parts(
    names: Seq<Text>,
    mutable: bool,
    init: AExpr,
    span: crate::span::Span,
)
    requires
        names.len() <= u64::MAX,
    ensures
        ({
            let ss = grammar::destructured(names, mutable, init, span);
            &&& ss.len() == names.len() + 1
            &&& ss[0] matches AStmt::Let { name: hidden, mutable: h, ty, init: i, span: at } && i
                == init && !h && ty is None && forall|k: int|
                0 <= k < names.len() ==> (#[trigger] ss[k + 1] matches AStmt::Let {
                    name,
                    mutable: m,
                    ty,
                    init: part,
                    span: at,
                } && name == names[k] && m == mutable && ty is None && (
                part matches AExpr::TupleField { base, index, span: at } && index == k && (
                *base matches AExpr::Ident { name: from, span: at } && from == hidden)))
        }),
{
    let ss = grammar::destructured(names, mutable, init, span);
    assert forall|k: int| 0 <= k < names.len() implies #[trigger] ss[k + 1]
        == grammar::part_binding(names, k, mutable, span) by {}
}

/// `while c { .. }` and `for x in a .. b { .. }` hold their parts in the order in which they
/// are written.
pub proof fn law_loops_are_read(
    ts: Seq<KToken>,
    p: int,
    x: Text,
    a: AExpr,
    q: int,
    b: AExpr,
    r: int,
    body: ABlock,
    e: int,
)
    ensures
        grammar::tok_at(ts, p) is While && spans(
            ts,
            grammar::expr_bp(ts, p + 1, 0, false),
            a,
            p + 1,
            q,
        ) && reads(grammar::block(ts, q), body, e) ==> (grammar::keyword_stmt(ts, p) matches Ok(
            (AStmt::While { cond, body: d, span }, end),
        ) && cond == a && d == body && end == e),
        grammar::tok_at(ts, p) is For && grammar::tok_at(ts, p + 1) == KTok::Ident(x)
            && grammar::tok_at(ts, p + 2) is In && spans(
            ts,
            grammar::expr_bp(ts, p + 3, 0, false),
            a,
            p + 3,
            q,
        ) && grammar::tok_at(ts, q) is DotDot && spans(
            ts,
            grammar::expr_bp(ts, q + 1, 0, false),
            b,
            q + 1,
            r,
        ) && reads(grammar::block(ts, r), body, e) ==> (grammar::keyword_stmt(ts, p) matches Ok(
            (AStmt::For { var, lo, hi, body: d, span }, end),
        ) && var == x && lo == a && hi == b && d == body && end == e),
{
    if grammar::tok_at(ts, p) is While {
        assert(grammar::keyword_stmt(ts, p) == grammar::while_stmt(ts, p));
    }
    if grammar::tok_at(ts, p) is For {
        assert(grammar::keyword_stmt(ts, p) == grammar::for_stmt(ts, p));
    }
}

/// `return;` returns nothing and `return e;` the value of `e`.
pub proof fn law_return_is_read(ts: Seq<KToken>, p: int, e: AExpr, q: int)
    requires
        grammar::tok_at(ts, p) is Return,
    ensures
        grammar::tok_at(ts, p + 1) is Semi ==> (grammar::keyword_stmt(ts, p) matches Ok(
            (AStmt::Return { value, span }, end),
        ) && value is None && end == p + 2),
        !(grammar::tok_at(ts, p + 1) is Semi) && reads(grammar::expr(ts, p + 1), e, q)
            && grammar::tok_at(ts, q) is Semi ==> (grammar::keyword_stmt(ts, p) matches Ok(
            (AStmt::Return { value, span }, end),
        ) && value == Some(e) && end == q + 1),
{
    assert(grammar::keyword_stmt(ts, p) == grammar::return_stmt(ts, p));
}

/// In a block `e;` is a statement, `e = v;` an assignment to `e`, and an `e` before the
/// closing brace the value of the block. An `if`, a `match` and a block are statements
/// without `;` too.
pub proof fn law_expressions_in_blocks_are_read(
    ts: Seq<KToken>,
    p: int,
    acc: Seq<AStmt>,
    e: AExpr,
    q: int,
    v: AExpr,
    r: int,
)
    requires
        ({
            let t = grammar::tok_at(ts, p);
            !(t is RBrace || t is Eof || t is Let || t is While || t is For || t is Return)
        }),
        spans(ts, grammar::expr(ts, p), e, p, q),
    ensures
        grammar::tok_at(ts, q) is Semi ==> grammar::stmts_from(ts, p, acc) == grammar::stmts_from(
            ts,
            q + 1,
            acc.push(AStmt::Expr(e)),
        ),
        grammar::tok_at(ts, q) is Eq && spans(ts, grammar::expr(ts, q + 1), v, q + 1, r)
            && grammar::tok_at(ts, r) is Semi ==> grammar::stmts_from(ts, p, acc)
            == grammar::stmts_from(
            ts,
            r + 1,
            acc.push(
                AStmt::Assign { target: e, value: v, span: e.span().cover(v.span()) },
            ),
        ),
        grammar::tok_at(ts, q) is RBrace ==> reads(
            grammar::stmts_from(ts, p, acc),
            (acc, Some(Box::new(e))),
            q,
        ),
        !(grammar::tok_at(ts, q) is Semi || grammar::tok_at(ts, q) is Eq || grammar::tok_at(
            ts,
            q,
        ) is RBrace) ==> if e is If || e is Match || e is Block {
            grammar::stmts_from(ts, p, acc) == grammar::stmts_from(
                ts,
                q,
                acc.push(AStmt::Expr(e)),
            )
        } else {
            grammar::stmts_from(ts, p, acc) is Err
        },
{
}

/// A block holds the statements and the value between its braces, in order.
pub proof fn law_blocks_are_read(
    ts: Seq<KToken>,
    p: int,
    stmts: Seq<AStmt>,
    tail: Option<Box<AExpr>>,
    q: int,
)
    requires
        grammar::tok_at(ts, p) is LBrace,
        reads(grammar::stmts_from(ts, p + 1, Seq::empty()), (stmts, tail), q),
        grammar::tok_at(ts, q) is RBrace,
    ensures
        grammar::block(ts, p) matches Ok((b, e)) && b.stmts == stmts && b.tail == tail && e == q + 1,
{
}

/// Statements are read one behind the other up to the closing brace.
pub proof fn law_statements_are_read(
    ts: Seq<KToken>,
    p: int,
    acc: Seq<AStmt>,
    s: AStmt,
    ss: Seq<AStmt>,
    q: int,
)
    ensures
        grammar::tok_at(ts, p) is RBrace ==> reads(grammar::stmts_from(ts, p, acc), (acc, None), p),
        grammar::tok_at(ts, p) is Let && spans(ts, grammar::let_stmt(ts, p), ss, p, q)
            ==> grammar::stmts_from(ts, p, acc) == grammar::stmts_from(ts, q, acc + ss),
        (grammar::tok_at(ts, p) is While || grammar::tok_at(ts, p) is For || grammar::tok_at(
            ts,
            p,
        ) is Return) && spans(ts, grammar::keyword_stmt(ts, p), s, p, q) ==> grammar::stmts_from(
            ts,
            p,
            acc,
        ) == grammar::stmts_from(ts, q, acc.push(s)),
{
}

// ---- expressions --------------------------------------------------------

/// `if c { .. }` has no second branch; `if c { .. } else { .. }` and
/// `if c { .. } else if ..` have what stands behind `else`.
pub proof fn law_if_is_read(
    ts: Seq<KToken>,
    p: int,
    c: AExpr,
    q: int,
    a: ABlock,
    r: int,
    b: ABlock,
    f: AExpr,
    e: int,
)
    requires
        grammar::tok_at(ts, p) is If,
        spans(ts, grammar::expr_bp(ts, p + 1, 0, false), c, p + 1, q),
        spans(ts, grammar::block(ts, q), a, q, r),
    ensures
        !(grammar::tok_at(ts, r) is Else) ==> (grammar::if_expr(ts, p) matches Ok(
            (AExpr::If { cond, then_branch, else_branch, span }, end),
        ) && *cond == c && then_branch == a && else_branch is None && end == r),
        grammar::tok_at(ts, r) is Else && !(grammar::tok_at(ts, r + 1) is If) && reads(
            grammar::block(ts, r + 1),
            b,
            e,
        ) ==> (grammar::if_expr(ts, p) matches Ok(
            (AExpr::If { cond, then_branch, else_branch, span }, end),
        ) && *cond == c && then_branch == a && (else_branch matches Some(x) && *x
            == AElseBranch::Block(b)) && end == e),
        grammar::tok_at(ts, r) is Else && grammar::tok_at(ts, r + 1) is If && reads(
            grammar::if_expr(ts, r + 1),
            f,
            e,
        ) ==> (grammar::if_expr(ts, p) matches Ok(
            (AExpr::If { cond, then_branch, else_branch, span }, end),
        ) && *cond == c && then_branch == a && (else_branch matches Some(x) && *x
            == AElseBranch::If(f)) && end == e),
        grammar::atom(ts, p, true) == grammar::if_expr(ts, p),
        grammar::atom(ts, p, false) == grammar::if_expr(ts, p),
{
    if !(grammar::tok_at(ts, r) is Else) {
        assert(reads(grammar::else_part(ts, r), None, r));
    } else if grammar::tok_at(ts, r + 1) is If {
        if reads(grammar::if_expr(ts, r + 1), f, e) {
            assert(reads(
                grammar::else_part(ts, r),
                Some(Box::new(AElseBranch::If(f))),
                e,
            ));
        }
    } else {
        if reads(grammar::block(ts, r + 1), b, e) {
            assert(reads(
                grammar::else_part(ts, r),
                Some(Box::new(AElseBranch::Block(b))),
                e,
            ));
        }
    }
}

/// An arm is a pattern, an `if` with a guard or none, `=>` and a body. Arms are read one
/// behind the other, with commas between them.
pub proof fn law_arms_are_read(
    ts: Seq<KToken>,
    p: int,
    acc: Seq<AMatchArm>,
    pat: APattern,
    q: int,
    g: Option<AExpr>,
    r: int,
    body: AExpr,
    e: int,
)
    requires
        !(grammar::tok_at(ts, p) is RBrace),
        spans(ts, grammar::pattern(ts, p), pat, p, q),
        match g {
            Some(x) => grammar::tok_at(ts, q) is If && spans(
                ts,
                grammar::expr_bp(ts, q + 1, 0, false),
                x,
                q + 1,
                r,
            ),
            None => !(grammar::tok_at(ts, q) is If) && r == q,
        },
        grammar::tok_at(ts, r) is FatArrow,
        spans(ts, grammar::expr(ts, r + 1), body, r + 1, e),
    ensures
        ({
            let arm = AMatchArm {
                pattern: pat,
                guard: g,
                body,
                span: grammar::span_at(ts, p).cover(grammar::prev_span(ts, e)),
            };
            if grammar::tok_at(ts, e) is Comma {
                grammar::arms_from(ts, p, acc) == grammar::arms_from(ts, e + 1, acc.push(arm))
            } else {
                reads(grammar::arms_from(ts, p, acc), acc.push(arm), e)
            }
        }),
{
    assert(reads(grammar::guard(ts, q), g, r));
}

/// A `match` holds the expression behind it and the arms between the braces.
pub proof fn law_match_is_read(
    ts: Seq<KToken>,
    p: int,
    v: AExpr,
    q: int,
    arms: Seq<AMatchArm>,
    r: int,
)
    requires
        grammar::tok_at(ts, p) is Match,
        spans(ts, grammar::expr_bp(ts, p + 1, 0, false), v, p + 1, q),
        grammar::tok_at(ts, q) is LBrace,
        reads(grammar::arms_from(ts, q + 1, Seq::empty()), arms, r),
        grammar::tok_at(ts, r) is RBrace,
    ensures
        grammar::match_expr(ts, p) matches Ok((AExpr::Match { scrutinee, arms: xs, span }, e))
            && *scrutinee == v && xs == arms && e == r + 1,
        grammar::atom(ts, p, true) == grammar::match_expr(ts, p),
        grammar::atom(ts, p, false) == grammar::match_expr(ts, p),
{
}

/// Behind an operand `(..)` calls it, `.n` takes a part, `.name` a field and `[..]` an
/// element, one behind the other from left to right.
pub proof fn law_suffixes_are_read(
    ts: Seq<KToken>,
    p: int,
    e: AExpr,
    args: Seq<AExpr>,
    index: AExpr,
    q: int,
    n: i128,
    field: Text,
)
    ensures
        grammar::tok_at(ts, p) is LParen && spans(
            ts,
            grammar::exprs_from(ts, p + 1, KTok::RParen, Seq::empty()),
            args,
            p,
            q,
        ) && grammar::tok_at(ts, q) is RParen ==> grammar::postfix_from(ts, p, e)
            == grammar::postfix_from(
            ts,
            q + 1,
            AExpr::Call {
                callee: Box::new(e),
                args,
                span: e.span().cover(grammar::prev_span(ts, q + 1)),
            },
        ),
        grammar::tok_at(ts, p) is Dot && grammar::tok_at(ts, p + 1) == KTok::Int(n)
            ==> grammar::postfix_from(ts, p, e) == grammar::postfix_from(
            ts,
            p + 2,
            AExpr::TupleField {
                base: Box::new(e),
                index: n as u64,
                span: e.span().cover(grammar::prev_span(ts, p + 2)),
            },
        ),
        grammar::tok_at(ts, p) is Dot && grammar::tok_at(ts, p + 1) == KTok::Ident(field)
            ==> grammar::postfix_from(ts, p, e) == grammar::postfix_from(
            ts,
            p + 2,
            AExpr::Field {
                base: Box::new(e),
                field,
                span: e.span().cover(grammar::prev_span(ts, p + 2)),
            },
        ),
        grammar::tok_at(ts, p) is LBracket && spans(
            ts,
            grammar::expr(ts, p + 1),
            index,
            p + 1,
            q,
        ) && grammar::tok_at(ts, q) is RBracket ==> grammar::postfix_from(ts, p, e)
            == grammar::postfix_from(
            ts,
            q + 1,
            AExpr::Index {
                base: Box::new(e),
                index: Box::new(index),
                span: e.span().cover(grammar::prev_span(ts, q + 1)),
            },
        ),
        ({
            let t = grammar::tok_at(ts, p);
            !(t is LParen || t is Dot || t is LBracket)
        }) ==> reads(grammar::postfix_from(ts, p, e), e, p),
{
}

/// A number, `true` and `false` are literals, `()` is the empty block, and `[..]` an array of
/// the expressions in it.
pub proof fn law_literals_are_read(
    ts: Seq<KToken>,
    p: int,
    n: i128,
    elems: Seq<AExpr>,
    q: int,
    allow: bool,
)
    ensures
        grammar::tok_at(ts, p) == KTok::Int(n) ==> (grammar::atom(ts, p, allow) matches Ok(
            (AExpr::Int { value, span }, e),
        ) && value == n && e == p + 1),
        grammar::tok_at(ts, p) is True ==> (grammar::atom(ts, p, allow) matches Ok(
            (AExpr::Bool { value, span }, e),
        ) && value && e == p + 1),
        grammar::tok_at(ts, p) is False ==> (grammar::atom(ts, p, allow) matches Ok(
            (AExpr::Bool { value, span }, e),
        ) && !value && e == p + 1),
        grammar::tok_at(ts, p) is LParen && grammar::tok_at(ts, p + 1) is RParen ==> (grammar::atom(
            ts,
            p,
            allow,
        ) matches Ok((AExpr::Block(b), e)) && b.stmts.len() == 0 && b.tail is None && e == p + 2),
        grammar::tok_at(ts, p) is LBracket && reads(
            grammar::exprs_from(ts, p + 1, KTok::RBracket, Seq::empty()),
            elems,
            q,
        ) && grammar::tok_at(ts, q) is RBracket ==> (grammar::atom(ts, p, allow) matches Ok(
            (AExpr::Array { elems: xs, span }, e),
        ) && xs == elems && e == q + 1),
{
}

/// Expressions with commas between them are read in order; a comma may stand behind the last.
pub proof fn law_lists_are_read(
    ts: Seq<KToken>,
    p: int,
    close: KTok,
    acc: Seq<AExpr>,
    e: AExpr,
    q: int,
)
    ensures
        grammar::tok_at(ts, p) == close ==> reads(grammar::exprs_from(ts, p, close, acc), acc, p),
        grammar::tok_at(ts, p) != close && spans(ts, grammar::expr(ts, p), e, p, q) ==> if grammar::tok_at(
            ts,
            q,
        ) is Comma {
            grammar::exprs_from(ts, p, close, acc) == grammar::exprs_from(
                ts,
                q + 1,
                close,
                acc.push(e),
            )
        } else {
            reads(grammar::exprs_from(ts, p, close, acc), acc.push(e), q)
        },
{
}

/// `(a, b, ..)` is a tuple of what stands between the commas, in order, and so is `(a,)`.
pub proof fn law_tuples_are_read(
    ts: Seq<KToken>,
    p: int,
    first: AExpr,
    q: int,
    elems: Seq<AExpr>,
    r: int,
    acc: Seq<AExpr>,
    e: AExpr,
    allow: bool,
)
    ensures
        grammar::tok_at(ts, p) is LParen && !(grammar::tok_at(ts, p + 1) is RParen) && spans(
            ts,
            grammar::expr(ts, p + 1),
            first,
            p + 1,
            q,
        ) && grammar::tok_at(ts, q) is Comma && reads(
            grammar::tuple_from(ts, q, seq![first]),
            elems,
            r,
        ) && grammar::tok_at(ts, r) is RParen ==> (grammar::atom(ts, p, allow) matches Ok(
            (AExpr::Tuple { elems: xs, span }, end),
        ) && xs == elems && end == r + 1),
        grammar::tok_at(ts, p) is Comma && !(grammar::tok_at(ts, p + 1) is RParen) && spans(
            ts,
            grammar::expr(ts, p + 1),
            e,
            p + 1,
            q,
        ) ==> grammar::tuple_from(ts, p, acc) == grammar::tuple_from(ts, q, acc.push(e)),
        grammar::tok_at(ts, p) is Comma && grammar::tok_at(ts, p + 1) is RParen ==> reads(
            grammar::tuple_from(ts, p, acc),
            acc,
            p + 1,
        ),
        !(grammar::tok_at(ts, p) is Comma) ==> reads(grammar::tuple_from(ts, p, acc), acc, p),
{
}

/// A path before `{` is a struct literal exactly where one may stand and the last name of the
/// path begins with an upper-case letter; otherwise a name alone is a variable or a constant.
pub proof fn law_names_are_read(
    ts: Seq<KToken>,
    p: int,
    name: Text,
    segs: Seq<Text>,
    q: int,
    allow: bool,
)
    requires
        grammar::tok_at(ts, p) == KTok::Ident(name),
        spans(ts, grammar::name_path(ts, p), segs, p, q),
        segs.len() > 0,
        segs.last().len() > 0,
    ensures
        ({
            let literal = allow && grammar::tok_at(ts, q) is LBrace && upper(
                segs.last()[0],
            );
            let r = grammar::atom(ts, p, allow);
            &&& literal && r is Ok ==> (r->Ok_0.0 matches AExpr::StructLit { path, fields, span } && path
                == segs)
            &&& !literal ==> (r matches Ok((e, end)) && end == q && if segs.len() == 1 {
                e matches AExpr::Ident { name: n, span } && n == segs[0]
            } else {
                e matches AExpr::Path { segments, span } && segments == segs
            })
        }),
{
}

/// The fields of a struct literal are read in order, each a name, a colon and a value.
pub proof fn law_field_values_are_read(
    ts: Seq<KToken>,
    p: int,
    acc: Seq<(Text, AExpr)>,
    name: Text,
    e: AExpr,
    q: int,
)
    requires
        grammar::tok_at(ts, p) == KTok::Ident(name),
        grammar::tok_at(ts, p + 1) is Colon,
        spans(ts, grammar::expr(ts, p + 2), e, p + 2, q),
    ensures
        if grammar::tok_at(ts, q) is Comma {
            grammar::inits_from(ts, p, acc) == grammar::inits_from(ts, q + 1, acc.push((name, e)))
        } else {
            reads(grammar::inits_from(ts, p, acc), acc.push((name, e)), q)
        },
{
}

// ---- patterns -----------------------------------------------------------

/// `a..b` is the range without `b`, `a..=b` the one with it, and a minus sign belongs to the
/// number behind it.
pub proof fn law_number_patterns_are_read(ts: Seq<KToken>, p: int, a: i128, b: i128)
    requires
        0 <= a,
        0 <= b,
    ensures
        ({
            let minus = grammar::tok_at(ts, p) is Minus;
            let x = if minus {
                p + 1
            } else {
                p
            };
            let low = if minus {
                -a
            } else {
                a as int
            };
            let ranged = grammar::tok_at(ts, x + 1) is DotDot || grammar::tok_at(ts, x + 1) is DotDotEq;
            let down = grammar::tok_at(ts, x + 2) is Minus;
            let y = if down {
                x + 3
            } else {
                x + 2
            };
            let high = if down {
                -b
            } else {
                b as int
            };
            grammar::tok_at(ts, x) == KTok::Int(a) ==> {
                &&& !ranged ==> (grammar::pattern_primary(ts, p) matches Ok(
                    (APattern::Int { value, span }, e),
                ) && value == low && e == x + 1)
                &&& ranged && grammar::tok_at(ts, y) == KTok::Int(b) ==> (grammar::pattern_primary(
                    ts,
                    p,
                ) matches Ok((APattern::Range { lo, hi, inclusive, span }, e)) && lo == low && hi
                    == high && (inclusive <==> grammar::tok_at(ts, x + 1) is DotDotEq) && e == y + 1)
            }
        }),
{
}

/// `_` matches everything, `true` and `false` themselves; a name alone is a variable, or a
/// variant where it begins with an upper-case letter; a path is a variant; a path with
/// patterns in brackets a variant with values.
pub proof fn law_name_patterns_are_read(
    ts: Seq<KToken>,
    p: int,
    name: Text,
    segs: Seq<Text>,
    q: int,
    subs: Seq<APattern>,
    comma: bool,
    r: int,
)
    ensures
        grammar::tok_at(ts, p) is True ==> (grammar::pattern_primary(ts, p) matches Ok(
            (APattern::Bool { value, span }, e),
        ) && value && e == p + 1),
        grammar::tok_at(ts, p) is False ==> (grammar::pattern_primary(ts, p) matches Ok(
            (APattern::Bool { value, span }, e),
        ) && !value && e == p + 1),
        grammar::tok_at(ts, p) == KTok::Ident("_"@) ==> (grammar::pattern_primary(ts, p) matches Ok(
            (APattern::Wildcard { span }, e),
        ) && e == p + 1),
        grammar::tok_at(ts, p) == KTok::Ident(name) && name != "_"@ && spans(
            ts,
            grammar::name_path(ts, p),
            segs,
            p,
            q,
        ) && segs.len() > 0 && segs.last().len() > 0 ==> {
            let x = grammar::pattern_primary(ts, p);
            let big = upper(segs.last()[0]);
            &&& !(grammar::tok_at(ts, q) is LParen) && segs.len() == 1 && !big ==> (x matches Ok(
                (APattern::Binding { name: n, span }, e),
            ) && n == segs[0] && e == q)
            &&& !(grammar::tok_at(ts, q) is LParen) && (segs.len() > 1 || big) ==> (x matches Ok(
                (APattern::Variant { path, subpatterns, span }, e),
            ) && path == segs && subpatterns.len() == 0 && e == q)
            &&& grammar::tok_at(ts, q) is LParen && reads(
                grammar::patterns_from(ts, q + 1, Seq::empty(), false),
                (subs, comma),
                r,
            ) && grammar::tok_at(ts, r) is RParen ==> (x matches Ok(
                (APattern::Variant { path, subpatterns, span }, e),
            ) && path == segs && subpatterns == subs && e == r + 1)
        },
{
}

/// `a | b | ..` is what one of the alternatives is, in order.
pub proof fn law_alternatives_are_read(
    ts: Seq<KToken>,
    p: int,
    a: APattern,
    q: int,
    b: APattern,
    r: int,
    alts: Seq<APattern>,
    acc: Seq<APattern>,
)
    requires
        spans(ts, grammar::pattern_primary(ts, p), a, p, q),
    ensures
        !(grammar::tok_at(ts, q) is Pipe) ==> reads(grammar::pattern(ts, p), a, q),
        grammar::tok_at(ts, q) is Pipe && reads(
            grammar::alts_from(ts, q, seq![a]),
            alts,
            r,
        ) ==> (grammar::pattern(ts, p) matches Ok((APattern::Or { alts: xs, span }, e)) && xs == alts
            && e == r),
        grammar::tok_at(ts, q) is Pipe && spans(
            ts,
            grammar::pattern_primary(ts, q + 1),
            b,
            q + 1,
            r,
        ) ==> grammar::alts_from(ts, q, acc) == grammar::alts_from(ts, r, acc.push(b)),
        !(grammar::tok_at(ts, q) is Pipe) ==> reads(grammar::alts_from(ts, q, acc), acc, q),
{
}

// ---- types --------------------------------------------------------------

/// `bool`, the integer types, `bit<n>` with `n` from 1 to 128, `[T; n]`, `()` and named types.
pub proof fn law_types_are_read(
    ts: Seq<KToken>,
    p: int,
    signed: bool,
    width: u32,
    n: i128,
    elem: ATypeExpr,
    q: int,
    name: Text,
    segs: Seq<Text>,
)
    ensures
        grammar::tok_at(ts, p) is Bool ==> reads(grammar::type_expr(ts, p), ATypeExpr::Bool, p + 1),
        grammar::tok_at(ts, p) == KTok::IntTy(signed, width) ==> reads(
            grammar::type_expr(ts, p),
            ATypeExpr::Int { signed, width },
            p + 1,
        ),
        grammar::tok_at(ts, p) is Bit && grammar::tok_at(ts, p + 1) is Lt && grammar::tok_at(
            ts,
            p + 2,
        ) == KTok::Int(n) && grammar::tok_at(ts, p + 3) is Gt ==> if 1 <= n <= 128 {
            reads(grammar::type_expr(ts, p), ATypeExpr::Bit { width: n as u32 }, p + 4)
        } else {
            grammar::type_expr(ts, p) is Err
        },
        grammar::tok_at(ts, p) is LBracket && spans(
            ts,
            grammar::type_expr(ts, p + 1),
            elem,
            p + 1,
            q,
        ) && grammar::tok_at(ts, q) is Semi && grammar::tok_at(ts, q + 1) == KTok::Int(n)
            && grammar::tok_at(ts, q + 2) is RBracket && 0 <= n ==> reads(
            grammar::type_expr(ts, p),
            ATypeExpr::Array { elem: Box::new(elem), len: n as u64 },
            q + 3,
        ),
        grammar::tok_at(ts, p) is LParen && grammar::tok_at(ts, p + 1) is RParen ==> reads(
            grammar::type_expr(ts, p),
            ATypeExpr::Unit,
            p + 2,
        ),
        grammar::tok_at(ts, p) == KTok::Ident(name) && reads(grammar::name_path(ts, p), segs, q)
            ==> reads(grammar::type_expr(ts, p), ATypeExpr::Named(segs), q),
{
}

// ---- items --------------------------------------------------------------

/// `fn name(..) -> T { .. }` is the function of that name with the parameters, the result
/// type and the body that are written; without `->` it has no result type.
#[verifier::rlimit(60)]
pub proof fn law_functions_are_read(
    ts: Seq<KToken>,
    p: int,
    name: Text,
    params: Seq<AParam>,
    q: int,
    ret: Option<ATypeExpr>,
    r: int,
    body: ABlock,
    e: int,
)
    requires
        grammar::tok_at(ts, p) is Fn,
        grammar::tok_at(ts, p + 1) == KTok::Ident(name),
        grammar::tok_at(ts, p + 2) is LParen,
        reads(grammar::params_from(ts, p + 3, Seq::empty()), params, q),
        grammar::tok_at(ts, q) is RParen,
        match ret {
            Some(t) => grammar::tok_at(ts, q + 1) is Arrow && reads(
                grammar::type_expr(ts, q + 2),
                t,
                r,
            ),
            None => !(grammar::tok_at(ts, q + 1) is Arrow) && r == q + 1,
        },
        reads(grammar::block(ts, r), body, e),
    ensures
        grammar::func(ts, p) matches Ok((f, end)) && f.name == name && f.params == params && f.ret
            == ret && f.body == body && end == e,
{
    reveal(grammar::func);
    assert(reads(grammar::ret_type(ts, q + 1), ret, r));
}

/// Parameters are read in order, each a name, a colon and a type.
pub proof fn law_parameters_are_read(
    ts: Seq<KToken>,
    p: int,
    acc: Seq<AParam>,
    name: Text,
    ty: ATypeExpr,
    q: int,
)
    ensures
        grammar::tok_at(ts, p) is RParen ==> reads(grammar::params_from(ts, p, acc), acc, p),
        grammar::tok_at(ts, p) == KTok::Ident(name) && grammar::tok_at(ts, p + 1) is Colon && spans(
            ts,
            grammar::type_expr(ts, p + 2),
            ty,
            p + 2,
            q,
        ) ==> {
            let x = AParam {
                name,
                ty,
                span: grammar::span_at(ts, p).cover(grammar::prev_span(ts, q)),
            };
            if grammar::tok_at(ts, q) is Comma {
                grammar::params_from(ts, p, acc) == grammar::params_from(ts, q + 1, acc.push(x))
            } else {
                reads(grammar::params_from(ts, p, acc), acc.push(x), q)
            }
        },
{
}

/// `const NAME: T = e;` is the constant of that name, type and initialiser.
pub proof fn law_constants_are_read(
    ts: Seq<KToken>,
    p: int,
    name: Text,
    ty: ATypeExpr,
    q: int,
    init: AExpr,
    r: int,
)
    requires
        grammar::tok_at(ts, p) is Const,
        grammar::tok_at(ts, p + 1) == KTok::Ident(name),
        grammar::tok_at(ts, p + 2) is Colon,
        reads(grammar::type_expr(ts, p + 3), ty, q),
        grammar::tok_at(ts, q) is Eq,
        reads(grammar::expr(ts, q + 1), init, r),
        grammar::tok_at(ts, r) is Semi,
    ensures
        grammar::const_def(ts, p) matches Ok((c, e)) && c.name == name && c.ty == ty && c.init == init
            && e == r + 1,
{
    reveal(grammar::const_def);
}

/// `use a::b;` brings in `a::b`, `use a::b::*;` all that `a::b` has.
pub proof fn law_imports_are_read(
    ts: Seq<KToken>,
    p: int,
    first: Text,
    path: Seq<Text>,
    glob: bool,
    q: int,
    acc: Seq<Text>,
    seg: Text,
)
    ensures
        grammar::tok_at(ts, p) is Use && grammar::tok_at(ts, p + 1) == KTok::Ident(first) && reads(
            grammar::use_from(ts, p + 2, seq![first]),
            (path, glob),
            q,
        ) && grammar::tok_at(ts, q) is Semi ==> (grammar::use_decl(ts, p) matches Ok((u, e)) && u.path
            == path && u.glob == glob && e == q + 1),
        grammar::tok_at(ts, p) is ColonColon && grammar::tok_at(ts, p + 1) == KTok::Ident(seg)
            ==> grammar::use_from(ts, p, acc) == grammar::use_from(ts, p + 2, acc.push(seg)),
        grammar::tok_at(ts, p) is ColonColon && grammar::tok_at(ts, p + 1) is Star ==> reads(
            grammar::use_from(ts, p, acc),
            (acc, true),
            p + 2,
        ),
        !(grammar::tok_at(ts, p) is ColonColon) ==> reads(
            grammar::use_from(ts, p, acc),
            (acc, false),
            p,
        ),
{
    reveal(grammar::use_decl);
}

/// `struct Name { .. }` has the fields that are written, each a name, a colon and a type, in
/// order.
pub proof fn law_structs_are_read(
    ts: Seq<KToken>,
    p: int,
    name: Text,
    fields: Seq<AFieldDef>,
    q: int,
    acc: Seq<AFieldDef>,
    field: Text,
    ty: ATypeExpr,
    r: int,
)
    ensures
        grammar::tok_at(ts, p) is Struct && grammar::tok_at(ts, p + 1) == KTok::Ident(name)
            && grammar::tok_at(ts, p + 2) is LBrace && reads(
            grammar::fields_from(ts, p + 3, Seq::empty()),
            fields,
            q,
        ) && grammar::tok_at(ts, q) is RBrace ==> (grammar::struct_def(ts, p) matches Ok((s, e))
            && s.name == name && s.fields == fields && e == q + 1),
        grammar::tok_at(ts, p) is RBrace ==> reads(grammar::fields_from(ts, p, acc), acc, p),
        grammar::tok_at(ts, p) == KTok::Ident(field) && grammar::tok_at(ts, p + 1) is Colon && spans(
            ts,
            grammar::type_expr(ts, p + 2),
            ty,
            p + 2,
            r,
        ) ==> {
            let x = AFieldDef {
                name: field,
                ty,
                span: grammar::span_at(ts, p).cover(grammar::prev_span(ts, r)),
            };
            if grammar::tok_at(ts, r) is Comma {
                grammar::fields_from(ts, p, acc) == grammar::fields_from(ts, r + 1, acc.push(x))
            } else {
                reads(grammar::fields_from(ts, p, acc), acc.push(x), r)
            }
        },
{
    reveal(grammar::struct_def);
}

/// `enum Name { .. }` has the variants that are written, in order, each with the types in the
/// brackets behind it, or none.
pub proof fn law_enums_are_read(
    ts: Seq<KToken>,
    p: int,
    name: Text,
    variants: Seq<AVariantDef>,
    q: int,
    acc: Seq<AVariantDef>,
    variant: Text,
    tys: Seq<ATypeExpr>,
    comma: bool,
    r: int,
)
    ensures
        grammar::tok_at(ts, p) is Enum && grammar::tok_at(ts, p + 1) == KTok::Ident(name)
            && grammar::tok_at(ts, p + 2) is LBrace && reads(
            grammar::variants_from(ts, p + 3, Seq::empty()),
            variants,
            q,
        ) && grammar::tok_at(ts, q) is RBrace ==> (grammar::enum_def(ts, p) matches Ok((s, e))
            && s.name == name && s.variants == variants && e == q + 1),
        grammar::tok_at(ts, p) is RBrace ==> reads(grammar::variants_from(ts, p, acc), acc, p),
        grammar::tok_at(ts, p) == KTok::Ident(variant) && p + 1 <= ts.len() && !(grammar::tok_at(
            ts,
            p + 1,
        ) is LParen) ==> {
            let x = AVariantDef {
                name: variant,
                fields: Seq::empty(),
                span: grammar::span_at(ts, p).cover(grammar::prev_span(ts, p + 1)),
            };
            if grammar::tok_at(ts, p + 1) is Comma {
                grammar::variants_from(ts, p, acc) == grammar::variants_from(
                    ts,
                    p + 2,
                    acc.push(x),
                )
            } else {
                reads(grammar::variants_from(ts, p, acc), acc.push(x), p + 1)
            }
        },
        grammar::tok_at(ts, p) == KTok::Ident(variant) && grammar::tok_at(ts, p + 1) is LParen
            && reads(grammar::types_from(ts, p + 2, Seq::empty(), false), (tys, comma), r)
            && grammar::tok_at(ts, r) is RParen && p < r < ts.len() ==> {
            let x = AVariantDef {
                name: variant,
                fields: tys,
                span: grammar::span_at(ts, p).cover(grammar::prev_span(ts, r + 1)),
            };
            if grammar::tok_at(ts, r + 1) is Comma {
                grammar::variants_from(ts, p, acc) == grammar::variants_from(
                    ts,
                    r + 2,
                    acc.push(x),
                )
            } else {
                reads(grammar::variants_from(ts, p, acc), acc.push(x), r + 1)
            }
        },
{
    reveal(grammar::enum_def);
}

/// `mod m;` is a module whose items stand elsewhere, `mod m { .. }` one that has the items
/// between the braces.
pub proof fn law_modules_are_read(
    ts: Seq<KToken>,
    p: int,
    name: Text,
    items: Seq<AItem>,
    q: int,
)
    requires
        grammar::tok_at(ts, p) is Mod,
        grammar::tok_at(ts, p + 1) == KTok::Ident(name),
    ensures
        grammar::tok_at(ts, p + 2) is Semi ==> (grammar::mod_def(ts, p) matches Ok((d, e)) && d.name
            == name && d.items is None && e == p + 3),
        grammar::tok_at(ts, p + 2) is LBrace && reads(
            grammar::items_from(ts, p + 3, Seq::empty(), true),
            items,
            q,
        ) && grammar::tok_at(ts, q) is RBrace ==> (grammar::mod_def(ts, p) matches Ok((d, e))
            && d.name == name && d.items == Some(items) && e == q + 1),
{
}

/// The word that an item begins with says what it is; anything else is an error. Items are read
/// one behind the other up to the end.
pub proof fn law_items_are_read(
    ts: Seq<KToken>,
    p: int,
    acc: Seq<AItem>,
    x: AItem,
    q: int,
    inner: bool,
)
    ensures
        ({
            let r = grammar::item(ts, p);
            let t = grammar::tok_at(ts, p);
            &&& r is Ok && t is Fn ==> r->Ok_0.0 is Func
            &&& r is Ok && t is Struct ==> r->Ok_0.0 is Struct
            &&& r is Ok && t is Enum ==> r->Ok_0.0 is Enum
            &&& r is Ok && t is Const ==> r->Ok_0.0 is Const
            &&& r is Ok && t is Mod ==> r->Ok_0.0 is Mod
            &&& r is Ok && t is Use ==> r->Ok_0.0 is Use
            &&& r is Ok ==> t is Fn || t is Struct || t is Enum || t is Const || t is Mod || t is Use
        }),
        grammar::tok_at(ts, p) is Eof ==> reads(grammar::items_from(ts, p, acc, inner), acc, p),
        !(grammar::tok_at(ts, p) is Eof) && !(grammar::tok_at(ts, p) is RBrace) && spans(
            ts,
            grammar::item(ts, p),
            x,
            p,
            q,
        ) ==> grammar::items_from(ts, p, acc, inner) == grammar::items_from(
            ts,
            q,
            acc.push(x),
            inner,
        ),
{
}

/// `a::b::c` is the path of these names, in order.
pub proof fn law_paths_are_read(ts: Seq<KToken>, p: int, name: Text, acc: Seq<Text>)
    ensures
        grammar::tok_at(ts, p) is ColonColon && grammar::tok_at(ts, p + 1) == KTok::Ident(name)
            ==> grammar::path_from(ts, p, acc) == grammar::path_from(ts, p + 2, acc.push(name)),
        !(grammar::tok_at(ts, p) is ColonColon) ==> reads(grammar::path_from(ts, p, acc), acc, p),
        grammar::tok_at(ts, p) == KTok::Ident(name) ==> grammar::name_path(ts, p)
            == grammar::path_from(ts, p + 1, seq![name]),
{
}

} // verus!
