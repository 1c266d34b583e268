//! The widths of types: `bit<N>` has between 1 and 128 bits, and a machine integer
//! 8, 16, 32 or 64.

use crate::arith;
use crate::ast::ATypeExpr;
use crate::diagnostic::Diag;
use crate::grammar;
use crate::ir::{IntTy, TType};
use crate::lexer;
use crate::span::Span;
use crate::text::Text;
use crate::token::{KTok, KToken};
use crate::typing::{self, Defs};
use vstd::arithmetic::power2::*;
use vstd::prelude::*;

verus! {

/// Whether every width in a written type is one that the language has.
pub open spec fn written(t: ATypeExpr) -> bool
    decreases t, 0int,
{
    match t {
        ATypeExpr::Int { signed, width } => lexer::machine_width(width),
        ATypeExpr::Bit { width } => 1 <= width <= 128,
        ATypeExpr::Array { elem, len } => written(*elem),
        ATypeExpr::Tuple(ts) => all_written(ts, 0),
        _ => true,
    }
}

pub open spec fn all_written(ts: Seq<ATypeExpr>, i: int) -> bool
    decreases ts, ts.len() - i,
{
    if i < 0 || i >= ts.len() {
        true
    } else {
        written(ts[i]) && all_written(ts, i + 1)
    }
}

/// Whether every width in a type is one that the language has.
pub open spec fn proper(t: TType) -> bool
    decreases t, 0int,
{
    match t {
        TType::Int(it) => lexer::machine_width(it.width),
        TType::Bit(n) => 1 <= n <= 128,
        TType::Array(e, _) => proper(*e),
        TType::Tuple(ts) => all_proper(ts, 0),
        _ => true,
    }
}

pub open spec fn all_proper(ts: Seq<TType>, i: int) -> bool
    decreases ts, ts.len() - i,
{
    if i < 0 || i >= ts.len() {
        true
    } else {
        proper(ts[i]) && all_proper(ts, i + 1)
    }
}

proof fn lemma_all_written(ts: Seq<ATypeExpr>, i: int)
    requires
        0 <= i,
        forall|k: int| i <= k < ts.len() ==> written(#[trigger] ts[k]),
    ensures
        all_written(ts, i),
    decreases ts.len() - i,
{
    if i < ts.len() {
        lemma_all_written(ts, i + 1);
    }
}

proof fn lemma_all_proper(ts: Seq<TType>, i: int)
    requires
        0 <= i,
        forall|k: int| i <= k < ts.len() ==> proper(#[trigger] ts[k]),
    ensures
        all_proper(ts, i),
    decreases ts.len() - i,
{
    if i < ts.len() {
        lemma_all_proper(ts, i + 1);
    }
}

proof fn lemma_type(ts: Seq<KToken>, p: int)
    requires
        lexer::all_spelled(ts),
        grammar::type_expr(ts, p) is Ok,
    ensures
        written(grammar::type_expr(ts, p)->Ok_0.0),
    decreases ts.len() - p, 0int,
{
    match grammar::tok_at(ts, p) {
        KTok::LBracket => lemma_type(ts, p + 1),
        KTok::LParen => {
            if !(grammar::tok_at(ts, p + 1) is RParen) {
                lemma_types(ts, p + 1, Seq::empty(), false);
                let ((elems, _), _) = grammar::types_from(ts, p + 1, Seq::empty(), false)->Ok_0;
                lemma_all_written(elems, 0);
            }
        },
        _ => {},
    }
}

proof fn lemma_types(ts: Seq<KToken>, p: int, acc: Seq<ATypeExpr>, comma: bool)
    requires
        lexer::all_spelled(ts),
        forall|k: int| 0 <= k < acc.len() ==> written(#[trigger] acc[k]),
        grammar::types_from(ts, p, acc, comma) is Ok,
    ensures
        ({
            let elems = grammar::types_from(ts, p, acc, comma)->Ok_0.0.0;
            forall|k: int| 0 <= k < elems.len() ==> written(#[trigger] elems[k])
        }),
    decreases ts.len() - p, 1int,
{
    if !(grammar::tok_at(ts, p) is RParen) {
        lemma_type(ts, p);
        let (t, q) = grammar::type_expr(ts, p)->Ok_0;
        let next = acc.push(t);
        assert forall|k: int| 0 <= k < next.len() implies written(#[trigger] next[k]) by {
            if k < acc.len() {
                assert(next[k] == acc[k]);
            }
        }
        if grammar::tok_at(ts, q) is Comma {
            lemma_types(ts, q + 1, next, true);
        }
    }
}

/// Every type that is written in a source text has proper widths.
pub proof fn law_written_types_have_proper_widths(src: Text, ts: Seq<KToken>, p: int)
    requires
        lexer::tokens_of_text(src) == Ok::<Seq<KToken>, Diag>(ts),
    ensures
        grammar::type_expr(ts, p) matches Ok((t, _)) ==> written(t),
{
    lexer::law_tokens_are_spelled(src);
    if grammar::type_expr(ts, p) is Ok {
        lemma_type(ts, p);
    }
}

proof fn lemma_resolve(d: Defs, m: Text, t: ATypeExpr, span: Span)
    requires
        written(t),
        typing::resolve(d, m, t, span) is Ok,
    ensures
        proper(typing::resolve(d, m, t, span)->Ok_0),
    decreases t, 0int,
{
    match t {
        ATypeExpr::Array { elem, len } => lemma_resolve(d, m, *elem, span),
        ATypeExpr::Tuple(ts) => {
            lemma_resolve_all(d, m, ts, span, 0, Seq::empty());
            let es = typing::resolve_all(d, m, ts, span, 0, Seq::empty())->Ok_0;
            lemma_all_proper(es, 0);
        },
        _ => {},
    }
}

proof fn lemma_resolve_all(
    d: Defs,
    m: Text,
    ts: Seq<ATypeExpr>,
    span: Span,
    i: int,
    acc: Seq<TType>,
)
    requires
        0 <= i,
        all_written(ts, i),
        forall|k: int| 0 <= k < acc.len() ==> proper(#[trigger] acc[k]),
        typing::resolve_all(d, m, ts, span, i, acc) is Ok,
    ensures
        ({
            let es = typing::resolve_all(d, m, ts, span, i, acc)->Ok_0;
            forall|k: int| 0 <= k < es.len() ==> proper(#[trigger] es[k])
        }),
    decreases ts, ts.len() - i,
{
    if i < ts.len() {
        lemma_resolve(d, m, ts[i], span);
        let t = typing::resolve(d, m, ts[i], span)->Ok_0;
        let next = acc.push(t);
        assert forall|k: int| 0 <= k < next.len() implies proper(#[trigger] next[k]) by {
            if k < acc.len() {
                assert(next[k] == acc[k]);
            }
        }
        lemma_resolve_all(d, m, ts, span, i + 1, next);
    }
}

/// A type with proper widths stands for one with proper widths.
pub proof fn law_resolved_types_have_proper_widths(d: Defs, m: Text, t: ATypeExpr, span: Span)
    requires
        written(t),
    ensures
        typing::resolve(d, m, t, span) matches Ok(r) ==> proper(r),
{
    if typing::resolve(d, m, t, span) is Ok {
        lemma_resolve(d, m, t, span);
    }
}

/// The range of an integer type of `w` bits is from `-2^(w-1)` to `2^(w-1) - 1` if it is
/// signed, and from 0 to `2^w - 1` if not.
pub proof fn law_ranges_of_machine_integers(v: int, it: IntTy)
    requires
        lexer::machine_width(it.width),
    ensures
        it.signed ==> (arith::in_range(v, it) <==> -pow2((it.width - 1) as nat) <= v < pow2(
            (it.width - 1) as nat,
        )),
        !it.signed ==> (arith::in_range(v, it) <==> 0 <= v < pow2(it.width as nat)),
{
}

} // verus!
