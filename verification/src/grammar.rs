//! The grammar: which syntax tree a sequence of tokens stands for.
//!
//! Each function reads a construct at a position and gives it with the position
//! behind it, or the diagnostic for the first token that does not fit.
//! Expressions follow operator precedence: an operator is taken while it binds at
//! least as tightly as its context asks for.

use crate::ast::{ABlock, AConstDef, AElseBranch, AEnumDef, AExpr, AFieldDef, AFunc, AItem, AMatchArm, AModDef, AParam, APattern, AProgram, AStmt, AStructDef, ATypeExpr, AUseDecl, AVariantDef, BinOp, UnOp};
use crate::diagnostic::{Diag, Stage};
use crate::span::Span;
use crate::text::{self, Text};
use crate::token::{KTok, KToken};
use vstd::prelude::*;

verus! {

/// What is read, with the position behind it.
pub type Parsed<A> = Result<(A, int), Diag>;

/// The result of `char::is_uppercase`.
pub uninterp spec fn char_uppercase(c: char) -> bool;

/// `char::is_uppercase`: whether the character has Unicode's Uppercase property.
/// Its result is a function of the character alone; among the ASCII characters
/// those with the property are the letters `A` to `Z`.
#[verifier::external_body]
pub(crate) fn is_uppercase(c: char) -> (r: bool)
    ensures
        r == char_uppercase(c),
        (c as u32) < 0x80 ==> r == ('A' <= c && c <= 'Z'),
{
    c.is_uppercase()
}

/// Whether the character is an upper-case letter: `A` to `Z` among the ASCII
/// characters, those with Unicode's Uppercase property among the others.
pub open spec fn upper_case(c: char) -> bool {
    if (c as u32) < 0x80 {
        'A' <= c && c <= 'Z'
    } else {
        char_uppercase(c)
    }
}

// ---- tokens -------------------------------------------------------------

/// The token at `p`.
pub open spec fn tok_at(ts: Seq<KToken>, p: int) -> KTok {
    if 0 <= p < ts.len() {
        ts[p].tok
    } else {
        KTok::Eof
    }
}

pub open spec fn span_at(ts: Seq<KToken>, p: int) -> Span {
    if 0 <= p < ts.len() {
        ts[p].span
    } else {
        Span::nowhere()
    }
}

/// The span of the token before `p`.
pub open spec fn prev_span(ts: Seq<KToken>, p: int) -> Span {
    span_at(
        ts,
        if p > 0 {
            p - 1
        } else {
            0
        },
    )
}

/// A parse error at the token at `p`.
pub open spec fn fail<A>(ts: Seq<KToken>, p: int, message: Text) -> Result<A, Diag> {
    Err(Diag { stage: Stage::Parse, message, span: span_at(ts, p) })
}

/// The position behind the token `t`, which must stand at `p`.
pub open spec fn expect(ts: Seq<KToken>, p: int, t: KTok, what: Text) -> Result<int, Diag> {
    if tok_at(ts, p) == t {
        Ok(p + 1)
    } else {
        fail(ts, p, "expected "@ + what + ", found "@ + tok_at(ts, p).described())
    }
}

/// `r`, which must end behind `p`.
pub open spec fn forward<A>(ts: Seq<KToken>, r: Parsed<A>, p: int) -> Parsed<A> {
    match r {
        Ok((a, q)) => if p < q <= ts.len() {
            Ok((a, q))
        } else {
            fail(ts, p, "no progress"@)
        },
        Err(d) => Err(d),
    }
}

pub open spec fn ident(ts: Seq<KToken>, p: int) -> Parsed<Text> {
    match tok_at(ts, p) {
        KTok::Ident(name) => Ok((name, p + 1)),
        t => fail(ts, p, "expected identifier, found "@ + t.described()),
    }
}

pub open spec fn int_literal(ts: Seq<KToken>, p: int, what: Text) -> Parsed<i128> {
    match tok_at(ts, p) {
        KTok::Int(v) => Ok((v, p + 1)),
        t => fail(
            ts,
            p,
            "expected "@ + what + " (integer literal), found "@ + t.described(),
        ),
    }
}

/// The segments `acc` of a path and those that follow at `p`.
pub open spec fn path_from(ts: Seq<KToken>, p: int, acc: Seq<Text>) -> Parsed<Seq<Text>>
    decreases ts.len() - p,
{
    if tok_at(ts, p) is ColonColon {
        match ident(ts, p + 1) {
            Err(d) => Err(d),
            Ok((seg, q)) => path_from(ts, q, acc.push(seg)),
        }
    } else {
        Ok((acc, p))
    }
}

/// A `::`-separated path.
pub open spec fn name_path(ts: Seq<KToken>, p: int) -> Parsed<Seq<Text>> {
    match ident(ts, p) {
        Err(d) => Err(d),
        Ok((first, q)) => path_from(ts, q, seq![first]),
    }
}

// ---- types --------------------------------------------------------------

/// The comma-separated types that follow at `p` up to `)`, behind `acc`, and
/// whether the last of them has a comma behind it.
pub open spec fn types_from(
    ts: Seq<KToken>,
    p: int,
    acc: Seq<ATypeExpr>,
    comma: bool,
) -> Parsed<(Seq<ATypeExpr>, bool)>
    decreases ts.len() - p, 1int,
{
    if tok_at(ts, p) is RParen {
        Ok(((acc, comma), p))
    } else {
        match forward(ts, type_expr(ts, p), p) {
            Err(d) => Err(d),
            Ok((t, q)) => if tok_at(ts, q) is Comma {
                types_from(ts, q + 1, acc.push(t), true)
            } else {
                Ok(((acc.push(t), false), q))
            },
        }
    }
}

/// A type.
pub open spec fn type_expr(ts: Seq<KToken>, p: int) -> Parsed<ATypeExpr>
    decreases ts.len() - p, 0int,
{
    match tok_at(ts, p) {
        KTok::Bool => Ok((ATypeExpr::Bool, p + 1)),
        KTok::IntTy(signed, width) => Ok((ATypeExpr::Int { signed, width }, p + 1)),
        KTok::Bit => match expect(ts, p + 1, KTok::Lt, "`<`"@) {
            Err(d) => Err(d),
            Ok(q) => match int_literal(ts, q, "bit width"@) {
                Err(d) => Err(d),
                Ok((width, r)) => match expect(ts, r, KTok::Gt, "`>`"@) {
                    Err(d) => Err(d),
                    Ok(s) => if width <= 0 || width > 128 {
                        Err(
                            Diag {
                                stage: Stage::Parse,
                                message: "bit<N> width must be in 1..=128"@,
                                span: span_at(ts, p).cover(prev_span(ts, s)),
                            },
                        )
                    } else {
                        Ok((ATypeExpr::Bit { width: width as u32 }, s))
                    },
                },
            },
        },
        KTok::LBracket => match forward(ts, type_expr(ts, p + 1), p + 1) {
            Err(d) => Err(d),
            Ok((elem, q)) => match expect(ts, q, KTok::Semi, "`;`"@) {
                Err(d) => Err(d),
                Ok(r) => match int_literal(ts, r, "array length"@) {
                    Err(d) => Err(d),
                    Ok((len, s)) => match expect(ts, s, KTok::RBracket, "`]`"@) {
                        Err(d) => Err(d),
                        Ok(e) => if len < 0 {
                            Err(
                                Diag {
                                    stage: Stage::Parse,
                                    message: "array length must be non-negative"@,
                                    span: span_at(ts, p).cover(prev_span(ts, e)),
                                },
                            )
                        } else {
                            Ok((ATypeExpr::Array { elem: Box::new(elem), len: len as u64 }, e))
                        },
                    },
                },
            },
        },
        KTok::LParen => if tok_at(ts, p + 1) is RParen {
            Ok((ATypeExpr::Unit, p + 2))
        } else {
            match types_from(ts, p + 1, Seq::empty(), false) {
                Err(d) => Err(d),
                Ok(((elems, comma), q)) => match expect(ts, q, KTok::RParen, "`)` in type"@) {
                    Err(d) => Err(d),
                    Ok(r) => if elems.len() == 1 && !comma {
                        Ok((elems[0], r))
                    } else {
                        Ok((ATypeExpr::Tuple(elems), r))
                    },
                },
            }
        },
        KTok::Ident(_) => match name_path(ts, p) {
            Err(d) => Err(d),
            Ok((segs, q)) => Ok((ATypeExpr::Named(segs), q)),
        },
        t => fail(ts, p, "expected a type, found "@ + t.described()),
    }
}

// ---- patterns -----------------------------------------------------------

/// Whether the last segment of a path looks like a type or variant: it starts
/// with an uppercase letter.
pub open spec fn last_upper(segs: Seq<Text>) -> bool {
    segs.len() > 0 && segs.last().len() > 0 && upper_case(segs.last()[0])
}

pub open spec fn negated(v: i128) -> i128 {
    if v == i128::MIN {
        v
    } else {
        (-v) as i128
    }
}

/// An integer literal with an optional sign.
pub open spec fn signed_literal(ts: Seq<KToken>, p: int) -> Parsed<i128> {
    if tok_at(ts, p) is Minus {
        match int_literal(ts, p + 1, "integer pattern"@) {
            Err(d) => Err(d),
            Ok((v, q)) => Ok((negated(v), q)),
        }
    } else {
        int_literal(ts, p, "integer pattern"@)
    }
}

/// The comma-separated patterns that follow at `p` up to `)`, behind `acc`, and
/// whether the last of them has a comma behind it.
pub open spec fn patterns_from(
    ts: Seq<KToken>,
    p: int,
    acc: Seq<APattern>,
    comma: bool,
) -> Parsed<(Seq<APattern>, bool)>
    decreases ts.len() - p, 2int,
{
    if tok_at(ts, p) is RParen {
        Ok(((acc, comma), p))
    } else {
        match forward(ts, pattern(ts, p), p) {
            Err(d) => Err(d),
            Ok((x, q)) => if tok_at(ts, q) is Comma {
                patterns_from(ts, q + 1, acc.push(x), true)
            } else {
                Ok(((acc.push(x), false), q))
            },
        }
    }
}

/// The alternatives `acc` of an or-pattern and those that follow at `p`.
pub open spec fn alts_from(ts: Seq<KToken>, p: int, acc: Seq<APattern>) -> Parsed<Seq<APattern>>
    decreases ts.len() - p, 2int,
{
    if tok_at(ts, p) is Pipe {
        match forward(ts, pattern_primary(ts, p + 1), p + 1) {
            Err(d) => Err(d),
            Ok((x, q)) => alts_from(ts, q, acc.push(x)),
        }
    } else {
        Ok((acc, p))
    }
}

/// A pattern, with its alternatives `p | q | ...`.
pub open spec fn pattern(ts: Seq<KToken>, p: int) -> Parsed<APattern>
    decreases ts.len() - p, 1int,
{
    match forward(ts, pattern_primary(ts, p), p) {
        Err(d) => Err(d),
        Ok((first, q)) => if tok_at(ts, q) is Pipe {
            match alts_from(ts, q, seq![first]) {
                Err(d) => Err(d),
                Ok((alts, r)) => Ok(
                    (APattern::Or { alts, span: span_at(ts, p).cover(prev_span(ts, r)) }, r),
                ),
            }
        } else {
            Ok((first, q))
        },
    }
}

/// A pattern without alternatives at its top.
pub open spec fn pattern_primary(ts: Seq<KToken>, p: int) -> Parsed<APattern>
    decreases ts.len() - p, 0int,
{
    let span = span_at(ts, p);
    match tok_at(ts, p) {
        KTok::Ident(name) => if name == "_"@ {
            Ok((APattern::Wildcard { span }, p + 1))
        } else {
            match forward(ts, name_path(ts, p), p) {
                Err(d) => Err(d),
                Ok((segs, q)) => if tok_at(ts, q) is LParen {
                    match patterns_from(ts, q + 1, Seq::empty(), false) {
                        Err(d) => Err(d),
                        Ok(((subpatterns, _), r)) => match expect(ts, r, KTok::RParen, "`)`"@) {
                            Err(d) => Err(d),
                            Ok(e) => Ok(
                                (
                                    APattern::Variant {
                                        path: segs,
                                        subpatterns,
                                        span: span.cover(prev_span(ts, e)),
                                    },
                                    e,
                                ),
                            ),
                        },
                    }
                } else if segs.len() > 1 || last_upper(segs) {
                    Ok(
                        (
                            APattern::Variant {
                                path: segs,
                                subpatterns: Seq::empty(),
                                span: span.cover(prev_span(ts, q)),
                            },
                            q,
                        ),
                    )
                } else {
                    Ok((APattern::Binding { name: segs[0], span }, q))
                },
            }
        },
        KTok::True => Ok((APattern::Bool { value: true, span }, p + 1)),
        KTok::False => Ok((APattern::Bool { value: false, span }, p + 1)),
        KTok::LParen => match patterns_from(ts, p + 1, Seq::empty(), false) {
            Err(d) => Err(d),
            Ok(((elems, comma), q)) => match expect(ts, q, KTok::RParen, "`)`"@) {
                Err(d) => Err(d),
                Ok(r) => if elems.len() == 1 && !comma {
                    Ok((elems[0], r))
                } else {
                    Ok((APattern::Tuple { elems, span: span.cover(prev_span(ts, r)) }, r))
                },
            },
        },
        t => if t is Minus || t is Int {
            match signed_literal(ts, p) {
                Err(d) => Err(d),
                Ok((lo, q)) => if tok_at(ts, q) is DotDot || tok_at(ts, q) is DotDotEq {
                    match signed_literal(ts, q + 1) {
                        Err(d) => Err(d),
                        Ok((hi, r)) => Ok(
                            (
                                APattern::Range {
                                    lo,
                                    hi,
                                    inclusive: tok_at(ts, q) is DotDotEq,
                                    span: span.cover(prev_span(ts, r)),
                                },
                                r,
                            ),
                        ),
                    }
                } else {
                    Ok((APattern::Int { value: lo, span: span.cover(prev_span(ts, q)) }, q))
                },
            }
        } else {
            fail(ts, p, "expected a pattern, found "@ + t.described())
        },
    }
}

// ---- operators ----------------------------------------------------------

/// The infix operator that a token is.
pub open spec fn infix_op(t: KTok) -> Option<BinOp> {
    match t {
        KTok::Plus => Some(BinOp::Add),
        KTok::Minus => Some(BinOp::Sub),
        KTok::Star => Some(BinOp::Mul),
        KTok::Slash => Some(BinOp::Div),
        KTok::Percent => Some(BinOp::Rem),
        KTok::AndAnd => Some(BinOp::And),
        KTok::OrOr => Some(BinOp::Or),
        KTok::Amp => Some(BinOp::BitAnd),
        KTok::Pipe => Some(BinOp::BitOr),
        KTok::Caret => Some(BinOp::BitXor),
        KTok::Shl => Some(BinOp::Shl),
        KTok::Shr => Some(BinOp::Shr),
        KTok::EqEq => Some(BinOp::Eq),
        KTok::Ne => Some(BinOp::Ne),
        KTok::Lt => Some(BinOp::Lt),
        KTok::Le => Some(BinOp::Le),
        KTok::Gt => Some(BinOp::Gt),
        KTok::Ge => Some(BinOp::Ge),
        _ => None,
    }
}

/// How tightly an infix operator binds. To its right it binds one tighter, so
/// that operators of one level group to the left.
pub open spec fn binding(op: BinOp) -> int {
    match op {
        BinOp::Or => 1,
        BinOp::And => 3,
        BinOp::Eq => 5,
        BinOp::Ne => 5,
        BinOp::Lt => 5,
        BinOp::Le => 5,
        BinOp::Gt => 5,
        BinOp::Ge => 5,
        BinOp::BitOr => 7,
        BinOp::BitXor => 9,
        BinOp::BitAnd => 11,
        BinOp::Shl => 13,
        BinOp::Shr => 13,
        BinOp::Add => 15,
        BinOp::Sub => 15,
        BinOp::Mul => 17,
        BinOp::Div => 17,
        BinOp::Rem => 17,
    }
}

// ---- expressions --------------------------------------------------------

/// An expression.
pub open spec fn expr(ts: Seq<KToken>, p: int) -> Parsed<AExpr>
    decreases ts.len() - p, 5int,
{
    expr_bp(ts, p, 0, true)
}

/// An expression of operators that bind at least as tightly as `min`. Where
/// `allow` is false no struct literal stands at its end, so that a following `{`
/// starts a body.
pub open spec fn expr_bp(ts: Seq<KToken>, p: int, min: int, allow: bool) -> Parsed<AExpr>
    decreases ts.len() - p, 4int,
{
    match forward(ts, prefix(ts, p, allow), p) {
        Err(d) => Err(d),
        Ok((lhs, q)) => infix_from(ts, q, lhs, min, allow),
    }
}

/// The left operand `lhs` and the operators that follow at `p`.
pub open spec fn infix_from(ts: Seq<KToken>, p: int, lhs: AExpr, min: int, allow: bool) -> Parsed<
    AExpr,
>
    decreases ts.len() - p, 6int,
{
    match infix_op(tok_at(ts, p)) {
        None => Ok((lhs, p)),
        Some(op) => if binding(op) < min {
            Ok((lhs, p))
        } else {
            match forward(ts, expr_bp(ts, p + 1, binding(op) + 1, allow), p + 1) {
                Err(d) => Err(d),
                Ok((rhs, q)) => infix_from(
                    ts,
                    q,
                    AExpr::Binary {
                        op,
                        lhs: Box::new(lhs),
                        rhs: Box::new(rhs),
                        span: lhs.span().cover(rhs.span()),
                    },
                    min,
                    allow,
                ),
            }
        },
    }
}

pub open spec fn negation(start: Span, op: UnOp, e: AExpr) -> AExpr {
    AExpr::Unary { op, expr: Box::new(e), span: start.cover(e.span()) }
}

/// An operand with its prefix operators.
pub open spec fn prefix(ts: Seq<KToken>, p: int, allow: bool) -> Parsed<AExpr>
    decreases ts.len() - p, 3int,
{
    match tok_at(ts, p) {
        KTok::Minus => match prefix(ts, p + 1, allow) {
            Err(d) => Err(d),
            Ok((e, q)) => Ok((negation(span_at(ts, p), UnOp::Neg, e), q)),
        },
        KTok::Bang => match prefix(ts, p + 1, allow) {
            Err(d) => Err(d),
            Ok((e, q)) => Ok((negation(span_at(ts, p), UnOp::Not, e), q)),
        },
        _ => postfix(ts, p, allow),
    }
}

/// An operand with its calls, field accesses and indexings.
pub open spec fn postfix(ts: Seq<KToken>, p: int, allow: bool) -> Parsed<AExpr>
    decreases ts.len() - p, 2int,
{
    match forward(ts, atom(ts, p, allow), p) {
        Err(d) => Err(d),
        Ok((e, q)) => postfix_from(ts, q, e),
    }
}

/// The operand `e` and the calls, field accesses and indexings at `p`.
pub open spec fn postfix_from(ts: Seq<KToken>, p: int, e: AExpr) -> Parsed<AExpr>
    decreases ts.len() - p, 6int,
{
    match tok_at(ts, p) {
        KTok::LParen => match forward(ts, exprs_from(ts, p + 1, KTok::RParen, Seq::empty()), p) {
            Err(d) => Err(d),
            Ok((args, q)) => match expect(ts, q, KTok::RParen, "`)`"@) {
                Err(d) => Err(d),
                Ok(r) => postfix_from(
                    ts,
                    r,
                    AExpr::Call {
                        callee: Box::new(e),
                        args,
                        span: e.span().cover(prev_span(ts, r)),
                    },
                ),
            },
        },
        KTok::Dot => match tok_at(ts, p + 1) {
            KTok::Int(idx) => postfix_from(
                ts,
                p + 2,
                AExpr::TupleField {
                    base: Box::new(e),
                    index: idx as u64,
                    span: e.span().cover(prev_span(ts, p + 2)),
                },
            ),
            _ => match ident(ts, p + 1) {
                Err(d) => Err(d),
                Ok((field, q)) => postfix_from(
                    ts,
                    q,
                    AExpr::Field {
                        base: Box::new(e),
                        field,
                        span: e.span().cover(prev_span(ts, q)),
                    },
                ),
            },
        },
        KTok::LBracket => match forward(ts, expr(ts, p + 1), p + 1) {
            Err(d) => Err(d),
            Ok((index, q)) => match expect(ts, q, KTok::RBracket, "`]`"@) {
                Err(d) => Err(d),
                Ok(r) => postfix_from(
                    ts,
                    r,
                    AExpr::Index {
                        base: Box::new(e),
                        index: Box::new(index),
                        span: e.span().cover(prev_span(ts, r)),
                    },
                ),
            },
        },
        _ => Ok((e, p)),
    }
}

/// The comma-separated expressions that follow at `p` up to `close`, behind `acc`.
pub open spec fn exprs_from(ts: Seq<KToken>, p: int, close: KTok, acc: Seq<AExpr>) -> Parsed<
    Seq<AExpr>,
>
    decreases ts.len() - p, 6int,
{
    if tok_at(ts, p) == close {
        Ok((acc, p))
    } else {
        match forward(ts, expr(ts, p), p) {
            Err(d) => Err(d),
            Ok((e, q)) => if tok_at(ts, q) is Comma {
                exprs_from(ts, q + 1, close, acc.push(e))
            } else {
                Ok((acc.push(e), q))
            },
        }
    }
}

/// The elements `acc` of a tuple and those that follow at `p`, each behind a
/// comma.
pub open spec fn tuple_from(ts: Seq<KToken>, p: int, acc: Seq<AExpr>) -> Parsed<Seq<AExpr>>
    decreases ts.len() - p, 6int,
{
    if !(tok_at(ts, p) is Comma) {
        Ok((acc, p))
    } else if tok_at(ts, p + 1) is RParen {
        Ok((acc, p + 1))
    } else {
        match forward(ts, expr(ts, p + 1), p + 1) {
            Err(d) => Err(d),
            Ok((e, q)) => tuple_from(ts, q, acc.push(e)),
        }
    }
}

/// The field initialisers that follow at `p` up to `}`, behind `acc`.
pub open spec fn inits_from(ts: Seq<KToken>, p: int, acc: Seq<(Text, AExpr)>) -> Parsed<
    Seq<(Text, AExpr)>,
>
    decreases ts.len() - p, 6int,
{
    if tok_at(ts, p) is RBrace {
        Ok((acc, p))
    } else {
        match ident(ts, p) {
            Err(d) => Err(d),
            Ok((name, q)) => match expect(ts, q, KTok::Colon, "`:` in struct field"@) {
                Err(d) => Err(d),
                Ok(r) => match forward(ts, expr(ts, r), r) {
                    Err(d) => Err(d),
                    Ok((e, s)) => if tok_at(ts, s) is Comma {
                        inits_from(ts, s + 1, acc.push((name, e)))
                    } else {
                        Ok((acc.push((name, e)), s))
                    },
                },
            },
        }
    }
}

/// The fields of a struct literal whose name was read before `p`.
pub open spec fn struct_lit(ts: Seq<KToken>, p: int, path: Seq<Text>, start: Span) -> Parsed<AExpr>
    decreases ts.len() - p, 0int,
{
    match expect(ts, p, KTok::LBrace, "`{`"@) {
        Err(d) => Err(d),
        Ok(q) => match inits_from(ts, q, Seq::empty()) {
            Err(d) => Err(d),
            Ok((fields, r)) => match expect(ts, r, KTok::RBrace, "`}`"@) {
                Err(d) => Err(d),
                Ok(s) => Ok(
                    (
                        AExpr::StructLit { path, fields, span: start.cover(prev_span(ts, s)) },
                        s,
                    ),
                ),
            },
        },
    }
}

/// A literal, name, parenthesised expression, tuple, array, struct literal, `if`,
/// `match` or block.
pub open spec fn atom(ts: Seq<KToken>, p: int, allow: bool) -> Parsed<AExpr>
    decreases ts.len() - p, 1int,
{
    let span = span_at(ts, p);
    match tok_at(ts, p) {
        KTok::Int(value) => Ok((AExpr::Int { value, span }, p + 1)),
        KTok::True => Ok((AExpr::Bool { value: true, span }, p + 1)),
        KTok::False => Ok((AExpr::Bool { value: false, span }, p + 1)),
        KTok::Ident(_) => match forward(ts, name_path(ts, p), p) {
            Err(d) => Err(d),
            Ok((segs, q)) => {
                let whole = span.cover(prev_span(ts, q));
                if allow && tok_at(ts, q) is LBrace && last_upper(segs) {
                    struct_lit(ts, q, segs, whole)
                } else if segs.len() == 1 {
                    Ok((AExpr::Ident { name: segs[0], span: whole }, q))
                } else {
                    Ok((AExpr::Path { segments: segs, span: whole }, q))
                }
            },
        },
        KTok::LParen => if tok_at(ts, p + 1) is RParen {
            Ok(
                (
                    AExpr::Block(
                        ABlock {
                            stmts: Seq::empty(),
                            tail: None,
                            span: span.cover(prev_span(ts, p + 2)),
                        },
                    ),
                    p + 2,
                ),
            )
        } else {
            match forward(ts, expr(ts, p + 1), p + 1) {
                Err(d) => Err(d),
                Ok((first, q)) => if tok_at(ts, q) is Comma {
                    match tuple_from(ts, q, seq![first]) {
                        Err(d) => Err(d),
                        Ok((elems, r)) => match expect(ts, r, KTok::RParen, "`)`"@) {
                            Err(d) => Err(d),
                            Ok(s) => Ok(
                                (AExpr::Tuple { elems, span: span.cover(prev_span(ts, s)) }, s),
                            ),
                        },
                    }
                } else {
                    match expect(ts, q, KTok::RParen, "`)`"@) {
                        Err(d) => Err(d),
                        Ok(r) => Ok((first, r)),
                    }
                },
            }
        },
        KTok::LBracket => match exprs_from(ts, p + 1, KTok::RBracket, Seq::empty()) {
            Err(d) => Err(d),
            Ok((elems, q)) => match expect(ts, q, KTok::RBracket, "`]`"@) {
                Err(d) => Err(d),
                Ok(r) => Ok((AExpr::Array { elems, span: span.cover(prev_span(ts, r)) }, r)),
            },
        },
        KTok::If => if_expr(ts, p),
        KTok::Match => match_expr(ts, p),
        KTok::LBrace => match block(ts, p) {
            Err(d) => Err(d),
            Ok((b, q)) => Ok((AExpr::Block(b), q)),
        },
        t => fail(ts, p, "expected an expression, found "@ + t.described()),
    }
}

/// The optional `else` at `p`.
pub open spec fn else_part(ts: Seq<KToken>, p: int) -> Parsed<Option<Box<AElseBranch>>>
    decreases ts.len() - p, 0int,
{
    if !(tok_at(ts, p) is Else) {
        Ok((None, p))
    } else if tok_at(ts, p + 1) is If {
        match if_expr(ts, p + 1) {
            Err(d) => Err(d),
            Ok((e, q)) => Ok((Some(Box::new(AElseBranch::If(e))), q)),
        }
    } else {
        match block(ts, p + 1) {
            Err(d) => Err(d),
            Ok((b, q)) => Ok((Some(Box::new(AElseBranch::Block(b))), q)),
        }
    }
}

pub open spec fn if_expr(ts: Seq<KToken>, p: int) -> Parsed<AExpr>
    decreases ts.len() - p, 0int,
{
    match expect(ts, p, KTok::If, "`if`"@) {
        Err(d) => Err(d),
        Ok(p1) => match forward(ts, expr_bp(ts, p1, 0, false), p1) {
            Err(d) => Err(d),
            Ok((cond, q)) => match forward(ts, block(ts, q), q) {
                Err(d) => Err(d),
                Ok((then_branch, r)) => match else_part(ts, r) {
                    Err(d) => Err(d),
                    Ok((else_branch, s)) => Ok(
                        (
                            AExpr::If {
                                cond: Box::new(cond),
                                then_branch,
                                else_branch,
                                span: span_at(ts, p).cover(prev_span(ts, s)),
                            },
                            s,
                        ),
                    ),
                },
            },
        },
    }
}

/// The optional guard `if cond` at `p`.
pub open spec fn guard(ts: Seq<KToken>, p: int) -> Parsed<Option<AExpr>>
    decreases ts.len() - p, 0int,
{
    if tok_at(ts, p) is If {
        match forward(ts, expr_bp(ts, p + 1, 0, false), p + 1) {
            Err(d) => Err(d),
            Ok((g, q)) => Ok((Some(g), q)),
        }
    } else {
        Ok((None, p))
    }
}

/// The arms that follow at `p` up to `}`, behind `acc`.
pub open spec fn arms_from(ts: Seq<KToken>, p: int, acc: Seq<AMatchArm>) -> Parsed<Seq<AMatchArm>>
    decreases ts.len() - p, 6int,
{
    if tok_at(ts, p) is RBrace {
        Ok((acc, p))
    } else {
        match forward(ts, pattern(ts, p), p) {
            Err(d) => Err(d),
            Ok((pat, q)) => match forward(ts, guard(ts, q), q - 1) {
                Err(d) => Err(d),
                Ok((g, r)) => match expect(ts, r, KTok::FatArrow, "`=>` in match arm"@) {
                    Err(d) => Err(d),
                    Ok(s) => match forward(ts, expr(ts, s), s) {
                        Err(d) => Err(d),
                        Ok((body, e)) => {
                            let arm = AMatchArm {
                                pattern: pat,
                                guard: g,
                                body,
                                span: span_at(ts, p).cover(prev_span(ts, e)),
                            };
                            if tok_at(ts, e) is Comma {
                                arms_from(ts, e + 1, acc.push(arm))
                            } else {
                                Ok((acc.push(arm), e))
                            }
                        },
                    },
                },
            },
        }
    }
}

pub open spec fn match_expr(ts: Seq<KToken>, p: int) -> Parsed<AExpr>
    decreases ts.len() - p, 0int,
{
    match expect(ts, p, KTok::Match, "`match`"@) {
        Err(d) => Err(d),
        Ok(p1) => match forward(ts, expr_bp(ts, p1, 0, false), p1) {
            Err(d) => Err(d),
            Ok((scrutinee, q)) => match expect(ts, q, KTok::LBrace, "`{`"@) {
                Err(d) => Err(d),
                Ok(r) => match arms_from(ts, r, Seq::empty()) {
                    Err(d) => Err(d),
                    Ok((arms, s)) => match expect(ts, s, KTok::RBrace, "`}`"@) {
                        Err(d) => Err(d),
                        Ok(e) => Ok(
                            (
                                AExpr::Match {
                                    scrutinee: Box::new(scrutinee),
                                    arms,
                                    span: span_at(ts, p).cover(prev_span(ts, e)),
                                },
                                e,
                            ),
                        ),
                    },
                },
            },
        },
    }
}

// ---- statements ---------------------------------------------------------

/// Whether an expression may stand as a statement without `;`.
pub open spec fn block_like(e: AExpr) -> bool {
    e is If || e is Match || e is Block
}

/// The comma-separated names that follow at `p` up to `)`, behind `acc`.
pub open spec fn names_from(ts: Seq<KToken>, p: int, acc: Seq<Text>) -> Parsed<Seq<Text>>
    decreases ts.len() - p,
{
    if tok_at(ts, p) is RParen {
        Ok((acc, p))
    } else {
        match ident(ts, p) {
            Err(d) => Err(d),
            Ok((n, q)) => if tok_at(ts, q) is Comma {
                names_from(ts, q + 1, acc.push(n))
            } else {
                Ok((acc.push(n), q))
            },
        }
    }
}

/// The hidden variable that a destructuring `let` stores its value in.
pub open spec fn hidden_name(span: Span) -> Text {
    "__let"@ + text::dec(span.start as nat)
}

/// The statement that binds the `i`-th name of a destructuring `let`.
pub open spec fn part_binding(names: Seq<Text>, i: int, mutable: bool, span: Span) -> AStmt {
    AStmt::Let {
        name: names[i],
        mutable,
        ty: None,
        init: AExpr::TupleField {
            base: Box::new(AExpr::Ident { name: hidden_name(span), span }),
            index: i as u64,
            span,
        },
        span,
    }
}

/// The statements that `let (a, b, ...) = init;` stands for.
pub open spec fn destructured(
    names: Seq<Text>,
    mutable: bool,
    init: AExpr,
    span: Span,
) -> Seq<AStmt> {
    seq![AStmt::Let { name: hidden_name(span), mutable: false, ty: None, init, span }] + Seq::new(
        names.len(),
        |i: int| part_binding(names, i, mutable, span),
    )
}

/// The optional type annotation `: T` at `p`.
pub open spec fn annotation(ts: Seq<KToken>, p: int) -> Parsed<Option<ATypeExpr>> {
    if tok_at(ts, p) is Colon {
        match type_expr(ts, p + 1) {
            Err(d) => Err(d),
            Ok((t, q)) => Ok((Some(t), q)),
        }
    } else {
        Ok((None, p))
    }
}

/// `= init;` at `p`.
pub open spec fn initialiser(ts: Seq<KToken>, p: int) -> Parsed<AExpr>
    decreases ts.len() - p, 6int,
{
    match expect(ts, p, KTok::Eq, "`=` in let binding"@) {
        Err(d) => Err(d),
        Ok(q) => match expr(ts, q) {
            Err(d) => Err(d),
            Ok((init, r)) => match expect(ts, r, KTok::Semi, "`;` after let binding"@) {
                Err(d) => Err(d),
                Ok(s) => Ok((init, s)),
            },
        },
    }
}

/// A `let` statement. One that destructures a tuple stands for a binding of the
/// whole value and one of each element.
pub open spec fn let_stmt(ts: Seq<KToken>, p: int) -> Parsed<Seq<AStmt>>
    decreases ts.len() - p, 0int,
{
    match expect(ts, p, KTok::Let, "`let`"@) {
        Err(d) => Err(d),
        Ok(p1) => {
            let mutable = tok_at(ts, p1) is Mut;
            let p2 = if mutable {
                p1 + 1
            } else {
                p1
            };
            if tok_at(ts, p2) is LParen {
                match forward(ts, names_from(ts, p2 + 1, Seq::empty()), p2) {
                    Err(d) => Err(d),
                    Ok((names, q)) => match expect(
                        ts,
                        q,
                        KTok::RParen,
                        "`)` in destructuring let"@,
                    ) {
                        Err(d) => Err(d),
                        Ok(r) => match initialiser(ts, r) {
                            Err(d) => Err(d),
                            Ok((init, s)) => {
                                let span = span_at(ts, p).cover(prev_span(ts, s));
                                Ok((destructured(names, mutable, init, span), s))
                            },
                        },
                    },
                }
            } else {
                match ident(ts, p2) {
                    Err(d) => Err(d),
                    Ok((name, q)) => match forward(ts, annotation(ts, q), q - 1) {
                        Err(d) => Err(d),
                        Ok((ty, r)) => match initialiser(ts, r) {
                            Err(d) => Err(d),
                            Ok((init, s)) => {
                                let span = span_at(ts, p).cover(prev_span(ts, s));
                                Ok((seq![AStmt::Let { name, mutable, ty, init, span }], s))
                            },
                        },
                    },
                }
            }
        },
    }
}

pub open spec fn while_stmt(ts: Seq<KToken>, p: int) -> Parsed<AStmt>
    decreases ts.len() - p, 0int,
{
    match expect(ts, p, KTok::While, "`while`"@) {
        Err(d) => Err(d),
        Ok(p1) => match forward(ts, expr_bp(ts, p1, 0, false), p1) {
            Err(d) => Err(d),
            Ok((cond, q)) => match block(ts, q) {
                Err(d) => Err(d),
                Ok((body, r)) => Ok(
                    (
                        AStmt::While { cond, body, span: span_at(ts, p).cover(prev_span(ts, r)) },
                        r,
                    ),
                ),
            },
        },
    }
}

pub open spec fn for_stmt(ts: Seq<KToken>, p: int) -> Parsed<AStmt>
    decreases ts.len() - p, 0int,
{
    match expect(ts, p, KTok::For, "`for`"@) {
        Err(d) => Err(d),
        Ok(p1) => match ident(ts, p1) {
            Err(d) => Err(d),
            Ok((var, p2)) => match expect(ts, p2, KTok::In, "`in`"@) {
                Err(d) => Err(d),
                Ok(p3) => match forward(ts, expr_bp(ts, p3, 0, false), p3) {
                    Err(d) => Err(d),
                    Ok((lo, q)) => match expect(ts, q, KTok::DotDot, "`..` in for-range"@) {
                        Err(d) => Err(d),
                        Ok(q1) => match forward(ts, expr_bp(ts, q1, 0, false), q1) {
                            Err(d) => Err(d),
                            Ok((hi, r)) => match block(ts, r) {
                                Err(d) => Err(d),
                                Ok((body, s)) => Ok(
                                    (
                                        AStmt::For {
                                            var,
                                            lo,
                                            hi,
                                            body,
                                            span: span_at(ts, p).cover(prev_span(ts, s)),
                                        },
                                        s,
                                    ),
                                ),
                            },
                        },
                    },
                },
            },
        },
    }
}

/// The optional value of a `return` at `p`.
pub open spec fn return_value(ts: Seq<KToken>, p: int) -> Parsed<Option<AExpr>>
    decreases ts.len() - p, 6int,
{
    if tok_at(ts, p) is Semi {
        Ok((None, p))
    } else {
        match expr(ts, p) {
            Err(d) => Err(d),
            Ok((e, q)) => Ok((Some(e), q)),
        }
    }
}

pub open spec fn return_stmt(ts: Seq<KToken>, p: int) -> Parsed<AStmt>
    decreases ts.len() - p, 0int,
{
    match expect(ts, p, KTok::Return, "`return`"@) {
        Err(d) => Err(d),
        Ok(p1) => match return_value(ts, p1) {
            Err(d) => Err(d),
            Ok((value, q)) => match expect(ts, q, KTok::Semi, "`;` after return"@) {
                Err(d) => Err(d),
                Ok(r) => Ok(
                    (
                        AStmt::Return { value, span: span_at(ts, p).cover(prev_span(ts, r)) },
                        r,
                    ),
                ),
            },
        },
    }
}

/// A `while`, `for` or `return` statement.
pub open spec fn keyword_stmt(ts: Seq<KToken>, p: int) -> Parsed<AStmt>
    decreases ts.len() - p, 1int,
{
    match tok_at(ts, p) {
        KTok::While => while_stmt(ts, p),
        KTok::For => for_stmt(ts, p),
        _ => return_stmt(ts, p),
    }
}

/// The statements `acc`, those that follow at `p`, and the tail expression.
pub open spec fn stmts_from(ts: Seq<KToken>, p: int, acc: Seq<AStmt>) -> Parsed<
    (Seq<AStmt>, Option<Box<AExpr>>),
>
    decreases ts.len() - p, 7int,
{
    let t = tok_at(ts, p);
    if t is RBrace || t is Eof {
        Ok(((acc, None), p))
    } else if t is Let {
        match forward(ts, let_stmt(ts, p), p) {
            Err(d) => Err(d),
            Ok((ss, q)) => stmts_from(ts, q, acc + ss),
        }
    } else if t is While || t is For || t is Return {
        match forward(ts, keyword_stmt(ts, p), p) {
            Err(d) => Err(d),
            Ok((s, q)) => stmts_from(ts, q, acc.push(s)),
        }
    } else {
        match forward(ts, expr(ts, p), p) {
            Err(d) => Err(d),
            Ok((e, q)) => if tok_at(ts, q) is Eq {
                match forward(ts, expr(ts, q + 1), q + 1) {
                    Err(d) => Err(d),
                    Ok((value, r)) => match expect(ts, r, KTok::Semi, "`;` after assignment"@) {
                        Err(d) => Err(d),
                        Ok(s) => stmts_from(
                            ts,
                            s,
                            acc.push(
                                AStmt::Assign {
                                    target: e,
                                    value,
                                    span: e.span().cover(value.span()),
                                },
                            ),
                        ),
                    },
                }
            } else if tok_at(ts, q) is Semi {
                stmts_from(ts, q + 1, acc.push(AStmt::Expr(e)))
            } else if tok_at(ts, q) is RBrace {
                Ok(((acc, Some(Box::new(e))), q))
            } else if block_like(e) {
                stmts_from(ts, q, acc.push(AStmt::Expr(e)))
            } else {
                fail(
                    ts,
                    q,
                    "expected `;` or `}` after expression, found "@ + tok_at(ts, q).described(),
                )
            },
        }
    }
}

/// A block.
pub open spec fn block(ts: Seq<KToken>, p: int) -> Parsed<ABlock>
    decreases ts.len() - p, 0int,
{
    match expect(ts, p, KTok::LBrace, "`{`"@) {
        Err(d) => Err(d),
        Ok(p1) => match stmts_from(ts, p1, Seq::empty()) {
            Err(d) => Err(d),
            Ok(((stmts, tail), q)) => match expect(ts, q, KTok::RBrace, "`}`"@) {
                Err(d) => Err(d),
                Ok(r) => Ok(
                    (ABlock { stmts, tail, span: span_at(ts, p).cover(prev_span(ts, r)) }, r),
                ),
            },
        },
    }
}

// ---- items --------------------------------------------------------------

/// The parameters that follow at `p` up to `)`, behind `acc`.
pub open spec fn params_from(ts: Seq<KToken>, p: int, acc: Seq<AParam>) -> Parsed<Seq<AParam>>
    decreases ts.len() - p,
{
    if tok_at(ts, p) is RParen {
        Ok((acc, p))
    } else {
        match ident(ts, p) {
            Err(d) => Err(d),
            Ok((name, q)) => match expect(ts, q, KTok::Colon, "`:`"@) {
                Err(d) => Err(d),
                Ok(r) => match forward(ts, type_expr(ts, r), r) {
                    Err(d) => Err(d),
                    Ok((ty, s)) => {
                        let x = AParam { name, ty, span: span_at(ts, p).cover(prev_span(ts, s)) };
                        if tok_at(ts, s) is Comma {
                            params_from(ts, s + 1, acc.push(x))
                        } else {
                            Ok((acc.push(x), s))
                        }
                    },
                },
            },
        }
    }
}

/// The optional return type `-> T` at `p`.
pub open spec fn ret_type(ts: Seq<KToken>, p: int) -> Parsed<Option<ATypeExpr>> {
    if tok_at(ts, p) is Arrow {
        match type_expr(ts, p + 1) {
            Err(d) => Err(d),
            Ok((t, q)) => Ok((Some(t), q)),
        }
    } else {
        Ok((None, p))
    }
}

#[verifier::opaque]
pub open spec fn func(ts: Seq<KToken>, p: int) -> Parsed<AFunc> {
    match expect(ts, p, KTok::Fn, "`fn`"@) {
        Err(d) => Err(d),
        Ok(p1) => match ident(ts, p1) {
            Err(d) => Err(d),
            Ok((name, p2)) => match expect(ts, p2, KTok::LParen, "`(`"@) {
                Err(d) => Err(d),
                Ok(p3) => match params_from(ts, p3, Seq::empty()) {
                    Err(d) => Err(d),
                    Ok((params, q)) => match expect(ts, q, KTok::RParen, "`)`"@) {
                        Err(d) => Err(d),
                        Ok(r) => match ret_type(ts, r) {
                            Err(d) => Err(d),
                            Ok((ret, s)) => match block(ts, s) {
                                Err(d) => Err(d),
                                Ok((body, e)) => Ok(
                                    (
                                        AFunc {
                                            name,
                                            params,
                                            ret,
                                            body,
                                            span: span_at(ts, p).cover(prev_span(ts, e)),
                                        },
                                        e,
                                    ),
                                ),
                            },
                        },
                    },
                },
            },
        },
    }
}

/// The fields that follow at `p` up to `}`, behind `acc`.
pub open spec fn fields_from(ts: Seq<KToken>, p: int, acc: Seq<AFieldDef>) -> Parsed<Seq<AFieldDef>>
    decreases ts.len() - p,
{
    if tok_at(ts, p) is RBrace {
        Ok((acc, p))
    } else {
        match ident(ts, p) {
            Err(d) => Err(d),
            Ok((name, q)) => match expect(ts, q, KTok::Colon, "`:`"@) {
                Err(d) => Err(d),
                Ok(r) => match forward(ts, type_expr(ts, r), r) {
                    Err(d) => Err(d),
                    Ok((ty, s)) => {
                        let x = AFieldDef { name, ty, span: span_at(ts, p).cover(prev_span(ts, s)) };
                        if tok_at(ts, s) is Comma {
                            fields_from(ts, s + 1, acc.push(x))
                        } else {
                            Ok((acc.push(x), s))
                        }
                    },
                },
            },
        }
    }
}

#[verifier::opaque]
pub open spec fn struct_def(ts: Seq<KToken>, p: int) -> Parsed<AStructDef> {
    match expect(ts, p, KTok::Struct, "`struct`"@) {
        Err(d) => Err(d),
        Ok(p1) => match ident(ts, p1) {
            Err(d) => Err(d),
            Ok((name, p2)) => match expect(ts, p2, KTok::LBrace, "`{`"@) {
                Err(d) => Err(d),
                Ok(p3) => match fields_from(ts, p3, Seq::empty()) {
                    Err(d) => Err(d),
                    Ok((fields, q)) => match expect(ts, q, KTok::RBrace, "`}`"@) {
                        Err(d) => Err(d),
                        Ok(r) => Ok(
                            (
                                AStructDef {
                                    name,
                                    fields,
                                    span: span_at(ts, p).cover(prev_span(ts, r)),
                                },
                                r,
                            ),
                        ),
                    },
                },
            },
        },
    }
}

/// The payload types of a variant at `p`.
pub open spec fn payload(ts: Seq<KToken>, p: int) -> Parsed<Seq<ATypeExpr>> {
    if tok_at(ts, p) is LParen {
        match types_from(ts, p + 1, Seq::empty(), false) {
            Err(d) => Err(d),
            Ok(((tys, _), q)) => match expect(ts, q, KTok::RParen, "`)`"@) {
                Err(d) => Err(d),
                Ok(r) => Ok((tys, r)),
            },
        }
    } else {
        Ok((Seq::empty(), p))
    }
}

/// The variants that follow at `p` up to `}`, behind `acc`.
pub open spec fn variants_from(ts: Seq<KToken>, p: int, acc: Seq<AVariantDef>) -> Parsed<
    Seq<AVariantDef>,
>
    decreases ts.len() - p,
{
    if tok_at(ts, p) is RBrace {
        Ok((acc, p))
    } else {
        match ident(ts, p) {
            Err(d) => Err(d),
            Ok((name, q)) => match forward(ts, payload(ts, q), q - 1) {
                Err(d) => Err(d),
                Ok((fields, s)) => {
                    let x = AVariantDef {
                        name,
                        fields,
                        span: span_at(ts, p).cover(prev_span(ts, s)),
                    };
                    if tok_at(ts, s) is Comma {
                        variants_from(ts, s + 1, acc.push(x))
                    } else {
                        Ok((acc.push(x), s))
                    }
                },
            },
        }
    }
}

#[verifier::opaque]
pub open spec fn enum_def(ts: Seq<KToken>, p: int) -> Parsed<AEnumDef> {
    match expect(ts, p, KTok::Enum, "`enum`"@) {
        Err(d) => Err(d),
        Ok(p1) => match ident(ts, p1) {
            Err(d) => Err(d),
            Ok((name, p2)) => match expect(ts, p2, KTok::LBrace, "`{`"@) {
                Err(d) => Err(d),
                Ok(p3) => match variants_from(ts, p3, Seq::empty()) {
                    Err(d) => Err(d),
                    Ok((variants, q)) => match expect(ts, q, KTok::RBrace, "`}`"@) {
                        Err(d) => Err(d),
                        Ok(r) => Ok(
                            (
                                AEnumDef {
                                    name,
                                    variants,
                                    span: span_at(ts, p).cover(prev_span(ts, r)),
                                },
                                r,
                            ),
                        ),
                    },
                },
            },
        },
    }
}

#[verifier::opaque]
pub open spec fn const_def(ts: Seq<KToken>, p: int) -> Parsed<AConstDef> {
    match expect(ts, p, KTok::Const, "`const`"@) {
        Err(d) => Err(d),
        Ok(p1) => match ident(ts, p1) {
            Err(d) => Err(d),
            Ok((name, p2)) => match expect(ts, p2, KTok::Colon, "`:`"@) {
                Err(d) => Err(d),
                Ok(p3) => match type_expr(ts, p3) {
                    Err(d) => Err(d),
                    Ok((ty, q)) => match expect(ts, q, KTok::Eq, "`=` in const"@) {
                        Err(d) => Err(d),
                        Ok(q1) => match expr(ts, q1) {
                            Err(d) => Err(d),
                            Ok((init, r)) => match expect(ts, r, KTok::Semi, "`;` after const"@) {
                                Err(d) => Err(d),
                                Ok(s) => Ok(
                                    (
                                        AConstDef {
                                            name,
                                            ty,
                                            init,
                                            span: span_at(ts, p).cover(prev_span(ts, s)),
                                        },
                                        s,
                                    ),
                                ),
                            },
                        },
                    },
                },
            },
        },
    }
}

/// The segments `acc` of an import and those that follow at `p`, and whether it
/// ends with `*`.
pub open spec fn use_from(ts: Seq<KToken>, p: int, acc: Seq<Text>) -> Parsed<(Seq<Text>, bool)>
    decreases ts.len() - p,
{
    if !(tok_at(ts, p) is ColonColon) {
        Ok(((acc, false), p))
    } else if tok_at(ts, p + 1) is Star {
        Ok(((acc, true), p + 2))
    } else {
        match ident(ts, p + 1) {
            Err(d) => Err(d),
            Ok((seg, q)) => use_from(ts, q, acc.push(seg)),
        }
    }
}

#[verifier::opaque]
pub open spec fn use_decl(ts: Seq<KToken>, p: int) -> Parsed<AUseDecl> {
    match expect(ts, p, KTok::Use, "`use`"@) {
        Err(d) => Err(d),
        Ok(p1) => match ident(ts, p1) {
            Err(d) => Err(d),
            Ok((first, p2)) => match use_from(ts, p2, seq![first]) {
                Err(d) => Err(d),
                Ok(((path, glob), q)) => match expect(ts, q, KTok::Semi, "`;` after use"@) {
                    Err(d) => Err(d),
                    Ok(r) => Ok(
                        (
                            AUseDecl { path, glob, span: span_at(ts, p).cover(prev_span(ts, r)) },
                            r,
                        ),
                    ),
                },
            },
        },
    }
}

pub open spec fn mod_def(ts: Seq<KToken>, p: int) -> Parsed<AModDef>
    decreases ts.len() - p, 0int,
{
    match expect(ts, p, KTok::Mod, "`mod`"@) {
        Err(d) => Err(d),
        Ok(p1) => match ident(ts, p1) {
            Err(d) => Err(d),
            Ok((name, p2)) => if tok_at(ts, p2) is Semi {
                Ok(
                    (
                        AModDef {
                            name,
                            items: None,
                            span: span_at(ts, p).cover(prev_span(ts, p2 + 1)),
                        },
                        p2 + 1,
                    ),
                )
            } else {
                match expect(ts, p2, KTok::LBrace, "`{` or `;` after module name"@) {
                    Err(d) => Err(d),
                    Ok(p3) => match items_from(ts, p3, Seq::empty(), true) {
                        Err(d) => Err(d),
                        Ok((items, q)) => match expect(ts, q, KTok::RBrace, "`}`"@) {
                            Err(d) => Err(d),
                            Ok(r) => Ok(
                                (
                                    AModDef {
                                        name,
                                        items: Some(items),
                                        span: span_at(ts, p).cover(prev_span(ts, r)),
                                    },
                                    r,
                                ),
                            ),
                        },
                    },
                }
            },
        },
    }
}

/// The items `acc` and those that follow at `p`, up to the end of input or, in a
/// module, up to `}`.
pub open spec fn items_from(ts: Seq<KToken>, p: int, acc: Seq<AItem>, inner: bool) -> Parsed<
    Seq<AItem>,
>
    decreases ts.len() - p, 2int,
{
    if tok_at(ts, p) is Eof || (inner && tok_at(ts, p) is RBrace) {
        Ok((acc, p))
    } else {
        match forward(ts, item(ts, p), p) {
            Err(d) => Err(d),
            Ok((x, q)) => items_from(ts, q, acc.push(x), inner),
        }
    }
}

/// An item.
pub open spec fn item(ts: Seq<KToken>, p: int) -> Parsed<AItem>
    decreases ts.len() - p, 1int,
{
    match tok_at(ts, p) {
        KTok::Fn => match func(ts, p) {
            Err(d) => Err(d),
            Ok((x, q)) => Ok((AItem::Func(x), q)),
        },
        KTok::Struct => match struct_def(ts, p) {
            Err(d) => Err(d),
            Ok((x, q)) => Ok((AItem::Struct(x), q)),
        },
        KTok::Enum => match enum_def(ts, p) {
            Err(d) => Err(d),
            Ok((x, q)) => Ok((AItem::Enum(x), q)),
        },
        KTok::Const => match const_def(ts, p) {
            Err(d) => Err(d),
            Ok((x, q)) => Ok((AItem::Const(x), q)),
        },
        KTok::Mod => match mod_def(ts, p) {
            Err(d) => Err(d),
            Ok((x, q)) => Ok((AItem::Mod(x), q)),
        },
        KTok::Use => match use_decl(ts, p) {
            Err(d) => Err(d),
            Ok((x, q)) => Ok((AItem::Use(x), q)),
        },
        t => fail(
            ts,
            p,
            "expected an item (fn, struct, enum, mod, or use), found "@ + t.described(),
        ),
    }
}

/// The program that the tokens stand for.
pub open spec fn program(ts: Seq<KToken>) -> Result<AProgram, Diag> {
    match items_from(ts, 0, Seq::empty(), false) {
        Err(d) => Err(d),
        Ok((items, _)) => Ok(AProgram { items }),
    }
}

} // verus!
