//! Where parse errors lie: every one of them points into the source text.

use crate::ast::{
    AExpr, AFieldDef, AItem, AMatchArm, AParam, APattern, AStmt, ATypeExpr, AVariantDef,
};
use crate::diagnostic::Diag;
use crate::grammar;
use crate::lexer;
use crate::pieces;
use crate::span::Span;
use crate::text::Text;
use crate::token::{KTok, KToken};
use vstd::prelude::*;

verus! {

/// Whether the spans of the tokens lie in a text of `n` bytes.
pub open spec fn fits(ts: Seq<KToken>, n: nat) -> bool {
    forall|k: int|
        0 <= k < ts.len() ==> (#[trigger] ts[k]).span.start <= ts[k].span.end <= n
}

/// Whether `d` is a parse error that lies in a text of `n` bytes.
pub open spec fn lies(d: Diag, n: nat) -> bool {
    d.stage is Parse && d.span.start <= d.span.end <= n
}

proof fn lies_path_from(n: nat, ts: Seq<KToken>, p: int, acc: Seq<Text>)
    requires
        fits(ts, n),
    ensures
        grammar::path_from(ts, p, acc) matches Err(d) ==> lies(d, n),
    decreases ts.len() - p,
{
    if grammar::tok_at(ts, p) is ColonColon {
        match grammar::ident(ts, p + 1) {
            Ok((seg, q)) => {
                lies_path_from(n, ts, q, acc.push(seg));
            },
            _ => {},
        }
    }
}

proof fn lies_name_path(n: nat, ts: Seq<KToken>, p: int)
    requires
        fits(ts, n),
    ensures
        grammar::name_path(ts, p) matches Err(d) ==> lies(d, n),
{
    match grammar::ident(ts, p) {
        Ok((first, q)) => {
            lies_path_from(n, ts, q, seq![first]);
        },
        _ => {},
    }
}

proof fn lies_types_from(n: nat, ts: Seq<KToken>, p: int, acc: Seq<ATypeExpr>, comma: bool)
    requires
        fits(ts, n),
    ensures
        grammar::types_from(ts, p, acc, comma) matches Err(d) ==> lies(d, n),
    decreases ts.len() - p, 1int,
{
    if !(grammar::tok_at(ts, p) is RParen) {
        lies_type_expr(n, ts, p);
        match grammar::forward(ts, grammar::type_expr(ts, p), p) {
            Ok((t, q)) => {
                if grammar::tok_at(ts, q) is Comma {
                    lies_types_from(n, ts, q + 1, acc.push(t), true);
                }
            },
            _ => {},
        }
    }
}

proof fn lies_type_expr(n: nat, ts: Seq<KToken>, p: int)
    requires
        fits(ts, n),
    ensures
        grammar::type_expr(ts, p) matches Err(d) ==> lies(d, n),
    decreases ts.len() - p, 0int,
{
    match grammar::tok_at(ts, p) {
        KTok::LBracket => {
            lies_type_expr(n, ts, p + 1);
        },
        KTok::LParen => {
            if !(grammar::tok_at(ts, p + 1) is RParen) {
                lies_types_from(n, ts, p + 1, Seq::empty(), false);
            }
        },
        KTok::Ident(_) => {
            lies_name_path(n, ts, p);
        },
        _ => {},
    }
}

proof fn lies_patterns_from(n: nat, ts: Seq<KToken>, p: int, acc: Seq<APattern>, comma: bool)
    requires
        fits(ts, n),
    ensures
        grammar::patterns_from(ts, p, acc, comma) matches Err(d) ==> lies(d, n),
    decreases ts.len() - p, 2int,
{
    if !(grammar::tok_at(ts, p) is RParen) {
        lies_pattern(n, ts, p);
        match grammar::forward(ts, grammar::pattern(ts, p), p) {
            Ok((x, q)) => {
                if grammar::tok_at(ts, q) is Comma {
                    lies_patterns_from(n, ts, q + 1, acc.push(x), true);
                }
            },
            _ => {},
        }
    }
}

proof fn lies_alts_from(n: nat, ts: Seq<KToken>, p: int, acc: Seq<APattern>)
    requires
        fits(ts, n),
    ensures
        grammar::alts_from(ts, p, acc) matches Err(d) ==> lies(d, n),
    decreases ts.len() - p, 2int,
{
    if grammar::tok_at(ts, p) is Pipe {
        lies_pattern_primary(n, ts, p + 1);
        match grammar::forward(ts, grammar::pattern_primary(ts, p + 1), p + 1) {
            Ok((x, q)) => {
                lies_alts_from(n, ts, q, acc.push(x));
            },
            _ => {},
        }
    }
}

proof fn lies_pattern(n: nat, ts: Seq<KToken>, p: int)
    requires
        fits(ts, n),
    ensures
        grammar::pattern(ts, p) matches Err(d) ==> lies(d, n),
    decreases ts.len() - p, 1int,
{
    lies_pattern_primary(n, ts, p);
    match grammar::forward(ts, grammar::pattern_primary(ts, p), p) {
        Ok((first, q)) => {
            if grammar::tok_at(ts, q) is Pipe {
                lies_alts_from(n, ts, q, seq![first]);
            }
        },
        _ => {},
    }
}

proof fn lies_pattern_primary(n: nat, ts: Seq<KToken>, p: int)
    requires
        fits(ts, n),
    ensures
        grammar::pattern_primary(ts, p) matches Err(d) ==> lies(d, n),
    decreases ts.len() - p, 0int,
{
    let span = grammar::span_at(ts, p);
    match grammar::tok_at(ts, p) {
        KTok::Ident(name) => {
            if !(name == "_"@) {
                lies_name_path(n, ts, p);
                match grammar::forward(ts, grammar::name_path(ts, p), p) {
                    Ok((segs, q)) => {
                        if grammar::tok_at(ts, q) is LParen {
                            lies_patterns_from(n, ts, q + 1, Seq::empty(), false);
                        }
                    },
                    _ => {},
                }
            }
        },
        KTok::LParen => {
            lies_patterns_from(n, ts, p + 1, Seq::empty(), false);
        },
        _ => {},
    }
}

proof fn lies_expr(n: nat, ts: Seq<KToken>, p: int)
    requires
        fits(ts, n),
    ensures
        grammar::expr(ts, p) matches Err(d) ==> lies(d, n),
    decreases ts.len() - p, 5int,
{
    lies_expr_bp(n, ts, p, 0, true);
}

proof fn lies_expr_bp(n: nat, ts: Seq<KToken>, p: int, min: int, allow: bool)
    requires
        fits(ts, n),
    ensures
        grammar::expr_bp(ts, p, min, allow) matches Err(d) ==> lies(d, n),
    decreases ts.len() - p, 4int,
{
    lies_prefix(n, ts, p, allow);
    match grammar::forward(ts, grammar::prefix(ts, p, allow), p) {
        Ok((lhs, q)) => {
            lies_infix_from(n, ts, q, lhs, min, allow);
        },
        _ => {},
    }
}

proof fn lies_infix_from(n: nat, ts: Seq<KToken>, p: int, lhs: AExpr, min: int, allow: bool)
    requires
        fits(ts, n),
    ensures
        grammar::infix_from(ts, p, lhs, min, allow) matches Err(d) ==> lies(d, n),
    decreases ts.len() - p, 6int,
{
    match grammar::infix_op(grammar::tok_at(ts, p)) {
        Some(op) => {
            if !(grammar::binding(op) < min) {
                lies_expr_bp(n, ts, p + 1, grammar::binding(op) + 1, allow);
                match grammar::forward(
                    ts,
                    grammar::expr_bp(ts, p + 1, grammar::binding(op) + 1, allow),
                    p + 1,
                ) {
                    Ok((rhs, q)) => {
                        lies_infix_from(
                            n,
                            ts,
                            q,
                            AExpr::Binary {
                                op,
                                lhs: Box::new(lhs),
                                rhs: Box::new(rhs),
                                span: lhs.span().cover(rhs.span()),
                            },
                            min,
                            allow,
                        );
                    },
                    _ => {},
                }
            }
        },
        _ => {},
    }
}

proof fn lies_prefix(n: nat, ts: Seq<KToken>, p: int, allow: bool)
    requires
        fits(ts, n),
    ensures
        grammar::prefix(ts, p, allow) matches Err(d) ==> lies(d, n),
    decreases ts.len() - p, 3int,
{
    match grammar::tok_at(ts, p) {
        KTok::Minus => {
            lies_prefix(n, ts, p + 1, allow);
        },
        KTok::Bang => {
            lies_prefix(n, ts, p + 1, allow);
        },
        _ => {
            lies_postfix(n, ts, p, allow);
        },
    }
}

proof fn lies_postfix(n: nat, ts: Seq<KToken>, p: int, allow: bool)
    requires
        fits(ts, n),
    ensures
        grammar::postfix(ts, p, allow) matches Err(d) ==> lies(d, n),
    decreases ts.len() - p, 2int,
{
    lies_atom(n, ts, p, allow);
    match grammar::forward(ts, grammar::atom(ts, p, allow), p) {
        Ok((e, q)) => {
            lies_postfix_from(n, ts, q, e);
        },
        _ => {},
    }
}

proof fn lies_postfix_from(n: nat, ts: Seq<KToken>, p: int, e: AExpr)
    requires
        fits(ts, n),
    ensures
        grammar::postfix_from(ts, p, e) matches Err(d) ==> lies(d, n),
    decreases ts.len() - p, 6int,
{
    match grammar::tok_at(ts, p) {
        KTok::LParen => {
            lies_exprs_from(n, ts, p + 1, KTok::RParen, Seq::empty());
            match grammar::forward(
                ts,
                grammar::exprs_from(ts, p + 1, KTok::RParen, Seq::empty()),
                p,
            ) {
                Ok((args, q)) => {
                    match grammar::expect(ts, q, KTok::RParen, "`)`"@) {
                        Ok(r) => {
                            lies_postfix_from(
                                n,
                                ts,
                                r,
                                AExpr::Call {
                                    callee: Box::new(e),
                                    args,
                                    span: e.span().cover(grammar::prev_span(ts, r)),
                                },
                            );
                        },
                        _ => {},
                    }
                },
                _ => {},
            }
        },
        KTok::Dot => {
            match grammar::tok_at(ts, p + 1) {
                KTok::Int(idx) => {
                    lies_postfix_from(
                        n,
                        ts,
                        p + 2,
                        AExpr::TupleField {
                            base: Box::new(e),
                            index: idx as u64,
                            span: e.span().cover(grammar::prev_span(ts, p + 2)),
                        },
                    );
                },
                _ => {
                    match grammar::ident(ts, p + 1) {
                        Ok((field, q)) => {
                            lies_postfix_from(
                                n,
                                ts,
                                q,
                                AExpr::Field {
                                    base: Box::new(e),
                                    field,
                                    span: e.span().cover(grammar::prev_span(ts, q)),
                                },
                            );
                        },
                        _ => {},
                    }
                },
            }
        },
        KTok::LBracket => {
            lies_expr(n, ts, p + 1);
            match grammar::forward(ts, grammar::expr(ts, p + 1), p + 1) {
                Ok((index, q)) => {
                    match grammar::expect(ts, q, KTok::RBracket, "`]`"@) {
                        Ok(r) => {
                            lies_postfix_from(
                                n,
                                ts,
                                r,
                                AExpr::Index {
                                    base: Box::new(e),
                                    index: Box::new(index),
                                    span: e.span().cover(grammar::prev_span(ts, r)),
                                },
                            );
                        },
                        _ => {},
                    }
                },
                _ => {},
            }
        },
        _ => {},
    }
}

proof fn lies_exprs_from(n: nat, ts: Seq<KToken>, p: int, close: KTok, acc: Seq<AExpr>)
    requires
        fits(ts, n),
    ensures
        grammar::exprs_from(ts, p, close, acc) matches Err(d) ==> lies(d, n),
    decreases ts.len() - p, 6int,
{
    if !(grammar::tok_at(ts, p) == close) {
        lies_expr(n, ts, p);
        match grammar::forward(ts, grammar::expr(ts, p), p) {
            Ok((e, q)) => {
                if grammar::tok_at(ts, q) is Comma {
                    lies_exprs_from(n, ts, q + 1, close, acc.push(e));
                }
            },
            _ => {},
        }
    }
}

proof fn lies_tuple_from(n: nat, ts: Seq<KToken>, p: int, acc: Seq<AExpr>)
    requires
        fits(ts, n),
    ensures
        grammar::tuple_from(ts, p, acc) matches Err(d) ==> lies(d, n),
    decreases ts.len() - p, 6int,
{
    if !(!(grammar::tok_at(ts, p) is Comma)) {
        if !(grammar::tok_at(ts, p + 1) is RParen) {
            lies_expr(n, ts, p + 1);
            match grammar::forward(ts, grammar::expr(ts, p + 1), p + 1) {
                Ok((e, q)) => {
                    lies_tuple_from(n, ts, q, acc.push(e));
                },
                _ => {},
            }
        }
    }
}

proof fn lies_inits_from(n: nat, ts: Seq<KToken>, p: int, acc: Seq<(Text, AExpr)>)
    requires
        fits(ts, n),
    ensures
        grammar::inits_from(ts, p, acc) matches Err(d) ==> lies(d, n),
    decreases ts.len() - p, 6int,
{
    if !(grammar::tok_at(ts, p) is RBrace) {
        match grammar::ident(ts, p) {
            Ok((name, q)) => {
                match grammar::expect(ts, q, KTok::Colon, "`:` in struct field"@) {
                    Ok(r) => {
                        lies_expr(n, ts, r);
                        match grammar::forward(ts, grammar::expr(ts, r), r) {
                            Ok((e, s)) => {
                                if grammar::tok_at(ts, s) is Comma {
                                    lies_inits_from(n, ts, s + 1, acc.push((name, e)));
                                }
                            },
                            _ => {},
                        }
                    },
                    _ => {},
                }
            },
            _ => {},
        }
    }
}

proof fn lies_struct_lit(n: nat, ts: Seq<KToken>, p: int, path: Seq<Text>, start: Span)
    requires
        fits(ts, n),
    ensures
        grammar::struct_lit(ts, p, path, start) matches Err(d) ==> lies(d, n),
    decreases ts.len() - p, 0int,
{
    match grammar::expect(ts, p, KTok::LBrace, "`{`"@) {
        Ok(q) => {
            lies_inits_from(n, ts, q, Seq::empty());
        },
        _ => {},
    }
}

proof fn lies_atom(n: nat, ts: Seq<KToken>, p: int, allow: bool)
    requires
        fits(ts, n),
    ensures
        grammar::atom(ts, p, allow) matches Err(d) ==> lies(d, n),
    decreases ts.len() - p, 1int,
{
    let span = grammar::span_at(ts, p);
    match grammar::tok_at(ts, p) {
        KTok::Ident(_) => {
            lies_name_path(n, ts, p);
            match grammar::forward(ts, grammar::name_path(ts, p), p) {
                Ok((segs, q)) => {
                    let whole = span.cover(grammar::prev_span(ts, q));
                    if allow && grammar::tok_at(ts, q) is LBrace && grammar::last_upper(segs) {
                        lies_struct_lit(n, ts, q, segs, whole);
                    }
                },
                _ => {},
            }
        },
        KTok::LParen => {
            if !(grammar::tok_at(ts, p + 1) is RParen) {
                lies_expr(n, ts, p + 1);
                match grammar::forward(ts, grammar::expr(ts, p + 1), p + 1) {
                    Ok((first, q)) => {
                        if grammar::tok_at(ts, q) is Comma {
                            lies_tuple_from(n, ts, q, seq![first]);
                        }
                    },
                    _ => {},
                }
            }
        },
        KTok::LBracket => {
            lies_exprs_from(n, ts, p + 1, KTok::RBracket, Seq::empty());
        },
        KTok::If => {
            lies_if_expr(n, ts, p);
        },
        KTok::Match => {
            lies_match_expr(n, ts, p);
        },
        KTok::LBrace => {
            lies_block(n, ts, p);
        },
        _ => {},
    }
}

proof fn lies_else_part(n: nat, ts: Seq<KToken>, p: int)
    requires
        fits(ts, n),
    ensures
        grammar::else_part(ts, p) matches Err(d) ==> lies(d, n),
    decreases ts.len() - p, 0int,
{
    if !(!(grammar::tok_at(ts, p) is Else)) {
        if grammar::tok_at(ts, p + 1) is If {
            lies_if_expr(n, ts, p + 1);
        } else {
            lies_block(n, ts, p + 1);
        }
    }
}

proof fn lies_if_expr(n: nat, ts: Seq<KToken>, p: int)
    requires
        fits(ts, n),
    ensures
        grammar::if_expr(ts, p) matches Err(d) ==> lies(d, n),
    decreases ts.len() - p, 0int,
{
    match grammar::expect(ts, p, KTok::If, "`if`"@) {
        Ok(p1) => {
            lies_expr_bp(n, ts, p1, 0, false);
            match grammar::forward(ts, grammar::expr_bp(ts, p1, 0, false), p1) {
                Ok((cond, q)) => {
                    lies_block(n, ts, q);
                    match grammar::forward(ts, grammar::block(ts, q), q) {
                        Ok((then_branch, r)) => {
                            lies_else_part(n, ts, r);
                        },
                        _ => {},
                    }
                },
                _ => {},
            }
        },
        _ => {},
    }
}

proof fn lies_guard(n: nat, ts: Seq<KToken>, p: int)
    requires
        fits(ts, n),
    ensures
        grammar::guard(ts, p) matches Err(d) ==> lies(d, n),
    decreases ts.len() - p, 0int,
{
    if grammar::tok_at(ts, p) is If {
        lies_expr_bp(n, ts, p + 1, 0, false);
    }
}

proof fn lies_arms_from(n: nat, ts: Seq<KToken>, p: int, acc: Seq<AMatchArm>)
    requires
        fits(ts, n),
    ensures
        grammar::arms_from(ts, p, acc) matches Err(d) ==> lies(d, n),
    decreases ts.len() - p, 6int,
{
    if !(grammar::tok_at(ts, p) is RBrace) {
        lies_pattern(n, ts, p);
        match grammar::forward(ts, grammar::pattern(ts, p), p) {
            Ok((pat, q)) => {
                lies_guard(n, ts, q);
                match grammar::forward(ts, grammar::guard(ts, q), q - 1) {
                    Ok((g, r)) => {
                        match grammar::expect(ts, r, KTok::FatArrow, "`=>` in match arm"@) {
                            Ok(s) => {
                                lies_expr(n, ts, s);
                                match grammar::forward(ts, grammar::expr(ts, s), s) {
                                    Ok((body, e)) => {
                                        let arm = AMatchArm {
                                        pattern: pat,
                                        guard: g,
                                        body,
                                        span: grammar::span_at(
                                            ts,
                                            p,
                                        ).cover(grammar::prev_span(ts, e)),
                                        };
                                        if grammar::tok_at(ts, e) is Comma {
                                            lies_arms_from(n, ts, e + 1, acc.push(arm));
                                        }
                                    },
                                    _ => {},
                                }
                            },
                            _ => {},
                        }
                    },
                    _ => {},
                }
            },
            _ => {},
        }
    }
}

proof fn lies_match_expr(n: nat, ts: Seq<KToken>, p: int)
    requires
        fits(ts, n),
    ensures
        grammar::match_expr(ts, p) matches Err(d) ==> lies(d, n),
    decreases ts.len() - p, 0int,
{
    match grammar::expect(ts, p, KTok::Match, "`match`"@) {
        Ok(p1) => {
            lies_expr_bp(n, ts, p1, 0, false);
            match grammar::forward(ts, grammar::expr_bp(ts, p1, 0, false), p1) {
                Ok((scrutinee, q)) => {
                    match grammar::expect(ts, q, KTok::LBrace, "`{`"@) {
                        Ok(r) => {
                            lies_arms_from(n, ts, r, Seq::empty());
                        },
                        _ => {},
                    }
                },
                _ => {},
            }
        },
        _ => {},
    }
}

proof fn lies_names_from(n: nat, ts: Seq<KToken>, p: int, acc: Seq<Text>)
    requires
        fits(ts, n),
    ensures
        grammar::names_from(ts, p, acc) matches Err(d) ==> lies(d, n),
    decreases ts.len() - p,
{
    if !(grammar::tok_at(ts, p) is RParen) {
        match grammar::ident(ts, p) {
            Ok((x, q)) => {
                if grammar::tok_at(ts, q) is Comma {
                    lies_names_from(n, ts, q + 1, acc.push(x));
                }
            },
            _ => {},
        }
    }
}

proof fn lies_annotation(n: nat, ts: Seq<KToken>, p: int)
    requires
        fits(ts, n),
    ensures
        grammar::annotation(ts, p) matches Err(d) ==> lies(d, n),
{
    if grammar::tok_at(ts, p) is Colon {
        lies_type_expr(n, ts, p + 1);
    }
}

proof fn lies_initialiser(n: nat, ts: Seq<KToken>, p: int)
    requires
        fits(ts, n),
    ensures
        grammar::initialiser(ts, p) matches Err(d) ==> lies(d, n),
    decreases ts.len() - p, 6int,
{
    match grammar::expect(ts, p, KTok::Eq, "`=` in let binding"@) {
        Ok(q) => {
            lies_expr(n, ts, q);
        },
        _ => {},
    }
}

proof fn lies_let_stmt(n: nat, ts: Seq<KToken>, p: int)
    requires
        fits(ts, n),
    ensures
        grammar::let_stmt(ts, p) matches Err(d) ==> lies(d, n),
    decreases ts.len() - p, 0int,
{
    match grammar::expect(ts, p, KTok::Let, "`let`"@) {
        Ok(p1) => {
            let mutable = grammar::tok_at(ts, p1) is Mut;
            let p2 = if mutable {
            p1 + 1
            } else {
            p1
            };
            if grammar::tok_at(ts, p2) is LParen {
                lies_names_from(n, ts, p2 + 1, Seq::empty());
                match grammar::forward(ts, grammar::names_from(ts, p2 + 1, Seq::empty()), p2) {
                    Ok((names, q)) => {
                        match grammar::expect( ts, q, KTok::RParen, "`)` in destructuring let"@, ) {
                            Ok(r) => {
                                lies_initialiser(n, ts, r);
                            },
                            _ => {},
                        }
                    },
                    _ => {},
                }
            } else {
                match grammar::ident(ts, p2) {
                    Ok((name, q)) => {
                        lies_annotation(n, ts, q);
                        match grammar::forward(ts, grammar::annotation(ts, q), q - 1) {
                            Ok((ty, r)) => {
                                lies_initialiser(n, ts, r);
                            },
                            _ => {},
                        }
                    },
                    _ => {},
                }
            }
        },
        _ => {},
    }
}

proof fn lies_while_stmt(n: nat, ts: Seq<KToken>, p: int)
    requires
        fits(ts, n),
    ensures
        grammar::while_stmt(ts, p) matches Err(d) ==> lies(d, n),
    decreases ts.len() - p, 0int,
{
    match grammar::expect(ts, p, KTok::While, "`while`"@) {
        Ok(p1) => {
            lies_expr_bp(n, ts, p1, 0, false);
            match grammar::forward(ts, grammar::expr_bp(ts, p1, 0, false), p1) {
                Ok((cond, q)) => {
                    lies_block(n, ts, q);
                },
                _ => {},
            }
        },
        _ => {},
    }
}

proof fn lies_for_stmt(n: nat, ts: Seq<KToken>, p: int)
    requires
        fits(ts, n),
    ensures
        grammar::for_stmt(ts, p) matches Err(d) ==> lies(d, n),
    decreases ts.len() - p, 0int,
{
    match grammar::expect(ts, p, KTok::For, "`for`"@) {
        Ok(p1) => {
            match grammar::ident(ts, p1) {
                Ok((var, p2)) => {
                    match grammar::expect(ts, p2, KTok::In, "`in`"@) {
                        Ok(p3) => {
                            lies_expr_bp(n, ts, p3, 0, false);
                            match grammar::forward(ts, grammar::expr_bp(ts, p3, 0, false), p3) {
                                Ok((lo, q)) => {
                                    match grammar::expect(
                                        ts,
                                        q,
                                        KTok::DotDot,
                                        "`..` in for-range"@,
                                    ) {
                                        Ok(q1) => {
                                            lies_expr_bp(n, ts, q1, 0, false);
                                            match grammar::forward(
                                                ts,
                                                grammar::expr_bp(ts, q1, 0, false),
                                                q1,
                                            ) {
                                                Ok((hi, r)) => {
                                                    lies_block(n, ts, r);
                                                },
                                                _ => {},
                                            }
                                        },
                                        _ => {},
                                    }
                                },
                                _ => {},
                            }
                        },
                        _ => {},
                    }
                },
                _ => {},
            }
        },
        _ => {},
    }
}

proof fn lies_return_value(n: nat, ts: Seq<KToken>, p: int)
    requires
        fits(ts, n),
    ensures
        grammar::return_value(ts, p) matches Err(d) ==> lies(d, n),
    decreases ts.len() - p, 6int,
{
    if !(grammar::tok_at(ts, p) is Semi) {
        lies_expr(n, ts, p);
    }
}

proof fn lies_return_stmt(n: nat, ts: Seq<KToken>, p: int)
    requires
        fits(ts, n),
    ensures
        grammar::return_stmt(ts, p) matches Err(d) ==> lies(d, n),
    decreases ts.len() - p, 0int,
{
    match grammar::expect(ts, p, KTok::Return, "`return`"@) {
        Ok(p1) => {
            lies_return_value(n, ts, p1);
        },
        _ => {},
    }
}

proof fn lies_keyword_stmt(n: nat, ts: Seq<KToken>, p: int)
    requires
        fits(ts, n),
    ensures
        grammar::keyword_stmt(ts, p) matches Err(d) ==> lies(d, n),
    decreases ts.len() - p, 1int,
{
    match grammar::tok_at(ts, p) {
        KTok::While => {
            lies_while_stmt(n, ts, p);
        },
        KTok::For => {
            lies_for_stmt(n, ts, p);
        },
        _ => {
            lies_return_stmt(n, ts, p);
        },
    }
}

proof fn lies_stmts_from(n: nat, ts: Seq<KToken>, p: int, acc: Seq<AStmt>)
    requires
        fits(ts, n),
    ensures
        grammar::stmts_from(ts, p, acc) matches Err(d) ==> lies(d, n),
    decreases ts.len() - p, 7int,
{
    let t = grammar::tok_at(ts, p);
    if !(t is RBrace || t is Eof) {
        if t is Let {
            lies_let_stmt(n, ts, p);
            match grammar::forward(ts, grammar::let_stmt(ts, p), p) {
                Ok((ss, q)) => {
                    lies_stmts_from(n, ts, q, acc + ss);
                },
                _ => {},
            }
        } else {
            if t is While || t is For || t is Return {
                lies_keyword_stmt(n, ts, p);
                match grammar::forward(ts, grammar::keyword_stmt(ts, p), p) {
                    Ok((s, q)) => {
                        lies_stmts_from(n, ts, q, acc.push(s));
                    },
                    _ => {},
                }
            } else {
                lies_expr(n, ts, p);
                match grammar::forward(ts, grammar::expr(ts, p), p) {
                    Ok((e, q)) => {
                        if grammar::tok_at(ts, q) is Eq {
                            lies_expr(n, ts, q + 1);
                            match grammar::forward(ts, grammar::expr(ts, q + 1), q + 1) {
                                Ok((value, r)) => {
                                    match grammar::expect(
                                        ts,
                                        r,
                                        KTok::Semi,
                                        "`;` after assignment"@,
                                    ) {
                                        Ok(s) => {
                                            lies_stmts_from(
                                                n,
                                                ts,
                                                s,
                                                acc.push(
                                                    AStmt::Assign {
                                                        target: e,
                                                        value,
                                                        span: e.span().cover(value.span()),
                                                    },
                                                ),
                                            );
                                        },
                                        _ => {},
                                    }
                                },
                                _ => {},
                            }
                        } else {
                            if grammar::tok_at(ts, q) is Semi {
                                lies_stmts_from(n, ts, q + 1, acc.push(AStmt::Expr(e)));
                            } else {
                                if !(grammar::tok_at(ts, q) is RBrace) {
                                    if grammar::block_like(e) {
                                        lies_stmts_from(n, ts, q, acc.push(AStmt::Expr(e)));
                                    }
                                }
                            }
                        }
                    },
                    _ => {},
                }
            }
        }
    }
}

proof fn lies_block(n: nat, ts: Seq<KToken>, p: int)
    requires
        fits(ts, n),
    ensures
        grammar::block(ts, p) matches Err(d) ==> lies(d, n),
    decreases ts.len() - p, 0int,
{
    match grammar::expect(ts, p, KTok::LBrace, "`{`"@) {
        Ok(p1) => {
            lies_stmts_from(n, ts, p1, Seq::empty());
        },
        _ => {},
    }
}

proof fn lies_params_from(n: nat, ts: Seq<KToken>, p: int, acc: Seq<AParam>)
    requires
        fits(ts, n),
    ensures
        grammar::params_from(ts, p, acc) matches Err(d) ==> lies(d, n),
    decreases ts.len() - p,
{
    if !(grammar::tok_at(ts, p) is RParen) {
        match grammar::ident(ts, p) {
            Ok((name, q)) => {
                match grammar::expect(ts, q, KTok::Colon, "`:`"@) {
                    Ok(r) => {
                        lies_type_expr(n, ts, r);
                        match grammar::forward(ts, grammar::type_expr(ts, r), r) {
                            Ok((ty, s)) => {
                                let x = AParam {
                                    name,
                                    ty,
                                    span: grammar::span_at(ts, p).cover(grammar::prev_span(ts, s)),
                                };
                                if grammar::tok_at(ts, s) is Comma {
                                    lies_params_from(n, ts, s + 1, acc.push(x));
                                }
                            },
                            _ => {},
                        }
                    },
                    _ => {},
                }
            },
            _ => {},
        }
    }
}

proof fn lies_ret_type(n: nat, ts: Seq<KToken>, p: int)
    requires
        fits(ts, n),
    ensures
        grammar::ret_type(ts, p) matches Err(d) ==> lies(d, n),
{
    if grammar::tok_at(ts, p) is Arrow {
        lies_type_expr(n, ts, p + 1);
    }
}

proof fn lies_func(n: nat, ts: Seq<KToken>, p: int)
    requires
        fits(ts, n),
    ensures
        grammar::func(ts, p) matches Err(d) ==> lies(d, n),
{
    reveal(grammar::func);
    match grammar::expect(ts, p, KTok::Fn, "`fn`"@) {
        Ok(p1) => {
            match grammar::ident(ts, p1) {
                Ok((name, p2)) => {
                    match grammar::expect(ts, p2, KTok::LParen, "`(`"@) {
                        Ok(p3) => {
                            lies_params_from(n, ts, p3, Seq::empty());
                            match grammar::params_from(ts, p3, Seq::empty()) {
                                Ok((params, q)) => {
                                    match grammar::expect(ts, q, KTok::RParen, "`)`"@) {
                                        Ok(r) => {
                                            lies_ret_type(n, ts, r);
                                            match grammar::ret_type(ts, r) {
                                                Ok((ret, s)) => {
                                                    lies_block(n, ts, s);
                                                },
                                                _ => {},
                                            }
                                        },
                                        _ => {},
                                    }
                                },
                                _ => {},
                            }
                        },
                        _ => {},
                    }
                },
                _ => {},
            }
        },
        _ => {},
    }
}

proof fn lies_fields_from(n: nat, ts: Seq<KToken>, p: int, acc: Seq<AFieldDef>)
    requires
        fits(ts, n),
    ensures
        grammar::fields_from(ts, p, acc) matches Err(d) ==> lies(d, n),
    decreases ts.len() - p,
{
    if !(grammar::tok_at(ts, p) is RBrace) {
        match grammar::ident(ts, p) {
            Ok((name, q)) => {
                match grammar::expect(ts, q, KTok::Colon, "`:`"@) {
                    Ok(r) => {
                        lies_type_expr(n, ts, r);
                        match grammar::forward(ts, grammar::type_expr(ts, r), r) {
                            Ok((ty, s)) => {
                                let x = AFieldDef {
                                    name,
                                    ty,
                                    span: grammar::span_at(ts, p).cover(grammar::prev_span(ts, s)),
                                };
                                if grammar::tok_at(ts, s) is Comma {
                                    lies_fields_from(n, ts, s + 1, acc.push(x));
                                }
                            },
                            _ => {},
                        }
                    },
                    _ => {},
                }
            },
            _ => {},
        }
    }
}

proof fn lies_struct_def(n: nat, ts: Seq<KToken>, p: int)
    requires
        fits(ts, n),
    ensures
        grammar::struct_def(ts, p) matches Err(d) ==> lies(d, n),
{
    reveal(grammar::struct_def);
    match grammar::expect(ts, p, KTok::Struct, "`struct`"@) {
        Ok(p1) => {
            match grammar::ident(ts, p1) {
                Ok((name, p2)) => {
                    match grammar::expect(ts, p2, KTok::LBrace, "`{`"@) {
                        Ok(p3) => {
                            lies_fields_from(n, ts, p3, Seq::empty());
                        },
                        _ => {},
                    }
                },
                _ => {},
            }
        },
        _ => {},
    }
}

proof fn lies_payload(n: nat, ts: Seq<KToken>, p: int)
    requires
        fits(ts, n),
    ensures
        grammar::payload(ts, p) matches Err(d) ==> lies(d, n),
{
    if grammar::tok_at(ts, p) is LParen {
        lies_types_from(n, ts, p + 1, Seq::empty(), false);
    }
}

proof fn lies_variants_from(n: nat, ts: Seq<KToken>, p: int, acc: Seq<AVariantDef>)
    requires
        fits(ts, n),
    ensures
        grammar::variants_from(ts, p, acc) matches Err(d) ==> lies(d, n),
    decreases ts.len() - p,
{
    if !(grammar::tok_at(ts, p) is RBrace) {
        match grammar::ident(ts, p) {
            Ok((name, q)) => {
                lies_payload(n, ts, q);
                match grammar::forward(ts, grammar::payload(ts, q), q - 1) {
                    Ok((fields, s)) => {
                        let x = AVariantDef {
                        name,
                        fields,
                        span: grammar::span_at(ts, p).cover(grammar::prev_span(ts, s)),
                        };
                        if grammar::tok_at(ts, s) is Comma {
                            lies_variants_from(n, ts, s + 1, acc.push(x));
                        }
                    },
                    _ => {},
                }
            },
            _ => {},
        }
    }
}

proof fn lies_enum_def(n: nat, ts: Seq<KToken>, p: int)
    requires
        fits(ts, n),
    ensures
        grammar::enum_def(ts, p) matches Err(d) ==> lies(d, n),
{
    reveal(grammar::enum_def);
    match grammar::expect(ts, p, KTok::Enum, "`enum`"@) {
        Ok(p1) => {
            match grammar::ident(ts, p1) {
                Ok((name, p2)) => {
                    match grammar::expect(ts, p2, KTok::LBrace, "`{`"@) {
                        Ok(p3) => {
                            lies_variants_from(n, ts, p3, Seq::empty());
                        },
                        _ => {},
                    }
                },
                _ => {},
            }
        },
        _ => {},
    }
}

proof fn lies_const_def(n: nat, ts: Seq<KToken>, p: int)
    requires
        fits(ts, n),
    ensures
        grammar::const_def(ts, p) matches Err(d) ==> lies(d, n),
{
    reveal(grammar::const_def);
    match grammar::expect(ts, p, KTok::Const, "`const`"@) {
        Ok(p1) => {
            match grammar::ident(ts, p1) {
                Ok((name, p2)) => {
                    match grammar::expect(ts, p2, KTok::Colon, "`:`"@) {
                        Ok(p3) => {
                            lies_type_expr(n, ts, p3);
                            match grammar::type_expr(ts, p3) {
                                Ok((ty, q)) => {
                                    match grammar::expect(ts, q, KTok::Eq, "`=` in const"@) {
                                        Ok(q1) => {
                                            lies_expr(n, ts, q1);
                                        },
                                        _ => {},
                                    }
                                },
                                _ => {},
                            }
                        },
                        _ => {},
                    }
                },
                _ => {},
            }
        },
        _ => {},
    }
}

proof fn lies_use_from(n: nat, ts: Seq<KToken>, p: int, acc: Seq<Text>)
    requires
        fits(ts, n),
    ensures
        grammar::use_from(ts, p, acc) matches Err(d) ==> lies(d, n),
    decreases ts.len() - p,
{
    if !(!(grammar::tok_at(ts, p) is ColonColon)) {
        if !(grammar::tok_at(ts, p + 1) is Star) {
            match grammar::ident(ts, p + 1) {
                Ok((seg, q)) => {
                    lies_use_from(n, ts, q, acc.push(seg));
                },
                _ => {},
            }
        }
    }
}

proof fn lies_use_decl(n: nat, ts: Seq<KToken>, p: int)
    requires
        fits(ts, n),
    ensures
        grammar::use_decl(ts, p) matches Err(d) ==> lies(d, n),
{
    reveal(grammar::use_decl);
    match grammar::expect(ts, p, KTok::Use, "`use`"@) {
        Ok(p1) => {
            match grammar::ident(ts, p1) {
                Ok((first, p2)) => {
                    lies_use_from(n, ts, p2, seq![first]);
                },
                _ => {},
            }
        },
        _ => {},
    }
}

proof fn lies_mod_def(n: nat, ts: Seq<KToken>, p: int)
    requires
        fits(ts, n),
    ensures
        grammar::mod_def(ts, p) matches Err(d) ==> lies(d, n),
    decreases ts.len() - p, 0int,
{
    match grammar::expect(ts, p, KTok::Mod, "`mod`"@) {
        Ok(p1) => {
            match grammar::ident(ts, p1) {
                Ok((name, p2)) => {
                    if !(grammar::tok_at(ts, p2) is Semi) {
                        match grammar::expect(
                            ts,
                            p2,
                            KTok::LBrace,
                            "`{` or `;` after module name"@,
                        ) {
                            Ok(p3) => {
                                lies_items_from(n, ts, p3, Seq::empty(), true);
                            },
                            _ => {},
                        }
                    }
                },
                _ => {},
            }
        },
        _ => {},
    }
}

proof fn lies_items_from(n: nat, ts: Seq<KToken>, p: int, acc: Seq<AItem>, inner: bool)
    requires
        fits(ts, n),
    ensures
        grammar::items_from(ts, p, acc, inner) matches Err(d) ==> lies(d, n),
    decreases ts.len() - p, 2int,
{
    if !(grammar::tok_at(ts, p) is Eof || (inner && grammar::tok_at(ts, p) is RBrace)) {
        lies_item(n, ts, p);
        match grammar::forward(ts, grammar::item(ts, p), p) {
            Ok((x, q)) => {
                lies_items_from(n, ts, q, acc.push(x), inner);
            },
            _ => {},
        }
    }
}

proof fn lies_item(n: nat, ts: Seq<KToken>, p: int)
    requires
        fits(ts, n),
    ensures
        grammar::item(ts, p) matches Err(d) ==> lies(d, n),
    decreases ts.len() - p, 1int,
{
    match grammar::tok_at(ts, p) {
        KTok::Fn => {
            lies_func(n, ts, p);
        },
        KTok::Struct => {
            lies_struct_def(n, ts, p);
        },
        KTok::Enum => {
            lies_enum_def(n, ts, p);
        },
        KTok::Const => {
            lies_const_def(n, ts, p);
        },
        KTok::Mod => {
            lies_mod_def(n, ts, p);
        },
        KTok::Use => {
            lies_use_decl(n, ts, p);
        },
        _ => {},
    }
}

proof fn lemma_items_end(ts: Seq<KToken>, p: int, acc: Seq<AItem>)
    requires
        0 <= p <= ts.len(),
    ensures
        grammar::items_from(ts, p, acc, false) matches Ok((_, q)) ==> p <= q <= ts.len()
            && grammar::tok_at(ts, q) is Eof,
    decreases ts.len() - p,
{
    if !(grammar::tok_at(ts, p) is Eof) {
        match grammar::forward(ts, grammar::item(ts, p), p) {
            Ok((x, q)) => lemma_items_end(ts, q, acc.push(x)),
            Err(_) => {},
        }
    }
}

/// A program is accepted only as a whole: its items reach up to the end of input.
pub proof fn law_programs_are_read_to_the_end(ts: Seq<KToken>)
    requires
        ts.len() > 0,
        forall|k: int| 0 <= k < ts.len() - 1 ==> !((#[trigger] ts[k]).tok is Eof),
    ensures
        grammar::program(
            ts,
        ) matches Ok(p) ==> (grammar::items_from(ts, 0, Seq::empty(), false) matches Ok(
            (items, q),
        ) && items == p.items && q >= ts.len() - 1),
{
    lemma_items_end(ts, 0, Seq::empty());
}

/// A parse error lies in the text that the tokens come from.
#[verifier::rlimit(60)]
pub proof fn law_parse_errors_lie_in_the_source(src: Text)
    requires
        vstd::utf8::encode_utf8(src).len() <= usize::MAX,
    ensures
        lexer::tokens_of_text(src) matches Ok(ts) ==> (grammar::program(ts) matches Err(d) ==> lies(
            d,
            vstd::utf8::encode_utf8(src).len(),
        )),
{
    let b = vstd::utf8::encode_utf8(src);
    match lexer::tokens_of_text(src) {
        Ok(ts) => {
            pieces::law_text_falls_into_tokens(src);
            lies_items_from(b.len(), ts, 0, Seq::empty(), false);
        },
        Err(_) => {},
    }
}

} // verus!
