//! # Parser
//!
//! A hand-written recursive-descent parser with operator-precedence expression
//! parsing. It turns the token stream into a syntax tree, exactly as
//! [`crate::grammar`] states. Parse errors are structured [`Diagnostic`]s with
//! source spans.

use crate::ast::{self, ABlock, AElseBranch, AExpr, AItem, AMatchArm, AParam, APattern, AProgram, AStmt, ATypeExpr, AFieldDef, AVariantDef, BinOp, Block, ConstDef, ElseBranch, EnumDef, Expr, FieldDef, Func, Item, MatchArm, ModDef, Param, Pattern, Program, Stmt, StructDef, TypeExpr, UnOp, UseDecl, VariantDef};
use crate::diagnostic::{Diag, Diagnostic, Stage};
use crate::grammar::{self, is_uppercase, Parsed};
use crate::span::Span;
use crate::text::{self, cat2, cat4, chars_of, str_eq, usize_text, Text};
use crate::token::{self, KTok, KToken, Tok, Token};
use vstd::prelude::*;

verus! {

broadcast use {ast::group_model, ast::group_built, text::group_texts};

/// The tokens by view.
pub open spec fn toks(ts: Seq<Token>) -> Seq<KToken> {
    token::tokens_of(ts)
}

/// The tokens end with the end of input, and `p` is the position of one of them.
pub open spec fn ready(ts: Seq<Token>, p: int) -> bool {
    0 <= p < ts.len() && ts.last().tok is Eof
}

pub open spec fn seen<A: View>(r: Result<(A, usize), Diagnostic>) -> Parsed<A::V> {
    match r {
        Ok((a, q)) => Ok((a@, q as int)),
        Err(d) => Err(d@),
    }
}

pub open spec fn seen_opt<A: View>(r: Result<(Option<A>, usize), Diagnostic>) -> Parsed<
    Option<A::V>,
> {
    match r {
        Ok((Some(a), q)) => Ok((Some(a@), q as int)),
        Ok((None, q)) => Ok((None, q as int)),
        Err(d) => Err(d@),
    }
}

pub open spec fn seen_else(r: Result<(Option<Box<ElseBranch>>, usize), Diagnostic>) -> Parsed<
    Option<Box<AElseBranch>>,
> {
    match r {
        Ok((Some(b), q)) => Ok((Some(Box::new(b@)), q as int)),
        Ok((None, q)) => Ok((None, q as int)),
        Err(d) => Err(d@),
    }
}

pub open spec fn seen_names(r: Result<(Vec<String>, usize), Diagnostic>) -> Parsed<Seq<Text>> {
    match r {
        Ok((a, q)) => Ok((text::texts(a@), q as int)),
        Err(d) => Err(d@),
    }
}

pub open spec fn seen_use(r: Result<((Vec<String>, bool), usize), Diagnostic>) -> Parsed<
    (Seq<Text>, bool),
> {
    match r {
        Ok((a, q)) => Ok(((text::texts(a.0@), a.1), q as int)),
        Err(d) => Err(d@),
    }
}

pub open spec fn seen_exprs(r: Result<(Vec<Expr>, usize), Diagnostic>) -> Parsed<Seq<AExpr>> {
    match r {
        Ok((a, q)) => Ok((ast::exprs_of(a@), q as int)),
        Err(d) => Err(d@),
    }
}

pub open spec fn seen_inits(r: Result<(Vec<(String, Expr)>, usize), Diagnostic>) -> Parsed<
    Seq<(Text, AExpr)>,
> {
    match r {
        Ok((a, q)) => Ok((ast::inits_of(a@), q as int)),
        Err(d) => Err(d@),
    }
}

pub open spec fn seen_types(r: Result<((Vec<TypeExpr>, bool), usize), Diagnostic>) -> Parsed<
    (Seq<ATypeExpr>, bool),
> {
    match r {
        Ok((a, q)) => Ok(((ast::types_of(a.0@), a.1), q as int)),
        Err(d) => Err(d@),
    }
}

pub open spec fn seen_payload(r: Result<(Vec<TypeExpr>, usize), Diagnostic>) -> Parsed<
    Seq<ATypeExpr>,
> {
    match r {
        Ok((a, q)) => Ok((ast::types_of(a@), q as int)),
        Err(d) => Err(d@),
    }
}

pub open spec fn seen_patterns(r: Result<((Vec<Pattern>, bool), usize), Diagnostic>) -> Parsed<
    (Seq<APattern>, bool),
> {
    match r {
        Ok((a, q)) => Ok(((ast::patterns_of(a.0@), a.1), q as int)),
        Err(d) => Err(d@),
    }
}

pub open spec fn seen_alts(r: Result<(Vec<Pattern>, usize), Diagnostic>) -> Parsed<Seq<APattern>> {
    match r {
        Ok((a, q)) => Ok((ast::patterns_of(a@), q as int)),
        Err(d) => Err(d@),
    }
}

pub open spec fn seen_arms(r: Result<(Vec<MatchArm>, usize), Diagnostic>) -> Parsed<Seq<AMatchArm>> {
    match r {
        Ok((a, q)) => Ok((ast::arms_of(a@), q as int)),
        Err(d) => Err(d@),
    }
}

pub open spec fn seen_stmts(r: Result<(Vec<Stmt>, usize), Diagnostic>) -> Parsed<Seq<AStmt>> {
    match r {
        Ok((a, q)) => Ok((ast::stmts_of(a@), q as int)),
        Err(d) => Err(d@),
    }
}

pub open spec fn seen_body(r: Result<((Vec<Stmt>, Option<Box<Expr>>), usize), Diagnostic>) -> Parsed<
    (Seq<AStmt>, Option<Box<AExpr>>),
> {
    match r {
        Ok((a, q)) => Ok(
            (
                (
                    ast::stmts_of(a.0@),
                    match a.1 {
                        Some(e) => Some(Box::new(e@)),
                        None => None,
                    },
                ),
                q as int,
            ),
        ),
        Err(d) => Err(d@),
    }
}

pub open spec fn seen_params(r: Result<(Vec<Param>, usize), Diagnostic>) -> Parsed<Seq<AParam>> {
    match r {
        Ok((a, q)) => Ok((ast::params_of(a@), q as int)),
        Err(d) => Err(d@),
    }
}

pub open spec fn seen_fields(r: Result<(Vec<FieldDef>, usize), Diagnostic>) -> Parsed<
    Seq<AFieldDef>,
> {
    match r {
        Ok((a, q)) => Ok((ast::fields_of(a@), q as int)),
        Err(d) => Err(d@),
    }
}

pub open spec fn seen_variants(r: Result<(Vec<VariantDef>, usize), Diagnostic>) -> Parsed<
    Seq<AVariantDef>,
> {
    match r {
        Ok((a, q)) => Ok((ast::variants_of(a@), q as int)),
        Err(d) => Err(d@),
    }
}

pub open spec fn seen_items(r: Result<(Vec<Item>, usize), Diagnostic>) -> Parsed<Seq<AItem>> {
    match r {
        Ok((a, q)) => Ok((ast::items_of(a@), q as int)),
        Err(d) => Err(d@),
    }
}

// ---- token cursor helpers -----------------------------------------------

fn at(ts: &[Token], p: usize, t: &Tok) -> (r: bool)
    requires
        p < ts.len(),
    ensures
        r == (grammar::tok_at(toks(ts@), p as int) == t@),
{
    broadcast use token::group_tokens;

    assert(toks(ts@)[p as int] == ts[p as int]@);
    ts[p].tok.same(t)
}

fn is_eof(ts: &[Token], p: usize) -> (r: bool)
    requires
        p < ts.len(),
    ensures
        r == (grammar::tok_at(toks(ts@), p as int) is Eof),
        !r && ts@.last().tok is Eof ==> p + 1 < ts.len(),
{
    broadcast use token::group_tokens;

    reveal(Tok::model);
    assert(toks(ts@)[p as int] == ts[p as int]@);
    at(ts, p, &Tok::Eof)
}

fn span_of(ts: &[Token], p: usize) -> (r: Span)
    requires
        p < ts.len(),
    ensures
        r == grammar::span_at(toks(ts@), p as int),
{
    broadcast use token::group_tokens;

    assert(toks(ts@)[p as int] == ts[p as int]@);
    ts[p].span
}

fn prev_span(ts: &[Token], p: usize) -> (r: Span)
    requires
        p < ts.len(),
    ensures
        r == grammar::prev_span(toks(ts@), p as int),
{
    if p > 0 {
        span_of(ts, p - 1)
    } else {
        span_of(ts, 0)
    }
}

fn describe(ts: &[Token], p: usize) -> (r: String)
    requires
        p < ts.len(),
    ensures
        r@ == grammar::tok_at(toks(ts@), p as int).described(),
{
    broadcast use token::group_tokens;

    assert(toks(ts@)[p as int] == ts[p as int]@);
    ts[p].tok.describe()
}

fn err(ts: &[Token], p: usize, message: String) -> (r: Diagnostic)
    requires
        p < ts.len(),
    ensures
        r@ == (Diag {
            stage: Stage::Parse,
            message: message@,
            span: grammar::span_at(toks(ts@), p as int),
        }),
{
    Diagnostic::new(Stage::Parse, message, span_of(ts, p))
}

/// `prefix` and the token at `p`, as a parse error there.
fn unexpected(ts: &[Token], p: usize, prefix: &str) -> (r: Diagnostic)
    requires
        p < ts.len(),
    ensures
        r@ == (Diag {
            stage: Stage::Parse,
            message: prefix@ + grammar::tok_at(toks(ts@), p as int).described(),
            span: grammar::span_at(toks(ts@), p as int),
        }),
{
    let t = describe(ts, p);
    err(ts, p, cat2(prefix, t.as_str()))
}

proof fn lemma_not_last(ts: Seq<Token>, p: int)
    requires
        ready(ts, p),
        !(grammar::tok_at(toks(ts), p) is Eof),
    ensures
        p + 1 < ts.len(),
{
    broadcast use token::group_tokens;

    reveal(Tok::model);
    assert(toks(ts)[p] == ts[p]@);
}

fn expect(ts: &[Token], p: usize, t: &Tok, what: &str) -> (r: Result<usize, Diagnostic>)
    requires
        ready(ts@, p as int),
        !(t@ is Eof),
    ensures
        match r {
            Ok(q) => grammar::expect(toks(ts@), p as int, t@, what@) == Ok::<int, Diag>(q as int)
                && q == p + 1 && q < ts.len(),
            Err(d) => grammar::expect(toks(ts@), p as int, t@, what@) == Err::<int, Diag>(d@),
        },
{
    if at(ts, p, t) {
        proof {
            lemma_not_last(ts@, p as int);
        }
        Ok(p + 1)
    } else {
        let f = describe(ts, p);
        Err(err(ts, p, cat4("expected ", what, ", found ", f.as_str())))
    }
}

/// Whether `t` stands at `p`; it is then not the last token.
fn sees(ts: &[Token], p: usize, t: &Tok) -> (r: bool)
    requires
        ready(ts@, p as int),
        !(t@ is Eof),
    ensures
        r == (grammar::tok_at(toks(ts@), p as int) == t@),
        r ==> p + 1 < ts.len(),
{
    if at(ts, p, t) {
        proof {
            lemma_not_last(ts@, p as int);
        }
        true
    } else {
        false
    }
}

fn ident(ts: &[Token], p: usize) -> (r: Result<(String, usize), Diagnostic>)
    requires
        ready(ts@, p as int),
    ensures
        seen(r) == grammar::ident(toks(ts@), p as int),
        r matches Ok((_, q)) ==> q == p + 1 && q < ts.len(),
{
    match name_at(ts, p) {
        Some(name) => Ok((name.clone(), p + 1)),
        None => Err(unexpected(ts, p, "expected identifier, found ")),
    }
}

fn int_literal(ts: &[Token], p: usize, what: &str) -> (r: Result<(i128, usize), Diagnostic>)
    requires
        ready(ts@, p as int),
    ensures
        match r {
            Ok((v, q)) => grammar::int_literal(toks(ts@), p as int, what@) == Ok::<
                (i128, int),
                Diag,
            >((v, q as int)) && q == p + 1 && q < ts.len(),
            Err(d) => grammar::int_literal(toks(ts@), p as int, what@) == Err::<(i128, int), Diag>(
                d@,
            ),
        },
{
    match int_at(ts, p) {
        Some(v) => Ok((v, p + 1)),
        None => {
            let f = describe(ts, p);
            Err(
                err(
                    ts,
                    p,
                    cat4("expected ", what, " (integer literal), found ", f.as_str()),
                ),
            )
        },
    }
}

/// The value of the integer literal at `p`.
fn int_at(ts: &[Token], p: usize) -> (r: Option<i128>)
    requires
        ready(ts@, p as int),
    ensures
        match r {
            Some(v) => grammar::tok_at(toks(ts@), p as int) == KTok::Int(v) && p + 1 < ts.len(),
            None => !(grammar::tok_at(toks(ts@), p as int) is Int),
        },
{
    broadcast use token::group_tokens;

    reveal(Tok::model);
    assert(toks(ts@)[p as int] == ts[p as int]@);
    match &ts[p].tok {
        Tok::Int(v) => {
            proof {
                lemma_not_last(ts@, p as int);
            }
            Some(*v)
        },
        _ => None,
    }
}

/// The machine integer type at `p`.
fn int_type_at(ts: &[Token], p: usize) -> (r: Option<(bool, u32)>)
    requires
        ready(ts@, p as int),
    ensures
        match r {
            Some((s, w)) => grammar::tok_at(toks(ts@), p as int) == KTok::IntTy(s, w) && p + 1
                < ts.len(),
            None => !(grammar::tok_at(toks(ts@), p as int) is IntTy),
        },
{
    broadcast use token::group_tokens;

    reveal(Tok::model);
    assert(toks(ts@)[p as int] == ts[p as int]@);
    match &ts[p].tok {
        Tok::IntTy(s, w) => {
            proof {
                lemma_not_last(ts@, p as int);
            }
            Some((*s, *w))
        },
        _ => None,
    }
}

/// The identifier at `p`.
fn name_at<'a>(ts: &'a [Token], p: usize) -> (r: Option<&'a String>)
    requires
        ready(ts@, p as int),
    ensures
        match r {
            Some(n) => grammar::tok_at(toks(ts@), p as int) == KTok::Ident(n@) && p + 1 < ts.len(),
            None => !(grammar::tok_at(toks(ts@), p as int) is Ident),
        },
{
    broadcast use token::group_tokens;

    reveal(Tok::model);
    assert(toks(ts@)[p as int] == ts[p as int]@);
    match &ts[p].tok {
        Tok::Ident(n) => {
            proof {
                lemma_not_last(ts@, p as int);
            }
            Some(n)
        },
        _ => None,
    }
}

/// Parse a `::`-separated path starting at an identifier.
#[verifier::loop_isolation(false)]
fn name_path(ts: &[Token], p: usize) -> (r: Result<(Vec<String>, usize), Diagnostic>)
    requires
        ready(ts@, p as int),
    ensures
        seen_names(r) == grammar::name_path(toks(ts@), p as int),
        r matches Ok((_, q)) ==> p < q < ts.len(),
    decreases ts.len() - p, 0int,
{
    proof {
        token::lemma_plain_tokens();
    }
    let (first, p1) = ident(ts, p)?;
    let mut segs: Vec<String> = Vec::new();
    segs.push(first);
    assert(text::texts(segs@) =~= seq![first@]);
    let mut q: usize = p1;
    while sees(ts, q, &Tok::ColonColon)
        invariant
            p < q < ts.len(),
            ready(ts@, p as int),
            grammar::name_path(toks(ts@), p as int) == grammar::path_from(
                toks(ts@),
                q as int,
                text::texts(segs@),
            ),
        decreases ts.len() - q,
    {
        let (seg, q1) = ident(ts, q + 1)?;
        segs.push(seg);
        q = q1;
    }
    Ok((segs, q))
}

// ---- types --------------------------------------------------------------

#[verifier::loop_isolation(false)]
fn types_list(ts: &[Token], p: usize) -> (r: Result<((Vec<TypeExpr>, bool), usize), Diagnostic>)
    requires
        ready(ts@, p as int),
    ensures
        seen_types(r) == grammar::types_from(toks(ts@), p as int, Seq::empty(), false),
        r matches Ok((_, q)) ==> p <= q < ts.len(),
    decreases ts.len() - p, 1int,
{
    proof {
        token::lemma_plain_tokens();
    }
    let mut acc: Vec<TypeExpr> = Vec::new();
    assert(ast::types_of(acc@) =~= Seq::<ATypeExpr>::empty());
    let mut comma = false;
    let mut q: usize = p;
    while !at(ts, q, &Tok::RParen)
        invariant
            p <= q < ts.len(),
            ready(ts@, p as int),
            grammar::types_from(toks(ts@), p as int, Seq::empty(), false) == grammar::types_from(
                toks(ts@),
                q as int,
                ast::types_of(acc@),
                comma,
            ),
        decreases ts.len() - q,
    {
        let ghost before = ast::types_of(acc@);
        let (t, r) = type_expr(ts, q)?;
        acc.push(t);
        assert(ast::types_of(acc@) =~= before.push(t@));
        if sees(ts, r, &Tok::Comma) {
            comma = true;
            q = r + 1;
        } else {
            return Ok(((acc, false), r));
        }
    }
    Ok(((acc, comma), q))
}

fn range_error(message: &str, start: Span, end: Span) -> (r: Diagnostic)
    ensures
        r@ == (Diag { stage: Stage::Parse, message: message@, span: start.cover(end) }),
{
    Diagnostic::new(Stage::Parse, message.to_string(), start.merge(end))
}

fn type_expr(ts: &[Token], p: usize) -> (r: Result<(TypeExpr, usize), Diagnostic>)
    requires
        ready(ts@, p as int),
    ensures
        seen(r) == grammar::type_expr(toks(ts@), p as int),
        r matches Ok((_, q)) ==> p < q < ts.len(),
    decreases ts.len() - p, 0int,
{
    proof {
        token::lemma_plain_tokens();
    }
    let span = span_of(ts, p);
    if sees(ts, p, &Tok::Bool) {
        proof {
            ast::lemma_plain_nodes();
        }
        return Ok((TypeExpr::Bool, p + 1));
    }
    if let Some((signed, width)) = int_type_at(ts, p) {
        return Ok((TypeExpr::Int { signed, width }, p + 1));
    }
    if sees(ts, p, &Tok::Bit) {
        let q = expect(ts, p + 1, &Tok::Lt, "`<`")?;
        let (width, r) = int_literal(ts, q, "bit width")?;
        let s = expect(ts, r, &Tok::Gt, "`>`")?;
        if width <= 0 || width > 128 {
            return Err(range_error("bit<N> width must be in 1..=128", span, prev_span(ts, s)));
        }
        return Ok((TypeExpr::Bit { width: width as u32 }, s));
    }
    if sees(ts, p, &Tok::LBracket) {
        let (elem, q) = type_expr(ts, p + 1)?;
        let r = expect(ts, q, &Tok::Semi, "`;`")?;
        let (len, s) = int_literal(ts, r, "array length")?;
        let e = expect(ts, s, &Tok::RBracket, "`]`")?;
        if len < 0 {
            return Err(range_error("array length must be non-negative", span, prev_span(ts, e)));
        }
        return Ok((TypeExpr::Array { elem: Box::new(elem), len: len as u64 }, e));
    }
    if sees(ts, p, &Tok::LParen) {
        if sees(ts, p + 1, &Tok::RParen) {
            proof {
                ast::lemma_plain_nodes();
            }
            return Ok((TypeExpr::Unit, p + 2));
        }
        let ((elems, comma), q) = types_list(ts, p + 1)?;
        let r = expect(ts, q, &Tok::RParen, "`)` in type")?;
        if elems.len() == 1 && !comma {
            let mut es = elems;
            assert(ast::types_of(es@)[0] == es[0]@);
            let only = es.swap_remove(0);
            return Ok((only, r));
        }
        return Ok((TypeExpr::Tuple(elems), r));
    }
    if let Some(_) = name_at(ts, p) {
        let (segs, q) = name_path(ts, p)?;
        return Ok((TypeExpr::Named(segs), q));
    }
    Err(unexpected(ts, p, "expected a type, found "))
}

// ---- patterns -----------------------------------------------------------

fn last_upper(segs: &Vec<String>) -> (r: bool)
    ensures
        r == grammar::last_upper(text::texts(segs@)),
{
    if segs.len() == 0 {
        return false;
    }
    let cs = chars_of(segs[segs.len() - 1].as_str());
    assert(text::texts(segs@).last() == segs[segs.len() - 1]@);
    if cs.len() == 0 {
        return false;
    }
    is_uppercase(cs[0])
}

/// Parse an optionally-negated integer literal (a range or integer pattern bound).
fn int_signed_pattern(ts: &[Token], p: usize) -> (r: Result<(i128, usize), Diagnostic>)
    requires
        ready(ts@, p as int),
    ensures
        match r {
            Ok((v, q)) => grammar::signed_literal(toks(ts@), p as int) == Ok::<(i128, int), Diag>(
                (v, q as int),
            ) && p < q < ts.len(),
            Err(d) => grammar::signed_literal(toks(ts@), p as int) == Err::<(i128, int), Diag>(d@),
        },
{
    proof {
        token::lemma_plain_tokens();
    }
    if sees(ts, p, &Tok::Minus) {
        let (v, q) = int_literal(ts, p + 1, "integer pattern")?;
        if v == i128::MIN {
            Ok((v, q))
        } else {
            Ok((-v, q))
        }
    } else {
        int_literal(ts, p, "integer pattern")
    }
}

#[verifier::loop_isolation(false)]
fn patterns_list(ts: &[Token], p: usize) -> (r: Result<((Vec<Pattern>, bool), usize), Diagnostic>)
    requires
        ready(ts@, p as int),
    ensures
        seen_patterns(r) == grammar::patterns_from(toks(ts@), p as int, Seq::empty(), false),
        r matches Ok((_, q)) ==> p <= q < ts.len(),
    decreases ts.len() - p, 2int,
{
    proof {
        token::lemma_plain_tokens();
    }
    let mut acc: Vec<Pattern> = Vec::new();
    assert(ast::patterns_of(acc@) =~= Seq::<APattern>::empty());
    let mut comma = false;
    let mut q: usize = p;
    while !at(ts, q, &Tok::RParen)
        invariant
            p <= q < ts.len(),
            ready(ts@, p as int),
            grammar::patterns_from(toks(ts@), p as int, Seq::empty(), false)
                == grammar::patterns_from(toks(ts@), q as int, ast::patterns_of(acc@), comma),
        decreases ts.len() - q,
    {
        let ghost before = ast::patterns_of(acc@);
        let (x, r) = pattern(ts, q)?;
        acc.push(x);
        assert(ast::patterns_of(acc@) =~= before.push(x@));
        if sees(ts, r, &Tok::Comma) {
            comma = true;
            q = r + 1;
        } else {
            return Ok(((acc, false), r));
        }
    }
    Ok(((acc, comma), q))
}

/// Parse a full pattern, with top-level alternatives `p | q | ...`.
fn pattern(ts: &[Token], p: usize) -> (r: Result<(Pattern, usize), Diagnostic>)
    requires
        ready(ts@, p as int),
    ensures
        seen(r) == grammar::pattern(toks(ts@), p as int),
        r matches Ok((_, q)) ==> p < q < ts.len(),
    decreases ts.len() - p, 1int,
{
    proof {
        token::lemma_plain_tokens();
    }
    let start = span_of(ts, p);
    let (first, q) = pattern_primary(ts, p)?;
    if at(ts, q, &Tok::Pipe) {
        let (alts, r) = alternatives(ts, q, first)?;
        Ok((Pattern::Or { alts, span: start.merge(prev_span(ts, r)) }, r))
    } else {
        Ok((first, q))
    }
}

#[verifier::loop_isolation(false)]
fn alternatives(ts: &[Token], p: usize, first: Pattern) -> (r: Result<(Vec<Pattern>, usize), Diagnostic>)
    requires
        ready(ts@, p as int),
    ensures
        seen_alts(r) == grammar::alts_from(toks(ts@), p as int, seq![first@]),
        r matches Ok((_, q)) ==> p <= q < ts.len(),
    decreases ts.len() - p, 2int,
{
    proof {
        token::lemma_plain_tokens();
    }
    let mut alts: Vec<Pattern> = Vec::new();
    alts.push(first);
    assert(ast::patterns_of(alts@) =~= seq![first@]);
    let mut q: usize = p;
    while sees(ts, q, &Tok::Pipe)
        invariant
            p <= q < ts.len(),
            ready(ts@, p as int),
            grammar::alts_from(toks(ts@), p as int, seq![first@]) == grammar::alts_from(
                toks(ts@),
                q as int,
                ast::patterns_of(alts@),
            ),
        decreases ts.len() - q,
    {
        let ghost before = ast::patterns_of(alts@);
        let (x, r) = pattern_primary(ts, q + 1)?;
        alts.push(x);
        assert(ast::patterns_of(alts@) =~= before.push(x@));
        q = r;
    }
    Ok((alts, q))
}

fn pattern_primary(ts: &[Token], p: usize) -> (r: Result<(Pattern, usize), Diagnostic>)
    requires
        ready(ts@, p as int),
    ensures
        seen(r) == grammar::pattern_primary(toks(ts@), p as int),
        r matches Ok((_, q)) ==> p < q < ts.len(),
    decreases ts.len() - p, 0int,
{
    proof {
        token::lemma_plain_tokens();
    }
    let span = span_of(ts, p);
    if let Some(name) = name_at(ts, p) {
        if str_eq(name.as_str(), "_") {
            return Ok((Pattern::Wildcard { span }, p + 1));
        }
        let (segs, q) = name_path(ts, p)?;
        if sees(ts, q, &Tok::LParen) {
            let ((subpatterns, _), r) = patterns_list(ts, q + 1)?;
            let e = expect(ts, r, &Tok::RParen, "`)`")?;
            let span = span.merge(prev_span(ts, e));
            return Ok((Pattern::Variant { path: segs, subpatterns, span }, e));
        }
        if segs.len() > 1 || last_upper(&segs) {
            let subpatterns: Vec<Pattern> = Vec::new();
            assert(ast::patterns_of(subpatterns@) =~= Seq::<APattern>::empty());
            let span = span.merge(prev_span(ts, q));
            return Ok((Pattern::Variant { path: segs, subpatterns, span }, q));
        }
        assert(segs.len() >= 1) by {
            lemma_path_len(toks(ts@), p as int);
        }
        let name = segs[0].clone();
        return Ok((Pattern::Binding { name, span }, q));
    }
    if sees(ts, p, &Tok::True) {
        return Ok((Pattern::Bool { value: true, span }, p + 1));
    }
    if sees(ts, p, &Tok::False) {
        return Ok((Pattern::Bool { value: false, span }, p + 1));
    }
    if sees(ts, p, &Tok::LParen) {
        let ((elems, comma), q) = patterns_list(ts, p + 1)?;
        let r = expect(ts, q, &Tok::RParen, "`)`")?;
        if elems.len() == 1 && !comma {
            let mut es = elems;
            assert(ast::patterns_of(es@)[0] == es[0]@);
            let only = es.swap_remove(0);
            return Ok((only, r));
        }
        return Ok((Pattern::Tuple { elems, span: span.merge(prev_span(ts, r)) }, r));
    }
    let minus = at(ts, p, &Tok::Minus);
    let literal = int_at(ts, p);
    if minus || literal.is_some() {
        let (lo, q) = int_signed_pattern(ts, p)?;
        let inclusive = sees(ts, q, &Tok::DotDotEq);
        if inclusive || sees(ts, q, &Tok::DotDot) {
            let (hi, r) = int_signed_pattern(ts, q + 1)?;
            let span = span.merge(prev_span(ts, r));
            return Ok((Pattern::Range { lo, hi, inclusive, span }, r));
        }
        return Ok((Pattern::Int { value: lo, span: span.merge(prev_span(ts, q)) }, q));
    }
    Err(unexpected(ts, p, "expected a pattern, found "))
}

proof fn lemma_path_len(ts: Seq<KToken>, p: int)
    ensures
        grammar::name_path(ts, p) matches Ok((segs, _)) ==> segs.len() >= 1,
{
    match grammar::ident(ts, p) {
        Ok((first, q)) => {
            lemma_path_from_len(ts, q, seq![first]);
        },
        Err(_) => {},
    }
}

proof fn lemma_path_from_len(ts: Seq<KToken>, p: int, acc: Seq<Text>)
    ensures
        grammar::path_from(ts, p, acc) matches Ok((segs, _)) ==> segs.len() >= acc.len(),
    decreases ts.len() - p,
{
    if grammar::tok_at(ts, p) is ColonColon {
        match grammar::ident(ts, p + 1) {
            Ok((seg, q)) => {
                lemma_path_from_len(ts, q, acc.push(seg));
            },
            Err(_) => {},
        }
    }
}

// ---- operators ----------------------------------------------------------

fn binop(t: &Tok) -> (r: Option<BinOp>)
    ensures
        r == grammar::infix_op(t@),
{
    reveal(Tok::model);
    match t {
        Tok::Plus => Some(BinOp::Add),
        Tok::Minus => Some(BinOp::Sub),
        Tok::Star => Some(BinOp::Mul),
        Tok::Slash => Some(BinOp::Div),
        Tok::Percent => Some(BinOp::Rem),
        Tok::AndAnd => Some(BinOp::And),
        Tok::OrOr => Some(BinOp::Or),
        Tok::Amp => Some(BinOp::BitAnd),
        Tok::Pipe => Some(BinOp::BitOr),
        Tok::Caret => Some(BinOp::BitXor),
        Tok::Shl => Some(BinOp::Shl),
        Tok::Shr => Some(BinOp::Shr),
        Tok::EqEq => Some(BinOp::Eq),
        Tok::Ne => Some(BinOp::Ne),
        Tok::Lt => Some(BinOp::Lt),
        Tok::Le => Some(BinOp::Le),
        Tok::Gt => Some(BinOp::Gt),
        Tok::Ge => Some(BinOp::Ge),
        _ => None,
    }
}

/// Binding powers for infix operators (left, right). Higher binds tighter.
fn infix_bp(op: BinOp) -> (r: (u8, u8))
    ensures
        r.0 == grammar::binding(op),
        r.1 == grammar::binding(op) + 1,
{
    match op {
        BinOp::Or => (1, 2),
        BinOp::And => (3, 4),
        BinOp::Eq => (5, 6),
        BinOp::Ne => (5, 6),
        BinOp::Lt => (5, 6),
        BinOp::Le => (5, 6),
        BinOp::Gt => (5, 6),
        BinOp::Ge => (5, 6),
        BinOp::BitOr => (7, 8),
        BinOp::BitXor => (9, 10),
        BinOp::BitAnd => (11, 12),
        BinOp::Shl => (13, 14),
        BinOp::Shr => (13, 14),
        BinOp::Add => (15, 16),
        BinOp::Sub => (15, 16),
        BinOp::Mul => (17, 18),
        BinOp::Div => (17, 18),
        BinOp::Rem => (17, 18),
    }
}

// ---- expressions --------------------------------------------------------

fn expr(ts: &[Token], p: usize) -> (r: Result<(Expr, usize), Diagnostic>)
    requires
        ready(ts@, p as int),
    ensures
        seen(r) == grammar::expr(toks(ts@), p as int),
        r matches Ok((_, q)) ==> p < q < ts.len(),
    decreases ts.len() - p, 5int,
{
    proof {
        token::lemma_plain_tokens();
    }
    expr_bp(ts, p, 0, true)
}

#[verifier::loop_isolation(false)]
fn expr_bp(ts: &[Token], p: usize, min_bp: u8, allow: bool) -> (r: Result<(Expr, usize), Diagnostic>)
    requires
        ready(ts@, p as int),
    ensures
        seen(r) == grammar::expr_bp(toks(ts@), p as int, min_bp as int, allow),
        r matches Ok((_, q)) ==> p < q < ts.len(),
    decreases ts.len() - p, 4int,
{
    proof {
        token::lemma_plain_tokens();
    }
    broadcast use token::group_tokens;

    let (first, p1) = prefix(ts, p, allow)?;
    let mut lhs = first;
    let mut q: usize = p1;
    loop
        invariant
            p < q < ts.len(),
            ready(ts@, p as int),
            grammar::expr_bp(toks(ts@), p as int, min_bp as int, allow) == grammar::infix_from(
                toks(ts@),
                q as int,
                lhs@,
                min_bp as int,
                allow,
            ),
        decreases ts.len() - q,
    {
        assert(toks(ts@)[q as int] == ts[q as int]@);
        match binop(&ts[q].tok) {
            None => {
                return Ok((lhs, q));
            },
            Some(op) => {
                let (lbp, rbp) = infix_bp(op);
                if lbp < min_bp {
                    return Ok((lhs, q));
                }
                proof {
                    lemma_not_last(ts@, q as int);
                }
                let (rhs, r) = expr_bp(ts, q + 1, rbp, allow)?;
                let span = lhs.span().merge(rhs.span());
                lhs = Expr::Binary { op, lhs: Box::new(lhs), rhs: Box::new(rhs), span };
                q = r;
            },
        }
    }
}

fn prefix(ts: &[Token], p: usize, allow: bool) -> (r: Result<(Expr, usize), Diagnostic>)
    requires
        ready(ts@, p as int),
    ensures
        seen(r) == grammar::prefix(toks(ts@), p as int, allow),
        r matches Ok((_, q)) ==> p < q < ts.len(),
    decreases ts.len() - p, 3int,
{
    proof {
        token::lemma_plain_tokens();
    }
    let start = span_of(ts, p);
    if sees(ts, p, &Tok::Minus) {
        let (e, q) = prefix(ts, p + 1, allow)?;
        let span = start.merge(e.span());
        Ok((Expr::Unary { op: UnOp::Neg, expr: Box::new(e), span }, q))
    } else if sees(ts, p, &Tok::Bang) {
        let (e, q) = prefix(ts, p + 1, allow)?;
        let span = start.merge(e.span());
        Ok((Expr::Unary { op: UnOp::Not, expr: Box::new(e), span }, q))
    } else {
        postfix(ts, p, allow)
    }
}

#[verifier::loop_isolation(false)]
fn postfix(ts: &[Token], p: usize, allow: bool) -> (r: Result<(Expr, usize), Diagnostic>)
    requires
        ready(ts@, p as int),
    ensures
        seen(r) == grammar::postfix(toks(ts@), p as int, allow),
        r matches Ok((_, q)) ==> p < q < ts.len(),
    decreases ts.len() - p, 2int,
{
    proof {
        token::lemma_plain_tokens();
    }
    broadcast use token::group_tokens;

    let (first, p1) = atom(ts, p, allow)?;
    let mut e = first;
    let mut q: usize = p1;
    loop
        invariant
            p < q < ts.len(),
            ready(ts@, p as int),
            grammar::postfix(toks(ts@), p as int, allow) == grammar::postfix_from(
                toks(ts@),
                q as int,
                e@,
            ),
        decreases ts.len() - q,
    {
        if sees(ts, q, &Tok::LParen) {
            let (args, r) = exprs_list(ts, q + 1, &Tok::RParen)?;
            let s = expect(ts, r, &Tok::RParen, "`)`")?;
            let span = e.span().merge(prev_span(ts, s));
            e = Expr::Call { callee: Box::new(e), args, span };
            q = s;
        } else if sees(ts, q, &Tok::Dot) {
            match int_at(ts, q + 1) {
                Some(idx) => {
                    let span = e.span().merge(prev_span(ts, q + 2));
                    e = Expr::TupleField { base: Box::new(e), index: idx as u64, span };
                    q = q + 2;
                },
                None => {
                    let (field, r) = ident(ts, q + 1)?;
                    let span = e.span().merge(prev_span(ts, r));
                    e = Expr::Field { base: Box::new(e), field, span };
                    q = r;
                },
            }
        } else if sees(ts, q, &Tok::LBracket) {
            let (index, r) = expr(ts, q + 1)?;
            let s = expect(ts, r, &Tok::RBracket, "`]`")?;
            let span = e.span().merge(prev_span(ts, s));
            e = Expr::Index { base: Box::new(e), index: Box::new(index), span };
            q = s;
        } else {
            return Ok((e, q));
        }
    }
}

#[verifier::loop_isolation(false)]
fn exprs_list(ts: &[Token], p: usize, close: &Tok) -> (r: Result<(Vec<Expr>, usize), Diagnostic>)
    requires
        ready(ts@, p as int),
    ensures
        seen_exprs(r) == grammar::exprs_from(toks(ts@), p as int, close@, Seq::empty()),
        r matches Ok((_, q)) ==> p <= q < ts.len(),
    decreases ts.len() - p, 6int,
{
    proof {
        token::lemma_plain_tokens();
    }
    let mut acc: Vec<Expr> = Vec::new();
    assert(ast::exprs_of(acc@) =~= Seq::<AExpr>::empty());
    let mut q: usize = p;
    while !at(ts, q, close)
        invariant
            p <= q < ts.len(),
            ready(ts@, p as int),
            grammar::exprs_from(toks(ts@), p as int, close@, Seq::empty()) == grammar::exprs_from(
                toks(ts@),
                q as int,
                close@,
                ast::exprs_of(acc@),
            ),
        decreases ts.len() - q,
    {
        let ghost before = ast::exprs_of(acc@);
        let (e, r) = expr(ts, q)?;
        acc.push(e);
        assert(ast::exprs_of(acc@) =~= before.push(e@));
        if sees(ts, r, &Tok::Comma) {
            q = r + 1;
        } else {
            return Ok((acc, r));
        }
    }
    Ok((acc, q))
}

#[verifier::loop_isolation(false)]
fn tuple_rest(ts: &[Token], p: usize, first: Expr) -> (r: Result<(Vec<Expr>, usize), Diagnostic>)
    requires
        ready(ts@, p as int),
    ensures
        seen_exprs(r) == grammar::tuple_from(toks(ts@), p as int, seq![first@]),
        r matches Ok((_, q)) ==> p <= q < ts.len(),
    decreases ts.len() - p, 6int,
{
    proof {
        token::lemma_plain_tokens();
    }
    let mut acc: Vec<Expr> = Vec::new();
    acc.push(first);
    assert(ast::exprs_of(acc@) =~= seq![first@]);
    let mut q: usize = p;
    while sees(ts, q, &Tok::Comma)
        invariant
            p <= q < ts.len(),
            ready(ts@, p as int),
            grammar::tuple_from(toks(ts@), p as int, seq![first@]) == grammar::tuple_from(
                toks(ts@),
                q as int,
                ast::exprs_of(acc@),
            ),
        decreases ts.len() - q,
    {
        if at(ts, q + 1, &Tok::RParen) {
            return Ok((acc, q + 1));
        }
        let ghost before = ast::exprs_of(acc@);
        let (e, r) = expr(ts, q + 1)?;
        acc.push(e);
        assert(ast::exprs_of(acc@) =~= before.push(e@));
        q = r;
    }
    Ok((acc, q))
}

#[verifier::loop_isolation(false)]
fn inits_list(ts: &[Token], p: usize) -> (r: Result<(Vec<(String, Expr)>, usize), Diagnostic>)
    requires
        ready(ts@, p as int),
    ensures
        seen_inits(r) == grammar::inits_from(toks(ts@), p as int, Seq::empty()),
        r matches Ok((_, q)) ==> p <= q < ts.len(),
    decreases ts.len() - p, 6int,
{
    proof {
        token::lemma_plain_tokens();
    }
    let mut acc: Vec<(String, Expr)> = Vec::new();
    assert(ast::inits_of(acc@) =~= Seq::<(Text, AExpr)>::empty());
    let mut q: usize = p;
    while !at(ts, q, &Tok::RBrace)
        invariant
            p <= q < ts.len(),
            ready(ts@, p as int),
            grammar::inits_from(toks(ts@), p as int, Seq::empty()) == grammar::inits_from(
                toks(ts@),
                q as int,
                ast::inits_of(acc@),
            ),
        decreases ts.len() - q,
    {
        let ghost before = ast::inits_of(acc@);
        let (name, q1) = ident(ts, q)?;
        let q2 = expect(ts, q1, &Tok::Colon, "`:` in struct field")?;
        let (e, r) = expr(ts, q2)?;
        let ghost added = (name@, e@);
        acc.push((name, e));
        assert(ast::inits_of(acc@) =~= before.push(added));
        if sees(ts, r, &Tok::Comma) {
            q = r + 1;
        } else {
            return Ok((acc, r));
        }
    }
    Ok((acc, q))
}

fn struct_lit(ts: &[Token], p: usize, path: Vec<String>, start: Span) -> (r: Result<(Expr, usize), Diagnostic>)
    requires
        ready(ts@, p as int),
    ensures
        seen(r) == grammar::struct_lit(toks(ts@), p as int, text::texts(path@), start),
        r matches Ok((_, q)) ==> p < q < ts.len(),
    decreases ts.len() - p, 0int,
{
    proof {
        token::lemma_plain_tokens();
    }
    let q = expect(ts, p, &Tok::LBrace, "`{`")?;
    let (fields, r) = inits_list(ts, q)?;
    let s = expect(ts, r, &Tok::RBrace, "`}`")?;
    Ok((Expr::StructLit { path, fields, span: start.merge(prev_span(ts, s)) }, s))
}

#[verifier::rlimit(50)]
fn atom(ts: &[Token], p: usize, allow: bool) -> (r: Result<(Expr, usize), Diagnostic>)
    requires
        ready(ts@, p as int),
    ensures
        seen(r) == grammar::atom(toks(ts@), p as int, allow),
        r matches Ok((_, q)) ==> p < q < ts.len(),
    decreases ts.len() - p, 1int,
{
    proof {
        token::lemma_plain_tokens();
    }
    let span = span_of(ts, p);
    if let Some(value) = int_at(ts, p) {
        return Ok((Expr::Int { value, span }, p + 1));
    }
    if sees(ts, p, &Tok::True) {
        return Ok((Expr::Bool { value: true, span }, p + 1));
    }
    if sees(ts, p, &Tok::False) {
        return Ok((Expr::Bool { value: false, span }, p + 1));
    }
    if let Some(_) = name_at(ts, p) {
        return name_atom(ts, p, allow);
    }
    if sees(ts, p, &Tok::LParen) {
        return paren_atom(ts, p, allow);
    }
    if sees(ts, p, &Tok::LBracket) {
        let (elems, q) = exprs_list(ts, p + 1, &Tok::RBracket)?;
        let r = expect(ts, q, &Tok::RBracket, "`]`")?;
        return Ok((Expr::Array { elems, span: span.merge(prev_span(ts, r)) }, r));
    }
    if sees(ts, p, &Tok::If) {
        return if_expr(ts, p);
    }
    if sees(ts, p, &Tok::Match) {
        return match_expr(ts, p);
    }
    if sees(ts, p, &Tok::LBrace) {
        let (b, q) = block(ts, p)?;
        return Ok((Expr::Block(b), q));
    }
    Err(unexpected(ts, p, "expected an expression, found "))
}

/// A name, path or struct literal.
fn name_atom(ts: &[Token], p: usize, allow: bool) -> (r: Result<(Expr, usize), Diagnostic>)
    requires
        ready(ts@, p as int),
        grammar::tok_at(toks(ts@), p as int) is Ident,
    ensures
        seen(r) == grammar::atom(toks(ts@), p as int, allow),
        r matches Ok((_, q)) ==> p < q < ts.len(),
    decreases ts.len() - p, 0int,
{
    proof {
        token::lemma_plain_tokens();
    }
    let span = span_of(ts, p);
    let (segs, q) = name_path(ts, p)?;
    let whole = span.merge(prev_span(ts, q));
    if allow && sees(ts, q, &Tok::LBrace) && last_upper(&segs) {
        return struct_lit(ts, q, segs, whole);
    }
    if segs.len() == 1 {
        let name = segs[0].clone();
        return Ok((Expr::Ident { name, span: whole }, q));
    }
    Ok((Expr::Path { segments: segs, span: whole }, q))
}

/// The unit literal, a parenthesised expression or a tuple.
fn paren_atom(ts: &[Token], p: usize, allow: bool) -> (r: Result<(Expr, usize), Diagnostic>)
    requires
        ready(ts@, p as int),
grammar::tok_at(toks(ts@), p as int) is LParen,
    ensures
        seen(r) == grammar::atom(toks(ts@), p as int, allow),
        r matches Ok((_, q)) ==> p < q < ts.len(),
    decreases ts.len() - p, 0int,
{
    proof {
        token::lemma_plain_tokens();
    }
    let span = span_of(ts, p);
    proof {
        lemma_not_last(ts@, p as int);
    }
    if sees(ts, p + 1, &Tok::RParen) {
        let b = Block { stmts: Vec::new(), tail: None, span: span.merge(prev_span(ts, p + 2)) };
        assert(ast::stmts_of(b.stmts@) =~= Seq::<AStmt>::empty());
        assert(b@ == (ABlock { stmts: Seq::empty(), tail: None, span: b.span }));
        return Ok((Expr::Block(b), p + 2));
    }
    let (first, q) = expr(ts, p + 1)?;
    if at(ts, q, &Tok::Comma) {
        let (elems, r) = tuple_rest(ts, q, first)?;
        let s = expect(ts, r, &Tok::RParen, "`)`")?;
        Ok((Expr::Tuple { elems, span: span.merge(prev_span(ts, s)) }, s))
    } else {
        let r = expect(ts, q, &Tok::RParen, "`)`")?;
        Ok((first, r))
    }
}

fn else_part(ts: &[Token], p: usize) -> (r: Result<(Option<Box<ElseBranch>>, usize), Diagnostic>)
    requires
        ready(ts@, p as int),
    ensures
        seen_else(r) == grammar::else_part(toks(ts@), p as int),
        r matches Ok((_, q)) ==> p <= q < ts.len(),
    decreases ts.len() - p, 0int,
{
    proof {
        token::lemma_plain_tokens();
    }
    if !sees(ts, p, &Tok::Else) {
        return Ok((None, p));
    }
    if at(ts, p + 1, &Tok::If) {
        let (e, q) = if_expr(ts, p + 1)?;
        Ok((Some(Box::new(ElseBranch::If(e))), q))
    } else {
        let (b, q) = block(ts, p + 1)?;
        Ok((Some(Box::new(ElseBranch::Block(b))), q))
    }
}

fn if_expr(ts: &[Token], p: usize) -> (r: Result<(Expr, usize), Diagnostic>)
    requires
        ready(ts@, p as int),
    ensures
        seen(r) == grammar::if_expr(toks(ts@), p as int),
        r matches Ok((_, q)) ==> p < q < ts.len(),
    decreases ts.len() - p, 0int,
{
    proof {
        token::lemma_plain_tokens();
    }
    let start = span_of(ts, p);
    let p1 = expect(ts, p, &Tok::If, "`if`")?;
    let (cond, q) = expr_bp(ts, p1, 0, false)?;
    let (then_branch, r) = block(ts, q)?;
    let (else_branch, s) = else_part(ts, r)?;
    Ok(
        (
            Expr::If {
                cond: Box::new(cond),
                then_branch,
                else_branch,
                span: start.merge(prev_span(ts, s)),
            },
            s,
        ),
    )
}

fn guard(ts: &[Token], p: usize) -> (r: Result<(Option<Expr>, usize), Diagnostic>)
    requires
        ready(ts@, p as int),
    ensures
        seen_opt(r) == grammar::guard(toks(ts@), p as int),
        r matches Ok((_, q)) ==> p <= q < ts.len(),
    decreases ts.len() - p, 0int,
{
    proof {
        token::lemma_plain_tokens();
    }
    if sees(ts, p, &Tok::If) {
        let (g, q) = expr_bp(ts, p + 1, 0, false)?;
        Ok((Some(g), q))
    } else {
        Ok((None, p))
    }
}

#[verifier::rlimit(30)]
#[verifier::loop_isolation(false)]
fn arms_list(ts: &[Token], p: usize) -> (r: Result<(Vec<MatchArm>, usize), Diagnostic>)
    requires
        ready(ts@, p as int),
    ensures
        seen_arms(r) == grammar::arms_from(toks(ts@), p as int, Seq::empty()),
        r matches Ok((_, q)) ==> p <= q < ts.len(),
    decreases ts.len() - p, 6int,
{
    proof {
        token::lemma_plain_tokens();
    }
    let mut acc: Vec<MatchArm> = Vec::new();
    assert(ast::arms_of(acc@) =~= Seq::<AMatchArm>::empty());
    let mut q: usize = p;
    while !at(ts, q, &Tok::RBrace)
        invariant
            p <= q < ts.len(),
            ready(ts@, p as int),
            grammar::arms_from(toks(ts@), p as int, Seq::empty()) == grammar::arms_from(
                toks(ts@),
                q as int,
                ast::arms_of(acc@),
            ),
        decreases ts.len() - q,
    {
        let ghost before = ast::arms_of(acc@);
        let astart = span_of(ts, q);
        let (pat, q1) = pattern(ts, q)?;
        let (g, q2) = guard(ts, q1)?;
        let q3 = expect(ts, q2, &Tok::FatArrow, "`=>` in match arm")?;
        let (body, r) = expr(ts, q3)?;
        let arm = MatchArm { pattern: pat, guard: g, body, span: astart.merge(prev_span(ts, r)) };
        let ghost added = arm@;
        acc.push(arm);
        assert(ast::arms_of(acc@) =~= before.push(added));
        if sees(ts, r, &Tok::Comma) {
            q = r + 1;
        } else {
            return Ok((acc, r));
        }
    }
    Ok((acc, q))
}

fn match_expr(ts: &[Token], p: usize) -> (r: Result<(Expr, usize), Diagnostic>)
    requires
        ready(ts@, p as int),
    ensures
        seen(r) == grammar::match_expr(toks(ts@), p as int),
        r matches Ok((_, q)) ==> p < q < ts.len(),
    decreases ts.len() - p, 0int,
{
    proof {
        token::lemma_plain_tokens();
    }
    let start = span_of(ts, p);
    let p1 = expect(ts, p, &Tok::Match, "`match`")?;
    let (scrutinee, q) = expr_bp(ts, p1, 0, false)?;
    let r = expect(ts, q, &Tok::LBrace, "`{`")?;
    let (arms, s) = arms_list(ts, r)?;
    let e = expect(ts, s, &Tok::RBrace, "`}`")?;
    Ok(
        (
            Expr::Match {
                scrutinee: Box::new(scrutinee),
                arms,
                span: start.merge(prev_span(ts, e)),
            },
            e,
        ),
    )
}

// ---- statements ---------------------------------------------------------

/// `if`/`match`/`{...}` may appear as statements without a trailing `;`.
fn is_block_like(e: &Expr) -> (r: bool)
    ensures
        r == grammar::block_like(e@),
{
    reveal(Expr::model);
    match e {
        Expr::If { cond: _, then_branch: _, else_branch: _, span: _ } => true,
        Expr::Match { scrutinee: _, arms: _, span: _ } => true,
        Expr::Block(_) => true,
        _ => false,
    }
}

#[verifier::loop_isolation(false)]
fn names_list(ts: &[Token], p: usize) -> (r: Result<(Vec<String>, usize), Diagnostic>)
    requires
        ready(ts@, p as int),
    ensures
        seen_names(r) == grammar::names_from(toks(ts@), p as int, Seq::empty()),
        r matches Ok((_, q)) ==> p <= q < ts.len(),
    decreases ts.len() - p, 0int,
{
    proof {
        token::lemma_plain_tokens();
    }
    let mut acc: Vec<String> = Vec::new();
    assert(text::texts(acc@) =~= Seq::<Text>::empty());
    let mut q: usize = p;
    while !at(ts, q, &Tok::RParen)
        invariant
            p <= q < ts.len(),
            ready(ts@, p as int),
            grammar::names_from(toks(ts@), p as int, Seq::empty()) == grammar::names_from(
                toks(ts@),
                q as int,
                text::texts(acc@),
            ),
        decreases ts.len() - q,
    {
        let (n, r) = ident(ts, q)?;
        acc.push(n);
        if sees(ts, r, &Tok::Comma) {
            q = r + 1;
        } else {
            return Ok((acc, r));
        }
    }
    Ok((acc, q))
}

/// A tuple destructuring `let (a, b) = e;` stands for a hidden variable and one
/// binding per element.
fn destructure(names: Vec<String>, mutable: bool, init: Expr, span: Span) -> (r: Vec<Stmt>)
    ensures
        ast::stmts_of(r@) == grammar::destructured(text::texts(names@), mutable, init@, span),
{
    let n = usize_text(span.start);
    let tmp = cat2("__let", n.as_str());
    let mut out: Vec<Stmt> = Vec::new();
    let ghost first = AStmt::Let { name: tmp@, mutable: false, ty: None, init: init@, span };
    out.push(Stmt::Let { name: tmp.clone(), mutable: false, ty: None, init, span });
    let mut i: usize = 0;
    while i < names.len()
        invariant
            i <= names.len(),
            out.len() == i + 1,
            tmp@ == grammar::hidden_name(span),
            out[0]@ == first,
            forall|j: int|
                0 <= j < i ==> (#[trigger] out[j + 1])@ == grammar::part_binding(
                    text::texts(names@),
                    j,
                    mutable,
                    span,
                ),
        decreases names.len() - i,
    {
        let ghost prev = out@;
        let base = Expr::Ident { name: tmp.clone(), span };
        let part = Expr::TupleField { base: Box::new(base), index: i as u64, span };
        assert(base@ == AExpr::Ident { name: tmp@, span });
        assert(part@ == AExpr::TupleField { base: Box::new(base@), index: i as u64, span });
        let s = Stmt::Let { name: names[i].clone(), mutable, ty: None, init: part, span };
        assert(s@ == grammar::part_binding(text::texts(names@), i as int, mutable, span));
        out.push(s);
        assert forall|j: int| 0 <= j < i + 1 implies (#[trigger] out[j + 1])@
            == grammar::part_binding(text::texts(names@), j, mutable, span) by {
            if j < i {
                assert(out[j + 1] == prev[j + 1]);
            }
        }
        i += 1;
    }
    proof {
        let want = grammar::destructured(text::texts(names@), mutable, init@, span);
        assert forall|k: int| 0 <= k < out.len() implies ast::stmts_of(out@)[k] == want[k] by {
            if k > 0 {
                assert(out[(k - 1) + 1]@ == grammar::part_binding(
                    text::texts(names@),
                    k - 1,
                    mutable,
                    span,
                ));
            }
        }
        assert(ast::stmts_of(out@) =~= want);
    }
    out
}

fn annotation(ts: &[Token], p: usize) -> (r: Result<(Option<TypeExpr>, usize), Diagnostic>)
    requires
        ready(ts@, p as int),
    ensures
        seen_opt(r) == grammar::annotation(toks(ts@), p as int),
        r matches Ok((_, q)) ==> p <= q < ts.len(),
    decreases ts.len() - p, 0int,
{
    proof {
        token::lemma_plain_tokens();
    }
    if sees(ts, p, &Tok::Colon) {
        let (t, q) = type_expr(ts, p + 1)?;
        Ok((Some(t), q))
    } else {
        Ok((None, p))
    }
}

fn initialiser(ts: &[Token], p: usize) -> (r: Result<(Expr, usize), Diagnostic>)
    requires
        ready(ts@, p as int),
    ensures
        seen(r) == grammar::initialiser(toks(ts@), p as int),
        r matches Ok((_, q)) ==> p < q < ts.len(),
    decreases ts.len() - p, 6int,
{
    proof {
        token::lemma_plain_tokens();
    }
    let q = expect(ts, p, &Tok::Eq, "`=` in let binding")?;
    let (init, r) = expr(ts, q)?;
    let s = expect(ts, r, &Tok::Semi, "`;` after let binding")?;
    Ok((init, s))
}

fn let_stmt(ts: &[Token], p: usize) -> (r: Result<(Vec<Stmt>, usize), Diagnostic>)
    requires
        ready(ts@, p as int),
    ensures
        seen_stmts(r) == grammar::let_stmt(toks(ts@), p as int),
        r matches Ok((_, q)) ==> p < q < ts.len(),
    decreases ts.len() - p, 0int,
{
    proof {
        token::lemma_plain_tokens();
    }
    let start = span_of(ts, p);
    let p1 = expect(ts, p, &Tok::Let, "`let`")?;
    let mutable = sees(ts, p1, &Tok::Mut);
    let p2: usize = if mutable {
        p1 + 1
    } else {
        p1
    };
    if sees(ts, p2, &Tok::LParen) {
        let (names, q) = names_list(ts, p2 + 1)?;
        let r = expect(ts, q, &Tok::RParen, "`)` in destructuring let")?;
        let (init, s) = initialiser(ts, r)?;
        let span = start.merge(prev_span(ts, s));
        return Ok((destructure(names, mutable, init, span), s));
    }
    let (name, q) = ident(ts, p2)?;
    let (ty, r) = annotation(ts, q)?;
    let (init, s) = initialiser(ts, r)?;
    let span = start.merge(prev_span(ts, s));
    let stmt = Stmt::Let { name, mutable, ty, init, span };
    let ghost added = stmt@;
    let mut out: Vec<Stmt> = Vec::new();
    out.push(stmt);
    assert(ast::stmts_of(out@) =~= seq![added]);
    Ok((out, s))
}

fn while_stmt(ts: &[Token], p: usize) -> (r: Result<(Stmt, usize), Diagnostic>)
    requires
        ready(ts@, p as int),
    ensures
        seen(r) == grammar::while_stmt(toks(ts@), p as int),
        r matches Ok((_, q)) ==> p < q < ts.len(),
    decreases ts.len() - p, 0int,
{
    proof {
        token::lemma_plain_tokens();
    }
    let start = span_of(ts, p);
    let p1 = expect(ts, p, &Tok::While, "`while`")?;
    let (cond, q) = expr_bp(ts, p1, 0, false)?;
    let (body, r) = block(ts, q)?;
    Ok((Stmt::While { cond, body, span: start.merge(prev_span(ts, r)) }, r))
}

fn for_stmt(ts: &[Token], p: usize) -> (r: Result<(Stmt, usize), Diagnostic>)
    requires
        ready(ts@, p as int),
    ensures
        seen(r) == grammar::for_stmt(toks(ts@), p as int),
        r matches Ok((_, q)) ==> p < q < ts.len(),
    decreases ts.len() - p, 0int,
{
    proof {
        token::lemma_plain_tokens();
    }
    let start = span_of(ts, p);
    let p1 = expect(ts, p, &Tok::For, "`for`")?;
    let (var, p2) = ident(ts, p1)?;
    let p3 = expect(ts, p2, &Tok::In, "`in`")?;
    let (lo, q) = expr_bp(ts, p3, 0, false)?;
    let q1 = expect(ts, q, &Tok::DotDot, "`..` in for-range")?;
    let (hi, r) = expr_bp(ts, q1, 0, false)?;
    let (body, s) = block(ts, r)?;
    Ok((Stmt::For { var, lo, hi, body, span: start.merge(prev_span(ts, s)) }, s))
}

fn return_value(ts: &[Token], p: usize) -> (r: Result<(Option<Expr>, usize), Diagnostic>)
    requires
        ready(ts@, p as int),
    ensures
        seen_opt(r) == grammar::return_value(toks(ts@), p as int),
        r matches Ok((_, q)) ==> p <= q < ts.len(),
    decreases ts.len() - p, 6int,
{
    proof {
        token::lemma_plain_tokens();
    }
    if at(ts, p, &Tok::Semi) {
        Ok((None, p))
    } else {
        let (e, q) = expr(ts, p)?;
        Ok((Some(e), q))
    }
}

fn return_stmt(ts: &[Token], p: usize) -> (r: Result<(Stmt, usize), Diagnostic>)
    requires
        ready(ts@, p as int),
    ensures
        seen(r) == grammar::return_stmt(toks(ts@), p as int),
        r matches Ok((_, q)) ==> p < q < ts.len(),
    decreases ts.len() - p, 0int,
{
    proof {
        token::lemma_plain_tokens();
    }
    let start = span_of(ts, p);
    let p1 = expect(ts, p, &Tok::Return, "`return`")?;
    let (value, q) = return_value(ts, p1)?;
    let r = expect(ts, q, &Tok::Semi, "`;` after return")?;
    Ok((Stmt::Return { value, span: start.merge(prev_span(ts, r)) }, r))
}

fn keyword_stmt(ts: &[Token], p: usize) -> (r: Result<(Stmt, usize), Diagnostic>)
    requires
        ready(ts@, p as int),
    ensures
        seen(r) == grammar::keyword_stmt(toks(ts@), p as int),
        r matches Ok((_, q)) ==> p < q < ts.len(),
    decreases ts.len() - p, 1int,
{
    proof {
        token::lemma_plain_tokens();
    }
    if at(ts, p, &Tok::While) {
        while_stmt(ts, p)
    } else if at(ts, p, &Tok::For) {
        for_stmt(ts, p)
    } else {
        return_stmt(ts, p)
    }
}

proof fn lemma_stmts_push(a: Seq<Stmt>, s: Stmt)
    ensures
        ast::stmts_of(a.push(s)) == ast::stmts_of(a).push(s@),
{
    assert(ast::stmts_of(a.push(s)) =~= ast::stmts_of(a).push(s@));
}

#[verifier::rlimit(40)]
#[verifier::loop_isolation(false)]
fn stmts_list(ts: &[Token], p: usize) -> (r: Result<((Vec<Stmt>, Option<Box<Expr>>), usize), Diagnostic>)
    requires
        ready(ts@, p as int),
    ensures
        seen_body(r) == grammar::stmts_from(toks(ts@), p as int, Seq::empty()),
        r matches Ok((_, q)) ==> p <= q < ts.len(),
    decreases ts.len() - p, 7int,
{
    proof {
        token::lemma_plain_tokens();
    }
    let mut acc: Vec<Stmt> = Vec::new();
    assert(ast::stmts_of(acc@) =~= Seq::<AStmt>::empty());
    let mut q: usize = p;
    while !at(ts, q, &Tok::RBrace) && !is_eof(ts, q)
        invariant
            p <= q < ts.len(),
            ready(ts@, p as int),
            grammar::stmts_from(toks(ts@), p as int, Seq::empty()) == grammar::stmts_from(
                toks(ts@),
                q as int,
                ast::stmts_of(acc@),
            ),
        decreases ts.len() - q,
    {
        let ghost before = ast::stmts_of(acc@);
        let ghost raw = acc@;
        if at(ts, q, &Tok::Let) {
            let (ss, r) = let_stmt(ts, q)?;
            let ghost added = ast::stmts_of(ss@);
            let mut more = ss;
            acc.append(&mut more);
            assert(ast::stmts_of(acc@) =~= before + added);
            q = r;
            continue;
        }
        if at(ts, q, &Tok::While) || at(ts, q, &Tok::For) || at(ts, q, &Tok::Return) {
            let (s, r) = keyword_stmt(ts, q)?;
            proof {
                lemma_stmts_push(raw, s);
            }
            acc.push(s);
            q = r;
            continue;
        }
        let (e, r) = expr(ts, q)?;
        if sees(ts, r, &Tok::Eq) {
            let (value, r1) = expr(ts, r + 1)?;
            let span = e.span().merge(value.span());
            let r2 = expect(ts, r1, &Tok::Semi, "`;` after assignment")?;
            let s = Stmt::Assign { target: e, value, span };
            proof {
                lemma_stmts_push(raw, s);
            }
            acc.push(s);
            q = r2;
            continue;
        }
        if sees(ts, r, &Tok::Semi) {
            let s = Stmt::Expr(e);
            proof {
                lemma_stmts_push(raw, s);
            }
            acc.push(s);
            q = r + 1;
            continue;
        }
        if at(ts, r, &Tok::RBrace) {
            return Ok(((acc, Some(Box::new(e))), r));
        }
        if is_block_like(&e) {
            let s = Stmt::Expr(e);
            proof {
                lemma_stmts_push(raw, s);
            }
            acc.push(s);
            q = r;
            continue;
        }
        return Err(unexpected(ts, r, "expected `;` or `}` after expression, found "));
    }
    Ok(((acc, None), q))
}

fn block(ts: &[Token], p: usize) -> (r: Result<(Block, usize), Diagnostic>)
    requires
        ready(ts@, p as int),
    ensures
        seen(r) == grammar::block(toks(ts@), p as int),
        r matches Ok((_, q)) ==> p < q < ts.len(),
    decreases ts.len() - p, 0int,
{
    proof {
        token::lemma_plain_tokens();
    }
    let start = span_of(ts, p);
    let p1 = expect(ts, p, &Tok::LBrace, "`{`")?;
    let ((stmts, tail), q) = stmts_list(ts, p1)?;
    let r = expect(ts, q, &Tok::RBrace, "`}`")?;
    Ok((Block { stmts, tail, span: start.merge(prev_span(ts, r)) }, r))
}

// ---- items --------------------------------------------------------------

#[verifier::loop_isolation(false)]
fn params_list(ts: &[Token], p: usize) -> (r: Result<(Vec<Param>, usize), Diagnostic>)
    requires
        ready(ts@, p as int),
    ensures
        seen_params(r) == grammar::params_from(toks(ts@), p as int, Seq::empty()),
        r matches Ok((_, q)) ==> p <= q < ts.len(),
    decreases ts.len() - p, 0int,
{
    proof {
        token::lemma_plain_tokens();
    }
    let mut acc: Vec<Param> = Vec::new();
    assert(ast::params_of(acc@) =~= Seq::<AParam>::empty());
    let mut q: usize = p;
    while !at(ts, q, &Tok::RParen)
        invariant
            p <= q < ts.len(),
            ready(ts@, p as int),
            grammar::params_from(toks(ts@), p as int, Seq::empty()) == grammar::params_from(
                toks(ts@),
                q as int,
                ast::params_of(acc@),
            ),
        decreases ts.len() - q,
    {
        let ghost before = ast::params_of(acc@);
        let pstart = span_of(ts, q);
        let (name, q1) = ident(ts, q)?;
        let q2 = expect(ts, q1, &Tok::Colon, "`:`")?;
        let (ty, r) = type_expr(ts, q2)?;
        let x = Param { name, ty, span: pstart.merge(prev_span(ts, r)) };
        let ghost added = x@;
        acc.push(x);
        assert(ast::params_of(acc@) =~= before.push(added));
        if sees(ts, r, &Tok::Comma) {
            q = r + 1;
        } else {
            return Ok((acc, r));
        }
    }
    Ok((acc, q))
}

fn ret_type(ts: &[Token], p: usize) -> (r: Result<(Option<TypeExpr>, usize), Diagnostic>)
    requires
        ready(ts@, p as int),
    ensures
        seen_opt(r) == grammar::ret_type(toks(ts@), p as int),
        r matches Ok((_, q)) ==> p <= q < ts.len(),
    decreases ts.len() - p, 0int,
{
    proof {
        token::lemma_plain_tokens();
    }
    if sees(ts, p, &Tok::Arrow) {
        let (t, q) = type_expr(ts, p + 1)?;
        Ok((Some(t), q))
    } else {
        Ok((None, p))
    }
}

fn func(ts: &[Token], p: usize) -> (r: Result<(Func, usize), Diagnostic>)
    requires
        ready(ts@, p as int),
    ensures
        seen(r) == grammar::func(toks(ts@), p as int),
        r matches Ok((_, q)) ==> p < q < ts.len(),
    decreases ts.len() - p, 0int,
{
    proof {
        token::lemma_plain_tokens();
    }
    reveal(grammar::func);
    let start = span_of(ts, p);
    let p1 = expect(ts, p, &Tok::Fn, "`fn`")?;
    let (name, p2) = ident(ts, p1)?;
    let p3 = expect(ts, p2, &Tok::LParen, "`(`")?;
    let (params, q) = params_list(ts, p3)?;
    let r = expect(ts, q, &Tok::RParen, "`)`")?;
    let (ret, s) = ret_type(ts, r)?;
    let (body, e) = block(ts, s)?;
    Ok((Func { name, params, ret, body, span: start.merge(prev_span(ts, e)) }, e))
}

#[verifier::loop_isolation(false)]
fn fields_list(ts: &[Token], p: usize) -> (r: Result<(Vec<FieldDef>, usize), Diagnostic>)
    requires
        ready(ts@, p as int),
    ensures
        seen_fields(r) == grammar::fields_from(toks(ts@), p as int, Seq::empty()),
        r matches Ok((_, q)) ==> p <= q < ts.len(),
    decreases ts.len() - p, 0int,
{
    proof {
        token::lemma_plain_tokens();
    }
    let mut acc: Vec<FieldDef> = Vec::new();
    assert(ast::fields_of(acc@) =~= Seq::<AFieldDef>::empty());
    let mut q: usize = p;
    while !at(ts, q, &Tok::RBrace)
        invariant
            p <= q < ts.len(),
            ready(ts@, p as int),
            grammar::fields_from(toks(ts@), p as int, Seq::empty()) == grammar::fields_from(
                toks(ts@),
                q as int,
                ast::fields_of(acc@),
            ),
        decreases ts.len() - q,
    {
        let ghost before = ast::fields_of(acc@);
        let fstart = span_of(ts, q);
        let (name, q1) = ident(ts, q)?;
        let q2 = expect(ts, q1, &Tok::Colon, "`:`")?;
        let (ty, r) = type_expr(ts, q2)?;
        let x = FieldDef { name, ty, span: fstart.merge(prev_span(ts, r)) };
        let ghost added = x@;
        acc.push(x);
        assert(ast::fields_of(acc@) =~= before.push(added));
        if sees(ts, r, &Tok::Comma) {
            q = r + 1;
        } else {
            return Ok((acc, r));
        }
    }
    Ok((acc, q))
}

fn struct_def(ts: &[Token], p: usize) -> (r: Result<(StructDef, usize), Diagnostic>)
    requires
        ready(ts@, p as int),
    ensures
        seen(r) == grammar::struct_def(toks(ts@), p as int),
        r matches Ok((_, q)) ==> p < q < ts.len(),
    decreases ts.len() - p, 0int,
{
    proof {
        token::lemma_plain_tokens();
    }
    reveal(grammar::struct_def);
    let start = span_of(ts, p);
    let p1 = expect(ts, p, &Tok::Struct, "`struct`")?;
    let (name, p2) = ident(ts, p1)?;
    let p3 = expect(ts, p2, &Tok::LBrace, "`{`")?;
    let (fields, q) = fields_list(ts, p3)?;
    let r = expect(ts, q, &Tok::RBrace, "`}`")?;
    Ok((StructDef { name, fields, span: start.merge(prev_span(ts, r)) }, r))
}

fn payload(ts: &[Token], p: usize) -> (r: Result<(Vec<TypeExpr>, usize), Diagnostic>)
    requires
        ready(ts@, p as int),
    ensures
        seen_payload(r) == grammar::payload(toks(ts@), p as int),
        r matches Ok((_, q)) ==> p <= q < ts.len(),
    decreases ts.len() - p, 0int,
{
    proof {
        token::lemma_plain_tokens();
    }
    if sees(ts, p, &Tok::LParen) {
        let ((tys, _), q) = types_list(ts, p + 1)?;
        let r = expect(ts, q, &Tok::RParen, "`)`")?;
        Ok((tys, r))
    } else {
        let tys: Vec<TypeExpr> = Vec::new();
        assert(ast::types_of(tys@) =~= Seq::<ATypeExpr>::empty());
        Ok((tys, p))
    }
}

#[verifier::loop_isolation(false)]
fn variants_list(ts: &[Token], p: usize) -> (r: Result<(Vec<VariantDef>, usize), Diagnostic>)
    requires
        ready(ts@, p as int),
    ensures
        seen_variants(r) == grammar::variants_from(toks(ts@), p as int, Seq::empty()),
        r matches Ok((_, q)) ==> p <= q < ts.len(),
    decreases ts.len() - p, 0int,
{
    proof {
        token::lemma_plain_tokens();
    }
    let mut acc: Vec<VariantDef> = Vec::new();
    assert(ast::variants_of(acc@) =~= Seq::<AVariantDef>::empty());
    let mut q: usize = p;
    while !at(ts, q, &Tok::RBrace)
        invariant
            p <= q < ts.len(),
            ready(ts@, p as int),
            grammar::variants_from(toks(ts@), p as int, Seq::empty()) == grammar::variants_from(
                toks(ts@),
                q as int,
                ast::variants_of(acc@),
            ),
        decreases ts.len() - q,
    {
        let ghost before = ast::variants_of(acc@);
        let vstart = span_of(ts, q);
        let (name, q1) = ident(ts, q)?;
        let (fields, r) = payload(ts, q1)?;
        let x = VariantDef { name, fields, span: vstart.merge(prev_span(ts, r)) };
        let ghost added = x@;
        acc.push(x);
        assert(ast::variants_of(acc@) =~= before.push(added));
        if sees(ts, r, &Tok::Comma) {
            q = r + 1;
        } else {
            return Ok((acc, r));
        }
    }
    Ok((acc, q))
}

fn enum_def(ts: &[Token], p: usize) -> (r: Result<(EnumDef, usize), Diagnostic>)
    requires
        ready(ts@, p as int),
    ensures
        seen(r) == grammar::enum_def(toks(ts@), p as int),
        r matches Ok((_, q)) ==> p < q < ts.len(),
    decreases ts.len() - p, 0int,
{
    proof {
        token::lemma_plain_tokens();
    }
    reveal(grammar::enum_def);
    let start = span_of(ts, p);
    let p1 = expect(ts, p, &Tok::Enum, "`enum`")?;
    let (name, p2) = ident(ts, p1)?;
    let p3 = expect(ts, p2, &Tok::LBrace, "`{`")?;
    let (variants, q) = variants_list(ts, p3)?;
    let r = expect(ts, q, &Tok::RBrace, "`}`")?;
    Ok((EnumDef { name, variants, span: start.merge(prev_span(ts, r)) }, r))
}

fn const_def(ts: &[Token], p: usize) -> (r: Result<(ConstDef, usize), Diagnostic>)
    requires
        ready(ts@, p as int),
    ensures
        seen(r) == grammar::const_def(toks(ts@), p as int),
        r matches Ok((_, q)) ==> p < q < ts.len(),
    decreases ts.len() - p, 0int,
{
    proof {
        token::lemma_plain_tokens();
    }
    reveal(grammar::const_def);
    let start = span_of(ts, p);
    let p1 = expect(ts, p, &Tok::Const, "`const`")?;
    let (name, p2) = ident(ts, p1)?;
    let p3 = expect(ts, p2, &Tok::Colon, "`:`")?;
    let (ty, q) = type_expr(ts, p3)?;
    let q1 = expect(ts, q, &Tok::Eq, "`=` in const")?;
    let (init, r) = expr(ts, q1)?;
    let s = expect(ts, r, &Tok::Semi, "`;` after const")?;
    Ok((ConstDef { name, ty, init, span: start.merge(prev_span(ts, s)) }, s))
}

#[verifier::loop_isolation(false)]
fn use_rest(ts: &[Token], p: usize, first: String) -> (r: Result<((Vec<String>, bool), usize), Diagnostic>)
    requires
        ready(ts@, p as int),
    ensures
        seen_use(r) == grammar::use_from(toks(ts@), p as int, seq![first@]),
        r matches Ok((_, q)) ==> p <= q < ts.len(),
    decreases ts.len() - p, 0int,
{
    proof {
        token::lemma_plain_tokens();
    }
    let mut path: Vec<String> = Vec::new();
    path.push(first);
    assert(text::texts(path@) =~= seq![first@]);
    let mut q: usize = p;
    while sees(ts, q, &Tok::ColonColon)
        invariant
            p <= q < ts.len(),
            ready(ts@, p as int),
            grammar::use_from(toks(ts@), p as int, seq![first@]) == grammar::use_from(
                toks(ts@),
                q as int,
                text::texts(path@),
            ),
        decreases ts.len() - q,
    {
        if sees(ts, q + 1, &Tok::Star) {
            return Ok(((path, true), q + 2));
        }
        let (seg, r) = ident(ts, q + 1)?;
        path.push(seg);
        q = r;
    }
    Ok(((path, false), q))
}

fn use_decl(ts: &[Token], p: usize) -> (r: Result<(UseDecl, usize), Diagnostic>)
    requires
        ready(ts@, p as int),
    ensures
        seen(r) == grammar::use_decl(toks(ts@), p as int),
        r matches Ok((_, q)) ==> p < q < ts.len(),
    decreases ts.len() - p, 0int,
{
    proof {
        token::lemma_plain_tokens();
    }
    reveal(grammar::use_decl);
    let start = span_of(ts, p);
    let p1 = expect(ts, p, &Tok::Use, "`use`")?;
    let (first, p2) = ident(ts, p1)?;
    let ((path, glob), q) = use_rest(ts, p2, first)?;
    let r = expect(ts, q, &Tok::Semi, "`;` after use")?;
    Ok((UseDecl { path, glob, span: start.merge(prev_span(ts, r)) }, r))
}

fn mod_def(ts: &[Token], p: usize) -> (r: Result<(ModDef, usize), Diagnostic>)
    requires
        ready(ts@, p as int),
    ensures
        seen(r) == grammar::mod_def(toks(ts@), p as int),
        r matches Ok((_, q)) ==> p < q < ts.len(),
    decreases ts.len() - p, 0int,
{
    proof {
        token::lemma_plain_tokens();
    }
    let start = span_of(ts, p);
    let p1 = expect(ts, p, &Tok::Mod, "`mod`")?;
    let (name, p2) = ident(ts, p1)?;
    if sees(ts, p2, &Tok::Semi) {
        return Ok((ModDef { name, items: None, span: start.merge(prev_span(ts, p2 + 1)) }, p2 + 1));
    }
    let p3 = expect(ts, p2, &Tok::LBrace, "`{` or `;` after module name")?;
    let (items, q) = items_list(ts, p3, true)?;
    let r = expect(ts, q, &Tok::RBrace, "`}`")?;
    Ok((ModDef { name, items: Some(items), span: start.merge(prev_span(ts, r)) }, r))
}

#[verifier::loop_isolation(false)]
fn items_list(ts: &[Token], p: usize, inner: bool) -> (r: Result<(Vec<Item>, usize), Diagnostic>)
    requires
        ready(ts@, p as int),
    ensures
        seen_items(r) == grammar::items_from(toks(ts@), p as int, Seq::empty(), inner),
        r matches Ok((_, q)) ==> p <= q < ts.len(),
    decreases ts.len() - p, 2int,
{
    proof {
        token::lemma_plain_tokens();
    }
    let mut acc: Vec<Item> = Vec::new();
    assert(ast::items_of(acc@) =~= Seq::<AItem>::empty());
    let mut q: usize = p;
    while !is_eof(ts, q) && !(inner && at(ts, q, &Tok::RBrace))
        invariant
            p <= q < ts.len(),
            ready(ts@, p as int),
            grammar::items_from(toks(ts@), p as int, Seq::empty(), inner) == grammar::items_from(
                toks(ts@),
                q as int,
                ast::items_of(acc@),
                inner,
            ),
        decreases ts.len() - q,
    {
        let ghost before = ast::items_of(acc@);
        let (x, r) = item(ts, q)?;
        let ghost added = x@;
        acc.push(x);
        assert(ast::items_of(acc@) =~= before.push(added));
        q = r;
    }
    Ok((acc, q))
}

fn item(ts: &[Token], p: usize) -> (r: Result<(Item, usize), Diagnostic>)
    requires
        ready(ts@, p as int),
    ensures
        seen(r) == grammar::item(toks(ts@), p as int),
        r matches Ok((_, q)) ==> p < q < ts.len(),
    decreases ts.len() - p, 1int,
{
    proof {
        token::lemma_plain_tokens();
    }
    if at(ts, p, &Tok::Fn) {
        let (x, q) = func(ts, p)?;
        Ok((Item::Func(x), q))
    } else if at(ts, p, &Tok::Struct) {
        let (x, q) = struct_def(ts, p)?;
        Ok((Item::Struct(x), q))
    } else if at(ts, p, &Tok::Enum) {
        let (x, q) = enum_def(ts, p)?;
        Ok((Item::Enum(x), q))
    } else if at(ts, p, &Tok::Const) {
        let (x, q) = const_def(ts, p)?;
        Ok((Item::Const(x), q))
    } else if at(ts, p, &Tok::Mod) {
        let (x, q) = mod_def(ts, p)?;
        Ok((Item::Mod(x), q))
    } else if at(ts, p, &Tok::Use) {
        let (x, q) = use_decl(ts, p)?;
        Ok((Item::Use(x), q))
    } else {
        Err(unexpected(ts, p, "expected an item (fn, struct, enum, mod, or use), found "))
    }
}

/// Parse a full program from a token stream (as produced by the lexer: it ends
/// with the end of input).
pub fn parse(tokens: &[Token]) -> (r: Result<Program, Diagnostic>)
    requires
        tokens.len() > 0,
        tokens@.last().tok is Eof,
    ensures
        match r {
            Ok(p) => grammar::program(toks(tokens@)) == Ok::<AProgram, Diag>(p@),
            Err(d) => grammar::program(toks(tokens@)) == Err::<AProgram, Diag>(d@),
        },
{
    let (items, _) = items_list(tokens, 0, false)?;
    Ok(Program { items })
}

} // verus!
