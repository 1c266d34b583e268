//! What is accepted: for each construct, on what parts it is accepted, and the type that it
//! has then.

use crate::arith;
use crate::ast::{self, ABlock, AElseBranch, AExpr, AStmt};
use crate::diagnostic::Diag;
use crate::ir::{self, IntTy, TExpr, TKind, TStmt, TType};
use crate::name_map;
use crate::semantics;
use crate::span::Span;
use crate::text::Text;
use crate::typing::{self, Site, Typed, Var, Vars};
use vstd::arithmetic::power2::*;
use vstd::prelude::*;

verus! {

/// Whether an expression is accepted with a type that `ok` admits.
pub open spec fn accepted(r: Typed, ok: spec_fn(TType) -> bool) -> bool {
    r matches Ok(e) && ok(e.ty)
}

pub open spec fn numeric(t: TType) -> bool {
    t is Int || t is Bit
}

// ---- literals and names -------------------------------------------------

/// An integer literal takes the type that is expected where that is an integer type, and
/// `i32` otherwise. It is accepted exactly if the type has that number.
pub proof fn law_literals_are_accepted(s: Site, vars: Vars, value: i128, span: Span, t: Option<TType>)
    ensures
        ({
            let r = typing::check_expr(s, vars, AExpr::Int { value, span }, t);
            let made = |ty: TType| r == Ok::<TExpr, Diag>(TExpr { kind: TKind::Int(value), ty });
            &&& t matches Some(TType::Int(it)) ==> {
                let w = it.width;
                1 <= w <= 64 ==> if (if it.signed {
                    -pow2((w - 1) as nat) <= value < pow2((w - 1) as nat)
                } else {
                    0 <= value < pow2(w as nat)
                }) {
                    made(TType::Int(it))
                } else {
                    r is Err
                }
            }
            &&& t matches Some(TType::Bit(w)) ==> (1 <= w <= 128 ==> if 0 <= value < pow2(w as nat) {
                made(TType::Bit(w))
            } else {
                r is Err
            })
            &&& (t is None || !numeric(t->0)) ==> if -0x8000_0000 <= value < 0x8000_0000 {
                made(TType::Int(IntTy { signed: true, width: 32 }))
            } else {
                r is Err
            }
        }),
{
    reveal(typing::int_rule);
    assert(pow2(31) == 0x8000_0000) by {
        lemma2_to64();
    }
}

/// A name is the innermost variable of that name, with its type, where there is one.
pub proof fn law_names_are_accepted(
    s: Site,
    vars: Vars,
    name: Text,
    span: Span,
    t: Option<TType>,
    p: int,
)
    requires
        0 <= p < vars.len(),
        vars[p].0 == name,
        forall|j: int| p < j < vars.len() ==> (#[trigger] vars[j]).0 != name,
    ensures
        typing::check_expr(s, vars, AExpr::Ident { name, span }, t) == Ok::<TExpr, Diag>(
            TExpr { kind: TKind::Local(name), ty: vars[p].1.ty },
        ),
{
    reveal(typing::ident_rule);
    lemma_innermost(vars, name, vars.len() as int, p);
}

proof fn lemma_innermost(vars: Vars, name: Text, i: int, p: int)
    requires
        0 <= p < i <= vars.len(),
        vars[p].0 == name,
        forall|j: int| p < j < i ==> (#[trigger] vars[j]).0 != name,
    ensures
        semantics::slot_before(vars, name, i) == Some(p),
    decreases i,
{
    if p < i - 1 {
        lemma_innermost(vars, name, i - 1, p);
    }
}

// ---- operators ----------------------------------------------------------

/// `-` is accepted on signed integers and on bits, `!` on integers, on bits and on `bool`.
/// Both have the type of their operand.
pub proof fn law_prefix_operators_are_accepted(
    s: Site,
    vars: Vars,
    op: ast::UnOp,
    expr: AExpr,
    span: Span,
    t: Option<TType>,
)
    ensures
        ({
            let r = typing::check_expr(
                s,
                vars,
                AExpr::Unary { op, expr: Box::new(expr), span },
                t,
            );
            let inner = typing::check_expr(s, vars, expr, t);
            let fine = match op {
                ast::UnOp::Neg => accepted(
                    inner,
                    |ty: TType| ty is Bit || (ty is Int && ty->Int_0.signed),
                ),
                ast::UnOp::Not => accepted(inner, |ty: TType| ty is Bool || numeric(ty)),
            };
            &&& fine <==> r is Ok
            &&& fine ==> r->Ok_0.ty == inner->Ok_0.ty && (r->Ok_0.kind matches TKind::Unary {
                op: o,
                expr: e,
            } && *e == inner->Ok_0 && (o is Neg <==> op is Neg))
        }),
{
    reveal(typing::unary_flow);
    reveal(typing::unary_rule);
}

/// `&&` and `||` are accepted on two `bool`, and are of type `bool`.
pub proof fn law_logical_operators_are_accepted(
    s: Site,
    vars: Vars,
    op: ast::BinOp,
    lhs: AExpr,
    rhs: AExpr,
    span: Span,
    t: Option<TType>,
)
    requires
        op is And || op is Or,
    ensures
        ({
            let r = typing::check_expr(
                s,
                vars,
                AExpr::Binary { op, lhs: Box::new(lhs), rhs: Box::new(rhs), span },
                t,
            );
            let a = typing::check_expr(s, vars, lhs, Some(TType::Bool));
            let b = typing::check_expr(s, vars, rhs, Some(TType::Bool));
            let fine = accepted(a, |ty: TType| ty is Bool) && accepted(b, |ty: TType| ty is Bool);
            &&& fine <==> r is Ok
            &&& fine ==> r->Ok_0.ty is Bool && (r->Ok_0.kind matches TKind::Binary {
                op: o,
                lhs: l,
                rhs: m,
            } && *l == a->Ok_0 && *m == b->Ok_0 && (o is And <==> op is And) && (o is Or <==> op is Or))
        }),
{
    reveal(typing::logical_flow);
    reveal(typing::expect_type);
}

/// A shift is accepted on two integers or bits, of types that need not be the same, and has
/// the type of what is shifted.
pub proof fn law_shifts_are_accepted(
    s: Site,
    vars: Vars,
    op: ast::BinOp,
    lhs: AExpr,
    rhs: AExpr,
    span: Span,
    t: Option<TType>,
)
    requires
        op is Shl || op is Shr,
        !(rhs is Int),
    ensures
        ({
            let r = typing::check_expr(
                s,
                vars,
                AExpr::Binary { op, lhs: Box::new(lhs), rhs: Box::new(rhs), span },
                t,
            );
            let a = typing::check_expr(s, vars, lhs, t);
            let b = typing::check_expr(s, vars, rhs, None);
            let fine = accepted(a, |ty: TType| numeric(ty)) && accepted(b, |ty: TType| numeric(ty));
            &&& fine <==> r is Ok
            &&& fine ==> r->Ok_0.ty == a->Ok_0.ty && (r->Ok_0.kind matches TKind::Binary {
                op: o,
                lhs: l,
                rhs: m,
            } && *l == a->Ok_0 && *m == b->Ok_0 && (o is Shl <==> op is Shl))
        }),
{
    reveal(typing::shift_flow);
}

/// Two typed operands are accepted by `==` and `!=` exactly if they are of one type, an
/// integer type, bits or `bool`; by the other comparisons, by arithmetic and by the bitwise
/// operators exactly if they are of one type, an integer type or bits. A comparison is of
/// type `bool`, the others of the type of their operands.
pub proof fn law_operators_are_accepted(op: ast::BinOp, l: TExpr, r: TExpr, span: Span)
    requires
        !(op is And || op is Or || op is Shl || op is Shr),
    ensures
        ({
            let e = typing::operator_rule(op, l, r, span);
            let equates = op is Eq || op is Ne;
            let compares = equates || op is Lt || op is Le || op is Gt || op is Ge;
            &&& e is Ok <==> l.ty == r.ty && (numeric(l.ty) || (equates && l.ty is Bool))
            &&& e matches Ok(x) ==> {
                &&& x.ty == if compares {
                    TType::Bool
                } else {
                    l.ty
                }
                &&& x.kind matches TKind::Binary { op: o, lhs: a, rhs: b } && *a == l && *b == r
            }
        }),
{
    reveal(typing::operator_rule);
}

/// A bare literal is a number, with any count of minus signs before it, and nothing else.
pub proof fn law_bare_literals(value: i128, span: Span, op: ast::UnOp, e: AExpr)
    ensures
        typing::literalish(AExpr::Int { value, span }),
        typing::literalish(AExpr::Unary { op: ast::UnOp::Neg, expr: Box::new(e), span })
            <==> typing::literalish(e),
        !typing::literalish(AExpr::Unary { op: ast::UnOp::Not, expr: Box::new(e), span }),
        !(e is Int || e is Unary) ==> !typing::literalish(e),
{
}

/// The operands of an operator that is no shift and not logical are checked against one
/// type: for arithmetic the integer type that is expected, otherwise the type of the left
/// operand, or of the right one where the left one is a bare literal, or `i32` where both
/// are.
pub proof fn law_operands_share_a_type(
    s: Site,
    vars: Vars,
    op: ast::BinOp,
    lhs: AExpr,
    rhs: AExpr,
    span: Span,
    t: Option<TType>,
)
    requires
        !(op is And || op is Or || op is Shl || op is Shr),
    ensures
        ({
            let r = typing::check_expr(
                s,
                vars,
                AExpr::Binary { op, lhs: Box::new(lhs), rhs: Box::new(rhs), span },
                t,
            );
            let compares = op is Eq || op is Ne || op is Lt || op is Le || op is Gt || op is Ge;
            let a = typing::check_expr(s, vars, lhs, None);
            let b = typing::check_expr(s, vars, rhs, None);
            let both = |ty: TType|
                {
                    let x = typing::check_expr(s, vars, lhs, Some(ty));
                    let y = typing::check_expr(s, vars, rhs, Some(ty));
                    &&& r is Ok ==> x is Ok && y is Ok && x->Ok_0.ty == y->Ok_0.ty
                    &&& x is Ok && y is Ok && x->Ok_0.ty == y->Ok_0.ty && numeric(x->Ok_0.ty)
                        ==> r is Ok
                };
            &&& !compares && t is Some && numeric(t->0) ==> both(t->0)
            &&& compares || t is None || !numeric(t->0) ==> {
                &&& !typing::literalish(lhs) ==> (a matches Ok(x) ==> both(x.ty))
                &&& typing::literalish(lhs) && !typing::literalish(rhs) ==> (b matches Ok(y)
                    ==> both(y.ty))
                &&& typing::literalish(lhs) && typing::literalish(rhs) ==> both(
                    TType::Int(IntTy { signed: true, width: 32 }),
                )
            }
        }),
{
    reveal(typing::operand_type);
    reveal(typing::operator_flow);
    reveal(typing::operator_rule);
}

// ---- parts --------------------------------------------------------------

/// A part of a tuple is accepted exactly if the tuple has that many parts, and has the type
/// of that part.
pub proof fn law_tuple_parts_are_accepted(
    s: Site,
    vars: Vars,
    base: AExpr,
    index: u64,
    span: Span,
    t: Option<TType>,
)
    ensures
        ({
            let b = typing::check_expr(s, vars, base, None);
            let r = typing::check_expr(
                s,
                vars,
                AExpr::TupleField { base: Box::new(base), index, span },
                t,
            );
            &&& r is Ok <==> accepted(b, |ty: TType| ty is Tuple && index < ty->Tuple_0.len())
            &&& r is Ok && index <= usize::MAX ==> r->Ok_0.ty == b->Ok_0.ty->Tuple_0[index as int]
                && (r->Ok_0.kind matches TKind::TupleField { base: x, index: i } && *x == b->Ok_0
                && i == index)
        }),
{
    reveal(typing::part_flow);
    reveal(typing::part_type);
}

/// An element is accepted exactly if it is taken from an array by an integer, and has the
/// element type.
pub proof fn law_elements_are_accepted(
    s: Site,
    vars: Vars,
    base: AExpr,
    index: AExpr,
    span: Span,
    t: Option<TType>,
)
    ensures
        ({
            let b = typing::check_expr(s, vars, base, None);
            let i = typing::check_expr(s, vars, index, None);
            let r = typing::check_expr(
                s,
                vars,
                AExpr::Index { base: Box::new(base), index: Box::new(index), span },
                t,
            );
            &&& r is Ok <==> accepted(b, |ty: TType| ty is Array) && accepted(
                i,
                |ty: TType| numeric(ty),
            )
            &&& r is Ok ==> r->Ok_0.ty == *(b->Ok_0.ty->Array_0) && (
            r->Ok_0.kind matches TKind::Index { base: x, index: y } && *x == b->Ok_0 && *y
                == i->Ok_0)
        }),
{
    reveal(typing::index_flow);
    reveal(typing::element_type);
    reveal(typing::index_type);
}

/// A field is accepted exactly if it is taken from a struct that has one of that name, and
/// has the type of that field.
pub proof fn law_fields_are_accepted(
    s: Site,
    vars: Vars,
    base: AExpr,
    field: Text,
    span: Span,
    t: Option<TType>,
    n: Text,
    d: ir::TStruct,
)
    requires
        typing::check_expr(s, vars, base, None) matches Ok(b) && b.ty == TType::Struct(n),
        name_map::find(s.defs.structs, n) == Some(d),
        d.fields.len() <= usize::MAX,
        forall|i: int, j: int|
            0 <= i < j < d.fields.len() ==> (#[trigger] d.fields[i]).name != (
            #[trigger] d.fields[j]).name,
    ensures
        ({
            let r = typing::check_expr(
                s,
                vars,
                AExpr::Field { base: Box::new(base), field, span },
                t,
            );
            &&& forall|i: int|
                0 <= i < d.fields.len() && (#[trigger] d.fields[i]).name == field ==> (r matches Ok(
                    e,
                ) && e.ty == d.fields[i].ty && (e.kind matches TKind::Field { base: x, index }
                    && index == i))
            &&& (forall|i: int| 0 <= i < d.fields.len() ==> (#[trigger] d.fields[i]).name != field)
                ==> r is Err
        }),
{
    reveal(typing::field_flow);
    reveal(typing::field_type);
    lemma_field(d.fields, field, 0);
}

proof fn lemma_field(fs: Seq<ir::TField>, n: Text, i: int)
    requires
        0 <= i <= fs.len() <= usize::MAX,
        forall|i: int, j: int|
            0 <= i < j < fs.len() ==> (#[trigger] fs[i]).name != (#[trigger] fs[j]).name,
    ensures
        forall|k: int|
            i <= k < fs.len() && (#[trigger] fs[k]).name == n ==> ir::field_from(fs, n, i) == Some(
                k as usize,
            ),
        (forall|k: int| i <= k < fs.len() ==> (#[trigger] fs[k]).name != n) ==> ir::field_from(
            fs,
            n,
            i,
        ) is None,
    decreases fs.len() - i,
{
    if i < fs.len() {
        lemma_field(fs, n, i + 1);
    }
}

// ---- branches -----------------------------------------------------------

/// An `if` with an `else` is accepted exactly if its condition is a `bool` and its branches
/// are of one type, which is its own; one without exactly if its condition is a `bool` and
/// its branch has no value.
pub proof fn law_if_is_accepted(
    s: Site,
    vars: Vars,
    cond: AExpr,
    a: ABlock,
    b: Option<AElseBranch>,
    span: Span,
    t: Option<TType>,
)
    ensures
        ({
            let r = typing::check_expr(
                s,
                vars,
                AExpr::If {
                    cond: Box::new(cond),
                    then_branch: a,
                    else_branch: match b {
                        Some(e) => Some(Box::new(e)),
                        None => None,
                    },
                    span,
                },
                t,
            );
            let c = accepted(
                typing::check_expr(s, vars, cond, Some(TType::Bool)),
                |ty: TType| ty is Bool,
            );
            match b {
                Some(e) => {
                    let x = typing::check_block(s, vars, a, t);
                    let y = typing::check_else(s, vars, e, t);
                    &&& r is Ok <==> c && x is Ok && y is Ok && x->Ok_0.ty == y->Ok_0.ty
                    &&& r is Ok ==> r->Ok_0.ty == x->Ok_0.ty && (r->Ok_0.kind matches TKind::If {
                        cond: k,
                        then_branch,
                        else_branch,
                    } && then_branch == x->Ok_0 && else_branch == y->Ok_0)
                },
                None => {
                    let x = typing::check_block(s, vars, a, Some(TType::Unit));
                    &&& r is Ok <==> c && x is Ok && x->Ok_0.ty is Unit
                    &&& r is Ok ==> r->Ok_0.ty is Unit && (r->Ok_0.kind matches TKind::If {
                        cond: k,
                        then_branch,
                        else_branch,
                    } && then_branch == x->Ok_0 && else_branch.stmts.len() == 0
                        && else_branch.tail is None)
                },
            }
        }),
{
    reveal(typing::if_flow);
    reveal(typing::expect_type);
    reveal(typing::branches_rule);
    reveal(typing::lone_if_rule);
}

/// A block has the type of the expression at its end, or none.
pub proof fn law_blocks_have_the_type_of_their_end(
    s: Site,
    vars: Vars,
    b: ABlock,
    t: Option<TType>,
)
    ensures
        typing::check_block(s, vars, b, t) matches Ok(x) ==> {
            &&& b.tail is None ==> x.ty is Unit && x.tail is None
            &&& b.tail matches Some(e) ==> x.tail is Some && x.ty == x.tail->0.ty
            &&& x.stmts.len() == b.stmts.len()
        },
{
    reveal(typing::tail_flow);
    lemma_as_many(s, vars, b.stmts, 0, Seq::empty());
}

proof fn lemma_as_many(s: Site, vars: Vars, sts: Seq<AStmt>, i: int, acc: Seq<TStmt>)
    requires
        0 <= i <= sts.len(),
        acc.len() == i,
    ensures
        typing::check_stmts(s, vars, sts, i, acc) matches Ok((ts, _)) ==> ts.len() == sts.len(),
    decreases sts.len() - i,
{
    if i < sts.len() {
        match typing::check_stmt(s, vars, sts[i]) {
            Ok((t, v1)) => lemma_as_many(s, v1, sts, i + 1, acc.push(t)),
            Err(_) => {},
        }
    }
}

// ---- statements ---------------------------------------------------------

/// A `let` without an annotation is accepted exactly if its initialiser is accepted and has
/// a value. Behind it a variable of that name and type is in scope.
pub proof fn law_let_is_accepted(s: Site, vars: Vars, name: Text, mutable: bool, init: AExpr, span: Span)
    ensures
        ({
            let e = typing::check_expr(s, vars, init, None);
            let r = typing::check_stmt(
                s,
                vars,
                AStmt::Let { name, mutable, ty: None, init, span },
            );
            &&& r is Ok <==> accepted(e, |ty: TType| !(ty is Unit))
            &&& r matches Ok((st, v1)) ==> v1 == vars.push(
                (name, Var { ty: e->Ok_0.ty, mutable }),
            ) && st == (TStmt::Let { name, mutable, ty: e->Ok_0.ty, init: e->Ok_0 })
        }),
{
    reveal(typing::annotated);
    reveal(typing::let_flow);
    reveal(typing::let_rule);
}

/// A `let` with an annotation is accepted exactly if that names a type that has values, and
/// the initialiser is of that type.
pub proof fn law_annotated_let_is_accepted(
    s: Site,
    vars: Vars,
    name: Text,
    mutable: bool,
    ty: ast::ATypeExpr,
    init: AExpr,
    span: Span,
)
    ensures
        ({
            let want = typing::resolve(s.defs, s.module, ty, span);
            let r = typing::check_stmt(
                s,
                vars,
                AStmt::Let { name, mutable, ty: Some(ty), init, span },
            );
            &&& want is Err ==> r is Err
            &&& want matches Ok(t) ==> {
                let e = typing::check_expr(s, vars, init, Some(t));
                &&& r is Ok <==> accepted(e, |x: TType| x == t && !(x is Unit))
                &&& r matches Ok((st, v1)) ==> v1 == vars.push((name, Var { ty: t, mutable }))
                    && st == (TStmt::Let { name, mutable, ty: t, init: e->Ok_0 })
            }
        }),
{
    reveal(typing::annotated);
    reveal(typing::let_flow);
    reveal(typing::let_rule);
}

/// An assignment is accepted exactly if its target can be assigned to and its value is of
/// the type of the target.
pub proof fn law_assignment_is_accepted(s: Site, vars: Vars, target: AExpr, value: AExpr, span: Span)
    ensures
        ({
            let p = typing::check_place(s, vars, target);
            let r = typing::check_stmt(s, vars, AStmt::Assign { target, value, span });
            &&& p is Err ==> r is Err
            &&& p matches Ok(place) ==> {
                let e = typing::check_expr(s, vars, value, Some(place.ty()));
                &&& r is Ok <==> accepted(e, |x: TType| x == place.ty())
                &&& r matches Ok((st, v1)) ==> v1 == vars && st == (TStmt::Assign {
                    place,
                    value: e->Ok_0,
                })
            }
        }),
{
    reveal(typing::assign_flow);
    reveal(typing::assign_rule);
}

/// A variable can be assigned to exactly if the innermost one of that name is one of
/// `let mut`.
pub proof fn law_variables_are_places(s: Site, vars: Vars, name: Text, span: Span, p: int)
    requires
        0 <= p < vars.len(),
        vars[p].0 == name,
        forall|j: int| p < j < vars.len() ==> (#[trigger] vars[j]).0 != name,
    ensures
        typing::check_place(s, vars, AExpr::Ident { name, span }) is Ok <==> vars[p].1.mutable,
        typing::check_place(s, vars, AExpr::Ident { name, span }) matches Ok(x) ==> x.ty()
            == vars[p].1.ty,
{
    reveal(typing::place_rule);
    lemma_innermost(vars, name, vars.len() as int, p);
}

/// A `while` is accepted exactly if its condition is a `bool` and its body is accepted.
pub proof fn law_while_is_accepted(s: Site, vars: Vars, cond: AExpr, body: ABlock, span: Span)
    ensures
        ({
            let c = typing::check_expr(s, vars, cond, Some(TType::Bool));
            let b = typing::check_block(s, vars, body, None);
            let r = typing::check_stmt(s, vars, AStmt::While { cond, body, span });
            &&& r is Ok <==> accepted(c, |x: TType| x is Bool) && b is Ok
            &&& r matches Ok((st, v1)) ==> v1 == vars && st == (TStmt::While {
                cond: c->Ok_0,
                body: b->Ok_0,
            })
        }),
{
    reveal(typing::while_flow);
    reveal(typing::expect_type);
}

/// A `for` is accepted exactly if its bounds are integers or bits of one type and its body
/// is accepted with a variable of that type that cannot be assigned to.
pub proof fn law_for_is_accepted(
    s: Site,
    vars: Vars,
    var: Text,
    lo: AExpr,
    hi: AExpr,
    body: ABlock,
    span: Span,
)
    ensures
        ({
            let l = typing::check_expr(s, vars, lo, None);
            let r = typing::check_stmt(s, vars, AStmt::For { var, lo, hi, body, span });
            &&& !accepted(l, |x: TType| numeric(x)) ==> r is Err
            &&& accepted(l, |x: TType| numeric(x)) ==> {
                let t = l->Ok_0.ty;
                let h = typing::check_expr(s, vars, hi, Some(t));
                let b = typing::check_block(
                    s,
                    vars.push((var, Var { ty: t, mutable: false })),
                    body,
                    None,
                );
                &&& r is Ok <==> accepted(h, |x: TType| x == t) && b is Ok
                &&& r matches Ok((st, v1)) ==> v1 == vars && st == (TStmt::For {
                    var,
                    ty: t,
                    lo: l->Ok_0,
                    hi: h->Ok_0,
                    body: b->Ok_0,
                })
            }
        }),
{
    reveal(typing::for_flow);
    reveal(typing::bound_rule);
    reveal(typing::bounds_rule);
}

/// A `return` is accepted exactly if its value is of the type that the function returns; one
/// without a value exactly if the function returns none.
pub proof fn law_return_is_accepted(s: Site, vars: Vars, e: AExpr, span: Span)
    ensures
        ({
            let v = typing::check_expr(s, vars, e, Some(s.ret));
            let r = typing::check_stmt(s, vars, AStmt::Return { value: Some(e), span });
            &&& r is Ok <==> accepted(v, |x: TType| x == s.ret)
            &&& r matches Ok((st, v1)) ==> v1 == vars && st == (TStmt::Return {
                value: Some(v->Ok_0),
            })
        }),
        ({
            let r = typing::check_stmt(s, vars, AStmt::Return { value: None, span });
            &&& r is Ok <==> s.ret is Unit
            &&& r matches Ok((st, v1)) ==> v1 == vars && st == (TStmt::Return { value: None })
        }),
{
    reveal(typing::return_flow);
    reveal(typing::return_rule);
}

// ---- calls --------------------------------------------------------------

/// A call of a function is accepted exactly if there are as many arguments as parameters and
/// each is of the type of its parameter. It has the type that the function returns.
pub proof fn law_calls_are_accepted(
    s: Site,
    vars: Vars,
    callee: AExpr,
    path: Seq<Text>,
    args: Seq<AExpr>,
    span: Span,
    t: Option<TType>,
    full: Text,
    sig: ir::TSig,
)
    requires
        typing::callee_path(callee) == Some(path),
        path != seq!["print"@],
        typing::find_variant(s.defs, s.module, path) is None,
        typing::look_up(s.defs.funcs, s.defs.imports, s.module, path) == Some((full, sig)),
    ensures
        ({
            let r = typing::check_expr(
                s,
                vars,
                AExpr::Call { callee: Box::new(callee), args, span },
                t,
            );
            &&& r is Ok <==> args.len() == sig.params.len() && forall|i: int|
                0 <= i < args.len() ==> accepted(
                    typing::check_expr(s, vars, #[trigger] args[i], Some(sig.params[i])),
                    |x: TType| x == sig.params[i],
                )
            &&& r matches Ok(e) ==> e.ty == sig.ret && (e.kind matches TKind::Call {
                func,
                args: vs,
            } && func == full && vs.len() == args.len() && forall|i: int|
                0 <= i < args.len() ==> typing::check_expr(
                    s,
                    vars,
                    #[trigger] args[i],
                    Some(sig.params[i]),
                ) == Ok::<TExpr, Diag>(vs[i]))
        }),
{
    reveal(typing::callee_of);
    reveal(typing::callee_rule);
    reveal(typing::call_flow);
    let c = typing::callee_of(s, callee, args.len(), span);
    if args.len() == sig.params.len() {
        assert(c == Ok::<typing::Callee, Diag>(typing::Callee::Function(full, sig)));
        lemma_arguments(s, vars, args, sig.params, typing::argument_kind(c), 0, Seq::empty());
    }
}

/// A variant with values is accepted exactly if there are as many values as it has and each is
/// of its type. It is of the type of its enum.
pub proof fn law_variants_are_accepted(
    s: Site,
    vars: Vars,
    callee: AExpr,
    path: Seq<Text>,
    args: Seq<AExpr>,
    span: Span,
    t: Option<TType>,
    name: Text,
    tag: usize,
    tys: Seq<TType>,
)
    requires
        typing::callee_path(callee) == Some(path),
        path != seq!["print"@],
        typing::find_variant(s.defs, s.module, path) == Some((name, tag, tys)),
    ensures
        ({
            let r = typing::check_expr(
                s,
                vars,
                AExpr::Call { callee: Box::new(callee), args, span },
                t,
            );
            &&& r is Ok <==> args.len() == tys.len() && forall|i: int|
                0 <= i < args.len() ==> accepted(
                    typing::check_expr(s, vars, #[trigger] args[i], Some(tys[i])),
                    |x: TType| x == tys[i],
                )
            &&& r matches Ok(e) ==> e.ty == TType::Enum(name) && (e.kind matches TKind::MakeEnum {
                name: n,
                tag: g,
                args: vs,
            } && n == name && g == tag && vs.len() == args.len() && forall|i: int|
                0 <= i < args.len() ==> typing::check_expr(
                    s,
                    vars,
                    #[trigger] args[i],
                    Some(tys[i]),
                ) == Ok::<TExpr, Diag>(vs[i]))
        }),
{
    reveal(typing::callee_of);
    reveal(typing::callee_rule);
    reveal(typing::call_flow);
    let c = typing::callee_of(s, callee, args.len(), span);
    if args.len() == tys.len() {
        assert(c == Ok::<typing::Callee, Diag>(typing::Callee::Variant(name, tag, tys)));
        lemma_arguments(s, vars, args, tys, typing::argument_kind(c), 0, Seq::empty());
    }
}

proof fn lemma_arguments(
    s: Site,
    vars: Vars,
    args: Seq<AExpr>,
    tys: Seq<TType>,
    what: Text,
    i: int,
    acc: Seq<TExpr>,
)
    requires
        args.len() == tys.len(),
        0 <= i <= args.len(),
        acc.len() == i,
    ensures
        ({
            let r = typing::check_args(s, vars, args, tys, what, i, acc);
            &&& r is Ok <==> forall|k: int|
                i <= k < args.len() ==> accepted(
                    typing::check_expr(s, vars, #[trigger] args[k], Some(tys[k])),
                    |x: TType| x == tys[k],
                )
            &&& r matches Ok(vs) ==> vs.len() == args.len() && (forall|k: int|
                0 <= k < i ==> #[trigger] vs[k] == acc[k]) && forall|k: int|
                i <= k < args.len() ==> typing::check_expr(
                    s,
                    vars,
                    #[trigger] args[k],
                    Some(tys[k]),
                ) == Ok::<TExpr, Diag>(vs[k])
        }),
    decreases args.len() - i,
{
    reveal(typing::arg_rule);
    if i < args.len() {
        let x = typing::check_expr(s, vars, args[i], Some(tys[i]));
        if let Ok(e) = x {
            if e.ty == tys[i] {
                lemma_arguments(s, vars, args, tys, what, i + 1, acc.push(e));
            } else {
                assert(!accepted(x, |x: TType| x == tys[i]));
            }
        } else {
            assert(!accepted(x, |x: TType| x == tys[i]));
        }
    }
}

/// Only names are called, and only names of functions and variants; a struct literal names a
/// struct, and a type a struct or an enum.
pub proof fn law_unknown_names_are_refused(
    s: Site,
    vars: Vars,
    callee: AExpr,
    args: Seq<AExpr>,
    path: Seq<Text>,
    fields: Seq<(Text, AExpr)>,
    span: Span,
    t: Option<TType>,
)
    ensures
        !(callee is Ident || callee is Path) ==> typing::check_expr(
            s,
            vars,
            AExpr::Call { callee: Box::new(callee), args, span },
            t,
        ) is Err,
        path != seq!["print"@] && typing::find_variant(s.defs, s.module, path) is None
            && typing::look_up(s.defs.funcs, s.defs.imports, s.module, path) is None
            ==> typing::check_expr(
            s,
            vars,
            AExpr::Call {
                callee: Box::new(AExpr::Path { segments: path, span }),
                args,
                span,
            },
            t,
        ) is Err,
        typing::look_up(s.defs.structs, s.defs.imports, s.module, path) is None
            ==> typing::check_expr(s, vars, AExpr::StructLit { path, fields, span }, t) is Err,
        typing::find_name(s.defs.structs, s.defs.imports, s.module, path) is None
            && typing::find_name(s.defs.enums, s.defs.imports, s.module, path) is None
            ==> typing::resolve(s.defs, s.module, ast::ATypeExpr::Named(path), span) is Err,
        typing::find_name(s.defs.structs, s.defs.imports, s.module, path) matches Some(n)
            ==> typing::resolve(s.defs, s.module, ast::ATypeExpr::Named(path), span) == Ok::<
            TType,
            Diag,
        >(TType::Struct(n)),
        typing::find_name(s.defs.structs, s.defs.imports, s.module, path) is None ==> (
        typing::find_name(s.defs.enums, s.defs.imports, s.module, path) matches Some(n)
            ==> typing::resolve(s.defs, s.module, ast::ATypeExpr::Named(path), span) == Ok::<
            TType,
            Diag,
        >(TType::Enum(n))),
{
    reveal(typing::callee_of);
    reveal(typing::callee_rule);
    reveal(typing::call_flow);
    reveal(typing::struct_of);
    reveal(typing::struct_flow);
}

/// `print` takes one argument, which has a value.
pub proof fn law_print_is_accepted(
    s: Site,
    vars: Vars,
    at: Span,
    args: Seq<AExpr>,
    span: Span,
    t: Option<TType>,
)
    ensures
        ({
            let r = typing::check_expr(
                s,
                vars,
                AExpr::Call {
                    callee: Box::new(AExpr::Ident { name: "print"@, span: at }),
                    args,
                    span,
                },
                t,
            );
            let a = typing::check_expr(s, vars, args[0], None);
            &&& r is Ok <==> args.len() == 1 && accepted(a, |x: TType| !(x is Unit))
            &&& r matches Ok(e) ==> e.ty is Unit && (e.kind matches TKind::Print { arg } && *arg
                == a->Ok_0)
        }),
{
    reveal(typing::callee_of);
    reveal(typing::callee_rule);
    reveal(typing::call_flow);
    reveal(typing::print_rule);
}

// ---- names, arms and places ---------------------------------------------

/// A name that is no variable, and a path, is a variant without values where there is one, and
/// otherwise a constant, with its type, where there is one.
pub proof fn law_global_names_are_accepted(
    s: Site,
    vars: Vars,
    segs: Seq<Text>,
    span: Span,
    t: Option<TType>,
)
    ensures
        ({
            let r = typing::check_expr(s, vars, AExpr::Path { segments: segs, span }, t);
            match typing::find_variant(s.defs, s.module, segs) {
                Some((n, tag, tys)) => if tys.len() == 0 {
                    r == Ok::<TExpr, Diag>(
                        TExpr {
                            kind: TKind::MakeEnum { name: n, tag, args: Seq::empty() },
                            ty: TType::Enum(n),
                        },
                    )
                } else {
                    r is Err
                },
                None => match typing::look_up(s.defs.consts, s.defs.imports, s.module, segs) {
                    Some((full, ty)) => r == Ok::<TExpr, Diag>(
                        TExpr { kind: TKind::ConstRef(full), ty },
                    ),
                    None => r is Err,
                },
            }
        }),
        segs.len() == 1 && (forall|j: int| 0 <= j < vars.len() ==> (#[trigger] vars[j]).0 != segs[0])
            ==> typing::check_expr(s, vars, AExpr::Ident { name: segs[0], span }, t)
            == typing::check_expr(s, vars, AExpr::Path { segments: segs, span }, t),
{
    reveal(typing::global_rule);
    if segs.len() == 1 && (forall|j: int|
        0 <= j < vars.len() ==> (#[trigger] vars[j]).0 != segs[0]) {
        reveal(typing::ident_rule);
        lemma_nowhere(vars, segs[0], vars.len() as int);
        assert(segs =~= seq![segs[0]]);
    }
}

proof fn lemma_nowhere(vars: Vars, name: Text, i: int)
    requires
        0 <= i <= vars.len(),
        forall|j: int| 0 <= j < vars.len() ==> (#[trigger] vars[j]).0 != name,
    ensures
        semantics::slot_before(vars, name, i) is None,
    decreases i,
{
    if i > 0 {
        lemma_nowhere(vars, name, i - 1);
    }
}

/// An arm is accepted exactly if its pattern is accepted for the type of what is matched and,
/// with the variables of the pattern in scope, its guard is a `bool` and its body is accepted.
pub proof fn law_arms_are_accepted(
    s: Site,
    vars: Vars,
    arm: ast::AMatchArm,
    sty: TType,
    t: Option<TType>,
)
    ensures
        ({
            let r = typing::check_arm(s, vars, arm, sty, t);
            let p = typing::check_pattern(s, arm.pattern, sty, vars);
            &&& p is Err ==> r is Err
            &&& p matches Ok((x, v1)) ==> {
                let b = typing::check_expr(s, v1, arm.body, t);
                match arm.guard {
                    None => {
                        &&& r is Ok <==> b is Ok
                        &&& r matches Ok(a) ==> a.pattern == x && a.guard is None && a.body
                            == b->Ok_0
                    },
                    Some(g) => {
                        let c = typing::check_expr(s, v1, g, Some(TType::Bool));
                        &&& r is Ok <==> accepted(c, |ty: TType| ty is Bool) && b is Ok
                        &&& r matches Ok(a) ==> a.pattern == x && a.guard == Some(c->Ok_0)
                            && a.body == b->Ok_0
                    },
                }
            }
        }),
{
    reveal(typing::arm_flow);
    reveal(typing::expect_type);
}

/// A part of what can be assigned to can be assigned to, and has the type of the part; so has an
/// element at an integer. Nothing but variables, fields, parts and elements can be assigned to.
pub proof fn law_parts_of_places_are_places(
    s: Site,
    vars: Vars,
    base: AExpr,
    index: AExpr,
    n: u64,
    span: Span,
    e: AExpr,
)
    requires
        n <= usize::MAX,
    ensures
        ({
            let b = typing::check_place(s, vars, base);
            let r = typing::check_place(
                s,
                vars,
                AExpr::TupleField { base: Box::new(base), index: n, span },
            );
            &&& r is Ok <==> b is Ok && b->Ok_0.ty() is Tuple && n < b->Ok_0.ty()->Tuple_0.len()
            &&& r matches Ok(p) ==> p.ty() == b->Ok_0.ty()->Tuple_0[n as int] && (
            p matches ir::TPlace::TupleField { base: x, index: i, ty } && *x == b->Ok_0 && i == n)
        }),
        ({
            let b = typing::check_place(s, vars, base);
            let i = typing::check_expr(s, vars, index, None);
            let r = typing::check_place(
                s,
                vars,
                AExpr::Index { base: Box::new(base), index: Box::new(index), span },
            );
            &&& r is Ok <==> b is Ok && b->Ok_0.ty() is Array && accepted(
                i,
                |ty: TType| numeric(ty),
            )
            &&& r matches Ok(p) ==> p.ty() == *(b->Ok_0.ty()->Array_0) && (
            p matches ir::TPlace::Index { base: x, index: y, ty } && *x == b->Ok_0 && *y
                == i->Ok_0)
        }),
        !(e is Ident || e is Field || e is TupleField || e is Index) ==> typing::check_place(
            s,
            vars,
            e,
        ) is Err,
{
    reveal(typing::part_place);
    reveal(typing::part_type);
    reveal(typing::index_place);
    reveal(typing::element_type);
    reveal(typing::index_type);
}

/// A field of what can be assigned to can be assigned to, and has the type of the field.
pub proof fn law_fields_of_places_are_places(
    s: Site,
    vars: Vars,
    base: AExpr,
    field: Text,
    span: Span,
    n: Text,
    d: ir::TStruct,
)
    requires
        typing::check_place(s, vars, base) matches Ok(b) && b.ty() == TType::Struct(n),
        name_map::find(s.defs.structs, n) == Some(d),
        d.fields.len() <= usize::MAX,
        forall|i: int, j: int|
            0 <= i < j < d.fields.len() ==> (#[trigger] d.fields[i]).name != (
            #[trigger] d.fields[j]).name,
    ensures
        ({
            let r = typing::check_place(s, vars, AExpr::Field { base: Box::new(base), field, span });
            &&& forall|i: int|
                0 <= i < d.fields.len() && (#[trigger] d.fields[i]).name == field ==> (r matches Ok(
                    p,
                ) && p.ty() == d.fields[i].ty && (p matches ir::TPlace::Field { base: x, index, ty }
                    && index == i && *x == typing::check_place(s, vars, base)->Ok_0))
            &&& (forall|i: int| 0 <= i < d.fields.len() ==> (#[trigger] d.fields[i]).name != field)
                ==> r is Err
        }),
{
    reveal(typing::field_place);
    reveal(typing::field_type);
    lemma_field(d.fields, field, 0);
}

/// What stands behind `else` is accepted like a block of its own, and an `if` there like a block
/// that holds it.
pub proof fn law_else_is_accepted(s: Site, vars: Vars, b: ABlock, e: AExpr, t: Option<TType>)
    ensures
        typing::check_else(s, vars, AElseBranch::Block(b), t) == typing::check_block(s, vars, b, t),
        typing::check_else(s, vars, AElseBranch::If(e), t) is Ok <==> typing::check_expr(
            s,
            vars,
            e,
            t,
        ) is Ok,
        typing::check_else(s, vars, AElseBranch::If(e), t) matches Ok(x) ==> x.stmts.len() == 0 && (
        x.tail matches Some(y) && *y == typing::check_expr(s, vars, e, t)->Ok_0) && x.ty
            == typing::check_expr(s, vars, e, t)->Ok_0.ty,
        typing::check_expr(s, vars, AExpr::Block(b), t) is Ok <==> typing::check_block(
            s,
            vars,
            b,
            t,
        ) is Ok,
        typing::check_expr(s, vars, AExpr::Block(b), t) matches Ok(x) ==> x.kind == TKind::Block(
            typing::check_block(s, vars, b, t)->Ok_0,
        ) && x.ty == typing::check_block(s, vars, b, t)->Ok_0.ty,
{
    reveal(typing::else_flow);
    reveal(typing::block_flow);
}

/// An array literal without elements is accepted exactly where an array of no elements is
/// expected.
pub proof fn law_empty_arrays_are_accepted(s: Site, vars: Vars, span: Span, t: Option<TType>)
    ensures
        ({
            let r = typing::check_expr(s, vars, AExpr::Array { elems: Seq::empty(), span }, t);
            &&& r is Ok <==> (t matches Some(TType::Array(x, n)) && n == 0)
            &&& r matches Ok(e) ==> Some(e.ty) == t && (e.kind matches TKind::Array(vs) && vs.len() == 0)
        }),
{
    reveal(typing::array_flow);
    reveal(typing::empty_array);
}

/// A literal as the amount of a shift takes the type of what is shifted where that has the
/// number, and is an `i32` otherwise.
pub proof fn law_shift_amounts_are_accepted(
    s: Site,
    vars: Vars,
    op: ast::BinOp,
    lhs: AExpr,
    value: i128,
    at: Span,
    span: Span,
    t: Option<TType>,
    w: u32,
)
    requires
        op is Shl || op is Shr,
        1 <= w <= 128,
        typing::check_expr(s, vars, lhs, t) matches Ok(l) && l.ty == TType::Bit(w),
        0 <= value,
    ensures
        ({
            let r = typing::check_expr(
                s,
                vars,
                AExpr::Binary {
                    op,
                    lhs: Box::new(lhs),
                    rhs: Box::new(AExpr::Int { value, span: at }),
                    span,
                },
                t,
            );
            let amount = |ty: TType|
                r matches Ok(e) && e.ty == TType::Bit(w) && (e.kind matches TKind::Binary {
                    op: o,
                    lhs: a,
                    rhs: b,
                } && *b == (TExpr { kind: TKind::Int(value), ty }));
            if value < pow2(w as nat) {
                amount(TType::Bit(w))
            } else if value < 0x8000_0000 {
                amount(TType::Int(IntTy { signed: true, width: 32 }))
            } else {
                r is Err
            }
        }),
{
    reveal(typing::shift_flow);
    reveal(typing::int_rule);
    assert(pow2(31) == 0x8000_0000) by {
        lemma2_to64();
    }
    assert(arith::bits_of_width(w) == w as nat);
    let rhs = AExpr::Int { value, span: at };
    let c = typing::amount_context(rhs, TType::Bit(w));
    assert(typing::check_expr(s, vars, rhs, c) == typing::int_rule(value, at, c));
    assert(typing::lower_op(op) is Shl || typing::lower_op(op) is Shr);
}

} // verus!
