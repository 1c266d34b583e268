//! What occurs in a typed body: prints, loops, assignments, returns, constants and
//! calls, however deeply nested.

use crate::ir::{self, Arm, Block, Expr, ExprKind, Place, Stmt, TArm, TBlock, TExpr, TKind, TPlace, TStmt};
use crate::text::{str_eq, Text};
use vstd::prelude::*;

verus! {

broadcast use {ir::group_model, ir::group_built};

/// What a body is searched for.
pub enum Sought {
    Print,
    While,
    Assign,
    Return,
    /// A call of the named function.
    Call(Text),
}

pub open spec fn expr_has(e: TExpr, x: Sought) -> bool
    decreases e, 0int,
{
    match e.kind {
        TKind::Unary { op, expr } => expr_has(*expr, x),
        TKind::Binary { op, lhs, rhs } => expr_has(*lhs, x) || expr_has(*rhs, x),
        TKind::Call { func, args } => x == Sought::Call(func) || exprs_have(args, x, 0),
        TKind::Print { arg } => x is Print || expr_has(*arg, x),
        TKind::MakeStruct { name, fields } => exprs_have(fields, x, 0),
        TKind::MakeEnum { name, tag, args } => exprs_have(args, x, 0),
        TKind::MakeTuple(es) => exprs_have(es, x, 0),
        TKind::Field { base, index } => expr_has(*base, x),
        TKind::TupleField { base, index } => expr_has(*base, x),
        TKind::Index { base, index } => expr_has(*base, x) || expr_has(*index, x),
        TKind::Array(es) => exprs_have(es, x, 0),
        TKind::If { cond, then_branch, else_branch } => expr_has(*cond, x) || block_has(
            then_branch,
            x,
        ) || block_has(else_branch, x),
        TKind::Match { scrutinee, arms } => expr_has(*scrutinee, x) || arms_have(arms, x, 0),
        TKind::Block(b) => block_has(b, x),
        _ => false,
    }
}

/// One of the expressions from position `i` on.
pub open spec fn exprs_have(es: Seq<TExpr>, x: Sought, i: int) -> bool
    decreases es, es.len() - i,
{
    if i < 0 || i >= es.len() {
        false
    } else {
        expr_has(es[i], x) || exprs_have(es, x, i + 1)
    }
}

pub open spec fn arm_has(a: TArm, x: Sought) -> bool
    decreases a, 0int,
{
    (match a.guard {
        Some(g) => expr_has(g, x),
        None => false,
    }) || expr_has(a.body, x)
}

/// One of the arms from position `i` on.
pub open spec fn arms_have(arms: Seq<TArm>, x: Sought, i: int) -> bool
    decreases arms, arms.len() - i,
{
    if i < 0 || i >= arms.len() {
        false
    } else {
        arm_has(arms[i], x) || arms_have(arms, x, i + 1)
    }
}

pub open spec fn place_has(p: TPlace, x: Sought) -> bool
    decreases p, 0int,
{
    match p {
        TPlace::Local { name, ty } => false,
        TPlace::Field { base, index, ty } => place_has(*base, x),
        TPlace::TupleField { base, index, ty } => place_has(*base, x),
        TPlace::Index { base, index, ty } => place_has(*base, x) || expr_has(*index, x),
    }
}

pub open spec fn stmt_has(st: TStmt, x: Sought) -> bool
    decreases st, 0int,
{
    match st {
        TStmt::Let { name, mutable, ty, init } => expr_has(init, x),
        TStmt::Assign { place, value } => x is Assign || place_has(place, x) || expr_has(value, x),
        TStmt::While { cond, body } => x is While || expr_has(cond, x) || block_has(body, x),
        TStmt::For { var, ty, lo, hi, body } => expr_has(lo, x) || expr_has(hi, x) || block_has(
            body,
            x,
        ),
        TStmt::Return { value } => x is Return || match value {
            Some(e) => expr_has(e, x),
            None => false,
        },
        TStmt::Expr(e) => expr_has(e, x),
    }
}

/// One of the statements from position `i` on.
pub open spec fn stmts_have(sts: Seq<TStmt>, x: Sought, i: int) -> bool
    decreases sts, sts.len() - i,
{
    if i < 0 || i >= sts.len() {
        false
    } else {
        stmt_has(sts[i], x) || stmts_have(sts, x, i + 1)
    }
}

pub open spec fn block_has(b: TBlock, x: Sought) -> bool
    decreases b, 0int,
{
    stmts_have(b.stmts, x, 0) || match b.tail {
        Some(e) => expr_has(*e, x),
        None => false,
    }
}

// ---- search -------------------------------------------------------------

/// What a body is searched for.
pub enum Seek<'a> {
    Print,
    While,
    Assign,
    Return,
    Call(&'a str),
}

impl<'a> View for Seek<'a> {
    type V = Sought;

    open spec fn view(&self) -> Sought {
        match *self {
            Seek::Print => Sought::Print,
            Seek::While => Sought::While,
            Seek::Assign => Sought::Assign,
            Seek::Return => Sought::Return,
            Seek::Call(n) => Sought::Call(n@),
        }
    }
}

impl<'a> Seek<'a> {
    fn is_call_of(&self, name: &String) -> (b: bool)
        ensures
            b == (self@ == Sought::Call(name@)),
    {
        match self {
            Seek::Call(n) => str_eq(n, name.as_str()),
            _ => false,
        }
    }
}

/// Whether `x` occurs in the expression.
pub fn scan_expr(e: &Expr, x: &Seek) -> (b: bool)
    ensures
        b == expr_has(e@, x@),
    decreases e, 0int,
{
    proof {
        ir::lemma_plain_nodes();
        assert(*e == Expr { kind: e.kind, ty: e.ty });
    }
    let ghost k = e.kind;
    match &e.kind {
        ExprKind::Int(v) => {
            assert(k == ExprKind::Int(*v));
            false
        },
        ExprKind::Bool(v) => {
            assert(k == ExprKind::Bool(*v));
            false
        },
        ExprKind::Unit => false,
        ExprKind::Local(n) => {
            assert(k == ExprKind::Local(*n));
            false
        },
        ExprKind::ConstRef(n) => {
            assert(k == ExprKind::ConstRef(*n));
            false
        },
        ExprKind::Unary { op, expr } => {
            assert(k == ExprKind::Unary { op: *op, expr: *expr });
            scan_expr(expr, x)
        },
        ExprKind::Binary { op, lhs, rhs } => {
            assert(k == ExprKind::Binary { op: *op, lhs: *lhs, rhs: *rhs });
            scan_expr(lhs, x) || scan_expr(rhs, x)
        },
        ExprKind::Call { func, args } => {
            assert(k == ExprKind::Call { func: *func, args: *args });
            x.is_call_of(func) || scan_exprs(args, x)
        },
        ExprKind::Print { arg } => {
            assert(k == ExprKind::Print { arg: *arg });
            let here = match x {
                Seek::Print => true,
                _ => false,
            };
            here || scan_expr(arg, x)
        },
        ExprKind::MakeStruct { name, fields } => {
            assert(k == ExprKind::MakeStruct { name: *name, fields: *fields });
            scan_exprs(fields, x)
        },
        ExprKind::MakeEnum { name, tag, args } => {
            assert(k == ExprKind::MakeEnum { name: *name, tag: *tag, args: *args });
            scan_exprs(args, x)
        },
        ExprKind::MakeTuple(es) => {
            assert(k == ExprKind::MakeTuple(*es));
            scan_exprs(es, x)
        },
        ExprKind::Field { base, index } => {
            assert(k == ExprKind::Field { base: *base, index: *index });
            scan_expr(base, x)
        },
        ExprKind::TupleField { base, index } => {
            assert(k == ExprKind::TupleField { base: *base, index: *index });
            scan_expr(base, x)
        },
        ExprKind::Index { base, index } => {
            assert(k == ExprKind::Index { base: *base, index: *index });
            scan_expr(base, x) || scan_expr(index, x)
        },
        ExprKind::Array(es) => {
            assert(k == ExprKind::Array(*es));
            scan_exprs(es, x)
        },
        ExprKind::If { cond, then_branch, else_branch } => {
            assert(k == ExprKind::If {
                cond: *cond,
                then_branch: *then_branch,
                else_branch: *else_branch,
            });
            scan_expr(cond, x) || scan_block(then_branch, x) || scan_block(else_branch, x)
        },
        ExprKind::Match { scrutinee, arms } => {
            assert(k == ExprKind::Match { scrutinee: *scrutinee, arms: *arms });
            scan_expr(scrutinee, x) || scan_arms(arms, x)
        },
        ExprKind::Block(b) => {
            assert(k == ExprKind::Block(*b));
            scan_block(b, x)
        },
    }
}

fn scan_exprs(es: &Vec<Expr>, x: &Seek) -> (b: bool)
    ensures
        b == exprs_have(ir::exprs_of(es@), x@, 0),
    decreases es, 1int,
{
    let ghost ms = ir::exprs_of(es@);
    let mut i: usize = 0;
    while i < es.len()
        invariant
            i <= es.len(),
            ms == ir::exprs_of(es@),
            exprs_have(ms, x@, 0) == exprs_have(ms, x@, i as int),
        decreases es.len() - i,
    {
        assert(ms[i as int] == es[i as int]@);
        if scan_expr(&es[i], x) {
            return true;
        }
        i += 1;
    }
    false
}

/// Whether `x` occurs in the arm.
fn scan_arm(a: &Arm, x: &Seek) -> (b: bool)
    ensures
        b == arm_has(a@, x@),
    decreases a, 0int,
{
    proof {
        assert(*a == Arm { pattern: a.pattern, guard: a.guard, body: a.body });
    }
    if let Some(g) = &a.guard {
        if scan_expr(g, x) {
            return true;
        }
    }
    scan_expr(&a.body, x)
}

fn scan_arms(es: &Vec<Arm>, x: &Seek) -> (b: bool)
    ensures
        b == arms_have(ir::arms_of(es@), x@, 0),
    decreases es, 1int,
{
    let ghost ms = ir::arms_of(es@);
    let mut i: usize = 0;
    while i < es.len()
        invariant
            i <= es.len(),
            ms == ir::arms_of(es@),
            arms_have(ms, x@, 0) == arms_have(ms, x@, i as int),
        decreases es.len() - i,
    {
        assert(ms[i as int] == es[i as int]@);
        if scan_arm(&es[i], x) {
            return true;
        }
        i += 1;
    }
    false
}

/// Whether `x` occurs in the place.
fn scan_place(p: &Place, x: &Seek) -> (b: bool)
    ensures
        b == place_has(p@, x@),
    decreases p, 0int,
{
    match p {
        Place::Local { name, ty } => {
            assert(*p == Place::Local { name: *name, ty: *ty });
            false
        },
        Place::Field { base, index, ty } => {
            assert(*p == Place::Field { base: *base, index: *index, ty: *ty });
            scan_place(base, x)
        },
        Place::TupleField { base, index, ty } => {
            assert(*p == Place::TupleField { base: *base, index: *index, ty: *ty });
            scan_place(base, x)
        },
        Place::Index { base, index, ty } => {
            assert(*p == Place::Index { base: *base, index: *index, ty: *ty });
            scan_place(base, x) || scan_expr(index, x)
        },
    }
}

/// Whether `x` occurs in the statement.
fn scan_stmt(st: &Stmt, x: &Seek) -> (b: bool)
    ensures
        b == stmt_has(st@, x@),
    decreases st, 0int,
{
    match st {
        Stmt::Let { name, mutable, ty, init } => {
            assert(*st == Stmt::Let { name: *name, mutable: *mutable, ty: *ty, init: *init });
            scan_expr(init, x)
        },
        Stmt::Assign { place, value } => {
            assert(*st == Stmt::Assign { place: *place, value: *value });
            let here = match x {
                Seek::Assign => true,
                _ => false,
            };
            here || scan_place(place, x) || scan_expr(value, x)
        },
        Stmt::While { cond, body } => {
            assert(*st == Stmt::While { cond: *cond, body: *body });
            let here = match x {
                Seek::While => true,
                _ => false,
            };
            here || scan_expr(cond, x) || scan_block(body, x)
        },
        Stmt::For { var, ty, lo, hi, body } => {
            assert(*st == Stmt::For { var: *var, ty: *ty, lo: *lo, hi: *hi, body: *body });
            scan_expr(lo, x) || scan_expr(hi, x) || scan_block(body, x)
        },
        Stmt::Return { value } => {
            assert(*st == Stmt::Return { value: *value });
            let here = match x {
                Seek::Return => true,
                _ => false,
            };
            if here {
                return true;
            }
            match value {
                Some(e) => scan_expr(e, x),
                None => false,
            }
        },
        Stmt::Expr(e) => {
            assert(*st == Stmt::Expr(*e));
            scan_expr(e, x)
        },
    }
}

fn scan_stmts(es: &Vec<Stmt>, x: &Seek) -> (b: bool)
    ensures
        b == stmts_have(ir::stmts_of(es@), x@, 0),
    decreases es, 1int,
{
    let ghost ms = ir::stmts_of(es@);
    let mut i: usize = 0;
    while i < es.len()
        invariant
            i <= es.len(),
            ms == ir::stmts_of(es@),
            stmts_have(ms, x@, 0) == stmts_have(ms, x@, i as int),
        decreases es.len() - i,
    {
        assert(ms[i as int] == es[i as int]@);
        if scan_stmt(&es[i], x) {
            return true;
        }
        i += 1;
    }
    false
}

/// Whether `x` occurs in the block.
pub fn scan_block(b: &Block, x: &Seek) -> (r: bool)
    ensures
        r == block_has(b@, x@),
    decreases b, 0int,
{
    proof {
        assert(*b == Block { stmts: b.stmts, tail: b.tail, ty: b.ty });
    }
    if scan_stmts(&b.stmts, x) {
        return true;
    }
    match &b.tail {
        Some(e) => scan_expr(e, x),
        None => false,
    }
}

} // verus!
