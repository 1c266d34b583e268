//! The lowering rules: which netlist a synthesizable function stands for.
//!
//! The core IR wraps at every operation, while an expression of the target
//! language is truncated only where it is assigned. So every operation becomes a
//! wire of its own, of exactly the width of its result.
//!
//! Scalar types, all operators, immutable `let`, `if` and `match` as values, and
//! calls are lowered. What else a function may hold is refused with a reason.

use crate::arith;
use crate::hdl;
use crate::ir::{BinOp, TArm, TBlock, TExpr, TFunc, TKind, TModule, TParam, TPattern, TStmt, TType, UnOp};
use crate::name_map;
use crate::netlist::{Dir, NExpr, NItem, NModule, NPort};
use crate::scan::{self, Sought};
use crate::semantics;
use crate::text::{self, Text};
use vstd::arithmetic::power2::*;
use vstd::prelude::*;

verus! {

/// A type that a wire can carry.
#[derive(Clone, Copy, Debug, PartialEq, Eq, Structural)]
pub enum Scalar {
    Bool,
    Bit(u32),
}

impl Scalar {
    pub open spec fn width(self) -> u32 {
        match self {
            Scalar::Bool => 1,
            Scalar::Bit(n) => n,
        }
    }
}

/// The scalar that a type is, or why it cannot be lowered.
#[verifier::opaque]
pub open spec fn scalar_of(t: TType) -> Result<Scalar, Text> {
    match t {
        TType::Bool => Ok(Scalar::Bool),
        TType::Bit(n) => Ok(Scalar::Bit(n)),
        TType::Int(_) => Err("machine integer `"@ + t.show() + "` is not a hardware type"@),
        TType::Array(_, _) => Err("arrays are not yet supported by codegen"@),
        TType::Struct(n) => Err("struct `"@ + n + "` not yet supported by codegen"@),
        TType::Enum(n) => Err("enum `"@ + n + "` not yet supported by codegen"@),
        TType::Tuple(_) => Err("tuples are not yet supported by codegen"@),
        TType::Unit => Err("unit type cannot be a hardware value"@),
    }
}

// ---- names --------------------------------------------------------------

pub open spec fn is_word_char(c: char) -> bool {
    ('a' <= c && c <= 'z') || ('A' <= c && c <= 'Z') || ('0' <= c && c <= '9') || c == '_'
}

/// The characters from position `i` on: `::` becomes `__`, and whatever cannot
/// stand in an identifier becomes `_`.
pub open spec fn plain_chars(s: Text, i: int) -> Text
    decreases s.len() - i,
{
    if i < 0 || i >= s.len() {
        Seq::empty()
    } else if i + 1 < s.len() && s[i] == ':' && s[i + 1] == ':' {
        seq!['_', '_'] + plain_chars(s, i + 2)
    } else {
        seq![
            if is_word_char(s[i]) {
                s[i]
            } else {
                '_'
            },
        ] + plain_chars(s, i + 1)
    }
}

/// The identifier that stands for a full name.
pub open spec fn sanitized(name: Text) -> Text {
    let s = plain_chars(name, 0);
    if s.len() == 0 || ('0' <= s[0] && s[0] <= '9') {
        seq!['_'] + s
    } else {
        s
    }
}

/// Whether another function goes before the one called `name` with the identifier
/// that its name becomes: one that has that very name, or else one earlier in order.
pub open spec fn taken(funcs: Seq<(Text, TFunc)>, name: Text) -> bool {
    sanitized(name) != name && exists|j: int|
        0 <= j < funcs.len() && (#[trigger] funcs[j]).0 != name && sanitized(funcs[j].0)
            == sanitized(name) && (sanitized(funcs[j].0) == funcs[j].0 || text::text_less(
            funcs[j].0,
            name,
        ))
}

/// The length of the longest identifier among those of the first `i` functions.
pub open spec fn longest_name(funcs: Seq<(Text, TFunc)>, i: int) -> nat
    decreases i,
{
    if i <= 0 || i > funcs.len() {
        0
    } else if sanitized(funcs[i - 1].0).len() > longest_name(funcs, i - 1) {
        sanitized(funcs[i - 1].0).len()
    } else {
        longest_name(funcs, i - 1)
    }
}

/// The position, from `i` on, of the function called `name`.
pub open spec fn place_of(funcs: Seq<(Text, TFunc)>, name: Text, i: int) -> nat
    decreases funcs.len() - i,
{
    if i < 0 || i >= funcs.len() || funcs[i].0 == name {
        i as nat
    } else {
        place_of(funcs, name, i + 1)
    }
}

/// The name of the module that the function called `name` becomes: the identifier that
/// stands for its name, with a number behind it where another function goes before.
#[verifier::opaque]
pub open spec fn module_name(m: TModule, name: Text) -> Text {
    if taken(m.funcs, name) {
        sanitized(name) + underscores(longest_name(m.funcs, m.funcs.len() as int)) + text::dec(
            place_of(m.funcs, name, 0),
        )
    } else {
        sanitized(name)
    }
}

// ---- expressions --------------------------------------------------------

/// A lowered value: what carries it, and its type.
pub struct TNet {
    pub expr: NExpr,
    pub kind: Scalar,
}

/// The lowered variables, innermost last.
pub type Nets = Seq<(Text, TNet)>;

/// The items so far, the number of the next name, and what stands before the number
/// of every name.
pub struct Lo {
    pub items: Seq<NItem>,
    pub temp: nat,
    pub pad: Text,
}

/// What lowering gives.
pub type Lowered = Result<(TNet, Lo), Text>;

/// The next name with the given prefix.
pub open spec fn fresh(prefix: Text, n: nat) -> Text {
    prefix + text::dec(n)
}

/// A wire with the prefix that carries `e`, truncated to its width.
pub open spec fn wire(lo: Lo, prefix: Text, kind: Scalar, e: NExpr) -> (TNet, Lo) {
    let name = fresh(prefix + lo.pad, lo.temp);
    (
        TNet { expr: NExpr::Ref(name), kind },
        Lo {
            items: lo.items.push(NItem::Wire { name, width: kind.width(), value: e }),
            temp: lo.temp + 1,
            pad: lo.pad,
        },
    )
}

pub open spec fn emit_wire(lo: Lo, kind: Scalar, e: NExpr) -> Lowered {
    Ok(wire(lo, "w"@, kind, e))
}

/// The types of a construct do not agree.
pub open spec fn mismatch() -> Text {
    "internal type mismatch"@
}

pub open spec fn constant(value: u128, kind: Scalar) -> TNet {
    TNet { expr: NExpr::Const { value, width: kind.width() }, kind }
}

#[verifier::opaque]
pub open spec fn literal(v: i128, ty: TType, lo: Lo) -> Lowered {
    match scalar_of(ty) {
        Err(r) => Err(r),
        Ok(Scalar::Bool) => Err(mismatch()),
        Ok(Scalar::Bit(n)) => Ok(
            (constant(arith::wrap(v as int, n) as u128, Scalar::Bit(n)), lo),
        ),
    }
}

#[verifier::opaque]
pub open spec fn local(env: Nets, name: Text, lo: Lo) -> Lowered {
    match semantics::slot(env, name) {
        Some(p) => Ok((env[p].1, lo)),
        None => Err("unbound local `"@ + name + "`"@),
    }
}

#[verifier::opaque]
pub open spec fn unary_net(op: UnOp, ty: TType, inner: Lowered) -> Lowered {
    match inner {
        Err(r) => Err(r),
        Ok((i, lo)) => match scalar_of(ty) {
            Err(r) => Err(r),
            Ok(kind) => if kind == i.kind {
                emit_wire(lo, kind, NExpr::Un { op, e: Box::new(i.expr) })
            } else {
                Err(mismatch())
            },
        },
    }
}

pub open spec fn bin(op: BinOp, l: NExpr, r: NExpr) -> NExpr {
    NExpr::Bin { op, l: Box::new(l), r: Box::new(r) }
}

pub open spec fn is_power_of_two(w: nat) -> bool {
    exists|k: nat| w == pow2(k)
}

/// The amount of a shift of `width` bits, reduced modulo the width: a mask for a
/// power of two, else a remainder. An amount too narrow to reach the width is left
/// as it is.
pub open spec fn reduced(amount: TNet, width: u32, lo: Lo) -> (TNet, Lo) {
    let w = arith::bits_of_width(width);
    let aw = amount.kind.width();
    if is_power_of_two(w) {
        wire(
            lo,
            "w"@,
            amount.kind,
            bin(
                BinOp::BitAnd,
                amount.expr,
                NExpr::Const { value: (w - 1) as u128, width: aw },
            ),
        )
    } else if w < pow2(arith::bits_of_width(aw)) {
        wire(
            lo,
            "w"@,
            amount.kind,
            bin(BinOp::Rem, amount.expr, NExpr::Const { value: w as u128, width: aw }),
        )
    } else {
        (amount, lo)
    }
}

#[verifier::opaque]
pub open spec fn binary_net(op: BinOp, ty: TType, l: TNet, r: TNet, lo: Lo) -> Lowered {
    if op is Shl || op is Shr {
        let (amount, lo1) = reduced(r, l.kind.width(), lo);
        emit_wire(lo1, l.kind, bin(op, l.expr, amount.expr))
    } else if op.comparing() {
        if l.kind == r.kind {
            emit_wire(lo, Scalar::Bool, bin(op, l.expr, r.expr))
        } else {
            Err(mismatch())
        }
    } else if op.logical() {
        emit_wire(lo, Scalar::Bool, bin(op, l.expr, r.expr))
    } else {
        match scalar_of(ty) {
            Err(e) => Err(e),
            Ok(kind) => if l.kind == kind && r.kind == kind {
                emit_wire(lo, kind, bin(op, l.expr, r.expr))
            } else {
                Err(mismatch())
            },
        }
    }
}

/// The state after a lowering.
pub open spec fn state_of(r: Lowered) -> Lo {
    match r {
        Ok((_, lo)) => lo,
        Err(_) => nothing(Seq::empty()),
    }
}

#[verifier::opaque]
pub open spec fn binary_flow(op: BinOp, ty: TType, l: Lowered, r: Lowered) -> Lowered {
    match l {
        Err(e) => Err(e),
        Ok((a, _)) => match r {
            Err(e) => Err(e),
            Ok((b, lo)) => binary_net(op, ty, a, b, lo),
        },
    }
}

/// What lowering the arguments of a call gives: the connections, or a reason.
pub type Connected = Result<(Seq<(Text, NExpr)>, Lo), Text>;

/// The function that a call calls, or why it cannot be called.
#[verifier::opaque]
pub open spec fn call_target(m: TModule, func: Text, count: nat, ty: TType) -> Result<
    (TFunc, Scalar),
    Text,
> {
    match name_map::find(m.funcs, func) {
        None => Err("call to unknown function `"@ + func + "`"@),
        Some(f) => match scalar_of(ty) {
            Err(r) => Err(r),
            Ok(kind) => if f.params.len() == count && scalar_of(f.ret) == Ok::<Scalar, Text>(
                kind,
            ) {
                Ok((f, kind))
            } else {
                Err(mismatch())
            },
        },
    }
}

/// The parameters of the function that a call calls.
pub open spec fn target_params(t: Result<(TFunc, Scalar), Text>) -> Seq<TParam> {
    match t {
        Ok((f, _)) => f.params,
        Err(_) => Seq::empty(),
    }
}

#[verifier::opaque]
pub open spec fn call_flow(
    t: Result<(TFunc, Scalar), Text>,
    module: Text,
    conns: Connected,
) -> Lowered {
    match t {
        Err(r) => Err(r),
        Ok((f, kind)) => match conns {
            Err(r) => Err(r),
            Ok((conns, lo)) => {
                let out_wire = fresh("call"@ + lo.pad, lo.temp);
                Ok(
                    (
                        TNet { expr: NExpr::Ref(out_wire), kind },
                        Lo {
                            items: lo.items.push(
                                NItem::Instance {
                                    module,
                                    inst: fresh("u"@ + lo.pad, lo.temp + 1),
                                    conns,
                                    out_wire,
                                    out_width: kind.width(),
                                },
                            ),
                            temp: lo.temp + 2,
                            pad: lo.pad,
                        },
                    ),
                )
            },
        },
    }
}

#[verifier::opaque]
pub open spec fn arg_flow(p: TParam, arg: Lowered, acc: Seq<(Text, NExpr)>) -> Connected {
    match arg {
        Err(r) => Err(r),
        Ok((n, lo)) => if scalar_of(p.ty) == Ok::<Scalar, Text>(n.kind) {
            Ok((acc.push((p.name, n.expr)), lo))
        } else {
            Err(mismatch())
        },
    }
}

pub open spec fn ternary(c: NExpr, t: NExpr, e: NExpr) -> NExpr {
    NExpr::Ternary { c: Box::new(c), t: Box::new(t), e: Box::new(e) }
}

#[verifier::opaque]
pub open spec fn if_flow(c: Lowered, t: Lowered, e: Lowered, ty: TType) -> Lowered {
    match c {
        Err(r) => Err(r),
        Ok((c, _)) => match t {
            Err(r) => Err(r),
            Ok((t, _)) => match e {
                Err(r) => Err(r),
                Ok((e, lo)) => match scalar_of(ty) {
                    Err(r) => Err(r),
                    Ok(kind) => if t.kind == kind && e.kind == kind {
                        emit_wire(lo, kind, ternary(c.expr, t.expr, e.expr))
                    } else {
                        Err(mismatch())
                    },
                },
            },
        },
    }
}

/// The literal that a pattern stands for against a value of the given type.
#[verifier::opaque]
pub open spec fn pattern_value(p: TPattern, kind: Scalar) -> Result<u128, Text> {
    match p {
        TPattern::Int(v) => match kind {
            Scalar::Bool => Err(mismatch()),
            Scalar::Bit(n) => if arith::wrap(v as int, n) == v {
                Ok(arith::wrap(v as int, n) as u128)
            } else {
                Err(mismatch())
            },
        },
        TPattern::Bool(b) => match kind {
            Scalar::Bool => Ok(
                if b {
                    1u128
                } else {
                    0u128
                },
            ),
            Scalar::Bit(_) => Err(mismatch()),
        },
        TPattern::Variant { enum_name, tag, subpatterns } => Err(
            "enum/variant `match` not yet supported by codegen"@,
        ),
        _ => Err("this pattern is not yet supported by codegen"@),
    }
}

/// The variables that the body of an arm sees.
pub open spec fn arm_env(env: Nets, p: TPattern, scrut: TNet) -> Nets {
    match p {
        TPattern::Binding { name, ty } => env.push((name, scrut)),
        _ => env,
    }
}

/// The body of an arm that matches every value.
pub open spec fn whole_flow(kind: Scalar, body: Lowered) -> Lowered {
    match body {
        Err(r) => Err(r),
        Ok((b, lo)) => if b.kind == kind {
            Ok((b, lo))
        } else {
            Err(mismatch())
        },
    }
}

/// An arm before the arms behind it: they count where its pattern does not match.
#[verifier::opaque]
pub open spec fn arm_flow(
    arm: TArm,
    scrut: TNet,
    kind: Scalar,
    rest: Option<TNet>,
    body: Lowered,
) -> Lowered {
    if arm.guard is Some {
        Err("match guards are not yet supported by codegen"@)
    } else {
        match arm.pattern {
            TPattern::Wildcard => whole_flow(kind, body),
            TPattern::Binding { name, ty } => whole_flow(kind, body),
            _ => match pattern_value(arm.pattern, scrut.kind) {
                Err(r) => Err(r),
                Ok(v) => match whole_flow(kind, body) {
                    Err(r) => Err(r),
                    Ok((b, lo)) => match rest {
                        None => Err(
                            if arm.pattern is Bool {
                                "non-exhaustive bool match has no fallthrough"@
                            } else {
                                "non-exhaustive scalar match has no fallthrough"@
                            },
                        ),
                        Some(other) => {
                            let (c, lo1) = wire(
                                lo,
                                "w"@,
                                Scalar::Bool,
                                bin(
                                    BinOp::Eq,
                                    scrut.expr,
                                    NExpr::Const { value: v, width: scrut.kind.width() },
                                ),
                            );
                            emit_wire(lo1, kind, ternary(c.expr, b.expr, other.expr))
                        },
                    },
                },
            },
        }
    }
}

/// The net of a lowering.
pub open spec fn net_of(r: Lowered) -> TNet {
    match r {
        Ok((n, _)) => n,
        Err(_) => TNet { expr: NExpr::Ref(Seq::empty()), kind: Scalar::Bool },
    }
}

#[verifier::opaque]
pub open spec fn match_result(acc: Option<TNet>, lo: Lo) -> Lowered {
    match acc {
        Some(n) => Ok((n, lo)),
        None => Err("empty match"@),
    }
}

#[verifier::opaque]
pub open spec fn refused(e: TExpr) -> Lowered {
    match e.kind {
        TKind::Unit => Err("unit value is not lowerable"@),
        TKind::ConstRef(_) => Err("constants are not yet supported by codegen"@),
        TKind::Print { arg } => Err("`print` is not synthesizable"@),
        TKind::MakeStruct { name, fields } => Err(
            "aggregate construction not yet supported by codegen"@,
        ),
        TKind::MakeEnum { name, tag, args } => Err(
            "aggregate construction not yet supported by codegen"@,
        ),
        TKind::MakeTuple(_) => Err("aggregate construction not yet supported by codegen"@),
        _ => Err("aggregate access not yet supported by codegen"@),
    }
}

/// Whether a statement for effect has none, so that it can be left out: it assigns
/// nothing and returns nowhere.
pub open spec fn effectless(e: TExpr) -> bool {
    !scan::expr_has(e, Sought::Assign) && !scan::expr_has(e, Sought::Return)
}

/// A variable's wire has a readable name.
pub open spec fn variable_prefix(name: Text) -> Text {
    "v"@ + sanitized(name) + "_"@
}

/// The wire of a variable.
pub open spec fn bound(name: Text, init: Lowered) -> (TNet, Lo) {
    let n = net_of(init);
    wire(state_of(init), variable_prefix(name), n.kind, n.expr)
}

#[verifier::opaque]
pub open spec fn then_flow(first: Lowered, rest: Lowered) -> Lowered {
    match first {
        Err(r) => Err(r),
        Ok(_) => rest,
    }
}

#[verifier::opaque]
pub open spec fn scalar_flow<A>(k: Result<Scalar, Text>, rest: Result<A, Text>) -> Result<A, Text> {
    match k {
        Err(r) => Err(r),
        Ok(_) => rest,
    }
}

/// The scalar that a type is, for the parts that depend on it.
pub open spec fn kind_of(t: TType) -> Scalar {
    match scalar_of(t) {
        Ok(k) => k,
        Err(_) => Scalar::Bool,
    }
}

/// Lower an expression, behind the items so far.
pub open spec fn lower_expr(m: TModule, env: Nets, lo: Lo, e: TExpr) -> Lowered
    decreases e, 0int,
{
    match e.kind {
        TKind::Int(v) => literal(v, e.ty, lo),
        TKind::Bool(b) => Ok(
            (
                constant(
                    if b {
                        1
                    } else {
                        0
                    },
                    Scalar::Bool,
                ),
                lo,
            ),
        ),
        TKind::Local(name) => local(env, name, lo),
        TKind::Unary { op, expr } => unary_net(op, e.ty, lower_expr(m, env, lo, *expr)),
        TKind::Binary { op, lhs, rhs } => {
            let l = lower_expr(m, env, lo, *lhs);
            binary_flow(op, e.ty, l, lower_expr(m, env, state_of(l), *rhs))
        },
        TKind::Call { func, args } => {
            let t = call_target(m, func, args.len(), e.ty);
            call_flow(
                t,
                module_name(m, func),
                lower_args(m, env, lo, args, target_params(t), 0, Seq::empty()),
            )
        },
        TKind::If { cond, then_branch, else_branch } => {
            let c = lower_expr(m, env, lo, *cond);
            let t = lower_block(m, env, state_of(c), then_branch, 0);
            if_flow(c, t, lower_block(m, env, state_of(t), else_branch, 0), e.ty)
        },
        TKind::Match { scrutinee, arms } => {
            let s = lower_expr(m, env, lo, *scrutinee);
            then_flow(
                s,
                scalar_flow(
                    scalar_of(e.ty),
                    lower_arms(
                        m,
                        env,
                        state_of(s),
                        arms,
                        arms.len() - 1,
                        net_of(s),
                        kind_of(e.ty),
                        None,
                    ),
                ),
            )
        },
        TKind::Block(b) => lower_block(m, env, lo, b, 0),
        _ => refused(e),
    }
}

/// The arguments of a call from position `i` on, behind the connections `acc`.
pub open spec fn lower_args(
    m: TModule,
    env: Nets,
    lo: Lo,
    args: Seq<TExpr>,
    params: Seq<TParam>,
    i: int,
    acc: Seq<(Text, NExpr)>,
) -> Connected
    decreases args, args.len() - i,
{
    if i < 0 || i >= args.len() || i >= params.len() {
        Ok((acc, lo))
    } else {
        match arg_flow(params[i], lower_expr(m, env, lo, args[i]), acc) {
            Err(r) => Err(r),
            Ok((acc1, lo1)) => lower_args(m, env, lo1, args, params, i + 1, acc1),
        }
    }
}

/// The arms of a `match` from position `i` down to the first, before those that
/// `acc` stands for.
pub open spec fn lower_arms(
    m: TModule,
    env: Nets,
    lo: Lo,
    arms: Seq<TArm>,
    i: int,
    scrut: TNet,
    kind: Scalar,
    acc: Option<TNet>,
) -> Lowered
    decreases arms, i + 1,
{
    if i < 0 || i >= arms.len() {
        match_result(acc, lo)
    } else {
        match lower_arm(m, env, lo, arms[i], scrut, kind, acc) {
            Err(r) => Err(r),
            Ok((n, lo1)) => lower_arms(m, env, lo1, arms, i - 1, scrut, kind, Some(n)),
        }
    }
}

pub open spec fn lower_arm(
    m: TModule,
    env: Nets,
    lo: Lo,
    arm: TArm,
    scrut: TNet,
    kind: Scalar,
    rest: Option<TNet>,
) -> Lowered
    decreases arm, 0int,
{
    arm_flow(
        arm,
        scrut,
        kind,
        rest,
        lower_expr(m, arm_env(env, arm.pattern, scrut), lo, arm.body),
    )
}

/// The statements of a block from position `i` on and its value.
pub open spec fn lower_block(m: TModule, env: Nets, lo: Lo, b: TBlock, i: int) -> Lowered
    decreases b, b.stmts.len() - i,
{
    if i < 0 || i >= b.stmts.len() {
        match b.tail {
            Some(e) => lower_expr(m, env, lo, *e),
            None => Err("block has no value to lower"@),
        }
    } else {
        match b.stmts[i] {
            TStmt::Let { name, mutable, ty, init } => {
                let v = lower_expr(m, env, lo, init);
                let (n, lo1) = bound(name, v);
                then_flow(v, lower_block(m, env.push((name, n)), lo1, b, i + 1))
            },
            TStmt::Expr(e) => if scan::expr_has(e, Sought::Return) {
                Err("`return` is not yet supported by codegen"@)
            } else if !effectless(e) {
                Err("a statement with effects is not yet supported"@)
            } else {
                lower_block(m, env, lo, b, i + 1)
            },
            TStmt::Return { value } => Err("`return` is not yet supported by codegen"@),
            TStmt::Assign { place, value } => Err(
                "assignment / mutable locals not yet supported"@,
            ),
            TStmt::While { cond, body } => Err("`while` loops are not synthesizable"@),
            TStmt::For { var, ty, lo: a, hi, body } => Err(
                "`for` loops (unrolling) not yet supported"@,
            ),
        }
    }
}

// ---- functions ----------------------------------------------------------

/// The ports `acc` and those of the parameters from position `i` on.
pub open spec fn input_ports(ps: Seq<TParam>, i: int, acc: Seq<NPort>) -> Result<Seq<NPort>, Text>
    decreases ps.len() - i,
{
    if i < 0 || i >= ps.len() {
        Ok(acc)
    } else if ps[i].name == "out"@ {
        Err("a parameter named `out` collides with the output port"@)
    } else if exists|j: int| 0 <= j < i && (#[trigger] ps[j]).name == ps[i].name {
        Err("two parameters are named `"@ + ps[i].name + "`"@)
    } else {
        match scalar_of(ps[i].ty) {
            Err(r) => Err(r),
            Ok(kind) => input_ports(
                ps,
                i + 1,
                acc.push(NPort { dir: Dir::Input, name: ps[i].name, width: kind.width() }),
            ),
        }
    }
}

/// The variables that the parameters are.
pub open spec fn param_nets(ps: Seq<TParam>) -> Nets {
    Seq::new(
        ps.len(),
        |i: int| (ps[i].name, TNet { expr: NExpr::Ref(ps[i].name), kind: kind_of(ps[i].ty) }),
    )
}

/// The wire that an item declares.
pub open spec fn declared(item: NItem) -> Text {
    match item {
        NItem::Wire { name, width, value } => name,
        NItem::Assign { lhs, rhs } => lhs,
        NItem::Instance { module, inst, conns, out_wire, out_width } => out_wire,
    }
}

/// Whether an item gives the name `x` to a wire or to an instance.
pub open spec fn takes(item: NItem, x: Text) -> bool {
    declared(item) == x || match item {
        NItem::Instance { module, inst, conns, out_wire, out_width } => inst == x,
        _ => false,
    }
}

/// Whether an item takes the name of a parameter.
pub open spec fn hides(items: Seq<NItem>, ps: Seq<TParam>) -> bool {
    exists|i: int, j: int|
        0 <= i < items.len() && 0 <= j < ps.len() && takes(
            #[trigger] items[i],
            (#[trigger] ps[j]).name,
        )
}

pub open spec fn nothing(pad: Text) -> Lo {
    Lo { items: Seq::empty(), temp: 0, pad }
}

pub open spec fn underscores(n: nat) -> Text {
    text::repeated('_', n)
}

/// The length of the longest name among the first `i` parameters.
pub open spec fn longest(ps: Seq<TParam>, i: int) -> nat
    decreases i,
{
    if i <= 0 || i > ps.len() {
        0
    } else if ps[i - 1].name.len() > longest(ps, i - 1) {
        ps[i - 1].name.len()
    } else {
        longest(ps, i - 1)
    }
}

/// What stands before the numbers: nothing, unless a name without it would be that of
/// a parameter; then so much that every name is longer than those of the parameters.
pub open spec fn padding(items: Seq<NItem>, ps: Seq<TParam>) -> Text {
    if hides(items, ps) {
        underscores(longest(ps, ps.len() as int))
    } else {
        Seq::empty()
    }
}

/// The body of a function that returns a value of the type `ret`.
#[verifier::opaque]
pub open spec fn lower_body(m: TModule, f: TFunc, ret: Scalar, pad: Text) -> Lowered {
    match lower_block(m, param_nets(f.params), nothing(pad), f.body, 0) {
        Err(r) => Err(r),
        Ok((n, lo)) => if n.kind != ret {
            Err(
                "internal width mismatch: body "@ + text::dec(n.kind.width() as nat)
                    + " vs return "@ + text::dec(ret.width() as nat),
            )
        } else {
            Ok((n, lo))
        },
    }
}

/// The module that a function becomes, or why it cannot be lowered.
#[verifier::opaque]
pub open spec fn lower_func(m: TModule, name: Text, f: TFunc) -> Result<NModule, Text> {
    match input_ports(f.params, 0, Seq::empty()) {
        Err(r) => Err(r),
        Ok(ports) => match scalar_of(f.ret) {
            Err(r) => Err(r),
            Ok(ret) => match lower_body(m, f, ret, Seq::empty()) {
                Err(r) => Err(r),
                Ok((_, first)) => match lower_body(m, f, ret, padding(first.items, f.params)) {
                    Err(r) => Err(r),
                    Ok((n, lo)) => Ok(
                        NModule {
                            name: module_name(m, name),
                            ports: ports.push(
                                NPort { dir: Dir::Output, name: "out"@, width: ret.width() },
                            ),
                            items: lo.items.push(NItem::Assign { lhs: "out"@, rhs: n.expr }),
                        },
                    ),
                },
            },
        },
    }
}

// ---- modules ------------------------------------------------------------

/// Whether the function at position `i` can be lowered on its own.
pub open spec fn candidate(m: TModule, i: int) -> bool {
    hdl::synthesizable(m, i) && lower_func(m, m.funcs[i].0, m.funcs[i].1) is Ok
}

/// Whether the function at position `i` is lowered, with calls that nest less than
/// `k` deep: it can be lowered, and the functions that it calls are lowered.
pub open spec fn lowered_within(m: TModule, i: int, k: nat) -> bool
    decreases k, 1int, 0int,
{
    k > 0 && candidate(m, i) && callees_lowered(
        m,
        hdl::call_graph(m)[i],
        0,
        (k - 1) as nat,
    )
}

/// Whether the functions at the positions from `j` on in the list are lowered.
pub open spec fn callees_lowered(m: TModule, cs: Seq<usize>, j: int, k: nat) -> bool
    decreases k, 2int, cs.len() - j,
{
    if j < 0 || j >= cs.len() {
        true
    } else {
        lowered_within(m, cs[j] as int, k) && callees_lowered(m, cs, j + 1, k)
    }
}

/// Whether the function at position `i` is lowered.
pub open spec fn is_lowered(m: TModule, i: int) -> bool {
    lowered_within(m, i, m.funcs.len())
}

/// The first callee from position `j` on that is not lowered.
pub open spec fn unlowered(m: TModule, cs: Seq<usize>, j: int) -> Text
    decreases cs.len() - j,
{
    if j < 0 || j >= cs.len() {
        Seq::empty()
    } else if is_lowered(m, cs[j] as int) {
        unlowered(m, cs, j + 1)
    } else {
        m.funcs[cs[j] as int].0
    }
}

/// Why the function at position `i` is not lowered.
pub open spec fn skip_reason(m: TModule, i: int) -> Text {
    if !hdl::synthesizable(m, i) {
        text::join_texts(hdl::reasons(m, i), "; "@)
    } else {
        "codegen unsupported: "@ + match lower_func(m, m.funcs[i].0, m.funcs[i].1) {
            Err(r) => r,
            Ok(_) => "calls `"@ + unlowered(m, hdl::call_graph(m)[i], 0)
                + "`, which is not lowered"@,
        }
    }
}

/// The module that the function at position `i` becomes.
pub open spec fn module_of(m: TModule, i: int) -> NModule {
    match lower_func(m, m.funcs[i].0, m.funcs[i].1) {
        Ok(x) => x,
        Err(_) => NModule { name: Seq::empty(), ports: Seq::empty(), items: Seq::empty() },
    }
}

/// The modules of the functions from position `i` on.
pub open spec fn design_from(m: TModule, i: int) -> Seq<NModule>
    decreases m.funcs.len() - i,
{
    if i < 0 || i >= m.funcs.len() {
        Seq::empty()
    } else if is_lowered(m, i) {
        seq![module_of(m, i)] + design_from(m, i + 1)
    } else {
        design_from(m, i + 1)
    }
}

/// The functions from position `i` on that are not lowered, with the reasons.
pub open spec fn skipped_from(m: TModule, i: int) -> Seq<(Text, Text)>
    decreases m.funcs.len() - i,
{
    if i < 0 || i >= m.funcs.len() {
        Seq::empty()
    } else if is_lowered(m, i) {
        skipped_from(m, i + 1)
    } else {
        seq![(m.funcs[i].0, skip_reason(m, i))] + skipped_from(m, i + 1)
    }
}

} // verus!
