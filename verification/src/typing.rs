//! The typing rules: which typed program a syntax tree stands for.
//!
//! Every rule gives the typed construct, or the diagnostic of the first
//! violation. Integer literals take their type from their context: an expected
//! type flows into expressions from annotations, parameters, return types,
//! fields and payloads; in a binary operation a literal takes the type of the
//! other operand; without any context it is an `i32`. There are no implicit
//! conversions.

use crate::arith;
use crate::ast::{self, ABlock, AElseBranch, AExpr, AMatchArm, APattern, AStmt, ATypeExpr};
use crate::diagnostic::{Diag, Stage};
use crate::ir::{self, IntTy, TArm, TBlock, TEnum, TExpr, TField, TKind, TPattern, TPlace, TSig, TStmt, TStruct, TType, TVariant};
use crate::name_map::{self, Table};
use crate::semantics;
use crate::span::Span;
use crate::text::{self, Text};
use vstd::arithmetic::power2::*;
use vstd::prelude::*;

verus! {

/// An import of the module called `module`.
pub struct AImport {
    pub module: Text,
    pub path: Seq<Text>,
    pub glob: bool,
}

/// The definitions that a program makes, by full name (`module::name`).
pub struct Defs {
    pub structs: Table<TStruct>,
    pub enums: Table<TEnum>,
    /// Variant name to the enum and tag.
    pub variants: Table<(Text, usize)>,
    pub funcs: Table<TSig>,
    pub consts: Table<TType>,
    /// By their keys.
    pub imports: Table<AImport>,
}

/// A variable in scope.
pub struct Var {
    pub ty: TType,
    pub mutable: bool,
}

/// The variables in scope, innermost last.
pub type Vars = Seq<(Text, Var)>;

/// Where checking takes place: the definitions, the enclosing module, and the
/// return type of the enclosing function.
pub struct Site {
    pub defs: Defs,
    pub module: Text,
    pub ret: TType,
}

pub open spec fn type_error(message: Text, span: Span) -> Diag {
    Diag { stage: Stage::Type, message, span }
}

/// `i32`, the type of a literal without context.
pub open spec fn i32_type() -> TType {
    TType::Int(IntTy { signed: true, width: 32 })
}

/// Whether the literal `v` fits in the integer-like type `ty`.
pub open spec fn fits(v: int, ty: TType) -> bool {
    match ty {
        TType::Int(it) => arith::in_range(v, it),
        TType::Bit(n) => 0 <= v < pow2(arith::bits_of_width(n)),
        _ => false,
    }
}

// ---- names --------------------------------------------------------------

/// A path as it is written.
pub open spec fn path_text(segs: Seq<Text>) -> Text {
    text::join_texts(segs, "::"@)
}

/// The full name of `name` in the module `m`.
pub open spec fn qualify(m: Text, name: Text) -> Text {
    if m.len() == 0 {
        name
    } else {
        m + "::"@ + name
    }
}

/// A text behind its length.
pub open spec fn framed(t: Text) -> Text {
    text::dec(t.len()) + ":"@ + t
}

/// The texts from position `i` on, each behind its length.
pub open spec fn framed_from(ts: Seq<Text>, i: int) -> Text
    decreases ts.len() - i,
{
    if i < 0 || i >= ts.len() {
        Seq::empty()
    } else {
        framed(ts[i]) + framed_from(ts, i + 1)
    }
}

/// What an import is kept under. Imports of single names come before those of whole
/// modules; their places in the source do not matter.
pub open spec fn import_key(u: AImport) -> Text {
    (if u.glob {
        "*"@
    } else {
        "!"@
    }) + framed(u.module) + framed_from(u.path, 0)
}

/// The path that an import makes of `segs`, if it applies to it.
pub open spec fn imported(u: AImport, m: Text, segs: Seq<Text>) -> Option<Seq<Text>> {
    if u.module != m || segs.len() == 0 {
        None
    } else if u.glob {
        Some(u.path + segs)
    } else if u.path.len() > 0 && u.path.last() == segs[0] {
        Some(u.path + segs.subrange(1, segs.len() as int))
    } else {
        None
    }
}

/// The name under which an import from position `i` on finds `segs`. An imported
/// path is taken relative to the module, then from the root.
pub open spec fn import_hit<T>(
    map: Table<T>,
    imports: Table<AImport>,
    m: Text,
    segs: Seq<Text>,
    i: int,
) -> Option<Text>
    decreases imports.len() - i,
{
    if i < 0 || i >= imports.len() {
        None
    } else {
        match imported(imports[i].1, m, segs) {
            None => import_hit(map, imports, m, segs, i + 1),
            Some(p) => {
                let t = path_text(p);
                if name_map::find(map, qualify(m, t)) is Some {
                    Some(qualify(m, t))
                } else if name_map::find(map, t) is Some {
                    Some(t)
                } else {
                    import_hit(map, imports, m, segs, i + 1)
                }
            },
        }
    }
}

/// The full name that the path `segs` stands for in the module `m`: a definition
/// of the module, then an imported one, then one from the root.
pub open spec fn find_name<T>(map: Table<T>, imports: Table<AImport>, m: Text, segs: Seq<Text>) -> Option<
    Text,
> {
    let t = path_text(segs);
    if name_map::find(map, qualify(m, t)) is Some {
        Some(qualify(m, t))
    } else {
        match import_hit(map, imports, m, segs, 0) {
            Some(n) => Some(n),
            None => if name_map::find(map, t) is Some {
                Some(t)
            } else {
                None
            },
        }
    }
}

/// What the path `segs` stands for in the module `m`.
pub open spec fn look_up<T>(map: Table<T>, imports: Table<AImport>, m: Text, segs: Seq<Text>) -> Option<
    (Text, T),
> {
    match find_name(map, imports, m, segs) {
        Some(n) => match name_map::find(map, n) {
            Some(v) => Some((n, v)),
            None => None,
        },
        None => None,
    }
}

/// The payload types of the variant that a path stands for, with the enum and the
/// tag.
pub open spec fn find_variant(defs: Defs, m: Text, segs: Seq<Text>) -> Option<
    (Text, usize, Seq<TType>),
> {
    match look_up(defs.variants, defs.imports, m, segs) {
        None => None,
        Some((_, (en, tag))) => match name_map::find(defs.enums, en) {
            None => None,
            Some(d) => if tag < d.variants.len() {
                Some((en, tag, d.variants[tag as int].fields))
            } else {
                None
            },
        },
    }
}

// ---- types --------------------------------------------------------------

/// The type that a type annotation stands for in the module `m`.
pub open spec fn resolve(defs: Defs, m: Text, t: ATypeExpr, span: Span) -> Result<TType, Diag>
    decreases t, 0int,
{
    match t {
        ATypeExpr::Bool => Ok(TType::Bool),
        ATypeExpr::Unit => Ok(TType::Unit),
        ATypeExpr::Int { signed, width } => Ok(TType::Int(IntTy { signed, width })),
        ATypeExpr::Bit { width } => Ok(TType::Bit(width)),
        ATypeExpr::Array { elem, len } => match resolve(defs, m, *elem, span) {
            Err(d) => Err(d),
            Ok(e) => Ok(TType::Array(Box::new(e), len)),
        },
        ATypeExpr::Named(path) => named_type(defs, m, path, span),
        ATypeExpr::Tuple(ts) => match resolve_all(defs, m, ts, span, 0, Seq::empty()) {
            Err(d) => Err(d),
            Ok(es) => Ok(tuple_type(es)),
        },
    }
}

/// The types `acc` and those that the annotations from position `i` on stand for.
pub open spec fn resolve_all(
    defs: Defs,
    m: Text,
    ts: Seq<ATypeExpr>,
    span: Span,
    i: int,
    acc: Seq<TType>,
) -> Result<Seq<TType>, Diag>
    decreases ts, ts.len() - i,
{
    if i < 0 || i >= ts.len() {
        Ok(acc)
    } else {
        match resolve(defs, m, ts[i], span) {
            Err(d) => Err(d),
            Ok(t) => resolve_all(defs, m, ts, span, i + 1, acc.push(t)),
        }
    }
}

pub open spec fn named_type(defs: Defs, m: Text, path: Seq<Text>, span: Span) -> Result<TType, Diag> {
    match find_name(defs.structs, defs.imports, m, path) {
        Some(n) => Ok(TType::Struct(n)),
        None => match find_name(defs.enums, defs.imports, m, path) {
            Some(n) => Ok(TType::Enum(n)),
            None => Err(type_error("unknown type `"@ + path_text(path) + "`"@, span)),
        },
    }
}

/// The type of a tuple with elements of the given types: a tuple of one element
/// is that element, the empty tuple is the unit type.
pub open spec fn tuple_type(es: Seq<TType>) -> TType {
    if es.len() == 0 {
        TType::Unit
    } else if es.len() == 1 {
        es[0]
    } else {
        TType::Tuple(es)
    }
}

/// The type `got` must be `want`.
#[verifier::opaque]
pub open spec fn expect_type(got: TType, want: TType, span: Span, what: Text) -> Result<(), Diag> {
    if got == want {
        Ok(())
    } else {
        Err(
            type_error(
                what + " must be `"@ + want.show() + "`, found `"@ + got.show() + "`"@,
                span,
            ),
        )
    }
}

/// The position and type of a field.
#[verifier::opaque]
pub open spec fn field_type(defs: Defs, base: TType, field: Text, span: Span) -> Result<
    (usize, TType),
    Diag,
> {
    match base {
        TType::Struct(name) => match name_map::find(defs.structs, name) {
            None => Err(type_error("unknown struct `"@ + name + "`"@, span)),
            Some(d) => match ir::field_from(d.fields, field, 0) {
                Some(i) => Ok((i, d.fields[i as int].ty)),
                None => Err(
                    type_error(
                        "struct `"@ + name + "` has no field `"@ + field + "`"@,
                        span,
                    ),
                ),
            },
        },
        _ => Err(
            type_error(
                "cannot access field `"@ + field + "` on type `"@ + base.show() + "`"@,
                span,
            ),
        ),
    }
}

/// The type of a tuple element.
#[verifier::opaque]
pub open spec fn part_type(base: TType, index: u64, span: Span) -> Result<(usize, TType), Diag> {
    match base {
        TType::Tuple(ts) => if index < ts.len() {
            Ok((index as usize, ts[(index as usize) as int]))
        } else {
            Err(
                type_error(
                    "tuple index `"@ + text::dec(index as nat) + "` is out of range for `"@
                        + base.show() + "`"@,
                    span,
                ),
            )
        },
        _ => Err(
            type_error(
                "cannot access element `"@ + text::dec(index as nat) + "` on type `"@ + base.show()
                    + "`"@,
                span,
            ),
        ),
    }
}

/// The element type of an array.
#[verifier::opaque]
pub open spec fn element_type(base: TType, span: Span) -> Result<TType, Diag> {
    match base {
        TType::Array(t, _) => Ok(*t),
        _ => Err(type_error("cannot index a value of type `"@ + base.show() + "`"@, span)),
    }
}

#[verifier::opaque]
pub open spec fn index_type(ty: TType, span: Span) -> Result<(), Diag> {
    if ty.is_integer() {
        Ok(())
    } else {
        Err(type_error("array index must be an integer, found `"@ + ty.show() + "`"@, span))
    }
}

// ---- patterns -----------------------------------------------------------

#[verifier::opaque]
pub open spec fn int_pattern(value: i128, ty: TType, span: Span, what: Text) -> Result<(), Diag> {
    if !ty.is_integer() {
        Err(
            type_error(
                what + " pattern cannot match a value of type `"@ + ty.show() + "`"@,
                span,
            ),
        )
    } else if !fits(value as int, ty) {
        Err(
            type_error(
                "pattern `"@ + text::int_text(value as int) + "` does not fit in `"@ + ty.show()
                    + "`"@,
                span,
            ),
        )
    } else {
        Ok(())
    }
}

/// The variant that a pattern names, which must belong to the enum type `ty`.
#[verifier::opaque]
pub open spec fn variant_pattern(
    s: Site,
    path: Seq<Text>,
    ty: TType,
    count: nat,
    span: Span,
) -> Result<(Text, usize, Seq<TType>), Diag> {
    let name = path_text(path);
    match ty {
        TType::Enum(enum_name) => match find_variant(s.defs, s.module, path) {
            None => Err(type_error("unknown variant `"@ + name + "`"@, span)),
            Some((en, tag, fields)) => if en != enum_name {
                Err(
                    type_error(
                        "variant `"@ + name + "` belongs to enum `"@ + en + "`, not `"@ + enum_name
                            + "`"@,
                        span,
                    ),
                )
            } else if count != fields.len() {
                Err(
                    type_error(
                        "variant `"@ + name + "` has "@ + text::dec(fields.len())
                            + " field(s) but pattern binds "@ + text::dec(count),
                        span,
                    ),
                )
            } else {
                Ok((en, tag, fields))
            },
        },
        _ => Err(
            type_error(
                "variant pattern `"@ + name + "` cannot match type `"@ + ty.show() + "`"@,
                span,
            ),
        ),
    }
}

#[verifier::opaque]
pub open spec fn tuple_pattern(ty: TType, count: nat, span: Span) -> Result<Seq<TType>, Diag> {
    match ty {
        TType::Tuple(ts) => if ts.len() == count {
            Ok(ts)
        } else {
            Err(
                type_error(
                    "tuple pattern has "@ + text::dec(count) + " element(s) but `"@ + ty.show()
                        + "` has "@ + text::dec(ts.len()),
                    span,
                ),
            )
        },
        _ => Err(
            type_error(
                "tuple pattern cannot match a value of type `"@ + ty.show() + "`"@,
                span,
            ),
        ),
    }
}

/// Whether every variable of `a` is one of `b`, with the same type.
pub open spec fn binds_within(a: Vars, b: Vars) -> bool {
    forall|i: int|
        0 <= i < a.len() ==> {
            let n = (#[trigger] a[i]).0;
            semantics::slot(a, n) matches Some(p) && semantics::slot(b, n) matches Some(q)
                && a[p].1.ty == b[q].1.ty
        }
}

/// A pattern for values of type `ty`, with the variables it binds behind `vars`.
pub open spec fn check_pattern(s: Site, p: APattern, ty: TType, vars: Vars) -> Result<
    (TPattern, Vars),
    Diag,
>
    decreases p, 0int,
{
    match p {
        APattern::Wildcard { span } => Ok((TPattern::Wildcard, vars)),
        APattern::Binding { name, span } => Ok(
            (TPattern::Binding { name, ty }, vars.push((name, Var { ty, mutable: false }))),
        ),
        APattern::Int { value, span } => match int_pattern(value, ty, span, "integer"@) {
            Err(d) => Err(d),
            Ok(_) => Ok((TPattern::Int(value), vars)),
        },
        APattern::Bool { value, span } => if ty == TType::Bool {
            Ok((TPattern::Bool(value), vars))
        } else {
            Err(
                type_error(
                    "boolean pattern cannot match a value of type `"@ + ty.show() + "`"@,
                    span,
                ),
            )
        },
        APattern::Range { lo, hi, inclusive, span } => match int_pattern(lo, ty, span, "range"@) {
            Err(d) => Err(d),
            Ok(_) => match int_pattern(hi, ty, span, "range"@) {
                Err(d) => Err(d),
                Ok(_) => Ok((TPattern::Range { lo, hi, inclusive }, vars)),
            },
        },
        APattern::Variant { path, subpatterns, span } => match variant_pattern(
            s,
            path,
            ty,
            subpatterns.len(),
            span,
        ) {
            Err(d) => Err(d),
            Ok((enum_name, tag, fields)) => match check_patterns(
                s,
                subpatterns,
                fields,
                0,
                Seq::empty(),
                vars,
            ) {
                Err(d) => Err(d),
                Ok((subs, vars1)) => Ok(
                    (TPattern::Variant { enum_name, tag, subpatterns: subs }, vars1),
                ),
            },
        },
        APattern::Tuple { elems, span } => if elems.len() == 0 && ty == TType::Unit {
            Ok((TPattern::Wildcard, vars))
        } else if elems.len() == 1 {
            check_pattern(s, elems[0], ty, vars)
        } else {
            match tuple_pattern(ty, elems.len(), span) {
                Err(d) => Err(d),
                Ok(ts) => match check_patterns(s, elems, ts, 0, Seq::empty(), vars) {
                    Err(d) => Err(d),
                    Ok((subs, vars1)) => Ok((TPattern::Tuple(subs), vars1)),
                },
            }
        },
        APattern::Or { alts, span } => if alts.len() == 0 {
            Err(type_error("an or-pattern needs an alternative"@, span))
        } else {
            match check_pattern(s, alts[0], ty, vars) {
                Err(d) => Err(d),
                Ok((first, vars1)) => match check_alts(
                    s,
                    alts,
                    ty,
                    1,
                    seq![first],
                    vars,
                    vars1.subrange(vars.len() as int, vars1.len() as int),
                    span,
                ) {
                    Err(d) => Err(d),
                    Ok(ps) => Ok((TPattern::Or(ps), vars1)),
                },
            }
        },
    }
}

/// The patterns `acc` and those from position `i` on, each for its type.
pub open spec fn check_patterns(
    s: Site,
    ps: Seq<APattern>,
    tys: Seq<TType>,
    i: int,
    acc: Seq<TPattern>,
    vars: Vars,
) -> Result<(Seq<TPattern>, Vars), Diag>
    decreases ps, ps.len() - i,
{
    if i < 0 || i >= ps.len() || i >= tys.len() {
        Ok((acc, vars))
    } else {
        match check_pattern(s, ps[i], tys[i], vars) {
            Err(d) => Err(d),
            Ok((p, vars1)) => check_patterns(s, ps, tys, i + 1, acc.push(p), vars1),
        }
    }
}

/// The alternatives `acc` and those from position `i` on; each binds the
/// variables `bound`.
pub open spec fn check_alts(
    s: Site,
    ps: Seq<APattern>,
    ty: TType,
    i: int,
    acc: Seq<TPattern>,
    vars: Vars,
    bound: Vars,
    span: Span,
) -> Result<Seq<TPattern>, Diag>
    decreases ps, ps.len() - i,
{
    if i < 0 || i >= ps.len() {
        Ok(acc)
    } else {
        match check_pattern(s, ps[i], ty, vars) {
            Err(d) => Err(d),
            Ok((p, vars1)) => {
                let mine = vars1.subrange(vars.len() as int, vars1.len() as int);
                if binds_within(bound, mine) && binds_within(mine, bound) {
                    check_alts(s, ps, ty, i + 1, acc.push(p), vars, bound, span)
                } else {
                    Err(
                        type_error(
                            "or-pattern alternatives must bind the same names with the same types"@,
                            span,
                        ),
                    )
                }
            },
        }
    }
}

/// Whether the enum called `name` has one variant.
pub open spec fn sole_variant(enums: Table<TEnum>, name: Text) -> bool {
    name_map::find(enums, name) matches Some(d) && d.variants.len() == 1
}

/// Whether a pattern matches every value of its type. One of the only variant of an enum
/// does if those inside it do.
pub open spec fn irrefutable(enums: Table<TEnum>, p: TPattern) -> bool
    decreases p, 0int,
{
    match p {
        TPattern::Wildcard => true,
        TPattern::Binding { name, ty } => true,
        TPattern::Tuple(ps) => each_irrefutable(enums, ps, 0),
        TPattern::Or(ps) => some_irrefutable(enums, ps, 0),
        TPattern::Variant { enum_name, tag, subpatterns } => sole_variant(enums, enum_name)
            && each_irrefutable(enums, subpatterns, 0),
        _ => false,
    }
}

/// Whether the patterns from position `i` on are all irrefutable.
pub open spec fn each_irrefutable(enums: Table<TEnum>, ps: Seq<TPattern>, i: int) -> bool
    decreases ps, ps.len() - i,
{
    i < 0 || i >= ps.len() || (irrefutable(enums, ps[i]) && each_irrefutable(enums, ps, i + 1))
}

/// Whether one of the patterns from position `i` on is irrefutable.
pub open spec fn some_irrefutable(enums: Table<TEnum>, ps: Seq<TPattern>, i: int) -> bool
    decreases ps, ps.len() - i,
{
    0 <= i < ps.len() && (irrefutable(enums, ps[i]) || some_irrefutable(enums, ps, i + 1))
}

/// Whether a pattern matches every value of the variant `tag`.
pub open spec fn covers_tag(enums: Table<TEnum>, p: TPattern, tag: int) -> bool
    decreases p, 0int,
{
    match p {
        TPattern::Variant { enum_name, tag: t, subpatterns } => t == tag && each_irrefutable(
            enums,
            subpatterns,
            0,
        ),
        TPattern::Or(ps) => some_covers_tag(enums, ps, tag, 0),
        _ => false,
    }
}

/// Whether one of the patterns from position `i` on matches every value of the
/// variant `tag`.
pub open spec fn some_covers_tag(enums: Table<TEnum>, ps: Seq<TPattern>, tag: int, i: int) -> bool
    decreases ps, ps.len() - i,
{
    0 <= i < ps.len() && (covers_tag(enums, ps[i], tag) || some_covers_tag(enums, ps, tag, i + 1))
}

/// Whether a pattern matches the boolean `b`.
pub open spec fn covers_bool(p: TPattern, b: bool) -> bool
    decreases p, 0int,
{
    match p {
        TPattern::Bool(v) => v == b,
        TPattern::Or(ps) => some_covers_bool(ps, b, 0),
        _ => false,
    }
}

/// Whether one of the patterns from position `i` on matches the boolean `b`.
pub open spec fn some_covers_bool(ps: Seq<TPattern>, b: bool, i: int) -> bool
    decreases ps, ps.len() - i,
{
    0 <= i < ps.len() && (covers_bool(ps[i], b) || some_covers_bool(ps, b, i + 1))
}

/// Whether an arm without guard matches every value.
pub open spec fn catch_all(enums: Table<TEnum>, arms: Seq<TArm>) -> bool {
    exists|i: int|
        0 <= i < arms.len() && (#[trigger] arms[i]).guard is None && irrefutable(
            enums,
            arms[i].pattern,
        )
}

pub open spec fn tag_covered(enums: Table<TEnum>, arms: Seq<TArm>, tag: int) -> bool {
    exists|i: int|
        0 <= i < arms.len() && (#[trigger] arms[i]).guard is None && covers_tag(
            enums,
            arms[i].pattern,
            tag,
        )
}

pub open spec fn bool_covered(arms: Seq<TArm>, b: bool) -> bool {
    exists|i: int|
        0 <= i < arms.len() && (#[trigger] arms[i]).guard is None && covers_bool(arms[i].pattern, b)
}

/// The names `acc` and those of the variants from position `i` on that no arm
/// covers.
pub open spec fn uncovered(
    enums: Table<TEnum>,
    arms: Seq<TArm>,
    vs: Seq<TVariant>,
    i: int,
    acc: Seq<Text>,
) -> Seq<Text>
    decreases vs.len() - i,
{
    if i < 0 || i >= vs.len() {
        acc
    } else if tag_covered(enums, arms, i) {
        uncovered(enums, arms, vs, i + 1, acc)
    } else {
        uncovered(enums, arms, vs, i + 1, acc.push(vs[i].name))
    }
}

/// The arms must cover every value of the type `ty`: by a catch-all, by every
/// variant of an enum, or by both booleans. An arm with a guard covers nothing.
#[verifier::opaque]
pub open spec fn exhaustive(defs: Defs, ty: TType, arms: Seq<TArm>, span: Span) -> Result<(), Diag> {
    if catch_all(defs.enums, arms) {
        Ok(())
    } else {
        match ty {
            TType::Enum(name) => match name_map::find(defs.enums, name) {
                None => Err(type_error("unknown type `"@ + name + "`"@, span)),
                Some(d) => {
                    let missing = uncovered(defs.enums, arms, d.variants, 0, Seq::empty());
                    if missing.len() == 0 {
                        Ok(())
                    } else {
                        Err(
                            type_error(
                                "non-exhaustive match on `"@ + name + "`: variant(s) "@
                                    + text::join_texts(missing, ", "@) + " not covered"@,
                                span,
                            ),
                        )
                    }
                },
            },
            TType::Bool => if bool_covered(arms, true) && bool_covered(arms, false) {
                Ok(())
            } else {
                Err(
                    type_error(
                        "non-exhaustive match on `bool`: add the missing case or a `_` arm"@,
                        span,
                    ),
                )
            },
            _ => Err(
                type_error(
                    "non-exhaustive match on `"@ + ty.show() + "`: add a `_` (wildcard) arm"@,
                    span,
                ),
            ),
        }
    }
}

// ---- rules for single constructs ----------------------------------------

/// An integer literal in its context.
#[verifier::opaque]
pub open spec fn int_rule(value: i128, span: Span, expected: Option<TType>) -> Result<TExpr, Diag> {
    let ty = match expected {
        Some(t) => if t.is_integer() {
            t
        } else {
            i32_type()
        },
        None => i32_type(),
    };
    if fits(value as int, ty) {
        Ok(TExpr { kind: TKind::Int(value), ty })
    } else {
        Err(
            type_error(
                "integer literal `"@ + text::int_text(value as int) + "` does not fit in `"@
                    + ty.show() + "`"@,
                span,
            ),
        )
    }
}

/// A name that is no local variable: a variant without payload or a constant.
#[verifier::opaque]
pub open spec fn global_rule(s: Site, segs: Seq<Text>, span: Span) -> Result<TExpr, Diag> {
    let name = path_text(segs);
    match find_variant(s.defs, s.module, segs) {
        Some((en, tag, fields)) => if fields.len() == 0 {
            Ok(
                TExpr {
                    kind: TKind::MakeEnum { name: en, tag, args: Seq::empty() },
                    ty: TType::Enum(en),
                },
            )
        } else {
            Err(
                type_error(
                    "variant `"@ + name + "` takes "@ + text::dec(fields.len())
                        + " argument(s); call it like `"@ + name + "(...)`"@,
                    span,
                ),
            )
        },
        None => match look_up(s.defs.consts, s.defs.imports, s.module, segs) {
            Some((full, ty)) => Ok(TExpr { kind: TKind::ConstRef(full), ty }),
            None => Err(type_error("unknown identifier `"@ + name + "`"@, span)),
        },
    }
}

/// A bare name.
#[verifier::opaque]
pub open spec fn ident_rule(s: Site, vars: Vars, name: Text, span: Span) -> Result<TExpr, Diag> {
    match semantics::slot(vars, name) {
        Some(p) => Ok(TExpr { kind: TKind::Local(name), ty: vars[p].1.ty }),
        None => global_rule(s, seq![name], span),
    }
}

#[verifier::opaque]
pub open spec fn unary_rule(op: ast::UnOp, inner: TExpr, span: Span) -> Result<TExpr, Diag> {
    match op {
        ast::UnOp::Neg => if inner.ty is Bit || (inner.ty matches TType::Int(it) && it.signed) {
            Ok(
                TExpr {
                    kind: TKind::Unary { op: ir::UnOp::Neg, expr: Box::new(inner) },
                    ty: inner.ty,
                },
            )
        } else {
            Err(type_error("cannot negate a value of type `"@ + inner.ty.show() + "`"@, span))
        },
        ast::UnOp::Not => if inner.ty is Bool || inner.ty is Int || inner.ty is Bit {
            Ok(
                TExpr {
                    kind: TKind::Unary { op: ir::UnOp::Not, expr: Box::new(inner) },
                    ty: inner.ty,
                },
            )
        } else {
            Err(
                type_error(
                    "cannot apply `!` to a value of type `"@ + inner.ty.show() + "`"@,
                    span,
                ),
            )
        },
    }
}

pub open spec fn lower_op(op: ast::BinOp) -> ir::BinOp {
    match op {
        ast::BinOp::Add => ir::BinOp::Add,
        ast::BinOp::Sub => ir::BinOp::Sub,
        ast::BinOp::Mul => ir::BinOp::Mul,
        ast::BinOp::Div => ir::BinOp::Div,
        ast::BinOp::Rem => ir::BinOp::Rem,
        ast::BinOp::And => ir::BinOp::And,
        ast::BinOp::Or => ir::BinOp::Or,
        ast::BinOp::BitAnd => ir::BinOp::BitAnd,
        ast::BinOp::BitOr => ir::BinOp::BitOr,
        ast::BinOp::BitXor => ir::BinOp::BitXor,
        ast::BinOp::Shl => ir::BinOp::Shl,
        ast::BinOp::Shr => ir::BinOp::Shr,
        ast::BinOp::Eq => ir::BinOp::Eq,
        ast::BinOp::Ne => ir::BinOp::Ne,
        ast::BinOp::Lt => ir::BinOp::Lt,
        ast::BinOp::Le => ir::BinOp::Le,
        ast::BinOp::Gt => ir::BinOp::Gt,
        ast::BinOp::Ge => ir::BinOp::Ge,
    }
}

pub open spec fn op_name(op: ast::BinOp) -> Text {
    match op {
        ast::BinOp::Add => "Add"@,
        ast::BinOp::Sub => "Sub"@,
        ast::BinOp::Mul => "Mul"@,
        ast::BinOp::Div => "Div"@,
        ast::BinOp::Rem => "Rem"@,
        ast::BinOp::And => "And"@,
        ast::BinOp::Or => "Or"@,
        ast::BinOp::BitAnd => "BitAnd"@,
        ast::BinOp::BitOr => "BitOr"@,
        ast::BinOp::BitXor => "BitXor"@,
        ast::BinOp::Shl => "Shl"@,
        ast::BinOp::Shr => "Shr"@,
        ast::BinOp::Eq => "Eq"@,
        ast::BinOp::Ne => "Ne"@,
        ast::BinOp::Lt => "Lt"@,
        ast::BinOp::Le => "Le"@,
        ast::BinOp::Gt => "Gt"@,
        ast::BinOp::Ge => "Ge"@,
    }
}

#[verifier::opaque]
pub open spec fn op_error(op: ast::BinOp, ty: TType, span: Span) -> Diag {
    type_error(
        "operator `"@ + op_name(op) + "` is not defined for type `"@ + ty.show() + "`"@,
        span,
    )
}

pub open spec fn binary_expr(op: ast::BinOp, l: TExpr, r: TExpr, ty: TType) -> TExpr {
    TExpr {
        kind: TKind::Binary { op: lower_op(op), lhs: Box::new(l), rhs: Box::new(r) },
        ty,
    }
}

/// A comparison, arithmetic or bitwise operator on two typed operands.
#[verifier::opaque]
pub open spec fn operator_rule(op: ast::BinOp, l: TExpr, r: TExpr, span: Span) -> Result<
    TExpr,
    Diag,
> {
    let irop = lower_op(op);
    let ty = l.ty;
    if l.ty != r.ty {
        Err(
            type_error(
                "mismatched types: `"@ + l.ty.show() + "` and `"@ + r.ty.show() + "`"@,
                span,
            ),
        )
    } else if irop is Eq || irop is Ne {
        if ty.is_integer() || ty == TType::Bool {
            Ok(binary_expr(op, l, r, TType::Bool))
        } else {
            Err(type_error("cannot compare values of type `"@ + ty.show() + "`"@, span))
        }
    } else if irop.comparing() {
        if ty.is_integer() {
            Ok(binary_expr(op, l, r, TType::Bool))
        } else {
            Err(type_error("cannot order values of type `"@ + ty.show() + "`"@, span))
        }
    } else if ty.is_integer() {
        Ok(binary_expr(op, l, r, ty))
    } else {
        Err(op_error(op, ty, span))
    }
}

/// A bare integer literal, possibly negated: it takes its type from its partner.
pub open spec fn literalish(e: AExpr) -> bool
    decreases e,
{
    match e {
        AExpr::Int { value, span } => true,
        AExpr::Unary { op, expr, span } => op is Neg && literalish(*expr),
        _ => false,
    }
}

pub open spec fn only_integer(expected: Option<TType>) -> Option<TType> {
    match expected {
        Some(t) => if t.is_integer() {
            Some(t)
        } else {
            None
        },
        None => None,
    }
}

/// The type expected of a shift amount: a literal that fits takes the type of
/// what is shifted.
pub open spec fn amount_context(rhs: AExpr, ty: TType) -> Option<TType> {
    match rhs {
        AExpr::Int { value, span } => if fits(value as int, ty) {
            Some(ty)
        } else {
            None
        },
        _ => None,
    }
}

/// The path of a callee.
pub open spec fn callee_path(e: AExpr) -> Option<Seq<Text>> {
    match e {
        AExpr::Ident { name, span } => Some(seq![name]),
        AExpr::Path { segments, span } => Some(segments),
        _ => None,
    }
}

/// What a call of the path `segs` calls.
pub enum Callee {
    Print,
    Variant(Text, usize, Seq<TType>),
    Function(Text, TSig),
}

#[verifier::opaque]
pub open spec fn callee_rule(s: Site, segs: Seq<Text>, count: nat, span: Span) -> Result<
    Callee,
    Diag,
> {
    let name = path_text(segs);
    if segs == seq!["print"@] {
        if count == 1 {
            Ok(Callee::Print)
        } else {
            Err(
                type_error(
                    "`print` takes exactly 1 argument, found "@ + text::dec(count),
                    span,
                ),
            )
        }
    } else {
        match find_variant(s.defs, s.module, segs) {
            Some((en, tag, fields)) => if count == fields.len() {
                Ok(Callee::Variant(en, tag, fields))
            } else {
                Err(
                    type_error(
                        "variant `"@ + name + "` takes "@ + text::dec(fields.len())
                            + " argument(s), found "@ + text::dec(count),
                        span,
                    ),
                )
            },
            None => match look_up(s.defs.funcs, s.defs.imports, s.module, segs) {
                Some((full, sig)) => if count == sig.params.len() {
                    Ok(Callee::Function(full, sig))
                } else {
                    Err(
                        type_error(
                            "function `"@ + name + "` takes "@ + text::dec(sig.params.len())
                                + " argument(s), found "@ + text::dec(count),
                            span,
                        ),
                    )
                },
                None => Err(type_error("unknown function `"@ + name + "`"@, span)),
            },
        }
    }
}

#[verifier::opaque]
pub open spec fn print_rule(arg: TExpr, span: Span) -> Result<TExpr, Diag> {
    if arg.ty == TType::Unit {
        Err(type_error("cannot print a value of type `()`"@, span))
    } else {
        Ok(TExpr { kind: TKind::Print { arg: Box::new(arg) }, ty: TType::Unit })
    }
}

#[verifier::opaque]
pub open spec fn arg_rule(got: TType, want: TType, what: Text, span: Span) -> Result<(), Diag> {
    if got == want {
        Ok(())
    } else {
        Err(
            type_error(
                "expected `"@ + want.show() + "` for "@ + what + ", found `"@ + got.show() + "`"@,
                span,
            ),
        )
    }
}

#[verifier::opaque]
pub open spec fn elements_differ(want: TType, got: TType, span: Span) -> Diag {
    type_error(
        "array elements must share a type; found `"@ + want.show() + "` and `"@ + got.show() + "`"@,
        span,
    )
}

pub open spec fn array_context(expected: Option<TType>) -> Option<TType> {
    match expected {
        Some(TType::Array(t, _)) => Some(*t),
        _ => None,
    }
}

/// An array literal without elements.
#[verifier::opaque]
pub open spec fn empty_array(expected: Option<TType>, span: Span) -> Result<TExpr, Diag> {
    match expected {
        Some(TType::Array(t, n)) => if n == 0 {
            Ok(TExpr { kind: TKind::Array(Seq::empty()), ty: TType::Array(t, 0) })
        } else {
            Err(
                type_error(
                    "cannot infer the type of an empty array literal; add a type annotation"@,
                    span,
                ),
            )
        },
        _ => Err(
            type_error(
                "cannot infer the type of an empty array literal; add a type annotation"@,
                span,
            ),
        ),
    }
}

/// The types expected of the elements of a tuple literal.
pub open spec fn tuple_context(expected: Option<TType>, i: int, count: nat) -> Option<TType> {
    if count == 1 {
        expected
    } else {
        match expected {
            Some(TType::Tuple(ts)) => if ts.len() == count && 0 <= i < ts.len() {
                Some(ts[i])
            } else {
                None
            },
            _ => None,
        }
    }
}

pub open spec fn expr_types(es: Seq<TExpr>) -> Seq<TType> {
    es.map_values(|e: TExpr| e.ty)
}

/// The tuple of the given elements.
#[verifier::opaque]
pub open spec fn tuple_expr(es: Seq<TExpr>) -> TExpr {
    if es.len() == 0 {
        TExpr { kind: TKind::Unit, ty: TType::Unit }
    } else if es.len() == 1 {
        es[0]
    } else {
        TExpr { kind: TKind::MakeTuple(es), ty: TType::Tuple(expr_types(es)) }
    }
}

/// The first field at or after `i` that was given before.
pub open spec fn repeated_field(fields: Seq<(Text, AExpr)>, i: int) -> Option<int>
    decreases fields.len() - i,
{
    if i < 0 || i >= fields.len() {
        None
    } else if given_before(fields, fields[i].0, i) {
        Some(i)
    } else {
        repeated_field(fields, i + 1)
    }
}

pub open spec fn given_before(fields: Seq<(Text, AExpr)>, name: Text, i: int) -> bool {
    exists|k: int| 0 <= k < i && k < fields.len() && (#[trigger] fields[k]).0 == name
}

/// The position of the first initialiser at or after `i` of the field `name`.
pub open spec fn init_of(fields: Seq<(Text, AExpr)>, name: Text, i: int) -> Option<int>
    decreases fields.len() - i,
{
    if i < 0 || i >= fields.len() {
        None
    } else if fields[i].0 == name {
        Some(i)
    } else {
        init_of(fields, name, i + 1)
    }
}

/// The first initialiser at or after `i` of a field that the struct does not have.
pub open spec fn extra_field(fields: Seq<(Text, AExpr)>, sd: Seq<TField>, i: int) -> Option<int>
    decreases fields.len() - i,
{
    if i < 0 || i >= fields.len() {
        None
    } else if ir::field_from(sd, fields[i].0, 0) is None {
        Some(i)
    } else {
        extra_field(fields, sd, i + 1)
    }
}

#[verifier::opaque]
pub open spec fn field_rule(f: TField, name: Text, got: TType, span: Span) -> Result<(), Diag> {
    if got == f.ty {
        Ok(())
    } else {
        Err(
            type_error(
                "field `"@ + f.name + "` of `"@ + name + "` expects `"@ + f.ty.show() + "`, found `"@
                    + got.show() + "`"@,
                span,
            ),
        )
    }
}

#[verifier::opaque]
pub open spec fn missing_field(field: Text, name: Text, span: Span) -> Diag {
    type_error("missing field `"@ + field + "` in `"@ + name + "` literal"@, span)
}

#[verifier::opaque]
pub open spec fn no_such_field(field: Text, name: Text, span: Span) -> Diag {
    type_error("struct `"@ + name + "` has no field `"@ + field + "`"@, span)
}

#[verifier::opaque]
pub open spec fn twice_field(field: Text, span: Span) -> Diag {
    type_error("field `"@ + field + "` specified more than once"@, span)
}

/// A block that holds one expression.
pub open spec fn tail_block(e: TExpr) -> TBlock {
    TBlock { stmts: Seq::empty(), tail: Some(Box::new(e)), ty: e.ty }
}

pub open spec fn unit_block() -> TBlock {
    TBlock { stmts: Seq::empty(), tail: None, ty: TType::Unit }
}

pub open spec fn if_expr(cond: TExpr, then_branch: TBlock, else_branch: TBlock, ty: TType) -> TExpr {
    TExpr { kind: TKind::If { cond: Box::new(cond), then_branch, else_branch }, ty }
}

#[verifier::opaque]
pub open spec fn branches_rule(cond: TExpr, t: TBlock, e: TBlock, span: Span) -> Result<TExpr, Diag> {
    if t.ty == e.ty {
        Ok(if_expr(cond, t, e, t.ty))
    } else {
        Err(
            type_error(
                "`if` and `else` branches have different types: `"@ + t.ty.show() + "` vs `"@
                    + e.ty.show() + "`"@,
                span,
            ),
        )
    }
}

#[verifier::opaque]
pub open spec fn lone_if_rule(cond: TExpr, t: TBlock, span: Span) -> Result<TExpr, Diag> {
    if t.ty == TType::Unit {
        Ok(if_expr(cond, t, unit_block(), TType::Unit))
    } else {
        Err(
            type_error(
                "`if` without `else` must have type `()`, found `"@ + t.ty.show() + "`"@,
                span,
            ),
        )
    }
}

#[verifier::opaque]
pub open spec fn arms_differ(want: TType, got: TType, span: Span) -> Diag {
    type_error(
        "match arms have different types: `"@ + want.show() + "` vs `"@ + got.show() + "`"@,
        span,
    )
}

/// The struct that a struct literal makes; no field is given twice.
#[verifier::opaque]
pub open spec fn struct_of(s: Site, path: Seq<Text>, fields: Seq<(Text, AExpr)>, span: Span) -> Result<
    (Text, Seq<TField>),
    Diag,
> {
    match look_up(s.defs.structs, s.defs.imports, s.module, path) {
        None => Err(type_error("unknown struct `"@ + path_text(path) + "`"@, span)),
        Some((full, sd)) => match repeated_field(fields, 0) {
            Some(k) => Err(twice_field(fields[k].0, fields[k].1.span())),
            None => Ok((full, sd.fields)),
        },
    }
}

/// A struct literal with its typed field values; no field is left over.
#[verifier::opaque]
pub open spec fn struct_rule(
    full: Text,
    fields: Seq<(Text, AExpr)>,
    sd: Seq<TField>,
    name: Text,
    vs: Seq<TExpr>,
) -> Result<TExpr, Diag> {
    match extra_field(fields, sd, 0) {
        Some(k) => Err(no_such_field(fields[k].0, name, fields[k].1.span())),
        None => Ok(
            TExpr {
                kind: TKind::MakeStruct { name: full, fields: vs },
                ty: TType::Struct(full),
            },
        ),
    }
}

// ---- results of parts ---------------------------------------------------
//
// A construct is checked by checking its parts and combining what came out. The
// first part that fails, in source order, decides.

/// What checking an expression gives.
pub type Typed = Result<TExpr, Diag>;

/// The type of a checked expression, for the parts that depend on it.
pub open spec fn type_of(r: Typed) -> TType {
    match r {
        Ok(e) => e.ty,
        Err(_) => TType::Unit,
    }
}

/// The context that a type which may have failed to resolve gives.
pub open spec fn context_of(r: Result<TType, Diag>) -> Option<TType> {
    match r {
        Ok(t) => Some(t),
        Err(_) => None,
    }
}

#[verifier::opaque]
pub open spec fn unary_flow(op: ast::UnOp, inner: Typed, span: Span) -> Typed {
    match inner {
        Err(d) => Err(d),
        Ok(i) => unary_rule(op, i, span),
    }
}

#[verifier::opaque]
pub open spec fn logical_flow(op: ast::BinOp, l: Typed, r: Typed, lspan: Span, rspan: Span) -> Typed {
    match l {
        Err(d) => Err(d),
        Ok(l) => match expect_type(l.ty, TType::Bool, lspan, "operand of `&&`/`||`"@) {
            Err(d) => Err(d),
            Ok(_) => match r {
                Err(d) => Err(d),
                Ok(r) => match expect_type(r.ty, TType::Bool, rspan, "operand of `&&`/`||`"@) {
                    Err(d) => Err(d),
                    Ok(_) => Ok(binary_expr(op, l, r, TType::Bool)),
                },
            },
        },
    }
}

#[verifier::opaque]
pub open spec fn shift_flow(op: ast::BinOp, l: Typed, r: Typed, lspan: Span, rspan: Span) -> Typed {
    match l {
        Err(d) => Err(d),
        Ok(l) => if !l.ty.is_integer() {
            Err(op_error(op, l.ty, lspan))
        } else {
            match r {
                Err(d) => Err(d),
                Ok(r) => if r.ty.is_integer() {
                    Ok(binary_expr(op, l, r, l.ty))
                } else {
                    Err(op_error(op, r.ty, rspan))
                },
            }
        },
    }
}

/// The type that both operands of an operator are checked against: the integer
/// type that is expected, or that of an operand that is no literal, or `i32`.
/// `l` and `r` are the operands checked without context.
#[verifier::opaque]
pub open spec fn operand_type(
    wanted: Option<TType>,
    lhs: AExpr,
    rhs: AExpr,
    l: Typed,
    r: Typed,
) -> Result<TType, Diag> {
    match wanted {
        Some(t) => Ok(t),
        None => if !literalish(lhs) {
            match l {
                Err(d) => Err(d),
                Ok(l) => Ok(l.ty),
            }
        } else if !literalish(rhs) {
            match r {
                Err(d) => Err(d),
                Ok(r) => Ok(r.ty),
            }
        } else {
            Ok(i32_type())
        },
    }
}

pub open spec fn wanted_type(op: ast::BinOp, expected: Option<TType>) -> Option<TType> {
    if lower_op(op).comparing() {
        None
    } else {
        only_integer(expected)
    }
}

#[verifier::opaque]
pub open spec fn operator_flow(
    op: ast::BinOp,
    target: Result<TType, Diag>,
    l: Typed,
    r: Typed,
    span: Span,
) -> Typed {
    match target {
        Err(d) => Err(d),
        Ok(_) => match l {
            Err(d) => Err(d),
            Ok(l) => match r {
                Err(d) => Err(d),
                Ok(r) => operator_rule(op, l, r, span),
            },
        },
    }
}

/// What a call calls, or why it calls nothing.
#[verifier::opaque]
pub open spec fn callee_of(s: Site, callee: AExpr, count: nat, span: Span) -> Result<Callee, Diag> {
    match callee_path(callee) {
        None => Err(
            type_error(
                "only named functions and enum variants can be called"@,
                callee.span(),
            ),
        ),
        Some(segs) => callee_rule(s, segs, count, span),
    }
}

/// The types that a call expects of its arguments.
pub open spec fn param_types_of(c: Result<Callee, Diag>) -> Seq<TType> {
    match c {
        Ok(Callee::Variant(en, tag, tys)) => tys,
        Ok(Callee::Function(full, sig)) => sig.params,
        _ => Seq::empty(),
    }
}

/// How error messages call the arguments of a call.
pub open spec fn argument_kind(c: Result<Callee, Diag>) -> Text {
    match c {
        Ok(Callee::Variant(en, tag, tys)) => "variant payload"@,
        _ => "argument"@,
    }
}

#[verifier::opaque]
pub open spec fn call_flow(
    c: Result<Callee, Diag>,
    printed: Option<(Typed, Span)>,
    args: Result<Seq<TExpr>, Diag>,
    span: Span,
) -> Typed {
    match c {
        Err(d) => Err(d),
        Ok(Callee::Print) => match printed {
            None => Err(type_error("`print` takes exactly 1 argument"@, span)),
            Some((Err(d), _)) => Err(d),
            Some((Ok(a), at)) => print_rule(a, at),
        },
        Ok(Callee::Variant(en, tag, tys)) => match args {
            Err(d) => Err(d),
            Ok(vs) => Ok(
                TExpr {
                    kind: TKind::MakeEnum { name: en, tag, args: vs },
                    ty: TType::Enum(en),
                },
            ),
        },
        Ok(Callee::Function(full, sig)) => match args {
            Err(d) => Err(d),
            Ok(vs) => Ok(TExpr { kind: TKind::Call { func: full, args: vs }, ty: sig.ret }),
        },
    }
}

#[verifier::opaque]
pub open spec fn field_flow(defs: Defs, base: Typed, field: Text, span: Span) -> Typed {
    match base {
        Err(d) => Err(d),
        Ok(b) => match field_type(defs, b.ty, field, span) {
            Err(d) => Err(d),
            Ok((index, ty)) => Ok(TExpr { kind: TKind::Field { base: Box::new(b), index }, ty }),
        },
    }
}

#[verifier::opaque]
pub open spec fn part_flow(base: Typed, index: u64, span: Span) -> Typed {
    match base {
        Err(d) => Err(d),
        Ok(b) => match part_type(b.ty, index, span) {
            Err(d) => Err(d),
            Ok((i, ty)) => Ok(TExpr { kind: TKind::TupleField { base: Box::new(b), index: i }, ty }),
        },
    }
}

#[verifier::opaque]
pub open spec fn index_flow(base: Typed, index: Typed, ispan: Span, span: Span) -> Typed {
    match base {
        Err(d) => Err(d),
        Ok(b) => match element_type(b.ty, span) {
            Err(d) => Err(d),
            Ok(ty) => match index {
                Err(d) => Err(d),
                Ok(i) => match index_type(i.ty, ispan) {
                    Err(d) => Err(d),
                    Ok(_) => Ok(
                        TExpr {
                            kind: TKind::Index { base: Box::new(b), index: Box::new(i) },
                            ty,
                        },
                    ),
                },
            },
        },
    }
}

#[verifier::opaque]
pub open spec fn array_flow(
    elems: Result<(Seq<TExpr>, Option<TType>), Diag>,
    count: nat,
    expected: Option<TType>,
    span: Span,
) -> Typed {
    if count == 0 {
        empty_array(expected, span)
    } else {
        match elems {
            Err(d) => Err(d),
            Ok((vs, None)) => empty_array(expected, span),
            Ok((vs, Some(t))) => Ok(
                TExpr { kind: TKind::Array(vs), ty: TType::Array(Box::new(t), count as u64) },
            ),
        }
    }
}

#[verifier::opaque]
pub open spec fn tuple_flow(parts: Result<Seq<TExpr>, Diag>) -> Typed {
    match parts {
        Err(d) => Err(d),
        Ok(es) => Ok(tuple_expr(es)),
    }
}

/// The fields of the struct that a literal makes.
pub open spec fn fields_of_struct(sd: Result<(Text, Seq<TField>), Diag>) -> Seq<TField> {
    match sd {
        Ok((_, fs)) => fs,
        Err(_) => Seq::empty(),
    }
}

#[verifier::opaque]
pub open spec fn struct_flow(
    sd: Result<(Text, Seq<TField>), Diag>,
    vs: Result<Seq<TExpr>, Diag>,
    fields: Seq<(Text, AExpr)>,
    name: Text,
) -> Typed {
    match sd {
        Err(d) => Err(d),
        Ok((full, fs)) => match vs {
            Err(d) => Err(d),
            Ok(vs) => struct_rule(full, fields, fs, name, vs),
        },
    }
}

/// An `if`: with an `else` both branches have one type, without it the branch is
/// of the unit type.
#[verifier::opaque]
pub open spec fn if_flow(
    cond: Typed,
    then_branch: Result<TBlock, Diag>,
    else_branch: Option<Result<TBlock, Diag>>,
    cspan: Span,
    span: Span,
) -> Typed {
    match cond {
        Err(d) => Err(d),
        Ok(c) => match expect_type(c.ty, TType::Bool, cspan, "if condition"@) {
            Err(d) => Err(d),
            Ok(_) => match then_branch {
                Err(d) => Err(d),
                Ok(t) => match else_branch {
                    None => lone_if_rule(c, t, span),
                    Some(Err(d)) => Err(d),
                    Some(Ok(e)) => branches_rule(c, t, e, span),
                },
            },
        },
    }
}

#[verifier::opaque]
pub open spec fn match_flow(
    defs: Defs,
    scrutinee: Typed,
    arms: Result<(Seq<TArm>, Option<TType>), Diag>,
    count: nat,
    span: Span,
) -> Typed {
    match scrutinee {
        Err(d) => Err(d),
        Ok(sc) => if count == 0 {
            Err(type_error("`match` must have at least one arm"@, span))
        } else {
            match arms {
                Err(d) => Err(d),
                Ok((tarms, rt)) => match exhaustive(defs, sc.ty, tarms, span) {
                    Err(d) => Err(d),
                    Ok(_) => Ok(
                        TExpr {
                            kind: TKind::Match { scrutinee: Box::new(sc), arms: tarms },
                            ty: match rt {
                                Some(t) => t,
                                None => TType::Unit,
                            },
                        },
                    ),
                },
            }
        },
    }
}

#[verifier::opaque]
pub open spec fn block_flow(b: Result<TBlock, Diag>) -> Typed {
    match b {
        Err(d) => Err(d),
        Ok(t) => Ok(TExpr { kind: TKind::Block(t), ty: t.ty }),
    }
}

#[verifier::opaque]
pub open spec fn arm_flow(
    p: Result<(TPattern, Vars), Diag>,
    guard: Option<(Typed, Span)>,
    body: Typed,
) -> Result<TArm, Diag> {
    match p {
        Err(d) => Err(d),
        Ok((p, _)) => match guard {
            None => match body {
                Err(d) => Err(d),
                Ok(b) => Ok(TArm { pattern: p, guard: None, body: b }),
            },
            Some((Err(d), _)) => Err(d),
            Some((Ok(c), gspan)) => match expect_type(c.ty, TType::Bool, gspan, "match guard"@) {
                Err(d) => Err(d),
                Ok(_) => match body {
                    Err(d) => Err(d),
                    Ok(b) => Ok(TArm { pattern: p, guard: Some(c), body: b }),
                },
            },
        },
    }
}

/// The variables in scope behind a checked pattern or statement list.
pub open spec fn vars_of<A>(r: Result<(A, Vars), Diag>) -> Vars {
    match r {
        Ok((_, v)) => v,
        Err(_) => Seq::empty(),
    }
}

#[verifier::opaque]
pub open spec fn else_flow(e: Typed) -> Result<TBlock, Diag> {
    match e {
        Err(d) => Err(d),
        Ok(t) => Ok(tail_block(t)),
    }
}

pub type Located = Result<TPlace, Diag>;

pub open spec fn place_type(p: Located) -> TType {
    match p {
        Ok(b) => b.ty(),
        Err(_) => TType::Unit,
    }
}

#[verifier::opaque]
pub open spec fn place_rule(vars: Vars, name: Text, span: Span) -> Located {
    match semantics::slot(vars, name) {
        None => Err(type_error("unknown variable `"@ + name + "`"@, span)),
        Some(p) => if vars[p].1.mutable {
            Ok(TPlace::Local { name, ty: vars[p].1.ty })
        } else {
            Err(
                type_error(
                    "cannot assign to immutable binding `"@ + name + "` (use `let mut`)"@,
                    span,
                ),
            )
        },
    }
}

#[verifier::opaque]
pub open spec fn field_place(defs: Defs, base: Located, field: Text, span: Span) -> Located {
    match base {
        Err(d) => Err(d),
        Ok(b) => match field_type(defs, b.ty(), field, span) {
            Err(d) => Err(d),
            Ok((index, ty)) => Ok(TPlace::Field { base: Box::new(b), index, ty }),
        },
    }
}

#[verifier::opaque]
pub open spec fn part_place(base: Located, index: u64, span: Span) -> Located {
    match base {
        Err(d) => Err(d),
        Ok(b) => match part_type(b.ty(), index, span) {
            Err(d) => Err(d),
            Ok((i, ty)) => Ok(TPlace::TupleField { base: Box::new(b), index: i, ty }),
        },
    }
}

#[verifier::opaque]
pub open spec fn index_place(base: Located, index: Typed, ispan: Span, span: Span) -> Located {
    match base {
        Err(d) => Err(d),
        Ok(b) => match element_type(b.ty(), span) {
            Err(d) => Err(d),
            Ok(ty) => match index {
                Err(d) => Err(d),
                Ok(i) => match index_type(i.ty, ispan) {
                    Err(d) => Err(d),
                    Ok(_) => Ok(TPlace::Index { base: Box::new(b), index: Box::new(i), ty }),
                },
            },
        },
    }
}

// ---- expressions --------------------------------------------------------

/// The arguments `acc` and those from position `i` on, each of its type.
pub open spec fn check_args(
    s: Site,
    vars: Vars,
    args: Seq<AExpr>,
    tys: Seq<TType>,
    what: Text,
    i: int,
    acc: Seq<TExpr>,
) -> Result<Seq<TExpr>, Diag>
    decreases args, args.len() - i,
{
    if i < 0 || i >= args.len() || i >= tys.len() {
        Ok(acc)
    } else {
        match check_expr(s, vars, args[i], Some(tys[i])) {
            Err(d) => Err(d),
            Ok(e) => match arg_rule(e.ty, tys[i], what, args[i].span()) {
                Err(d) => Err(d),
                Ok(_) => check_args(s, vars, args, tys, what, i + 1, acc.push(e)),
            },
        }
    }
}

/// The elements `acc` of an array and those from position `i` on, which share the
/// type `ty`, once it is known.
pub open spec fn check_elems(
    s: Site,
    vars: Vars,
    elems: Seq<AExpr>,
    i: int,
    acc: Seq<TExpr>,
    ty: Option<TType>,
) -> Result<(Seq<TExpr>, Option<TType>), Diag>
    decreases elems, elems.len() - i,
{
    if i < 0 || i >= elems.len() {
        Ok((acc, ty))
    } else {
        match check_expr(s, vars, elems[i], ty) {
            Err(d) => Err(d),
            Ok(e) => match ty {
                Some(t) => if t == e.ty {
                    check_elems(s, vars, elems, i + 1, acc.push(e), ty)
                } else {
                    Err(elements_differ(t, e.ty, elems[i].span()))
                },
                None => check_elems(s, vars, elems, i + 1, acc.push(e), Some(e.ty)),
            },
        }
    }
}

/// The elements `acc` of a tuple and those from position `i` on.
pub open spec fn check_parts(
    s: Site,
    vars: Vars,
    elems: Seq<AExpr>,
    expected: Option<TType>,
    i: int,
    acc: Seq<TExpr>,
) -> Result<Seq<TExpr>, Diag>
    decreases elems, elems.len() - i,
{
    if i < 0 || i >= elems.len() {
        Ok(acc)
    } else {
        match check_expr(s, vars, elems[i], tuple_context(expected, i, elems.len())) {
            Err(d) => Err(d),
            Ok(e) => check_parts(s, vars, elems, expected, i + 1, acc.push(e)),
        }
    }
}

/// The field values `acc` of a struct literal and those of the fields from
/// position `i` on.
pub open spec fn check_inits(
    s: Site,
    vars: Vars,
    fields: Seq<(Text, AExpr)>,
    sd: Seq<TField>,
    name: Text,
    span: Span,
    i: int,
    acc: Seq<TExpr>,
) -> Result<Seq<TExpr>, Diag>
    decreases fields, sd.len() - i,
{
    if i < 0 || i >= sd.len() {
        Ok(acc)
    } else {
        match init_of(fields, sd[i].name, 0) {
            None => Err(missing_field(sd[i].name, name, span)),
            Some(k) => if 0 <= k < fields.len() {
                match check_expr(s, vars, fields[k].1, Some(sd[i].ty)) {
                    Err(d) => Err(d),
                    Ok(e) => match field_rule(sd[i], name, e.ty, fields[k].1.span()) {
                        Err(d) => Err(d),
                        Ok(_) => check_inits(
                            s,
                            vars,
                            fields,
                            sd,
                            name,
                            span,
                            i + 1,
                            acc.push(e),
                        ),
                    },
                }
            } else {
                Err(missing_field(sd[i].name, name, span))
            },
        }
    }
}

/// The arms `acc` of a `match` on a value of type `sty` and those from position
/// `i` on, whose bodies have the type `ty`, once it is known.
pub open spec fn check_arms(
    s: Site,
    vars: Vars,
    arms: Seq<AMatchArm>,
    sty: TType,
    i: int,
    acc: Seq<TArm>,
    ty: Option<TType>,
) -> Result<(Seq<TArm>, Option<TType>), Diag>
    decreases arms, arms.len() - i,
{
    if i < 0 || i >= arms.len() {
        Ok((acc, ty))
    } else {
        match check_arm(s, vars, arms[i], sty, ty) {
            Err(d) => Err(d),
            Ok(a) => match ty {
                Some(t) => if t == a.body.ty {
                    check_arms(s, vars, arms, sty, i + 1, acc.push(a), ty)
                } else {
                    Err(arms_differ(t, a.body.ty, arms[i].span))
                },
                None => check_arms(s, vars, arms, sty, i + 1, acc.push(a), Some(a.body.ty)),
            },
        }
    }
}

/// One arm of a `match`. Its guard and body see the variables that its pattern
/// binds.
pub open spec fn check_arm(
    s: Site,
    vars: Vars,
    arm: AMatchArm,
    sty: TType,
    ty: Option<TType>,
) -> Result<TArm, Diag>
    decreases arm, 0int,
{
    let p = check_pattern(s, arm.pattern, sty, vars);
    arm_flow(
        p,
        match arm.guard {
            None => None,
            Some(g) => Some((check_expr(s, vars_of(p), g, Some(TType::Bool)), g.span())),
        },
        check_expr(s, vars_of(p), arm.body, ty),
    )
}

/// The `else` branch of an `if` as a block.
pub open spec fn check_else(s: Site, vars: Vars, b: AElseBranch, expected: Option<TType>) -> Result<
    TBlock,
    Diag,
>
    decreases b, 0int,
{
    match b {
        AElseBranch::Block(b) => check_block(s, vars, b, expected),
        AElseBranch::If(e) => else_flow(check_expr(s, vars, e, expected)),
    }
}

/// An expression in a context that expects the type `expected`, if any.
pub open spec fn check_expr(s: Site, vars: Vars, e: AExpr, expected: Option<TType>) -> Typed
    decreases e, 0int,
{
    match e {
        AExpr::Int { value, span } => int_rule(value, span, expected),
        AExpr::Bool { value, span } => Ok(TExpr { kind: TKind::Bool(value), ty: TType::Bool }),
        AExpr::Ident { name, span } => ident_rule(s, vars, name, span),
        AExpr::Path { segments, span } => global_rule(s, segments, span),
        AExpr::Unary { op, expr, span } => unary_flow(
            op,
            check_expr(s, vars, *expr, expected),
            span,
        ),
        AExpr::Binary { op, lhs, rhs, span } => if lower_op(op).logical() {
            logical_flow(
                op,
                check_expr(s, vars, *lhs, Some(TType::Bool)),
                check_expr(s, vars, *rhs, Some(TType::Bool)),
                lhs.span(),
                rhs.span(),
            )
        } else if op is Shl || op is Shr {
            let l = check_expr(s, vars, *lhs, expected);
            shift_flow(
                op,
                l,
                check_expr(s, vars, *rhs, amount_context(*rhs, type_of(l))),
                lhs.span(),
                rhs.span(),
            )
        } else {
            let target = operand_type(
                wanted_type(op, expected),
                *lhs,
                *rhs,
                check_expr(s, vars, *lhs, None),
                check_expr(s, vars, *rhs, None),
            );
            operator_flow(
                op,
                target,
                check_expr(s, vars, *lhs, context_of(target)),
                check_expr(s, vars, *rhs, context_of(target)),
                lhs.span().cover(rhs.span()),
            )
        },
        AExpr::Call { callee, args, span } => {
            let c = callee_of(s, *callee, args.len(), span);
            call_flow(
                c,
                if args.len() == 1 {
                    Some((check_expr(s, vars, args[0], None), args[0].span()))
                } else {
                    None
                },
                check_args(s, vars, args, param_types_of(c), argument_kind(c), 0, Seq::empty()),
                span,
            )
        },
        AExpr::Field { base, field, span } => field_flow(
            s.defs,
            check_expr(s, vars, *base, None),
            field,
            span,
        ),
        AExpr::TupleField { base, index, span } => part_flow(
            check_expr(s, vars, *base, None),
            index,
            span,
        ),
        AExpr::Index { base, index, span } => index_flow(
            check_expr(s, vars, *base, None),
            check_expr(s, vars, *index, None),
            index.span(),
            span,
        ),
        AExpr::Array { elems, span } => array_flow(
            check_elems(s, vars, elems, 0, Seq::empty(), array_context(expected)),
            elems.len(),
            expected,
            span,
        ),
        AExpr::Tuple { elems, span } => tuple_flow(
            check_parts(s, vars, elems, expected, 0, Seq::empty()),
        ),
        AExpr::StructLit { path, fields, span } => {
            let sd = struct_of(s, path, fields, span);
            struct_flow(
                sd,
                check_inits(
                    s,
                    vars,
                    fields,
                    fields_of_struct(sd),
                    path_text(path),
                    span,
                    0,
                    Seq::empty(),
                ),
                fields,
                path_text(path),
            )
        },
        AExpr::If { cond, then_branch, else_branch, span } => if_flow(
            check_expr(s, vars, *cond, Some(TType::Bool)),
            check_block(
                s,
                vars,
                then_branch,
                if else_branch is Some {
                    expected
                } else {
                    Some(TType::Unit)
                },
            ),
            match else_branch {
                None => None,
                Some(eb) => Some(check_else(s, vars, *eb, expected)),
            },
            cond.span(),
            span,
        ),
        AExpr::Match { scrutinee, arms, span } => {
            let sc = check_expr(s, vars, *scrutinee, None);
            match_flow(
                s.defs,
                sc,
                check_arms(s, vars, arms, type_of(sc), 0, Seq::empty(), expected),
                arms.len(),
                span,
            )
        },
        AExpr::Block(b) => block_flow(check_block(s, vars, b, expected)),
    }
}

/// The target of an assignment: a mutable variable, or a field or element of one.
pub open spec fn check_place(s: Site, vars: Vars, e: AExpr) -> Located
    decreases e, 1int,
{
    match e {
        AExpr::Ident { name, span } => place_rule(vars, name, span),
        AExpr::Field { base, field, span } => field_place(
            s.defs,
            check_place(s, vars, *base),
            field,
            span,
        ),
        AExpr::TupleField { base, index, span } => part_place(
            check_place(s, vars, *base),
            index,
            span,
        ),
        AExpr::Index { base, index, span } => index_place(
            check_place(s, vars, *base),
            check_expr(s, vars, *index, None),
            index.span(),
            span,
        ),
        _ => Err(type_error("invalid assignment target"@, e.span())),
    }
}

// ---- statements ---------------------------------------------------------

/// The type that an annotation states, if there is one.
#[verifier::opaque]
pub open spec fn annotated(s: Site, ty: Option<ATypeExpr>, span: Span) -> Result<
    Option<TType>,
    Diag,
> {
    match ty {
        None => Ok(None),
        Some(t) => match resolve(s.defs, s.module, t, span) {
            Err(d) => Err(d),
            Ok(r) => Ok(Some(r)),
        },
    }
}

#[verifier::opaque]
pub open spec fn let_rule(name: Text, want: Option<TType>, got: TType, span: Span) -> Result<
    (),
    Diag,
> {
    if want matches Some(t) && t != got {
        Err(
            type_error(
                "`let "@ + name + "` annotated `"@ + want->0.show()
                    + "` but initializer has type `"@ + got.show() + "`"@,
                span,
            ),
        )
    } else if got == TType::Unit {
        Err(type_error("cannot bind `"@ + name + "` to a value of type `()`"@, span))
    } else {
        Ok(())
    }
}

#[verifier::opaque]
pub open spec fn assign_rule(got: TType, want: TType, span: Span) -> Result<(), Diag> {
    if got == want {
        Ok(())
    } else {
        Err(
            type_error(
                "cannot assign value of type `"@ + got.show() + "` to place of type `"@
                    + want.show() + "`"@,
                span,
            ),
        )
    }
}

#[verifier::opaque]
pub open spec fn bound_rule(ty: TType, span: Span) -> Result<(), Diag> {
    if ty.is_integer() {
        Ok(())
    } else {
        Err(type_error("for-loop bounds must be integers, found `"@ + ty.show() + "`"@, span))
    }
}

#[verifier::opaque]
pub open spec fn bounds_rule(lo: TType, hi: TType, span: Span) -> Result<(), Diag> {
    if lo == hi {
        Ok(())
    } else {
        Err(
            type_error(
                "for-loop bounds must have the same type; found `"@ + lo.show() + "` and `"@
                    + hi.show() + "`"@,
                span,
            ),
        )
    }
}

#[verifier::opaque]
pub open spec fn return_rule(got: Option<TType>, ret: TType, span: Span) -> Result<(), Diag> {
    match got {
        Some(t) => if t == ret {
            Ok(())
        } else {
            Err(
                type_error(
                    "returning `"@ + t.show() + "` from a function returning `"@ + ret.show()
                        + "`"@,
                    span,
                ),
            )
        },
        None => if ret == TType::Unit {
            Ok(())
        } else {
            Err(type_error("`return;` in a function returning `"@ + ret.show() + "`"@, span))
        },
    }
}

/// What checking a statement gives: the statement, and the variables in scope
/// behind it.
pub type Stepped = Result<(TStmt, Vars), Diag>;

/// The context that an annotation gives.
pub open spec fn annotation_context(a: Result<Option<TType>, Diag>) -> Option<TType> {
    match a {
        Ok(t) => t,
        Err(_) => None,
    }
}

#[verifier::opaque]
pub open spec fn let_flow(
    want: Result<Option<TType>, Diag>,
    init: Typed,
    name: Text,
    mutable: bool,
    vars: Vars,
    span: Span,
) -> Stepped {
    match want {
        Err(d) => Err(d),
        Ok(w) => match init {
            Err(d) => Err(d),
            Ok(i) => match let_rule(name, w, i.ty, span) {
                Err(d) => Err(d),
                Ok(_) => Ok(
                    (
                        TStmt::Let { name, mutable, ty: i.ty, init: i },
                        vars.push((name, Var { ty: i.ty, mutable })),
                    ),
                ),
            },
        },
    }
}

#[verifier::opaque]
pub open spec fn assign_flow(place: Located, value: Typed, vars: Vars, span: Span) -> Stepped {
    match place {
        Err(d) => Err(d),
        Ok(place) => match value {
            Err(d) => Err(d),
            Ok(v) => match assign_rule(v.ty, place.ty(), span) {
                Err(d) => Err(d),
                Ok(_) => Ok((TStmt::Assign { place, value: v }, vars)),
            },
        },
    }
}

#[verifier::opaque]
pub open spec fn while_flow(
    cond: Typed,
    body: Result<TBlock, Diag>,
    vars: Vars,
    cspan: Span,
) -> Stepped {
    match cond {
        Err(d) => Err(d),
        Ok(c) => match expect_type(c.ty, TType::Bool, cspan, "while condition"@) {
            Err(d) => Err(d),
            Ok(_) => match body {
                Err(d) => Err(d),
                Ok(b) => Ok((TStmt::While { cond: c, body: b }, vars)),
            },
        },
    }
}

#[verifier::opaque]
pub open spec fn for_flow(
    lo: Typed,
    hi: Typed,
    body: Result<TBlock, Diag>,
    var: Text,
    vars: Vars,
    lspan: Span,
    span: Span,
) -> Stepped {
    match lo {
        Err(d) => Err(d),
        Ok(l) => match bound_rule(l.ty, lspan) {
            Err(d) => Err(d),
            Ok(_) => match hi {
                Err(d) => Err(d),
                Ok(h) => match bounds_rule(l.ty, h.ty, span) {
                    Err(d) => Err(d),
                    Ok(_) => match body {
                        Err(d) => Err(d),
                        Ok(b) => Ok((TStmt::For { var, ty: l.ty, lo: l, hi: h, body: b }, vars)),
                    },
                },
            },
        },
    }
}

#[verifier::opaque]
pub open spec fn return_flow(value: Option<Typed>, ret: TType, vars: Vars, span: Span) -> Stepped {
    match value {
        None => match return_rule(None, ret, span) {
            Err(d) => Err(d),
            Ok(_) => Ok((TStmt::Return { value: None }, vars)),
        },
        Some(Err(d)) => Err(d),
        Some(Ok(v)) => match return_rule(Some(v.ty), ret, span) {
            Err(d) => Err(d),
            Ok(_) => Ok((TStmt::Return { value: Some(v) }, vars)),
        },
    }
}

#[verifier::opaque]
pub open spec fn effect_flow(e: Typed, vars: Vars) -> Stepped {
    match e {
        Err(d) => Err(d),
        Ok(v) => Ok((TStmt::Expr(v), vars)),
    }
}

#[verifier::opaque]
pub open spec fn tail_flow(
    stmts: Result<(Seq<TStmt>, Vars), Diag>,
    tail: Option<Typed>,
) -> Result<TBlock, Diag> {
    match stmts {
        Err(d) => Err(d),
        Ok((stmts, _)) => match tail {
            None => Ok(TBlock { stmts, tail: None, ty: TType::Unit }),
            Some(Err(d)) => Err(d),
            Some(Ok(t)) => Ok(TBlock { stmts, tail: Some(Box::new(t)), ty: t.ty }),
        },
    }
}

/// A statement, and the variables in scope behind it.
pub open spec fn check_stmt(s: Site, vars: Vars, st: AStmt) -> Stepped
    decreases st, 0int,
{
    match st {
        AStmt::Let { name, mutable, ty, init, span } => {
            let want = annotated(s, ty, span);
            let_flow(
                want,
                check_expr(s, vars, init, annotation_context(want)),
                name,
                mutable,
                vars,
                span,
            )
        },
        AStmt::Assign { target, value, span } => {
            let place = check_place(s, vars, target);
            assign_flow(
                place,
                check_expr(s, vars, value, Some(place_type(place))),
                vars,
                span,
            )
        },
        AStmt::While { cond, body, span } => while_flow(
            check_expr(s, vars, cond, Some(TType::Bool)),
            check_block(s, vars, body, None),
            vars,
            cond.span(),
        ),
        AStmt::For { var, lo, hi, body, span } => {
            let l = check_expr(s, vars, lo, None);
            for_flow(
                l,
                check_expr(s, vars, hi, Some(type_of(l))),
                check_block(
                    s,
                    vars.push((var, Var { ty: type_of(l), mutable: false })),
                    body,
                    None,
                ),
                var,
                vars,
                lo.span(),
                span,
            )
        },
        AStmt::Return { value, span } => return_flow(
            match value {
                None => None,
                Some(e) => Some(check_expr(s, vars, e, Some(s.ret))),
            },
            s.ret,
            vars,
            span,
        ),
        AStmt::Expr(e) => effect_flow(check_expr(s, vars, e, None), vars),
    }
}

/// The statements `acc` and those from position `i` on, and the variables in scope
/// behind them.
pub open spec fn check_stmts(s: Site, vars: Vars, sts: Seq<AStmt>, i: int, acc: Seq<TStmt>) -> Result<
    (Seq<TStmt>, Vars),
    Diag,
>
    decreases sts, sts.len() - i,
{
    if i < 0 || i >= sts.len() {
        Ok((acc, vars))
    } else {
        match check_stmt(s, vars, sts[i]) {
            Err(d) => Err(d),
            Ok((t, vars1)) => check_stmts(s, vars1, sts, i + 1, acc.push(t)),
        }
    }
}

/// A block. Its variables go out of scope behind it.
pub open spec fn check_block(s: Site, vars: Vars, b: ABlock, expected: Option<TType>) -> Result<
    TBlock,
    Diag,
>
    decreases b, 0int,
{
    let stmts = check_stmts(s, vars, b.stmts, 0, Seq::empty());
    tail_flow(
        stmts,
        match b.tail {
            None => None,
            Some(e) => Some(check_expr(s, vars_of(stmts), *e, expected)),
        },
    )
}

} // verus!
