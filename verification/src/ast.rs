//! # Rune abstract syntax tree
//!
//! The untyped surface representation produced by the parser. It mirrors the
//! concrete syntax closely: names are still strings, integer literals are not yet
//! committed to a width, and no semantic checks have been applied.
//!
//! Each type `X` has a mathematical counterpart (`AX`), in which strings are
//! sequences of characters and vectors are sequences; `x@` takes a value to it.

use crate::model;
use crate::span::Span;
use crate::text::{self, copy_texts, Text};
use vstd::prelude::*;

verus! {

/// A whole parsed source file: an ordered list of top-level items.
#[derive(Debug, PartialEq)]
pub struct Program {
    pub items: Vec<Item>,
}

/// A top-level (or in-module) declaration.
#[derive(Debug, PartialEq)]
#[allow(inconsistent_fields)]
pub enum Item {
    Func(Func),
    Struct(StructDef),
    Enum(EnumDef),
    /// A `const NAME: T = init;` declaration.
    Const(ConstDef),
    /// A module: a named namespace of items. Inline (`mod m { ... }`) carries
    /// `Some(items)`; a file module declaration (`mod m;`) carries `None` and is
    /// resolved to a sibling file by the module loader before typechecking.
    Mod(ModDef),
    /// A `use path::to::item;` (or `use path::*;`) import.
    Use(UseDecl),
}

/// A `::`-separated name path, e.g. `math::clamp` is `["math", "clamp"]`.
pub type Path = Vec<String>;

/// A module declaration.
#[derive(Debug, PartialEq)]
pub struct ModDef {
    pub name: String,
    /// `Some` for inline modules; `None` for `mod name;` file declarations.
    pub items: Option<Vec<Item>>,
    pub span: Span,
}

/// A `use` import: brings a path's item (or, with `glob`, all of a module's
/// items) into the current module's scope under their simple names.
#[derive(Debug, PartialEq)]
pub struct UseDecl {
    pub path: Path,
    /// `true` for `use path::*;`.
    pub glob: bool,
    pub span: Span,
}

/// A module-level constant.
#[derive(Debug, PartialEq)]
pub struct ConstDef {
    pub name: String,
    pub ty: TypeExpr,
    pub init: Expr,
    pub span: Span,
}

/// A function definition: `fn name(params) -> ret { body }`.
///
/// A missing `-> ret` means the function returns the unit type.
#[derive(Debug, PartialEq)]
pub struct Func {
    pub name: String,
    pub params: Vec<Param>,
    pub ret: Option<TypeExpr>,
    pub body: Block,
    pub span: Span,
}

/// A single function parameter `name: type`.
#[derive(Debug, PartialEq)]
pub struct Param {
    pub name: String,
    pub ty: TypeExpr,
    pub span: Span,
}

/// A `struct Name { field: Type, ... }` definition. Field order is significant.
#[derive(Debug, PartialEq)]
pub struct StructDef {
    pub name: String,
    pub fields: Vec<FieldDef>,
    pub span: Span,
}

#[derive(Debug, PartialEq)]
pub struct FieldDef {
    pub name: String,
    pub ty: TypeExpr,
    pub span: Span,
}

/// An `enum Name { Variant(T, ...), Unit, ... }` definition. Variant order
/// determines the tag values (the first variant is tag 0).
#[derive(Debug, PartialEq)]
pub struct EnumDef {
    pub name: String,
    pub variants: Vec<VariantDef>,
    pub span: Span,
}

/// A single enum variant. `fields` is empty for unit-like variants.
#[derive(Debug, PartialEq)]
pub struct VariantDef {
    pub name: String,
    pub fields: Vec<TypeExpr>,
    pub span: Span,
}

/// A syntactic type annotation, e.g. `bit<8>`, `[u32; 4]`, `Shape`.
#[derive(Debug, PartialEq)]
#[allow(inconsistent_fields)]
pub enum TypeExpr {
    /// `bool`
    Bool,
    /// One of `i8 i16 i32 i64 u8 u16 u32 u64`.
    Int { signed: bool, width: u32 },
    /// `bit<N>`, an explicit bit-vector with wrapping semantics.
    Bit { width: u32 },
    /// `[T; N]`, a fixed-size array.
    Array { elem: Box<TypeExpr>, len: u64 },
    /// A named type, possibly module-qualified, e.g. `Shape` or `geom::Point`.
    Named(Path),
    /// The unit type, written `()`.
    Unit,
    /// A tuple type `(T0, T1, ...)`.
    Tuple(Vec<TypeExpr>),
}

/// A `{ ... }` block: a sequence of statements with an optional trailing
/// expression that becomes the block's value.
#[derive(Debug, PartialEq)]
pub struct Block {
    pub stmts: Vec<Stmt>,
    pub tail: Option<Box<Expr>>,
    pub span: Span,
}

/// A statement inside a block.
#[derive(Debug, PartialEq)]
#[allow(inconsistent_fields)]
pub enum Stmt {
    /// `let [mut] name [: T] = expr;`
    Let { name: String, mutable: bool, ty: Option<TypeExpr>, init: Expr, span: Span },
    /// `place = expr;`
    Assign { target: Expr, value: Expr, span: Span },
    /// `while cond { body }`
    While { cond: Expr, body: Block, span: Span },
    /// `for name in lo..hi { body }`, a bounded integer range loop.
    For { var: String, lo: Expr, hi: Expr, body: Block, span: Span },
    /// `return [expr];`
    Return { value: Option<Expr>, span: Span },
    /// An expression evaluated for its effect, e.g. `print(x);`.
    Expr(Expr),
}

/// An expression.
#[derive(Debug, PartialEq)]
#[allow(inconsistent_fields)]
pub enum Expr {
    /// Integer literal (its width is resolved by the typechecker).
    Int { value: i128, span: Span },
    /// Boolean literal.
    Bool { value: bool, span: Span },
    /// A bare name: a local variable, constant, or unit-like enum variant.
    Ident { name: String, span: Span },
    /// A module-qualified path used as a value, of two or more segments.
    Path { segments: Path, span: Span },
    /// Unary operation.
    Unary { op: UnOp, expr: Box<Expr>, span: Span },
    /// Binary operation.
    Binary { op: BinOp, lhs: Box<Expr>, rhs: Box<Expr>, span: Span },
    /// A call `callee(args)`. The callee must resolve to a function name or an
    /// enum variant constructor.
    Call { callee: Box<Expr>, args: Vec<Expr>, span: Span },
    /// Field access `expr.field`.
    Field { base: Box<Expr>, field: String, span: Span },
    /// Tuple element access `expr.0`.
    TupleField { base: Box<Expr>, index: u64, span: Span },
    /// Array indexing `expr[index]`.
    Index { base: Box<Expr>, index: Box<Expr>, span: Span },
    /// Array literal `[a, b, c]`.
    Array { elems: Vec<Expr>, span: Span },
    /// Tuple literal `(a, b)`.
    Tuple { elems: Vec<Expr>, span: Span },
    /// Struct literal `Name { field: expr, ... }` (name may be path-qualified).
    StructLit { path: Path, fields: Vec<(String, Expr)>, span: Span },
    /// `if cond { then } else { else }` used as an expression.
    If { cond: Box<Expr>, then_branch: Block, else_branch: Option<Box<ElseBranch>>, span: Span },
    /// `match scrutinee { arms }`.
    Match { scrutinee: Box<Expr>, arms: Vec<MatchArm>, span: Span },
    /// A bare block used as an expression `{ ... }`.
    Block(Block),
}

/// The `else` branch of an `if`: either a final block or a chained `else if`.
#[derive(Debug, PartialEq)]
#[allow(inconsistent_fields)]
pub enum ElseBranch {
    Block(Block),
    If(Expr),
}

/// A single `pattern [if guard] => body` arm of a `match`.
#[derive(Debug, PartialEq)]
pub struct MatchArm {
    pub pattern: Pattern,
    pub guard: Option<Expr>,
    pub body: Expr,
    pub span: Span,
}

/// A match pattern.
#[derive(Debug, PartialEq)]
#[allow(inconsistent_fields)]
pub enum Pattern {
    /// `_`
    Wildcard { span: Span },
    /// A binding that captures the whole scrutinee, e.g. `x`.
    Binding { name: String, span: Span },
    /// An integer literal pattern.
    Int { value: i128, span: Span },
    /// A boolean literal pattern.
    Bool { value: bool, span: Span },
    /// An integer range pattern `lo..hi` or `lo..=hi`.
    Range { lo: i128, hi: i128, inclusive: bool, span: Span },
    /// An enum variant pattern `Variant(sub, ...)` (or `Variant` for unit-like),
    /// where the variant may be path-qualified, e.g. `Shape::Rect(w, h)`.
    Variant { path: Path, subpatterns: Vec<Pattern>, span: Span },
    /// A tuple pattern `(a, b)`.
    Tuple { elems: Vec<Pattern>, span: Span },
    /// An or-pattern `a | b`.
    Or { alts: Vec<Pattern>, span: Span },
}

/// Unary operators.
#[derive(Clone, Copy, Debug, PartialEq, Eq, Structural)]
pub enum UnOp {
    /// Arithmetic negation `-x`.
    Neg,
    /// Logical/bitwise NOT `!x`.
    Not,
}

/// Binary operators.
#[derive(Clone, Copy, Debug, PartialEq, Eq, Structural)]
pub enum BinOp {
    Add,
    Sub,
    Mul,
    Div,
    Rem,
    /// Logical `&&`.
    And,
    /// Logical `||`.
    Or,
    BitAnd,
    BitOr,
    BitXor,
    Shl,
    Shr,
    Eq,
    Ne,
    Lt,
    Le,
    Gt,
    Ge,
}

// ---- mathematical counterparts ------------------------------------------

pub struct AProgram {
    pub items: Seq<AItem>,
}

#[allow(inconsistent_fields)]
pub enum AItem {
    Func(AFunc),
    Struct(AStructDef),
    Enum(AEnumDef),
    Const(AConstDef),
    Mod(AModDef),
    Use(AUseDecl),
}

pub struct AModDef {
    pub name: Text,
    pub items: Option<Seq<AItem>>,
    pub span: Span,
}

pub struct AUseDecl {
    pub path: Seq<Text>,
    pub glob: bool,
    pub span: Span,
}

pub struct AConstDef {
    pub name: Text,
    pub ty: ATypeExpr,
    pub init: AExpr,
    pub span: Span,
}

pub struct AFunc {
    pub name: Text,
    pub params: Seq<AParam>,
    pub ret: Option<ATypeExpr>,
    pub body: ABlock,
    pub span: Span,
}

pub struct AParam {
    pub name: Text,
    pub ty: ATypeExpr,
    pub span: Span,
}

pub struct AStructDef {
    pub name: Text,
    pub fields: Seq<AFieldDef>,
    pub span: Span,
}

pub struct AFieldDef {
    pub name: Text,
    pub ty: ATypeExpr,
    pub span: Span,
}

pub struct AEnumDef {
    pub name: Text,
    pub variants: Seq<AVariantDef>,
    pub span: Span,
}

pub struct AVariantDef {
    pub name: Text,
    pub fields: Seq<ATypeExpr>,
    pub span: Span,
}

#[allow(inconsistent_fields)]
pub enum ATypeExpr {
    Bool,
    Int { signed: bool, width: u32 },
    Bit { width: u32 },
    Array { elem: Box<ATypeExpr>, len: u64 },
    Named(Seq<Text>),
    Unit,
    Tuple(Seq<ATypeExpr>),
}

pub struct ABlock {
    pub stmts: Seq<AStmt>,
    pub tail: Option<Box<AExpr>>,
    pub span: Span,
}

#[allow(inconsistent_fields)]
pub enum AStmt {
    Let { name: Text, mutable: bool, ty: Option<ATypeExpr>, init: AExpr, span: Span },
    Assign { target: AExpr, value: AExpr, span: Span },
    While { cond: AExpr, body: ABlock, span: Span },
    For { var: Text, lo: AExpr, hi: AExpr, body: ABlock, span: Span },
    Return { value: Option<AExpr>, span: Span },
    Expr(AExpr),
}

#[allow(inconsistent_fields)]
pub enum AExpr {
    Int { value: i128, span: Span },
    Bool { value: bool, span: Span },
    Ident { name: Text, span: Span },
    Path { segments: Seq<Text>, span: Span },
    Unary { op: UnOp, expr: Box<AExpr>, span: Span },
    Binary { op: BinOp, lhs: Box<AExpr>, rhs: Box<AExpr>, span: Span },
    Call { callee: Box<AExpr>, args: Seq<AExpr>, span: Span },
    Field { base: Box<AExpr>, field: Text, span: Span },
    TupleField { base: Box<AExpr>, index: u64, span: Span },
    Index { base: Box<AExpr>, index: Box<AExpr>, span: Span },
    Array { elems: Seq<AExpr>, span: Span },
    Tuple { elems: Seq<AExpr>, span: Span },
    StructLit { path: Seq<Text>, fields: Seq<(Text, AExpr)>, span: Span },
    If { cond: Box<AExpr>, then_branch: ABlock, else_branch: Option<Box<AElseBranch>>, span: Span },
    Match { scrutinee: Box<AExpr>, arms: Seq<AMatchArm>, span: Span },
    Block(ABlock),
}

#[allow(inconsistent_fields)]
pub enum AElseBranch {
    Block(ABlock),
    If(AExpr),
}

pub struct AMatchArm {
    pub pattern: APattern,
    pub guard: Option<AExpr>,
    pub body: AExpr,
    pub span: Span,
}

#[allow(inconsistent_fields)]
pub enum APattern {
    Wildcard { span: Span },
    Binding { name: Text, span: Span },
    Int { value: i128, span: Span },
    Bool { value: bool, span: Span },
    Range { lo: i128, hi: i128, inclusive: bool, span: Span },
    Variant { path: Seq<Text>, subpatterns: Seq<APattern>, span: Span },
    Tuple { elems: Seq<APattern>, span: Span },
    Or { alts: Seq<APattern>, span: Span },
}

/// The field initialisers of a struct literal, each by its model.
pub open spec fn inits_of(v: Seq<(String, Expr)>) -> Seq<(Text, AExpr)>
    decreases v,
{
    Seq::new(
        v.len(),
        |i: int| if 0 <= i < v.len() { (v[i].0@, v[i].1.model()) } else { arbitrary() },
    )
}

pub broadcast proof fn lemma_inits_len(v: Seq<(String, Expr)>)
    ensures
        #[trigger] inits_of(v).len() == v.len(),
{
}

pub broadcast proof fn lemma_inits_index(v: Seq<(String, Expr)>, i: int)
    requires
        0 <= i < v.len(),
    ensures
        #[trigger] inits_of(v)[i] == (v[i].0@, v[i].1@),
{
    reveal(Expr::model);
}

fn dup_inits(v: &Vec<(String, Expr)>) -> (r: Vec<(String, Expr)>)
    ensures
        inits_of(r@) == inits_of(v@),
    decreases v,
{
    broadcast use group_model;

    let mut out: Vec<(String, Expr)> = Vec::new();
    let mut i: usize = 0;
    while i < v.len()
        invariant
            i <= v.len(),
            out.len() == i,
            forall|j: int| 0 <= j < i ==> (#[trigger] out[j]).0@ == v[j].0@ && out[j].1@ == v[j].1@,
        decreases v.len() - i,
    {
        out.push((v[i].0.clone(), v[i].1.dup()));
        i += 1;
    }
    assert(inits_of(out@) =~= inits_of(v@));
    out
}

/// The values of `v`, each as a mathematical object.
pub open spec fn items_of(v: Seq<Item>) -> Seq<AItem>
    decreases v,
{
    Seq::new(v.len(), |i: int| if 0 <= i < v.len() { v[i].model() } else { arbitrary() })
}

pub broadcast proof fn lemma_items(v: Seq<Item>)
    ensures
        #[trigger] items_of(v) == model::views(v),
{
    reveal(Item::model);
    assert(items_of(v) =~= model::views(v));
}

/// An independent copy of `v`.
pub fn dup_items(v: &Vec<Item>) -> (r: Vec<Item>)
    ensures
        items_of(r@) == items_of(v@),
    decreases v,
{
    broadcast use group_model;

    let mut out: Vec<Item> = Vec::new();
    let mut i: usize = 0;
    while i < v.len()
        invariant
            i <= v.len(),
            out.len() == i,
            forall|j: int| 0 <= j < i ==> #[trigger] out[j]@ == v[j]@,
        decreases v.len() - i,
    {
        out.push(v[i].dup());
        i += 1;
    }
    assert(items_of(out@) =~= items_of(v@));
    out
}

/// The values of `v`, each as a mathematical object.
pub open spec fn params_of(v: Seq<Param>) -> Seq<AParam>
    decreases v,
{
    Seq::new(v.len(), |i: int| if 0 <= i < v.len() { v[i].model() } else { arbitrary() })
}

pub broadcast proof fn lemma_params(v: Seq<Param>)
    ensures
        #[trigger] params_of(v) == model::views(v),
{
    reveal(Param::model);
    assert(params_of(v) =~= model::views(v));
}

/// An independent copy of `v`.
pub fn dup_params(v: &Vec<Param>) -> (r: Vec<Param>)
    ensures
        params_of(r@) == params_of(v@),
    decreases v,
{
    broadcast use group_model;

    let mut out: Vec<Param> = Vec::new();
    let mut i: usize = 0;
    while i < v.len()
        invariant
            i <= v.len(),
            out.len() == i,
            forall|j: int| 0 <= j < i ==> #[trigger] out[j]@ == v[j]@,
        decreases v.len() - i,
    {
        out.push(v[i].dup());
        i += 1;
    }
    assert(params_of(out@) =~= params_of(v@));
    out
}

/// The values of `v`, each as a mathematical object.
pub open spec fn fields_of(v: Seq<FieldDef>) -> Seq<AFieldDef>
    decreases v,
{
    Seq::new(v.len(), |i: int| if 0 <= i < v.len() { v[i].model() } else { arbitrary() })
}

pub broadcast proof fn lemma_fields(v: Seq<FieldDef>)
    ensures
        #[trigger] fields_of(v) == model::views(v),
{
    reveal(FieldDef::model);
    assert(fields_of(v) =~= model::views(v));
}

/// An independent copy of `v`.
pub fn dup_fields(v: &Vec<FieldDef>) -> (r: Vec<FieldDef>)
    ensures
        fields_of(r@) == fields_of(v@),
    decreases v,
{
    broadcast use group_model;

    let mut out: Vec<FieldDef> = Vec::new();
    let mut i: usize = 0;
    while i < v.len()
        invariant
            i <= v.len(),
            out.len() == i,
            forall|j: int| 0 <= j < i ==> #[trigger] out[j]@ == v[j]@,
        decreases v.len() - i,
    {
        out.push(v[i].dup());
        i += 1;
    }
    assert(fields_of(out@) =~= fields_of(v@));
    out
}

/// The values of `v`, each as a mathematical object.
pub open spec fn variants_of(v: Seq<VariantDef>) -> Seq<AVariantDef>
    decreases v,
{
    Seq::new(v.len(), |i: int| if 0 <= i < v.len() { v[i].model() } else { arbitrary() })
}

pub broadcast proof fn lemma_variants(v: Seq<VariantDef>)
    ensures
        #[trigger] variants_of(v) == model::views(v),
{
    reveal(VariantDef::model);
    assert(variants_of(v) =~= model::views(v));
}

/// An independent copy of `v`.
pub fn dup_variants(v: &Vec<VariantDef>) -> (r: Vec<VariantDef>)
    ensures
        variants_of(r@) == variants_of(v@),
    decreases v,
{
    broadcast use group_model;

    let mut out: Vec<VariantDef> = Vec::new();
    let mut i: usize = 0;
    while i < v.len()
        invariant
            i <= v.len(),
            out.len() == i,
            forall|j: int| 0 <= j < i ==> #[trigger] out[j]@ == v[j]@,
        decreases v.len() - i,
    {
        out.push(v[i].dup());
        i += 1;
    }
    assert(variants_of(out@) =~= variants_of(v@));
    out
}

/// The values of `v`, each as a mathematical object.
pub open spec fn types_of(v: Seq<TypeExpr>) -> Seq<ATypeExpr>
    decreases v,
{
    Seq::new(v.len(), |i: int| if 0 <= i < v.len() { v[i].model() } else { arbitrary() })
}

pub broadcast proof fn lemma_types(v: Seq<TypeExpr>)
    ensures
        #[trigger] types_of(v) == model::views(v),
{
    reveal(TypeExpr::model);
    assert(types_of(v) =~= model::views(v));
}

/// An independent copy of `v`.
pub fn dup_types(v: &Vec<TypeExpr>) -> (r: Vec<TypeExpr>)
    ensures
        types_of(r@) == types_of(v@),
    decreases v,
{
    broadcast use group_model;

    let mut out: Vec<TypeExpr> = Vec::new();
    let mut i: usize = 0;
    while i < v.len()
        invariant
            i <= v.len(),
            out.len() == i,
            forall|j: int| 0 <= j < i ==> #[trigger] out[j]@ == v[j]@,
        decreases v.len() - i,
    {
        out.push(v[i].dup());
        i += 1;
    }
    assert(types_of(out@) =~= types_of(v@));
    out
}

/// The values of `v`, each as a mathematical object.
pub open spec fn stmts_of(v: Seq<Stmt>) -> Seq<AStmt>
    decreases v,
{
    Seq::new(v.len(), |i: int| if 0 <= i < v.len() { v[i].model() } else { arbitrary() })
}

pub broadcast proof fn lemma_stmts(v: Seq<Stmt>)
    ensures
        #[trigger] stmts_of(v) == model::views(v),
{
    reveal(Stmt::model);
    assert(stmts_of(v) =~= model::views(v));
}

/// An independent copy of `v`.
pub fn dup_stmts(v: &Vec<Stmt>) -> (r: Vec<Stmt>)
    ensures
        stmts_of(r@) == stmts_of(v@),
    decreases v,
{
    broadcast use group_model;

    let mut out: Vec<Stmt> = Vec::new();
    let mut i: usize = 0;
    while i < v.len()
        invariant
            i <= v.len(),
            out.len() == i,
            forall|j: int| 0 <= j < i ==> #[trigger] out[j]@ == v[j]@,
        decreases v.len() - i,
    {
        out.push(v[i].dup());
        i += 1;
    }
    assert(stmts_of(out@) =~= stmts_of(v@));
    out
}

/// The values of `v`, each as a mathematical object.
pub open spec fn exprs_of(v: Seq<Expr>) -> Seq<AExpr>
    decreases v,
{
    Seq::new(v.len(), |i: int| if 0 <= i < v.len() { v[i].model() } else { arbitrary() })
}

pub broadcast proof fn lemma_exprs(v: Seq<Expr>)
    ensures
        #[trigger] exprs_of(v) == model::views(v),
{
    reveal(Expr::model);
    assert(exprs_of(v) =~= model::views(v));
}

/// An independent copy of `v`.
pub fn dup_exprs(v: &Vec<Expr>) -> (r: Vec<Expr>)
    ensures
        exprs_of(r@) == exprs_of(v@),
    decreases v,
{
    broadcast use group_model;

    let mut out: Vec<Expr> = Vec::new();
    let mut i: usize = 0;
    while i < v.len()
        invariant
            i <= v.len(),
            out.len() == i,
            forall|j: int| 0 <= j < i ==> #[trigger] out[j]@ == v[j]@,
        decreases v.len() - i,
    {
        out.push(v[i].dup());
        i += 1;
    }
    assert(exprs_of(out@) =~= exprs_of(v@));
    out
}

/// The values of `v`, each as a mathematical object.
pub open spec fn arms_of(v: Seq<MatchArm>) -> Seq<AMatchArm>
    decreases v,
{
    Seq::new(v.len(), |i: int| if 0 <= i < v.len() { v[i].model() } else { arbitrary() })
}

pub broadcast proof fn lemma_arms(v: Seq<MatchArm>)
    ensures
        #[trigger] arms_of(v) == model::views(v),
{
    reveal(MatchArm::model);
    assert(arms_of(v) =~= model::views(v));
}

/// An independent copy of `v`.
pub fn dup_arms(v: &Vec<MatchArm>) -> (r: Vec<MatchArm>)
    ensures
        arms_of(r@) == arms_of(v@),
    decreases v,
{
    broadcast use group_model;

    let mut out: Vec<MatchArm> = Vec::new();
    let mut i: usize = 0;
    while i < v.len()
        invariant
            i <= v.len(),
            out.len() == i,
            forall|j: int| 0 <= j < i ==> #[trigger] out[j]@ == v[j]@,
        decreases v.len() - i,
    {
        out.push(v[i].dup());
        i += 1;
    }
    assert(arms_of(out@) =~= arms_of(v@));
    out
}

/// The values of `v`, each as a mathematical object.
pub open spec fn patterns_of(v: Seq<Pattern>) -> Seq<APattern>
    decreases v,
{
    Seq::new(v.len(), |i: int| if 0 <= i < v.len() { v[i].model() } else { arbitrary() })
}

pub broadcast proof fn lemma_patterns(v: Seq<Pattern>)
    ensures
        #[trigger] patterns_of(v) == model::views(v),
{
    reveal(Pattern::model);
    assert(patterns_of(v) =~= model::views(v));
}

/// An independent copy of `v`.
pub fn dup_patterns(v: &Vec<Pattern>) -> (r: Vec<Pattern>)
    ensures
        patterns_of(r@) == patterns_of(v@),
    decreases v,
{
    broadcast use group_model;

    let mut out: Vec<Pattern> = Vec::new();
    let mut i: usize = 0;
    while i < v.len()
        invariant
            i <= v.len(),
            out.len() == i,
            forall|j: int| 0 <= j < i ==> #[trigger] out[j]@ == v[j]@,
        decreases v.len() - i,
    {
        out.push(v[i].dup());
        i += 1;
    }
    assert(patterns_of(out@) =~= patterns_of(v@));
    out
}

/// Facts about the models of vectors.
pub broadcast group group_model {
    model::group_views,
    lemma_items,
    lemma_params,
    lemma_fields,
    lemma_variants,
    lemma_types,
    lemma_stmts,
    lemma_exprs,
    lemma_arms,
    lemma_patterns,
    lemma_inits_len,
    lemma_inits_index,
}

impl View for Program {
    type V = AProgram;

    open spec fn view(&self) -> AProgram {
        self.model()
    }
}

impl Clone for Program {
    fn clone(&self) -> (r: Program)
        ensures
            r@ == self@,
    {
        self.dup()
    }
}

impl Program {
    /// The value as a mathematical object.
    #[verifier::opaque]
    pub open spec fn model(&self) -> AProgram
        decreases self,
    {
        AProgram {
            items: items_of(self.items@),
        }
    }

    /// An independent copy.
    pub fn dup(&self) -> (r: Program)
        ensures
            r@ == self@,
        decreases self,
    {
        broadcast use group_model;

        reveal(Program::model);

        Program {
            items: dup_items(&self.items),
        }
    }

}

impl View for Item {
    type V = AItem;

    open spec fn view(&self) -> AItem {
        self.model()
    }
}

impl Clone for Item {
    fn clone(&self) -> (r: Item)
        ensures
            r@ == self@,
    {
        self.dup()
    }
}

impl Item {
    /// The value as a mathematical object.
    #[verifier::opaque]
    pub open spec fn model(&self) -> AItem
        decreases self,
    {
        match self {
            Item::Func(f) => AItem::Func(f.model()),
            Item::Struct(d) => AItem::Struct(d.model()),
            Item::Enum(d) => AItem::Enum(d.model()),
            Item::Const(d) => AItem::Const(d.model()),
            Item::Mod(d) => AItem::Mod(d.model()),
            Item::Use(d) => AItem::Use(d.model()),
        }
    }

    /// An independent copy.
    pub fn dup(&self) -> (r: Item)
        ensures
            r@ == self@,
        decreases self,
    {
        broadcast use group_model;

        reveal(Item::model);
        reveal(Func::model);
        reveal(StructDef::model);
        reveal(EnumDef::model);
        reveal(ConstDef::model);
        reveal(ModDef::model);
        reveal(UseDecl::model);

        match self {
            Item::Func(f) => Item::Func(f.dup()),
            Item::Struct(d) => Item::Struct(d.dup()),
            Item::Enum(d) => Item::Enum(d.dup()),
            Item::Const(d) => Item::Const(d.dup()),
            Item::Mod(d) => Item::Mod(d.dup()),
            Item::Use(d) => Item::Use(d.dup()),
        }
    }

}

impl View for ModDef {
    type V = AModDef;

    open spec fn view(&self) -> AModDef {
        self.model()
    }
}

impl Clone for ModDef {
    fn clone(&self) -> (r: ModDef)
        ensures
            r@ == self@,
    {
        self.dup()
    }
}

impl ModDef {
    /// The value as a mathematical object.
    #[verifier::opaque]
    pub open spec fn model(&self) -> AModDef
        decreases self,
    {
        AModDef {
            name: self.name@,
            items: match self.items {
                Some(b) => Some(items_of(b@)),
                None => None,
            },
            span: self.span,
        }
    }

    /// An independent copy.
    pub fn dup(&self) -> (r: ModDef)
        ensures
            r@ == self@,
        decreases self,
    {
        broadcast use group_model;

        reveal(ModDef::model);

        ModDef {
            name: self.name.clone(),
            items: match &self.items {
                Some(b) => Some(dup_items(b)),
                None => None,
            },
            span: self.span,
        }
    }

}

impl View for UseDecl {
    type V = AUseDecl;

    open spec fn view(&self) -> AUseDecl {
        self.model()
    }
}

impl Clone for UseDecl {
    fn clone(&self) -> (r: UseDecl)
        ensures
            r@ == self@,
    {
        self.dup()
    }
}

impl UseDecl {
    /// The value as a mathematical object.
    #[verifier::opaque]
    pub open spec fn model(&self) -> AUseDecl
        decreases self,
    {
        AUseDecl {
            path: text::texts(self.path@),
            glob: self.glob,
            span: self.span,
        }
    }

    /// An independent copy.
    pub fn dup(&self) -> (r: UseDecl)
        ensures
            r@ == self@,
        decreases self,
    {
        broadcast use group_model;

        reveal(UseDecl::model);

        UseDecl {
            path: copy_texts(&self.path),
            glob: self.glob,
            span: self.span,
        }
    }

}

impl View for ConstDef {
    type V = AConstDef;

    open spec fn view(&self) -> AConstDef {
        self.model()
    }
}

impl Clone for ConstDef {
    fn clone(&self) -> (r: ConstDef)
        ensures
            r@ == self@,
    {
        self.dup()
    }
}

impl ConstDef {
    /// The value as a mathematical object.
    #[verifier::opaque]
    pub open spec fn model(&self) -> AConstDef
        decreases self,
    {
        AConstDef {
            name: self.name@,
            ty: self.ty.model(),
            init: self.init.model(),
            span: self.span,
        }
    }

    /// An independent copy.
    pub fn dup(&self) -> (r: ConstDef)
        ensures
            r@ == self@,
        decreases self,
    {
        broadcast use group_model;

        reveal(ConstDef::model);
        reveal(TypeExpr::model);
        reveal(Expr::model);

        ConstDef {
            name: self.name.clone(),
            ty: self.ty.dup(),
            init: self.init.dup(),
            span: self.span,
        }
    }

}

impl View for Func {
    type V = AFunc;

    open spec fn view(&self) -> AFunc {
        self.model()
    }
}

impl Clone for Func {
    fn clone(&self) -> (r: Func)
        ensures
            r@ == self@,
    {
        self.dup()
    }
}

impl Func {
    /// The value as a mathematical object.
    #[verifier::opaque]
    pub open spec fn model(&self) -> AFunc
        decreases self,
    {
        AFunc {
            name: self.name@,
            params: params_of(self.params@),
            ret: match self.ret {
                Some(b) => Some(b.model()),
                None => None,
            },
            body: self.body.model(),
            span: self.span,
        }
    }

    /// An independent copy.
    pub fn dup(&self) -> (r: Func)
        ensures
            r@ == self@,
        decreases self,
    {
        broadcast use group_model;

        reveal(Func::model);
        reveal(TypeExpr::model);
        reveal(Block::model);

        Func {
            name: self.name.clone(),
            params: dup_params(&self.params),
            ret: match &self.ret {
                Some(b) => Some(b.dup()),
                None => None,
            },
            body: self.body.dup(),
            span: self.span,
        }
    }

}

impl View for Param {
    type V = AParam;

    open spec fn view(&self) -> AParam {
        self.model()
    }
}

impl Clone for Param {
    fn clone(&self) -> (r: Param)
        ensures
            r@ == self@,
    {
        self.dup()
    }
}

impl Param {
    /// The value as a mathematical object.
    #[verifier::opaque]
    pub open spec fn model(&self) -> AParam
        decreases self,
    {
        AParam {
            name: self.name@,
            ty: self.ty.model(),
            span: self.span,
        }
    }

    /// An independent copy.
    pub fn dup(&self) -> (r: Param)
        ensures
            r@ == self@,
        decreases self,
    {
        broadcast use group_model;

        reveal(Param::model);
        reveal(TypeExpr::model);

        Param {
            name: self.name.clone(),
            ty: self.ty.dup(),
            span: self.span,
        }
    }

}

impl View for StructDef {
    type V = AStructDef;

    open spec fn view(&self) -> AStructDef {
        self.model()
    }
}

impl Clone for StructDef {
    fn clone(&self) -> (r: StructDef)
        ensures
            r@ == self@,
    {
        self.dup()
    }
}

impl StructDef {
    /// The value as a mathematical object.
    #[verifier::opaque]
    pub open spec fn model(&self) -> AStructDef
        decreases self,
    {
        AStructDef {
            name: self.name@,
            fields: fields_of(self.fields@),
            span: self.span,
        }
    }

    /// An independent copy.
    pub fn dup(&self) -> (r: StructDef)
        ensures
            r@ == self@,
        decreases self,
    {
        broadcast use group_model;

        reveal(StructDef::model);

        StructDef {
            name: self.name.clone(),
            fields: dup_fields(&self.fields),
            span: self.span,
        }
    }

}

impl View for FieldDef {
    type V = AFieldDef;

    open spec fn view(&self) -> AFieldDef {
        self.model()
    }
}

impl Clone for FieldDef {
    fn clone(&self) -> (r: FieldDef)
        ensures
            r@ == self@,
    {
        self.dup()
    }
}

impl FieldDef {
    /// The value as a mathematical object.
    #[verifier::opaque]
    pub open spec fn model(&self) -> AFieldDef
        decreases self,
    {
        AFieldDef {
            name: self.name@,
            ty: self.ty.model(),
            span: self.span,
        }
    }

    /// An independent copy.
    pub fn dup(&self) -> (r: FieldDef)
        ensures
            r@ == self@,
        decreases self,
    {
        broadcast use group_model;

        reveal(FieldDef::model);
        reveal(TypeExpr::model);

        FieldDef {
            name: self.name.clone(),
            ty: self.ty.dup(),
            span: self.span,
        }
    }

}

impl View for EnumDef {
    type V = AEnumDef;

    open spec fn view(&self) -> AEnumDef {
        self.model()
    }
}

impl Clone for EnumDef {
    fn clone(&self) -> (r: EnumDef)
        ensures
            r@ == self@,
    {
        self.dup()
    }
}

impl EnumDef {
    /// The value as a mathematical object.
    #[verifier::opaque]
    pub open spec fn model(&self) -> AEnumDef
        decreases self,
    {
        AEnumDef {
            name: self.name@,
            variants: variants_of(self.variants@),
            span: self.span,
        }
    }

    /// An independent copy.
    pub fn dup(&self) -> (r: EnumDef)
        ensures
            r@ == self@,
        decreases self,
    {
        broadcast use group_model;

        reveal(EnumDef::model);

        EnumDef {
            name: self.name.clone(),
            variants: dup_variants(&self.variants),
            span: self.span,
        }
    }

}

impl View for VariantDef {
    type V = AVariantDef;

    open spec fn view(&self) -> AVariantDef {
        self.model()
    }
}

impl Clone for VariantDef {
    fn clone(&self) -> (r: VariantDef)
        ensures
            r@ == self@,
    {
        self.dup()
    }
}

impl VariantDef {
    /// The value as a mathematical object.
    #[verifier::opaque]
    pub open spec fn model(&self) -> AVariantDef
        decreases self,
    {
        AVariantDef {
            name: self.name@,
            fields: types_of(self.fields@),
            span: self.span,
        }
    }

    /// An independent copy.
    pub fn dup(&self) -> (r: VariantDef)
        ensures
            r@ == self@,
        decreases self,
    {
        broadcast use group_model;

        reveal(VariantDef::model);

        VariantDef {
            name: self.name.clone(),
            fields: dup_types(&self.fields),
            span: self.span,
        }
    }

}

impl View for TypeExpr {
    type V = ATypeExpr;

    open spec fn view(&self) -> ATypeExpr {
        self.model()
    }
}

impl Clone for TypeExpr {
    fn clone(&self) -> (r: TypeExpr)
        ensures
            r@ == self@,
    {
        self.dup()
    }
}

impl TypeExpr {
    /// The value as a mathematical object.
    #[verifier::opaque]
    pub open spec fn model(&self) -> ATypeExpr
        decreases self,
    {
        match self {
            TypeExpr::Bool => ATypeExpr::Bool,
            TypeExpr::Int { signed, width } => ATypeExpr::Int {
                signed: *signed,
                width: *width,
            },
            TypeExpr::Bit { width } => ATypeExpr::Bit {
                width: *width,
            },
            TypeExpr::Array { elem, len } => ATypeExpr::Array {
                elem: Box::new(elem.model()),
                len: *len,
            },
            TypeExpr::Named(p) => ATypeExpr::Named(text::texts(p@)),
            TypeExpr::Unit => ATypeExpr::Unit,
            TypeExpr::Tuple(ts) => ATypeExpr::Tuple(types_of(ts@)),
        }
    }

    /// An independent copy.
    pub fn dup(&self) -> (r: TypeExpr)
        ensures
            r@ == self@,
        decreases self,
    {
        broadcast use group_model;

        reveal(TypeExpr::model);

        match self {
            TypeExpr::Bool => TypeExpr::Bool,
            TypeExpr::Int { signed, width } => TypeExpr::Int {
                signed: *signed,
                width: *width,
            },
            TypeExpr::Bit { width } => TypeExpr::Bit {
                width: *width,
            },
            TypeExpr::Array { elem, len } => TypeExpr::Array {
                elem: Box::new(elem.dup()),
                len: *len,
            },
            TypeExpr::Named(p) => TypeExpr::Named(copy_texts(p)),
            TypeExpr::Unit => TypeExpr::Unit,
            TypeExpr::Tuple(ts) => TypeExpr::Tuple(dup_types(ts)),
        }
    }

}

impl View for Block {
    type V = ABlock;

    open spec fn view(&self) -> ABlock {
        self.model()
    }
}

impl Clone for Block {
    fn clone(&self) -> (r: Block)
        ensures
            r@ == self@,
    {
        self.dup()
    }
}

impl Block {
    /// The value as a mathematical object.
    #[verifier::opaque]
    pub open spec fn model(&self) -> ABlock
        decreases self,
    {
        ABlock {
            stmts: stmts_of(self.stmts@),
            tail: match self.tail {
                Some(b) => Some(Box::new(b.model())),
                None => None,
            },
            span: self.span,
        }
    }

    /// An independent copy.
    pub fn dup(&self) -> (r: Block)
        ensures
            r@ == self@,
        decreases self,
    {
        broadcast use group_model;

        reveal(Block::model);
        reveal(Expr::model);

        Block {
            stmts: dup_stmts(&self.stmts),
            tail: match &self.tail {
                Some(b) => Some(Box::new(b.dup())),
                None => None,
            },
            span: self.span,
        }
    }

}

impl View for Stmt {
    type V = AStmt;

    open spec fn view(&self) -> AStmt {
        self.model()
    }
}

impl Clone for Stmt {
    fn clone(&self) -> (r: Stmt)
        ensures
            r@ == self@,
    {
        self.dup()
    }
}

impl Stmt {
    /// The value as a mathematical object.
    #[verifier::opaque]
    pub open spec fn model(&self) -> AStmt
        decreases self,
    {
        match self {
            Stmt::Let { name, mutable, ty, init, span } => AStmt::Let {
                name: name@,
                mutable: *mutable,
                ty: match ty {
                    Some(b) => Some(b.model()),
                    None => None,
                },
                init: init.model(),
                span: *span,
            },
            Stmt::Assign { target, value, span } => AStmt::Assign {
                target: target.model(),
                value: value.model(),
                span: *span,
            },
            Stmt::While { cond, body, span } => AStmt::While {
                cond: cond.model(),
                body: body.model(),
                span: *span,
            },
            Stmt::For { var, lo, hi, body, span } => AStmt::For {
                var: var@,
                lo: lo.model(),
                hi: hi.model(),
                body: body.model(),
                span: *span,
            },
            Stmt::Return { value, span } => AStmt::Return {
                value: match value {
                    Some(b) => Some(b.model()),
                    None => None,
                },
                span: *span,
            },
            Stmt::Expr(e) => AStmt::Expr(e.model()),
        }
    }

    /// An independent copy.
    pub fn dup(&self) -> (r: Stmt)
        ensures
            r@ == self@,
        decreases self,
    {
        broadcast use group_model;

        reveal(Stmt::model);
        reveal(TypeExpr::model);
        reveal(Expr::model);
        reveal(Block::model);

        match self {
            Stmt::Let { name, mutable, ty, init, span } => Stmt::Let {
                name: name.clone(),
                mutable: *mutable,
                ty: match ty {
                    Some(b) => Some(b.dup()),
                    None => None,
                },
                init: init.dup(),
                span: *span,
            },
            Stmt::Assign { target, value, span } => Stmt::Assign {
                target: target.dup(),
                value: value.dup(),
                span: *span,
            },
            Stmt::While { cond, body, span } => Stmt::While {
                cond: cond.dup(),
                body: body.dup(),
                span: *span,
            },
            Stmt::For { var, lo, hi, body, span } => Stmt::For {
                var: var.clone(),
                lo: lo.dup(),
                hi: hi.dup(),
                body: body.dup(),
                span: *span,
            },
            Stmt::Return { value, span } => Stmt::Return {
                value: match value {
                    Some(b) => Some(b.dup()),
                    None => None,
                },
                span: *span,
            },
            Stmt::Expr(e) => Stmt::Expr(e.dup()),
        }
    }

}

impl View for Expr {
    type V = AExpr;

    open spec fn view(&self) -> AExpr {
        self.model()
    }
}

impl Clone for Expr {
    fn clone(&self) -> (r: Expr)
        ensures
            r@ == self@,
    {
        self.dup()
    }
}

impl Expr {
    /// The value as a mathematical object.
    #[verifier::opaque]
    pub open spec fn model(&self) -> AExpr
        decreases self,
    {
        match self {
            Expr::Int { value, span } => AExpr::Int {
                value: *value,
                span: *span,
            },
            Expr::Bool { value, span } => AExpr::Bool {
                value: *value,
                span: *span,
            },
            Expr::Ident { name, span } => AExpr::Ident {
                name: name@,
                span: *span,
            },
            Expr::Path { segments, span } => AExpr::Path {
                segments: text::texts(segments@),
                span: *span,
            },
            Expr::Unary { op, expr, span } => AExpr::Unary {
                op: *op,
                expr: Box::new(expr.model()),
                span: *span,
            },
            Expr::Binary { op, lhs, rhs, span } => AExpr::Binary {
                op: *op,
                lhs: Box::new(lhs.model()),
                rhs: Box::new(rhs.model()),
                span: *span,
            },
            Expr::Call { callee, args, span } => AExpr::Call {
                callee: Box::new(callee.model()),
                args: exprs_of(args@),
                span: *span,
            },
            Expr::Field { base, field, span } => AExpr::Field {
                base: Box::new(base.model()),
                field: field@,
                span: *span,
            },
            Expr::TupleField { base, index, span } => AExpr::TupleField {
                base: Box::new(base.model()),
                index: *index,
                span: *span,
            },
            Expr::Index { base, index, span } => AExpr::Index {
                base: Box::new(base.model()),
                index: Box::new(index.model()),
                span: *span,
            },
            Expr::Array { elems, span } => AExpr::Array {
                elems: exprs_of(elems@),
                span: *span,
            },
            Expr::Tuple { elems, span } => AExpr::Tuple {
                elems: exprs_of(elems@),
                span: *span,
            },
            Expr::StructLit { path, fields, span } => AExpr::StructLit {
                path: text::texts(path@),
                fields: inits_of(fields@),
                span: *span,
            },
            Expr::If { cond, then_branch, else_branch, span } => AExpr::If {
                cond: Box::new(cond.model()),
                then_branch: then_branch.model(),
                else_branch: match else_branch {
                    Some(b) => Some(Box::new(b.model())),
                    None => None,
                },
                span: *span,
            },
            Expr::Match { scrutinee, arms, span } => AExpr::Match {
                scrutinee: Box::new(scrutinee.model()),
                arms: arms_of(arms@),
                span: *span,
            },
            Expr::Block(b) => AExpr::Block(b.model()),
        }
    }

    /// An independent copy.
    pub fn dup(&self) -> (r: Expr)
        ensures
            r@ == self@,
        decreases self,
    {
        broadcast use group_model;

        reveal(Expr::model);
        reveal(Block::model);
        reveal(ElseBranch::model);

        match self {
            Expr::Int { value, span } => Expr::Int {
                value: *value,
                span: *span,
            },
            Expr::Bool { value, span } => Expr::Bool {
                value: *value,
                span: *span,
            },
            Expr::Ident { name, span } => Expr::Ident {
                name: name.clone(),
                span: *span,
            },
            Expr::Path { segments, span } => Expr::Path {
                segments: copy_texts(segments),
                span: *span,
            },
            Expr::Unary { op, expr, span } => Expr::Unary {
                op: *op,
                expr: Box::new(expr.dup()),
                span: *span,
            },
            Expr::Binary { op, lhs, rhs, span } => Expr::Binary {
                op: *op,
                lhs: Box::new(lhs.dup()),
                rhs: Box::new(rhs.dup()),
                span: *span,
            },
            Expr::Call { callee, args, span } => Expr::Call {
                callee: Box::new(callee.dup()),
                args: dup_exprs(args),
                span: *span,
            },
            Expr::Field { base, field, span } => Expr::Field {
                base: Box::new(base.dup()),
                field: field.clone(),
                span: *span,
            },
            Expr::TupleField { base, index, span } => Expr::TupleField {
                base: Box::new(base.dup()),
                index: *index,
                span: *span,
            },
            Expr::Index { base, index, span } => Expr::Index {
                base: Box::new(base.dup()),
                index: Box::new(index.dup()),
                span: *span,
            },
            Expr::Array { elems, span } => Expr::Array {
                elems: dup_exprs(elems),
                span: *span,
            },
            Expr::Tuple { elems, span } => Expr::Tuple {
                elems: dup_exprs(elems),
                span: *span,
            },
            Expr::StructLit { path, fields, span } => Expr::StructLit {
                path: copy_texts(path),
                fields: dup_inits(fields),
                span: *span,
            },
            Expr::If { cond, then_branch, else_branch, span } => Expr::If {
                cond: Box::new(cond.dup()),
                then_branch: then_branch.dup(),
                else_branch: match else_branch {
                    Some(b) => Some(Box::new(b.dup())),
                    None => None,
                },
                span: *span,
            },
            Expr::Match { scrutinee, arms, span } => Expr::Match {
                scrutinee: Box::new(scrutinee.dup()),
                arms: dup_arms(arms),
                span: *span,
            },
            Expr::Block(b) => Expr::Block(b.dup()),
        }
    }

}

impl View for ElseBranch {
    type V = AElseBranch;

    open spec fn view(&self) -> AElseBranch {
        self.model()
    }
}

impl Clone for ElseBranch {
    fn clone(&self) -> (r: ElseBranch)
        ensures
            r@ == self@,
    {
        self.dup()
    }
}

impl ElseBranch {
    /// The value as a mathematical object.
    #[verifier::opaque]
    pub open spec fn model(&self) -> AElseBranch
        decreases self,
    {
        match self {
            ElseBranch::Block(b) => AElseBranch::Block(b.model()),
            ElseBranch::If(e) => AElseBranch::If(e.model()),
        }
    }

    /// An independent copy.
    pub fn dup(&self) -> (r: ElseBranch)
        ensures
            r@ == self@,
        decreases self,
    {
        broadcast use group_model;

        reveal(ElseBranch::model);
        reveal(Block::model);
        reveal(Expr::model);

        match self {
            ElseBranch::Block(b) => ElseBranch::Block(b.dup()),
            ElseBranch::If(e) => ElseBranch::If(e.dup()),
        }
    }

}

impl View for MatchArm {
    type V = AMatchArm;

    open spec fn view(&self) -> AMatchArm {
        self.model()
    }
}

impl Clone for MatchArm {
    fn clone(&self) -> (r: MatchArm)
        ensures
            r@ == self@,
    {
        self.dup()
    }
}

impl MatchArm {
    /// The value as a mathematical object.
    #[verifier::opaque]
    pub open spec fn model(&self) -> AMatchArm
        decreases self,
    {
        AMatchArm {
            pattern: self.pattern.model(),
            guard: match self.guard {
                Some(b) => Some(b.model()),
                None => None,
            },
            body: self.body.model(),
            span: self.span,
        }
    }

    /// An independent copy.
    pub fn dup(&self) -> (r: MatchArm)
        ensures
            r@ == self@,
        decreases self,
    {
        broadcast use group_model;

        reveal(MatchArm::model);
        reveal(Pattern::model);
        reveal(Expr::model);

        MatchArm {
            pattern: self.pattern.dup(),
            guard: match &self.guard {
                Some(b) => Some(b.dup()),
                None => None,
            },
            body: self.body.dup(),
            span: self.span,
        }
    }

}

impl View for Pattern {
    type V = APattern;

    open spec fn view(&self) -> APattern {
        self.model()
    }
}

impl Clone for Pattern {
    fn clone(&self) -> (r: Pattern)
        ensures
            r@ == self@,
    {
        self.dup()
    }
}

impl Pattern {
    /// The value as a mathematical object.
    #[verifier::opaque]
    pub open spec fn model(&self) -> APattern
        decreases self,
    {
        match self {
            Pattern::Wildcard { span } => APattern::Wildcard {
                span: *span,
            },
            Pattern::Binding { name, span } => APattern::Binding {
                name: name@,
                span: *span,
            },
            Pattern::Int { value, span } => APattern::Int {
                value: *value,
                span: *span,
            },
            Pattern::Bool { value, span } => APattern::Bool {
                value: *value,
                span: *span,
            },
            Pattern::Range { lo, hi, inclusive, span } => APattern::Range {
                lo: *lo,
                hi: *hi,
                inclusive: *inclusive,
                span: *span,
            },
            Pattern::Variant { path, subpatterns, span } => APattern::Variant {
                path: text::texts(path@),
                subpatterns: patterns_of(subpatterns@),
                span: *span,
            },
            Pattern::Tuple { elems, span } => APattern::Tuple {
                elems: patterns_of(elems@),
                span: *span,
            },
            Pattern::Or { alts, span } => APattern::Or {
                alts: patterns_of(alts@),
                span: *span,
            },
        }
    }

    /// An independent copy.
    pub fn dup(&self) -> (r: Pattern)
        ensures
            r@ == self@,
        decreases self,
    {
        broadcast use group_model;

        reveal(Pattern::model);

        match self {
            Pattern::Wildcard { span } => Pattern::Wildcard {
                span: *span,
            },
            Pattern::Binding { name, span } => Pattern::Binding {
                name: name.clone(),
                span: *span,
            },
            Pattern::Int { value, span } => Pattern::Int {
                value: *value,
                span: *span,
            },
            Pattern::Bool { value, span } => Pattern::Bool {
                value: *value,
                span: *span,
            },
            Pattern::Range { lo, hi, inclusive, span } => Pattern::Range {
                lo: *lo,
                hi: *hi,
                inclusive: *inclusive,
                span: *span,
            },
            Pattern::Variant { path, subpatterns, span } => Pattern::Variant {
                path: copy_texts(path),
                subpatterns: dup_patterns(subpatterns),
                span: *span,
            },
            Pattern::Tuple { elems, span } => Pattern::Tuple {
                elems: dup_patterns(elems),
                span: *span,
            },
            Pattern::Or { alts, span } => Pattern::Or {
                alts: dup_patterns(alts),
                span: *span,
            },
        }
    }

}

// ---- models of built nodes ----------------------------------------------

pub broadcast proof fn lemma_built_program(items: Vec<Item>)
    ensures
        #[trigger] (Program { items })@ == (AProgram {
                items: items_of(items@),
            }),
{
    reveal(Program::model);
}

pub broadcast proof fn lemma_built_item_func(f: Func)
    ensures
        #[trigger] Item::Func(f)@ == (AItem::Func(f@)),
{
    reveal(Item::model);
    reveal(Func::model);
    reveal(StructDef::model);
    reveal(EnumDef::model);
    reveal(ConstDef::model);
    reveal(ModDef::model);
    reveal(UseDecl::model);
}

pub broadcast proof fn lemma_built_item_struct(d: StructDef)
    ensures
        #[trigger] Item::Struct(d)@ == (AItem::Struct(d@)),
{
    reveal(Item::model);
    reveal(Func::model);
    reveal(StructDef::model);
    reveal(EnumDef::model);
    reveal(ConstDef::model);
    reveal(ModDef::model);
    reveal(UseDecl::model);
}

pub broadcast proof fn lemma_built_item_enum(d: EnumDef)
    ensures
        #[trigger] Item::Enum(d)@ == (AItem::Enum(d@)),
{
    reveal(Item::model);
    reveal(Func::model);
    reveal(StructDef::model);
    reveal(EnumDef::model);
    reveal(ConstDef::model);
    reveal(ModDef::model);
    reveal(UseDecl::model);
}

pub broadcast proof fn lemma_built_item_const(d: ConstDef)
    ensures
        #[trigger] Item::Const(d)@ == (AItem::Const(d@)),
{
    reveal(Item::model);
    reveal(Func::model);
    reveal(StructDef::model);
    reveal(EnumDef::model);
    reveal(ConstDef::model);
    reveal(ModDef::model);
    reveal(UseDecl::model);
}

pub broadcast proof fn lemma_built_item_mod(d: ModDef)
    ensures
        #[trigger] Item::Mod(d)@ == (AItem::Mod(d@)),
{
    reveal(Item::model);
    reveal(Func::model);
    reveal(StructDef::model);
    reveal(EnumDef::model);
    reveal(ConstDef::model);
    reveal(ModDef::model);
    reveal(UseDecl::model);
}

pub broadcast proof fn lemma_built_item_use(d: UseDecl)
    ensures
        #[trigger] Item::Use(d)@ == (AItem::Use(d@)),
{
    reveal(Item::model);
    reveal(Func::model);
    reveal(StructDef::model);
    reveal(EnumDef::model);
    reveal(ConstDef::model);
    reveal(ModDef::model);
    reveal(UseDecl::model);
}

pub broadcast proof fn lemma_built_mod_def(name: String, items: Option<Vec<Item>>, span: Span)
    ensures
        #[trigger] (ModDef { name, items, span })@ == (AModDef {
                name: name@,
                items: match items {
                    Some(b) => Some(items_of(b@)),
                    None => None,
                },
                span: span,
            }),
{
    reveal(ModDef::model);
}

pub broadcast proof fn lemma_built_use_decl(path: Vec<String>, glob: bool, span: Span)
    ensures
        #[trigger] (UseDecl { path, glob, span })@ == (AUseDecl {
                path: text::texts(path@),
                glob: glob,
                span: span,
            }),
{
    reveal(UseDecl::model);
}

pub broadcast proof fn lemma_built_const_def(name: String, ty: TypeExpr, init: Expr, span: Span)
    ensures
        #[trigger] (ConstDef { name, ty, init, span })@ == (AConstDef {
                name: name@,
                ty: ty@,
                init: init@,
                span: span,
            }),
{
    reveal(ConstDef::model);
    reveal(TypeExpr::model);
    reveal(Expr::model);
}

pub broadcast proof fn lemma_built_func(name: String, params: Vec<Param>, ret: Option<TypeExpr>, body: Block, span: Span)
    ensures
        #[trigger] (Func { name, params, ret, body, span })@ == (AFunc {
                name: name@,
                params: params_of(params@),
                ret: match ret {
                    Some(b) => Some(b@),
                    None => None,
                },
                body: body@,
                span: span,
            }),
{
    reveal(Func::model);
    reveal(TypeExpr::model);
    reveal(Block::model);
}

pub broadcast proof fn lemma_built_param(name: String, ty: TypeExpr, span: Span)
    ensures
        #[trigger] (Param { name, ty, span })@ == (AParam {
                name: name@,
                ty: ty@,
                span: span,
            }),
{
    reveal(Param::model);
    reveal(TypeExpr::model);
}

pub broadcast proof fn lemma_built_struct_def(name: String, fields: Vec<FieldDef>, span: Span)
    ensures
        #[trigger] (StructDef { name, fields, span })@ == (AStructDef {
                name: name@,
                fields: fields_of(fields@),
                span: span,
            }),
{
    reveal(StructDef::model);
}

pub broadcast proof fn lemma_built_field_def(name: String, ty: TypeExpr, span: Span)
    ensures
        #[trigger] (FieldDef { name, ty, span })@ == (AFieldDef {
                name: name@,
                ty: ty@,
                span: span,
            }),
{
    reveal(FieldDef::model);
    reveal(TypeExpr::model);
}

pub broadcast proof fn lemma_built_enum_def(name: String, variants: Vec<VariantDef>, span: Span)
    ensures
        #[trigger] (EnumDef { name, variants, span })@ == (AEnumDef {
                name: name@,
                variants: variants_of(variants@),
                span: span,
            }),
{
    reveal(EnumDef::model);
}

pub broadcast proof fn lemma_built_variant_def(name: String, fields: Vec<TypeExpr>, span: Span)
    ensures
        #[trigger] (VariantDef { name, fields, span })@ == (AVariantDef {
                name: name@,
                fields: types_of(fields@),
                span: span,
            }),
{
    reveal(VariantDef::model);
}

pub broadcast proof fn lemma_built_type_expr_int(signed: bool, width: u32)
    ensures
        #[trigger] (TypeExpr::Int { signed, width })@ == (ATypeExpr::Int {
                signed: signed,
                width: width,
            }),
{
    reveal(TypeExpr::model);
}

pub broadcast proof fn lemma_built_type_expr_bit(width: u32)
    ensures
        #[trigger] (TypeExpr::Bit { width })@ == (ATypeExpr::Bit {
                width: width,
            }),
{
    reveal(TypeExpr::model);
}

pub broadcast proof fn lemma_built_type_expr_array(elem: Box<TypeExpr>, len: u64)
    ensures
        #[trigger] (TypeExpr::Array { elem, len })@ == (ATypeExpr::Array {
                elem: Box::new(elem@),
                len: len,
            }),
{
    reveal(TypeExpr::model);
}

pub broadcast proof fn lemma_built_type_expr_named(p: Vec<String>)
    ensures
        #[trigger] TypeExpr::Named(p)@ == (ATypeExpr::Named(text::texts(p@))),
{
    reveal(TypeExpr::model);
}

pub broadcast proof fn lemma_built_type_expr_tuple(ts: Vec<TypeExpr>)
    ensures
        #[trigger] TypeExpr::Tuple(ts)@ == (ATypeExpr::Tuple(types_of(ts@))),
{
    reveal(TypeExpr::model);
}

pub broadcast proof fn lemma_built_block(stmts: Vec<Stmt>, tail: Option<Box<Expr>>, span: Span)
    ensures
        #[trigger] (Block { stmts, tail, span })@ == (ABlock {
                stmts: stmts_of(stmts@),
                tail: match tail {
                    Some(b) => Some(Box::new(b@)),
                    None => None,
                },
                span: span,
            }),
{
    reveal(Block::model);
    reveal(Expr::model);
}

pub broadcast proof fn lemma_built_stmt_let(name: String, mutable: bool, ty: Option<TypeExpr>, init: Expr, span: Span)
    ensures
        #[trigger] (Stmt::Let { name, mutable, ty, init, span })@ == (AStmt::Let {
                name: name@,
                mutable: mutable,
                ty: match ty {
                    Some(b) => Some(b@),
                    None => None,
                },
                init: init@,
                span: span,
            }),
{
    reveal(Stmt::model);
    reveal(TypeExpr::model);
    reveal(Expr::model);
    reveal(Block::model);
}

pub broadcast proof fn lemma_built_stmt_assign(target: Expr, value: Expr, span: Span)
    ensures
        #[trigger] (Stmt::Assign { target, value, span })@ == (AStmt::Assign {
                target: target@,
                value: value@,
                span: span,
            }),
{
    reveal(Stmt::model);
    reveal(TypeExpr::model);
    reveal(Expr::model);
    reveal(Block::model);
}

pub broadcast proof fn lemma_built_stmt_while(cond: Expr, body: Block, span: Span)
    ensures
        #[trigger] (Stmt::While { cond, body, span })@ == (AStmt::While {
                cond: cond@,
                body: body@,
                span: span,
            }),
{
    reveal(Stmt::model);
    reveal(TypeExpr::model);
    reveal(Expr::model);
    reveal(Block::model);
}

pub broadcast proof fn lemma_built_stmt_for(var: String, lo: Expr, hi: Expr, body: Block, span: Span)
    ensures
        #[trigger] (Stmt::For { var, lo, hi, body, span })@ == (AStmt::For {
                var: var@,
                lo: lo@,
                hi: hi@,
                body: body@,
                span: span,
            }),
{
    reveal(Stmt::model);
    reveal(TypeExpr::model);
    reveal(Expr::model);
    reveal(Block::model);
}

pub broadcast proof fn lemma_built_stmt_return(value: Option<Expr>, span: Span)
    ensures
        #[trigger] (Stmt::Return { value, span })@ == (AStmt::Return {
                value: match value {
                    Some(b) => Some(b@),
                    None => None,
                },
                span: span,
            }),
{
    reveal(Stmt::model);
    reveal(TypeExpr::model);
    reveal(Expr::model);
    reveal(Block::model);
}

pub broadcast proof fn lemma_built_stmt_expr(e: Expr)
    ensures
        #[trigger] Stmt::Expr(e)@ == (AStmt::Expr(e@)),
{
    reveal(Stmt::model);
    reveal(TypeExpr::model);
    reveal(Expr::model);
    reveal(Block::model);
}

pub broadcast proof fn lemma_built_expr_int(value: i128, span: Span)
    ensures
        #[trigger] (Expr::Int { value, span })@ == (AExpr::Int {
                value: value,
                span: span,
            }),
{
    reveal(Expr::model);
    reveal(Block::model);
    reveal(ElseBranch::model);
}

pub broadcast proof fn lemma_built_expr_bool(value: bool, span: Span)
    ensures
        #[trigger] (Expr::Bool { value, span })@ == (AExpr::Bool {
                value: value,
                span: span,
            }),
{
    reveal(Expr::model);
    reveal(Block::model);
    reveal(ElseBranch::model);
}

pub broadcast proof fn lemma_built_expr_ident(name: String, span: Span)
    ensures
        #[trigger] (Expr::Ident { name, span })@ == (AExpr::Ident {
                name: name@,
                span: span,
            }),
{
    reveal(Expr::model);
    reveal(Block::model);
    reveal(ElseBranch::model);
}

pub broadcast proof fn lemma_built_expr_path(segments: Vec<String>, span: Span)
    ensures
        #[trigger] (Expr::Path { segments, span })@ == (AExpr::Path {
                segments: text::texts(segments@),
                span: span,
            }),
{
    reveal(Expr::model);
    reveal(Block::model);
    reveal(ElseBranch::model);
}

pub broadcast proof fn lemma_built_expr_unary(op: UnOp, expr: Box<Expr>, span: Span)
    ensures
        #[trigger] (Expr::Unary { op, expr, span })@ == (AExpr::Unary {
                op: op,
                expr: Box::new(expr@),
                span: span,
            }),
{
    reveal(Expr::model);
    reveal(Block::model);
    reveal(ElseBranch::model);
}

pub broadcast proof fn lemma_built_expr_binary(op: BinOp, lhs: Box<Expr>, rhs: Box<Expr>, span: Span)
    ensures
        #[trigger] (Expr::Binary { op, lhs, rhs, span })@ == (AExpr::Binary {
                op: op,
                lhs: Box::new(lhs@),
                rhs: Box::new(rhs@),
                span: span,
            }),
{
    reveal(Expr::model);
    reveal(Block::model);
    reveal(ElseBranch::model);
}

pub broadcast proof fn lemma_built_expr_call(callee: Box<Expr>, args: Vec<Expr>, span: Span)
    ensures
        #[trigger] (Expr::Call { callee, args, span })@ == (AExpr::Call {
                callee: Box::new(callee@),
                args: exprs_of(args@),
                span: span,
            }),
{
    reveal(Expr::model);
    reveal(Block::model);
    reveal(ElseBranch::model);
}

pub broadcast proof fn lemma_built_expr_field(base: Box<Expr>, field: String, span: Span)
    ensures
        #[trigger] (Expr::Field { base, field, span })@ == (AExpr::Field {
                base: Box::new(base@),
                field: field@,
                span: span,
            }),
{
    reveal(Expr::model);
    reveal(Block::model);
    reveal(ElseBranch::model);
}

pub broadcast proof fn lemma_built_expr_tuple_field(base: Box<Expr>, index: u64, span: Span)
    ensures
        #[trigger] (Expr::TupleField { base, index, span })@ == (AExpr::TupleField {
                base: Box::new(base@),
                index: index,
                span: span,
            }),
{
    reveal(Expr::model);
    reveal(Block::model);
    reveal(ElseBranch::model);
}

pub broadcast proof fn lemma_built_expr_index(base: Box<Expr>, index: Box<Expr>, span: Span)
    ensures
        #[trigger] (Expr::Index { base, index, span })@ == (AExpr::Index {
                base: Box::new(base@),
                index: Box::new(index@),
                span: span,
            }),
{
    reveal(Expr::model);
    reveal(Block::model);
    reveal(ElseBranch::model);
}

pub broadcast proof fn lemma_built_expr_array(elems: Vec<Expr>, span: Span)
    ensures
        #[trigger] (Expr::Array { elems, span })@ == (AExpr::Array {
                elems: exprs_of(elems@),
                span: span,
            }),
{
    reveal(Expr::model);
    reveal(Block::model);
    reveal(ElseBranch::model);
}

pub broadcast proof fn lemma_built_expr_tuple(elems: Vec<Expr>, span: Span)
    ensures
        #[trigger] (Expr::Tuple { elems, span })@ == (AExpr::Tuple {
                elems: exprs_of(elems@),
                span: span,
            }),
{
    reveal(Expr::model);
    reveal(Block::model);
    reveal(ElseBranch::model);
}

pub broadcast proof fn lemma_built_expr_struct_lit(path: Vec<String>, fields: Vec<(String, Expr)>, span: Span)
    ensures
        #[trigger] (Expr::StructLit { path, fields, span })@ == (AExpr::StructLit {
                path: text::texts(path@),
                fields: inits_of(fields@),
                span: span,
            }),
{
    reveal(Expr::model);
    reveal(Block::model);
    reveal(ElseBranch::model);
}

pub broadcast proof fn lemma_built_expr_if(cond: Box<Expr>, then_branch: Block, else_branch: Option<Box<ElseBranch>>, span: Span)
    ensures
        #[trigger] (Expr::If { cond, then_branch, else_branch, span })@ == (AExpr::If {
                cond: Box::new(cond@),
                then_branch: then_branch@,
                else_branch: match else_branch {
                    Some(b) => Some(Box::new(b@)),
                    None => None,
                },
                span: span,
            }),
{
    reveal(Expr::model);
    reveal(Block::model);
    reveal(ElseBranch::model);
}

pub broadcast proof fn lemma_built_expr_match(scrutinee: Box<Expr>, arms: Vec<MatchArm>, span: Span)
    ensures
        #[trigger] (Expr::Match { scrutinee, arms, span })@ == (AExpr::Match {
                scrutinee: Box::new(scrutinee@),
                arms: arms_of(arms@),
                span: span,
            }),
{
    reveal(Expr::model);
    reveal(Block::model);
    reveal(ElseBranch::model);
}

pub broadcast proof fn lemma_built_expr_block(b: Block)
    ensures
        #[trigger] Expr::Block(b)@ == (AExpr::Block(b@)),
{
    reveal(Expr::model);
    reveal(Block::model);
    reveal(ElseBranch::model);
}

pub broadcast proof fn lemma_built_else_branch_block(b: Block)
    ensures
        #[trigger] ElseBranch::Block(b)@ == (AElseBranch::Block(b@)),
{
    reveal(ElseBranch::model);
    reveal(Block::model);
    reveal(Expr::model);
}

pub broadcast proof fn lemma_built_else_branch_if(e: Expr)
    ensures
        #[trigger] ElseBranch::If(e)@ == (AElseBranch::If(e@)),
{
    reveal(ElseBranch::model);
    reveal(Block::model);
    reveal(Expr::model);
}

pub broadcast proof fn lemma_built_match_arm(pattern: Pattern, guard: Option<Expr>, body: Expr, span: Span)
    ensures
        #[trigger] (MatchArm { pattern, guard, body, span })@ == (AMatchArm {
                pattern: pattern@,
                guard: match guard {
                    Some(b) => Some(b@),
                    None => None,
                },
                body: body@,
                span: span,
            }),
{
    reveal(MatchArm::model);
    reveal(Pattern::model);
    reveal(Expr::model);
}

pub broadcast proof fn lemma_built_pattern_wildcard(span: Span)
    ensures
        #[trigger] (Pattern::Wildcard { span })@ == (APattern::Wildcard {
                span: span,
            }),
{
    reveal(Pattern::model);
}

pub broadcast proof fn lemma_built_pattern_binding(name: String, span: Span)
    ensures
        #[trigger] (Pattern::Binding { name, span })@ == (APattern::Binding {
                name: name@,
                span: span,
            }),
{
    reveal(Pattern::model);
}

pub broadcast proof fn lemma_built_pattern_int(value: i128, span: Span)
    ensures
        #[trigger] (Pattern::Int { value, span })@ == (APattern::Int {
                value: value,
                span: span,
            }),
{
    reveal(Pattern::model);
}

pub broadcast proof fn lemma_built_pattern_bool(value: bool, span: Span)
    ensures
        #[trigger] (Pattern::Bool { value, span })@ == (APattern::Bool {
                value: value,
                span: span,
            }),
{
    reveal(Pattern::model);
}

pub broadcast proof fn lemma_built_pattern_range(lo: i128, hi: i128, inclusive: bool, span: Span)
    ensures
        #[trigger] (Pattern::Range { lo, hi, inclusive, span })@ == (APattern::Range {
                lo: lo,
                hi: hi,
                inclusive: inclusive,
                span: span,
            }),
{
    reveal(Pattern::model);
}

pub broadcast proof fn lemma_built_pattern_variant(path: Vec<String>, subpatterns: Vec<Pattern>, span: Span)
    ensures
        #[trigger] (Pattern::Variant { path, subpatterns, span })@ == (APattern::Variant {
                path: text::texts(path@),
                subpatterns: patterns_of(subpatterns@),
                span: span,
            }),
{
    reveal(Pattern::model);
}

pub broadcast proof fn lemma_built_pattern_tuple(elems: Vec<Pattern>, span: Span)
    ensures
        #[trigger] (Pattern::Tuple { elems, span })@ == (APattern::Tuple {
                elems: patterns_of(elems@),
                span: span,
            }),
{
    reveal(Pattern::model);
}

pub broadcast proof fn lemma_built_pattern_or(alts: Vec<Pattern>, span: Span)
    ensures
        #[trigger] (Pattern::Or { alts, span })@ == (APattern::Or {
                alts: patterns_of(alts@),
                span: span,
            }),
{
    reveal(Pattern::model);
}

/// The models of the nodes that carry nothing.
pub proof fn lemma_plain_nodes()
    ensures
        TypeExpr::Bool@ == ATypeExpr::Bool,
        TypeExpr::Unit@ == ATypeExpr::Unit,
{
    reveal(TypeExpr::model);
}

/// The models of built nodes.
pub broadcast group group_built {
    lemma_built_program,
    lemma_built_item_func,
    lemma_built_item_struct,
    lemma_built_item_enum,
    lemma_built_item_const,
    lemma_built_item_mod,
    lemma_built_item_use,
    lemma_built_mod_def,
    lemma_built_use_decl,
    lemma_built_const_def,
    lemma_built_func,
    lemma_built_param,
    lemma_built_struct_def,
    lemma_built_field_def,
    lemma_built_enum_def,
    lemma_built_variant_def,
    lemma_built_type_expr_int,
    lemma_built_type_expr_bit,
    lemma_built_type_expr_array,
    lemma_built_type_expr_named,
    lemma_built_type_expr_tuple,
    lemma_built_block,
    lemma_built_stmt_let,
    lemma_built_stmt_assign,
    lemma_built_stmt_while,
    lemma_built_stmt_for,
    lemma_built_stmt_return,
    lemma_built_stmt_expr,
    lemma_built_expr_int,
    lemma_built_expr_bool,
    lemma_built_expr_ident,
    lemma_built_expr_path,
    lemma_built_expr_unary,
    lemma_built_expr_binary,
    lemma_built_expr_call,
    lemma_built_expr_field,
    lemma_built_expr_tuple_field,
    lemma_built_expr_index,
    lemma_built_expr_array,
    lemma_built_expr_tuple,
    lemma_built_expr_struct_lit,
    lemma_built_expr_if,
    lemma_built_expr_match,
    lemma_built_expr_block,
    lemma_built_else_branch_block,
    lemma_built_else_branch_if,
    lemma_built_match_arm,
    lemma_built_pattern_wildcard,
    lemma_built_pattern_binding,
    lemma_built_pattern_int,
    lemma_built_pattern_bool,
    lemma_built_pattern_range,
    lemma_built_pattern_variant,
    lemma_built_pattern_tuple,
    lemma_built_pattern_or,
}

// ---- spans --------------------------------------------------------------

impl AExpr {
    /// The source span of the expression.
    pub open spec fn span(self) -> Span {
        match self {
            AExpr::Int { value, span } => span,
            AExpr::Bool { value, span } => span,
            AExpr::Ident { name, span } => span,
            AExpr::Path { segments, span } => span,
            AExpr::Unary { op, expr, span } => span,
            AExpr::Binary { op, lhs, rhs, span } => span,
            AExpr::Call { callee, args, span } => span,
            AExpr::Field { base, field, span } => span,
            AExpr::TupleField { base, index, span } => span,
            AExpr::Index { base, index, span } => span,
            AExpr::Array { elems, span } => span,
            AExpr::Tuple { elems, span } => span,
            AExpr::StructLit { path, fields, span } => span,
            AExpr::If { cond, then_branch, else_branch, span } => span,
            AExpr::Match { scrutinee, arms, span } => span,
            AExpr::Block(b) => b.span,
        }
    }
}

impl Expr {
    /// The source span of this expression.
    pub fn span(&self) -> (r: Span)
        ensures
            r == self@.span(),
    {
        reveal(Expr::model);
        reveal(Block::model);
        match self {
            Expr::Int { value: _, span } => *span,
            Expr::Bool { value: _, span } => *span,
            Expr::Ident { name: _, span } => *span,
            Expr::Path { segments: _, span } => *span,
            Expr::Unary { op: _, expr: _, span } => *span,
            Expr::Binary { op: _, lhs: _, rhs: _, span } => *span,
            Expr::Call { callee: _, args: _, span } => *span,
            Expr::Field { base: _, field: _, span } => *span,
            Expr::TupleField { base: _, index: _, span } => *span,
            Expr::Index { base: _, index: _, span } => *span,
            Expr::Array { elems: _, span } => *span,
            Expr::Tuple { elems: _, span } => *span,
            Expr::StructLit { path: _, fields: _, span } => *span,
            Expr::If { cond: _, then_branch: _, else_branch: _, span } => *span,
            Expr::Match { scrutinee: _, arms: _, span } => *span,
            Expr::Block(b) => {
                assert(b@.span == b.span);
                b.span
            },
        }
    }
}

impl APattern {
    /// The source span of the pattern.
    pub open spec fn span(self) -> Span {
        match self {
            APattern::Wildcard { span } => span,
            APattern::Binding { name, span } => span,
            APattern::Int { value, span } => span,
            APattern::Bool { value, span } => span,
            APattern::Range { lo, hi, inclusive, span } => span,
            APattern::Variant { path, subpatterns, span } => span,
            APattern::Tuple { elems, span } => span,
            APattern::Or { alts, span } => span,
        }
    }
}

impl Pattern {
    /// The source span of this pattern.
    pub fn span(&self) -> (r: Span)
        ensures
            r == self@.span(),
    {
        reveal(Pattern::model);
        match self {
            Pattern::Wildcard { span } => *span,
            Pattern::Binding { name: _, span } => *span,
            Pattern::Int { value: _, span } => *span,
            Pattern::Bool { value: _, span } => *span,
            Pattern::Range { lo: _, hi: _, inclusive: _, span } => *span,
            Pattern::Variant { path: _, subpatterns: _, span } => *span,
            Pattern::Tuple { elems: _, span } => *span,
            Pattern::Or { alts: _, span } => *span,
        }
    }
}

} // verus!
