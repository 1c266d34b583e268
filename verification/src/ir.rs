//! # Rune typed core IR
//!
//! The typed core intermediate representation: the single contract that every
//! later stage consumes. The tree-walking interpreter evaluates it, the
//! HDL-subset analysis reads it, and the Verilog backend lowers the
//! synthesizable subset of it.
//!
//! 1. **Fully typed.** Every [`Expr`] carries its resolved [`Type`].
//! 2. **Deterministic.** Integer overflow wraps (two's complement) for every
//!    integer-like type; division and remainder by zero are reported runtime
//!    traps.
//! 3. **Explicit bit widths.** [`Type::Bit`] carries its width `N`; arithmetic
//!    wraps modulo `2^N`.
//! 4. **Value semantics, no heap.** Arrays, structs, tuples and enums are values.
//! 5. **Small and explicit.** Control flow is structured, names are resolved,
//!    enum variants are referred to by numeric tag.
//!
//! Each type `X` has a mathematical counterpart (`TX`), in which strings are
//! sequences of characters and vectors are sequences; `x@` takes a value to it.

use crate::model::{self, Duplicate};
use crate::name_map::{NameMap, Table};
use crate::text::{self, cat2, cat3, cat5, join, str_eq, u32_text, u64_text, Text};
use vstd::prelude::*;

verus! {

broadcast use model::group_views;

/// A resolved Rune type. Every named type is known to exist and integer widths
/// are committed.
#[derive(Debug, PartialEq, Eq, Hash)]
#[allow(inconsistent_fields)]
pub enum Type {
    /// `bool`
    Bool,
    /// The unit type `()`, the result of statements and `()`-returning functions.
    Unit,
    /// A fixed-width machine integer (`i8..i64`, `u8..u64`).
    Int(IntTy),
    /// `bit<N>`, an explicit bit-vector with wrapping arithmetic. `1 <= N <= 128`.
    Bit(u32),
    /// `[T; N]`, a fixed-size array.
    Array(Box<Type>, u64),
    /// A named struct type.
    Struct(String),
    /// A named (tagged) enum type.
    Enum(String),
    /// An anonymous tuple type `(T0, T1, ...)` of two or more elements.
    Tuple(Vec<Type>),
}

/// A fixed-width machine integer type, e.g. `i32` or `u8`.
#[derive(Clone, Copy, Debug, PartialEq, Eq, Hash, Structural)]
pub struct IntTy {
    pub signed: bool,
    /// One of 8, 16, 32, 64.
    pub width: u32,
}

/// A complete typed program: the unit of typechecking and hot reload.
///
/// Definitions are kept in name-keyed maps so that a single definition can be
/// swapped without disturbing the rest.
#[derive(Debug, PartialEq)]
pub struct Module {
    pub structs: NameMap<StructDef>,
    pub enums: NameMap<EnumDef>,
    pub funcs: NameMap<Func>,
    pub consts: NameMap<ConstDef>,
}

/// A typed struct definition with an ordered field layout.
#[derive(Debug, PartialEq, Eq)]
pub struct StructDef {
    pub name: String,
    pub fields: Vec<Field>,
}

#[derive(Debug, PartialEq, Eq)]
pub struct Field {
    pub name: String,
    pub ty: Type,
}

/// A typed enum definition. Variant order defines the tag: the first variant is
/// tag `0`.
#[derive(Debug, PartialEq, Eq)]
pub struct EnumDef {
    pub name: String,
    pub variants: Vec<Variant>,
}

#[derive(Debug, PartialEq, Eq)]
pub struct Variant {
    pub name: String,
    /// Payload field types, in order. Empty for unit-like variants.
    pub fields: Vec<Type>,
}

/// A typed constant.
#[derive(Debug, PartialEq)]
pub struct ConstDef {
    pub name: String,
    pub ty: Type,
    pub init: Expr,
}

/// A typed function definition.
#[derive(Debug, PartialEq)]
pub struct Func {
    pub name: String,
    pub params: Vec<Param>,
    pub ret: Type,
    pub body: Block,
}

/// The function signature only: hot reload decides by it whether a swapped
/// definition is compatible with its callers.
#[derive(Debug, PartialEq, Eq)]
pub struct Signature {
    pub params: Vec<Type>,
    pub ret: Type,
}

#[derive(Debug, PartialEq, Eq)]
pub struct Param {
    pub name: String,
    pub ty: Type,
}

/// A typed block: a sequence of statements and an optional tail expression whose
/// value becomes the block's value.
#[derive(Debug, PartialEq)]
pub struct Block {
    pub stmts: Vec<Stmt>,
    pub tail: Option<Box<Expr>>,
    /// The type the block evaluates to (the tail's type, or `Unit`).
    pub ty: Type,
}

/// A typed statement.
#[derive(Debug, PartialEq)]
#[allow(inconsistent_fields)]
pub enum Stmt {
    /// Introduce a local binding. `mutable` controls whether reassignment is
    /// permitted (already checked by the typechecker).
    Let { name: String, mutable: bool, ty: Type, init: Expr },
    /// Assign to an existing place (local, field, or element).
    Assign { place: Place, value: Expr },
    /// `while cond { body }`. `cond` is always `bool`.
    While { cond: Expr, body: Block },
    /// `for var in lo..hi { body }`, a bounded loop over a half-open range.
    For { var: String, ty: Type, lo: Expr, hi: Expr, body: Block },
    /// `return value;`
    Return { value: Option<Expr> },
    /// An expression evaluated for effect.
    Expr(Expr),
}

/// An assignable location.
#[derive(Debug, PartialEq)]
#[allow(inconsistent_fields)]
pub enum Place {
    /// A local variable.
    Local { name: String, ty: Type },
    /// A struct field of a place.
    Field { base: Box<Place>, index: usize, ty: Type },
    /// An array element of a place.
    Index { base: Box<Place>, index: Box<Expr>, ty: Type },
    /// A tuple element of a place, e.g. `t.0`.
    TupleField { base: Box<Place>, index: usize, ty: Type },
}

/// A typed expression: an [`ExprKind`] paired with its resolved [`Type`].
#[derive(Debug, PartialEq)]
pub struct Expr {
    pub kind: ExprKind,
    pub ty: Type,
}

/// The shape of a typed expression.
#[derive(Debug, PartialEq)]
#[allow(inconsistent_fields)]
pub enum ExprKind {
    /// An integer literal. The exact type is on `Expr::ty`.
    Int(i128),
    /// A boolean literal.
    Bool(bool),
    /// The unit value `()`.
    Unit,
    /// A reference to a local variable or parameter.
    Local(String),
    /// A reference to a module-level constant, by its full name.
    ConstRef(String),
    /// Unary operation.
    Unary { op: UnOp, expr: Box<Expr> },
    /// Binary operation.
    Binary { op: BinOp, lhs: Box<Expr>, rhs: Box<Expr> },
    /// A direct call to a named function.
    Call { func: String, args: Vec<Expr> },
    /// The built-in `print(x)`.
    Print { arg: Box<Expr> },
    /// Construct a struct value with fields in definition order.
    MakeStruct { name: String, fields: Vec<Expr> },
    /// Construct an enum value. `tag` indexes into the enum's variant list.
    MakeEnum { name: String, tag: usize, args: Vec<Expr> },
    /// Construct a tuple value from its elements.
    MakeTuple(Vec<Expr>),
    /// Read a struct field by resolved index.
    Field { base: Box<Expr>, index: usize },
    /// Read a tuple element by position, e.g. `t.0`.
    TupleField { base: Box<Expr>, index: usize },
    /// Index into an array.
    Index { base: Box<Expr>, index: Box<Expr> },
    /// Array literal.
    Array(Vec<Expr>),
    /// `if cond { then } else { else }` as an expression.
    If { cond: Box<Expr>, then_branch: Block, else_branch: Block },
    /// An exhaustive `match`.
    Match { scrutinee: Box<Expr>, arms: Vec<Arm> },
    /// A block used as an expression.
    Block(Block),
}

/// One arm of a typed `match`. An optional `guard` (a `bool` expression) must
/// evaluate to true for the arm to fire.
#[derive(Debug, PartialEq)]
pub struct Arm {
    pub pattern: Pattern,
    pub guard: Option<Expr>,
    pub body: Expr,
}

/// A typed match pattern. Bindings introduced here are typed.
#[derive(Debug, PartialEq)]
#[allow(inconsistent_fields)]
pub enum Pattern {
    /// `_`
    Wildcard,
    /// Bind the whole scrutinee to `name`.
    Binding { name: String, ty: Type },
    /// Integer literal.
    Int(i128),
    /// Boolean literal.
    Bool(bool),
    /// Integer range. `inclusive` selects `lo..=hi` over the half-open `lo..hi`.
    Range { lo: i128, hi: i128, inclusive: bool },
    /// `Variant(sub, ...)`: `tag` indexes the enum's variants and `subpatterns`
    /// match its payload fields positionally.
    Variant { enum_name: String, tag: usize, subpatterns: Vec<Pattern> },
    /// Tuple pattern, matching each element positionally.
    Tuple(Vec<Pattern>),
    /// Or-pattern: matches if any alternative matches.
    Or(Vec<Pattern>),
}

/// Unary operators (semantics fixed by operand type).
#[derive(Clone, Copy, Debug, PartialEq, Eq, Structural)]
pub enum UnOp {
    /// Two's-complement negation (wrapping) on integer-like types.
    Neg,
    /// Logical NOT on `bool`, bitwise NOT on integer-like types.
    Not,
}

/// Binary operators.
#[derive(Clone, Copy, Debug, PartialEq, Eq, Structural)]
pub enum BinOp {
    /// Wrapping add/sub/mul on integer-like types.
    Add,
    Sub,
    Mul,
    /// Division and remainder. Trap (defined runtime error) on divisor `0`.
    Div,
    Rem,
    /// Short-circuiting logical operators on `bool`.
    And,
    Or,
    /// Bitwise operators on integer-like types.
    BitAnd,
    BitOr,
    BitXor,
    /// Shifts on integer-like types; the amount is taken modulo the width.
    Shl,
    Shr,
    /// Comparisons; produce `bool`.
    Eq,
    Ne,
    Lt,
    Le,
    Gt,
    Ge,
}

// ---- mathematical counterparts ------------------------------------------

#[allow(inconsistent_fields)]
pub enum TType {
    Bool,
    Unit,
    Int(IntTy),
    Bit(u32),
    Array(Box<TType>, u64),
    Struct(Text),
    Enum(Text),
    Tuple(Seq<TType>),
}

pub struct TField {
    pub name: Text,
    pub ty: TType,
}

pub struct TStruct {
    pub name: Text,
    pub fields: Seq<TField>,
}

pub struct TVariant {
    pub name: Text,
    pub fields: Seq<TType>,
}

pub struct TEnum {
    pub name: Text,
    pub variants: Seq<TVariant>,
}

pub struct TParam {
    pub name: Text,
    pub ty: TType,
}

pub struct TSig {
    pub params: Seq<TType>,
    pub ret: TType,
}

pub struct TBlock {
    pub stmts: Seq<TStmt>,
    pub tail: Option<Box<TExpr>>,
    pub ty: TType,
}

#[allow(inconsistent_fields)]
pub enum TStmt {
    Let { name: Text, mutable: bool, ty: TType, init: TExpr },
    Assign { place: TPlace, value: TExpr },
    While { cond: TExpr, body: TBlock },
    For { var: Text, ty: TType, lo: TExpr, hi: TExpr, body: TBlock },
    Return { value: Option<TExpr> },
    Expr(TExpr),
}

#[allow(inconsistent_fields)]
pub enum TPlace {
    Local { name: Text, ty: TType },
    Field { base: Box<TPlace>, index: usize, ty: TType },
    Index { base: Box<TPlace>, index: Box<TExpr>, ty: TType },
    TupleField { base: Box<TPlace>, index: usize, ty: TType },
}

pub struct TExpr {
    pub kind: TKind,
    pub ty: TType,
}

#[allow(inconsistent_fields)]
pub enum TKind {
    Int(i128),
    Bool(bool),
    Unit,
    Local(Text),
    ConstRef(Text),
    Unary { op: UnOp, expr: Box<TExpr> },
    Binary { op: BinOp, lhs: Box<TExpr>, rhs: Box<TExpr> },
    Call { func: Text, args: Seq<TExpr> },
    Print { arg: Box<TExpr> },
    MakeStruct { name: Text, fields: Seq<TExpr> },
    MakeEnum { name: Text, tag: usize, args: Seq<TExpr> },
    MakeTuple(Seq<TExpr>),
    Field { base: Box<TExpr>, index: usize },
    TupleField { base: Box<TExpr>, index: usize },
    Index { base: Box<TExpr>, index: Box<TExpr> },
    Array(Seq<TExpr>),
    If { cond: Box<TExpr>, then_branch: TBlock, else_branch: TBlock },
    Match { scrutinee: Box<TExpr>, arms: Seq<TArm> },
    Block(TBlock),
}

pub struct TArm {
    pub pattern: TPattern,
    pub guard: Option<TExpr>,
    pub body: TExpr,
}

#[allow(inconsistent_fields)]
pub enum TPattern {
    Wildcard,
    Binding { name: Text, ty: TType },
    Int(i128),
    Bool(bool),
    Range { lo: i128, hi: i128, inclusive: bool },
    Variant { enum_name: Text, tag: usize, subpatterns: Seq<TPattern> },
    Tuple(Seq<TPattern>),
    Or(Seq<TPattern>),
}

pub struct TConst {
    pub name: Text,
    pub ty: TType,
    pub init: TExpr,
}

pub struct TFunc {
    pub name: Text,
    pub params: Seq<TParam>,
    pub ret: TType,
    pub body: TBlock,
}

/// A module as a mathematical object.
#[verifier::ext_equal]
pub struct TModule {
    pub structs: Table<TStruct>,
    pub enums: Table<TEnum>,
    pub funcs: Table<TFunc>,
    pub consts: Table<TConst>,
}

impl View for Module {
    type V = TModule;

    open spec fn view(&self) -> TModule {
        TModule {
            structs: self.structs@,
            enums: self.enums@,
            funcs: self.funcs@,
            consts: self.consts@,
        }
    }
}

/// The values of `v`, each as a mathematical object.
pub open spec fn types_of(v: Seq<Type>) -> Seq<TType>
    decreases v,
{
    Seq::new(v.len(), |i: int| if 0 <= i < v.len() { v[i].model() } else { arbitrary() })
}

pub broadcast proof fn lemma_types(v: Seq<Type>)
    ensures
        #[trigger] types_of(v) == model::views(v),
{
    reveal(Type::model);
    assert(types_of(v) =~= model::views(v));
}

/// An independent copy of `v`.
pub fn dup_types(v: &Vec<Type>) -> (r: Vec<Type>)
    ensures
        types_of(r@) == types_of(v@),
    decreases v,
{
    broadcast use group_model;

    let mut out: Vec<Type> = Vec::new();
    let mut i: usize = 0;
    while i < v.len()
        invariant
            i <= v.len(),
            out.len() == i,
            forall|j: int| 0 <= j < i ==> #[trigger] out[j]@ == v[j]@,
        decreases v.len() - i,
    {
        out.push(v[i].dup());
        i += 1;
    }
    assert(types_of(out@) =~= types_of(v@));
    out
}

/// Whether `a` and `b` hold the same values in the same order.
pub fn same_types(a: &Vec<Type>, b: &Vec<Type>) -> (r: bool)
    ensures
        r == (types_of(a@) == types_of(b@)),
    decreases a,
{
    broadcast use group_model;

    if a.len() != b.len() {
        assert(types_of(a@).len() != types_of(b@).len());
        return false;
    }
    let mut i: usize = 0;
    while i < a.len()
        invariant
            i <= a.len(),
            a.len() == b.len(),
            forall|j: int| 0 <= j < i ==> #[trigger] a[j]@ == b[j]@,
        decreases a.len() - i,
    {
        if !a[i].same(&b[i]) {
            broadcast use group_model;

            assert(types_of(a@)[i as int] == a[i as int]@);
            assert(types_of(b@)[i as int] == b[i as int]@);
            return false;
        }
        i += 1;
    }
    assert(types_of(a@) =~= types_of(b@));
    true
}

/// The values of `v`, each as a mathematical object.
pub open spec fn fields_of(v: Seq<Field>) -> Seq<TField>
    decreases v,
{
    Seq::new(v.len(), |i: int| if 0 <= i < v.len() { v[i].model() } else { arbitrary() })
}

pub broadcast proof fn lemma_fields(v: Seq<Field>)
    ensures
        #[trigger] fields_of(v) == model::views(v),
{
    assert(fields_of(v) =~= model::views(v));
}

/// An independent copy of `v`.
pub fn dup_fields(v: &Vec<Field>) -> (r: Vec<Field>)
    ensures
        fields_of(r@) == fields_of(v@),
    decreases v,
{
    broadcast use group_model;

    let mut out: Vec<Field> = Vec::new();
    let mut i: usize = 0;
    while i < v.len()
        invariant
            i <= v.len(),
            out.len() == i,
            forall|j: int| 0 <= j < i ==> #[trigger] out[j]@ == v[j]@,
        decreases v.len() - i,
    {
        out.push(v[i].dup());
        i += 1;
    }
    assert(fields_of(out@) =~= fields_of(v@));
    out
}

/// Whether `a` and `b` hold the same values in the same order.
pub fn same_fields(a: &Vec<Field>, b: &Vec<Field>) -> (r: bool)
    ensures
        r == (fields_of(a@) == fields_of(b@)),
    decreases a,
{
    broadcast use group_model;

    if a.len() != b.len() {
        assert(fields_of(a@).len() != fields_of(b@).len());
        return false;
    }
    let mut i: usize = 0;
    while i < a.len()
        invariant
            i <= a.len(),
            a.len() == b.len(),
            forall|j: int| 0 <= j < i ==> #[trigger] a[j]@ == b[j]@,
        decreases a.len() - i,
    {
        if !a[i].same(&b[i]) {
            broadcast use group_model;

            assert(fields_of(a@)[i as int] == a[i as int]@);
            assert(fields_of(b@)[i as int] == b[i as int]@);
            return false;
        }
        i += 1;
    }
    assert(fields_of(a@) =~= fields_of(b@));
    true
}

/// The values of `v`, each as a mathematical object.
pub open spec fn variants_of(v: Seq<Variant>) -> Seq<TVariant>
    decreases v,
{
    Seq::new(v.len(), |i: int| if 0 <= i < v.len() { v[i].model() } else { arbitrary() })
}

pub broadcast proof fn lemma_variants(v: Seq<Variant>)
    ensures
        #[trigger] variants_of(v) == model::views(v),
{
    assert(variants_of(v) =~= model::views(v));
}

/// An independent copy of `v`.
pub fn dup_variants(v: &Vec<Variant>) -> (r: Vec<Variant>)
    ensures
        variants_of(r@) == variants_of(v@),
    decreases v,
{
    broadcast use group_model;

    let mut out: Vec<Variant> = Vec::new();
    let mut i: usize = 0;
    while i < v.len()
        invariant
            i <= v.len(),
            out.len() == i,
            forall|j: int| 0 <= j < i ==> #[trigger] out[j]@ == v[j]@,
        decreases v.len() - i,
    {
        out.push(v[i].dup());
        i += 1;
    }
    assert(variants_of(out@) =~= variants_of(v@));
    out
}

/// Whether `a` and `b` hold the same values in the same order.
pub fn same_variants(a: &Vec<Variant>, b: &Vec<Variant>) -> (r: bool)
    ensures
        r == (variants_of(a@) == variants_of(b@)),
    decreases a,
{
    broadcast use group_model;

    if a.len() != b.len() {
        assert(variants_of(a@).len() != variants_of(b@).len());
        return false;
    }
    let mut i: usize = 0;
    while i < a.len()
        invariant
            i <= a.len(),
            a.len() == b.len(),
            forall|j: int| 0 <= j < i ==> #[trigger] a[j]@ == b[j]@,
        decreases a.len() - i,
    {
        if !a[i].same(&b[i]) {
            broadcast use group_model;

            assert(variants_of(a@)[i as int] == a[i as int]@);
            assert(variants_of(b@)[i as int] == b[i as int]@);
            return false;
        }
        i += 1;
    }
    assert(variants_of(a@) =~= variants_of(b@));
    true
}

/// The values of `v`, each as a mathematical object.
pub open spec fn params_of(v: Seq<Param>) -> Seq<TParam>
    decreases v,
{
    Seq::new(v.len(), |i: int| if 0 <= i < v.len() { v[i].model() } else { arbitrary() })
}

pub broadcast proof fn lemma_params(v: Seq<Param>)
    ensures
        #[trigger] params_of(v) == model::views(v),
{
    assert(params_of(v) =~= model::views(v));
}

/// An independent copy of `v`.
pub fn dup_params(v: &Vec<Param>) -> (r: Vec<Param>)
    ensures
        params_of(r@) == params_of(v@),
    decreases v,
{
    broadcast use group_model;

    let mut out: Vec<Param> = Vec::new();
    let mut i: usize = 0;
    while i < v.len()
        invariant
            i <= v.len(),
            out.len() == i,
            forall|j: int| 0 <= j < i ==> #[trigger] out[j]@ == v[j]@,
        decreases v.len() - i,
    {
        out.push(v[i].dup());
        i += 1;
    }
    assert(params_of(out@) =~= params_of(v@));
    out
}

/// Whether `a` and `b` hold the same values in the same order.
pub fn same_params(a: &Vec<Param>, b: &Vec<Param>) -> (r: bool)
    ensures
        r == (params_of(a@) == params_of(b@)),
    decreases a,
{
    broadcast use group_model;

    if a.len() != b.len() {
        assert(params_of(a@).len() != params_of(b@).len());
        return false;
    }
    let mut i: usize = 0;
    while i < a.len()
        invariant
            i <= a.len(),
            a.len() == b.len(),
            forall|j: int| 0 <= j < i ==> #[trigger] a[j]@ == b[j]@,
        decreases a.len() - i,
    {
        if !a[i].same(&b[i]) {
            broadcast use group_model;

            assert(params_of(a@)[i as int] == a[i as int]@);
            assert(params_of(b@)[i as int] == b[i as int]@);
            return false;
        }
        i += 1;
    }
    assert(params_of(a@) =~= params_of(b@));
    true
}

/// The values of `v`, each as a mathematical object.
pub open spec fn stmts_of(v: Seq<Stmt>) -> Seq<TStmt>
    decreases v,
{
    Seq::new(v.len(), |i: int| if 0 <= i < v.len() { v[i].model() } else { arbitrary() })
}

pub broadcast proof fn lemma_stmts(v: Seq<Stmt>)
    ensures
        #[trigger] stmts_of(v) == model::views(v),
{
    reveal(Stmt::model);
    assert(stmts_of(v) =~= model::views(v));
}

/// An independent copy of `v`.
pub fn dup_stmts(v: &Vec<Stmt>) -> (r: Vec<Stmt>)
    ensures
        stmts_of(r@) == stmts_of(v@),
    decreases v,
{
    broadcast use group_model;

    let mut out: Vec<Stmt> = Vec::new();
    let mut i: usize = 0;
    while i < v.len()
        invariant
            i <= v.len(),
            out.len() == i,
            forall|j: int| 0 <= j < i ==> #[trigger] out[j]@ == v[j]@,
        decreases v.len() - i,
    {
        out.push(v[i].dup());
        i += 1;
    }
    assert(stmts_of(out@) =~= stmts_of(v@));
    out
}

/// Whether `a` and `b` hold the same values in the same order.
pub fn same_stmts(a: &Vec<Stmt>, b: &Vec<Stmt>) -> (r: bool)
    ensures
        r == (stmts_of(a@) == stmts_of(b@)),
    decreases a,
{
    broadcast use group_model;

    if a.len() != b.len() {
        assert(stmts_of(a@).len() != stmts_of(b@).len());
        return false;
    }
    let mut i: usize = 0;
    while i < a.len()
        invariant
            i <= a.len(),
            a.len() == b.len(),
            forall|j: int| 0 <= j < i ==> #[trigger] a[j]@ == b[j]@,
        decreases a.len() - i,
    {
        if !a[i].same(&b[i]) {
            broadcast use group_model;

            assert(stmts_of(a@)[i as int] == a[i as int]@);
            assert(stmts_of(b@)[i as int] == b[i as int]@);
            return false;
        }
        i += 1;
    }
    assert(stmts_of(a@) =~= stmts_of(b@));
    true
}

/// The values of `v`, each as a mathematical object.
pub open spec fn exprs_of(v: Seq<Expr>) -> Seq<TExpr>
    decreases v,
{
    Seq::new(v.len(), |i: int| if 0 <= i < v.len() { v[i].model() } else { arbitrary() })
}

pub broadcast proof fn lemma_exprs(v: Seq<Expr>)
    ensures
        #[trigger] exprs_of(v) == model::views(v),
{
    reveal(Expr::model);
    assert(exprs_of(v) =~= model::views(v));
}

/// An independent copy of `v`.
pub fn dup_exprs(v: &Vec<Expr>) -> (r: Vec<Expr>)
    ensures
        exprs_of(r@) == exprs_of(v@),
    decreases v,
{
    broadcast use group_model;

    let mut out: Vec<Expr> = Vec::new();
    let mut i: usize = 0;
    while i < v.len()
        invariant
            i <= v.len(),
            out.len() == i,
            forall|j: int| 0 <= j < i ==> #[trigger] out[j]@ == v[j]@,
        decreases v.len() - i,
    {
        out.push(v[i].dup());
        i += 1;
    }
    assert(exprs_of(out@) =~= exprs_of(v@));
    out
}

/// Whether `a` and `b` hold the same values in the same order.
pub fn same_exprs(a: &Vec<Expr>, b: &Vec<Expr>) -> (r: bool)
    ensures
        r == (exprs_of(a@) == exprs_of(b@)),
    decreases a,
{
    broadcast use group_model;

    if a.len() != b.len() {
        assert(exprs_of(a@).len() != exprs_of(b@).len());
        return false;
    }
    let mut i: usize = 0;
    while i < a.len()
        invariant
            i <= a.len(),
            a.len() == b.len(),
            forall|j: int| 0 <= j < i ==> #[trigger] a[j]@ == b[j]@,
        decreases a.len() - i,
    {
        if !a[i].same(&b[i]) {
            broadcast use group_model;

            assert(exprs_of(a@)[i as int] == a[i as int]@);
            assert(exprs_of(b@)[i as int] == b[i as int]@);
            return false;
        }
        i += 1;
    }
    assert(exprs_of(a@) =~= exprs_of(b@));
    true
}

/// The values of `v`, each as a mathematical object.
pub open spec fn arms_of(v: Seq<Arm>) -> Seq<TArm>
    decreases v,
{
    Seq::new(v.len(), |i: int| if 0 <= i < v.len() { v[i].model() } else { arbitrary() })
}

pub broadcast proof fn lemma_arms(v: Seq<Arm>)
    ensures
        #[trigger] arms_of(v) == model::views(v),
{
    reveal(Arm::model);
    assert(arms_of(v) =~= model::views(v));
}

/// An independent copy of `v`.
pub fn dup_arms(v: &Vec<Arm>) -> (r: Vec<Arm>)
    ensures
        arms_of(r@) == arms_of(v@),
    decreases v,
{
    broadcast use group_model;

    let mut out: Vec<Arm> = Vec::new();
    let mut i: usize = 0;
    while i < v.len()
        invariant
            i <= v.len(),
            out.len() == i,
            forall|j: int| 0 <= j < i ==> #[trigger] out[j]@ == v[j]@,
        decreases v.len() - i,
    {
        out.push(v[i].dup());
        i += 1;
    }
    assert(arms_of(out@) =~= arms_of(v@));
    out
}

/// Whether `a` and `b` hold the same values in the same order.
pub fn same_arms(a: &Vec<Arm>, b: &Vec<Arm>) -> (r: bool)
    ensures
        r == (arms_of(a@) == arms_of(b@)),
    decreases a,
{
    broadcast use group_model;

    if a.len() != b.len() {
        assert(arms_of(a@).len() != arms_of(b@).len());
        return false;
    }
    let mut i: usize = 0;
    while i < a.len()
        invariant
            i <= a.len(),
            a.len() == b.len(),
            forall|j: int| 0 <= j < i ==> #[trigger] a[j]@ == b[j]@,
        decreases a.len() - i,
    {
        if !a[i].same(&b[i]) {
            broadcast use group_model;

            assert(arms_of(a@)[i as int] == a[i as int]@);
            assert(arms_of(b@)[i as int] == b[i as int]@);
            return false;
        }
        i += 1;
    }
    assert(arms_of(a@) =~= arms_of(b@));
    true
}

/// The values of `v`, each as a mathematical object.
pub open spec fn patterns_of(v: Seq<Pattern>) -> Seq<TPattern>
    decreases v,
{
    Seq::new(v.len(), |i: int| if 0 <= i < v.len() { v[i].model() } else { arbitrary() })
}

pub broadcast proof fn lemma_patterns(v: Seq<Pattern>)
    ensures
        #[trigger] patterns_of(v) == model::views(v),
{
    reveal(Pattern::model);
    assert(patterns_of(v) =~= model::views(v));
}

/// An independent copy of `v`.
pub fn dup_patterns(v: &Vec<Pattern>) -> (r: Vec<Pattern>)
    ensures
        patterns_of(r@) == patterns_of(v@),
    decreases v,
{
    broadcast use group_model;

    let mut out: Vec<Pattern> = Vec::new();
    let mut i: usize = 0;
    while i < v.len()
        invariant
            i <= v.len(),
            out.len() == i,
            forall|j: int| 0 <= j < i ==> #[trigger] out[j]@ == v[j]@,
        decreases v.len() - i,
    {
        out.push(v[i].dup());
        i += 1;
    }
    assert(patterns_of(out@) =~= patterns_of(v@));
    out
}

/// Whether `a` and `b` hold the same values in the same order.
pub fn same_patterns(a: &Vec<Pattern>, b: &Vec<Pattern>) -> (r: bool)
    ensures
        r == (patterns_of(a@) == patterns_of(b@)),
    decreases a,
{
    broadcast use group_model;

    if a.len() != b.len() {
        assert(patterns_of(a@).len() != patterns_of(b@).len());
        return false;
    }
    let mut i: usize = 0;
    while i < a.len()
        invariant
            i <= a.len(),
            a.len() == b.len(),
            forall|j: int| 0 <= j < i ==> #[trigger] a[j]@ == b[j]@,
        decreases a.len() - i,
    {
        if !a[i].same(&b[i]) {
            broadcast use group_model;

            assert(patterns_of(a@)[i as int] == a[i as int]@);
            assert(patterns_of(b@)[i as int] == b[i as int]@);
            return false;
        }
        i += 1;
    }
    assert(patterns_of(a@) =~= patterns_of(b@));
    true
}

/// Facts about the models of vectors.
pub broadcast group group_model {
    model::group_views,
    lemma_types,
    lemma_fields,
    lemma_variants,
    lemma_params,
    lemma_stmts,
    lemma_exprs,
    lemma_arms,
    lemma_patterns,
}

impl View for Type {
    type V = TType;

    open spec fn view(&self) -> TType {
        self.model()
    }
}

impl Clone for Type {
    fn clone(&self) -> (r: Type)
        ensures
            r@ == self@,
    {
        self.dup()
    }
}

impl Type {
    /// The value as a mathematical object.
    #[verifier::opaque]
    pub open spec fn model(&self) -> TType
        decreases self,
    {
        match self {
            Type::Bool => TType::Bool,
            Type::Unit => TType::Unit,
            Type::Int(i) => TType::Int(*i),
            Type::Bit(n) => TType::Bit(*n),
            Type::Array(t, n) => TType::Array(Box::new(t.model()), *n),
            Type::Struct(n) => TType::Struct(n@),
            Type::Enum(n) => TType::Enum(n@),
            Type::Tuple(ts) => TType::Tuple(types_of(ts@)),
        }
    }

    /// An independent copy.
    pub fn dup(&self) -> (r: Type)
        ensures
            r@ == self@,
        decreases self,
    {
        broadcast use group_model;

        reveal(Type::model);

        match self {
            Type::Bool => Type::Bool,
            Type::Unit => Type::Unit,
            Type::Int(i) => Type::Int(*i),
            Type::Bit(n) => Type::Bit(*n),
            Type::Array(t, n) => Type::Array(Box::new(t.dup()), *n),
            Type::Struct(n) => Type::Struct(n.clone()),
            Type::Enum(n) => Type::Enum(n.clone()),
            Type::Tuple(ts) => Type::Tuple(dup_types(ts)),
        }
    }

    /// Whether both are the same value.
    pub fn same(&self, other: &Type) -> (r: bool)
        ensures
            r == (self@ == other@),
        decreases self,
    {
        broadcast use group_model;

        reveal(Type::model);

        match (self, other) {
            (Type::Bool, Type::Bool) => true,
            (Type::Unit, Type::Unit) => true,
            (Type::Int(i), Type::Int(i2)) => *i == *i2,
            (Type::Bit(n), Type::Bit(n2)) => *n == *n2,
            (Type::Array(t, n), Type::Array(t2, n2)) => t.same(t2) && *n == *n2,
            (Type::Struct(n), Type::Struct(n2)) => str_eq(n.as_str(), n2.as_str()),
            (Type::Enum(n), Type::Enum(n2)) => str_eq(n.as_str(), n2.as_str()),
            (Type::Tuple(ts), Type::Tuple(ts2)) => same_types(ts, ts2),
            _ => false,
        }
    }
}

impl View for Field {
    type V = TField;

    open spec fn view(&self) -> TField {
        self.model()
    }
}

impl Clone for Field {
    fn clone(&self) -> (r: Field)
        ensures
            r@ == self@,
    {
        self.dup()
    }
}

impl Field {
    /// The value as a mathematical object.
    pub open spec fn model(&self) -> TField
        decreases self,
    {
        TField {
            name: self.name@,
            ty: self.ty.model(),
        }
    }

    /// An independent copy.
    pub fn dup(&self) -> (r: Field)
        ensures
            r@ == self@,
        decreases self,
    {
        broadcast use group_model;

        reveal(Type::model);

        Field {
            name: self.name.clone(),
            ty: self.ty.dup(),
        }
    }

    /// Whether both are the same value.
    pub fn same(&self, other: &Field) -> (r: bool)
        ensures
            r == (self@ == other@),
        decreases self,
    {
        broadcast use group_model;

        reveal(Type::model);

        str_eq(self.name.as_str(), other.name.as_str()) && self.ty.same(&other.ty)
    }
}

impl View for StructDef {
    type V = TStruct;

    open spec fn view(&self) -> TStruct {
        self.model()
    }
}

impl Clone for StructDef {
    fn clone(&self) -> (r: StructDef)
        ensures
            r@ == self@,
    {
        self.dup()
    }
}

impl StructDef {
    /// The value as a mathematical object.
    pub open spec fn model(&self) -> TStruct
        decreases self,
    {
        TStruct {
            name: self.name@,
            fields: fields_of(self.fields@),
        }
    }

    /// An independent copy.
    pub fn dup(&self) -> (r: StructDef)
        ensures
            r@ == self@,
        decreases self,
    {
        broadcast use group_model;


        StructDef {
            name: self.name.clone(),
            fields: dup_fields(&self.fields),
        }
    }

    /// Whether both are the same value.
    pub fn same(&self, other: &StructDef) -> (r: bool)
        ensures
            r == (self@ == other@),
        decreases self,
    {
        broadcast use group_model;


        str_eq(self.name.as_str(), other.name.as_str()) && same_fields(&self.fields, &other.fields)
    }
}

impl View for Variant {
    type V = TVariant;

    open spec fn view(&self) -> TVariant {
        self.model()
    }
}

impl Clone for Variant {
    fn clone(&self) -> (r: Variant)
        ensures
            r@ == self@,
    {
        self.dup()
    }
}

impl Variant {
    /// The value as a mathematical object.
    pub open spec fn model(&self) -> TVariant
        decreases self,
    {
        TVariant {
            name: self.name@,
            fields: types_of(self.fields@),
        }
    }

    /// An independent copy.
    pub fn dup(&self) -> (r: Variant)
        ensures
            r@ == self@,
        decreases self,
    {
        broadcast use group_model;


        Variant {
            name: self.name.clone(),
            fields: dup_types(&self.fields),
        }
    }

    /// Whether both are the same value.
    pub fn same(&self, other: &Variant) -> (r: bool)
        ensures
            r == (self@ == other@),
        decreases self,
    {
        broadcast use group_model;


        str_eq(self.name.as_str(), other.name.as_str()) && same_types(&self.fields, &other.fields)
    }
}

impl View for EnumDef {
    type V = TEnum;

    open spec fn view(&self) -> TEnum {
        self.model()
    }
}

impl Clone for EnumDef {
    fn clone(&self) -> (r: EnumDef)
        ensures
            r@ == self@,
    {
        self.dup()
    }
}

impl EnumDef {
    /// The value as a mathematical object.
    pub open spec fn model(&self) -> TEnum
        decreases self,
    {
        TEnum {
            name: self.name@,
            variants: variants_of(self.variants@),
        }
    }

    /// An independent copy.
    pub fn dup(&self) -> (r: EnumDef)
        ensures
            r@ == self@,
        decreases self,
    {
        broadcast use group_model;


        EnumDef {
            name: self.name.clone(),
            variants: dup_variants(&self.variants),
        }
    }

    /// Whether both are the same value.
    pub fn same(&self, other: &EnumDef) -> (r: bool)
        ensures
            r == (self@ == other@),
        decreases self,
    {
        broadcast use group_model;


        str_eq(self.name.as_str(), other.name.as_str()) && same_variants(&self.variants, &other.variants)
    }
}

impl View for Param {
    type V = TParam;

    open spec fn view(&self) -> TParam {
        self.model()
    }
}

impl Clone for Param {
    fn clone(&self) -> (r: Param)
        ensures
            r@ == self@,
    {
        self.dup()
    }
}

impl Param {
    /// The value as a mathematical object.
    pub open spec fn model(&self) -> TParam
        decreases self,
    {
        TParam {
            name: self.name@,
            ty: self.ty.model(),
        }
    }

    /// An independent copy.
    pub fn dup(&self) -> (r: Param)
        ensures
            r@ == self@,
        decreases self,
    {
        broadcast use group_model;

        reveal(Type::model);

        Param {
            name: self.name.clone(),
            ty: self.ty.dup(),
        }
    }

    /// Whether both are the same value.
    pub fn same(&self, other: &Param) -> (r: bool)
        ensures
            r == (self@ == other@),
        decreases self,
    {
        broadcast use group_model;

        reveal(Type::model);

        str_eq(self.name.as_str(), other.name.as_str()) && self.ty.same(&other.ty)
    }
}

impl View for Signature {
    type V = TSig;

    open spec fn view(&self) -> TSig {
        self.model()
    }
}

impl Clone for Signature {
    fn clone(&self) -> (r: Signature)
        ensures
            r@ == self@,
    {
        self.dup()
    }
}

impl Signature {
    /// The value as a mathematical object.
    pub open spec fn model(&self) -> TSig
        decreases self,
    {
        TSig {
            params: types_of(self.params@),
            ret: self.ret.model(),
        }
    }

    /// An independent copy.
    pub fn dup(&self) -> (r: Signature)
        ensures
            r@ == self@,
        decreases self,
    {
        broadcast use group_model;

        reveal(Type::model);

        Signature {
            params: dup_types(&self.params),
            ret: self.ret.dup(),
        }
    }

    /// Whether both are the same value.
    pub fn same(&self, other: &Signature) -> (r: bool)
        ensures
            r == (self@ == other@),
        decreases self,
    {
        broadcast use group_model;

        reveal(Type::model);

        same_types(&self.params, &other.params) && self.ret.same(&other.ret)
    }
}

impl View for Block {
    type V = TBlock;

    open spec fn view(&self) -> TBlock {
        self.model()
    }
}

impl Clone for Block {
    fn clone(&self) -> (r: Block)
        ensures
            r@ == self@,
    {
        self.dup()
    }
}

impl Block {
    /// The value as a mathematical object.
    #[verifier::opaque]
    pub open spec fn model(&self) -> TBlock
        decreases self,
    {
        TBlock {
            stmts: stmts_of(self.stmts@),
            tail: match self.tail {
                Some(b) => Some(Box::new(b.model())),
                None => None,
            },
            ty: self.ty.model(),
        }
    }

    /// An independent copy.
    pub fn dup(&self) -> (r: Block)
        ensures
            r@ == self@,
        decreases self,
    {
        broadcast use group_model;

        reveal(Block::model);
        reveal(Expr::model);
        reveal(Type::model);

        Block {
            stmts: dup_stmts(&self.stmts),
            tail: match &self.tail {
                Some(b) => Some(Box::new(b.dup())),
                None => None,
            },
            ty: self.ty.dup(),
        }
    }

    /// Whether both are the same value.
    pub fn same(&self, other: &Block) -> (r: bool)
        ensures
            r == (self@ == other@),
        decreases self,
    {
        broadcast use group_model;

        reveal(Block::model);
        reveal(Expr::model);
        reveal(Type::model);

        same_stmts(&self.stmts, &other.stmts) && (match (&self.tail, &other.tail) {
                (Some(b), Some(c)) => b.same(c),
                (None, None) => true,
                _ => false,
            }) && self.ty.same(&other.ty)
    }
}

impl View for Stmt {
    type V = TStmt;

    open spec fn view(&self) -> TStmt {
        self.model()
    }
}

impl Clone for Stmt {
    fn clone(&self) -> (r: Stmt)
        ensures
            r@ == self@,
    {
        self.dup()
    }
}

impl Stmt {
    /// The value as a mathematical object.
    #[verifier::opaque]
    pub open spec fn model(&self) -> TStmt
        decreases self,
    {
        match self {
            Stmt::Let { name, mutable, ty, init } => TStmt::Let {
                name: name@,
                mutable: *mutable,
                ty: ty.model(),
                init: init.model(),
            },
            Stmt::Assign { place, value } => TStmt::Assign {
                place: place.model(),
                value: value.model(),
            },
            Stmt::While { cond, body } => TStmt::While {
                cond: cond.model(),
                body: body.model(),
            },
            Stmt::For { var, ty, lo, hi, body } => TStmt::For {
                var: var@,
                ty: ty.model(),
                lo: lo.model(),
                hi: hi.model(),
                body: body.model(),
            },
            Stmt::Return { value } => TStmt::Return {
                value: match value {
                    Some(b) => Some(b.model()),
                    None => None,
                },
            },
            Stmt::Expr(e) => TStmt::Expr(e.model()),
        }
    }

    /// An independent copy.
    pub fn dup(&self) -> (r: Stmt)
        ensures
            r@ == self@,
        decreases self,
    {
        broadcast use group_model;

        reveal(Stmt::model);
        reveal(Type::model);
        reveal(Expr::model);
        reveal(Place::model);
        reveal(Block::model);

        match self {
            Stmt::Let { name, mutable, ty, init } => Stmt::Let {
                name: name.clone(),
                mutable: *mutable,
                ty: ty.dup(),
                init: init.dup(),
            },
            Stmt::Assign { place, value } => Stmt::Assign {
                place: place.dup(),
                value: value.dup(),
            },
            Stmt::While { cond, body } => Stmt::While {
                cond: cond.dup(),
                body: body.dup(),
            },
            Stmt::For { var, ty, lo, hi, body } => Stmt::For {
                var: var.clone(),
                ty: ty.dup(),
                lo: lo.dup(),
                hi: hi.dup(),
                body: body.dup(),
            },
            Stmt::Return { value } => Stmt::Return {
                value: match value {
                    Some(b) => Some(b.dup()),
                    None => None,
                },
            },
            Stmt::Expr(e) => Stmt::Expr(e.dup()),
        }
    }

    /// Whether both are the same value.
    pub fn same(&self, other: &Stmt) -> (r: bool)
        ensures
            r == (self@ == other@),
        decreases self,
    {
        broadcast use group_model;

        reveal(Stmt::model);
        reveal(Type::model);
        reveal(Expr::model);
        reveal(Place::model);
        reveal(Block::model);

        match (self, other) {
            (Stmt::Let { name, mutable, ty, init }, Stmt::Let { name: name2, mutable: mutable2, ty: ty2, init: init2 }) => str_eq(name.as_str(), name2.as_str()) && *mutable == *mutable2 && ty.same(ty2) && init.same(init2),
            (Stmt::Assign { place, value }, Stmt::Assign { place: place2, value: value2 }) => place.same(place2) && value.same(value2),
            (Stmt::While { cond, body }, Stmt::While { cond: cond2, body: body2 }) => cond.same(cond2) && body.same(body2),
            (Stmt::For { var, ty, lo, hi, body }, Stmt::For { var: var2, ty: ty2, lo: lo2, hi: hi2, body: body2 }) => str_eq(var.as_str(), var2.as_str()) && ty.same(ty2) && lo.same(lo2) && hi.same(hi2) && body.same(body2),
            (Stmt::Return { value }, Stmt::Return { value: value2 }) => (match (value, value2) {
                    (Some(b), Some(c)) => b.same(c),
                    (None, None) => true,
                    _ => false,
                }),
            (Stmt::Expr(e), Stmt::Expr(e2)) => e.same(e2),
            _ => false,
        }
    }
}

impl View for Place {
    type V = TPlace;

    open spec fn view(&self) -> TPlace {
        self.model()
    }
}

impl Clone for Place {
    fn clone(&self) -> (r: Place)
        ensures
            r@ == self@,
    {
        self.dup()
    }
}

impl Place {
    /// The value as a mathematical object.
    #[verifier::opaque]
    pub open spec fn model(&self) -> TPlace
        decreases self,
    {
        match self {
            Place::Local { name, ty } => TPlace::Local {
                name: name@,
                ty: ty.model(),
            },
            Place::Field { base, index, ty } => TPlace::Field {
                base: Box::new(base.model()),
                index: *index,
                ty: ty.model(),
            },
            Place::Index { base, index, ty } => TPlace::Index {
                base: Box::new(base.model()),
                index: Box::new(index.model()),
                ty: ty.model(),
            },
            Place::TupleField { base, index, ty } => TPlace::TupleField {
                base: Box::new(base.model()),
                index: *index,
                ty: ty.model(),
            },
        }
    }

    /// An independent copy.
    pub fn dup(&self) -> (r: Place)
        ensures
            r@ == self@,
        decreases self,
    {
        broadcast use group_model;

        reveal(Place::model);
        reveal(Type::model);
        reveal(Expr::model);

        match self {
            Place::Local { name, ty } => Place::Local {
                name: name.clone(),
                ty: ty.dup(),
            },
            Place::Field { base, index, ty } => Place::Field {
                base: Box::new(base.dup()),
                index: *index,
                ty: ty.dup(),
            },
            Place::Index { base, index, ty } => Place::Index {
                base: Box::new(base.dup()),
                index: Box::new(index.dup()),
                ty: ty.dup(),
            },
            Place::TupleField { base, index, ty } => Place::TupleField {
                base: Box::new(base.dup()),
                index: *index,
                ty: ty.dup(),
            },
        }
    }

    /// Whether both are the same value.
    pub fn same(&self, other: &Place) -> (r: bool)
        ensures
            r == (self@ == other@),
        decreases self,
    {
        broadcast use group_model;

        reveal(Place::model);
        reveal(Type::model);
        reveal(Expr::model);

        match (self, other) {
            (Place::Local { name, ty }, Place::Local { name: name2, ty: ty2 }) => str_eq(name.as_str(), name2.as_str()) && ty.same(ty2),
            (Place::Field { base, index, ty }, Place::Field { base: base2, index: index2, ty: ty2 }) => base.same(base2) && *index == *index2 && ty.same(ty2),
            (Place::Index { base, index, ty }, Place::Index { base: base2, index: index2, ty: ty2 }) => base.same(base2) && index.same(index2) && ty.same(ty2),
            (Place::TupleField { base, index, ty }, Place::TupleField { base: base2, index: index2, ty: ty2 }) => base.same(base2) && *index == *index2 && ty.same(ty2),
            _ => false,
        }
    }
}

impl View for Expr {
    type V = TExpr;

    open spec fn view(&self) -> TExpr {
        self.model()
    }
}

impl Clone for Expr {
    fn clone(&self) -> (r: Expr)
        ensures
            r@ == self@,
    {
        self.dup()
    }
}

impl Expr {
    /// The value as a mathematical object.
    #[verifier::opaque]
    pub open spec fn model(&self) -> TExpr
        decreases self,
    {
        TExpr {
            kind: self.kind.model(),
            ty: self.ty.model(),
        }
    }

    /// An independent copy.
    pub fn dup(&self) -> (r: Expr)
        ensures
            r@ == self@,
        decreases self,
    {
        broadcast use group_model;

        reveal(Expr::model);
        reveal(ExprKind::model);
        reveal(Type::model);

        Expr {
            kind: self.kind.dup(),
            ty: self.ty.dup(),
        }
    }

    /// Whether both are the same value.
    pub fn same(&self, other: &Expr) -> (r: bool)
        ensures
            r == (self@ == other@),
        decreases self,
    {
        broadcast use group_model;

        reveal(Expr::model);
        reveal(ExprKind::model);
        reveal(Type::model);

        self.kind.same(&other.kind) && self.ty.same(&other.ty)
    }
}

impl View for ExprKind {
    type V = TKind;

    open spec fn view(&self) -> TKind {
        self.model()
    }
}

impl Clone for ExprKind {
    fn clone(&self) -> (r: ExprKind)
        ensures
            r@ == self@,
    {
        self.dup()
    }
}

impl ExprKind {
    /// The value as a mathematical object.
    #[verifier::opaque]
    pub open spec fn model(&self) -> TKind
        decreases self,
    {
        match self {
            ExprKind::Int(v) => TKind::Int(*v),
            ExprKind::Bool(b) => TKind::Bool(*b),
            ExprKind::Unit => TKind::Unit,
            ExprKind::Local(n) => TKind::Local(n@),
            ExprKind::ConstRef(n) => TKind::ConstRef(n@),
            ExprKind::Unary { op, expr } => TKind::Unary {
                op: *op,
                expr: Box::new(expr.model()),
            },
            ExprKind::Binary { op, lhs, rhs } => TKind::Binary {
                op: *op,
                lhs: Box::new(lhs.model()),
                rhs: Box::new(rhs.model()),
            },
            ExprKind::Call { func, args } => TKind::Call {
                func: func@,
                args: exprs_of(args@),
            },
            ExprKind::Print { arg } => TKind::Print {
                arg: Box::new(arg.model()),
            },
            ExprKind::MakeStruct { name, fields } => TKind::MakeStruct {
                name: name@,
                fields: exprs_of(fields@),
            },
            ExprKind::MakeEnum { name, tag, args } => TKind::MakeEnum {
                name: name@,
                tag: *tag,
                args: exprs_of(args@),
            },
            ExprKind::MakeTuple(es) => TKind::MakeTuple(exprs_of(es@)),
            ExprKind::Field { base, index } => TKind::Field {
                base: Box::new(base.model()),
                index: *index,
            },
            ExprKind::TupleField { base, index } => TKind::TupleField {
                base: Box::new(base.model()),
                index: *index,
            },
            ExprKind::Index { base, index } => TKind::Index {
                base: Box::new(base.model()),
                index: Box::new(index.model()),
            },
            ExprKind::Array(es) => TKind::Array(exprs_of(es@)),
            ExprKind::If { cond, then_branch, else_branch } => TKind::If {
                cond: Box::new(cond.model()),
                then_branch: then_branch.model(),
                else_branch: else_branch.model(),
            },
            ExprKind::Match { scrutinee, arms } => TKind::Match {
                scrutinee: Box::new(scrutinee.model()),
                arms: arms_of(arms@),
            },
            ExprKind::Block(b) => TKind::Block(b.model()),
        }
    }

    /// An independent copy.
    pub fn dup(&self) -> (r: ExprKind)
        ensures
            r@ == self@,
        decreases self,
    {
        broadcast use group_model;

        reveal(ExprKind::model);
        reveal(Expr::model);
        reveal(Block::model);

        match self {
            ExprKind::Int(v) => ExprKind::Int(*v),
            ExprKind::Bool(b) => ExprKind::Bool(*b),
            ExprKind::Unit => ExprKind::Unit,
            ExprKind::Local(n) => ExprKind::Local(n.clone()),
            ExprKind::ConstRef(n) => ExprKind::ConstRef(n.clone()),
            ExprKind::Unary { op, expr } => ExprKind::Unary {
                op: *op,
                expr: Box::new(expr.dup()),
            },
            ExprKind::Binary { op, lhs, rhs } => ExprKind::Binary {
                op: *op,
                lhs: Box::new(lhs.dup()),
                rhs: Box::new(rhs.dup()),
            },
            ExprKind::Call { func, args } => ExprKind::Call {
                func: func.clone(),
                args: dup_exprs(args),
            },
            ExprKind::Print { arg } => ExprKind::Print {
                arg: Box::new(arg.dup()),
            },
            ExprKind::MakeStruct { name, fields } => ExprKind::MakeStruct {
                name: name.clone(),
                fields: dup_exprs(fields),
            },
            ExprKind::MakeEnum { name, tag, args } => ExprKind::MakeEnum {
                name: name.clone(),
                tag: *tag,
                args: dup_exprs(args),
            },
            ExprKind::MakeTuple(es) => ExprKind::MakeTuple(dup_exprs(es)),
            ExprKind::Field { base, index } => ExprKind::Field {
                base: Box::new(base.dup()),
                index: *index,
            },
            ExprKind::TupleField { base, index } => ExprKind::TupleField {
                base: Box::new(base.dup()),
                index: *index,
            },
            ExprKind::Index { base, index } => ExprKind::Index {
                base: Box::new(base.dup()),
                index: Box::new(index.dup()),
            },
            ExprKind::Array(es) => ExprKind::Array(dup_exprs(es)),
            ExprKind::If { cond, then_branch, else_branch } => ExprKind::If {
                cond: Box::new(cond.dup()),
                then_branch: then_branch.dup(),
                else_branch: else_branch.dup(),
            },
            ExprKind::Match { scrutinee, arms } => ExprKind::Match {
                scrutinee: Box::new(scrutinee.dup()),
                arms: dup_arms(arms),
            },
            ExprKind::Block(b) => ExprKind::Block(b.dup()),
        }
    }

    /// Whether both are the same value.
    pub fn same(&self, other: &ExprKind) -> (r: bool)
        ensures
            r == (self@ == other@),
        decreases self,
    {
        broadcast use group_model;

        reveal(ExprKind::model);
        reveal(Expr::model);
        reveal(Block::model);

        match (self, other) {
            (ExprKind::Int(v), ExprKind::Int(v2)) => *v == *v2,
            (ExprKind::Bool(b), ExprKind::Bool(b2)) => *b == *b2,
            (ExprKind::Unit, ExprKind::Unit) => true,
            (ExprKind::Local(n), ExprKind::Local(n2)) => str_eq(n.as_str(), n2.as_str()),
            (ExprKind::ConstRef(n), ExprKind::ConstRef(n2)) => str_eq(n.as_str(), n2.as_str()),
            (ExprKind::Unary { op, expr }, ExprKind::Unary { op: op2, expr: expr2 }) => *op == *op2 && expr.same(expr2),
            (ExprKind::Binary { op, lhs, rhs }, ExprKind::Binary { op: op2, lhs: lhs2, rhs: rhs2 }) => *op == *op2 && lhs.same(lhs2) && rhs.same(rhs2),
            (ExprKind::Call { func, args }, ExprKind::Call { func: func2, args: args2 }) => str_eq(func.as_str(), func2.as_str()) && same_exprs(args, args2),
            (ExprKind::Print { arg }, ExprKind::Print { arg: arg2 }) => arg.same(arg2),
            (ExprKind::MakeStruct { name, fields }, ExprKind::MakeStruct { name: name2, fields: fields2 }) => str_eq(name.as_str(), name2.as_str()) && same_exprs(fields, fields2),
            (ExprKind::MakeEnum { name, tag, args }, ExprKind::MakeEnum { name: name2, tag: tag2, args: args2 }) => str_eq(name.as_str(), name2.as_str()) && *tag == *tag2 && same_exprs(args, args2),
            (ExprKind::MakeTuple(es), ExprKind::MakeTuple(es2)) => same_exprs(es, es2),
            (ExprKind::Field { base, index }, ExprKind::Field { base: base2, index: index2 }) => base.same(base2) && *index == *index2,
            (ExprKind::TupleField { base, index }, ExprKind::TupleField { base: base2, index: index2 }) => base.same(base2) && *index == *index2,
            (ExprKind::Index { base, index }, ExprKind::Index { base: base2, index: index2 }) => base.same(base2) && index.same(index2),
            (ExprKind::Array(es), ExprKind::Array(es2)) => same_exprs(es, es2),
            (ExprKind::If { cond, then_branch, else_branch }, ExprKind::If { cond: cond2, then_branch: then_branch2, else_branch: else_branch2 }) => cond.same(cond2) && then_branch.same(then_branch2) && else_branch.same(else_branch2),
            (ExprKind::Match { scrutinee, arms }, ExprKind::Match { scrutinee: scrutinee2, arms: arms2 }) => scrutinee.same(scrutinee2) && same_arms(arms, arms2),
            (ExprKind::Block(b), ExprKind::Block(b2)) => b.same(b2),
            _ => false,
        }
    }
}

impl View for Arm {
    type V = TArm;

    open spec fn view(&self) -> TArm {
        self.model()
    }
}

impl Clone for Arm {
    fn clone(&self) -> (r: Arm)
        ensures
            r@ == self@,
    {
        self.dup()
    }
}

impl Arm {
    /// The value as a mathematical object.
    #[verifier::opaque]
    pub open spec fn model(&self) -> TArm
        decreases self,
    {
        TArm {
            pattern: self.pattern.model(),
            guard: match self.guard {
                Some(b) => Some(b.model()),
                None => None,
            },
            body: self.body.model(),
        }
    }

    /// An independent copy.
    pub fn dup(&self) -> (r: Arm)
        ensures
            r@ == self@,
        decreases self,
    {
        broadcast use group_model;

        reveal(Arm::model);
        reveal(Pattern::model);
        reveal(Expr::model);

        Arm {
            pattern: self.pattern.dup(),
            guard: match &self.guard {
                Some(b) => Some(b.dup()),
                None => None,
            },
            body: self.body.dup(),
        }
    }

    /// Whether both are the same value.
    pub fn same(&self, other: &Arm) -> (r: bool)
        ensures
            r == (self@ == other@),
        decreases self,
    {
        broadcast use group_model;

        reveal(Arm::model);
        reveal(Pattern::model);
        reveal(Expr::model);

        self.pattern.same(&other.pattern) && (match (&self.guard, &other.guard) {
                (Some(b), Some(c)) => b.same(c),
                (None, None) => true,
                _ => false,
            }) && self.body.same(&other.body)
    }
}

impl View for Pattern {
    type V = TPattern;

    open spec fn view(&self) -> TPattern {
        self.model()
    }
}

impl Clone for Pattern {
    fn clone(&self) -> (r: Pattern)
        ensures
            r@ == self@,
    {
        self.dup()
    }
}

impl Pattern {
    /// The value as a mathematical object.
    #[verifier::opaque]
    pub open spec fn model(&self) -> TPattern
        decreases self,
    {
        match self {
            Pattern::Wildcard => TPattern::Wildcard,
            Pattern::Binding { name, ty } => TPattern::Binding {
                name: name@,
                ty: ty.model(),
            },
            Pattern::Int(v) => TPattern::Int(*v),
            Pattern::Bool(b) => TPattern::Bool(*b),
            Pattern::Range { lo, hi, inclusive } => TPattern::Range {
                lo: *lo,
                hi: *hi,
                inclusive: *inclusive,
            },
            Pattern::Variant { enum_name, tag, subpatterns } => TPattern::Variant {
                enum_name: enum_name@,
                tag: *tag,
                subpatterns: patterns_of(subpatterns@),
            },
            Pattern::Tuple(ps) => TPattern::Tuple(patterns_of(ps@)),
            Pattern::Or(ps) => TPattern::Or(patterns_of(ps@)),
        }
    }

    /// An independent copy.
    pub fn dup(&self) -> (r: Pattern)
        ensures
            r@ == self@,
        decreases self,
    {
        broadcast use group_model;

        reveal(Pattern::model);
        reveal(Type::model);

        match self {
            Pattern::Wildcard => Pattern::Wildcard,
            Pattern::Binding { name, ty } => Pattern::Binding {
                name: name.clone(),
                ty: ty.dup(),
            },
            Pattern::Int(v) => Pattern::Int(*v),
            Pattern::Bool(b) => Pattern::Bool(*b),
            Pattern::Range { lo, hi, inclusive } => Pattern::Range {
                lo: *lo,
                hi: *hi,
                inclusive: *inclusive,
            },
            Pattern::Variant { enum_name, tag, subpatterns } => Pattern::Variant {
                enum_name: enum_name.clone(),
                tag: *tag,
                subpatterns: dup_patterns(subpatterns),
            },
            Pattern::Tuple(ps) => Pattern::Tuple(dup_patterns(ps)),
            Pattern::Or(ps) => Pattern::Or(dup_patterns(ps)),
        }
    }

    /// Whether both are the same value.
    pub fn same(&self, other: &Pattern) -> (r: bool)
        ensures
            r == (self@ == other@),
        decreases self,
    {
        broadcast use group_model;

        reveal(Pattern::model);
        reveal(Type::model);

        match (self, other) {
            (Pattern::Wildcard, Pattern::Wildcard) => true,
            (Pattern::Binding { name, ty }, Pattern::Binding { name: name2, ty: ty2 }) => str_eq(name.as_str(), name2.as_str()) && ty.same(ty2),
            (Pattern::Int(v), Pattern::Int(v2)) => *v == *v2,
            (Pattern::Bool(b), Pattern::Bool(b2)) => *b == *b2,
            (Pattern::Range { lo, hi, inclusive }, Pattern::Range { lo: lo2, hi: hi2, inclusive: inclusive2 }) => *lo == *lo2 && *hi == *hi2 && *inclusive == *inclusive2,
            (Pattern::Variant { enum_name, tag, subpatterns }, Pattern::Variant { enum_name: enum_name2, tag: tag2, subpatterns: subpatterns2 }) => str_eq(enum_name.as_str(), enum_name2.as_str()) && *tag == *tag2 && same_patterns(subpatterns, subpatterns2),
            (Pattern::Tuple(ps), Pattern::Tuple(ps2)) => same_patterns(ps, ps2),
            (Pattern::Or(ps), Pattern::Or(ps2)) => same_patterns(ps, ps2),
            _ => false,
        }
    }
}

impl View for ConstDef {
    type V = TConst;

    open spec fn view(&self) -> TConst {
        self.model()
    }
}

impl Clone for ConstDef {
    fn clone(&self) -> (r: ConstDef)
        ensures
            r@ == self@,
    {
        self.dup()
    }
}

impl ConstDef {
    /// The value as a mathematical object.
    pub open spec fn model(&self) -> TConst
        decreases self,
    {
        TConst {
            name: self.name@,
            ty: self.ty.model(),
            init: self.init.model(),
        }
    }

    /// An independent copy.
    pub fn dup(&self) -> (r: ConstDef)
        ensures
            r@ == self@,
        decreases self,
    {
        broadcast use group_model;

        reveal(Type::model);
        reveal(Expr::model);

        ConstDef {
            name: self.name.clone(),
            ty: self.ty.dup(),
            init: self.init.dup(),
        }
    }

    /// Whether both are the same value.
    pub fn same(&self, other: &ConstDef) -> (r: bool)
        ensures
            r == (self@ == other@),
        decreases self,
    {
        broadcast use group_model;

        reveal(Type::model);
        reveal(Expr::model);

        str_eq(self.name.as_str(), other.name.as_str()) && self.ty.same(&other.ty) && self.init.same(&other.init)
    }
}

impl View for Func {
    type V = TFunc;

    open spec fn view(&self) -> TFunc {
        self.model()
    }
}

impl Clone for Func {
    fn clone(&self) -> (r: Func)
        ensures
            r@ == self@,
    {
        self.dup()
    }
}

impl Func {
    /// The value as a mathematical object.
    pub open spec fn model(&self) -> TFunc
        decreases self,
    {
        TFunc {
            name: self.name@,
            params: params_of(self.params@),
            ret: self.ret.model(),
            body: self.body.model(),
        }
    }

    /// An independent copy.
    pub fn dup(&self) -> (r: Func)
        ensures
            r@ == self@,
        decreases self,
    {
        broadcast use group_model;

        reveal(Type::model);
        reveal(Block::model);

        Func {
            name: self.name.clone(),
            params: dup_params(&self.params),
            ret: self.ret.dup(),
            body: self.body.dup(),
        }
    }

    /// Whether both are the same value.
    pub fn same(&self, other: &Func) -> (r: bool)
        ensures
            r == (self@ == other@),
        decreases self,
    {
        broadcast use group_model;

        reveal(Type::model);
        reveal(Block::model);

        str_eq(self.name.as_str(), other.name.as_str()) && same_params(&self.params, &other.params) && self.ret.same(&other.ret) && self.body.same(&other.body)
    }
}

// ---- models of built nodes ----------------------------------------------

pub broadcast proof fn lemma_built_type_int(i: IntTy)
    ensures
        #[trigger] Type::Int(i)@ == (TType::Int(i)),
{
    reveal(Type::model);
}

pub broadcast proof fn lemma_built_type_bit(n: u32)
    ensures
        #[trigger] Type::Bit(n)@ == (TType::Bit(n)),
{
    reveal(Type::model);
}

pub broadcast proof fn lemma_built_type_array(t: Box<Type>, n: u64)
    ensures
        #[trigger] Type::Array(t, n)@ == (TType::Array(Box::new(t@), n)),
{
    reveal(Type::model);
}

pub broadcast proof fn lemma_built_type_struct(n: String)
    ensures
        #[trigger] Type::Struct(n)@ == (TType::Struct(n@)),
{
    reveal(Type::model);
}

pub broadcast proof fn lemma_built_type_enum(n: String)
    ensures
        #[trigger] Type::Enum(n)@ == (TType::Enum(n@)),
{
    reveal(Type::model);
}

pub broadcast proof fn lemma_built_type_tuple(ts: Vec<Type>)
    ensures
        #[trigger] Type::Tuple(ts)@ == (TType::Tuple(types_of(ts@))),
{
    reveal(Type::model);
}

pub broadcast proof fn lemma_built_field(name: String, ty: Type)
    ensures
        #[trigger] (Field { name, ty })@ == (TField {
                name: name@,
                ty: ty@,
            }),
{
    reveal(Field::model);
    reveal(Type::model);
}

pub broadcast proof fn lemma_built_struct_def(name: String, fields: Vec<Field>)
    ensures
        #[trigger] (StructDef { name, fields })@ == (TStruct {
                name: name@,
                fields: fields_of(fields@),
            }),
{
    reveal(StructDef::model);
}

pub broadcast proof fn lemma_built_variant(name: String, fields: Vec<Type>)
    ensures
        #[trigger] (Variant { name, fields })@ == (TVariant {
                name: name@,
                fields: types_of(fields@),
            }),
{
    reveal(Variant::model);
}

pub broadcast proof fn lemma_built_enum_def(name: String, variants: Vec<Variant>)
    ensures
        #[trigger] (EnumDef { name, variants })@ == (TEnum {
                name: name@,
                variants: variants_of(variants@),
            }),
{
    reveal(EnumDef::model);
}

pub broadcast proof fn lemma_built_param(name: String, ty: Type)
    ensures
        #[trigger] (Param { name, ty })@ == (TParam {
                name: name@,
                ty: ty@,
            }),
{
    reveal(Param::model);
    reveal(Type::model);
}

pub broadcast proof fn lemma_built_signature(params: Vec<Type>, ret: Type)
    ensures
        #[trigger] (Signature { params, ret })@ == (TSig {
                params: types_of(params@),
                ret: ret@,
            }),
{
    reveal(Signature::model);
    reveal(Type::model);
}

pub broadcast proof fn lemma_built_block(stmts: Vec<Stmt>, tail: Option<Box<Expr>>, ty: Type)
    ensures
        #[trigger] (Block { stmts, tail, ty })@ == (TBlock {
                stmts: stmts_of(stmts@),
                tail: match tail {
                    Some(b) => Some(Box::new(b@)),
                    None => None,
                },
                ty: ty@,
            }),
{
    reveal(Block::model);
    reveal(Expr::model);
    reveal(Type::model);
}

pub broadcast proof fn lemma_built_stmt_let(name: String, mutable: bool, ty: Type, init: Expr)
    ensures
        #[trigger] (Stmt::Let { name, mutable, ty, init })@ == (TStmt::Let {
                name: name@,
                mutable: mutable,
                ty: ty@,
                init: init@,
            }),
{
    reveal(Stmt::model);
    reveal(Type::model);
    reveal(Expr::model);
    reveal(Place::model);
    reveal(Block::model);
}

pub broadcast proof fn lemma_built_stmt_assign(place: Place, value: Expr)
    ensures
        #[trigger] (Stmt::Assign { place, value })@ == (TStmt::Assign {
                place: place@,
                value: value@,
            }),
{
    reveal(Stmt::model);
    reveal(Type::model);
    reveal(Expr::model);
    reveal(Place::model);
    reveal(Block::model);
}

pub broadcast proof fn lemma_built_stmt_while(cond: Expr, body: Block)
    ensures
        #[trigger] (Stmt::While { cond, body })@ == (TStmt::While {
                cond: cond@,
                body: body@,
            }),
{
    reveal(Stmt::model);
    reveal(Type::model);
    reveal(Expr::model);
    reveal(Place::model);
    reveal(Block::model);
}

pub broadcast proof fn lemma_built_stmt_for(var: String, ty: Type, lo: Expr, hi: Expr, body: Block)
    ensures
        #[trigger] (Stmt::For { var, ty, lo, hi, body })@ == (TStmt::For {
                var: var@,
                ty: ty@,
                lo: lo@,
                hi: hi@,
                body: body@,
            }),
{
    reveal(Stmt::model);
    reveal(Type::model);
    reveal(Expr::model);
    reveal(Place::model);
    reveal(Block::model);
}

pub broadcast proof fn lemma_built_stmt_return(value: Option<Expr>)
    ensures
        #[trigger] (Stmt::Return { value })@ == (TStmt::Return {
                value: match value {
                    Some(b) => Some(b@),
                    None => None,
                },
            }),
{
    reveal(Stmt::model);
    reveal(Type::model);
    reveal(Expr::model);
    reveal(Place::model);
    reveal(Block::model);
}

pub broadcast proof fn lemma_built_stmt_expr(e: Expr)
    ensures
        #[trigger] Stmt::Expr(e)@ == (TStmt::Expr(e@)),
{
    reveal(Stmt::model);
    reveal(Type::model);
    reveal(Expr::model);
    reveal(Place::model);
    reveal(Block::model);
}

pub broadcast proof fn lemma_built_place_local(name: String, ty: Type)
    ensures
        #[trigger] (Place::Local { name, ty })@ == (TPlace::Local {
                name: name@,
                ty: ty@,
            }),
{
    reveal(Place::model);
    reveal(Type::model);
    reveal(Expr::model);
}

pub broadcast proof fn lemma_built_place_field(base: Box<Place>, index: usize, ty: Type)
    ensures
        #[trigger] (Place::Field { base, index, ty })@ == (TPlace::Field {
                base: Box::new(base@),
                index: index,
                ty: ty@,
            }),
{
    reveal(Place::model);
    reveal(Type::model);
    reveal(Expr::model);
}

pub broadcast proof fn lemma_built_place_index(base: Box<Place>, index: Box<Expr>, ty: Type)
    ensures
        #[trigger] (Place::Index { base, index, ty })@ == (TPlace::Index {
                base: Box::new(base@),
                index: Box::new(index@),
                ty: ty@,
            }),
{
    reveal(Place::model);
    reveal(Type::model);
    reveal(Expr::model);
}

pub broadcast proof fn lemma_built_place_tuple_field(base: Box<Place>, index: usize, ty: Type)
    ensures
        #[trigger] (Place::TupleField { base, index, ty })@ == (TPlace::TupleField {
                base: Box::new(base@),
                index: index,
                ty: ty@,
            }),
{
    reveal(Place::model);
    reveal(Type::model);
    reveal(Expr::model);
}

pub broadcast proof fn lemma_built_expr(kind: ExprKind, ty: Type)
    ensures
        #[trigger] (Expr { kind, ty })@ == (TExpr {
                kind: kind@,
                ty: ty@,
            }),
{
    reveal(Expr::model);
    reveal(ExprKind::model);
    reveal(Type::model);
}

pub broadcast proof fn lemma_built_expr_kind_int(v: i128)
    ensures
        #[trigger] ExprKind::Int(v)@ == (TKind::Int(v)),
{
    reveal(ExprKind::model);
    reveal(Expr::model);
    reveal(Block::model);
}

pub broadcast proof fn lemma_built_expr_kind_bool(b: bool)
    ensures
        #[trigger] ExprKind::Bool(b)@ == (TKind::Bool(b)),
{
    reveal(ExprKind::model);
    reveal(Expr::model);
    reveal(Block::model);
}

pub broadcast proof fn lemma_built_expr_kind_local(n: String)
    ensures
        #[trigger] ExprKind::Local(n)@ == (TKind::Local(n@)),
{
    reveal(ExprKind::model);
    reveal(Expr::model);
    reveal(Block::model);
}

pub broadcast proof fn lemma_built_expr_kind_const_ref(n: String)
    ensures
        #[trigger] ExprKind::ConstRef(n)@ == (TKind::ConstRef(n@)),
{
    reveal(ExprKind::model);
    reveal(Expr::model);
    reveal(Block::model);
}

pub broadcast proof fn lemma_built_expr_kind_unary(op: UnOp, expr: Box<Expr>)
    ensures
        #[trigger] (ExprKind::Unary { op, expr })@ == (TKind::Unary {
                op: op,
                expr: Box::new(expr@),
            }),
{
    reveal(ExprKind::model);
    reveal(Expr::model);
    reveal(Block::model);
}

pub broadcast proof fn lemma_built_expr_kind_binary(op: BinOp, lhs: Box<Expr>, rhs: Box<Expr>)
    ensures
        #[trigger] (ExprKind::Binary { op, lhs, rhs })@ == (TKind::Binary {
                op: op,
                lhs: Box::new(lhs@),
                rhs: Box::new(rhs@),
            }),
{
    reveal(ExprKind::model);
    reveal(Expr::model);
    reveal(Block::model);
}

pub broadcast proof fn lemma_built_expr_kind_call(func: String, args: Vec<Expr>)
    ensures
        #[trigger] (ExprKind::Call { func, args })@ == (TKind::Call {
                func: func@,
                args: exprs_of(args@),
            }),
{
    reveal(ExprKind::model);
    reveal(Expr::model);
    reveal(Block::model);
}

pub broadcast proof fn lemma_built_expr_kind_print(arg: Box<Expr>)
    ensures
        #[trigger] (ExprKind::Print { arg })@ == (TKind::Print {
                arg: Box::new(arg@),
            }),
{
    reveal(ExprKind::model);
    reveal(Expr::model);
    reveal(Block::model);
}

pub broadcast proof fn lemma_built_expr_kind_make_struct(name: String, fields: Vec<Expr>)
    ensures
        #[trigger] (ExprKind::MakeStruct { name, fields })@ == (TKind::MakeStruct {
                name: name@,
                fields: exprs_of(fields@),
            }),
{
    reveal(ExprKind::model);
    reveal(Expr::model);
    reveal(Block::model);
}

pub broadcast proof fn lemma_built_expr_kind_make_enum(name: String, tag: usize, args: Vec<Expr>)
    ensures
        #[trigger] (ExprKind::MakeEnum { name, tag, args })@ == (TKind::MakeEnum {
                name: name@,
                tag: tag,
                args: exprs_of(args@),
            }),
{
    reveal(ExprKind::model);
    reveal(Expr::model);
    reveal(Block::model);
}

pub broadcast proof fn lemma_built_expr_kind_make_tuple(es: Vec<Expr>)
    ensures
        #[trigger] ExprKind::MakeTuple(es)@ == (TKind::MakeTuple(exprs_of(es@))),
{
    reveal(ExprKind::model);
    reveal(Expr::model);
    reveal(Block::model);
}

pub broadcast proof fn lemma_built_expr_kind_field(base: Box<Expr>, index: usize)
    ensures
        #[trigger] (ExprKind::Field { base, index })@ == (TKind::Field {
                base: Box::new(base@),
                index: index,
            }),
{
    reveal(ExprKind::model);
    reveal(Expr::model);
    reveal(Block::model);
}

pub broadcast proof fn lemma_built_expr_kind_tuple_field(base: Box<Expr>, index: usize)
    ensures
        #[trigger] (ExprKind::TupleField { base, index })@ == (TKind::TupleField {
                base: Box::new(base@),
                index: index,
            }),
{
    reveal(ExprKind::model);
    reveal(Expr::model);
    reveal(Block::model);
}

pub broadcast proof fn lemma_built_expr_kind_index(base: Box<Expr>, index: Box<Expr>)
    ensures
        #[trigger] (ExprKind::Index { base, index })@ == (TKind::Index {
                base: Box::new(base@),
                index: Box::new(index@),
            }),
{
    reveal(ExprKind::model);
    reveal(Expr::model);
    reveal(Block::model);
}

pub broadcast proof fn lemma_built_expr_kind_array(es: Vec<Expr>)
    ensures
        #[trigger] ExprKind::Array(es)@ == (TKind::Array(exprs_of(es@))),
{
    reveal(ExprKind::model);
    reveal(Expr::model);
    reveal(Block::model);
}

pub broadcast proof fn lemma_built_expr_kind_if(cond: Box<Expr>, then_branch: Block, else_branch: Block)
    ensures
        #[trigger] (ExprKind::If { cond, then_branch, else_branch })@ == (TKind::If {
                cond: Box::new(cond@),
                then_branch: then_branch@,
                else_branch: else_branch@,
            }),
{
    reveal(ExprKind::model);
    reveal(Expr::model);
    reveal(Block::model);
}

pub broadcast proof fn lemma_built_expr_kind_match(scrutinee: Box<Expr>, arms: Vec<Arm>)
    ensures
        #[trigger] (ExprKind::Match { scrutinee, arms })@ == (TKind::Match {
                scrutinee: Box::new(scrutinee@),
                arms: arms_of(arms@),
            }),
{
    reveal(ExprKind::model);
    reveal(Expr::model);
    reveal(Block::model);
}

pub broadcast proof fn lemma_built_expr_kind_block(b: Block)
    ensures
        #[trigger] ExprKind::Block(b)@ == (TKind::Block(b@)),
{
    reveal(ExprKind::model);
    reveal(Expr::model);
    reveal(Block::model);
}

pub broadcast proof fn lemma_built_arm(pattern: Pattern, guard: Option<Expr>, body: Expr)
    ensures
        #[trigger] (Arm { pattern, guard, body })@ == (TArm {
                pattern: pattern@,
                guard: match guard {
                    Some(b) => Some(b@),
                    None => None,
                },
                body: body@,
            }),
{
    reveal(Arm::model);
    reveal(Pattern::model);
    reveal(Expr::model);
}

pub broadcast proof fn lemma_built_pattern_binding(name: String, ty: Type)
    ensures
        #[trigger] (Pattern::Binding { name, ty })@ == (TPattern::Binding {
                name: name@,
                ty: ty@,
            }),
{
    reveal(Pattern::model);
    reveal(Type::model);
}

pub broadcast proof fn lemma_built_pattern_int(v: i128)
    ensures
        #[trigger] Pattern::Int(v)@ == (TPattern::Int(v)),
{
    reveal(Pattern::model);
    reveal(Type::model);
}

pub broadcast proof fn lemma_built_pattern_bool(b: bool)
    ensures
        #[trigger] Pattern::Bool(b)@ == (TPattern::Bool(b)),
{
    reveal(Pattern::model);
    reveal(Type::model);
}

pub broadcast proof fn lemma_built_pattern_range(lo: i128, hi: i128, inclusive: bool)
    ensures
        #[trigger] (Pattern::Range { lo, hi, inclusive })@ == (TPattern::Range {
                lo: lo,
                hi: hi,
                inclusive: inclusive,
            }),
{
    reveal(Pattern::model);
    reveal(Type::model);
}

pub broadcast proof fn lemma_built_pattern_variant(enum_name: String, tag: usize, subpatterns: Vec<Pattern>)
    ensures
        #[trigger] (Pattern::Variant { enum_name, tag, subpatterns })@ == (TPattern::Variant {
                enum_name: enum_name@,
                tag: tag,
                subpatterns: patterns_of(subpatterns@),
            }),
{
    reveal(Pattern::model);
    reveal(Type::model);
}

pub broadcast proof fn lemma_built_pattern_tuple(ps: Vec<Pattern>)
    ensures
        #[trigger] Pattern::Tuple(ps)@ == (TPattern::Tuple(patterns_of(ps@))),
{
    reveal(Pattern::model);
    reveal(Type::model);
}

pub broadcast proof fn lemma_built_pattern_or(ps: Vec<Pattern>)
    ensures
        #[trigger] Pattern::Or(ps)@ == (TPattern::Or(patterns_of(ps@))),
{
    reveal(Pattern::model);
    reveal(Type::model);
}

pub broadcast proof fn lemma_built_const_def(name: String, ty: Type, init: Expr)
    ensures
        #[trigger] (ConstDef { name, ty, init })@ == (TConst {
                name: name@,
                ty: ty@,
                init: init@,
            }),
{
    reveal(ConstDef::model);
    reveal(Type::model);
    reveal(Expr::model);
}

pub broadcast proof fn lemma_built_func(name: String, params: Vec<Param>, ret: Type, body: Block)
    ensures
        #[trigger] (Func { name, params, ret, body })@ == (TFunc {
                name: name@,
                params: params_of(params@),
                ret: ret@,
                body: body@,
            }),
{
    reveal(Func::model);
    reveal(Type::model);
    reveal(Block::model);
}

/// The models of the nodes that carry nothing.
pub proof fn lemma_plain_nodes()
    ensures
        Type::Bool@ == TType::Bool,
        Type::Unit@ == TType::Unit,
        ExprKind::Unit@ == TKind::Unit,
        Pattern::Wildcard@ == TPattern::Wildcard,
{
    reveal(Type::model);
    reveal(ExprKind::model);
    reveal(Pattern::model);
}

/// The models of built nodes.
pub broadcast group group_built {
    lemma_built_type_int,
    lemma_built_type_bit,
    lemma_built_type_array,
    lemma_built_type_struct,
    lemma_built_type_enum,
    lemma_built_type_tuple,
    lemma_built_field,
    lemma_built_struct_def,
    lemma_built_variant,
    lemma_built_enum_def,
    lemma_built_param,
    lemma_built_signature,
    lemma_built_block,
    lemma_built_stmt_let,
    lemma_built_stmt_assign,
    lemma_built_stmt_while,
    lemma_built_stmt_for,
    lemma_built_stmt_return,
    lemma_built_stmt_expr,
    lemma_built_place_local,
    lemma_built_place_field,
    lemma_built_place_index,
    lemma_built_place_tuple_field,
    lemma_built_expr,
    lemma_built_expr_kind_int,
    lemma_built_expr_kind_bool,
    lemma_built_expr_kind_local,
    lemma_built_expr_kind_const_ref,
    lemma_built_expr_kind_unary,
    lemma_built_expr_kind_binary,
    lemma_built_expr_kind_call,
    lemma_built_expr_kind_print,
    lemma_built_expr_kind_make_struct,
    lemma_built_expr_kind_make_enum,
    lemma_built_expr_kind_make_tuple,
    lemma_built_expr_kind_field,
    lemma_built_expr_kind_tuple_field,
    lemma_built_expr_kind_index,
    lemma_built_expr_kind_array,
    lemma_built_expr_kind_if,
    lemma_built_expr_kind_match,
    lemma_built_expr_kind_block,
    lemma_built_arm,
    lemma_built_pattern_binding,
    lemma_built_pattern_int,
    lemma_built_pattern_bool,
    lemma_built_pattern_range,
    lemma_built_pattern_variant,
    lemma_built_pattern_tuple,
    lemma_built_pattern_or,
    lemma_built_const_def,
    lemma_built_func,
}

// ---- queries ------------------------------------------------------------

impl TType {
    /// Whether the type is integer-like: a machine integer or `bit<N>`.
    pub open spec fn is_integer(self) -> bool {
        self is Int || self is Bit
    }

    /// The bit width of an integer-like type.
    pub open spec fn bit_width(self) -> Option<u32> {
        match self {
            TType::Int(i) => Some(i.width),
            TType::Bit(n) => Some(n),
            _ => None,
        }
    }

    /// The type as it is written in source text.
    pub open spec fn show(self) -> Text
        decreases self,
    {
        match self {
            TType::Bool => "bool"@,
            TType::Unit => "()"@,
            TType::Int(i) => (if i.signed {
                "i"@
            } else {
                "u"@
            }) + text::dec(i.width as nat),
            TType::Bit(n) => "bit<"@ + text::dec(n as nat) + ">"@,
            TType::Array(t, n) => "["@ + t.show() + "; "@ + text::dec(n as nat) + "]"@,
            TType::Struct(n) => n,
            TType::Enum(n) => n,
            TType::Tuple(ts) => "("@ + text::join_texts(show_types(ts), ", "@) + ")"@,
        }
    }
}

/// The types as they are written in source text.
pub open spec fn show_types(ts: Seq<TType>) -> Seq<Text>
    decreases ts,
{
    Seq::new(ts.len(), |i: int| if 0 <= i < ts.len() { ts[i].show() } else { arbitrary() })
}

impl Type {
    /// True if this type is integer-like (a machine integer or `bit<N>`), the
    /// set of types that arithmetic and comparison operators accept.
    pub fn is_integer(&self) -> (r: bool)
        ensures
            r == self@.is_integer(),
    {
        reveal(Type::model);
        match self {
            Type::Int(_) => true,
            Type::Bit(_) => true,
            _ => false,
        }
    }

    /// The bit width of an integer-like type, if any.
    pub fn bit_width(&self) -> (r: Option<u32>)
        ensures
            r == self@.bit_width(),
    {
        reveal(Type::model);
        match self {
            Type::Int(i) => Some(i.width),
            Type::Bit(n) => Some(*n),
            _ => None,
        }
    }

    /// The type as it is written in source text.
    pub fn to_text(&self) -> (r: String)
        ensures
            r@ == self@.show(),
        decreases self,
    {
        reveal(Type::model);
        match self {
            Type::Bool => "bool".to_string(),
            Type::Unit => "()".to_string(),
            Type::Int(i) => {
                let w = u32_text(i.width);
                if i.signed {
                    cat2("i", w.as_str())
                } else {
                    cat2("u", w.as_str())
                }
            },
            Type::Bit(n) => {
                let w = u32_text(*n);
                cat3("bit<", w.as_str(), ">")
            },
            Type::Array(t, n) => {
                let e = t.to_text();
                let w = u64_text(*n);
                cat5("[", e.as_str(), "; ", w.as_str(), "]")
            },
            Type::Struct(n) => n.clone(),
            Type::Enum(n) => n.clone(),
            Type::Tuple(ts) => {
                let parts = types_text(ts);
                let inner = join(&parts, ", ");
                cat3("(", inner.as_str(), ")")
            },
        }
    }
}

fn types_text(ts: &Vec<Type>) -> (r: Vec<String>)
    ensures
        text::texts(r@) == show_types(types_of(ts@)),
    decreases ts,
{
    broadcast use {group_model, text::group_texts};

    let mut out: Vec<String> = Vec::new();
    let mut i: usize = 0;
    while i < ts.len()
        invariant
            i <= ts.len(),
            out.len() == i,
            forall|j: int| 0 <= j < i ==> #[trigger] out[j]@ == ts[j]@.show(),
        decreases ts.len() - i,
    {
        out.push(ts[i].to_text());
        i += 1;
    }
    assert(text::texts(out@) =~= show_types(types_of(ts@)));
    out
}

/// The position of the first field at or after `i` with the given name.
pub open spec fn field_from(fs: Seq<TField>, name: Text, i: int) -> Option<usize>
    decreases fs.len() - i,
{
    if i < 0 || i >= fs.len() {
        None
    } else if fs[i].name == name {
        Some(i as usize)
    } else {
        field_from(fs, name, i + 1)
    }
}

/// The position of the first variant at or after `i` with the given name.
pub open spec fn variant_from(vs: Seq<TVariant>, name: Text, i: int) -> Option<usize>
    decreases vs.len() - i,
{
    if i < 0 || i >= vs.len() {
        None
    } else if vs[i].name == name {
        Some(i as usize)
    } else {
        variant_from(vs, name, i + 1)
    }
}

impl StructDef {
    /// The position of the field called `name`.
    pub fn field_index(&self, name: &str) -> (r: Option<usize>)
        ensures
            r == field_from(self@.fields, name@, 0),
            r matches Some(i) ==> i < self.fields.len() && self.fields[i as int].name@ == name@,
    {
        broadcast use group_model;

        let mut i: usize = 0;
        while i < self.fields.len()
            invariant
                i <= self.fields.len(),
                field_from(self@.fields, name@, 0) == field_from(self@.fields, name@, i as int),
            decreases self.fields.len() - i,
        {
            assert(self@.fields[i as int] == self.fields[i as int]@);
            if str_eq(self.fields[i].name.as_str(), name) {
                return Some(i);
            }
            i += 1;
        }
        None
    }
}

impl EnumDef {
    /// The tag of the variant called `name`.
    pub fn variant_tag(&self, name: &str) -> (r: Option<usize>)
        ensures
            r == variant_from(self@.variants, name@, 0),
            r matches Some(i) ==> i < self.variants.len() && self.variants[i as int].name@ == name@,
    {
        broadcast use group_model;

        let mut i: usize = 0;
        while i < self.variants.len()
            invariant
                i <= self.variants.len(),
                variant_from(self@.variants, name@, 0) == variant_from(
                    self@.variants,
                    name@,
                    i as int,
                ),
            decreases self.variants.len() - i,
        {
            assert(self@.variants[i as int] == self.variants[i as int]@);
            if str_eq(self.variants[i].name.as_str(), name) {
                return Some(i);
            }
            i += 1;
        }
        None
    }
}

/// The types of the parameters, in order.
pub open spec fn param_types(ps: Seq<TParam>) -> Seq<TType> {
    ps.map_values(|p: TParam| p.ty)
}

impl TFunc {
    /// The parameter types and the return type.
    pub open spec fn sig(self) -> TSig {
        TSig { params: param_types(self.params), ret: self.ret }
    }
}

impl Func {
    /// The parameter types and the return type.
    pub fn signature(&self) -> (r: Signature)
        ensures
            r@ == self@.sig(),
    {
        broadcast use group_model;

        let mut out: Vec<Type> = Vec::new();
        let mut i: usize = 0;
        while i < self.params.len()
            invariant
                i <= self.params.len(),
                out.len() == i,
                forall|j: int| 0 <= j < i ==> #[trigger] out[j]@ == self.params[j].ty@,
            decreases self.params.len() - i,
        {
            out.push(self.params[i].ty.dup());
            i += 1;
        }
        assert(types_of(out@) =~= param_types(self@.params));
        Signature { params: out, ret: self.ret.dup() }
    }
}

impl TPlace {
    /// The type of what the place holds.
    pub open spec fn ty(self) -> TType {
        match self {
            TPlace::Local { name, ty } => ty,
            TPlace::Field { base, index, ty } => ty,
            TPlace::Index { base, index, ty } => ty,
            TPlace::TupleField { base, index, ty } => ty,
        }
    }
}

impl Place {
    /// The type of what the place holds.
    pub fn ty(&self) -> (r: &Type)
        ensures
            r@ == self@.ty(),
    {
        reveal(Place::model);
        reveal(Type::model);
        match self {
            Place::Local { name: _, ty } => ty,
            Place::Field { base: _, index: _, ty } => ty,
            Place::Index { base: _, index: _, ty } => ty,
            Place::TupleField { base: _, index: _, ty } => ty,
        }
    }
}

impl Expr {
    pub fn new(kind: ExprKind, ty: Type) -> (r: Expr)
        ensures
            r == (Expr { kind, ty }),
    {
        Expr { kind, ty }
    }
}

impl BinOp {
    /// Whether the operator yields a `bool` from any integer-like operands.
    pub open spec fn comparing(self) -> bool {
        match self {
            BinOp::Eq => true,
            BinOp::Ne => true,
            BinOp::Lt => true,
            BinOp::Le => true,
            BinOp::Gt => true,
            BinOp::Ge => true,
            _ => false,
        }
    }

    /// Whether the operator is a short-circuiting logical one.
    pub open spec fn logical(self) -> bool {
        self is And || self is Or
    }

    /// True if the operator yields a `bool` regardless of operand type.
    pub fn is_comparison(&self) -> (r: bool)
        ensures
            r == self.comparing(),
    {
        match self {
            BinOp::Eq => true,
            BinOp::Ne => true,
            BinOp::Lt => true,
            BinOp::Le => true,
            BinOp::Gt => true,
            BinOp::Ge => true,
            _ => false,
        }
    }

    /// True for the short-circuiting logical operators.
    pub fn is_logical(&self) -> (r: bool)
        ensures
            r == self.logical(),
    {
        match self {
            BinOp::And => true,
            BinOp::Or => true,
            _ => false,
        }
    }
}

impl Duplicate for StructDef {
    fn duplicate(&self) -> (r: StructDef) {
        self.dup()
    }
}

impl Duplicate for EnumDef {
    fn duplicate(&self) -> (r: EnumDef) {
        self.dup()
    }
}

impl Duplicate for Func {
    fn duplicate(&self) -> (r: Func) {
        self.dup()
    }
}

impl Duplicate for ConstDef {
    fn duplicate(&self) -> (r: ConstDef) {
        self.dup()
    }
}

impl Duplicate for Signature {
    fn duplicate(&self) -> (r: Signature) {
        self.dup()
    }
}

impl Module {
    /// A copy of the module.
    pub fn dup(&self) -> (r: Module)
        ensures
            r@ == self@,
    {
        Module {
            structs: self.structs.dup(),
            enums: self.enums.dup(),
            funcs: self.funcs.dup(),
            consts: self.consts.dup(),
        }
    }

    /// A module without definitions.
    pub fn new() -> (r: Module)
        ensures
            r@ == TModule::none(),
    {
        Module {
            structs: NameMap::new(),
            enums: NameMap::new(),
            funcs: NameMap::new(),
            consts: NameMap::new(),
        }
    }
}

impl Clone for Module {
    fn clone(&self) -> (r: Module)
        ensures
            r@ == self@,
    {
        self.dup()
    }
}

impl Default for Module {
    fn default() -> (r: Module)
        ensures
            r@ == TModule::none(),
    {
        Module::new()
    }
}

impl TModule {
    /// The module without definitions.
    pub open spec fn none() -> TModule {
        TModule {
            structs: Seq::empty(),
            enums: Seq::empty(),
            funcs: Seq::empty(),
            consts: Seq::empty(),
        }
    }
}

} // verus!
