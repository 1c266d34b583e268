//! The definitions that checking refers to, and how names are looked up in them.

use crate::ast::{self, TypeExpr};
use crate::diagnostic::{Diag, Diagnostic, Stage};
use crate::ir::{self, EnumDef, IntTy, Signature, StructDef, TType, Type};
use crate::model;
use crate::name_map::{self, NameMap};
use crate::span::Span;
use crate::text::{self, cat2, cat3, join, str_eq};
use crate::typing::{self, AImport, Defs, Site, Var};
use vstd::prelude::*;

verus! {

broadcast use {ir::group_model, ir::group_built, ast::group_model, text::group_texts};

/// An import of the module called `module`.
#[derive(Debug)]
pub struct Import {
    pub module: String,
    pub path: Vec<String>,
    pub glob: bool,
}

impl View for Import {
    type V = AImport;

    open spec fn view(&self) -> AImport {
        AImport { module: self.module@, path: text::texts(self.path@), glob: self.glob }
    }
}

/// The definitions that a program makes, by full name.
#[derive(Debug)]
pub struct Context {
    pub structs: NameMap<StructDef>,
    pub enums: NameMap<EnumDef>,
    /// Variant name to the enum and tag.
    pub variants: NameMap<(String, usize)>,
    pub funcs: NameMap<Signature>,
    pub consts: NameMap<Type>,
    pub imports: NameMap<Import>,
}

impl View for Context {
    type V = Defs;

    open spec fn view(&self) -> Defs {
        Defs {
            structs: self.structs@,
            enums: self.enums@,
            variants: self.variants@,
            funcs: self.funcs@,
            consts: self.consts@,
            imports: self.imports@,
        }
    }
}

impl Context {
    /// No definitions.
    pub fn new() -> (r: Context)
        ensures
            r@ == Defs::none(),
    {
        Context {
            structs: NameMap::new(),
            enums: NameMap::new(),
            variants: NameMap::new(),
            funcs: NameMap::new(),
            consts: NameMap::new(),
            imports: NameMap::new(),
        }
    }
}

impl Defs {
    /// No definitions.
    pub open spec fn none() -> Defs {
        Defs {
            structs: Seq::empty(),
            enums: Seq::empty(),
            variants: Seq::empty(),
            funcs: Seq::empty(),
            consts: Seq::empty(),
            imports: Seq::empty(),
        }
    }
}

/// A variable in scope.
#[derive(Debug)]
pub struct Local {
    pub ty: Type,
    pub mutable: bool,
}

impl View for Local {
    type V = Var;

    open spec fn view(&self) -> Var {
        Var { ty: self.ty@, mutable: self.mutable }
    }
}

/// The variables in scope, innermost last.
pub type Locals = Vec<(String, Local)>;

/// Where checking takes place.
pub struct Spot<'a> {
    pub defs: &'a Context,
    pub module: &'a String,
    pub ret: &'a Type,
}

impl<'a> View for Spot<'a> {
    type V = Site;

    open spec fn view(&self) -> Site {
        Site { defs: self.defs@, module: self.module@, ret: self.ret@ }
    }
}

pub(crate) fn type_error(message: String, span: Span) -> (r: Diagnostic)
    ensures
        r@ == typing::type_error(message@, span),
{
    Diagnostic::new(Stage::Type, message, span)
}

// ---- names --------------------------------------------------------------

/// A path as it is written.
pub(crate) fn path_text(segs: &Vec<String>) -> (r: String)
    ensures
        r@ == typing::path_text(text::texts(segs@)),
{
    join(segs, "::")
}

/// The full name of `name` in the module `m`.
pub(crate) fn qualify(m: &String, name: &str) -> (r: String)
    ensures
        r@ == typing::qualify(m@, name@),
{
    if is_empty(m) {
        name.to_string()
    } else {
        cat3(m.as_str(), "::", name)
    }
}

fn is_empty(s: &String) -> (r: bool)
    ensures
        r == (s@.len() == 0),
{
    proof {
        reveal_strlit("");
    }
    let r = str_eq(s.as_str(), "");
    assert(s@ =~= ""@ <==> s@.len() == 0);
    r
}

fn imported(u: &Import, m: &String, segs: &Vec<String>) -> (r: Option<Vec<String>>)
    ensures
        match r {
            Some(p) => typing::imported(u@, m@, text::texts(segs@)) == Some(text::texts(p@)),
            None => typing::imported(u@, m@, text::texts(segs@)) is None,
        },
{
    if segs.len() == 0 || !str_eq(u.module.as_str(), m.as_str()) {
        return None;
    }
    let from: usize = if u.glob {
        0
    } else if u.path.len() > 0 && str_eq(u.path[u.path.len() - 1].as_str(), segs[0].as_str()) {
        1
    } else {
        return None;
    };
    let mut out = text::copy_texts(&u.path);
    let mut i: usize = from;
    while i < segs.len()
        invariant
            from <= 1,
            from <= i <= segs.len(),
            text::texts(out@) == text::texts(u.path@) + text::texts(segs@).subrange(
                from as int,
                i as int,
            ),
        decreases segs.len() - i,
    {
        out.push(segs[i].clone());
        i += 1;
        assert(text::texts(out@) =~= text::texts(u.path@) + text::texts(segs@).subrange(
            from as int,
            i as int,
        ));
    }
    assert(text::texts(segs@).subrange(0, segs.len() as int) =~= text::texts(segs@));
    Some(out)
}

fn framed(t: &String) -> (r: String)
    ensures
        r@ == typing::framed(t@),
{
    cat3(text::u128_text(t.as_str().unicode_len() as u128).as_str(), ":", t.as_str())
}

/// What an import is kept under.
pub(crate) fn import_key(u: &Import) -> (r: String)
    ensures
        r@ == typing::import_key(u@),
{
    let ghost path = text::texts(u.path@);
    let mut out = cat2(if u.glob { "*" } else { "!" }, framed(&u.module).as_str());
    let ghost start = out@;
    let mut i: usize = 0;
    assert(start + typing::framed_from(path, 0) =~= out@ + typing::framed_from(path, 0));
    while i < u.path.len()
        invariant
            i <= u.path.len(),
            path == text::texts(u.path@),
            start + typing::framed_from(path, 0) == out@ + typing::framed_from(path, i as int),
        decreases u.path.len() - i,
    {
        assert(path[i as int] == u.path[i as int]@);
        let ghost before = out@;
        let next = framed(&u.path[i]);
        out = cat2(out.as_str(), next.as_str());
        assert(before + (next@ + typing::framed_from(path, i + 1)) =~= out@ + typing::framed_from(
            path,
            i + 1,
        ));
        i += 1;
    }
    assert(out@ + typing::framed_from(path, i as int) =~= out@);
    out
}

/// The full name that the path `segs` stands for in the module `m`.
pub(crate) fn find_name<T: View>(
    map: &NameMap<T>,
    imports: &NameMap<Import>,
    m: &String,
    segs: &Vec<String>,
) -> (r: Option<String>)
    ensures
        text::option_view(r) == typing::find_name(
            map@,
            imports@,
            m@,
            text::texts(segs@),
        ),
{
    let t = path_text(segs);
    let own = qualify(m, t.as_str());
    if map.contains_key(own.as_str()) {
        return Some(own);
    }
    let mut i: usize = 0;
    while i < imports.len()
        invariant
            i <= imports@.len(),
            typing::import_hit(map@, imports@, m@, text::texts(segs@), 0)
                == typing::import_hit(
                map@,
                imports@,
                m@,
                text::texts(segs@),
                i as int,
            ),
            name_map::find(
                map@,
                typing::qualify(m@, typing::path_text(text::texts(segs@))),
            ) is None,
        decreases imports@.len() - i,
    {
        let (_, u) = imports.at(i);
        if let Some(p) = imported(u, m, segs) {
            let target = path_text(&p);
            let near = qualify(m, target.as_str());
            if map.contains_key(near.as_str()) {
                return Some(near);
            }
            if map.contains_key(target.as_str()) {
                return Some(target);
            }
        }
        i += 1;
    }
    if map.contains_key(t.as_str()) {
        return Some(t);
    }
    None
}

/// What the path `segs` stands for in the module `m`, with its full name.
pub(crate) fn look_up<'a, T: View>(
    map: &'a NameMap<T>,
    imports: &NameMap<Import>,
    m: &String,
    segs: &Vec<String>,
) -> (r: Option<(String, &'a T)>)
    ensures
        match r {
            Some((n, v)) => typing::look_up(map@, imports@, m@, text::texts(segs@))
                == Some((n@, v@)),
            None => typing::look_up(map@, imports@, m@, text::texts(segs@)) is None,
        },
{
    match find_name(map, imports, m, segs) {
        None => None,
        Some(n) => match map.get(n.as_str()) {
            Some(v) => Some((n, v)),
            None => None,
        },
    }
}

/// The variant that a path stands for: the enum, the tag and the payload types.
pub(crate) fn find_variant<'a>(cx: &'a Context, m: &String, segs: &Vec<String>) -> (r: Option<
    (String, usize, &'a Vec<Type>),
>)
    ensures
        match r {
            Some((n, tag, tys)) => typing::find_variant(cx@, m@, text::texts(segs@)) == Some(
                (n@, tag, ir::types_of(tys@)),
            ),
            None => typing::find_variant(cx@, m@, text::texts(segs@)) is None,
        },
{
    match look_up(&cx.variants, &cx.imports, m, segs) {
        None => None,
        Some((_, v)) => match cx.enums.get(v.0.as_str()) {
            None => None,
            Some(d) => if v.1 < d.variants.len() {
                assert(d@.variants[v.1 as int] == d.variants[v.1 as int]@);
                Some((v.0.clone(), v.1, &d.variants[v.1].fields))
            } else {
                None
            },
        },
    }
}

// ---- types --------------------------------------------------------------

/// The types resolved, by view.
pub open spec fn typed(r: Result<Type, Diagnostic>) -> Result<TType, Diag> {
    match r {
        Ok(t) => Ok(t@),
        Err(d) => Err(d@),
    }
}

pub open spec fn typed_all(r: Result<Vec<Type>, Diagnostic>) -> Result<Seq<TType>, Diag> {
    match r {
        Ok(ts) => Ok(ir::types_of(ts@)),
        Err(d) => Err(d@),
    }
}

/// The type that an annotation stands for in the module `m`.
pub(crate) fn resolve(cx: &Context, m: &String, t: &TypeExpr, span: Span) -> (r: Result<
    Type,
    Diagnostic,
>)
    ensures
        typed(r) == typing::resolve(cx@, m@, t@, span),
    decreases t, 0int,
{
    reveal(TypeExpr::model);
    proof {
        ir::lemma_plain_nodes();
    }
    match t {
        TypeExpr::Bool => Ok(Type::Bool),
        TypeExpr::Unit => Ok(Type::Unit),
        TypeExpr::Int { signed, width } => Ok(Type::Int(IntTy { signed: *signed, width: *width })),
        TypeExpr::Bit { width } => Ok(Type::Bit(*width)),
        TypeExpr::Array { elem, len } => {
            let e = resolve(cx, m, elem, span)?;
            Ok(Type::Array(Box::new(e), *len))
        },
        TypeExpr::Named(path) => {
            if let Some(n) = find_name(&cx.structs, &cx.imports, m, path) {
                return Ok(Type::Struct(n));
            }
            if let Some(n) = find_name(&cx.enums, &cx.imports, m, path) {
                return Ok(Type::Enum(n));
            }
            let p = path_text(path);
            Err(type_error(cat3("unknown type `", p.as_str(), "`"), span))
        },
        TypeExpr::Tuple(ts) => {
            let es = resolve_all(cx, m, ts, span)?;
            Ok(tuple_type(es))
        },
    }
}

fn resolve_all(cx: &Context, m: &String, ts: &Vec<TypeExpr>, span: Span) -> (r: Result<
    Vec<Type>,
    Diagnostic,
>)
    ensures
        typed_all(r) == typing::resolve_all(
            cx@,
            m@,
            ast::types_of(ts@),
            span,
            0,
            Seq::empty(),
        ),
    decreases ts, 1int,
{
    let ghost mts = ast::types_of(ts@);
    let mut acc: Vec<Type> = Vec::new();
    assert(ir::types_of(acc@) =~= Seq::<TType>::empty());
    let mut i: usize = 0;
    while i < ts.len()
        invariant
            i <= ts.len(),
            mts == ast::types_of(ts@),
            typing::resolve_all(cx@, m@, mts, span, 0, Seq::empty()) == typing::resolve_all(
                cx@,
                m@,
                mts,
                span,
                i as int,
                ir::types_of(acc@),
            ),
        decreases ts.len() - i,
    {
        assert(mts[i as int] == ts[i as int]@);
        let ghost before = ir::types_of(acc@);
        let t = resolve(cx, m, &ts[i], span)?;
        acc.push(t);
        assert(ir::types_of(acc@) =~= before.push(t@));
        i += 1;
    }
    Ok(acc)
}

/// The type of a tuple with elements of the given types.
pub(crate) fn tuple_type(es: Vec<Type>) -> (r: Type)
    ensures
        r@ == typing::tuple_type(ir::types_of(es@)),
{
    proof {
        ir::lemma_plain_nodes();
    }
    if es.len() == 0 {
        Type::Unit
    } else if es.len() == 1 {
        let mut one = es;
        assert(ir::types_of(one@)[0] == one[0]@);
        one.swap_remove(0)
    } else {
        Type::Tuple(es)
    }
}

} // verus!
