//! Runtime values and how they print.

use crate::ir::{self, IntTy, Module, TModule};
use crate::model;
use crate::name_map;
use crate::text::{self, cat2, cat3, cat4, i128_text, join, str_eq, u128_text, usize_text, Text};
use vstd::prelude::*;

verus! {

/// A runtime value. Integer-like values are stored normalised to their type's
/// range so equality and printing are canonical.
#[derive(Debug, PartialEq)]
#[allow(inconsistent_fields)]
pub enum Value {
    Bool(bool),
    /// A fixed-width machine integer, stored as its true (possibly negative)
    /// value already reduced into the type's range.
    Int(i128, IntTy),
    /// A `bit<N>` value, reduced modulo `2^N`.
    Bit(u128, u32),
    /// A fixed-size array.
    Array(Vec<Value>),
    /// A struct value: the struct name and its fields in definition order.
    Struct(String, Vec<Value>),
    /// An enum value: the enum name, the variant tag, and the payload.
    Enum(String, usize, Vec<Value>),
    /// A tuple value.
    Tuple(Vec<Value>),
    /// The unit value.
    Unit,
}

/// A runtime value as a mathematical object.
#[allow(inconsistent_fields)]
pub enum VVal {
    Bool(bool),
    Int(i128, IntTy),
    Bit(u128, u32),
    Array(Seq<VVal>),
    Struct(Text, Seq<VVal>),
    Enum(Text, usize, Seq<VVal>),
    Tuple(Seq<VVal>),
    Unit,
}

/// The values of `v`, each as a mathematical object.
pub open spec fn values_of(v: Seq<Value>) -> Seq<VVal>
    decreases v,
{
    Seq::new(v.len(), |i: int| if 0 <= i < v.len() { v[i].model() } else { arbitrary() })
}

pub broadcast proof fn lemma_values(v: Seq<Value>)
    ensures
        #[trigger] values_of(v) == model::views(v),
{
    assert(values_of(v) =~= model::views(v));
}

/// An independent copy of `v`.
pub fn dup_values(v: &Vec<Value>) -> (r: Vec<Value>)
    ensures
        values_of(r@) == values_of(v@),
    decreases v,
{
    broadcast use group_values;

    let mut out: Vec<Value> = Vec::new();
    let mut i: usize = 0;
    while i < v.len()
        invariant
            i <= v.len(),
            out.len() == i,
            forall|j: int| 0 <= j < i ==> #[trigger] out[j]@ == v[j]@,
        decreases v.len() - i,
    {
        out.push(v[i].dup());
        i += 1;
    }
    assert(values_of(out@) =~= values_of(v@));
    out
}

/// Whether `a` and `b` hold the same values in the same order.
pub fn same_values(a: &Vec<Value>, b: &Vec<Value>) -> (r: bool)
    ensures
        r == (values_of(a@) == values_of(b@)),
    decreases a,
{
    broadcast use group_values;

    if a.len() != b.len() {
        assert(values_of(a@).len() != values_of(b@).len());
        return false;
    }
    let mut i: usize = 0;
    while i < a.len()
        invariant
            i <= a.len(),
            a.len() == b.len(),
            forall|j: int| 0 <= j < i ==> #[trigger] a[j]@ == b[j]@,
        decreases a.len() - i,
    {
        if !a[i].same(&b[i]) {
            broadcast use group_values;

            assert(values_of(a@)[i as int] == a[i as int]@);
            assert(values_of(b@)[i as int] == b[i as int]@);
            return false;
        }
        i += 1;
    }
    assert(values_of(a@) =~= values_of(b@));
    true
}

/// Facts about the models of value vectors.
pub broadcast group group_values {
    model::group_views,
    lemma_values,
}

impl View for Value {
    type V = VVal;

    open spec fn view(&self) -> VVal {
        self.model()
    }
}

impl model::Duplicate for Value {
    fn duplicate(&self) -> (r: Value) {
        self.dup()
    }
}

impl Clone for Value {
    fn clone(&self) -> (r: Value)
        ensures
            r@ == self@,
    {
        self.dup()
    }
}

impl Value {
    /// The value as a mathematical object.
    pub open spec fn model(&self) -> VVal
        decreases self,
    {
        match self {
            Value::Bool(b) => VVal::Bool(*b),
            Value::Int(n, it) => VVal::Int(*n, *it),
            Value::Bit(n, w) => VVal::Bit(*n, *w),
            Value::Array(xs) => VVal::Array(values_of(xs@)),
            Value::Struct(name, xs) => VVal::Struct(name@, values_of(xs@)),
            Value::Enum(name, tag, xs) => VVal::Enum(name@, *tag, values_of(xs@)),
            Value::Tuple(xs) => VVal::Tuple(values_of(xs@)),
            Value::Unit => VVal::Unit,
        }
    }

    /// An independent copy.
    pub fn dup(&self) -> (r: Value)
        ensures
            r@ == self@,
        decreases self,
    {
        broadcast use group_values;


        match self {
            Value::Bool(b) => Value::Bool(*b),
            Value::Int(n, it) => Value::Int(*n, *it),
            Value::Bit(n, w) => Value::Bit(*n, *w),
            Value::Array(xs) => Value::Array(dup_values(xs)),
            Value::Struct(name, xs) => Value::Struct(name.clone(), dup_values(xs)),
            Value::Enum(name, tag, xs) => Value::Enum(name.clone(), *tag, dup_values(xs)),
            Value::Tuple(xs) => Value::Tuple(dup_values(xs)),
            Value::Unit => Value::Unit,
        }
    }

    /// Whether both are the same value.
    pub fn same(&self, other: &Value) -> (r: bool)
        ensures
            r == (self@ == other@),
        decreases self,
    {
        broadcast use group_values;


        match (self, other) {
            (Value::Bool(b), Value::Bool(b2)) => *b == *b2,
            (Value::Int(n, it), Value::Int(n2, it2)) => *n == *n2 && *it == *it2,
            (Value::Bit(n, w), Value::Bit(n2, w2)) => *n == *n2 && *w == *w2,
            (Value::Array(xs), Value::Array(xs2)) => same_values(xs, xs2),
            (Value::Struct(name, xs), Value::Struct(name2, xs2)) => str_eq(name.as_str(), name2.as_str()) && same_values(xs, xs2),
            (Value::Enum(name, tag, xs), Value::Enum(name2, tag2, xs2)) => str_eq(name.as_str(), name2.as_str()) && *tag == *tag2 && same_values(xs, xs2),
            (Value::Tuple(xs), Value::Tuple(xs2)) => same_values(xs, xs2),
            (Value::Unit, Value::Unit) => true,
            _ => false,
        }
    }
}

// ---- printing -----------------------------------------------------------

impl VVal {
    /// The text that `print` writes for the value in the module `m`.
    pub open spec fn show(self, m: TModule) -> Text
        decreases self,
    {
        match self {
            VVal::Bool(b) => if b {
                "true"@
            } else {
                "false"@
            },
            VVal::Int(n, it) => text::int_text(n as int),
            VVal::Bit(n, w) => text::dec(n as nat),
            VVal::Unit => "()"@,
            VVal::Array(xs) => "["@ + text::join_texts(show_values(xs, m), ", "@) + "]"@,
            VVal::Struct(name, xs) => name + " { "@ + text::join_texts(
                label_fields(field_names(m, name, xs.len()), show_values(xs, m)),
                ", "@,
            ) + " }"@,
            VVal::Enum(name, tag, xs) => if xs.len() == 0 {
                variant_name(m, name, tag)
            } else {
                variant_name(m, name, tag) + "("@ + text::join_texts(show_values(xs, m), ", "@)
                    + ")"@
            },
            VVal::Tuple(xs) => "("@ + text::join_texts(show_values(xs, m), ", "@) + ")"@,
        }
    }
}

pub open spec fn show_values(xs: Seq<VVal>, m: TModule) -> Seq<Text>
    decreases xs,
{
    Seq::new(xs.len(), |i: int| if 0 <= i < xs.len() { xs[i].show(m) } else { arbitrary() })
}

/// The field names of the struct called `name`; positions where the module does
/// not define it.
pub open spec fn field_names(m: TModule, name: Text, n: nat) -> Seq<Text> {
    match name_map::find(m.structs, name) {
        Some(d) => d.fields.map_values(|f: ir::TField| f.name),
        None => Seq::new(n, |i: int| text::dec(i as nat)),
    }
}

/// `name: value` for each field that has both.
pub open spec fn label_fields(names: Seq<Text>, shown: Seq<Text>) -> Seq<Text> {
    Seq::new(
        if names.len() <= shown.len() {
            names.len()
        } else {
            shown.len()
        },
        |i: int| names[i] + ": "@ + shown[i],
    )
}

/// The name of a variant; `tag<N>` where the module does not define it.
pub open spec fn variant_name(m: TModule, name: Text, tag: usize) -> Text {
    match name_map::find(m.enums, name) {
        Some(d) => if tag < d.variants.len() {
            d.variants[tag as int].name
        } else {
            "tag"@ + text::dec(tag as nat)
        },
        None => "tag"@ + text::dec(tag as nat),
    }
}

/// The text that `print` writes for `v` in the module `m`.
pub fn format_value(m: &Module, v: &Value) -> (r: String)
    ensures
        r@ == v@.show(m@),
    decreases v,
{
    broadcast use {group_values, text::group_texts};

    match v {
        Value::Bool(b) => if *b {
            "true".to_string()
        } else {
            "false".to_string()
        },
        Value::Int(n, _) => i128_text(*n),
        Value::Bit(n, _) => u128_text(*n),
        Value::Unit => "()".to_string(),
        Value::Array(xs) => {
            let parts = format_values(m, xs);
            let inner = join(&parts, ", ");
            cat3("[", inner.as_str(), "]")
        },
        Value::Struct(name, xs) => {
            let names = struct_labels(m, name, xs.len());
            let shown = format_values(m, xs);
            let parts = label(&names, &shown);
            let inner = join(&parts, ", ");
            cat4(name.as_str(), " { ", inner.as_str(), " }")
        },
        Value::Enum(name, tag, xs) => {
            let vname = variant_label(m, name, *tag);
            if xs.len() == 0 {
                vname
            } else {
                let parts = format_values(m, xs);
                let inner = join(&parts, ", ");
                cat4(vname.as_str(), "(", inner.as_str(), ")")
            }
        },
        Value::Tuple(xs) => {
            let parts = format_values(m, xs);
            let inner = join(&parts, ", ");
            cat3("(", inner.as_str(), ")")
        },
    }
}

fn format_values(m: &Module, xs: &Vec<Value>) -> (r: Vec<String>)
    ensures
        text::texts(r@) == show_values(values_of(xs@), m@),
    decreases xs,
{
    broadcast use {group_values, text::group_texts};

    let mut out: Vec<String> = Vec::new();
    let mut i: usize = 0;
    while i < xs.len()
        invariant
            i <= xs.len(),
            out.len() == i,
            forall|j: int| 0 <= j < i ==> #[trigger] out[j]@ == xs[j]@.show(m@),
        decreases xs.len() - i,
    {
        out.push(format_value(m, &xs[i]));
        i += 1;
    }
    assert(text::texts(out@) =~= show_values(values_of(xs@), m@));
    out
}

fn struct_labels(m: &Module, name: &String, n: usize) -> (r: Vec<String>)
    ensures
        text::texts(r@) == field_names(m@, name@, n as nat),
{
    broadcast use {ir::group_model, text::group_texts};

    let mut out: Vec<String> = Vec::new();
    let mut i: usize = 0;
    match m.structs.get(name.as_str()) {
        Some(d) => {
            while i < d.fields.len()
                invariant
                    i <= d.fields.len(),
                    out.len() == i,
                    forall|j: int| 0 <= j < i ==> #[trigger] out[j]@ == d.fields[j].name@,
                decreases d.fields.len() - i,
            {
                out.push(d.fields[i].name.clone());
                i += 1;
            }
        },
        None => {
            while i < n
                invariant
                    i <= n,
                    out.len() == i,
                    forall|j: int| 0 <= j < i ==> #[trigger] out[j]@ == text::dec(j as nat),
                decreases n - i,
            {
                out.push(usize_text(i));
                i += 1;
            }
        },
    }
    assert(text::texts(out@) =~= field_names(m@, name@, n as nat));
    out
}

fn label(names: &Vec<String>, shown: &Vec<String>) -> (r: Vec<String>)
    ensures
        text::texts(r@) == label_fields(text::texts(names@), text::texts(shown@)),
{
    broadcast use text::group_texts;

    let mut out: Vec<String> = Vec::new();
    let mut i: usize = 0;
    while i < names.len() && i < shown.len()
        invariant
            i <= names.len(),
            i <= shown.len(),
            out.len() == i,
            forall|j: int| 0 <= j < i ==> #[trigger] out[j]@ == names[j]@ + ": "@ + shown[j]@,
        decreases names.len() - i,
    {
        out.push(cat3(names[i].as_str(), ": ", shown[i].as_str()));
        i += 1;
    }
    assert(text::texts(out@) =~= label_fields(text::texts(names@), text::texts(shown@)));
    out
}

fn variant_label(m: &Module, name: &String, tag: usize) -> (r: String)
    ensures
        r@ == variant_name(m@, name@, tag),
{
    broadcast use ir::group_model;

    match m.enums.get(name.as_str()) {
        Some(d) => if tag < d.variants.len() {
            assert(d@.variants[tag as int] == d.variants[tag as int]@);
            d.variants[tag].name.clone()
        } else {
            let t = usize_text(tag);
            cat2("tag", t.as_str())
        },
        None => {
            let t = usize_text(tag);
            cat2("tag", t.as_str())
        },
    }
}

} // verus!
