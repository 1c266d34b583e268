//! # Rune
//!
//! Rune is a small, statically-typed systems language (value semantics, explicit
//! types, no garbage collection) built around one typed core IR with two targets:
//! a live, hot-reloadable tree-walking interpreter, and a synthesizable subset that
//! is lowered to Verilog.
//!
//! ```text
//! source -> lexer -> parser -> AST -> typed core IR -> interpreter, netlist
//! ```
//!
//! Every stage is stated as a function over mathematical objects and the code is
//! proved to compute it: [`lexer`] and [`grammar`] say which tree a text stands
//! for, [`typing`] and [`program`] which module a tree stands for, [`semantics`]
//! what a module means, [`lowering`] and [`netlist`] which hardware it becomes and
//! what that computes.

use vstd::prelude::*;

pub mod acceptance;
pub mod allowance;
pub mod alone;
pub mod arith;
pub mod assigning;
pub mod ast;
pub mod blame;
pub mod catalogue;
pub mod checking;
pub mod circuits;
pub mod context;
pub mod declarations;
pub mod diagnostic;
pub mod env;
pub mod equivalence;
pub mod gather;
pub mod grammar;
pub mod graph;
pub mod hdl;
pub mod hotreload;
pub mod instances;
pub mod interp;
pub mod ir;
pub mod language;
pub mod lexer;
pub mod loader;
pub mod lowering;
pub mod matching;
pub mod memory;
pub mod model;
pub mod name_map;
pub mod nesting;
pub mod netlist;
pub mod operators;
pub mod ordering;
pub mod parser;
pub mod patterns;
pub mod phrases;
pub mod pieces;
pub mod pkg;
pub mod places;
pub mod precedence;
pub mod program;
pub mod purity;
pub mod rendering;
pub mod repl;
pub mod rules;
pub mod runner;
pub mod running;
pub mod safety;
pub mod scan;
pub mod semantics;
pub mod sessions;
pub mod silent;
pub mod simulation;
pub mod soundness;
pub mod span;
pub mod spelling;
pub mod stages;
pub mod support;
pub mod synthesis;
pub mod text;
pub mod token;
pub mod typeck;
pub mod typing;
pub mod value;
pub mod verilog;
pub mod verilog_lines;
pub mod verilog_text;
pub mod welltyped;
pub mod widths;
pub mod wires;

pub use crate::diagnostic::{Diagnostic, Stage};
pub use crate::interp::{Interpreter, Value};
pub use crate::span::Span;

verus! {

/// The module that a source text stands for, or what is wrong with it.
pub open spec fn compiled(src: text::Text) -> Result<ir::TModule, Seq<diagnostic::Diag>> {
    match lexer::tokens_of_text(src) {
        Err(d) => Err(seq![d]),
        Ok(ts) => match grammar::program(ts) {
            Err(d) => Err(seq![d]),
            Ok(p) => program::check_program(p),
        },
    }
}

/// Compile a source string all the way to a typed [`ir::Module`]: lex, parse,
/// typecheck. Returns the first batch of diagnostics on failure.
pub fn compile(src: &str) -> (r: Result<ir::Module, Vec<Diagnostic>>)
    ensures
        typeck::checked(r) == compiled(src@),
{
    broadcast use {token::group_tokens, model::group_views};

    let tokens = match lexer::lex(src) {
        Ok(ts) => ts,
        Err(d) => {
            return Err(single(d));
        },
    };
    proof {
        let k = token::tokens_of(tokens@);
        assert(k.last() == tokens@.last()@);
        reveal(token::Tok::model);
    }
    let program = match parser::parse(tokens.as_slice()) {
        Ok(p) => p,
        Err(d) => {
            return Err(single(d));
        },
    };
    typeck::check(&program)
}

/// A batch of one diagnostic.
fn single(d: Diagnostic) -> (r: Vec<Diagnostic>)
    ensures
        model::views(r@) == seq![d@],
{
    let mut out: Vec<Diagnostic> = Vec::new();
    out.push(d);
    assert(model::views(out@) =~= seq![d@]);
    out
}

} // verus!
