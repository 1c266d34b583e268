//! The core of the interactive session.
//!
//! A [`Session`] keeps two ordered lists: item definitions (`fn`/`struct`/`enum`)
//! and session statements (`let`/assignments/`expr;`). Evaluating an expression
//! synthesizes a throwaway program, all definitions plus an entry function that
//! replays every session statement and then `print`s the expression, compiles it,
//! and runs it. Variables persist because their `let`s are replayed in order on
//! every evaluation.

use crate::compile;
use crate::diagnostic::{Diag, Diagnostic};
use crate::hotreload;
use crate::interp::{self, Interpreter};
use crate::loader::{SSource, Source};
use crate::model;
use crate::semantics;
use crate::text::{self, cat2, cat3, cat4, cat5, chars_of, join, str_eq, string_of, Text};
use crate::value::{self, VVal, Value};
use vstd::prelude::*;

verus! {

broadcast use {text::group_texts, model::group_views};

// ---- characters ---------------------------------------------------------

/// Whether the character has Unicode's White_Space property.
pub open spec fn white_space(c: char) -> bool {
    let n = c as u32;
    ||| 0x9 <= n <= 0xd
    ||| n == 0x20
    ||| n == 0x85
    ||| n == 0xa0
    ||| n == 0x1680
    ||| 0x2000 <= n <= 0x200a
    ||| n == 0x2028
    ||| n == 0x2029
    ||| n == 0x202f
    ||| n == 0x205f
    ||| n == 0x3000
}

/// `char::is_whitespace`: whether the character has Unicode's White_Space property,
/// which the characters listed in `white_space` have and no other.
#[verifier::external_body]
fn is_whitespace(c: char) -> (r: bool)
    ensures
        r == white_space(c),
{
    c.is_whitespace()
}

/// The result of `char::is_alphanumeric`.
pub uninterp spec fn char_alphanumeric(c: char) -> bool;

/// `char::is_alphanumeric`: whether the character is a letter or a number in
/// Unicode's sense. Its result is a function of the character alone; among the
/// ASCII characters those are the letters and the digits.
#[verifier::external_body]
fn is_alphanumeric(c: char) -> (r: bool)
    ensures
        r == char_alphanumeric(c),
        (c as u32) < 0x80 ==> r == (('a' <= c && c <= 'z') || ('A' <= c && c <= 'Z') || ('0' <= c
            && c <= '9')),
{
    c.is_alphanumeric()
}

/// Whether the character can stand in an identifier: a letter, a digit or `_` among
/// the ASCII characters, a letter or a number in Unicode's sense among the others.
pub open spec fn ident_char(c: char) -> bool {
    if (c as u32) < 0x80 {
        ('a' <= c && c <= 'z') || ('A' <= c && c <= 'Z') || ('0' <= c && c <= '9') || c == '_'
    } else {
        char_alphanumeric(c)
    }
}

fn is_ident_char(c: char) -> (r: bool)
    ensures
        r == ident_char(c),
{
    is_alphanumeric(c) || c == '_'
}

// ---- text ---------------------------------------------------------------

/// The first position from `i` on that holds no whitespace.
pub open spec fn lead(s: Text, i: int) -> int
    decreases s.len() - i,
{
    if i < 0 || i >= s.len() {
        s.len() as int
    } else if white_space(s[i]) {
        lead(s, i + 1)
    } else {
        i
    }
}

/// The end of the text before position `n` without the whitespace at its end.
pub open spec fn trail(s: Text, n: int) -> int
    decreases n,
{
    if n <= 0 || n > s.len() {
        0
    } else if white_space(s[n - 1]) {
        trail(s, n - 1)
    } else {
        n
    }
}

/// The text without whitespace at its start and end.
pub open spec fn trimmed(s: Text) -> Text {
    let a = lead(s, 0);
    let b = trail(s, s.len() as int);
    if a < b {
        s.subrange(a, b)
    } else {
        Seq::empty()
    }
}

fn find_lead(s: &Vec<char>, from: usize) -> (r: usize)
    requires
        from <= s.len(),
    ensures
        r == lead(s@, from as int),
        from <= r <= s.len(),
{
    let mut i: usize = from;
    while i < s.len() && is_whitespace(s[i])
        invariant
            from <= i <= s.len(),
            lead(s@, from as int) == lead(s@, i as int),
        decreases s.len() - i,
    {
        i += 1;
    }
    i
}

fn find_trail(s: &Vec<char>) -> (r: usize)
    ensures
        r == trail(s@, s.len() as int),
        r <= s.len(),
{
    let mut n: usize = s.len();
    while n > 0 && is_whitespace(s[n - 1])
        invariant
            n <= s.len(),
            trail(s@, s.len() as int) == trail(s@, n as int),
        decreases n,
    {
        n -= 1;
    }
    n
}

fn nothing() -> (r: String)
    ensures
        r@ == Seq::<char>::empty(),
{
    let r = String::new();
    assert(r@ =~= Seq::<char>::empty());
    r
}

fn trim(s: &str) -> (r: String)
    ensures
        r@ == trimmed(s@),
{
    let v = chars_of(s);
    let a = find_lead(&v, 0);
    let b = find_trail(&v);
    if a < b {
        string_of(&v, a, b)
    } else {
        nothing()
    }
}

/// Whether `w` stands at position `i` of `s`.
pub open spec fn stands_at(s: Text, w: Text, i: int) -> bool {
    0 <= i && i + w.len() <= s.len() && s.subrange(i, i + w.len()) == w
}

/// Whether `w` stands somewhere in `s` from position `i` on.
pub open spec fn holds_from(s: Text, w: Text, i: int) -> bool
    decreases s.len() + 1 - i,
{
    if i < 0 || i > s.len() {
        false
    } else {
        stands_at(s, w, i) || holds_from(s, w, i + 1)
    }
}

/// Whether `kw` stands at position `i` as a whole word.
pub open spec fn keyword_at(s: Text, kw: Text, i: int) -> bool {
    stands_at(s, kw, i) && (i + kw.len() >= s.len() || !ident_char(s[i + kw.len()]))
}

fn is_at(s: &Vec<char>, w: &str, i: usize) -> (r: bool)
    requires
        i <= s.len(),
    ensures
        r == stands_at(s@, w@, i as int),
{
    let v = chars_of(w);
    if v.len() > s.len() - i {
        return false;
    }
    let mut k: usize = 0;
    while k < v.len()
        invariant
            k <= v.len(),
            v@ == w@,
            v.len() <= s.len() - i,
            i <= s.len(),
            forall|j: int| 0 <= j < k ==> s[i + j] == #[trigger] v[j],
        decreases v.len() - k,
    {
        if s[i + k] != v[k] {
            assert(s@.subrange(i as int, i + v.len())[k as int] != v@[k as int]);
            return false;
        }
        k += 1;
    }
    assert(s@.subrange(i as int, i + v.len()) =~= v@);
    true
}

fn holds(s: &str, w: &str) -> (r: bool)
    ensures
        r == holds_from(s@, w@, 0),
{
    let v = chars_of(s);
    let mut i: usize = 0;
    loop
        invariant
            i <= v.len(),
            v@ == s@,
            holds_from(s@, w@, 0) == holds_from(s@, w@, i as int),
        decreases v.len() - i,
    {
        if is_at(&v, w, i) {
            return true;
        }
        if i == v.len() {
            assert(!holds_from(s@, w@, i as int + 1));
            return false;
        }
        i += 1;
    }
}

fn is_keyword_at(s: &Vec<char>, kw: &str, i: usize) -> (r: bool)
    requires
        i <= s.len(),
    ensures
        r == keyword_at(s@, kw@, i as int),
{
    if !is_at(s, kw, i) {
        return false;
    }
    let n = chars_of(kw).len();
    n == s.len() - i || !is_ident_char(s[i + n])
}

// ---- input --------------------------------------------------------------

/// What kind of top-level item a definition is.
#[derive(Clone, Copy, Debug, PartialEq, Eq, Structural)]
pub enum DefKind {
    Fn,
    Struct,
    Enum,
}

/// The keyword of a kind of definition.
pub open spec fn keyword_of(k: DefKind) -> Text {
    match k {
        DefKind::Fn => "fn"@,
        DefKind::Struct => "struct"@,
        DefKind::Enum => "enum"@,
    }
}

impl DefKind {
    fn keyword(self) -> (r: &'static str)
        ensures
            r@ == keyword_of(self),
    {
        match self {
            DefKind::Fn => "fn",
            DefKind::Struct => "struct",
            DefKind::Enum => "enum",
        }
    }
}

/// How an input line is classified.
#[derive(Clone, Copy, Debug, PartialEq, Eq, Structural)]
pub enum Kind {
    Definition,
    Statement,
    Expression,
}

pub open spec fn described(k: Kind) -> Text {
    match k {
        Kind::Definition => "item"@,
        Kind::Statement => "statement"@,
        Kind::Expression => "expression"@,
    }
}

impl Kind {
    fn describe(self) -> (r: &'static str)
        ensures
            r@ == described(self),
    {
        match self {
            Kind::Definition => "item",
            Kind::Statement => "statement",
            Kind::Expression => "expression",
        }
    }
}

/// Whether an item begins at position `i`.
pub open spec fn item_at(s: Text, i: int) -> bool {
    keyword_at(s, "fn"@, i) || keyword_at(s, "struct"@, i) || keyword_at(s, "enum"@, i)
}

/// What kind of input a trimmed line is.
pub open spec fn kind_of(s: Text) -> Kind {
    if item_at(s, 0) {
        Kind::Definition
    } else if keyword_at(s, "let"@, 0) || keyword_at(s, "while"@, 0) || keyword_at(s, "for"@, 0)
        || keyword_at(s, "return"@, 0) || (s.len() > 0 && s[s.len() - 1] == ';') {
        Kind::Statement
    } else {
        Kind::Expression
    }
}

fn starts_item(s: &Vec<char>, i: usize) -> (r: bool)
    requires
        i <= s.len(),
    ensures
        r == item_at(s@, i as int),
{
    is_keyword_at(s, "fn", i) || is_keyword_at(s, "struct", i) || is_keyword_at(s, "enum", i)
}

fn classify(s: &str) -> (r: Kind)
    ensures
        r == kind_of(s@),
{
    let v = chars_of(s);
    if starts_item(&v, 0) {
        Kind::Definition
    } else if is_keyword_at(&v, "let", 0) || is_keyword_at(&v, "while", 0) || is_keyword_at(
        &v,
        "for",
        0,
    ) || is_keyword_at(&v, "return", 0) || (v.len() > 0 && v[v.len() - 1] == ';') {
        Kind::Statement
    } else {
        Kind::Expression
    }
}

/// The end of the word that begins at position `i`.
pub open spec fn word_end(s: Text, i: int) -> int
    decreases s.len() - i,
{
    if i < 0 || i >= s.len() {
        s.len() as int
    } else if ident_char(s[i]) {
        word_end(s, i + 1)
    } else {
        i
    }
}

/// The word behind the whitespace at position `i`, unless it is empty.
pub open spec fn word_behind(s: Text, i: int) -> Option<Text> {
    let a = lead(s, i);
    let b = word_end(s, a);
    if a < b {
        Some(s.subrange(a, b))
    } else {
        None
    }
}

/// The kind and the name of a definition.
pub open spec fn header(s: Text) -> Option<(DefKind, Text)> {
    let i = lead(s, 0);
    let found: Option<(DefKind, int)> = if stands_at(s, "fn"@, i) {
        Some((DefKind::Fn, i + 2))
    } else if stands_at(s, "struct"@, i) {
        Some((DefKind::Struct, i + 6))
    } else if stands_at(s, "enum"@, i) {
        Some((DefKind::Enum, i + 4))
    } else {
        None
    };
    match found {
        None => None,
        Some((kind, j)) => match word_behind(s, j) {
            None => None,
            Some(name) => Some((kind, name)),
        },
    }
}

fn find_word(s: &Vec<char>, from: usize) -> (r: Option<String>)
    requires
        from <= s.len(),
    ensures
        text::option_view(r) == word_behind(s@, from as int),
{
    let a = find_lead(s, from);
    let mut b: usize = a;
    while b < s.len() && is_ident_char(s[b])
        invariant
            a <= b <= s.len(),
            word_end(s@, a as int) == word_end(s@, b as int),
        decreases s.len() - b,
    {
        b += 1;
    }
    if a < b {
        Some(string_of(s, a, b))
    } else {
        None
    }
}

/// Extract the kind and the name from a definition's header.
fn parse_def_header(s: &str) -> (r: Option<(DefKind, String)>)
    ensures
        match r {
            Some((k, n)) => header(s@) == Some((k, n@)),
            None => header(s@) is None,
        },
{
    let v = chars_of(s);
    let i = find_lead(&v, 0);
    proof {
        reveal_strlit("fn");
        reveal_strlit("struct");
        reveal_strlit("enum");
    }
    let (kind, j): (DefKind, usize) = if is_at(&v, "fn", i) {
        (DefKind::Fn, i + 2)
    } else if is_at(&v, "struct", i) {
        (DefKind::Struct, i + 6)
    } else if is_at(&v, "enum", i) {
        (DefKind::Enum, i + 4)
    } else {
        return None;
    };
    match find_word(&v, j) {
        Some(name) => Some((kind, name)),
        None => None,
    }
}

/// The end of the line that holds position `i`.
pub open spec fn line_end(s: Text, i: int) -> int
    decreases s.len() - i,
{
    if i < 0 || i >= s.len() {
        s.len() as int
    } else if s[i] == '\n' {
        i
    } else {
        line_end(s, i + 1)
    }
}

pub proof fn lemma_line_end(s: Text, i: int)
    requires
        0 <= i <= s.len(),
    ensures
        i <= line_end(s, i) <= s.len(),
        i < s.len() && s[i] != '\n' ==> i < line_end(s, i),
    decreases s.len() - i,
{
    if i < s.len() && s[i] != '\n' {
        lemma_line_end(s, i + 1);
    }
}

/// The items of a source text from position `i` on, behind the items `acc`, at the
/// given depth of braces, where the item that began at `start` is not finished.
/// Comments are skipped.
pub open spec fn items_from(
    s: Text,
    i: int,
    depth: nat,
    start: Option<int>,
    acc: Seq<Text>,
) -> Result<Seq<Text>, Text>
    decreases s.len() - i,
{
    if i < 0 || i >= s.len() {
        if depth != 0 {
            Err("unbalanced braces while loading file"@)
        } else {
            Ok(acc)
        }
    } else if s[i] == '/' && i + 1 < s.len() && s[i + 1] == '/' {
        proof {
            lemma_line_end(s, i);
        }
        items_from(s, line_end(s, i), depth, start, acc)
    } else if s[i] == '{' {
        items_from(s, i + 1, depth + 1, start, acc)
    } else if s[i] == '}' {
        if depth == 0 {
            Err("unbalanced `}` while loading file"@)
        } else if depth == 1 {
            match start {
                Some(a) => items_from(
                    s,
                    i + 1,
                    0,
                    None,
                    acc.push(trimmed(s.subrange(a, i + 1))),
                ),
                None => items_from(s, i + 1, 0, None, acc),
            }
        } else {
            items_from(s, i + 1, (depth - 1) as nat, start, acc)
        }
    } else if depth == 0 && start is None && item_at(s, i) {
        items_from(s, i + 1, depth, Some(i), acc)
    } else {
        items_from(s, i + 1, depth, start, acc)
    }
}

/// The texts of a file's items, by view.
pub open spec fn split_view(r: Result<Vec<String>, String>) -> Result<Seq<Text>, Text> {
    match r {
        Ok(v) => Ok(text::texts(v@)),
        Err(e) => Err(e@),
    }
}

/// Split a source file into its top-level item texts by tracking brace depth. Each
/// item runs from a top-level `fn`/`struct`/`enum` keyword up to the matching close
/// of its outermost `{...}` block.
pub fn split_items(src: &str) -> (r: Result<Vec<String>, String>)
    ensures
        split_view(r) == items_from(src@, 0, 0, None, Seq::empty()),
{
    let s = chars_of(src);
    let mut out: Vec<String> = Vec::new();
    assert(text::texts(out@) =~= Seq::<Text>::empty());
    let mut depth: usize = 0;
    let mut start: Option<usize> = None;
    let mut i: usize = 0;
    while i < s.len()
        invariant
            s@ == src@,
            i <= s.len(),
            depth <= i,
            start matches Some(a) ==> a < i,
            items_from(src@, 0, 0, None, Seq::empty()) == items_from(
                src@,
                i as int,
                depth as nat,
                match start {
                    Some(a) => Some(a as int),
                    None => None,
                },
                text::texts(out@),
            ),
        decreases s.len() - i,
    {
        let c = s[i];
        if c == '/' && i + 1 < s.len() && s[i + 1] == '/' {
            proof {
                lemma_line_end(s@, i as int);
            }
            let ghost at = i as int;
            while i < s.len() && s[i] != '\n'
                invariant
                    at <= i <= s.len(),
                    line_end(s@, at) == line_end(s@, i as int),
                decreases s.len() - i,
            {
                i += 1;
            }
            continue;
        }
        if c == '{' {
            depth += 1;
        } else if c == '}' {
            if depth == 0 {
                return Err("unbalanced `}` while loading file".to_string());
            }
            depth -= 1;
            if depth == 0 {
                if let Some(a) = start {
                    let t = string_of(&s, a, i + 1);
                    out.push(trim(t.as_str()));
                }
                start = None;
            }
        } else if depth == 0 && start.is_none() && starts_item(&s, i) {
            start = Some(i);
        }
        i += 1;
    }
    if depth != 0 {
        return Err("unbalanced braces while loading file".to_string());
    }
    Ok(out)
}

// ---- the session --------------------------------------------------------

/// The result of feeding one line/block to the [`Session`].
#[derive(Clone, Debug, PartialEq, Eq)]
pub enum Outcome {
    /// An expression evaluated to a printable value (the rendered text).
    Value(String),
    /// One or more `print` lines were produced.
    Output(Vec<String>),
    /// A definition was added or replaced; carries its name.
    Defined(String),
    /// The input did nothing observable.
    Empty,
    /// Something went wrong; carries a human-readable (rendered) message.
    Error(String),
    /// A textual message to show the user.
    Message(String),
    /// The user asked to load the file at this path: read it and hand it to
    /// [`Session::load_text`].
    Load(String),
    /// The user asked to quit.
    Quit,
}

/// An [`Outcome`] as a mathematical object.
pub enum ROutcome {
    Value(Text),
    Output(Seq<Text>),
    Defined(Text),
    Empty,
    Error(Text),
    Message(Text),
    Load(Text),
    Quit,
}

impl View for Outcome {
    type V = ROutcome;

    open spec fn view(&self) -> ROutcome {
        match *self {
            Outcome::Value(t) => ROutcome::Value(t@),
            Outcome::Output(ts) => ROutcome::Output(text::texts(ts@)),
            Outcome::Defined(t) => ROutcome::Defined(t@),
            Outcome::Empty => ROutcome::Empty,
            Outcome::Error(t) => ROutcome::Error(t@),
            Outcome::Message(t) => ROutcome::Message(t@),
            Outcome::Load(t) => ROutcome::Load(t@),
            Outcome::Quit => ROutcome::Quit,
        }
    }
}

/// A stored definition: its kind, name, and source text.
pub struct RDef {
    pub kind: DefKind,
    pub name: Text,
    pub text: Text,
}

/// A session as a mathematical object.
#[verifier::ext_equal]
pub struct RSession {
    pub defs: Seq<RDef>,
    pub stmts: Seq<Text>,
}

/// The definitions from position `i` on, a line behind each.
pub open spec fn def_lines(defs: Seq<RDef>, i: int) -> Text
    decreases defs.len() - i,
{
    if i < 0 || i >= defs.len() {
        Seq::empty()
    } else {
        defs[i].text + "\n"@ + def_lines(defs, i + 1)
    }
}

/// The lines from position `i` on, indented.
pub open spec fn indented(lines: Seq<Text>, i: int, pad: Text) -> Text
    decreases lines.len() - i,
{
    if i < 0 || i >= lines.len() {
        Seq::empty()
    } else {
        pad + lines[i] + "\n"@ + indented(lines, i + 1, pad)
    }
}

/// The name of the entry function.
pub open spec fn entry_name() -> Text {
    "__repl_entry"@
}

/// The program of a session: every definition, then an entry function that replays
/// all statements and a trailing line.
pub open spec fn synthesized(s: RSession, trailer: Option<Text>) -> Text {
    def_lines(s.defs, 0) + "fn __repl_entry() {\n"@ + indented(s.stmts, 0, "    "@) + (
    match trailer {
        Some(t) => "    "@ + t + "\n"@,
        None => Seq::empty(),
    }) + "}\n"@
}

/// Diagnostics as they are shown for a source text.
pub open spec fn shown(ds: Seq<Diag>, src: Text) -> Text {
    text::join_texts(Seq::new(ds.len(), |i: int| ds[i].rendered(src)), "\n\n"@)
}

/// What is wrong with a program, as it is shown.
pub open spec fn complaint(src: Text) -> Option<Text> {
    match crate::compiled(src) {
        Ok(_) => None,
        Err(ds) => Some(shown(ds, src)),
    }
}

/// What running a program's entry function gives: the printed lines, or an error
/// with the message that is shown.
pub enum RRun {
    Lines(Seq<Text>),
    Compile(Text),
    Runtime(Text),
}

pub open spec fn entry_run(src: Text) -> RRun {
    match crate::compiled(src) {
        Err(ds) => RRun::Compile(shown(ds, src)),
        Ok(m) => {
            let (x, s) = semantics::call_func(
                m,
                interp::ALLOWANCE as nat,
                entry_name(),
                Seq::empty(),
                hotreload::fresh_memory(),
            );
            match semantics::settled(x) {
                Ok(_) => RRun::Lines(s.out),
                Err(d) => RRun::Runtime(d.rendered(src)),
            }
        },
    }
}

pub open spec fn value_outcome(lines: Seq<Text>) -> ROutcome {
    if lines.len() == 0 {
        ROutcome::Empty
    } else if lines.len() == 1 {
        ROutcome::Value(lines[0])
    } else {
        ROutcome::Output(lines)
    }
}

pub open spec fn effect_outcome(r: RRun) -> ROutcome {
    match r {
        RRun::Lines(lines) => if lines.len() == 0 {
            ROutcome::Empty
        } else {
            ROutcome::Output(lines)
        },
        RRun::Compile(m) => ROutcome::Error(m),
        RRun::Runtime(m) => ROutcome::Error(m),
    }
}

/// The value of an expression, or, where it has none to print, what its evaluation
/// printed.
pub open spec fn expression_outcome(s: RSession, expr: Text) -> ROutcome {
    match entry_run(synthesized(s, Some("print("@ + expr + ");"@))) {
        RRun::Lines(lines) => value_outcome(lines),
        RRun::Runtime(m) => ROutcome::Error(m),
        RRun::Compile(m) => if holds_from(m, "cannot print a value of type `()`"@, 0) {
            effect_outcome(entry_run(synthesized(s, Some(expr + ";"@))))
        } else {
            ROutcome::Error(m)
        },
    }
}

/// The definitions from position `i` on that are not called `name`.
pub open spec fn without(defs: Seq<RDef>, name: Text, i: int) -> Seq<RDef>
    decreases defs.len() - i,
{
    if i < 0 || i >= defs.len() {
        Seq::empty()
    } else if defs[i].name == name {
        without(defs, name, i + 1)
    } else {
        seq![defs[i]] + without(defs, name, i + 1)
    }
}

/// The session with a definition that replaces those of the same name.
pub open spec fn with_def(s: RSession, d: RDef) -> RSession {
    RSession { defs: without(s.defs, d.name, 0).push(d), stmts: s.stmts }
}

/// The session with the definition `t` installed, and its name.
pub open spec fn installed(s: RSession, t: Text) -> Result<(Text, RSession), Text> {
    match header(t) {
        None => Err(
            "could not determine the name of this "@ + described(kind_of(t)) + " definition"@,
        ),
        Some((kind, name)) => Ok((name, with_def(s, RDef { kind, name, text: t }))),
    }
}

/// What a definition gives. The session changes only if the program it then makes
/// compiles.
pub open spec fn defined(s: RSession, t: Text) -> (ROutcome, RSession) {
    match installed(s, t) {
        Err(m) => (ROutcome::Error(m), s),
        Ok((name, next)) => match complaint(synthesized(next, None)) {
            None => (ROutcome::Defined(name), next),
            Some(m) => (ROutcome::Error(m), s),
        },
    }
}

/// What a statement gives. The session changes only if the program it then makes
/// compiles.
pub open spec fn stated(s: RSession, t: Text) -> (ROutcome, RSession) {
    let next = RSession { defs: s.defs, stmts: s.stmts.push(t) };
    match complaint(synthesized(next, None)) {
        None => (ROutcome::Empty, next),
        Some(m) => (ROutcome::Error(m), s),
    }
}

/// The lines that list the definitions from position `i` on.
pub open spec fn listed_defs(defs: Seq<RDef>, i: int) -> Text
    decreases defs.len() - i,
{
    if i < 0 || i >= defs.len() {
        Seq::empty()
    } else {
        "  "@ + keyword_of(defs[i].kind) + " "@ + defs[i].name + "\n"@ + listed_defs(defs, i + 1)
    }
}

/// The list of a session's definitions and statements.
pub open spec fn listing(s: RSession) -> Text {
    if s.defs.len() == 0 && s.stmts.len() == 0 {
        "(session is empty)"@
    } else {
        let t = (if s.defs.len() > 0 {
            "definitions:\n"@ + listed_defs(s.defs, 0)
        } else {
            Seq::empty()
        }) + (if s.stmts.len() > 0 {
            "statements:\n"@ + indented(s.stmts, 0, "  "@)
        } else {
            Seq::empty()
        });
        t.subrange(0, trail(t, t.len() as int))
    }
}

/// The end of what stands before the first whitespace from position `i` on.
pub open spec fn before_space(s: Text, i: int) -> int
    decreases s.len() - i,
{
    if i < 0 || i >= s.len() {
        s.len() as int
    } else if white_space(s[i]) {
        i
    } else {
        before_space(s, i + 1)
    }
}

/// The name of a command and its argument.
pub open spec fn split_command(s: Text) -> (Text, Text) {
    let k = before_space(s, 0);
    (
        s.subrange(0, k),
        if k < s.len() {
            trimmed(s.subrange(k + 1, s.len() as int))
        } else {
            Seq::empty()
        },
    )
}

pub open spec fn help_text() -> Text {
    "Rune REPL commands:\n  :help            show this help\n  :list            list current definitions and statements\n  :load <file>     load items from a .rune file into the session\n  :reset           clear the session\n  :quit            exit the REPL (also Ctrl-D)\n\nEnter `fn`/`struct`/`enum` to define items, `let`/assignments/`stmt;` to add\nstatements, or any expression to evaluate and print it."@
}

pub open spec fn empty_session() -> RSession {
    RSession { defs: Seq::empty(), stmts: Seq::empty() }
}

/// What a command gives.
pub open spec fn commanded(s: RSession, cmd: Text) -> (ROutcome, RSession) {
    let (name, arg) = split_command(cmd);
    if name == "help"@ || name == "h"@ || name == "?"@ {
        (ROutcome::Message(help_text()), s)
    } else if name == "quit"@ || name == "q"@ || name == "exit"@ {
        (ROutcome::Quit, s)
    } else if name == "list"@ || name == "l"@ {
        (ROutcome::Message(listing(s)), s)
    } else if name == "reset"@ {
        (ROutcome::Message("session reset"@), empty_session())
    } else if name == "load"@ {
        if arg.len() == 0 {
            (ROutcome::Error("usage: :load <file>"@), s)
        } else {
            (ROutcome::Load(arg), s)
        }
    } else {
        (ROutcome::Error("unknown command `:"@ + name + "` (try `:help`)"@), s)
    }
}

/// What a line of input gives.
pub open spec fn evaluated(s: RSession, input: Text) -> (ROutcome, RSession) {
    let t = trimmed(input);
    if t.len() == 0 {
        (ROutcome::Empty, s)
    } else if t[0] == ':' {
        commanded(s, trimmed(t.subrange(1, t.len() as int)))
    } else {
        match kind_of(t) {
            Kind::Definition => defined(s, t),
            Kind::Statement => stated(s, t),
            Kind::Expression => (expression_outcome(s, t), s),
        }
    }
}

/// The session with the definitions from position `i` on installed, and the names
/// behind `names`.
pub open spec fn all_installed(s: RSession, items: Seq<Text>, i: int, names: Seq<Text>) -> Result<
    (Seq<Text>, RSession),
    Text,
>
    decreases items.len() - i,
{
    if i < 0 || i >= items.len() {
        Ok((names, s))
    } else {
        match installed(s, items[i]) {
            Err(m) => Err(m),
            Ok((n, s1)) => all_installed(s1, items, i + 1, names.push(n)),
        }
    }
}

/// What loading the file at `path` gives. The file must compile on its own, and the
/// session must compile with all of its items: they are installed together or not at
/// all.
pub open spec fn loaded(s: RSession, path: Text, src: SSource) -> (ROutcome, RSession) {
    match src {
        SSource::Unreadable(reason) => (
            ROutcome::Error("cannot read `"@ + path + "`: "@ + reason),
            s,
        ),
        SSource::Text(t) => match complaint(t) {
            Some(m) => (ROutcome::Error(m), s),
            None => match items_from(t, 0, 0, None, Seq::empty()) {
                Err(m) => (ROutcome::Error(m), s),
                Ok(items) => match all_installed(s, items, 0, Seq::empty()) {
                    Err(m) => (ROutcome::Error(m), s),
                    Ok((names, next)) => if names.len() == 0 {
                        (ROutcome::Message("loaded `"@ + path + "` (no items)"@), s)
                    } else {
                        match complaint(synthesized(next, None)) {
                            Some(m) => (ROutcome::Error(m), s),
                            None => (
                                ROutcome::Message(
                                    "loaded "@ + path + ": "@ + text::join_texts(names, ", "@),
                                ),
                                next,
                            ),
                        }
                    },
                },
            },
        },
    }
}

/// A stored definition.
#[derive(Clone, Debug)]
struct Def {
    kind: DefKind,
    name: String,
    text: String,
}

impl View for Def {
    type V = RDef;

    closed spec fn view(&self) -> RDef {
        RDef { kind: self.kind, name: self.name@, text: self.text@ }
    }
}

impl Def {
    fn dup(&self) -> (r: Def)
        ensures
            r@ == self@,
    {
        Def { kind: self.kind, name: self.name.clone(), text: self.text.clone() }
    }
}

/// An interactive session: accumulated definitions and statements.
#[derive(Debug)]
pub struct Session {
    defs: Vec<Def>,
    stmts: Vec<String>,
}

impl View for Session {
    type V = RSession;

    closed spec fn view(&self) -> RSession {
        RSession { defs: model::views(self.defs@), stmts: text::texts(self.stmts@) }
    }
}

/// What running a program's entry function gives.
enum Run {
    Lines(Vec<String>),
    Compile(String),
    Runtime(String),
}

impl View for Run {
    type V = RRun;

    closed spec fn view(&self) -> RRun {
        match *self {
            Run::Lines(v) => RRun::Lines(text::texts(v@)),
            Run::Compile(m) => RRun::Compile(m@),
            Run::Runtime(m) => RRun::Runtime(m@),
        }
    }
}

/// Render a batch of diagnostics against the source they came from.
fn render_diags(ds: &Vec<Diagnostic>, src: &str) -> (r: String)
    ensures
        r@ == shown(model::views(ds@), src@),
{
    let mut lines: Vec<String> = Vec::new();
    let mut i: usize = 0;
    while i < ds.len()
        invariant
            i <= ds.len(),
            lines.len() == i,
            forall|j: int| 0 <= j < i ==> #[trigger] lines[j]@ == ds[j]@.rendered(src@),
        decreases ds.len() - i,
    {
        lines.push(ds[i].render(src));
        i += 1;
    }
    let ghost ms = model::views(ds@);
    assert(text::texts(lines@) =~= Seq::new(ms.len(), |i: int| ms[i].rendered(src@)));
    join(&lines, "\n\n")
}

/// Compile a program for validation only, rendering any diagnostics.
fn compile_or_render(src: &str) -> (r: Option<String>)
    ensures
        text::option_view(r) == complaint(src@),
{
    match compile(src) {
        Ok(_) => None,
        Err(ds) => Some(render_diags(&ds, src)),
    }
}

/// Compile and run the synthesized entry function.
fn run_entry(src: &str) -> (r: Run)
    ensures
        r@ == entry_run(src@),
{
    let module = match compile(src) {
        Ok(m) => m,
        Err(ds) => {
            return Run::Compile(render_diags(&ds, src));
        },
    };
    let mut interp = Interpreter::new(module);
    let args: Vec<Value> = Vec::new();
    assert(value::values_of(args@) =~= Seq::<VVal>::empty());
    match interp.call("__repl_entry", args) {
        Ok(_) => Run::Lines(interp.take_output()),
        Err(d) => Run::Runtime(d.render(src)),
    }
}

fn indent(lines: &Vec<String>, pad: &str) -> (r: String)
    ensures
        r@ == indented(text::texts(lines@), 0, pad@),
{
    let ghost ms = text::texts(lines@);
    let mut out = nothing();
    let mut i: usize = 0;
    assert(out@ + indented(ms, 0, pad@) =~= indented(ms, 0, pad@));
    while i < lines.len()
        invariant
            i <= lines.len(),
            ms == text::texts(lines@),
            indented(ms, 0, pad@) == out@ + indented(ms, i as int, pad@),
        decreases lines.len() - i,
    {
        assert(ms[i as int] == lines[i as int]@);
        let line = cat3(pad, lines[i].as_str(), "\n");
        let ghost rest = indented(ms, i as int + 1, pad@);
        let next = cat2(out.as_str(), line.as_str());
        assert(out@ + (line@ + rest) =~= next@ + rest);
        out = next;
        i += 1;
    }
    assert(out@ + Seq::<char>::empty() =~= out@);
    out
}

impl Default for Session {
    fn default() -> (r: Session)
        ensures
            r@ == empty_session(),
    {
        let r = Session { defs: Vec::new(), stmts: Vec::new() };
        assert(r@ =~= empty_session()) by {
            assert(model::views(r.defs@) =~= Seq::<RDef>::empty());
            assert(text::texts(r.stmts@) =~= Seq::<Text>::empty());
        }
        r
    }
}

impl Session {
    /// A session without definitions and statements.
    pub fn new() -> (r: Session)
        ensures
            r@ == empty_session(),
    {
        Session::default()
    }

    /// Feed one line (or block) of input; returns what to display.
    pub fn eval_line(&mut self, input: &str) -> (r: Outcome)
        ensures
            (r@, final(self)@) == evaluated(old(self)@, input@),
    {
        let t = trim(input);
        let v = chars_of(t.as_str());
        if v.len() == 0 {
            return Outcome::Empty;
        }
        if v[0] == ':' {
            let rest = string_of(&v, 1, v.len());
            let cmd = trim(rest.as_str());
            return self.run_command(&cmd);
        }
        match classify(t.as_str()) {
            Kind::Definition => self.add_definition(&t),
            Kind::Statement => self.add_statement(&t),
            Kind::Expression => self.eval_expression(&t),
        }
    }

    /// Current definition names, in definition order.
    pub fn definition_names(&self) -> (r: Vec<String>)
        ensures
            text::texts(r@) == self@.defs.map_values(|d: RDef| d.name),
    {
        let mut out: Vec<String> = Vec::new();
        let mut i: usize = 0;
        while i < self.defs.len()
            invariant
                i <= self.defs.len(),
                out.len() == i,
                forall|j: int| 0 <= j < i ==> #[trigger] out[j]@ == self.defs[j].name@,
            decreases self.defs.len() - i,
        {
            out.push(self.defs[i].name.clone());
            i += 1;
        }
        assert(text::texts(out@) =~= self@.defs.map_values(|d: RDef| d.name));
        out
    }

    /// Clear all definitions and statements.
    pub fn reset(&mut self)
        ensures
            final(self)@ == empty_session(),
    {
        self.defs = Vec::new();
        self.stmts = Vec::new();
        assert(model::views(self.defs@) =~= Seq::<RDef>::empty());
        assert(text::texts(self.stmts@) =~= Seq::<Text>::empty());
    }

    fn run_command(&mut self, cmd: &String) -> (r: Outcome)
        ensures
            (r@, final(self)@) == commanded(old(self)@, cmd@),
    {
        let v = chars_of(cmd.as_str());
        let mut k: usize = 0;
        while k < v.len() && !is_whitespace(v[k])
            invariant
                k <= v.len(),
                v@ == cmd@,
                before_space(cmd@, 0) == before_space(cmd@, k as int),
            decreases v.len() - k,
        {
            k += 1;
        }
        let name = string_of(&v, 0, k);
        let arg = if k < v.len() {
            let rest = string_of(&v, k + 1, v.len());
            trim(rest.as_str())
        } else {
            nothing()
        };
        let n = name.as_str();
        if str_eq(n, "help") || str_eq(n, "h") || str_eq(n, "?") {
            return Outcome::Message(
                "Rune REPL commands:\n  :help            show this help\n  :list            list current definitions and statements\n  :load <file>     load items from a .rune file into the session\n  :reset           clear the session\n  :quit            exit the REPL (also Ctrl-D)\n\nEnter `fn`/`struct`/`enum` to define items, `let`/assignments/`stmt;` to add\nstatements, or any expression to evaluate and print it.".to_string(),
            );
        }
        if str_eq(n, "quit") || str_eq(n, "q") || str_eq(n, "exit") {
            return Outcome::Quit;
        }
        if str_eq(n, "list") || str_eq(n, "l") {
            return Outcome::Message(self.render_list());
        }
        if str_eq(n, "reset") {
            self.reset();
            return Outcome::Message("session reset".to_string());
        }
        if str_eq(n, "load") {
            if chars_of(arg.as_str()).len() == 0 {
                return Outcome::Error("usage: :load <file>".to_string());
            }
            return Outcome::Load(arg);
        }
        Outcome::Error(cat3("unknown command `:", n, "` (try `:help`)"))
    }

    fn render_list(&self) -> (r: String)
        ensures
            r@ == listing(self@),
    {
        if self.defs.len() == 0 && self.stmts.len() == 0 {
            return "(session is empty)".to_string();
        }
        let ghost ms = self@.defs;
        let mut defs = nothing();
        if self.defs.len() > 0 {
            let mut out = nothing();
            let mut i: usize = 0;
            assert(out@ + listed_defs(ms, 0) =~= listed_defs(ms, 0));
            while i < self.defs.len()
                invariant
                    i <= self.defs.len(),
                    ms == model::views(self.defs@),
                    listed_defs(ms, 0) == out@ + listed_defs(ms, i as int),
                decreases self.defs.len() - i,
            {
                let d = &self.defs[i];
                assert(ms[i as int] == d@);
                let line = cat5("  ", d.kind.keyword(), " ", d.name.as_str(), "\n");
                let ghost rest = listed_defs(ms, i as int + 1);
                let next = cat2(out.as_str(), line.as_str());
                assert(out@ + (line@ + rest) =~= next@ + rest);
                out = next;
                i += 1;
            }
            assert(out@ + Seq::<char>::empty() =~= out@);
            defs = cat2("definitions:\n", out.as_str());
        }
        let mut stmts = nothing();
        if self.stmts.len() > 0 {
            let lines = indent(&self.stmts, "  ");
            stmts = cat2("statements:\n", lines.as_str());
        }
        let whole = cat2(defs.as_str(), stmts.as_str());
        let v = chars_of(whole.as_str());
        let n = find_trail(&v);
        string_of(&v, 0, n)
    }

    /// The program of the session.
    fn synthesize(&self, trailer: Option<&str>) -> (r: String)
        ensures
            r@ == synthesized(
                self@,
                match trailer {
                    Some(t) => Some(t@),
                    None => None,
                },
            ),
    {
        let ghost ms = self@.defs;
        let mut out = nothing();
        let mut i: usize = 0;
        assert(out@ + def_lines(ms, 0) =~= def_lines(ms, 0));
        while i < self.defs.len()
            invariant
                i <= self.defs.len(),
                ms == model::views(self.defs@),
                def_lines(ms, 0) == out@ + def_lines(ms, i as int),
            decreases self.defs.len() - i,
        {
            assert(ms[i as int] == self.defs[i as int]@);
            let line = cat2(self.defs[i].text.as_str(), "\n");
            let ghost rest = def_lines(ms, i as int + 1);
            let next = cat2(out.as_str(), line.as_str());
            assert(out@ + (line@ + rest) =~= next@ + rest);
            out = next;
            i += 1;
        }
        assert(out@ + Seq::<char>::empty() =~= out@);
        let stmts = indent(&self.stmts, "    ");
        let last = match trailer {
            Some(t) => cat3("    ", t, "\n"),
            None => nothing(),
        };
        cat5(out.as_str(), "fn __repl_entry() {\n", stmts.as_str(), last.as_str(), "}\n")
    }

    /// Install a definition in place of those of the same name; gives its name.
    fn install(&mut self, t: &String) -> (r: Result<String, String>)
        ensures
            match r {
                Ok(n) => installed(old(self)@, t@) == Ok::<(Text, RSession), Text>(
                    (n@, final(self)@),
                ),
                Err(m) => installed(old(self)@, t@) == Err::<(Text, RSession), Text>(m@)
                    && final(self)@ == old(self)@,
            },
    {
        let (kind, name) = match parse_def_header(t.as_str()) {
            Some(h) => h,
            None => {
                return Err(
                    cat3(
                        "could not determine the name of this ",
                        classify(t.as_str()).describe(),
                        " definition",
                    ),
                );
            },
        };
        let ghost before = self@;
        let ghost ms = model::views(self.defs@);
        let mut next: Vec<Def> = Vec::new();
        let mut i: usize = 0;
        assert(model::views(next@) + without(ms, name@, 0) =~= without(ms, name@, 0));
        while i < self.defs.len()
            invariant
                i <= self.defs.len(),
                self@ == before,
                ms == model::views(self.defs@),
                without(ms, name@, 0) == model::views(next@) + without(ms, name@, i as int),
            decreases self.defs.len() - i,
        {
            assert(ms[i as int] == self.defs[i as int]@);
            let ghost kept = model::views(next@);
            let ghost rest = without(ms, name@, i as int + 1);
            if !str_eq(self.defs[i].name.as_str(), name.as_str()) {
                next.push(self.defs[i].dup());
                assert(kept + (seq![ms[i as int]] + rest) =~= model::views(next@) + rest);
            }
            i += 1;
        }
        assert(model::views(next@) + Seq::<RDef>::empty() =~= model::views(next@));
        next.push(Def { kind, name: name.clone(), text: t.clone() });
        self.defs = next;
        assert(self@ == with_def(before, RDef { kind, name: name@, text: t@ }));
        Ok(name)
    }

    /// A copy of the definitions, to go back to.
    fn snapshot(&self) -> (r: Vec<Def>)
        ensures
            model::views(r@) == self@.defs,
    {
        let mut out: Vec<Def> = Vec::new();
        let mut i: usize = 0;
        while i < self.defs.len()
            invariant
                i <= self.defs.len(),
                out.len() == i,
                forall|k: int| 0 <= k < i ==> #[trigger] out[k]@ == self.defs[k]@,
            decreases self.defs.len() - i,
        {
            out.push(self.defs[i].dup());
            i += 1;
        }
        assert(model::views(out@) =~= model::views(self.defs@));
        out
    }

    fn add_definition(&mut self, t: &String) -> (r: Outcome)
        ensures
            (r@, final(self)@) == defined(old(self)@, t@),
    {
        let ghost before = self@;
        let saved = self.snapshot();
        let name = match self.install(t) {
            Ok(n) => n,
            Err(m) => {
                return Outcome::Error(m);
            },
        };
        let src = self.synthesize(None);
        match compile_or_render(src.as_str()) {
            None => Outcome::Defined(name),
            Some(m) => {
                self.defs = saved;
                assert(self@ == before);
                Outcome::Error(m)
            },
        }
    }

    fn add_statement(&mut self, t: &String) -> (r: Outcome)
        ensures
            (r@, final(self)@) == stated(old(self)@, t@),
    {
        let ghost before = self@;
        self.stmts.push(t.clone());
        assert(self@ == (RSession { defs: before.defs, stmts: before.stmts.push(t@) }));
        let src = self.synthesize(None);
        match compile_or_render(src.as_str()) {
            None => Outcome::Empty,
            Some(m) => {
                let _ = self.stmts.pop();
                assert(text::texts(self.stmts@) =~= before.stmts);
                assert(self@ == before);
                Outcome::Error(m)
            },
        }
    }

    fn eval_expression(&mut self, expr: &String) -> (r: Outcome)
        ensures
            r@ == expression_outcome(old(self)@, expr@),
            final(self)@ == old(self)@,
    {
        let line = cat3("print(", expr.as_str(), ");");
        let printed = self.synthesize(Some(line.as_str()));
        match run_entry(printed.as_str()) {
            Run::Lines(lines) => {
                let mut lines = lines;
                if lines.len() == 0 {
                    Outcome::Empty
                } else if lines.len() == 1 {
                    assert(text::texts(lines@)[0] == lines[0]@);
                    Outcome::Value(lines.swap_remove(0))
                } else {
                    Outcome::Output(lines)
                }
            },
            Run::Runtime(m) => Outcome::Error(m),
            Run::Compile(m) => {
                if !holds(m.as_str(), "cannot print a value of type `()`") {
                    return Outcome::Error(m);
                }
                let line = cat2(expr.as_str(), ";");
                let effect = self.synthesize(Some(line.as_str()));
                match run_entry(effect.as_str()) {
                    Run::Lines(lines) => if lines.len() == 0 {
                        Outcome::Empty
                    } else {
                        Outcome::Output(lines)
                    },
                    Run::Compile(m) => Outcome::Error(m),
                    Run::Runtime(m) => Outcome::Error(m),
                }
            },
        }
    }

    /// Feed the top-level items of the file at `path` into the session, all or none.
    pub fn load_text(&mut self, path: &str, src: &Source) -> (r: Outcome)
        ensures
            (r@, final(self)@) == loaded(old(self)@, path@, src@),
    {
        let t = match src {
            Source::Unreadable(reason) => {
                return Outcome::Error(cat4("cannot read `", path, "`: ", reason.as_str()));
            },
            Source::Text(t) => t,
        };
        if let Some(m) = compile_or_render(t.as_str()) {
            return Outcome::Error(m);
        }
        let items = match split_items(t.as_str()) {
            Ok(items) => items,
            Err(m) => {
                return Outcome::Error(m);
            },
        };
        let ghost s0 = self@;
        let ghost ms = text::texts(items@);
        let ghost whole = all_installed(s0, ms, 0, Seq::empty());
        let saved = self.snapshot();
        let mut names: Vec<String> = Vec::new();
        assert(text::texts(names@) =~= Seq::<Text>::empty());
        let mut i: usize = 0;
        while i < items.len()
            invariant
                i <= items.len(),
                names.len() == i,
                s0 == old(self)@,
                self@.stmts == s0.stmts,
                model::views(saved@) == s0.defs,
                src@ == SSource::Text(t@),
                complaint(t@) is None,
                ms == text::texts(items@),
                items_from(t@, 0, 0, None, Seq::empty()) == Ok::<Seq<Text>, Text>(ms),
                whole == all_installed(s0, ms, 0, Seq::empty()),
                whole == all_installed(self@, ms, i as int, text::texts(names@)),
            decreases items.len() - i,
        {
            assert(ms[i as int] == items[i as int]@);
            match self.install(&items[i]) {
                Ok(n) => {
                    names.push(n);
                },
                Err(m) => {
                    self.defs = saved;
                    assert(self@ == s0);
                    return Outcome::Error(m);
                },
            }
            i += 1;
        }
        if names.len() == 0 {
            self.defs = saved;
            assert(self@ == s0);
            return Outcome::Message(cat3("loaded `", path, "` (no items)"));
        }
        let program = self.synthesize(None);
        match compile_or_render(program.as_str()) {
            Some(m) => {
                self.defs = saved;
                assert(self@ == s0);
                Outcome::Error(m)
            },
            None => {
                let list = join(&names, ", ");
                Outcome::Message(cat4("loaded ", path, ": ", list.as_str()))
            },
        }
    }
}

// ---- laws ---------------------------------------------------------------

/// Input that ends in an error leaves the session as it was.
pub proof fn law_error_changes_nothing(s: RSession, input: Text)
    ensures
        evaluated(s, input).0 is Error ==> evaluated(s, input).1 == s,
{
}

/// A file that cannot be loaded leaves the session as it was.
pub proof fn law_failed_load_changes_nothing(s: RSession, path: Text, src: SSource)
    ensures
        loaded(s, path, src).0 is Error ==> loaded(s, path, src).1 == s,
{
}

/// After a definition its name stands once, in the last place, and the other
/// definitions keep their places.
pub proof fn law_redefinition_replaces(s: RSession, t: Text)
    ensures
        defined(s, t) matches (ROutcome::Defined(n), s1) ==> {
            &&& s1.defs.len() > 0
            &&& s1.defs.last().name == n
            &&& s1.defs.last().text == t
            &&& s1.defs.drop_last() == without(s.defs, n, 0)
            &&& s1.stmts == s.stmts
            &&& forall|i: int| 0 <= i < s1.defs.len() - 1 ==> (#[trigger] s1.defs[i]).name != n
        },
{
    if let (ROutcome::Defined(n), s1) = defined(s, t) {
        lemma_without(s.defs, n, 0);
        assert(s1.defs.drop_last() =~= without(s.defs, n, 0));
        assert forall|i: int| 0 <= i < s1.defs.len() - 1 implies (#[trigger] s1.defs[i]).name != n by {
            assert(s1.defs[i] == without(s.defs, n, 0)[i]);
        }
    }
}

proof fn lemma_without(defs: Seq<RDef>, n: Text, i: int)
    requires
        0 <= i <= defs.len(),
    ensures
        forall|j: int|
            0 <= j < without(defs, n, i).len() ==> (#[trigger] without(defs, n, i)[j]).name != n,
    decreases defs.len() - i,
{
    if i < defs.len() {
        lemma_without(defs, n, i + 1);
        if defs[i].name != n {
            let rest = without(defs, n, i + 1);
            assert forall|j: int| 0 <= j < without(defs, n, i).len() implies (#[trigger] without(
                defs,
                n,
                i,
            )[j]).name != n by {
                if j > 0 {
                    assert(without(defs, n, i)[j] == rest[j - 1]);
                }
            }
        }
    }
}

/// An expression is evaluated without a change to the session.
pub proof fn law_expressions_change_nothing(s: RSession, input: Text)
    requires
        trimmed(input).len() > 0,
        trimmed(input)[0] != ':',
        kind_of(trimmed(input)) is Expression,
    ensures
        evaluated(s, input).1 == s,
{
}

} // verus!
