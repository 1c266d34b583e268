//! What is shown to people: joined texts, values, and where a message points.

use crate::diagnostic;
use crate::ir::{IntTy, TModule, TType};
use crate::lexer;
use crate::lowering;
use crate::name_map;
use crate::netlist::{self, NModule, NPort};
use crate::span;
use crate::spelling;
use crate::text::{self, Text};
use crate::token::KTok;
use crate::value::{self, VVal};
use crate::verilog_text;
use vstd::prelude::*;

verus! {

// ---- joining ------------------------------------------------------------

proof fn lemma_join_push(parts: Seq<Text>, x: Text, sep: Text, i: int, acc: Text)
    requires
        0 <= i <= parts.len(),
    ensures
        text::join_from(parts.push(x), sep, i, acc) == if parts.len() == 0 {
            acc + x
        } else {
            text::join_from(parts, sep, i, acc) + sep + x
        },
    decreases parts.len() - i,
{
    let all = parts.push(x);
    if i < parts.len() {
        assert(all[i] == parts[i]);
        if i == 0 {
            lemma_join_push(parts, x, sep, 1, acc + parts[0]);
        } else {
            lemma_join_push(parts, x, sep, i + 1, acc + sep + parts[i]);
        }
    } else {
        assert(all[i] == x);
        assert(text::join_from(all, sep, i + 1, acc + x) == acc + x);
        assert(text::join_from(all, sep, i + 1, acc + sep + x) == acc + sep + x);
    }
}

/// Joined texts stand one behind the other, with the separator between two and nowhere else.
pub proof fn law_joining(parts: Seq<Text>, x: Text, sep: Text)
    ensures
        text::join_texts(Seq::empty(), sep) == Seq::<char>::empty(),
        text::join_texts(seq![x], sep) == x,
        parts.len() > 0 ==> text::join_texts(parts.push(x), sep) == text::join_texts(parts, sep)
            + sep + x,
{
    lemma_join_push(parts, x, sep, 0, Seq::empty());
    let none = Seq::<Text>::empty();
    lemma_join_push(none, x, sep, 0, Seq::empty());
    assert(none.push(x) =~= seq![x]);
    assert(Seq::<char>::empty() + x =~= x);
}

// ---- values -------------------------------------------------------------

/// `true` and `false` are shown as such, numbers in decimal, the unit value as `()`. A pair is
/// shown in round brackets and an array of two in square ones, with a comma between the two.
pub proof fn law_values_are_shown(m: TModule, b: bool, n: i128, it: IntTy, x: VVal, y: VVal)
    ensures
        VVal::Bool(b).show(m) == (if b {
            "true"@
        } else {
            "false"@
        }),
        VVal::Int(n, it).show(m) == text::int_text(n as int),
        VVal::Unit.show(m) == "()"@,
        VVal::Tuple(seq![x, y]).show(m) == "("@ + x.show(m) + ", "@ + y.show(m) + ")"@,
        VVal::Array(seq![x, y]).show(m) == "["@ + x.show(m) + ", "@ + y.show(m) + "]"@,
        VVal::Array(seq![x]).show(m) == "["@ + x.show(m) + "]"@,
{
    let both = seq![x, y];
    let shown = value::show_values(both, m);
    assert(shown =~= seq![x.show(m)].push(y.show(m)));
    law_joining(seq![x.show(m)], y.show(m), ", "@);
    law_joining(Seq::empty(), x.show(m), ", "@);
    assert(text::join_texts(shown, ", "@) == x.show(m) + ", "@ + y.show(m));
    assert(VVal::Tuple(both).show(m) =~= "("@ + x.show(m) + ", "@ + y.show(m) + ")"@);
    assert(VVal::Array(both).show(m) =~= "["@ + x.show(m) + ", "@ + y.show(m) + "]"@);
    let one = value::show_values(seq![x], m);
    assert(one =~= seq![x.show(m)]);
}

/// A variant is shown by its name, with its values behind it in round brackets where it has
/// some; a struct by its name and its fields in braces, each behind its name and a colon.
pub proof fn law_named_values_are_shown(
    m: TModule,
    name: Text,
    e: crate::ir::TEnum,
    s: crate::ir::TStruct,
    tag: usize,
    x: VVal,
)
    requires
        name_map::find(m.enums, name) == Some(e),
        name_map::find(m.structs, name) == Some(s),
        tag < e.variants.len(),
        s.fields.len() == 1,
    ensures
        VVal::Enum(name, tag, Seq::empty()).show(m) == e.variants[tag as int].name,
        VVal::Enum(name, tag, seq![x]).show(m) == e.variants[tag as int].name + "("@ + x.show(m)
            + ")"@,
        VVal::Struct(name, seq![x]).show(m) == name + " { "@ + (s.fields[0].name + ": "@ + x.show(
            m,
        )) + " }"@,
{
    let one = value::show_values(seq![x], m);
    assert(one =~= seq![x.show(m)]);
    law_joining(Seq::empty(), x.show(m), ", "@);
    let names = value::field_names(m, name, 1);
    assert(names[0] == s.fields[0].name);
    let field = s.fields[0].name + ": "@ + x.show(m);
    assert(value::label_fields(names, one) =~= seq![field]);
    law_joining(Seq::empty(), field, ", "@);
}

/// Two integers are shown alike only if they are the same number.
pub proof fn law_numbers_are_told_apart(a: int, b: int)
    requires
        text::int_text(a) == text::int_text(b),
    ensures
        a == b,
{
    let x = text::int_text(a);
    lemma_digits(if a < 0 { -a } else { a } as nat);
    lemma_digits(if b < 0 { -b } else { b } as nat);
    if a < 0 {
        assert(x[0] == '-');
    }
    if b < 0 {
        assert(x[0] == '-');
    }
    if a < 0 {
        assert(x.drop_first() =~= text::dec((-a) as nat));
        assert(text::int_text(b).drop_first() =~= text::dec((-b) as nat));
        lemma_dec_apart((-a) as nat, (-b) as nat);
    } else {
        lemma_dec_apart(a as nat, b as nat);
    }
}

proof fn lemma_digits(n: nat)
    ensures
        text::dec(n).len() > 0,
        '0' <= text::dec(n)[0] <= '9',
    decreases n,
{
    if n >= 10 {
        lemma_digits(n / 10);
    }
}

proof fn lemma_dec_apart(a: nat, b: nat)
    requires
        text::dec(a) == text::dec(b),
    ensures
        a == b,
    decreases a,
{
    lemma_digits(a / 10);
    lemma_digits(b / 10);
    let x = text::dec(a);
    let y = text::dec(b);
    if a >= 10 && b >= 10 {
        assert(x.drop_last() =~= text::dec(a / 10));
        assert(y.drop_last() =~= text::dec(b / 10));
        lemma_dec_apart(a / 10, b / 10);
        assert(x.last() == y.last());
        assert(text::digit_char(a % 10) == text::digit_char(b % 10));
        assert(text::digit_char(a % 10) as u32 == 48 + a % 10);
        assert(text::digit_char(b % 10) as u32 == 48 + b % 10);
    } else if a < 10 && b < 10 {
        assert(x[0] == y[0]);
        assert(text::digit_char(a) as u32 == 48 + a);
        assert(text::digit_char(b) as u32 == 48 + b);
    } else {
        assert(x.len() != y.len());
    }
}

// ---- where a message points ---------------------------------------------

proof fn lemma_line_end(s: Text, i: int)
    requires
        0 <= i <= s.len(),
    ensures
        i <= diagnostic::line_end(s, i) <= s.len(),
        forall|k: int| i <= k < diagnostic::line_end(s, i) ==> #[trigger] s[k] != '\n',
        diagnostic::line_end(s, i) < s.len() ==> s[diagnostic::line_end(s, i)] == '\n',
    decreases s.len() - i,
{
    if i < s.len() && s[i] != '\n' {
        lemma_line_end(s, i + 1);
    }
}

proof fn lemma_next_line(s: Text, i: int, n: nat, j: int)
    requires
        0 <= i <= s.len(),
        0 <= j <= s.len(),
        leads(s, i, n, j),
        diagnostic::line_end(s, j) < s.len(),
    ensures
        leads(s, i, n + 1, diagnostic::line_end(s, j) + 1),
{
    lemma_line_end(s, j);
    assert(((n + 1) - 1) as nat == n);
    assert(0 <= j < diagnostic::line_end(s, j) + 1);
}

/// Whether the `n`-th line from `i` on begins at `j`.
pub open spec fn leads(s: Text, i: int, n: nat, j: int) -> bool
    decreases n,
{
    if n == 0 {
        i == j
    } else {
        exists|k: int|
            #![trigger diagnostic::line_end(s, k)]
            0 <= k < j && leads(s, i, (n - 1) as nat, k) && diagnostic::line_end(s, k) + 1 == j
                && diagnostic::line_end(s, k) < s.len()
    }
}

proof fn lemma_line_found(s: Text, i: int, n: nat, j: int, m: nat)
    requires
        0 <= i <= s.len(),
        leads(s, i, n, j),
        0 <= j <= s.len(),
    ensures
        diagnostic::line_from(s, i, n + m) == diagnostic::line_from(s, j, m),
    decreases n,
{
    if n > 0 {
        let k = choose|k: int|
            #![trigger diagnostic::line_end(s, k)]
            0 <= k < j && leads(s, i, (n - 1) as nat, k) && diagnostic::line_end(s, k) + 1 == j
                && diagnostic::line_end(s, k) < s.len();
        lemma_line_end(s, k);
        lemma_line_found(s, i, (n - 1) as nat, k, m + 1);
        assert(diagnostic::line_from(s, k, m + 1) == diagnostic::line_from(s, j, m));
    }
}

/// The line of the character at `k` begins as many characters before it as its column says.
proof fn lemma_position(s: Text, k: int)
    requires
        0 <= k <= s.len(),
    ensures
        ({
            let (line, col) = span::position(
                s,
                vstd::utf8::encode_utf8(s.subrange(0, k)).len() as int,
            );
            &&& 1 <= line
            &&& 1 <= col <= k + 1
            &&& leads(s, 0, (line - 1) as nat, k - (col - 1))
            &&& forall|j: int| k - (col - 1) <= j < k ==> #[trigger] s[j] != '\n'
        }),
    decreases k,
{
    if k == 0 {
        assert(s.subrange(0, 0) =~= Seq::<char>::empty());
        assert(vstd::utf8::encode_utf8(Seq::<char>::empty()).len() == 0);
    } else {
        lemma_position(s, k - 1);
        spelling::law_lines_and_columns(s, k - 1);
        let (line, col) = span::position(
            s,
            vstd::utf8::encode_utf8(s.subrange(0, k - 1)).len() as int,
        );
        let start = k - 1 - (col - 1);
        if s[k - 1] == '\n' {
            lemma_line_end(s, start);
            assert(diagnostic::line_end(s, start) == k - 1) by {
                if diagnostic::line_end(s, start) > k - 1 {
                    assert(s[k - 1] != '\n');
                }
            }
            lemma_next_line(s, 0, (line - 1) as nat, start);
        }
    }
}

/// A message points at the character at which it stands: in the line that it shows, the
/// character at its column is the one at its offset.
pub proof fn law_messages_point_at_their_place(s: Text, k: int)
    requires
        0 <= k < s.len(),
        s[k] != '\n',
        s[k] != '\r',
    ensures
        ({
            let (line, col) = span::position(
                s,
                vstd::utf8::encode_utf8(s.subrange(0, k)).len() as int,
            );
            diagnostic::line_from(s, 0, (line - 1) as nat) matches Some(t) && 1 <= col <= t.len()
                && t[col - 1] == s[k]
        }),
{
    lemma_position(s, k);
    let (line, col) = span::position(s, vstd::utf8::encode_utf8(s.subrange(0, k)).len() as int);
    let start = k - (col - 1);
    lemma_line_found(s, 0, (line - 1) as nat, start, 0);
    lemma_line_end(s, start);
    let e = diagnostic::line_end(s, start);
    assert(e > k) by {
        if e <= k {
            assert(e < s.len());
            assert(s[e] == '\n');
        }
    }
}

/// What is shown of a message begins with its stage and its text; where it stands in a line, it
/// ends with as many carets as it covers, one at least.
pub proof fn law_messages_are_shown(d: diagnostic::Diag, src: Text)
    ensures
        ({
            let t = d.rendered(src);
            let head = d.stage.show() + ": "@ + d.message;
            &&& t.len() >= head.len() && t.subrange(0, head.len() as int) == head
            &&& diagnostic::line_from(
                src,
                0,
                (span::position(src, d.span.start as int).0 - 1) as nat,
            ) is Some ==> {
                let n = if d.span.end > d.span.start {
                    d.span.end - d.span.start
                } else {
                    1
                };
                &&& t.len() > n
                &&& forall|k: int| t.len() - n <= k < t.len() ==> #[trigger] t[k] == '^'
                &&& t[t.len() - n - 1] != '^'
            }
        }),
{
    let (line, col) = span::position(src, d.span.start as int);
    let t = d.rendered(src);
    let head = d.stage.show() + ": "@ + d.message;
    let first = d.stage.show() + ": "@ + d.message + " (at "@ + text::dec(line) + ":"@ + text::dec(
        col,
    ) + ")"@ + "\n"@;
    assert(first.subrange(0, head.len() as int) =~= head);
    assert(t.subrange(0, head.len() as int) =~= head);
    if let Some(x) = diagnostic::line_from(src, 0, (line - 1) as nat) {
        reveal_strlit("       | ");
        let n = if d.span.end > d.span.start {
            (d.span.end - d.span.start) as nat
        } else {
            1
        };
        let before = first + ("  "@ + diagnostic::pad4(text::dec(line)) + " | "@ + x + "\n"@);
        let gap = "       | "@ + text::repeated(' ', (col - 1) as nat);
        let carets = text::repeated('^', n);
        assert(t =~= before + gap + carets);
        let m = before.len() + gap.len();
        assert(t.len() == m + n);
        assert(gap.last() == ' ') by {
            if col - 1 <= 0 {
                assert(gap.last() == "       | "@[8]);
            }
        }
        assert(t[m - 1] == gap.last());
        assert forall|k: int| t.len() - n <= k < t.len() implies #[trigger] t[k] == '^' by {
            assert(t[k] == carets[k - m]);
        }
    }
}

// ---- types --------------------------------------------------------------

/// A machine integer type is shown as the word that is read as it, and `bool` too; bits by their
/// width, arrays by their element and length, tuples by their parts.
pub proof fn law_types_are_shown_as_written(it: IntTy, w: u32, t: TType, u: TType, n: u64)
    ensures
        lexer::machine_width(it.width) ==> lexer::word_token(TType::Int(it).show()) == KTok::IntTy(
            it.signed,
            it.width,
        ),
        lexer::word_token(TType::Bool.show()) is Bool,
        TType::Unit.show() == "()"@,
        TType::Bit(w).show() == "bit<"@ + text::dec(w as nat) + ">"@,
        TType::Array(Box::new(t), n).show() == "["@ + t.show() + "; "@ + text::dec(n as nat) + "]"@,
        TType::Tuple(seq![t, u]).show() == "("@ + t.show() + ", "@ + u.show() + ")"@,
{
    let shown = crate::ir::show_types(seq![t, u]);
    assert(shown =~= seq![t.show()].push(u.show()));
    law_joining(seq![t.show()], u.show(), ", "@);
    law_joining(Seq::empty(), t.show(), ", "@);
    assert(TType::Tuple(seq![t, u]).show() =~= "("@ + t.show() + ", "@ + u.show() + ")"@);
    lemma_bool_word();
    if lexer::machine_width(it.width) {
        lemma_integer_words(it);
    }
}

proof fn lemma_bool_word()
    ensures
        lexer::word_token("bool"@) is Bool,
{
    lemma_keyword_lengths();
    reveal_strlit("bool");
    assert("bool"@.len() == 4 && "bool"@[0] == 'b');
}

proof fn lemma_keyword_lengths()
    ensures
        "fn"@[0] == 'f' && "struct"@[0] == 's' && "enum"@[0] == 'e' && "let"@[0] == 'l'
            && "mut"@[0] == 'm' && "if"@.len() == 2 && "if"@[1] == 'f' && "else"@[0] == 'e'
            && "while"@[0] == 'w' && "for"@[0] == 'f' && "in"@.len() == 2 && "in"@[1] == 'n'
            && "match"@[0] == 'm' && "return"@[0] == 'r' && "mod"@[0] == 'm' && "use"@.len() == 3
            && "use"@[1] == 's' && "const"@[0] == 'c' && "true"@[0] == 't' && "false"@[0] == 'f'
            && "bit"@.len() == 3 && "bool"@.len() == 4,
{
    reveal_strlit("fn");
    reveal_strlit("struct");
    reveal_strlit("enum");
    reveal_strlit("let");
    reveal_strlit("mut");
    reveal_strlit("if");
    reveal_strlit("else");
    reveal_strlit("while");
    reveal_strlit("for");
    reveal_strlit("in");
    reveal_strlit("match");
    reveal_strlit("return");
    reveal_strlit("mod");
    reveal_strlit("use");
    reveal_strlit("const");
    reveal_strlit("true");
    reveal_strlit("false");
    reveal_strlit("bit");
    reveal_strlit("bool");
}

proof fn lemma_integer_words(it: IntTy)
    requires
        lexer::machine_width(it.width),
    ensures
        lexer::word_token(TType::Int(it).show()) == KTok::IntTy(it.signed, it.width),
{
    lemma_keyword_lengths();
    reveal_strlit("i");
    reveal_strlit("u");
    reveal_strlit("i8");
    reveal_strlit("i16");
    reveal_strlit("i32");
    reveal_strlit("i64");
    reveal_strlit("u8");
    reveal_strlit("u16");
    reveal_strlit("u32");
    reveal_strlit("u64");
    reveal_strlit("bit");
    reveal_strlit("bool");
    reveal_with_fuel(text::dec, 3);
    assert(text::dec(8) =~= seq!['8']);
    assert(text::dec(16) =~= seq!['1', '6']);
    assert(text::dec(32) =~= seq!['3', '2']);
    assert(text::dec(64) =~= seq!['6', '4']);
    let w = TType::Int(it).show();
    if it.signed {
        if it.width == 8 {
            assert(w =~= "i8"@);
        } else if it.width == 16 {
            assert(w =~= "i16"@);
        } else if it.width == 32 {
            assert(w =~= "i32"@);
        } else {
            assert(w =~= "i64"@);
        }
    } else {
        if it.width == 8 {
            assert(w =~= "u8"@);
        } else if it.width == 16 {
            assert(w =~= "u16"@);
        } else if it.width == 32 {
            assert(w =~= "u32"@);
        } else {
            assert(w =~= "u64"@);
        }
    }
    assert("i8"@.len() == 2 && "i8"@[1] == '8');
    assert("i16"@.len() == 3 && "i16"@[1] == '1' && "i16"@[0] == 'i');
    assert("i32"@.len() == 3 && "i32"@[1] == '3' && "i32"@[0] == 'i');
    assert("i64"@.len() == 3 && "i64"@[1] == '6' && "i64"@[0] == 'i');
    assert("u8"@.len() == 2 && "u8"@[1] == '8' && "u8"@[0] == 'u' && "i8"@[0] == 'i');
    assert("u16"@.len() == 3 && "u16"@[1] == '1' && "u16"@[0] == 'u');
    assert("u32"@.len() == 3 && "u32"@[1] == '3' && "u32"@[0] == 'u');
    assert("u64"@.len() == 3 && "u64"@[1] == '6' && "u64"@[0] == 'u');
    assert("bit"@[0] == 'b' && "bool"@[0] == 'b');
}

// ---- modules of the target language -------------------------------------

/// A module is written with its name, its ports, one a line with commas between them, its items
/// and its end, and a design is its modules with a line's end between two.
pub proof fn law_modules_are_written(m: NModule, n: NModule, a: NPort, b: NPort)
    requires
        m.ports == seq![a, b],
        m.items.len() == 0,
    ensures
        m.show() == "module "@ + m.name + " (\n    "@ + (a.show() + ",\n    "@ + b.show())
            + "\n);\n"@ + Seq::empty() + "endmodule"@,
        netlist::design_text(seq![m, n]) == m.show() + "\n"@ + n.show(),
{
    let ps = Seq::new(m.ports.len(), |i: int| m.ports[i].show());
    assert(ps =~= seq![a.show()].push(b.show()));
    law_joining(seq![a.show()], b.show(), ",\n    "@);
    law_joining(Seq::empty(), a.show(), ",\n    "@);
    let is = Seq::new(m.items.len(), |i: int| m.items[i].show());
    assert(is =~= Seq::<Text>::empty());
    law_joining(is, Seq::empty(), Seq::empty());
    let d = seq![m, n];
    let ms = Seq::new(d.len(), |i: int| d[i].show());
    assert(ms =~= seq![m.show()].push(n.show()));
    law_joining(seq![m.show()], n.show(), "\n"@);
    law_joining(Seq::empty(), m.show(), "\n"@);
}

/// The input ports of a module are those that are inputs, in order, and its output is the first
/// that is one.
pub proof fn law_ports_by_direction(ps: Seq<NPort>)
    ensures
        netlist::inputs_from(ps, 0) == ps.filter(|x: NPort| x.dir == netlist::Dir::Input),
        netlist::port_towards(ps, netlist::Dir::Output, 0) matches Some(i) ==> 0 <= i < ps.len()
            && ps[i].dir == netlist::Dir::Output && forall|j: int|
            0 <= j < i ==> (#[trigger] ps[j]).dir == netlist::Dir::Input,
        netlist::port_towards(ps, netlist::Dir::Output, 0) is None ==> forall|j: int|
            0 <= j < ps.len() ==> (#[trigger] ps[j]).dir == netlist::Dir::Input,
{
    lemma_inputs(ps, 0);
    assert(ps.subrange(0, 0) =~= Seq::<NPort>::empty());
    reveal(Seq::filter);
    assert(ps.subrange(0, 0).filter(|x: NPort| x.dir == netlist::Dir::Input) =~= Seq::empty());
    assert(Seq::<NPort>::empty() + netlist::inputs_from(ps, 0) =~= netlist::inputs_from(ps, 0));
    assert(ps.subrange(0, ps.len() as int) =~= ps);
    lemma_towards(ps, 0);
}

proof fn lemma_inputs(ps: Seq<NPort>, i: int)
    requires
        0 <= i <= ps.len(),
    ensures
        ps.subrange(0, ps.len() as int).filter(|x: NPort| x.dir == netlist::Dir::Input)
            == ps.subrange(0, i).filter(|x: NPort| x.dir == netlist::Dir::Input)
            + netlist::inputs_from(ps, i),
    decreases ps.len() - i,
{
    let f = |x: NPort| x.dir == netlist::Dir::Input;
    if i < ps.len() {
        lemma_inputs(ps, i + 1);
        let a = ps.subrange(0, i + 1);
        reveal(Seq::filter);
        assert(a.drop_last() =~= ps.subrange(0, i));
        assert(a.last() == ps[i]);
        let rest = netlist::inputs_from(ps, i + 1);
        assert(a.filter(f) + rest =~= ps.subrange(0, i).filter(f) + netlist::inputs_from(ps, i));
    } else {
        assert(ps.subrange(0, i).filter(f) + Seq::<NPort>::empty() =~= ps.subrange(0, i).filter(f));
    }
}

proof fn lemma_towards(ps: Seq<NPort>, i: int)
    requires
        0 <= i <= ps.len(),
    ensures
        netlist::port_towards(ps, netlist::Dir::Output, i) matches Some(k) ==> i <= k < ps.len()
            && ps[k].dir == netlist::Dir::Output && forall|j: int|
            i <= j < k ==> (#[trigger] ps[j]).dir == netlist::Dir::Input,
        netlist::port_towards(ps, netlist::Dir::Output, i) is None ==> forall|j: int|
            i <= j < ps.len() ==> (#[trigger] ps[j]).dir == netlist::Dir::Input,
    decreases ps.len() - i,
{
    if i < ps.len() {
        lemma_towards(ps, i + 1);
    }
}

/// A `bool` takes one wire, `bit<n>` takes `n`, and nothing else is carried by wires.
pub proof fn law_widths_of_wires(t: TType)
    ensures
        lowering::scalar_of(t) is Ok <==> t is Bool || t is Bit,
        t is Bool ==> lowering::scalar_of(t)->Ok_0.width() == 1,
        t matches TType::Bit(n) ==> lowering::scalar_of(t)->Ok_0.width() == n,
{
    reveal(lowering::scalar_of);
}

proof fn lemma_plain(s: Text, i: int)
    requires
        0 <= i <= s.len(),
    ensures
        forall|k: int|
            0 <= k < lowering::plain_chars(s, i).len() ==> verilog_text::in_name(
                #[trigger] lowering::plain_chars(s, i)[k],
            ),
    decreases s.len() - i,
{
    if i < s.len() {
        let all = lowering::plain_chars(s, i);
        if i + 1 < s.len() && s[i] == ':' && s[i + 1] == ':' {
            lemma_plain(s, i + 2);
            let rest = lowering::plain_chars(s, i + 2);
            assert forall|k: int| 0 <= k < all.len() implies verilog_text::in_name(
                #[trigger] all[k],
            ) by {
                if k >= 2 {
                    assert(all[k] == rest[k - 2]);
                }
            }
        } else {
            lemma_plain(s, i + 1);
            let rest = lowering::plain_chars(s, i + 1);
            assert forall|k: int| 0 <= k < all.len() implies verilog_text::in_name(
                #[trigger] all[k],
            ) by {
                if k >= 1 {
                    assert(all[k] == rest[k - 1]);
                }
            }
        }
    }
}

proof fn lemma_plain_same(s: Text, i: int)
    requires
        0 <= i <= s.len(),
        forall|k: int| 0 <= k < s.len() ==> verilog_text::in_name(#[trigger] s[k]),
    ensures
        lowering::plain_chars(s, i) == s.subrange(i, s.len() as int),
    decreases s.len() - i,
{
    if i < s.len() {
        lemma_plain_same(s, i + 1);
        assert(verilog_text::in_name(s[i]));
        assert(lowering::plain_chars(s, i) =~= s.subrange(i, s.len() as int));
    } else {
        assert(lowering::plain_chars(s, i) =~= s.subrange(i, s.len() as int));
    }
}

/// Whatever a function is called, what its name becomes can be written, and a name that can be
/// written stays as it is.
pub proof fn law_module_names_are_names(name: Text)
    ensures
        verilog_text::is_name(lowering::sanitized(name)),
        verilog_text::is_name(name) ==> lowering::sanitized(name) == name,
{
    lemma_plain(name, 0);
    if verilog_text::is_name(name) {
        lemma_plain_same(name, 0);
        assert(name.subrange(0, name.len() as int) =~= name);
    }
}

} // verus!
