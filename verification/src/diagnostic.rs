//! Structured, located diagnostics shared across pipeline stages.
//!
//! Parse errors and type errors are values. Each diagnostic carries a message, a
//! primary [`Span`], and a stage label, so that a readable error with line and
//! column can be rendered.

use crate::span::{self, locate, Span};
use crate::text::{self, cat2, cat3, cat9, chars_of, repeat_char, string_of, u128_text, Text};
use vstd::prelude::*;

verus! {

/// The pipeline stage that produced a diagnostic.
#[derive(Clone, Copy, Debug, PartialEq, Eq, Structural)]
pub enum Stage {
    Lex,
    Parse,
    Type,
    Runtime,
    Reload,
}

impl Stage {
    /// The label of the stage.
    pub open spec fn show(self) -> Text {
        match self {
            Stage::Lex => "lex error"@,
            Stage::Parse => "parse error"@,
            Stage::Type => "type error"@,
            Stage::Runtime => "runtime error"@,
            Stage::Reload => "reload error"@,
        }
    }

    /// The label of the stage.
    pub fn to_text(&self) -> (r: String)
        ensures
            r@ == self.show(),
    {
        match self {
            Stage::Lex => "lex error".to_string(),
            Stage::Parse => "parse error".to_string(),
            Stage::Type => "type error".to_string(),
            Stage::Runtime => "runtime error".to_string(),
            Stage::Reload => "reload error".to_string(),
        }
    }
}

/// A structured diagnostic with a source location.
#[derive(Clone, Debug, PartialEq, Eq)]
pub struct Diagnostic {
    pub stage: Stage,
    pub message: String,
    pub span: Span,
}

/// A diagnostic as a mathematical object.
#[verifier::ext_equal]
pub struct Diag {
    pub stage: Stage,
    pub message: Text,
    pub span: Span,
}

impl View for Diagnostic {
    type V = Diag;

    open spec fn view(&self) -> Diag {
        Diag { stage: self.stage, message: self.message@, span: self.span }
    }
}

/// The position of the first newline at or after `i`, or the end of `s`.
pub open spec fn line_end(s: Text, i: int) -> int
    decreases s.len() - i,
{
    if i < 0 || i >= s.len() {
        s.len() as int
    } else if s[i] == '\n' {
        i
    } else {
        line_end(s, i + 1)
    }
}

/// The `n`-th line (counted from zero) of the text of `s` from position `i` on,
/// without its terminating newline or carriage return and newline. There is no
/// line behind the last newline.
pub open spec fn line_from(s: Text, i: int, n: nat) -> Option<Text>
    decreases n,
{
    let e = line_end(s, i);
    if i < 0 || i >= s.len() {
        None
    } else if n == 0 {
        Some(
            if e < s.len() && e > i && s[e - 1] == '\r' {
                s.subrange(i, e - 1)
            } else {
                s.subrange(i, e)
            },
        )
    } else {
        line_from(s, e + 1, (n - 1) as nat)
    }
}

/// `t`, padded on the left with spaces to at least four characters.
pub open spec fn pad4(t: Text) -> Text {
    text::repeated(' ', if t.len() < 4 { (4 - t.len()) as nat } else { 0 }) + t
}

impl Diag {
    /// Stage and message on one line.
    pub open spec fn show(self) -> Text {
        self.stage.show() + ": "@ + self.message
    }

    /// The diagnostic with its location, the source line it stands on and carets
    /// under the span.
    pub open spec fn rendered(self, src: Text) -> Text {
        let (line, col) = span::position(src, self.span.start as int);
        let head = self.stage.show() + ": "@ + self.message + " (at "@ + text::dec(line) + ":"@
            + text::dec(col) + ")"@ + "\n"@;
        match line_from(src, 0, (line - 1) as nat) {
            None => head,
            Some(t) => head + ("  "@ + pad4(text::dec(line)) + " | "@ + t + "\n"@) + ("       | "@
                + text::repeated(' ', (col - 1) as nat) + text::repeated(
                '^',
                if self.span.end > self.span.start {
                    (self.span.end - self.span.start) as nat
                } else {
                    1
                },
            )),
        }
    }
}

fn line_at(s: &Vec<char>, n: u128) -> (r: Option<String>)
    ensures
        match r {
            Some(t) => line_from(s@, 0, n as nat) == Some(t@),
            None => line_from(s@, 0, n as nat) is None,
        },
{
    let mut i: usize = 0;
    let mut left: u128 = n;
    loop
        invariant
            i <= s.len(),
            left <= n,
            line_from(s@, 0, n as nat) == line_from(s@, i as int, left as nat),
        decreases s.len() - i,
    {
        if i >= s.len() {
            return None;
        }
        let mut e: usize = i;
        while e < s.len() && s[e] != '\n'
            invariant
                i <= e <= s.len(),
                line_end(s@, i as int) == line_end(s@, e as int),
            decreases s.len() - e,
        {
            e += 1;
        }
        assert(line_end(s@, i as int) == e);
        if left == 0 {
            if e < s.len() && e > i && s[e - 1] == '\r' {
                return Some(string_of(s, i, e - 1));
            }
            return Some(string_of(s, i, e));
        }
        if e >= s.len() {
            assert(line_from(s@, e as int + 1, (left - 1) as nat) is None);
            return None;
        }
        i = e + 1;
        left = left - 1;
    }
}

impl Diagnostic {
    pub fn new(stage: Stage, message: String, span: Span) -> (r: Diagnostic)
        ensures
            r == (Diagnostic { stage, message, span }),
    {
        Diagnostic { stage, message, span }
    }

    /// An independent copy.
    pub fn dup(&self) -> (r: Diagnostic)
        ensures
            r@ == self@,
    {
        Diagnostic { stage: self.stage, message: self.message.clone(), span: self.span }
    }

    /// Stage and message on one line.
    pub fn to_text(&self) -> (r: String)
        ensures
            r@ == self@.show(),
    {
        let st = self.stage.to_text();
        cat3(st.as_str(), ": ", self.message.as_str())
    }

    /// Render the diagnostic against the source text, with a caret line pointing
    /// at the offending span.
    pub fn render(&self, src: &str) -> (r: String)
        ensures
            r@ == self@.rendered(src@),
    {
        let (line, col) = locate(src, self.span.start);
        let st = self.stage.to_text();
        let lt = u128_text(line);
        let ct = u128_text(col);
        let head = cat9(
            st.as_str(),
            ": ",
            self.message.as_str(),
            " (at ",
            lt.as_str(),
            ":",
            ct.as_str(),
            ")",
            "\n",
        );
        let s = chars_of(src);
        assert(src@.len() == s.len());
        match line_at(&s, line - 1) {
            None => head,
            Some(t) => {
                let n = chars_of(lt.as_str()).len();
                let pad = repeat_char(' ', if n < 4 { 4 - n } else { 0 });
                let padded = cat2(pad.as_str(), lt.as_str());
                let mut out = head;
                let l1 = text::cat5("  ", padded.as_str(), " | ", t.as_str(), "\n");
                out.append(l1.as_str());
                let gap = repeat_char(' ', (col - 1) as usize);
                let len: usize = if self.span.end > self.span.start {
                    self.span.end - self.span.start
                } else {
                    1
                };
                let carets = repeat_char('^', len);
                let l2 = cat3("       | ", gap.as_str(), carets.as_str());
                out.append(l2.as_str());
                out
            },
        }
    }
}

} // verus!
