//! Lexical tokens.

use crate::model;
use crate::span::Span;
use crate::text::{self, cat3, cat5, i128_text, str_eq, u32_text, Text};
use vstd::prelude::*;

verus! {

/// A lexical token kind.
#[derive(Debug, PartialEq, Eq)]
pub enum Tok {
    // Literals & identifiers
    Int(i128),
    Ident(String),
    // Keywords
    Fn,
    Struct,
    Enum,
    Let,
    Mut,
    If,
    Else,
    While,
    For,
    In,
    Match,
    Return,
    Mod,
    Use,
    Const,
    True,
    False,
    Bool,
    Bit,
    /// One of i8/i16/i32/i64/u8/u16/u32/u64, carrying (signed, width).
    IntTy(bool, u32),
    // Punctuation / operators
    LParen,
    RParen,
    LBrace,
    RBrace,
    LBracket,
    RBracket,
    Comma,
    Semi,
    Colon,
    ColonColon,
    Dot,
    DotDot,
    DotDotEq,
    Arrow,
    FatArrow,
    Eq,
    EqEq,
    Ne,
    Lt,
    Le,
    Gt,
    Ge,
    Plus,
    Minus,
    Star,
    Slash,
    Percent,
    AndAnd,
    OrOr,
    Amp,
    Pipe,
    Caret,
    Shl,
    Shr,
    Bang,
    /// End of input.
    Eof,
}

/// A token with its source span.
#[derive(Debug, PartialEq, Eq)]
pub struct Token {
    pub tok: Tok,
    pub span: Span,
}

#[allow(inconsistent_fields)]
pub enum KTok {
    Int(i128),
    Ident(Text),
    Fn,
    Struct,
    Enum,
    Let,
    Mut,
    If,
    Else,
    While,
    For,
    In,
    Match,
    Return,
    Mod,
    Use,
    Const,
    True,
    False,
    Bool,
    Bit,
    IntTy(bool, u32),
    LParen,
    RParen,
    LBrace,
    RBrace,
    LBracket,
    RBracket,
    Comma,
    Semi,
    Colon,
    ColonColon,
    Dot,
    DotDot,
    DotDotEq,
    Arrow,
    FatArrow,
    Eq,
    EqEq,
    Ne,
    Lt,
    Le,
    Gt,
    Ge,
    Plus,
    Minus,
    Star,
    Slash,
    Percent,
    AndAnd,
    OrOr,
    Amp,
    Pipe,
    Caret,
    Shl,
    Shr,
    Bang,
    Eof,
}

pub struct KToken {
    pub tok: KTok,
    pub span: Span,
}

/// The values of `v`, each as a mathematical object.
pub open spec fn tokens_of(v: Seq<Token>) -> Seq<KToken>
    decreases v,
{
    Seq::new(v.len(), |i: int| if 0 <= i < v.len() { v[i].model() } else { arbitrary() })
}

pub broadcast proof fn lemma_tokens(v: Seq<Token>)
    ensures
        #[trigger] tokens_of(v) == model::views(v),
{
    assert(tokens_of(v) =~= model::views(v));
}

/// Facts about the models of token vectors.
pub broadcast group group_tokens {
    model::group_views,
    lemma_tokens,
}

impl View for Tok {
    type V = KTok;

    open spec fn view(&self) -> KTok {
        self.model()
    }
}

impl Clone for Tok {
    fn clone(&self) -> (r: Tok)
        ensures
            r@ == self@,
    {
        self.dup()
    }
}

impl Tok {
    /// The value as a mathematical object.
    #[verifier::opaque]
    pub open spec fn model(&self) -> KTok
        decreases self,
    {
        match self {
            Tok::Int(v) => KTok::Int(*v),
            Tok::Ident(s) => KTok::Ident(s@),
            Tok::Fn => KTok::Fn,
            Tok::Struct => KTok::Struct,
            Tok::Enum => KTok::Enum,
            Tok::Let => KTok::Let,
            Tok::Mut => KTok::Mut,
            Tok::If => KTok::If,
            Tok::Else => KTok::Else,
            Tok::While => KTok::While,
            Tok::For => KTok::For,
            Tok::In => KTok::In,
            Tok::Match => KTok::Match,
            Tok::Return => KTok::Return,
            Tok::Mod => KTok::Mod,
            Tok::Use => KTok::Use,
            Tok::Const => KTok::Const,
            Tok::True => KTok::True,
            Tok::False => KTok::False,
            Tok::Bool => KTok::Bool,
            Tok::Bit => KTok::Bit,
            Tok::IntTy(signed, width) => KTok::IntTy(*signed, *width),
            Tok::LParen => KTok::LParen,
            Tok::RParen => KTok::RParen,
            Tok::LBrace => KTok::LBrace,
            Tok::RBrace => KTok::RBrace,
            Tok::LBracket => KTok::LBracket,
            Tok::RBracket => KTok::RBracket,
            Tok::Comma => KTok::Comma,
            Tok::Semi => KTok::Semi,
            Tok::Colon => KTok::Colon,
            Tok::ColonColon => KTok::ColonColon,
            Tok::Dot => KTok::Dot,
            Tok::DotDot => KTok::DotDot,
            Tok::DotDotEq => KTok::DotDotEq,
            Tok::Arrow => KTok::Arrow,
            Tok::FatArrow => KTok::FatArrow,
            Tok::Eq => KTok::Eq,
            Tok::EqEq => KTok::EqEq,
            Tok::Ne => KTok::Ne,
            Tok::Lt => KTok::Lt,
            Tok::Le => KTok::Le,
            Tok::Gt => KTok::Gt,
            Tok::Ge => KTok::Ge,
            Tok::Plus => KTok::Plus,
            Tok::Minus => KTok::Minus,
            Tok::Star => KTok::Star,
            Tok::Slash => KTok::Slash,
            Tok::Percent => KTok::Percent,
            Tok::AndAnd => KTok::AndAnd,
            Tok::OrOr => KTok::OrOr,
            Tok::Amp => KTok::Amp,
            Tok::Pipe => KTok::Pipe,
            Tok::Caret => KTok::Caret,
            Tok::Shl => KTok::Shl,
            Tok::Shr => KTok::Shr,
            Tok::Bang => KTok::Bang,
            Tok::Eof => KTok::Eof,
        }
    }

    /// An independent copy.
    pub fn dup(&self) -> (r: Tok)
        ensures
            r@ == self@,
        decreases self,
    {
        broadcast use group_tokens;

        reveal(Tok::model);

        match self {
            Tok::Int(v) => Tok::Int(*v),
            Tok::Ident(s) => Tok::Ident(s.clone()),
            Tok::Fn => Tok::Fn,
            Tok::Struct => Tok::Struct,
            Tok::Enum => Tok::Enum,
            Tok::Let => Tok::Let,
            Tok::Mut => Tok::Mut,
            Tok::If => Tok::If,
            Tok::Else => Tok::Else,
            Tok::While => Tok::While,
            Tok::For => Tok::For,
            Tok::In => Tok::In,
            Tok::Match => Tok::Match,
            Tok::Return => Tok::Return,
            Tok::Mod => Tok::Mod,
            Tok::Use => Tok::Use,
            Tok::Const => Tok::Const,
            Tok::True => Tok::True,
            Tok::False => Tok::False,
            Tok::Bool => Tok::Bool,
            Tok::Bit => Tok::Bit,
            Tok::IntTy(signed, width) => Tok::IntTy(*signed, *width),
            Tok::LParen => Tok::LParen,
            Tok::RParen => Tok::RParen,
            Tok::LBrace => Tok::LBrace,
            Tok::RBrace => Tok::RBrace,
            Tok::LBracket => Tok::LBracket,
            Tok::RBracket => Tok::RBracket,
            Tok::Comma => Tok::Comma,
            Tok::Semi => Tok::Semi,
            Tok::Colon => Tok::Colon,
            Tok::ColonColon => Tok::ColonColon,
            Tok::Dot => Tok::Dot,
            Tok::DotDot => Tok::DotDot,
            Tok::DotDotEq => Tok::DotDotEq,
            Tok::Arrow => Tok::Arrow,
            Tok::FatArrow => Tok::FatArrow,
            Tok::Eq => Tok::Eq,
            Tok::EqEq => Tok::EqEq,
            Tok::Ne => Tok::Ne,
            Tok::Lt => Tok::Lt,
            Tok::Le => Tok::Le,
            Tok::Gt => Tok::Gt,
            Tok::Ge => Tok::Ge,
            Tok::Plus => Tok::Plus,
            Tok::Minus => Tok::Minus,
            Tok::Star => Tok::Star,
            Tok::Slash => Tok::Slash,
            Tok::Percent => Tok::Percent,
            Tok::AndAnd => Tok::AndAnd,
            Tok::OrOr => Tok::OrOr,
            Tok::Amp => Tok::Amp,
            Tok::Pipe => Tok::Pipe,
            Tok::Caret => Tok::Caret,
            Tok::Shl => Tok::Shl,
            Tok::Shr => Tok::Shr,
            Tok::Bang => Tok::Bang,
            Tok::Eof => Tok::Eof,
        }
    }

    /// Whether both are the same value.
    pub fn same(&self, other: &Tok) -> (r: bool)
        ensures
            r == (self@ == other@),
        decreases self,
    {
        broadcast use group_tokens;

        reveal(Tok::model);

        match (self, other) {
            (Tok::Int(v), Tok::Int(v2)) => *v == *v2,
            (Tok::Ident(s), Tok::Ident(s2)) => str_eq(s.as_str(), s2.as_str()),
            (Tok::Fn, Tok::Fn) => true,
            (Tok::Struct, Tok::Struct) => true,
            (Tok::Enum, Tok::Enum) => true,
            (Tok::Let, Tok::Let) => true,
            (Tok::Mut, Tok::Mut) => true,
            (Tok::If, Tok::If) => true,
            (Tok::Else, Tok::Else) => true,
            (Tok::While, Tok::While) => true,
            (Tok::For, Tok::For) => true,
            (Tok::In, Tok::In) => true,
            (Tok::Match, Tok::Match) => true,
            (Tok::Return, Tok::Return) => true,
            (Tok::Mod, Tok::Mod) => true,
            (Tok::Use, Tok::Use) => true,
            (Tok::Const, Tok::Const) => true,
            (Tok::True, Tok::True) => true,
            (Tok::False, Tok::False) => true,
            (Tok::Bool, Tok::Bool) => true,
            (Tok::Bit, Tok::Bit) => true,
            (Tok::IntTy(signed, width), Tok::IntTy(signed2, width2)) => *signed == *signed2 && *width == *width2,
            (Tok::LParen, Tok::LParen) => true,
            (Tok::RParen, Tok::RParen) => true,
            (Tok::LBrace, Tok::LBrace) => true,
            (Tok::RBrace, Tok::RBrace) => true,
            (Tok::LBracket, Tok::LBracket) => true,
            (Tok::RBracket, Tok::RBracket) => true,
            (Tok::Comma, Tok::Comma) => true,
            (Tok::Semi, Tok::Semi) => true,
            (Tok::Colon, Tok::Colon) => true,
            (Tok::ColonColon, Tok::ColonColon) => true,
            (Tok::Dot, Tok::Dot) => true,
            (Tok::DotDot, Tok::DotDot) => true,
            (Tok::DotDotEq, Tok::DotDotEq) => true,
            (Tok::Arrow, Tok::Arrow) => true,
            (Tok::FatArrow, Tok::FatArrow) => true,
            (Tok::Eq, Tok::Eq) => true,
            (Tok::EqEq, Tok::EqEq) => true,
            (Tok::Ne, Tok::Ne) => true,
            (Tok::Lt, Tok::Lt) => true,
            (Tok::Le, Tok::Le) => true,
            (Tok::Gt, Tok::Gt) => true,
            (Tok::Ge, Tok::Ge) => true,
            (Tok::Plus, Tok::Plus) => true,
            (Tok::Minus, Tok::Minus) => true,
            (Tok::Star, Tok::Star) => true,
            (Tok::Slash, Tok::Slash) => true,
            (Tok::Percent, Tok::Percent) => true,
            (Tok::AndAnd, Tok::AndAnd) => true,
            (Tok::OrOr, Tok::OrOr) => true,
            (Tok::Amp, Tok::Amp) => true,
            (Tok::Pipe, Tok::Pipe) => true,
            (Tok::Caret, Tok::Caret) => true,
            (Tok::Shl, Tok::Shl) => true,
            (Tok::Shr, Tok::Shr) => true,
            (Tok::Bang, Tok::Bang) => true,
            (Tok::Eof, Tok::Eof) => true,
            _ => false,
        }
    }
}

impl View for Token {
    type V = KToken;

    open spec fn view(&self) -> KToken {
        self.model()
    }
}

impl Clone for Token {
    fn clone(&self) -> (r: Token)
        ensures
            r@ == self@,
    {
        self.dup()
    }
}

impl Token {
    /// The value as a mathematical object.
    pub open spec fn model(&self) -> KToken
        decreases self,
    {
        KToken {
            tok: self.tok.model(),
            span: self.span,
        }
    }

    /// An independent copy.
    pub fn dup(&self) -> (r: Token)
        ensures
            r@ == self@,
        decreases self,
    {
        broadcast use group_tokens;

        reveal(Tok::model);

        Token {
            tok: self.tok.dup(),
            span: self.span,
        }
    }

    /// Whether both are the same value.
    pub fn same(&self, other: &Token) -> (r: bool)
        ensures
            r == (self@ == other@),
        decreases self,
    {
        broadcast use group_tokens;

        reveal(Tok::model);

        self.tok.same(&other.tok) && self.span == other.span
    }
}

/// The models of the tokens that carry nothing.
pub proof fn lemma_plain_tokens()
    ensures
        Tok::Fn@ == KTok::Fn,
        Tok::Struct@ == KTok::Struct,
        Tok::Enum@ == KTok::Enum,
        Tok::Let@ == KTok::Let,
        Tok::Mut@ == KTok::Mut,
        Tok::If@ == KTok::If,
        Tok::Else@ == KTok::Else,
        Tok::While@ == KTok::While,
        Tok::For@ == KTok::For,
        Tok::In@ == KTok::In,
        Tok::Match@ == KTok::Match,
        Tok::Return@ == KTok::Return,
        Tok::Mod@ == KTok::Mod,
        Tok::Use@ == KTok::Use,
        Tok::Const@ == KTok::Const,
        Tok::True@ == KTok::True,
        Tok::False@ == KTok::False,
        Tok::Bool@ == KTok::Bool,
        Tok::Bit@ == KTok::Bit,
        Tok::LParen@ == KTok::LParen,
        Tok::RParen@ == KTok::RParen,
        Tok::LBrace@ == KTok::LBrace,
        Tok::RBrace@ == KTok::RBrace,
        Tok::LBracket@ == KTok::LBracket,
        Tok::RBracket@ == KTok::RBracket,
        Tok::Comma@ == KTok::Comma,
        Tok::Semi@ == KTok::Semi,
        Tok::Colon@ == KTok::Colon,
        Tok::ColonColon@ == KTok::ColonColon,
        Tok::Dot@ == KTok::Dot,
        Tok::DotDot@ == KTok::DotDot,
        Tok::DotDotEq@ == KTok::DotDotEq,
        Tok::Arrow@ == KTok::Arrow,
        Tok::FatArrow@ == KTok::FatArrow,
        Tok::Eq@ == KTok::Eq,
        Tok::EqEq@ == KTok::EqEq,
        Tok::Ne@ == KTok::Ne,
        Tok::Lt@ == KTok::Lt,
        Tok::Le@ == KTok::Le,
        Tok::Gt@ == KTok::Gt,
        Tok::Ge@ == KTok::Ge,
        Tok::Plus@ == KTok::Plus,
        Tok::Minus@ == KTok::Minus,
        Tok::Star@ == KTok::Star,
        Tok::Slash@ == KTok::Slash,
        Tok::Percent@ == KTok::Percent,
        Tok::AndAnd@ == KTok::AndAnd,
        Tok::OrOr@ == KTok::OrOr,
        Tok::Amp@ == KTok::Amp,
        Tok::Pipe@ == KTok::Pipe,
        Tok::Caret@ == KTok::Caret,
        Tok::Shl@ == KTok::Shl,
        Tok::Shr@ == KTok::Shr,
        Tok::Bang@ == KTok::Bang,
        Tok::Eof@ == KTok::Eof,
{
    reveal(Tok::model);
}

impl KTok {
    /// The name of the token kind, with what it carries.
    #[verifier::opaque]
    pub open spec fn name(self) -> Text {
        match self {
            KTok::Int(v) => "Int("@ + text::int_text(v as int) + ")"@,
            KTok::Ident(s) => "Ident("@ + s + ")"@,
            KTok::IntTy(signed, width) => "IntTy("@ + (if signed {
                "true"@
            } else {
                "false"@
            }) + ", "@ + text::dec(width as nat) + ")"@,
            KTok::Fn => "Fn"@,
            KTok::Struct => "Struct"@,
            KTok::Enum => "Enum"@,
            KTok::Let => "Let"@,
            KTok::Mut => "Mut"@,
            KTok::If => "If"@,
            KTok::Else => "Else"@,
            KTok::While => "While"@,
            KTok::For => "For"@,
            KTok::In => "In"@,
            KTok::Match => "Match"@,
            KTok::Return => "Return"@,
            KTok::Mod => "Mod"@,
            KTok::Use => "Use"@,
            KTok::Const => "Const"@,
            KTok::True => "True"@,
            KTok::False => "False"@,
            KTok::Bool => "Bool"@,
            KTok::Bit => "Bit"@,
            KTok::LParen => "LParen"@,
            KTok::RParen => "RParen"@,
            KTok::LBrace => "LBrace"@,
            KTok::RBrace => "RBrace"@,
            KTok::LBracket => "LBracket"@,
            KTok::RBracket => "RBracket"@,
            KTok::Comma => "Comma"@,
            KTok::Semi => "Semi"@,
            KTok::Colon => "Colon"@,
            KTok::ColonColon => "ColonColon"@,
            KTok::Dot => "Dot"@,
            KTok::DotDot => "DotDot"@,
            KTok::DotDotEq => "DotDotEq"@,
            KTok::Arrow => "Arrow"@,
            KTok::FatArrow => "FatArrow"@,
            KTok::Eq => "Eq"@,
            KTok::EqEq => "EqEq"@,
            KTok::Ne => "Ne"@,
            KTok::Lt => "Lt"@,
            KTok::Le => "Le"@,
            KTok::Gt => "Gt"@,
            KTok::Ge => "Ge"@,
            KTok::Plus => "Plus"@,
            KTok::Minus => "Minus"@,
            KTok::Star => "Star"@,
            KTok::Slash => "Slash"@,
            KTok::Percent => "Percent"@,
            KTok::AndAnd => "AndAnd"@,
            KTok::OrOr => "OrOr"@,
            KTok::Amp => "Amp"@,
            KTok::Pipe => "Pipe"@,
            KTok::Caret => "Caret"@,
            KTok::Shl => "Shl"@,
            KTok::Shr => "Shr"@,
            KTok::Bang => "Bang"@,
            KTok::Eof => "Eof"@,
        }
    }

    /// The token as error messages call it.
    #[verifier::opaque]
    pub open spec fn described(self) -> Text {
        match self {
            KTok::Eof => "end of input"@,
            KTok::Ident(s) => "identifier `"@ + s + "`"@,
            KTok::Int(v) => "integer `"@ + text::int_text(v as int) + "`"@,
            _ => "`"@ + self.name() + "`"@,
        }
    }
}

impl Tok {
    fn name(&self) -> (r: String)
        ensures
            r@ == self@.name(),
    {
        reveal(KTok::name);
        reveal(Tok::model);
        match self {
            Tok::Int(v) => {
                let t = i128_text(*v);
                cat3("Int(", t.as_str(), ")")
            },
            Tok::Ident(s) => cat3("Ident(", s.as_str(), ")"),
            Tok::IntTy(signed, width) => {
                let w = u32_text(*width);
                if *signed {
                    cat5("IntTy(", "true", ", ", w.as_str(), ")")
                } else {
                    cat5("IntTy(", "false", ", ", w.as_str(), ")")
                }
            },
            Tok::Fn => "Fn".to_string(),
            Tok::Struct => "Struct".to_string(),
            Tok::Enum => "Enum".to_string(),
            Tok::Let => "Let".to_string(),
            Tok::Mut => "Mut".to_string(),
            Tok::If => "If".to_string(),
            Tok::Else => "Else".to_string(),
            Tok::While => "While".to_string(),
            Tok::For => "For".to_string(),
            Tok::In => "In".to_string(),
            Tok::Match => "Match".to_string(),
            Tok::Return => "Return".to_string(),
            Tok::Mod => "Mod".to_string(),
            Tok::Use => "Use".to_string(),
            Tok::Const => "Const".to_string(),
            Tok::True => "True".to_string(),
            Tok::False => "False".to_string(),
            Tok::Bool => "Bool".to_string(),
            Tok::Bit => "Bit".to_string(),
            Tok::LParen => "LParen".to_string(),
            Tok::RParen => "RParen".to_string(),
            Tok::LBrace => "LBrace".to_string(),
            Tok::RBrace => "RBrace".to_string(),
            Tok::LBracket => "LBracket".to_string(),
            Tok::RBracket => "RBracket".to_string(),
            Tok::Comma => "Comma".to_string(),
            Tok::Semi => "Semi".to_string(),
            Tok::Colon => "Colon".to_string(),
            Tok::ColonColon => "ColonColon".to_string(),
            Tok::Dot => "Dot".to_string(),
            Tok::DotDot => "DotDot".to_string(),
            Tok::DotDotEq => "DotDotEq".to_string(),
            Tok::Arrow => "Arrow".to_string(),
            Tok::FatArrow => "FatArrow".to_string(),
            Tok::Eq => "Eq".to_string(),
            Tok::EqEq => "EqEq".to_string(),
            Tok::Ne => "Ne".to_string(),
            Tok::Lt => "Lt".to_string(),
            Tok::Le => "Le".to_string(),
            Tok::Gt => "Gt".to_string(),
            Tok::Ge => "Ge".to_string(),
            Tok::Plus => "Plus".to_string(),
            Tok::Minus => "Minus".to_string(),
            Tok::Star => "Star".to_string(),
            Tok::Slash => "Slash".to_string(),
            Tok::Percent => "Percent".to_string(),
            Tok::AndAnd => "AndAnd".to_string(),
            Tok::OrOr => "OrOr".to_string(),
            Tok::Amp => "Amp".to_string(),
            Tok::Pipe => "Pipe".to_string(),
            Tok::Caret => "Caret".to_string(),
            Tok::Shl => "Shl".to_string(),
            Tok::Shr => "Shr".to_string(),
            Tok::Bang => "Bang".to_string(),
            Tok::Eof => "Eof".to_string(),
        }
    }

    /// The token as error messages call it.
    pub fn describe(&self) -> (r: String)
        ensures
            r@ == self@.described(),
    {
        reveal(KTok::described);
        reveal(Tok::model);
        match self {
            Tok::Eof => "end of input".to_string(),
            Tok::Ident(s) => cat3("identifier `", s.as_str(), "`"),
            Tok::Int(v) => {
                let t = i128_text(*v);
                cat3("integer `", t.as_str(), "`")
            },
            _ => {
                let n = self.name();
                cat3("`", n.as_str(), "`")
            },
        }
    }
}

} // verus!
