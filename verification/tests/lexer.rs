//! Tokens of source texts.

use rune::lexer::lex;
use rune::token::Tok;
use rune::Stage;

fn kinds(src: &str) -> Vec<Tok> {
    lex(src).unwrap().into_iter().map(|t| t.tok).collect()
}

#[test]
fn lexes_keywords_and_idents() {
    assert_eq!(
        kinds("fn add foo_bar"),
        vec![
            Tok::Fn,
            Tok::Ident("add".into()),
            Tok::Ident("foo_bar".into()),
            Tok::Eof
        ]
    );
}

#[test]
fn lexes_int_types_and_bit() {
    assert_eq!(
        kinds("bit i8 u64 bool"),
        vec![
            Tok::Bit,
            Tok::IntTy(true, 8),
            Tok::IntTy(false, 64),
            Tok::Bool,
            Tok::Eof
        ]
    );
}

#[test]
fn lexes_numbers_decimal_hex_underscore() {
    assert_eq!(
        kinds("0 42 1_000 0xFF 0x1_0"),
        vec![
            Tok::Int(0),
            Tok::Int(42),
            Tok::Int(1000),
            Tok::Int(255),
            Tok::Int(16),
            Tok::Eof
        ]
    );
}

#[test]
fn lexes_operators() {
    assert_eq!(
        kinds("-> => == != <= >= && || << >> .. + - * / % & | ^ ! < > ="),
        vec![
            Tok::Arrow,
            Tok::FatArrow,
            Tok::EqEq,
            Tok::Ne,
            Tok::Le,
            Tok::Ge,
            Tok::AndAnd,
            Tok::OrOr,
            Tok::Shl,
            Tok::Shr,
            Tok::DotDot,
            Tok::Plus,
            Tok::Minus,
            Tok::Star,
            Tok::Slash,
            Tok::Percent,
            Tok::Amp,
            Tok::Pipe,
            Tok::Caret,
            Tok::Bang,
            Tok::Lt,
            Tok::Gt,
            Tok::Eq,
            Tok::Eof
        ]
    );
}

#[test]
fn skips_comments() {
    assert_eq!(
        kinds("fn // line\n add /* block */ x"),
        vec![Tok::Fn, Tok::Ident("add".into()), Tok::Ident("x".into()), Tok::Eof]
    );
}

#[test]
fn milestone_sample_lexes() {
    let src = "fn add8(a: bit<8>, b: bit<8>) -> bit<8> { a + b }";
    // Spot-check a couple of interesting tokens and that it ends in Eof.
    let ts = kinds(src);
    assert_eq!(ts[0], Tok::Fn);
    assert!(ts.contains(&Tok::Bit));
    assert!(ts.contains(&Tok::Arrow));
    assert_eq!(*ts.last().unwrap(), Tok::Eof);
}

#[test]
fn errors_on_stray_char() {
    let err = lex("fn @").unwrap_err();
    assert_eq!(err.stage, Stage::Lex);
}
