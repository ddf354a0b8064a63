use betac_parser::parser::{compound, macro_name, starts_word};
use betac_parser::{Parser, Token, TokenKind};

fn first(src: &[u8]) -> (TokenKind, u32, usize) {
    let mut p = Parser::new(src);
    let t = p.next_token();
    (t.kind, t.offset(), p.as_slice().len())
}

fn all(src: &[u8]) -> Vec<(TokenKind, u32)> {
    let mut p = Parser::new(src);
    let mut out = Vec::new();
    loop {
        let t = p.next_token();
        out.push((t.kind, t.offset()));
        if t.kind == TokenKind::Eof {
            return out;
        }
    }
}

#[test]
fn import_stops_at_space() {
    let mut p = Parser::new(b"import ");
    let t = p.next_token();
    assert_eq!(t.kind, TokenKind::Import);
    assert_eq!(t.offset(), 1);
    assert_eq!(p.as_slice(), b" ");
    assert_eq!(p.next(), b' ');
}

#[test]
fn int8_before_paren() {
    let (k, _, left) = first(b"int8)");
    assert_eq!(k, TokenKind::Int8);
    assert_eq!(left, 1);
}

#[test]
fn this_value_and_this_type() {
    assert_eq!(first(b"this ").0, TokenKind::ThisVar);
    assert_eq!(first(b"This)").0, TokenKind::ThisTy);
}

#[test]
fn eq_eq_and_bind() {
    let (k, off, left) = first(b"==");
    assert_eq!((k, off, left), (TokenKind::EqEq, 1, 0));
    assert_eq!(all(b"="), vec![(TokenKind::Bind, 1), (TokenKind::Eof, 1)]);
}

#[test]
fn doc_macro_and_bare_at() {
    let (k, _, left) = first(b"@doc ");
    assert_eq!((k, left), (TokenKind::DocMacro, 1));
    let (k, _, left) = first(b"@ ");
    assert_eq!((k, left), (TokenKind::At, 1));
}

#[test]
fn identifier_x1() {
    let (k, off, left) = first(b"x1 ");
    assert_eq!((k, off, left), (TokenKind::Ident, 1, 1));
}

#[test]
fn every_keyword_with_every_ending() {
    let words: &[(&str, &str, TokenKind)] = &[
        ("import", " ", TokenKind::Import),
        ("if", " ", TokenKind::IfKw),
        ("int8", "){,> .", TokenKind::Int8),
        ("int16", "){,> .", TokenKind::Int16),
        ("int32", "){,> .", TokenKind::Int32),
        ("int64", "){,> .", TokenKind::Int64),
        ("isize", "){,> .", TokenKind::Isize),
        ("defun", " ", TokenKind::Defun),
        ("component", " {", TokenKind::Component),
        ("case", " :", TokenKind::CaseKw),
        ("char", " {,>).", TokenKind::Char),
        ("obj", " {", TokenKind::Obj),
        ("extends", " ", TokenKind::Extends),
        ("extend", " ", TokenKind::Extend),
        ("extern", " \"", TokenKind::ExternKw),
        ("enum", " {", TokenKind::Enum),
        ("this", " ", TokenKind::ThisVar),
        ("pub", " (", TokenKind::Pub),
        ("priv", " (", TokenKind::Priv),
        ("pack", " )", TokenKind::PackKw),
        ("let", " ", TokenKind::LetKw),
        ("loop", " {", TokenKind::LoopKw),
        ("for", " (", TokenKind::ForKw),
        ("float32", " ){,>.", TokenKind::Float32),
        ("float64", " ){,>.", TokenKind::Float64),
        ("while", " (", TokenKind::WhileKw),
        ("switch", " ", TokenKind::SwitchKw),
        ("str", " ){,>.", TokenKind::Str),
        ("move", " ", TokenKind::MoveKw),
        ("mut", " ", TokenKind::MutKw),
        ("any", " ){,>.", TokenKind::Any),
        ("bool", " ){,>.", TokenKind::Bool),
        ("union", " {", TokenKind::Union),
        ("uint8", "){,> .", TokenKind::Uint8),
        ("uint16", "){,> .", TokenKind::Uint16),
        ("uint32", "){,> .", TokenKind::Uint32),
        ("uint64", "){,> .", TokenKind::Uint64),
        ("usize", "){,> .", TokenKind::Usize),
        ("This", "){,> .", TokenKind::ThisTy),
    ];
    for (word, ends, kind) in words {
        for end in ends.bytes() {
            let mut src = word.as_bytes().to_vec();
            src.push(end);
            let mut p = Parser::new(&src);
            let t = p.next_token();
            assert_eq!(t.kind, *kind, "{}{}", word, end as char);
            assert_eq!(p.as_slice(), &[end][..]);
        }
    }
}

#[test]
fn keyword_without_ending_is_identifier() {
    assert_eq!(first(b"ifx ").0, TokenKind::Ident);
    assert_eq!(first(b"ifx ").2, 1);
    assert_eq!(first(b"import_x ").0, TokenKind::Ident);
    assert_eq!(first(b"int8a)").2, 1);
    // A word at the very end of the input has no ending byte.
    assert_eq!(all(b"if"), vec![(TokenKind::Ident, 1), (TokenKind::Eof, 2)]);
    // An ending byte that this word does not accept.
    assert_eq!(first(b"import(").0, TokenKind::Ident);
}

#[test]
fn extend_followed_by_s_is_extends() {
    assert_eq!(first(b"extends ").0, TokenKind::Extends);
    assert_eq!(first(b"extendsx ").0, TokenKind::Ident);
}

#[test]
fn punctuation_tags_are_their_bytes() {
    for b in 0u8..=255 {
        let src = [b, b'9'];
        let k = first(&src).0;
        if let Some(p) = TokenKind::from_byte(b) {
            if b != b'@' && b != b'_' {
                assert_eq!(k.tag(), b);
                assert_eq!(k, p);
            }
        } else if b != b'=' && !b.is_ascii_alphabetic() {
            assert_eq!(k, TokenKind::Unknown);
        }
    }
    assert_eq!(TokenKind::Lt.tag(), b'<');
    assert_eq!(TokenKind::Esc.tag(), 0x1b);
    assert_eq!(TokenKind::Null.tag(), 0);
    assert!(TokenKind::Bind.tag() > 0x7e);
    assert!(TokenKind::Unknown.tag() > 0x7e);
}

#[test]
fn end_of_input_repeats() {
    let mut p = Parser::new(b"a");
    assert_eq!(p.next_token().kind, TokenKind::Ident);
    for _ in 0..3 {
        let t = p.next_token();
        assert_eq!(t.kind, TokenKind::Eof);
        assert_eq!(t.offset(), 1);
    }
    let mut e = Parser::new(b"");
    assert_eq!(e.next_token().offset(), 0);
    assert_eq!(e.next_token().kind, TokenKind::Eof);
}

#[test]
fn two_byte_operators() {
    let cases: &[(&[u8], TokenKind)] = &[
        (b"==", TokenKind::EqEq),
        (b"->", TokenKind::SkinnyArrow),
        (b"<=", TokenKind::LtEq),
        (b">=", TokenKind::GtEq),
        (b"||", TokenKind::PipePipe),
        (b"&&", TokenKind::AndAnd),
        (b"+=", TokenKind::AddEq),
        (b"-=", TokenKind::SubEq),
        (b"*=", TokenKind::MulEq),
        (b"/=", TokenKind::DivEq),
        (b"%=", TokenKind::RemEq),
        (b"&=", TokenKind::AndEq),
        (b"|=", TokenKind::OrEq),
        (b"^=", TokenKind::XorEq),
        (b"::", TokenKind::Path),
    ];
    for (src, kind) in cases {
        assert_eq!(first(src), (*kind, 1, 0));
        assert_eq!(compound(src[0], src[1]), Some(*kind));
    }
    assert_eq!(first(b"=x"), (TokenKind::Bind, 1, 1));
    assert_eq!(first(b"<x"), (TokenKind::Lt, 1, 1));
    assert_eq!(first(b"-x"), (TokenKind::Sub, 1, 1));
    assert_eq!(compound(b'=', b'x'), None);
}

#[test]
fn macros() {
    let cases: &[(&[u8], TokenKind)] = &[
        (b"@main ", TokenKind::MainMacro),
        (b"@intrinsic(", TokenKind::IntrinsicMacro),
        (b"@inline", TokenKind::InlineMacro),
        (b"@use-std ", TokenKind::UseStdMacro),
        (b"@extend ", TokenKind::ExtendMacro),
        (b"@error ", TokenKind::ErrorMacro),
        (b"@hidden ", TokenKind::HiddenMacro),
        (b"@lang ", TokenKind::LangMacro),
        (b"@defun ", TokenKind::AtDefun),
    ];
    for (src, kind) in cases {
        let mut p = Parser::new(src);
        assert_eq!(p.next_token().kind, *kind);
        assert!(p.as_slice().len() <= 1);
    }
    assert_eq!(first(b"@docs "), (TokenKind::Unknown, 1, 5));
    assert_eq!(first(b"@"), (TokenKind::Unknown, 1, 0));
    assert_eq!(macro_name(b"doc "), Some((TokenKind::DocMacro, 3)));
    assert!(starts_word(b"doc", b"doc"));
    assert!(!starts_word(b"docx", b"doc"));
}

#[test]
fn token_stream_offsets() {
    assert_eq!(
        all(b"let x1 == y;"),
        vec![
            (TokenKind::LetKw, 1),
            (TokenKind::Space, 4),
            (TokenKind::Ident, 5),
            (TokenKind::Space, 7),
            (TokenKind::EqEq, 8),
            (TokenKind::Space, 10),
            (TokenKind::Ident, 11),
            (TokenKind::Semicolon, 12),
            (TokenKind::Eof, 12),
        ]
    );
    assert_eq!(first(b"9").0, TokenKind::Unknown);
    assert_eq!(first(&[0xc3, 0xa9]).0, TokenKind::Unknown);
}

#[test]
fn token_is_five_bytes() {
    assert_eq!(std::mem::size_of::<Token>(), 5);
    let t = Token::new(TokenKind::Str, 0x1234_5678);
    assert_eq!(t.kind, TokenKind::Str);
    assert_eq!(t.offset(), 0x1234_5678);
    assert_eq!(t.off, [0x78, 0x56, 0x34, 0x12]);
    assert_eq!(Token::new(TokenKind::Any, u32::MAX).offset(), u32::MAX);
    assert_eq!(Token::eof(7).kind, TokenKind::Eof);
    assert_eq!(Token::eof(7).offset(), 7);
}

#[test]
fn bump_slice_next() {
    let mut p = Parser::new(b"abc");
    assert_eq!(p.next(), b'a');
    assert_eq!(p.bump(), Some(b'a'));
    assert_eq!(p.slice(1), b"b");
    assert_eq!(p.as_slice(), b"bc");
    assert_eq!(p.bump(), Some(b'b'));
    assert_eq!(p.bump(), Some(b'c'));
    assert_eq!(p.bump(), None);
    assert_eq!(p.next(), 0);
}
