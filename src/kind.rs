//! Token kinds and the packed five-byte token.
use vstd::prelude::*;

verus! {

/// The kind of a token. Each kind has a distinct one-byte tag (see [`TokenKind::tag`]):
/// a punctuation kind's tag is the ASCII code of its byte, and every other kind's tag
/// lies above `0x7e`, outside that range.
#[derive(Clone, Copy, Debug, PartialEq, Eq, PartialOrd, Ord, Hash, Structural)]
pub enum TokenKind {
    // Single bytes, tagged with their own value.
    /// `\0`
    Null,
    /// escape
    Esc,
    /// ` `
    Space,
    /// `!`
    Exclaim,
    /// `"`
    Quotation,
    /// `#`
    NumSign,
    /// `$`
    Dollar,
    /// `%`
    Rem,
    /// `&`
    Amp,
    /// `'`
    SingleQ,
    /// `(`
    LParen,
    /// `)`
    RParen,
    /// `*`
    Star,
    /// `+`
    Add,
    /// `,`
    Comma,
    /// `-`
    Sub,
    /// `.`
    Dot,
    /// `/`
    Slash,
    /// `:`
    Colon,
    /// `;`
    Semicolon,
    /// `<`
    Lt,
    /// `>`
    Gt,
    /// `?`
    Question,
    /// `@`
    At,
    /// `[`
    LBracket,
    /// `\`
    Backslash,
    /// `]`
    RBracket,
    /// `^`
    Carrot,
    /// `_`
    Underscore,
    /// `` ` ``
    Tick,
    /// `{`
    LBrace,
    /// `|`
    Pipe,
    /// `}`
    RBrace,
    /// `~`
    Tilde,
    // Two-byte operators.
    Bind,
    EqEq,
    SkinnyArrow,
    LtEq,
    GtEq,
    PipePipe,
    AndAnd,
    SubEq,
    MulEq,
    DivEq,
    AndEq,
    RemEq,
    AddEq,
    OrEq,
    XorEq,
    Path,
    // Reserved words.
    Import,
    Defun,
    Component,
    Obj,
    Union,
    Enum,
    Extends,
    Extend,
    ThisVar,
    ThisTy,
    Pub,
    Priv,
    LetKw,
    ForKw,
    IfKw,
    WhileKw,
    LoopKw,
    SwitchKw,
    CaseKw,
    ExternKw,
    MoveKw,
    MutKw,
    PackKw,
    // Compiler macros written after `@`.
    MainMacro,
    DocMacro,
    IntrinsicMacro,
    InlineMacro,
    UseStdMacro,
    ExtendMacro,
    ErrorMacro,
    HiddenMacro,
    LangMacro,
    AtDefun,
    // Primitive types.
    Int8,
    Int16,
    Int32,
    Int64,
    Uint8,
    Uint16,
    Uint32,
    Uint64,
    Usize,
    Isize,
    Float32,
    Float64,
    Any,
    Str,
    Bool,
    Char,
    // Comment markers.
    LineComment,
    BlockComment,
    // An identifier that is not a reserved word.
    Ident,
    // End of input, and a byte that starts no token.
    Eof,
    Unknown,
}

/// The punctuation kind whose tag is `b`, where there is one.
pub open spec fn punct_kind(b: u8) -> Option<TokenKind> {
    match b {
        0x00 => Some(TokenKind::Null),
        0x1b => Some(TokenKind::Esc),
        0x20 => Some(TokenKind::Space),
        0x21 => Some(TokenKind::Exclaim),
        0x22 => Some(TokenKind::Quotation),
        0x23 => Some(TokenKind::NumSign),
        0x24 => Some(TokenKind::Dollar),
        0x25 => Some(TokenKind::Rem),
        0x26 => Some(TokenKind::Amp),
        0x27 => Some(TokenKind::SingleQ),
        0x28 => Some(TokenKind::LParen),
        0x29 => Some(TokenKind::RParen),
        0x2a => Some(TokenKind::Star),
        0x2b => Some(TokenKind::Add),
        0x2c => Some(TokenKind::Comma),
        0x2d => Some(TokenKind::Sub),
        0x2e => Some(TokenKind::Dot),
        0x2f => Some(TokenKind::Slash),
        0x3a => Some(TokenKind::Colon),
        0x3b => Some(TokenKind::Semicolon),
        0x3c => Some(TokenKind::Lt),
        0x3e => Some(TokenKind::Gt),
        0x3f => Some(TokenKind::Question),
        0x40 => Some(TokenKind::At),
        0x5b => Some(TokenKind::LBracket),
        0x5c => Some(TokenKind::Backslash),
        0x5d => Some(TokenKind::RBracket),
        0x5e => Some(TokenKind::Carrot),
        0x5f => Some(TokenKind::Underscore),
        0x60 => Some(TokenKind::Tick),
        0x7b => Some(TokenKind::LBrace),
        0x7c => Some(TokenKind::Pipe),
        0x7d => Some(TokenKind::RBrace),
        0x7e => Some(TokenKind::Tilde),
        _ => None,
    }
}

impl TokenKind {
    /// The tag of this kind, as a spec value.
    pub open spec fn spec_tag(self) -> u8 {
        match self {
            TokenKind::Null => 0x00,
            TokenKind::Esc => 0x1b,
            TokenKind::Space => 0x20,
            TokenKind::Exclaim => 0x21,
            TokenKind::Quotation => 0x22,
            TokenKind::NumSign => 0x23,
            TokenKind::Dollar => 0x24,
            TokenKind::Rem => 0x25,
            TokenKind::Amp => 0x26,
            TokenKind::SingleQ => 0x27,
            TokenKind::LParen => 0x28,
            TokenKind::RParen => 0x29,
            TokenKind::Star => 0x2a,
            TokenKind::Add => 0x2b,
            TokenKind::Comma => 0x2c,
            TokenKind::Sub => 0x2d,
            TokenKind::Dot => 0x2e,
            TokenKind::Slash => 0x2f,
            TokenKind::Colon => 0x3a,
            TokenKind::Semicolon => 0x3b,
            TokenKind::Lt => 0x3c,
            TokenKind::Gt => 0x3e,
            TokenKind::Question => 0x3f,
            TokenKind::At => 0x40,
            TokenKind::LBracket => 0x5b,
            TokenKind::Backslash => 0x5c,
            TokenKind::RBracket => 0x5d,
            TokenKind::Carrot => 0x5e,
            TokenKind::Underscore => 0x5f,
            TokenKind::Tick => 0x60,
            TokenKind::LBrace => 0x7b,
            TokenKind::Pipe => 0x7c,
            TokenKind::RBrace => 0x7d,
            TokenKind::Tilde => 0x7e,
            TokenKind::Bind => 0x7f,
            TokenKind::EqEq => 0x80,
            TokenKind::SkinnyArrow => 0x81,
            TokenKind::LtEq => 0x82,
            TokenKind::GtEq => 0x83,
            TokenKind::PipePipe => 0x84,
            TokenKind::AndAnd => 0x85,
            TokenKind::SubEq => 0x86,
            TokenKind::MulEq => 0x87,
            TokenKind::DivEq => 0x88,
            TokenKind::AndEq => 0x89,
            TokenKind::RemEq => 0x8a,
            TokenKind::AddEq => 0x8b,
            TokenKind::OrEq => 0x8c,
            TokenKind::XorEq => 0x8d,
            TokenKind::Path => 0x8e,
            TokenKind::Import => 0x8f,
            TokenKind::Defun => 0x90,
            TokenKind::Component => 0x91,
            TokenKind::Obj => 0x92,
            TokenKind::Union => 0x93,
            TokenKind::Enum => 0x94,
            TokenKind::Extends => 0x95,
            TokenKind::Extend => 0x96,
            TokenKind::ThisVar => 0x97,
            TokenKind::ThisTy => 0x98,
            TokenKind::Pub => 0x99,
            TokenKind::Priv => 0x9a,
            TokenKind::LetKw => 0x9b,
            TokenKind::ForKw => 0x9c,
            TokenKind::IfKw => 0x9d,
            TokenKind::WhileKw => 0x9e,
            TokenKind::LoopKw => 0x9f,
            TokenKind::SwitchKw => 0xa0,
            TokenKind::CaseKw => 0xa1,
            TokenKind::ExternKw => 0xa2,
            TokenKind::MoveKw => 0xa3,
            TokenKind::MutKw => 0xa4,
            TokenKind::PackKw => 0xa5,
            TokenKind::MainMacro => 0xa6,
            TokenKind::DocMacro => 0xa7,
            TokenKind::IntrinsicMacro => 0xa8,
            TokenKind::InlineMacro => 0xa9,
            TokenKind::UseStdMacro => 0xaa,
            TokenKind::ExtendMacro => 0xab,
            TokenKind::ErrorMacro => 0xac,
            TokenKind::HiddenMacro => 0xad,
            TokenKind::LangMacro => 0xae,
            TokenKind::AtDefun => 0xaf,
            TokenKind::Int8 => 0xb0,
            TokenKind::Int16 => 0xb1,
            TokenKind::Int32 => 0xb2,
            TokenKind::Int64 => 0xb3,
            TokenKind::Uint8 => 0xb4,
            TokenKind::Uint16 => 0xb5,
            TokenKind::Uint32 => 0xb6,
            TokenKind::Uint64 => 0xb7,
            TokenKind::Usize => 0xb8,
            TokenKind::Isize => 0xb9,
            TokenKind::Float32 => 0xba,
            TokenKind::Float64 => 0xbb,
            TokenKind::Any => 0xbc,
            TokenKind::Str => 0xbd,
            TokenKind::Bool => 0xbe,
            TokenKind::Char => 0xbf,
            TokenKind::LineComment => 0xc0,
            TokenKind::BlockComment => 0xc1,
            TokenKind::Ident => 0xc2,
            TokenKind::Eof => 0xc3,
            TokenKind::Unknown => 0xc4,
        }
    }

    /// The one-byte tag of this kind.
    #[verifier::when_used_as_spec(spec_tag)]
    pub fn tag(self) -> (r: u8)
        ensures
            r == self.spec_tag(),
    {
        match self {
            TokenKind::Null => 0x00,
            TokenKind::Esc => 0x1b,
            TokenKind::Space => 0x20,
            TokenKind::Exclaim => 0x21,
            TokenKind::Quotation => 0x22,
            TokenKind::NumSign => 0x23,
            TokenKind::Dollar => 0x24,
            TokenKind::Rem => 0x25,
            TokenKind::Amp => 0x26,
            TokenKind::SingleQ => 0x27,
            TokenKind::LParen => 0x28,
            TokenKind::RParen => 0x29,
            TokenKind::Star => 0x2a,
            TokenKind::Add => 0x2b,
            TokenKind::Comma => 0x2c,
            TokenKind::Sub => 0x2d,
            TokenKind::Dot => 0x2e,
            TokenKind::Slash => 0x2f,
            TokenKind::Colon => 0x3a,
            TokenKind::Semicolon => 0x3b,
            TokenKind::Lt => 0x3c,
            TokenKind::Gt => 0x3e,
            TokenKind::Question => 0x3f,
            TokenKind::At => 0x40,
            TokenKind::LBracket => 0x5b,
            TokenKind::Backslash => 0x5c,
            TokenKind::RBracket => 0x5d,
            TokenKind::Carrot => 0x5e,
            TokenKind::Underscore => 0x5f,
            TokenKind::Tick => 0x60,
            TokenKind::LBrace => 0x7b,
            TokenKind::Pipe => 0x7c,
            TokenKind::RBrace => 0x7d,
            TokenKind::Tilde => 0x7e,
            TokenKind::Bind => 0x7f,
            TokenKind::EqEq => 0x80,
            TokenKind::SkinnyArrow => 0x81,
            TokenKind::LtEq => 0x82,
            TokenKind::GtEq => 0x83,
            TokenKind::PipePipe => 0x84,
            TokenKind::AndAnd => 0x85,
            TokenKind::SubEq => 0x86,
            TokenKind::MulEq => 0x87,
            TokenKind::DivEq => 0x88,
            TokenKind::AndEq => 0x89,
            TokenKind::RemEq => 0x8a,
            TokenKind::AddEq => 0x8b,
            TokenKind::OrEq => 0x8c,
            TokenKind::XorEq => 0x8d,
            TokenKind::Path => 0x8e,
            TokenKind::Import => 0x8f,
            TokenKind::Defun => 0x90,
            TokenKind::Component => 0x91,
            TokenKind::Obj => 0x92,
            TokenKind::Union => 0x93,
            TokenKind::Enum => 0x94,
            TokenKind::Extends => 0x95,
            TokenKind::Extend => 0x96,
            TokenKind::ThisVar => 0x97,
            TokenKind::ThisTy => 0x98,
            TokenKind::Pub => 0x99,
            TokenKind::Priv => 0x9a,
            TokenKind::LetKw => 0x9b,
            TokenKind::ForKw => 0x9c,
            TokenKind::IfKw => 0x9d,
            TokenKind::WhileKw => 0x9e,
            TokenKind::LoopKw => 0x9f,
            TokenKind::SwitchKw => 0xa0,
            TokenKind::CaseKw => 0xa1,
            TokenKind::ExternKw => 0xa2,
            TokenKind::MoveKw => 0xa3,
            TokenKind::MutKw => 0xa4,
            TokenKind::PackKw => 0xa5,
            TokenKind::MainMacro => 0xa6,
            TokenKind::DocMacro => 0xa7,
            TokenKind::IntrinsicMacro => 0xa8,
            TokenKind::InlineMacro => 0xa9,
            TokenKind::UseStdMacro => 0xaa,
            TokenKind::ExtendMacro => 0xab,
            TokenKind::ErrorMacro => 0xac,
            TokenKind::HiddenMacro => 0xad,
            TokenKind::LangMacro => 0xae,
            TokenKind::AtDefun => 0xaf,
            TokenKind::Int8 => 0xb0,
            TokenKind::Int16 => 0xb1,
            TokenKind::Int32 => 0xb2,
            TokenKind::Int64 => 0xb3,
            TokenKind::Uint8 => 0xb4,
            TokenKind::Uint16 => 0xb5,
            TokenKind::Uint32 => 0xb6,
            TokenKind::Uint64 => 0xb7,
            TokenKind::Usize => 0xb8,
            TokenKind::Isize => 0xb9,
            TokenKind::Float32 => 0xba,
            TokenKind::Float64 => 0xbb,
            TokenKind::Any => 0xbc,
            TokenKind::Str => 0xbd,
            TokenKind::Bool => 0xbe,
            TokenKind::Char => 0xbf,
            TokenKind::LineComment => 0xc0,
            TokenKind::BlockComment => 0xc1,
            TokenKind::Ident => 0xc2,
            TokenKind::Eof => 0xc3,
            TokenKind::Unknown => 0xc4,
        }
    }

    /// The punctuation kind for byte `b`, or `None` where no kind is tagged with `b`
    /// within the punctuation range.
    pub fn from_byte(b: u8) -> (r: Option<TokenKind>)
        ensures
            r == punct_kind(b),
    {
        match b {
            0x00 => Some(TokenKind::Null),
            0x1b => Some(TokenKind::Esc),
            0x20 => Some(TokenKind::Space),
            0x21 => Some(TokenKind::Exclaim),
            0x22 => Some(TokenKind::Quotation),
            0x23 => Some(TokenKind::NumSign),
            0x24 => Some(TokenKind::Dollar),
            0x25 => Some(TokenKind::Rem),
            0x26 => Some(TokenKind::Amp),
            0x27 => Some(TokenKind::SingleQ),
            0x28 => Some(TokenKind::LParen),
            0x29 => Some(TokenKind::RParen),
            0x2a => Some(TokenKind::Star),
            0x2b => Some(TokenKind::Add),
            0x2c => Some(TokenKind::Comma),
            0x2d => Some(TokenKind::Sub),
            0x2e => Some(TokenKind::Dot),
            0x2f => Some(TokenKind::Slash),
            0x3a => Some(TokenKind::Colon),
            0x3b => Some(TokenKind::Semicolon),
            0x3c => Some(TokenKind::Lt),
            0x3e => Some(TokenKind::Gt),
            0x3f => Some(TokenKind::Question),
            0x40 => Some(TokenKind::At),
            0x5b => Some(TokenKind::LBracket),
            0x5c => Some(TokenKind::Backslash),
            0x5d => Some(TokenKind::RBracket),
            0x5e => Some(TokenKind::Carrot),
            0x5f => Some(TokenKind::Underscore),
            0x60 => Some(TokenKind::Tick),
            0x7b => Some(TokenKind::LBrace),
            0x7c => Some(TokenKind::Pipe),
            0x7d => Some(TokenKind::RBrace),
            0x7e => Some(TokenKind::Tilde),
            _ => None,
        }
    }
}

/// A punctuation kind carries its byte as its tag.
pub proof fn lemma_punct_tag(b: u8)
    ensures
        punct_kind(b) matches Some(k) ==> k.spec_tag() == b,
{
}

/// Tags of punctuation kinds stay in `0 ..= 0x7e`, tags of all other kinds lie above it.
pub proof fn lemma_tag_regions(k: TokenKind)
    ensures
        k.spec_tag() <= 0x7e <==> punct_kind(k.spec_tag()) == Some(k),
{
}

/// No two kinds share a tag.
pub proof fn lemma_tag_injective(a: TokenKind, b: TokenKind)
    ensures
        a.spec_tag() == b.spec_tag() ==> a == b,
{
}

} // verus!
