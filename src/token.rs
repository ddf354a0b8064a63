//! The packed token: one byte of kind followed by four bytes of offset.
use vstd::prelude::*;

use crate::kind::TokenKind;

verus! {

/// A token: its kind and the position where it starts.
///
/// The offset is kept as four little-endian bytes rather than a `u32`, so the record has
/// no alignment padding: one byte of kind, then four of offset, five bytes in all.
#[derive(Clone, Copy, Debug)]
pub struct Token {
    pub kind: TokenKind,
    /// The offset, least significant byte first.
    pub off: [u8; 4],
}

/// The `u32` held by four little-endian bytes.
pub open spec fn le_u32(b0: u8, b1: u8, b2: u8, b3: u8) -> u32 {
    (b0 as u32) | ((b1 as u32) << 8u32) | ((b2 as u32) << 16u32) | ((b3 as u32) << 24u32)
}

impl Token {
    /// The offset this token carries.
    pub open spec fn spec_offset(self) -> u32 {
        le_u32(self.off[0], self.off[1], self.off[2], self.off[3])
    }

    /// The position where this token starts.
    pub fn offset(self) -> (r: u32)
        ensures
            r == self.spec_offset(),
    {
        (self.off[0] as u32) | ((self.off[1] as u32) << 8u32) | ((self.off[2] as u32) << 16u32)
            | ((self.off[3] as u32) << 24u32)
    }

    /// A token of `kind` starting at `offset`.
    pub fn new(kind: TokenKind, offset: u32) -> (r: Token)
        ensures
            r.kind == kind,
            r.spec_offset() == offset,
    {
        let off: [u8; 4] = [
            (offset & 0xff) as u8,
            ((offset >> 8u32) & 0xff) as u8,
            ((offset >> 16u32) & 0xff) as u8,
            ((offset >> 24u32) & 0xff) as u8,
        ];
        proof {
            let (b0, b1, b2, b3) = (off[0], off[1], off[2], off[3]);
            assert(le_u32(b0, b1, b2, b3) == offset) by (bit_vector)
                requires
                    b0 == (offset & 0xff) as u8,
                    b1 == ((offset >> 8u32) & 0xff) as u8,
                    b2 == ((offset >> 16u32) & 0xff) as u8,
                    b3 == ((offset >> 24u32) & 0xff) as u8,
            ;
        }
        Token { kind, off }
    }

    /// The end-of-input token at `pos`.
    pub fn eof(pos: u32) -> (r: Token)
        ensures
            r.kind == TokenKind::Eof,
            r.spec_offset() == pos,
    {
        Self::new(TokenKind::Eof, pos)
    }
}

} // verus!
