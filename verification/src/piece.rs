//! One cell of the board.

use vstd::prelude::*;
use vstd::arithmetic::power2::pow2;

verus! {

/// A single cell: `scale` is the exponent of the tile's power-of-two value
/// (`scale == 0` means the cell is empty), and `(x, y)` are the cell's
/// coordinates inside the board.
#[derive(Debug, Clone, Copy, PartialEq, Eq, Structural)]
pub struct Piece {
    pub scale: u8,
    pub x: u8,
    pub y: u8,
}

/// Computes `2^e` as a machine integer.
pub fn pow2_u32(e: u8) -> (r: u32)
    requires
        e < 32,
    ensures
        r == pow2(e as nat),
{
    let mut r: u32 = 1;
    let mut i: u8 = 0;
    proof {
        vstd::arithmetic::power2::lemma2_to64();
    }
    while i < e
        invariant
            i <= e < 32,
            r == pow2(i as nat),
        decreases e - i,
    {
        proof {
            vstd::arithmetic::power2::lemma2_to64();
            if (i as nat) < 31 {
                vstd::arithmetic::power2::lemma_pow2_strictly_increases(i as nat, 31);
            }
            vstd::arithmetic::power2::lemma_pow2_unfold(i as nat + 1);
        }
        r = r * 2;
        i = i + 1;
    }
    r
}

impl Piece {
    /// The displayed value of the tile: `2^scale`.
    pub fn as_number(&self) -> (r: u32)
        requires
            self.scale < 32,
        ensures
            r == pow2(self.scale as nat),
    {
        pow2_u32(self.scale)
    }

    /// The tile's displayed text: empty for an empty cell, otherwise the
    /// decimal value.
    pub fn as_string(&self) -> (s: String)
        requires
            self.scale < 32,
        ensures
            self.scale == 0 ==> s@ == Seq::<char>::empty(),
            self.scale != 0 ==> s@ == crate::text::dec_u32(pow2(self.scale as nat) as nat),
    {
        if self.scale == 0 {
            String::new()
        } else {
            crate::text::u32_text(self.as_number())
        }
    }
}

} // verus!
