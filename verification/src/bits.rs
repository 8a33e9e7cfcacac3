//! Bitfield register accessor.
//!
//! A register word is an unsigned 32-bit value; a bitfield is a named range
//! of bits `lo..=hi` within such a word. Extraction reads exactly the bits of
//! the range; injection replaces exactly those bits and leaves every other
//! bit of the word untouched.

use vstd::prelude::*;

verus! {

/// A bit range `lo..=hi` within a 32-bit register word.
#[derive(Clone, Copy, PartialEq, Eq, Structural)]
pub struct BitRange {
    pub lo: u32,
    pub hi: u32,
}

impl BitRange {
    /// A range is well formed when it lies inside the 32-bit word.
    pub open spec fn wf(self) -> bool {
        self.lo <= self.hi && self.hi < 32
    }

    /// The number of bits in the range.
    pub open spec fn width(self) -> u32 {
        (self.hi - self.lo + 1) as u32
    }

    /// The mask with ones exactly at the bits of the range.
    pub open spec fn mask(self) -> u32 {
        ones_below(self.width()) << self.lo
    }

    /// The value held by the bits of the range within `word`.
    pub open spec fn spec_extract(self, word: u32) -> u32 {
        (word >> self.lo) & ones_below(self.width())
    }

    /// `word` with the bits of the range replaced by the low bits of `value`.
    pub open spec fn spec_inject(self, word: u32, value: u32) -> u32 {
        (word & !self.mask()) | ((value << self.lo) & self.mask())
    }

    /// Two ranges share no bit.
    pub open spec fn disjoint(self, other: BitRange) -> bool {
        self.hi < other.lo || other.hi < self.lo
    }

    /// Reads the bits of this range out of `word`.
    pub fn extract(self, word: u32) -> (r: u32)
        requires
            self.wf(),
        ensures
            r == self.spec_extract(word),
    {
        (word >> self.lo) & ones_below_exec(self.width_exec())
    }

    /// Writes the low bits of `value` into this range of `word`, leaving
    /// all bits outside the range unchanged.
    pub fn inject(self, word: u32, value: u32) -> (r: u32)
        requires
            self.wf(),
        ensures
            r == self.spec_inject(word, value),
    {
        let m: u32 = ones_below_exec(self.width_exec()) << self.lo;
        assert(m == self.mask());
        (word & !m) | ((value << self.lo) & m)
    }

    fn width_exec(self) -> (r: u32)
        requires
            self.wf(),
        ensures
            r == self.width(),
    {
        self.hi - self.lo + 1
    }
}

/// The mask of `n` one bits at the bottom of a word, for `n <= 32`.
pub open spec fn ones_below(n: u32) -> u32 {
    if n >= 32 {
        0xffff_ffffu32
    } else {
        ((1u32 << n) - 1) as u32
    }
}

fn ones_below_exec(n: u32) -> (r: u32)
    requires
        n <= 32,
    ensures
        r == ones_below(n),
{
    if n >= 32 {
        0xffff_ffffu32
    } else {
        assert((1u32 << n) >= 1) by (bit_vector)
            requires
                n < 32,
        ;
        (1u32 << n) - 1
    }
}

/// Extraction after injection on the same range yields the injected value,
/// reduced to the width of the range.
pub proof fn lemma_extract_inject(f: BitRange, word: u32, value: u32)
    requires
        f.wf(),
    ensures
        f.spec_extract(f.spec_inject(word, value)) == value & ones_below(f.width()),
{
    let lo = f.lo;
    let hi = f.hi;
    assert((((word & !((if hi - lo + 1 >= 32 {
        0xffff_ffffu32
    } else {
        ((1u32 << ((hi - lo + 1) as u32)) - 1) as u32
    }) << lo)) | ((value << lo) & ((if hi - lo + 1 >= 32 {
        0xffff_ffffu32
    } else {
        ((1u32 << ((hi - lo + 1) as u32)) - 1) as u32
    }) << lo))) >> lo) & (if hi - lo + 1 >= 32 {
        0xffff_ffffu32
    } else {
        ((1u32 << ((hi - lo + 1) as u32)) - 1) as u32
    }) == value & (if hi - lo + 1 >= 32 {
        0xffff_ffffu32
    } else {
        ((1u32 << ((hi - lo + 1) as u32)) - 1) as u32
    })) by (bit_vector)
        requires
            lo <= hi < 32,
    ;
}

/// Injection into one range never disturbs the bits of a disjoint range.
pub proof fn lemma_inject_preserves_disjoint(f: BitRange, g: BitRange, word: u32, value: u32)
    requires
        f.wf(),
        g.wf(),
        f.disjoint(g),
    ensures
        g.spec_extract(f.spec_inject(word, value)) == g.spec_extract(word),
{
    let flo = f.lo;
    let fhi = f.hi;
    let glo = g.lo;
    let ghi = g.hi;
    assert((((word & !((if fhi - flo + 1 >= 32 {
        0xffff_ffffu32
    } else {
        ((1u32 << ((fhi - flo + 1) as u32)) - 1) as u32
    }) << flo)) | ((value << flo) & ((if fhi - flo + 1 >= 32 {
        0xffff_ffffu32
    } else {
        ((1u32 << ((fhi - flo + 1) as u32)) - 1) as u32
    }) << flo))) >> glo) & (if ghi - glo + 1 >= 32 {
        0xffff_ffffu32
    } else {
        ((1u32 << ((ghi - glo + 1) as u32)) - 1) as u32
    }) == (word >> glo) & (if ghi - glo + 1 >= 32 {
        0xffff_ffffu32
    } else {
        ((1u32 << ((ghi - glo + 1) as u32)) - 1) as u32
    })) by (bit_vector)
        requires
            flo <= fhi < 32,
            glo <= ghi < 32,
            fhi < glo || ghi < flo,
    ;
}

} // verus!
