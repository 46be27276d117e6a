use vstd::prelude::*;

verus! {

/// Per-instruction pass flags understood by the tracking interpreter.
///
/// The associated constants are the single flag bits.
#[derive(Clone, Copy, Debug, PartialEq, Eq, Structural)]
pub struct PassFlags {
    pub bits: u8,
}

impl PassFlags {
    pub const LINEAR: u8 = 0x1;
    pub const FIVED: u8 = 0x2;
    pub const EXACT: u8 = 0x4;
    pub const KICK: u8 = 0x8;
    pub const RADIATION: u8 = 0x10;
    pub const DOUBLE_PRECISION: u8 = 0x20;
    pub const ACHROMATIC: u8 = 0x40;
    pub const NO_APERTURE_CHECK: u8 = 0x80;

    /// The set with no flag.
    pub fn empty() -> (f: PassFlags)
        ensures
            f.bits == 0,
    {
        PassFlags { bits: 0 }
    }

    /// The raw bits.
    pub fn bits(&self) -> (b: u8)
        ensures
            b == self.bits,
    {
        self.bits
    }

    /// The flags whose bits are `bits`, unknown bits included.
    pub fn from_bits_retain(bits: u8) -> (f: PassFlags)
        ensures
            f.bits == bits,
    {
        PassFlags { bits }
    }

    /// Whether every flag bit of `flag` is set in `self`.
    pub fn contains(&self, flag: u8) -> (b: bool)
        ensures
            b == (self.bits & flag == flag),
    {
        self.bits & flag == flag
    }

    /// Whether no flag is set.
    pub fn is_empty(&self) -> (b: bool)
        ensures
            b == (self.bits == 0),
    {
        self.bits == 0
    }

    /// The flags set in `self` or in `other`.
    pub fn union(self, other: PassFlags) -> (f: PassFlags)
        ensures
            f.bits == self.bits | other.bits,
    {
        PassFlags { bits: self.bits | other.bits }
    }

    /// Sets every flag bit of `flag`.
    pub fn insert(&mut self, flag: u8)
        ensures
            final(self).bits == old(self).bits | flag,
    {
        self.bits = self.bits | flag;
    }
}

/// Flags of a linear transfer instruction, selecting which blocks its arguments hold.
#[derive(Clone, Copy, Debug, PartialEq, Eq, Structural)]
pub struct TranLinearFlags {
    pub bits: u8,
}

impl TranLinearFlags {
    pub const VEC: u8 = 0x1;
    pub const MAT_XX: u8 = 0x2;
    pub const MAT_PXX: u8 = 0x4;
    pub const MAT_XPX: u8 = 0x8;
    pub const MAT_PXPX: u8 = 0x10;
    pub const NO_APERTURE_CHECK: u8 = 0x80;
}

} // verus!
