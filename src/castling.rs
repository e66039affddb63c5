use vstd::prelude::*;

verus! {

pub const WHITE_KING_SIDE: u8 = 0b0001;

pub const WHITE_QUEEN_SIDE: u8 = 0b0010;

pub const BLACK_KING_SIDE: u8 = 0b0100;

pub const BLACK_QUEEN_SIDE: u8 = 0b1000;

/// The four castling rights, white or black, king side or queen side, as a
/// set of flag bits.
#[derive(Clone, Copy, Debug, PartialEq, Eq, Structural)]
pub struct CastlingRights {
    pub bits: u8,
}

impl CastlingRights {
    /// The set as its flag bits.
    pub open spec fn view(&self) -> u8 {
        self.bits
    }

    /// Only the four flag bits may be set.
    pub open spec fn wf(&self) -> bool {
        self.bits < 16
    }

    /// No rights.
    pub fn empty() -> (r: CastlingRights)
        ensures
            r@ == 0,
    {
        CastlingRights { bits: 0 }
    }

    /// All four rights.
    pub fn all() -> (r: CastlingRights)
        ensures
            r@ == 15,
    {
        CastlingRights { bits: 0b1111 }
    }

    /// The rights whose bits are `bits`, if no other bit is set.
    pub fn from_bits(bits: u8) -> (r: Option<CastlingRights>)
        ensures
            bits < 16 ==> r == Some(CastlingRights { bits }),
            bits >= 16 ==> r is None,
    {
        if bits < 16 {
            Some(CastlingRights { bits })
        } else {
            None
        }
    }

    /// The flag bits of the set.
    pub fn bits(&self) -> (r: u8)
        ensures
            r == self@,
    {
        self.bits
    }

    /// Whether every right of `flags` is in the set.
    pub fn contains(&self, flags: u8) -> (r: bool)
        ensures
            r == (self@ & flags == flags),
    {
        self.bits & flags == flags
    }

    /// Adds the rights of `flags`.
    pub fn insert(&mut self, flags: u8)
        requires
            old(self).wf(),
            flags < 16,
        ensures
            final(self).wf(),
            final(self)@ == old(self)@ | flags,
    {
        let b = self.bits;
        assert(b | flags < 16) by (bit_vector)
            requires
                b < 16,
                flags < 16,
        ;
        self.bits = self.bits | flags;
    }

    /// Takes away the rights of `flags`.
    pub fn remove(&mut self, flags: u8)
        requires
            old(self).wf(),
        ensures
            final(self).wf(),
            final(self)@ == old(self)@ & !flags,
    {
        let b = self.bits;
        assert(b & !flags < 16) by (bit_vector)
            requires
                b < 16,
        ;
        self.bits = self.bits & !flags;
    }
}

} // verus!
