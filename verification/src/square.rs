use vstd::prelude::*;

verus! {

/// A board-storage index in the 0x88 addressing scheme: the low nibble of
/// the byte is the file and the high nibble is the rank, so the index of
/// `(file, rank)` is `rank * 16 + file`. Only bytes whose two nibbles are
/// both below 8 denote real squares; the scheme leaves the other half of a
/// 128-entry array unused so that an off-board index is recognisable by a
/// single bitmask test.
///
/// The constructor is the only place where coordinate-to-storage-slot
/// arithmetic appears; every other component routes through it.
#[derive(Debug, PartialEq, Eq, Clone, Copy, Structural)]
pub struct Square(u8);

/// The 0x88 index of a coordinate pair.
pub open spec fn square_index(file: int, rank: int) -> int {
    rank * 16 + file
}

impl Square {
    /// The byte value of the index, as a mathematical integer.
    pub closed spec fn value(self) -> int {
        self.0 as int
    }

    /// Builds the index of `(file, rank)`. Out-of-range arguments are a
    /// programming error in the caller, not bad external input, so they
    /// are excluded outright rather than reported.
    pub fn new(file: u8, rank: u8) -> (s: Square)
        requires
            file < 8,
            rank < 8,
        ensures
            s.value() == square_index(file as int, rank as int),
    {
        Square(rank * 16 + file)
    }

    /// The raw byte value of the index.
    pub fn as_u8(&self) -> (b: u8)
        ensures
            b as int == self.value(),
    {
        self.0
    }
}

/// The 0x88 indexing is a bijection on the 64 real coordinates: distinct
/// `(file, rank)` pairs always get distinct indices.
pub proof fn lemma_square_index_injective(f1: int, r1: int, f2: int, r2: int)
    requires
        0 <= f1 < 8,
        0 <= r1 < 8,
        0 <= f2 < 8,
        0 <= r2 < 8,
        square_index(f1, r1) == square_index(f2, r2),
    ensures
        f1 == f2,
        r1 == r2,
{
}

} // verus!
