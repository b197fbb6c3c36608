use vstd::prelude::*;

verus! {

/// The closed taxonomy of FEN decoding failures. Decoding stops at the
/// first failure; no partial position is ever produced.
#[derive(Debug, PartialEq, Eq, Clone, Copy, Structural)]
pub enum FenError {
    /// The input did not have exactly 6 space-separated fields.
    WrongFieldCount,
    /// The placement field did not have exactly 8 `/`-separated rank groups.
    WrongRankCount,
    /// A rank group described more than 8 cells.
    RankOverflow,
    /// A placement character was neither a run-length digit nor a piece letter.
    InvalidPieceLetter,
    /// The side-to-move field was neither `w` nor `b`.
    InvalidSideToMove,
    /// The castling field was not `-` or a duplicate-free subset of `KQkq`.
    InvalidCastlingRights,
    /// The en-passant field was not `-` or a file letter followed by a rank digit.
    InvalidEnPassantSquare,
    /// The halfmove clock was not a non-negative integer that fits in 64 bits.
    InvalidHalfmoveClock,
    /// The fullmove number was not a positive integer that fits in 64 bits.
    InvalidFullmoveNumber,
}

} // verus!
