use vstd::prelude::*;

use crate::tile::Tile;

verus! {

/// A move between two tiles. Castling is the pair of the king's move and
/// the rook's move. Move generation and legality are outside this
/// library: consumers build moves against the position's read API and
/// construct a new position rather than mutating one.
pub enum Move {
    Castling(Box<(Move, Move)>),
    Move { from: Tile, dest: Tile },
}

} // verus!
