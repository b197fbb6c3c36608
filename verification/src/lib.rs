//! A chess position model with a verified Forsyth–Edwards Notation (FEN)
//! codec: a `Board` aggregate (piece placement, side to move, castling
//! rights, en-passant target, halfmove clock, fullmove number), encoding
//! to and decoding from FEN text, and the 0x88 square-indexing scheme
//! that backs the board storage.

pub mod board;
pub mod castling;
pub mod error;
pub mod fen;
pub mod moves;
pub mod piece;
pub mod square;
pub mod text;
pub mod tile;

pub use board::Board;
pub use castling::CanCastle;
pub use castling::CastlingAvailability;
pub use castling::Side;
pub use error::FenError;
pub use moves::Move;
pub use piece::Color;
pub use piece::Piece;
pub use piece::PieceType;
pub use square::Square;
pub use tile::File;
pub use tile::Rank;
pub use tile::Tile;
