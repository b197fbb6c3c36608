use vstd::prelude::*;

use crate::error::FenError;

verus! {

/// The two sides of a chess game.
#[derive(Debug, PartialEq, Eq, Clone, Copy, Structural)]
pub enum Color {
    White,
    Black,
}

/// The six kinds of chess piece.
#[derive(Debug, PartialEq, Eq, Clone, Copy, Structural)]
pub enum PieceType {
    Pawn,
    Bishop,
    Knight,
    Rook,
    Queen,
    King,
}

/// One occupied cell of the board: a piece kind together with its owner.
/// An empty cell is represented as `Option::<Piece>::None` by the board.
#[derive(Debug, PartialEq, Eq, Clone, Copy, Structural)]
pub struct Piece {
    pub kind: PieceType,
    pub color: Color,
}

/// The FEN letter of a piece: `pnbrqk` for Black, `PNBRQK` for White.
pub open spec fn piece_letter(p: Piece) -> char {
    match (p.kind, p.color) {
        (PieceType::Pawn, Color::Black) => 'p',
        (PieceType::Bishop, Color::Black) => 'b',
        (PieceType::Knight, Color::Black) => 'n',
        (PieceType::Rook, Color::Black) => 'r',
        (PieceType::Queen, Color::Black) => 'q',
        (PieceType::King, Color::Black) => 'k',
        (PieceType::Pawn, Color::White) => 'P',
        (PieceType::Bishop, Color::White) => 'B',
        (PieceType::Knight, Color::White) => 'N',
        (PieceType::Rook, Color::White) => 'R',
        (PieceType::Queen, Color::White) => 'Q',
        (PieceType::King, Color::White) => 'K',
    }
}

/// The piece a FEN letter denotes, or `None` for any other character.
pub open spec fn piece_of_letter(c: char) -> Option<Piece> {
    if c == 'p' {
        Some(Piece { kind: PieceType::Pawn, color: Color::Black })
    } else if c == 'b' {
        Some(Piece { kind: PieceType::Bishop, color: Color::Black })
    } else if c == 'n' {
        Some(Piece { kind: PieceType::Knight, color: Color::Black })
    } else if c == 'r' {
        Some(Piece { kind: PieceType::Rook, color: Color::Black })
    } else if c == 'q' {
        Some(Piece { kind: PieceType::Queen, color: Color::Black })
    } else if c == 'k' {
        Some(Piece { kind: PieceType::King, color: Color::Black })
    } else if c == 'P' {
        Some(Piece { kind: PieceType::Pawn, color: Color::White })
    } else if c == 'B' {
        Some(Piece { kind: PieceType::Bishop, color: Color::White })
    } else if c == 'N' {
        Some(Piece { kind: PieceType::Knight, color: Color::White })
    } else if c == 'R' {
        Some(Piece { kind: PieceType::Rook, color: Color::White })
    } else if c == 'Q' {
        Some(Piece { kind: PieceType::Queen, color: Color::White })
    } else if c == 'K' {
        Some(Piece { kind: PieceType::King, color: Color::White })
    } else {
        None
    }
}

impl Piece {
    /// Decodes a FEN piece letter; any character outside `pnbrqkPNBRQK`
    /// fails with `InvalidPieceLetter`.
    pub fn from_letter(c: char) -> (r: Result<Piece, FenError>)
        ensures
            (match piece_of_letter(c) {
                Some(p) => r == Ok::<Piece, FenError>(p),
                None => r == Err::<Piece, FenError>(FenError::InvalidPieceLetter),
            }),
    {
        match c {
            'p' => Ok(Piece { kind: PieceType::Pawn, color: Color::Black }),
            'b' => Ok(Piece { kind: PieceType::Bishop, color: Color::Black }),
            'n' => Ok(Piece { kind: PieceType::Knight, color: Color::Black }),
            'r' => Ok(Piece { kind: PieceType::Rook, color: Color::Black }),
            'q' => Ok(Piece { kind: PieceType::Queen, color: Color::Black }),
            'k' => Ok(Piece { kind: PieceType::King, color: Color::Black }),
            'P' => Ok(Piece { kind: PieceType::Pawn, color: Color::White }),
            'B' => Ok(Piece { kind: PieceType::Bishop, color: Color::White }),
            'N' => Ok(Piece { kind: PieceType::Knight, color: Color::White }),
            'R' => Ok(Piece { kind: PieceType::Rook, color: Color::White }),
            'Q' => Ok(Piece { kind: PieceType::Queen, color: Color::White }),
            'K' => Ok(Piece { kind: PieceType::King, color: Color::White }),
            _ => Err(FenError::InvalidPieceLetter),
        }
    }

    /// The FEN letter of this piece, as a one-character string for the
    /// encoder to append.
    pub fn to_letter_str(self) -> (s: &'static str)
        ensures
            s@ == seq![piece_letter(self)],
    {
        proof {
            reveal_strlit("p");
            reveal_strlit("b");
            reveal_strlit("n");
            reveal_strlit("r");
            reveal_strlit("q");
            reveal_strlit("k");
            reveal_strlit("P");
            reveal_strlit("B");
            reveal_strlit("N");
            reveal_strlit("R");
            reveal_strlit("Q");
            reveal_strlit("K");
        }
        let s: &'static str = match (self.kind, self.color) {
            (PieceType::Pawn, Color::Black) => "p",
            (PieceType::Bishop, Color::Black) => "b",
            (PieceType::Knight, Color::Black) => "n",
            (PieceType::Rook, Color::Black) => "r",
            (PieceType::Queen, Color::Black) => "q",
            (PieceType::King, Color::Black) => "k",
            (PieceType::Pawn, Color::White) => "P",
            (PieceType::Bishop, Color::White) => "B",
            (PieceType::Knight, Color::White) => "N",
            (PieceType::Rook, Color::White) => "R",
            (PieceType::Queen, Color::White) => "Q",
            (PieceType::King, Color::White) => "K",
        };
        proof {
            assert(s@ =~= seq![piece_letter(self)]);
        }
        s
    }

    /// The FEN letter of this piece. Total: every piece has a letter.
    pub fn to_letter(self) -> (c: char)
        ensures
            c == piece_letter(self),
    {
        match (self.kind, self.color) {
            (PieceType::Pawn, Color::Black) => 'p',
            (PieceType::Bishop, Color::Black) => 'b',
            (PieceType::Knight, Color::Black) => 'n',
            (PieceType::Rook, Color::Black) => 'r',
            (PieceType::Queen, Color::Black) => 'q',
            (PieceType::King, Color::Black) => 'k',
            (PieceType::Pawn, Color::White) => 'P',
            (PieceType::Bishop, Color::White) => 'B',
            (PieceType::Knight, Color::White) => 'N',
            (PieceType::Rook, Color::White) => 'R',
            (PieceType::Queen, Color::White) => 'Q',
            (PieceType::King, Color::White) => 'K',
        }
    }
}

/// The letter of every piece decodes back to that piece.
pub proof fn lemma_piece_letter_round_trip(p: Piece)
    ensures
        piece_of_letter(piece_letter(p)) == Some(p),
{
}

/// Piece letters never collide with the other characters FEN gives a
/// meaning to: run-length digits, the rank separator, the field separator,
/// and the empty-rights placeholder.
pub proof fn lemma_piece_letter_disjoint(p: Piece)
    ensures
        !('1' <= piece_letter(p) <= '8'),
        piece_letter(p) != '/',
        piece_letter(p) != ' ',
        piece_letter(p) != '-',
{
}

} // verus!
