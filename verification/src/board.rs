use vstd::prelude::*;

use crate::castling::CastlingAvailability;
use crate::castling::all_rights;
use crate::castling::castling_chars;
use crate::error::FenError;
use crate::fen::BoardView;
use crate::fen::cell_glyph;
use crate::fen::decode_rank;
use crate::fen::decode_rank_from;
use crate::fen::decode_ranks;
use crate::fen::empties;
use crate::fen::encode_rank;
use crate::fen::encode_rank_from;
use crate::fen::ep_chars;
use crate::fen::ep_of_chars;
use crate::fen::fen_encode;
use crate::fen::fen_parse;
use crate::fen::is_run_digit;
use crate::fen::lemma_decode_rank_from_len;
use crate::fen::lemma_decode_ranks_unroll;
use crate::fen::placement_chars;
use crate::fen::rank_row;
use crate::fen::render_chars;
use crate::fen::render_row;
use crate::fen::run_len;
use crate::fen::side_chars;
use crate::fen::side_of_chars;
use crate::fen::tiles_of_ranks;
use crate::piece::Color;
use crate::piece::Piece;
use crate::piece::PieceType;
use crate::square::square_index;
use crate::text::digit_str;
use crate::text::parse_u64;
use crate::text::split_on;
use crate::text::split_str;
use crate::text::u64_to_string;
use crate::tile::Tile;
use crate::tile::file_char_str;
use crate::tile::rank_char_str;

verus! {

/// A chess position: the 64 board cells in 0x88 storage, the side to
/// move, the castling rights, the en-passant target, and the two move
/// counters. A board is immutable once built: it is created by `default`
/// or by decoding a FEN string, and no method changes one in place.
pub struct Board {
    /// The 128 cells of the 0x88 storage; only the 64 on-board cells are
    /// ever occupied.
    tiles: Vec<Option<Piece>>,
    next_move: Color,
    castling_availability: CastlingAvailability,
    en_passant_target_square: Option<Tile>,
    halfmove_clock: u64,
    fullmove_number: u64,
}

impl View for Board {
    type V = BoardView;

    closed spec fn view(&self) -> BoardView {
        BoardView {
            tiles: self.tiles@,
            next_move: self.next_move,
            castling: self.castling_availability,
            en_passant_target: self.en_passant_target_square,
            halfmove_clock: self.halfmove_clock,
            fullmove_number: self.fullmove_number,
        }
    }
}

/// The piece kind on a back rank at a file, in a new game.
pub open spec fn back_rank_kind(file: int) -> PieceType {
    if file == 0 || file == 7 {
        PieceType::Rook
    } else if file == 1 || file == 6 {
        PieceType::Knight
    } else if file == 2 || file == 5 {
        PieceType::Bishop
    } else if file == 3 {
        PieceType::Queen
    } else {
        PieceType::King
    }
}

/// The cell at a coordinate in a new game: White's pieces on ranks 1 and
/// 2, Black's on ranks 7 and 8, nothing between.
pub open spec fn start_cell(file: int, rank: int) -> Option<Piece> {
    if rank == 0 {
        Some(Piece { kind: back_rank_kind(file), color: Color::White })
    } else if rank == 1 {
        Some(Piece { kind: PieceType::Pawn, color: Color::White })
    } else if rank == 6 {
        Some(Piece { kind: PieceType::Pawn, color: Color::Black })
    } else if rank == 7 {
        Some(Piece { kind: back_rank_kind(file), color: Color::Black })
    } else {
        None
    }
}

/// The storage of a new game.
pub open spec fn start_tiles() -> Seq<Option<Piece>> {
    Seq::new(
        128,
        |i: int|
            if i % 16 < 8 {
                start_cell(i % 16, i / 16)
            } else {
                None
            },
    )
}

/// The position of a new game: the starting placement, White to move, all
/// castling rights, no en-passant target, and the counters at 0 and 1.
pub open spec fn start_board() -> BoardView {
    BoardView {
        tiles: start_tiles(),
        next_move: Color::White,
        castling: all_rights(),
        en_passant_target: None,
        halfmove_clock: 0,
        fullmove_number: 1,
    }
}

/// The starting cell of a coordinate, computed.
fn start_cell_at(file: u8, rank: u8) -> (p: Option<Piece>)
    requires
        file < 8,
        rank < 8,
    ensures
        p == start_cell(file as int, rank as int),
{
    let kind = if file == 0 || file == 7 {
        PieceType::Rook
    } else if file == 1 || file == 6 {
        PieceType::Knight
    } else if file == 2 || file == 5 {
        PieceType::Bishop
    } else if file == 3 {
        PieceType::Queen
    } else {
        PieceType::King
    };
    if rank == 0 {
        Some(Piece { kind, color: Color::White })
    } else if rank == 1 {
        Some(Piece { kind: PieceType::Pawn, color: Color::White })
    } else if rank == 6 {
        Some(Piece { kind: PieceType::Pawn, color: Color::Black })
    } else if rank == 7 {
        Some(Piece { kind, color: Color::Black })
    } else {
        None
    }
}

impl Default for Board {
    /// The position of a new game.
    fn default() -> (b: Board)
        ensures
            b@ == start_board(),
            b@.wf(),
    {
        let mut tiles: Vec<Option<Piece>> = Vec::new();
        let mut i: usize = 0;
        while i < 128
            invariant
                0 <= i <= 128,
                tiles@.len() == i,
                forall|k: int| 0 <= k < i ==> tiles@[k] == start_tiles()[k],
            decreases 128 - i,
        {
            let f = (i % 16) as u8;
            let r = (i / 16) as u8;
            if f < 8 {
                tiles.push(start_cell_at(f, r));
            } else {
                tiles.push(None);
            }
            i = i + 1;
        }
        let b = Board {
            tiles,
            next_move: Color::White,
            castling_availability: CastlingAvailability::default(),
            en_passant_target_square: None,
            halfmove_clock: 0,
            fullmove_number: 1,
        };
        proof {
            assert(b@.tiles =~= start_tiles());
            assert(b@ =~= start_board());
            assert forall|k: int| 0 <= k < 128 && k % 16 >= 8 implies b@.tiles[k] is None by {
                assert(b@.tiles[k] == start_tiles()[k]);
            }
        }
        b
    }
}

impl Board {
    /// Validity of the board's storage and bookkeeping.
    pub open spec fn wf(&self) -> bool {
        self@.wf()
    }

    /// The piece standing on a tile, or `None` for an empty cell.
    pub fn piece_at(&self, tile: Tile) -> (p: Option<Piece>)
        requires
            self@.wf(),
            tile.wf(),
    ensures
            p == self@.piece_on(tile.spec_file(), tile.spec_rank()),
    {
        let idx = tile.as_u8() as usize;
        proof {
            let v = tile.value();
            assert(v == 16 * (v / 16) + v % 16);
            assert(v < 128);
            assert(square_index(tile.spec_file(), tile.spec_rank()) == v);
        }
        self.tiles[idx]
    }

    /// The side to move next.
    pub fn next_move(&self) -> (c: Color)
        ensures
            c == self@.next_move,
    {
        self.next_move
    }

    /// The castling rights of the position.
    pub fn castling_availability(&self) -> (c: CastlingAvailability)
        ensures
            c == self@.castling,
    {
        self.castling_availability
    }

    /// The en-passant target square, if a pawn has just moved two ranks.
    pub fn en_passant_target_square(&self) -> (t: Option<Tile>)
        ensures
            t == self@.en_passant_target,
    {
        self.en_passant_target_square
    }

    /// Halfmoves since the last capture or pawn move.
    pub fn halfmove_clock(&self) -> (n: u64)
        ensures
            n == self@.halfmove_clock,
    {
        self.halfmove_clock
    }

    /// The fullmove number, starting at 1 and growing after Black's move.
    pub fn fullmove_number(&self) -> (n: u64)
        ensures
            n == self@.fullmove_number,
    {
        self.fullmove_number
    }
}

/// The views of a vector of decoded rows.
pub open spec fn row_views(rows: Seq<Vec<Option<Piece>>>) -> Seq<Seq<Option<Piece>>> {
    rows.map_values(|v: Vec<Option<Piece>>| v@)
}

/// Decodes one rank group into its 8 cells, exactly as `decode_rank`
/// describes it.
#[verifier::loop_isolation(false)]
fn decode_rank_group(g: &str) -> (r: Result<Vec<Option<Piece>>, FenError>)
    ensures
        (match decode_rank(g@) {
            Ok(cells) => r matches Ok(v) && v@ == cells && v@.len() == 8,
            Err(e) => r == Err::<Vec<Option<Piece>>, FenError>(e),
        }),
{
    let n = g.unicode_len();
    let mut acc: Vec<Option<Piece>> = Vec::new();
    let mut j: usize = 0;
    proof {
        assert(g@.skip(0) =~= g@);
        assert(acc@ =~= Seq::<Option<Piece>>::empty());
    }
    while j < n
        invariant
            0 <= j <= n,
            acc@.len() <= 8,
            decode_rank(g@) == decode_rank_from(g@.skip(j as int), acc@),
        decreases n - j,
    {
        let c = g.get_char(j);
        proof {
            assert(g@.skip(j as int)[0] == g@[j as int]);
            assert(g@.skip(j as int).drop_first() =~= g@.skip(j as int + 1));
        }
        let cv = c as u32;
        if 49 <= cv && cv <= 56 {
            proof {
                assert(is_run_digit(g@[j as int]));
                assert(run_len(g@[j as int]) == cv - 48);
            }
            let d = (cv - 48) as usize;
            if acc.len() + d > 8 {
                return Err(FenError::RankOverflow);
            }
            let ghost acc0 = acc@;
            let mut t: usize = 0;
            while t < d
                invariant
                    0 <= t <= d,
                    acc@ == acc0 + empties(t as int),
                decreases d - t,
            {
                proof {
                    assert(acc@.push(None) =~= acc0 + empties(t as int + 1));
                }
                acc.push(None);
                t = t + 1;
            }
        } else {
            match Piece::from_letter(c) {
                Ok(p) => {
                    if acc.len() >= 8 {
                        return Err(FenError::RankOverflow);
                    }
                    acc.push(Some(p));
                },
                Err(_) => {
                    return Err(FenError::InvalidPieceLetter);
                },
            }
        }
        j = j + 1;
    }
    proof {
        assert(g@.skip(n as int) =~= Seq::<char>::empty());
        lemma_decode_rank_from_len(g@, Seq::empty());
    }
    let ghost acc_end = acc@;
    while acc.len() < 8
        invariant
            acc_end.len() <= acc@.len() <= 8,
            acc@ == acc_end + empties(acc@.len() - acc_end.len()),
        decreases 8 - acc@.len(),
    {
        proof {
            assert(acc@.push(None) =~= acc_end + empties(acc@.len() + 1 - acc_end.len()));
        }
        acc.push(None);
    }
    proof {
        assert(acc@ =~= acc_end + empties(8 - acc_end.len()));
    }
    Ok(acc)
}

impl Board {
    /// Decodes a FEN string: six space-separated fields, decoded in order,
    /// stopping at the first failure. Exactly the inputs `fen_parse`
    /// accepts yield a board, and that board is the one it describes.
    #[verifier::loop_isolation(false)]
    #[verifier::rlimit(100)]
    pub fn parse(fen: &str) -> (r: Result<Board, FenError>)
        ensures
            (match fen_parse(fen@) {
                Ok(bv) => r matches Ok(b) && b@ == bv && b@.wf(),
                Err(e) => r == Err::<Board, FenError>(e),
            }),
    {
        let fields = split_str(fen, ' ');
        if fields.len() != 6 {
            return Err(FenError::WrongFieldCount);
        }
        let ghost fv = split_on(fen@, ' ');
        proof {
            assert(fv[0] == fields@[0]@);
        }
        let groups = split_str(fields[0].as_str(), '/');
        if groups.len() != 8 {
            return Err(FenError::WrongRankCount);
        }
        let ghost gv = split_on(fv[0], '/');
        // The eight rank groups, rank 8 first.
        let mut rows: Vec<Vec<Option<Piece>>> = Vec::new();
        let mut k: usize = 0;
        while k < 8
            invariant
                0 <= k <= 8,
                rows@.len() == k,
                forall|j: int|
                    0 <= j < k ==> decode_rank(gv[j]) == Ok::<Seq<Option<Piece>>, FenError>(
                        #[trigger] row_views(rows@)[j],
                    ) && row_views(rows@)[j].len() == 8,
            decreases 8 - k,
        {
            proof {
                assert(gv[k as int] == groups@[k as int]@);
            }
            match decode_rank_group(groups[k].as_str()) {
                Ok(cells) => {
                    proof {
                        assert(row_views(rows@.push(cells)) =~= row_views(rows@).push(cells@));
                    }
                    rows.push(cells);
                },
                Err(e) => {
                    proof {
                        lemma_decode_ranks_unroll(gv, k as int, row_views(rows@));
                        assert(gv.skip(k as int)[0] == gv[k as int]);
                        assert(decode_ranks(gv) == Err::<Seq<Seq<Option<Piece>>>, FenError>(e));
                    }
                    return Err(e);
                },
            }
            k = k + 1;
        }
        let ghost rvs = row_views(rows@);
        proof {
            lemma_decode_ranks_unroll(gv, 8, rvs);
            assert(gv.skip(8) =~= Seq::<Seq<char>>::empty());
            match decode_ranks(gv) {
                Ok(rest) => {
                    assert(rest =~= rvs);
                },
                Err(_) => {
                    assert(false);
                },
            }
        }
        // Lay the rows out in 0x88 storage order.
        let mut tiles: Vec<Option<Piece>> = Vec::new();
        let mut i: usize = 0;
        while i < 128
            invariant
                0 <= i <= 128,
                tiles@.len() == i,
                forall|t: int| 0 <= t < i ==> tiles@[t] == tiles_of_ranks(rvs)[t],
            decreases 128 - i,
        {
            let f = i % 16;
            let r = i / 16;
            if f < 8 {
                let row = &rows[7 - r];
                proof {
                    assert(rvs[7 - r as int] == rows@[7 - r as int]@);
                }
                tiles.push(row[f]);
            } else {
                tiles.push(None);
            }
            i = i + 1;
        }
        proof {
            assert(tiles@ =~= tiles_of_ranks(rvs));
        }
        // Field 2: the side to move.
        let f1 = fields[1].as_str();
        let next_move = if f1.unicode_len() == 1 {
            let c = f1.get_char(0);
            if c == 'w' {
                Color::White
            } else if c == 'b' {
                Color::Black
            } else {
                return Err(FenError::InvalidSideToMove);
            }
        } else {
            return Err(FenError::InvalidSideToMove);
        };
        proof {
            assert(side_of_chars(fv[1]) == Some(next_move));
        }
        // Field 3: the castling rights.
        let castling_availability = match CastlingAvailability::parse(fields[2].as_str()) {
            Ok(c) => c,
            Err(e) => {
                return Err(e);
            },
        };
        // Field 4: the en-passant target.
        let f3 = fields[3].as_str();
        let en_passant_target_square = if f3.unicode_len() == 1 && f3.get_char(0) == '-' {
            None
        } else {
            match Tile::parse(f3) {
                Ok(t) => Some(t),
                Err(e) => {
                    return Err(e);
                },
            }
        };
        proof {
            assert(ep_of_chars(fv[3]) == Ok::<Option<Tile>, FenError>(en_passant_target_square));
        }
        // Fields 5 and 6: the move counters.
        let halfmove_clock = match parse_u64(fields[4].as_str()) {
            Some(v) => v,
            None => {
                return Err(FenError::InvalidHalfmoveClock);
            },
        };
        let fullmove_number = match parse_u64(fields[5].as_str()) {
            Some(v) => v,
            None => {
                return Err(FenError::InvalidFullmoveNumber);
            },
        };
        if fullmove_number == 0 {
            return Err(FenError::InvalidFullmoveNumber);
        }
        let b = Board {
            tiles,
            next_move,
            castling_availability,
            en_passant_target_square,
            halfmove_clock,
            fullmove_number,
        };
        proof {
            match fen_parse(fen@) {
                Ok(bv) => {
                    assert(b@ =~= bv);
                    crate::fen::lemma_fen_parse_wf(fen@);
                },
                Err(_) => {
                    assert(false);
                },
            }
        }
        Ok(b)
    }
}

/// Appends the canonical rank group of storage rank `r`: run-length
/// digits for empty runs, piece letters for occupied cells.
#[verifier::loop_isolation(false)]
fn encode_rank_push(tiles: &Vec<Option<Piece>>, r: u8, out: &mut String)
    requires
        tiles@.len() == 128,
        r < 8,
    ensures
        final(out)@ == old(out)@ + encode_rank(rank_row(tiles@, r as int)),
{
    let ghost cells = rank_row(tiles@, r as int);
    let mut pending: u8 = 0;
    let mut f: u8 = 0;
    proof {
        assert(cells.skip(0) =~= cells);
    }
    while f < 8
        invariant
            0 <= f <= 8,
            0 <= pending as int <= f as int,
            out@ + encode_rank_from(cells.skip(f as int), pending as int) == old(out)@
                + encode_rank(cells),
        decreases 8 - f,
    {
        let ghost out0 = out@;
        let ghost pending0 = pending as int;
        let idx = (r as usize) * 16 + (f as usize);
        proof {
            assert(square_index(f as int, r as int) == idx);
            assert(cells.skip(f as int)[0] == cells[f as int]);
            assert(cells[f as int] == tiles@[idx as int]);
            assert(cells.skip(f as int).drop_first() =~= cells.skip(f as int + 1));
        }
        match tiles[idx] {
            None => {
                pending = pending + 1;
            },
            Some(p) => {
                if pending > 0 {
                    out.append(digit_str(pending));
                }
                out.append(p.to_letter_str());
                pending = 0;
                proof {
                    assert(out@ + encode_rank_from(cells.skip(f as int + 1), 0) =~= out0
                        + encode_rank_from(cells.skip(f as int), pending0));
                }
            },
        }
        f = f + 1;
    }
    proof {
        assert(cells.skip(8) =~= Seq::<Option<Piece>>::empty());
    }
    let ghost out1 = out@;
    let ghost pending1 = pending as int;
    if pending > 0 {
        out.append(digit_str(pending));
    }
    proof {
        assert(out@ =~= out1 + encode_rank_from(Seq::<Option<Piece>>::empty(), pending1));
    }
}

/// Appends one rendered grid line: the 8 glyphs of storage rank `r` and a
/// newline.
#[verifier::loop_isolation(false)]
fn render_row_push(tiles: &Vec<Option<Piece>>, r: u8, out: &mut String)
    requires
        tiles@.len() == 128,
        r < 8,
    ensures
        final(out)@ == old(out)@ + render_row(tiles@, r as int),
{
    let ghost row = Seq::new(8, |i: int| cell_glyph(tiles@[square_index(i, r as int)]));
    proof {
        reveal_strlit("*");
        reveal_strlit("\n");
        assert(out@ =~= out@ + Seq::new(0, |i: int| cell_glyph(tiles@[square_index(i, r as int)])));
    }
    let mut f: u8 = 0;
    while f < 8
        invariant
            0 <= f <= 8,
            out@ == old(out)@ + Seq::new(
                f as nat,
                |i: int| cell_glyph(tiles@[square_index(i, r as int)]),
            ),
        decreases 8 - f,
    {
        let ghost out0 = out@;
        let idx = (r as usize) * 16 + (f as usize);
        proof {
            assert(square_index(f as int, r as int) == idx);
        }
        match tiles[idx] {
            None => {
                out.append("*");
            },
            Some(p) => {
                out.append(p.to_letter_str());
            },
        }
        proof {
            assert(out@ =~= old(out)@ + Seq::new(
                f as nat + 1,
                |i: int| cell_glyph(tiles@[square_index(i, r as int)]),
            ));
        }
        f = f + 1;
    }
    out.append("\n");
    proof {
        assert(out@ =~= old(out)@ + render_row(tiles@, r as int));
    }
}

impl Board {
    /// Encodes this position as its canonical FEN string. Total: every
    /// valid board has a FEN spelling, and decoding it restores the board.
    #[verifier::rlimit(100)]
    pub fn to_fen(&self) -> (r: String)
        requires
            self@.wf(),
        ensures
            r@ == fen_encode(self@),
    {
        proof {
            reveal_strlit("/");
            reveal_strlit(" ");
            reveal_strlit("w");
            reveal_strlit("b");
            reveal_strlit("-");
        }
        let mut out = String::new();
        encode_rank_push(&self.tiles, 7, &mut out);
        out.append("/");
        encode_rank_push(&self.tiles, 6, &mut out);
        out.append("/");
        encode_rank_push(&self.tiles, 5, &mut out);
        out.append("/");
        encode_rank_push(&self.tiles, 4, &mut out);
        out.append("/");
        encode_rank_push(&self.tiles, 3, &mut out);
        out.append("/");
        encode_rank_push(&self.tiles, 2, &mut out);
        out.append("/");
        encode_rank_push(&self.tiles, 1, &mut out);
        out.append("/");
        encode_rank_push(&self.tiles, 0, &mut out);
        proof {
            assert(out@ =~= placement_chars(self@.tiles));
        }
        out.append(" ");
        match self.next_move {
            Color::White => out.append("w"),
            Color::Black => out.append("b"),
        }
        proof {
            assert(out@ =~= placement_chars(self@.tiles) + seq![' '] + side_chars(self@.next_move));
        }
        out.append(" ");
        let castling = self.castling_availability.encode();
        out.append(castling.as_str());
        out.append(" ");
        match self.en_passant_target_square {
            None => {
                out.append("-");
            },
            Some(t) => {
                out.append(file_char_str(t.file_u8()));
                out.append(rank_char_str(t.rank_u8()));
            },
        }
        proof {
            assert(out@ =~= placement_chars(self@.tiles) + seq![' '] + side_chars(self@.next_move)
                + seq![' '] + castling_chars(self@.castling) + seq![' '] + ep_chars(
                self@.en_passant_target,
            ));
        }
        out.append(" ");
        let h = u64_to_string(self.halfmove_clock);
        out.append(h.as_str());
        out.append(" ");
        let m = u64_to_string(self.fullmove_number);
        out.append(m.as_str());
        proof {
            assert(out@ =~= fen_encode(self@));
        }
        out
    }

    /// Renders the position as a human-readable grid: one line per rank,
    /// rank 8 at the top, `*` for an empty cell. Display only.
    pub fn render(&self) -> (r: String)
        requires
            self@.wf(),
        ensures
            r@ == render_chars(self@.tiles),
    {
        let mut out = String::new();
        render_row_push(&self.tiles, 7, &mut out);
        render_row_push(&self.tiles, 6, &mut out);
        render_row_push(&self.tiles, 5, &mut out);
        render_row_push(&self.tiles, 4, &mut out);
        render_row_push(&self.tiles, 3, &mut out);
        render_row_push(&self.tiles, 2, &mut out);
        render_row_push(&self.tiles, 1, &mut out);
        render_row_push(&self.tiles, 0, &mut out);
        proof {
            assert(out@ =~= render_chars(self@.tiles));
        }
        out
    }
}

impl PartialEq for Board {
    /// Structural equality over all six fields of the position.
    fn eq(&self, other: &Board) -> (r: bool) {
        if self.tiles.len() != other.tiles.len() {
            proof {
                assert(self@.tiles.len() != other@.tiles.len());
            }
            return false;
        }
        let n = self.tiles.len();
        let mut i: usize = 0;
        while i < n
            invariant
                0 <= i <= n,
                n == self.tiles@.len(),
                n == other.tiles@.len(),
                forall|k: int| 0 <= k < i ==> self.tiles@[k] == other.tiles@[k],
            decreases n - i,
        {
            let same = match (self.tiles[i], other.tiles[i]) {
                (None, None) => true,
                (Some(a), Some(b)) => a.kind == b.kind && a.color == b.color,
                _ => false,
            };
            if !same {
                proof {
                    assert(self.tiles@[i as int] != other.tiles@[i as int]);
                    assert(self@.tiles != other@.tiles);
                }
                return false;
            }
            i = i + 1;
        }
        proof {
            assert(self.tiles@ =~= other.tiles@);
        }
        let ep_same = match (self.en_passant_target_square, other.en_passant_target_square) {
            (None, None) => true,
            (Some(a), Some(b)) => a == b,
            _ => false,
        };
        let r = ep_same && self.next_move == other.next_move && self.castling_availability
            == other.castling_availability && self.halfmove_clock == other.halfmove_clock
            && self.fullmove_number == other.fullmove_number;
        proof {
            if r {
                assert(self@ =~= other@);
            }
        }
        r
    }
}

impl vstd::std_specs::cmp::PartialEqSpecImpl for Board {
    open spec fn obeys_eq_spec() -> bool {
        true
    }

    open spec fn eq_spec(&self, other: &Board) -> bool {
        self@ == other@
    }
}

} // verus!
