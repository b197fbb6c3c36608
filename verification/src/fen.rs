use vstd::prelude::*;

use crate::castling::CastlingAvailability;
use crate::castling::castling_chars;
use crate::castling::castling_of_chars;
use crate::error::FenError;
use crate::piece::Color;
use crate::piece::Piece;
use crate::piece::piece_letter;
use crate::piece::piece_of_letter;
use crate::square::square_index;
use crate::text::digit_char;
use crate::text::is_numeral;
use crate::text::numeral_of;
use crate::text::numeral_val;
use crate::text::split_on;
use crate::tile::Tile;
use crate::tile::file_char;
use crate::tile::file_of_char;
use crate::tile::is_file_char;
use crate::tile::is_rank_char;
use crate::tile::rank_char;
use crate::tile::rank_of_char;
use crate::tile::tile_of_chars;

verus! {

/// The mathematical content of a board: the 128 storage cells in 0x88
/// order, and the five bookkeeping fields beside them.
#[verifier::ext_equal]
pub struct BoardView {
    pub tiles: Seq<Option<Piece>>,
    pub next_move: Color,
    pub castling: CastlingAvailability,
    pub en_passant_target: Option<Tile>,
    pub halfmove_clock: u64,
    pub fullmove_number: u64,
}

impl BoardView {
    /// Validity of a board: the storage has its 128 cells, the 64 cells
    /// outside the 0x88 on-board pattern are unused, a recorded en-passant
    /// target is a real square, and the fullmove count has started at 1.
    pub open spec fn wf(self) -> bool {
        &&& self.tiles.len() == 128
        &&& forall|i: int| 0 <= i < 128 && i % 16 >= 8 ==> self.tiles[i] is None
        &&& (self.en_passant_target matches Some(t) ==> t.wf())
        &&& self.fullmove_number >= 1
    }

    /// The cell at a coordinate, through the 0x88 square index.
    pub open spec fn piece_on(self, file: int, rank: int) -> Option<Piece> {
        self.tiles[square_index(file, rank)]
    }
}

// --- Field 1: piece placement ---

/// Whether a character is a run-length digit of a rank group.
pub open spec fn is_run_digit(c: char) -> bool {
    '1' <= c <= '8'
}

/// The number of empty cells a run-length digit stands for.
pub open spec fn run_len(c: char) -> int {
    c as int - '0' as int
}

/// A run of empty cells.
pub open spec fn empties(n: int) -> Seq<Option<Piece>> {
    Seq::new(n as nat, |i: int| None)
}

/// Decodes the remainder `g` of a rank group, the cells decoded so far
/// being `acc`: a digit advances past that many empty cells, any other
/// character must be a piece letter and fills one cell, and a rank that
/// would grow beyond its 8 cells overflows. Cells left open at the end of
/// the group stay empty.
pub open spec fn decode_rank_from(g: Seq<char>, acc: Seq<Option<Piece>>) -> Result<
    Seq<Option<Piece>>,
    FenError,
>
    decreases g.len(),
{
    if g.len() == 0 {
        Ok(acc + empties(8 - acc.len()))
    } else if is_run_digit(g[0]) {
        if acc.len() + run_len(g[0]) > 8 {
            Err(FenError::RankOverflow)
        } else {
            decode_rank_from(g.drop_first(), acc + empties(run_len(g[0])))
        }
    } else {
        match piece_of_letter(g[0]) {
            Some(p) => if acc.len() + 1 > 8 {
                Err(FenError::RankOverflow)
            } else {
                decode_rank_from(g.drop_first(), acc.push(Some(p)))
            },
            None => Err(FenError::InvalidPieceLetter),
        }
    }
}

/// The 8 cells a rank group denotes, file `a` first.
pub open spec fn decode_rank(g: Seq<char>) -> Result<Seq<Option<Piece>>, FenError> {
    decode_rank_from(g, Seq::empty())
}

/// Decoding a rank group yields exactly 8 cells.
pub proof fn lemma_decode_rank_from_len(g: Seq<char>, acc: Seq<Option<Piece>>)
    requires
        acc.len() <= 8,
    ensures
        decode_rank_from(g, acc) matches Ok(cells) ==> cells.len() == 8,
    decreases g.len(),
{
    if g.len() == 0 {
    } else if is_run_digit(g[0]) {
        if acc.len() + run_len(g[0]) <= 8 {
            lemma_decode_rank_from_len(g.drop_first(), acc + empties(run_len(g[0])));
        }
    } else {
        match piece_of_letter(g[0]) {
            Some(p) => {
                if acc.len() + 1 <= 8 {
                    lemma_decode_rank_from_len(g.drop_first(), acc.push(Some(p)));
                }
            },
            None => {},
        }
    }
}

/// Decodes the 8 rank groups in the order they stand in FEN: rank 8 first,
/// rank 1 last. The first failing group decides the error.
pub open spec fn decode_ranks(groups: Seq<Seq<char>>) -> Result<
    Seq<Seq<Option<Piece>>>,
    FenError,
>
    decreases groups.len(),
{
    if groups.len() == 0 {
        Ok(Seq::empty())
    } else {
        match decode_rank(groups[0]) {
            Err(e) => Err(e),
            Ok(cells) => match decode_ranks(groups.drop_first()) {
                Err(e) => Err(e),
                Ok(rest) => Ok(seq![cells] + rest),
            },
        }
    }
}

/// Peeling the first `k` groups off the rank-group decoder: once those
/// groups are known to decode to rows `rs`, the whole result is `rs`
/// followed by whatever the remaining groups yield, or the first error
/// among the remaining groups.
pub proof fn lemma_decode_ranks_unroll(g: Seq<Seq<char>>, k: int, rs: Seq<Seq<Option<Piece>>>)
    requires
        0 <= k <= g.len(),
        rs.len() == k,
        forall|j: int|
            0 <= j < k ==> decode_rank(g[j]) == Ok::<Seq<Option<Piece>>, FenError>(#[trigger] rs[j]),
    ensures
        decode_ranks(g) == (match decode_ranks(g.skip(k)) {
            Ok(rest) => Ok::<Seq<Seq<Option<Piece>>>, FenError>(rs + rest),
            Err(e) => Err::<Seq<Seq<Option<Piece>>>, FenError>(e),
        }),
    decreases k,
{
    if k == 0 {
        assert(g.skip(0) =~= g);
        match decode_ranks(g) {
            Ok(rest) => {
                assert(rs + rest =~= rest);
            },
            Err(_) => {},
        }
    } else {
        let g2 = g.drop_first();
        let rs2 = rs.drop_first();
        assert forall|j: int| 0 <= j < k - 1 implies decode_rank(g2[j]) == Ok::<
            Seq<Option<Piece>>,
            FenError,
        >(#[trigger] rs2[j]) by {
            assert(g2[j] == g[j + 1]);
            assert(rs2[j] == rs[j + 1]);
        }
        lemma_decode_ranks_unroll(g2, k - 1, rs2);
        assert(g2.skip(k - 1) =~= g.skip(k));
        assert(decode_rank(g[0]) == Ok::<Seq<Option<Piece>>, FenError>(rs[0]));
        match decode_ranks(g.skip(k)) {
            Ok(rest) => {
                assert(seq![rs[0]] + (rs2 + rest) =~= rs + rest);
            },
            Err(_) => {},
        }
    }
}

/// Lays decoded rows out in 0x88 storage order. Row 0 of `rows` is rank 8,
/// so storage rank `r` reads row `7 - r`; the off-board half stays empty.
pub open spec fn tiles_of_ranks(rows: Seq<Seq<Option<Piece>>>) -> Seq<Option<Piece>> {
    Seq::new(
        128,
        |i: int|
            if i % 16 < 8 {
                rows[7 - i / 16][i % 16]
            } else {
                None
            },
    )
}

// --- Field 2: side to move ---

/// The colour a side-to-move field denotes: `w` or `b` alone.
pub open spec fn side_of_chars(s: Seq<char>) -> Option<Color> {
    if s.len() == 1 && s[0] == 'w' {
        Some(Color::White)
    } else if s.len() == 1 && s[0] == 'b' {
        Some(Color::Black)
    } else {
        None
    }
}

/// The side-to-move field of a colour.
pub open spec fn side_chars(c: Color) -> Seq<char> {
    match c {
        Color::White => seq!['w'],
        Color::Black => seq!['b'],
    }
}

// --- Field 4: en-passant target ---

/// The en-passant field's meaning: `-` for no target, else a two-character
/// square reference.
pub open spec fn ep_of_chars(s: Seq<char>) -> Result<Option<Tile>, FenError> {
    if s.len() == 1 && s[0] == '-' {
        Ok(None)
    } else {
        match tile_of_chars(s) {
            Some(fr) => Ok(Some(Tile::spec_new(fr.0, fr.1))),
            None => Err(FenError::InvalidEnPassantSquare),
        }
    }
}

/// The en-passant field of a target: `-` or file letter then rank digit.
pub open spec fn ep_chars(ep: Option<Tile>) -> Seq<char> {
    match ep {
        None => seq!['-'],
        Some(t) => seq![file_char(t.spec_file()), rank_char(t.spec_rank())],
    }
}

// --- The whole string ---

/// The decode contract of the codec: splits the input into its six fields
/// and decodes each in order, stopping at the first failure.
pub open spec fn fen_parse(s: Seq<char>) -> Result<BoardView, FenError> {
    let fields = split_on(s, ' ');
    if fields.len() != 6 {
        Err(FenError::WrongFieldCount)
    } else {
        let groups = split_on(fields[0], '/');
        if groups.len() != 8 {
            Err(FenError::WrongRankCount)
        } else {
            match decode_ranks(groups) {
                Err(e) => Err(e),
                Ok(rows) => match side_of_chars(fields[1]) {
                    None => Err(FenError::InvalidSideToMove),
                    Some(side) => match castling_of_chars(fields[2]) {
                        Err(e) => Err(e),
                        Ok(castling) => match ep_of_chars(fields[3]) {
                            Err(e) => Err(e),
                            Ok(ep) => if !(is_numeral(fields[4]) && numeral_val(fields[4])
                                <= u64::MAX) {
                                Err(FenError::InvalidHalfmoveClock)
                            } else if !(is_numeral(fields[5]) && 1 <= numeral_val(fields[5])
                                <= u64::MAX) {
                                Err(FenError::InvalidFullmoveNumber)
                            } else {
                                Ok(
                                    BoardView {
                                        tiles: tiles_of_ranks(rows),
                                        next_move: side,
                                        castling: castling,
                                        en_passant_target: ep,
                                        halfmove_clock: numeral_val(fields[4]) as u64,
                                        fullmove_number: numeral_val(fields[5]) as u64,
                                    },
                                )
                            },
                        },
                    },
                },
            }
        }
    }
}

// --- Encoding ---

/// The 8 cells of storage rank `r`, file `a` first.
pub open spec fn rank_row(tiles: Seq<Option<Piece>>, r: int) -> Seq<Option<Piece>> {
    Seq::new(8, |f: int| tiles[square_index(f, r)])
}

/// Encodes the remainder of a rank's cells, `pending` empty cells waiting
/// to be flushed as a run-length digit: an occupied cell flushes the run
/// and emits its letter; the end of the rank flushes a trailing run.
pub open spec fn encode_rank_from(cells: Seq<Option<Piece>>, pending: int) -> Seq<char>
    decreases cells.len(),
{
    if cells.len() == 0 {
        if pending > 0 {
            seq![digit_char(pending)]
        } else {
            Seq::<char>::empty()
        }
    } else {
        match cells[0] {
            None => encode_rank_from(cells.drop_first(), pending + 1),
            Some(p) => (if pending > 0 {
                seq![digit_char(pending)]
            } else {
                Seq::<char>::empty()
            }) + seq![piece_letter(p)] + encode_rank_from(cells.drop_first(), 0),
        }
    }
}

/// The canonical rank group of 8 cells: run-length digits for empty runs,
/// piece letters for occupied cells.
pub open spec fn encode_rank(cells: Seq<Option<Piece>>) -> Seq<char> {
    encode_rank_from(cells, 0)
}

/// The canonical placement field: the 8 rank groups, rank 8 first, joined
/// with `/`.
pub open spec fn placement_chars(tiles: Seq<Option<Piece>>) -> Seq<char> {
    encode_rank(rank_row(tiles, 7)) + seq!['/'] + encode_rank(rank_row(tiles, 6)) + seq!['/']
        + encode_rank(rank_row(tiles, 5)) + seq!['/'] + encode_rank(rank_row(tiles, 4)) + seq!['/']
        + encode_rank(rank_row(tiles, 3)) + seq!['/'] + encode_rank(rank_row(tiles, 2)) + seq!['/']
        + encode_rank(rank_row(tiles, 1)) + seq!['/'] + encode_rank(rank_row(tiles, 0))
}

/// The encode contract of the codec: the six fields in their canonical
/// spelling, joined with single spaces. Total: every valid board encodes.
pub open spec fn fen_encode(bv: BoardView) -> Seq<char> {
    placement_chars(bv.tiles) + seq![' '] + side_chars(bv.next_move) + seq![' '] + castling_chars(
        bv.castling,
    ) + seq![' '] + ep_chars(bv.en_passant_target) + seq![' '] + numeral_of(
        bv.halfmove_clock as int,
    ) + seq![' '] + numeral_of(bv.fullmove_number as int)
}

// --- The round-trip law ---

/// Every character of an encoded rank group is a run-length digit or a
/// piece letter, so none of it collides with the field and rank
/// separators.
pub proof fn lemma_encode_rank_plain(cells: Seq<Option<Piece>>, pending: int)
    requires
        0 <= pending,
        pending + cells.len() <= 8,
    ensures
        forall|i: int|
            0 <= i < encode_rank_from(cells, pending).len()
                ==> #[trigger] encode_rank_from(cells, pending)[i] != ' ' && encode_rank_from(
                cells,
                pending,
            )[i] != '/',
    decreases cells.len(),
{
    let s = encode_rank_from(cells, pending);
    if cells.len() == 0 {
        if pending > 0 {
            assert(digit_char(pending) as int == '0' as int + pending);
        }
    } else {
        match cells[0] {
            None => {
                lemma_encode_rank_plain(cells.drop_first(), pending + 1);
                let rest = encode_rank_from(cells.drop_first(), pending + 1);
                assert forall|i: int| 0 <= i < s.len() implies #[trigger] s[i] != ' ' && s[i]
                    != '/' by {
                    assert(s[i] == rest[i]);
                }
            },
            Some(p) => {
                lemma_encode_rank_plain(cells.drop_first(), 0);
                crate::piece::lemma_piece_letter_disjoint(p);
                if pending > 0 {
                    assert(digit_char(pending) as int == '0' as int + pending);
                }
                let head = (if pending > 0 {
                    seq![digit_char(pending)]
                } else {
                    Seq::<char>::empty()
                }) + seq![piece_letter(p)];
                let tail = encode_rank_from(cells.drop_first(), 0);
                assert(s =~= head + tail);
                assert forall|i: int| 0 <= i < s.len() implies #[trigger] s[i] != ' ' && s[i]
                    != '/' by {
                    if i < head.len() {
                        assert(s[i] == head[i]);
                    } else {
                        assert(s[i] == tail[i - head.len()]);
                    }
                }
            },
        }
    }
}

/// The canonical encoding of a rank decodes back to the same 8 cells: the
/// run-length digits the encoder flushes advance the decoder over exactly
/// the runs they stand for.
pub proof fn lemma_decode_encode_rank(
    cells: Seq<Option<Piece>>,
    acc: Seq<Option<Piece>>,
    pending: int,
)
    requires
        0 <= pending,
        acc.len() + pending + cells.len() == 8,
    ensures
        decode_rank_from(encode_rank_from(cells, pending), acc) == Ok::<
            Seq<Option<Piece>>,
            FenError,
        >(acc + empties(pending) + cells),
    decreases cells.len(),
{
    let s = encode_rank_from(cells, pending);
    if cells.len() == 0 {
        if pending > 0 {
            assert(digit_char(pending) as int == '0' as int + pending);
            assert(is_run_digit(s[0]));
            assert(run_len(s[0]) == pending);
            assert(s.drop_first() =~= Seq::<char>::empty());
            let acc2 = acc + empties(pending);
            assert(decode_rank_from(s, acc) == decode_rank_from(Seq::<char>::empty(), acc2));
            assert(acc2 + empties(8 - acc2.len()) =~= acc + empties(pending) + cells);
        } else {
            assert(acc + empties(8 - acc.len()) =~= acc + empties(pending) + cells);
        }
    } else {
        match cells[0] {
            None => {
                lemma_decode_encode_rank(cells.drop_first(), acc, pending + 1);
                assert(acc + empties(pending + 1) + cells.drop_first() =~= acc + empties(pending)
                    + cells);
            },
            Some(p) => {
                let head = (if pending > 0 {
                    seq![digit_char(pending)]
                } else {
                    Seq::<char>::empty()
                }) + seq![piece_letter(p)];
                let tail = encode_rank_from(cells.drop_first(), 0);
                assert(s =~= head + tail);
                crate::piece::lemma_piece_letter_disjoint(p);
                crate::piece::lemma_piece_letter_round_trip(p);
                let acc2 = acc + empties(pending);
                if pending > 0 {
                    assert(digit_char(pending) as int == '0' as int + pending);
                    assert(s[0] == digit_char(pending));
                    assert(is_run_digit(s[0]));
                    assert(run_len(s[0]) == pending);
                    assert(s.drop_first() =~= seq![piece_letter(p)] + tail);
                    assert(decode_rank_from(s, acc) == decode_rank_from(
                        seq![piece_letter(p)] + tail,
                        acc2,
                    ));
                } else {
                    assert(acc2 =~= acc);
                    assert(s =~= seq![piece_letter(p)] + tail);
                }
                let s2 = seq![piece_letter(p)] + tail;
                assert(s2[0] == piece_letter(p));
                assert(!is_run_digit(s2[0]));
                assert(piece_of_letter(s2[0]) == Some(p));
                assert(s2.drop_first() =~= tail);
                let acc3 = acc2.push(Some(p));
                assert(decode_rank_from(s2, acc2) == decode_rank_from(tail, acc3));
                lemma_decode_encode_rank(cells.drop_first(), acc3, 0);
                assert(acc3 + empties(0) + cells.drop_first() =~= acc + empties(pending) + cells);
            },
        }
    }
}

/// The canonical rank group of 8 cells decodes back to those cells.
pub proof fn lemma_rank_round_trip(cells: Seq<Option<Piece>>)
    requires
        cells.len() == 8,
    ensures
        decode_rank(encode_rank(cells)) == Ok::<Seq<Option<Piece>>, FenError>(cells),
{
    lemma_decode_encode_rank(cells, Seq::empty(), 0);
    assert(Seq::empty() + empties(0) + cells =~= cells);
}

/// The whole of a canonical rank group is separator-free.
proof fn lemma_encode_rank_plain_whole(cells: Seq<Option<Piece>>)
    requires
        cells.len() == 8,
    ensures
        forall|i: int|
            0 <= i < encode_rank(cells).len() ==> #[trigger] encode_rank(cells)[i] != ' '
                && encode_rank(cells)[i] != '/',
{
    lemma_encode_rank_plain(cells, 0);
    assert forall|i: int|
        0 <= i < encode_rank(cells).len() implies #[trigger] encode_rank(cells)[i] != ' '
        && encode_rank(cells)[i] != '/' by {
        assert(encode_rank(cells)[i] == encode_rank_from(cells, 0)[i]);
    }
}

/// The canonical placement field of a valid storage splits back into its 8
/// rank groups, those decode back to the 8 rows of the storage, and laying
/// the rows out again restores the storage. The field is also free of
/// spaces, so the outer fields of the FEN string split apart cleanly.
#[verifier::rlimit(100)]
proof fn lemma_placement_round_trip(tiles: Seq<Option<Piece>>)
    requires
        tiles.len() == 128,
        forall|i: int| 0 <= i < 128 && i % 16 >= 8 ==> tiles[i] is None,
    ensures
        forall|i: int|
            0 <= i < placement_chars(tiles).len() ==> #[trigger] placement_chars(tiles)[i] != ' ',
        split_on(placement_chars(tiles), '/').len() == 8,
        decode_ranks(split_on(placement_chars(tiles), '/')) matches Ok(rows) && tiles_of_ranks(
            rows,
        ) == tiles,
{
    let c0 = rank_row(tiles, 0);
    let c1 = rank_row(tiles, 1);
    let c2 = rank_row(tiles, 2);
    let c3 = rank_row(tiles, 3);
    let c4 = rank_row(tiles, 4);
    let c5 = rank_row(tiles, 5);
    let c6 = rank_row(tiles, 6);
    let c7 = rank_row(tiles, 7);
    let e0 = encode_rank(c0);
    let e1 = encode_rank(c1);
    let e2 = encode_rank(c2);
    let e3 = encode_rank(c3);
    let e4 = encode_rank(c4);
    let e5 = encode_rank(c5);
    let e6 = encode_rank(c6);
    let e7 = encode_rank(c7);
    lemma_encode_rank_plain_whole(c0);
    lemma_encode_rank_plain_whole(c1);
    lemma_encode_rank_plain_whole(c2);
    lemma_encode_rank_plain_whole(c3);
    lemma_encode_rank_plain_whole(c4);
    lemma_encode_rank_plain_whole(c5);
    lemma_encode_rank_plain_whole(c6);
    lemma_encode_rank_plain_whole(c7);
    // The groups come back apart at each separator.
    let q0 = e0;
    let q1 = e1 + seq!['/'] + q0;
    let q2 = e2 + seq!['/'] + q1;
    let q3 = e3 + seq!['/'] + q2;
    let q4 = e4 + seq!['/'] + q3;
    let q5 = e5 + seq!['/'] + q4;
    let q6 = e6 + seq!['/'] + q5;
    let q7 = e7 + seq!['/'] + q6;
    crate::text::lemma_split_on_whole(q0, '/');
    crate::text::lemma_split_on_step(e1, q0, '/');
    crate::text::lemma_split_on_step(e2, q1, '/');
    crate::text::lemma_split_on_step(e3, q2, '/');
    crate::text::lemma_split_on_step(e4, q3, '/');
    crate::text::lemma_split_on_step(e5, q4, '/');
    crate::text::lemma_split_on_step(e6, q5, '/');
    crate::text::lemma_split_on_step(e7, q6, '/');
    assert(placement_chars(tiles) =~= q7);
    let groups = seq![e7, e6, e5, e4, e3, e2, e1, e0];
    assert(split_on(q7, '/') =~= groups);
    // No space stands anywhere in the field.
    assert forall|i: int| 0 <= i < q7.len() implies #[trigger] q7[i] != ' ' by {
        if i < e7.len() + 1 + e6.len() + 1 + e5.len() + 1 + e4.len() + 1 + e3.len() + 1 + e2.len()
            + 1 + e1.len() + 1 {
        }
    }
    // Each group decodes back to its row.
    lemma_rank_round_trip(c0);
    lemma_rank_round_trip(c1);
    lemma_rank_round_trip(c2);
    lemma_rank_round_trip(c3);
    lemma_rank_round_trip(c4);
    lemma_rank_round_trip(c5);
    lemma_rank_round_trip(c6);
    lemma_rank_round_trip(c7);
    let g1 = seq![e0];
    let g2 = seq![e1, e0];
    let g3 = seq![e2, e1, e0];
    let g4 = seq![e3, e2, e1, e0];
    let g5 = seq![e4, e3, e2, e1, e0];
    let g6 = seq![e5, e4, e3, e2, e1, e0];
    let g7 = seq![e6, e5, e4, e3, e2, e1, e0];
    assert(g1.drop_first() =~= Seq::<Seq<char>>::empty());
    assert(g2.drop_first() =~= g1);
    assert(g3.drop_first() =~= g2);
    assert(g4.drop_first() =~= g3);
    assert(g5.drop_first() =~= g4);
    assert(g6.drop_first() =~= g5);
    assert(g7.drop_first() =~= g6);
    assert(groups.drop_first() =~= g7);
    let r1 = seq![c0];
    let r2 = seq![c1, c0];
    let r3 = seq![c2, c1, c0];
    let r4 = seq![c3, c2, c1, c0];
    let r5 = seq![c4, c3, c2, c1, c0];
    let r6 = seq![c5, c4, c3, c2, c1, c0];
    let r7 = seq![c6, c5, c4, c3, c2, c1, c0];
    let rows = seq![c7, c6, c5, c4, c3, c2, c1, c0];
    assert(decode_ranks(Seq::<Seq<char>>::empty()) == Ok::<Seq<Seq<Option<Piece>>>, FenError>(
        Seq::empty(),
    ));
    assert(seq![c0] + Seq::<Seq<Option<Piece>>>::empty() =~= r1);
    assert(decode_ranks(g1) == Ok::<Seq<Seq<Option<Piece>>>, FenError>(r1));
    assert(seq![c1] + r1 =~= r2);
    assert(decode_ranks(g2) == Ok::<Seq<Seq<Option<Piece>>>, FenError>(r2));
    assert(seq![c2] + r2 =~= r3);
    assert(decode_ranks(g3) == Ok::<Seq<Seq<Option<Piece>>>, FenError>(r3));
    assert(seq![c3] + r3 =~= r4);
    assert(decode_ranks(g4) == Ok::<Seq<Seq<Option<Piece>>>, FenError>(r4));
    assert(seq![c4] + r4 =~= r5);
    assert(decode_ranks(g5) == Ok::<Seq<Seq<Option<Piece>>>, FenError>(r5));
    assert(seq![c5] + r5 =~= r6);
    assert(decode_ranks(g6) == Ok::<Seq<Seq<Option<Piece>>>, FenError>(r6));
    assert(seq![c6] + r6 =~= r7);
    assert(decode_ranks(g7) == Ok::<Seq<Seq<Option<Piece>>>, FenError>(r7));
    assert(seq![c7] + r7 =~= rows);
    assert(decode_ranks(groups) == Ok::<Seq<Seq<Option<Piece>>>, FenError>(rows));
    // Laying the rows out again gives the storage back.
    assert forall|i: int| 0 <= i < 128 implies tiles_of_ranks(rows)[i] == tiles[i] by {
        let f = i % 16;
        let r = i / 16;
        assert(0 <= f < 16);
        assert(0 <= r < 8);
        if f < 8 {
            assert(rows[7 - r] == rank_row(tiles, r));
            assert(rank_row(tiles, r)[f] == tiles[square_index(f, r)]);
            assert(square_index(f, r) == i);
        }
    }
    assert(tiles_of_ranks(rows) =~= tiles);
}

/// The encoded string of a valid board splits back into its six fields:
/// none of them holds a space, and they are joined by single spaces.
#[verifier::rlimit(100)]
proof fn lemma_fen_fields(bv: BoardView)
    requires
        bv.wf(),
    ensures
        split_on(fen_encode(bv), ' ') == seq![
            placement_chars(bv.tiles),
            side_chars(bv.next_move),
            castling_chars(bv.castling),
            ep_chars(bv.en_passant_target),
            numeral_of(bv.halfmove_clock as int),
            numeral_of(bv.fullmove_number as int),
        ],
{
    let f0 = placement_chars(bv.tiles);
    let f1 = side_chars(bv.next_move);
    let f2 = castling_chars(bv.castling);
    let f3 = ep_chars(bv.en_passant_target);
    let f4 = numeral_of(bv.halfmove_clock as int);
    let f5 = numeral_of(bv.fullmove_number as int);
    lemma_placement_round_trip(bv.tiles);
    crate::castling::lemma_castling_chars_plain(bv.castling);
    crate::text::lemma_numeral_round_trip(bv.halfmove_clock as int);
    crate::text::lemma_numeral_round_trip(bv.fullmove_number as int);
    // None of the six encoded fields holds a space.
    match bv.en_passant_target {
        None => {},
        Some(t) => {
            assert(file_char(t.spec_file()) as int == 'a' as int + t.spec_file());
            assert(rank_char(t.spec_rank()) as int == '1' as int + t.spec_rank());
        },
    }
    let t5 = f5;
    let t4 = f4 + seq![' '] + t5;
    let t3 = f3 + seq![' '] + t4;
    let t2 = f2 + seq![' '] + t3;
    let t1 = f1 + seq![' '] + t2;
    let t0 = f0 + seq![' '] + t1;
    crate::text::lemma_split_on_whole(t5, ' ');
    crate::text::lemma_split_on_step(f4, t5, ' ');
    crate::text::lemma_split_on_step(f3, t4, ' ');
    crate::text::lemma_split_on_step(f2, t3, ' ');
    crate::text::lemma_split_on_step(f1, t2, ' ');
    crate::text::lemma_split_on_step(f0, t1, ' ');
    assert(fen_encode(bv) =~= t0);
    assert(split_on(t0, ' ') =~= seq![f0, f1, f2, f3, f4, f5]);
}

/// Encoding a valid board and decoding the result restores the board: the
/// codec's round-trip law, stated over the codec's own model.
#[verifier::rlimit(100)]
pub proof fn lemma_fen_encode_parses(bv: BoardView)
    requires
        bv.wf(),
    ensures
        fen_parse(fen_encode(bv)) == Ok::<BoardView, FenError>(bv),
{
    let f0 = placement_chars(bv.tiles);
    let f1 = side_chars(bv.next_move);
    let f2 = castling_chars(bv.castling);
    let f3 = ep_chars(bv.en_passant_target);
    let f4 = numeral_of(bv.halfmove_clock as int);
    let f5 = numeral_of(bv.fullmove_number as int);
    lemma_fen_fields(bv);
    let fields = seq![f0, f1, f2, f3, f4, f5];
    lemma_placement_round_trip(bv.tiles);
    crate::castling::lemma_castling_round_trip(bv.castling);
    crate::text::lemma_numeral_round_trip(bv.halfmove_clock as int);
    crate::text::lemma_numeral_round_trip(bv.fullmove_number as int);
    // Each field decodes back to the part of the board it encodes.
    match bv.en_passant_target {
        None => {
            assert(ep_of_chars(f3) == Ok::<Option<Tile>, FenError>(None));
        },
        Some(t) => {
            let tf = t.spec_file();
            let tr = t.spec_rank();
            assert(file_char(tf) as int == 'a' as int + tf);
            assert(rank_char(tr) as int == '1' as int + tr);
            assert(is_file_char(f3[0]) && file_of_char(f3[0]) == tf);
            assert(is_rank_char(f3[1]) && rank_of_char(f3[1]) == tr);
            assert(tile_of_chars(f3) == Some((tf, tr)));
            crate::tile::lemma_spec_new_tile(tf, tr);
            crate::tile::lemma_tile_injective(Tile::spec_new(tf, tr), t);
            assert(ep_of_chars(f3) == Ok::<Option<Tile>, FenError>(Some(t)));
        },
    }
    assert(numeral_val(f4) as u64 == bv.halfmove_clock);
    assert(numeral_val(f5) as u64 == bv.fullmove_number);
    match fen_parse(fen_encode(bv)) {
        Ok(out) => {
            assert(out.tiles == bv.tiles);
            assert(out =~= bv);
        },
        Err(_) => {
            assert(false);
        },
    }
}

/// A successfully decoded board is valid: its storage has the 128 cells
/// with the off-board half empty, its en-passant target is a real square,
/// and its fullmove number is at least 1.
pub proof fn lemma_fen_parse_wf(s: Seq<char>)
    ensures
        fen_parse(s) matches Ok(bv) ==> bv.wf(),
{
    match fen_parse(s) {
        Ok(bv) => {
            let fields = split_on(s, ' ');
            match ep_of_chars(fields[3]) {
                Ok(Some(t)) => {
                    let fr = tile_of_chars(fields[3]).unwrap();
                    crate::tile::lemma_spec_new_tile(fr.0, fr.1);
                },
                _ => {},
            }
        },
        Err(_) => {},
    }
}

/// An input with any number of space-separated fields other than 6 is
/// rejected as a whole, whatever the fields hold.
pub proof fn lemma_wrong_field_count(s: Seq<char>)
    ensures
        split_on(s, ' ').len() != 6 ==> fen_parse(s) == Err::<BoardView, FenError>(
            FenError::WrongFieldCount,
        ),
{
}

/// A placement field with any number of rank groups other than 8 is
/// rejected, whatever the groups hold.
pub proof fn lemma_wrong_rank_count(s: Seq<char>)
    ensures
        split_on(s, ' ').len() == 6 && split_on(split_on(s, ' ')[0], '/').len() != 8 ==> fen_parse(
            s,
        ) == Err::<BoardView, FenError>(FenError::WrongRankCount),
{
}

/// The round-trip law: any board a FEN string decodes to encodes back to a
/// FEN string that decodes to the very same board.
pub proof fn lemma_fen_round_trip(s: Seq<char>)
    ensures
        fen_parse(s) matches Ok(bv) ==> fen_parse(fen_encode(bv)) == Ok::<BoardView, FenError>(bv),
{
    match fen_parse(s) {
        Ok(bv) => {
            lemma_fen_parse_wf(s);
            lemma_fen_encode_parses(bv);
        },
        Err(_) => {},
    }
}

// --- Human-readable rendering ---

/// The glyph of a cell in the human-readable grid: the piece letter, or
/// `*` for an empty cell.
pub open spec fn cell_glyph(cell: Option<Piece>) -> char {
    match cell {
        Some(p) => piece_letter(p),
        None => '*',
    }
}

/// One rendered grid line: the 8 glyphs of a storage rank and a newline.
pub open spec fn render_row(tiles: Seq<Option<Piece>>, r: int) -> Seq<char> {
    Seq::new(8, |f: int| cell_glyph(tiles[square_index(f, r)])).push('\n')
}

/// The human-readable grid: one line per rank, rank 8 at the top. Used for
/// display only, never for persistence.
pub open spec fn render_chars(tiles: Seq<Option<Piece>>) -> Seq<char> {
    render_row(tiles, 7) + render_row(tiles, 6) + render_row(tiles, 5) + render_row(tiles, 4)
        + render_row(tiles, 3) + render_row(tiles, 2) + render_row(tiles, 1) + render_row(tiles, 0)
}

} // verus!
