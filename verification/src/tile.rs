use vstd::prelude::*;

use crate::error::FenError;
use crate::square::Square;
use crate::square::square_index;

verus! {

/// A file of the board, `a` through `h` from White's left.
#[derive(Debug, PartialEq, Eq, Clone, Copy, Structural)]
pub enum File {
    A,
    B,
    C,
    D,
    E,
    F,
    G,
    H,
}

/// A rank of the board, `1` through `8` from White's side.
#[derive(Debug, PartialEq, Eq, Clone, Copy, Structural)]
pub enum Rank {
    One,
    Two,
    Three,
    Four,
    Five,
    Six,
    Seven,
    Eight,
}

/// The zero-based index of a file: `a` is 0, `h` is 7.
pub open spec fn file_index(f: File) -> int {
    match f {
        File::A => 0,
        File::B => 1,
        File::C => 2,
        File::D => 3,
        File::E => 4,
        File::F => 5,
        File::G => 6,
        File::H => 7,
    }
}

/// The zero-based index of a rank: rank 1 is 0, rank 8 is 7.
pub open spec fn rank_index(r: Rank) -> int {
    match r {
        Rank::One => 0,
        Rank::Two => 1,
        Rank::Three => 2,
        Rank::Four => 3,
        Rank::Five => 4,
        Rank::Six => 5,
        Rank::Seven => 6,
        Rank::Eight => 7,
    }
}

impl File {
    /// The zero-based index of this file.
    pub fn as_u8(self) -> (n: u8)
        ensures
            n as int == file_index(self),
    {
        match self {
            File::A => 0,
            File::B => 1,
            File::C => 2,
            File::D => 3,
            File::E => 4,
            File::F => 5,
            File::G => 6,
            File::H => 7,
        }
    }

    /// The file with the given zero-based index. An out-of-range index is
    /// a programming error in the caller and is excluded outright.
    pub fn from_u8(n: u8) -> (f: File)
        requires
            n < 8,
        ensures
            file_index(f) == n as int,
    {
        match n {
            0 => File::A,
            1 => File::B,
            2 => File::C,
            3 => File::D,
            4 => File::E,
            5 => File::F,
            6 => File::G,
            _ => File::H,
        }
    }
}

impl Rank {
    /// The zero-based index of this rank.
    pub fn as_u8(self) -> (n: u8)
        ensures
            n as int == rank_index(self),
    {
        match self {
            Rank::One => 0,
            Rank::Two => 1,
            Rank::Three => 2,
            Rank::Four => 3,
            Rank::Five => 4,
            Rank::Six => 5,
            Rank::Seven => 6,
            Rank::Eight => 7,
        }
    }

    /// The rank with the given zero-based index. An out-of-range index is
    /// a programming error in the caller and is excluded outright.
    pub fn from_u8(n: u8) -> (r: Rank)
        requires
            n < 8,
        ensures
            rank_index(r) == n as int,
    {
        match n {
            0 => Rank::One,
            1 => Rank::Two,
            2 => Rank::Three,
            3 => Rank::Four,
            4 => Rank::Five,
            5 => Rank::Six,
            6 => Rank::Seven,
            _ => Rank::Eight,
        }
    }
}

/// One of the 64 squares of the board, stored as its 0x88 index byte.
#[derive(Debug, PartialEq, Eq, Clone, Copy, Structural)]
pub struct Tile(u8);

impl Tile {
    /// The stored 0x88 index byte, as a mathematical integer.
    pub closed spec fn value(self) -> int {
        self.0 as int
    }

    /// The tile on a coordinate, as a specification-level value.
    pub closed spec fn spec_new(file: int, rank: int) -> Tile {
        Tile((rank * 16 + file) as u8)
    }

    /// The zero-based file of this tile: the low nibble of the index.
    pub open spec fn spec_file(self) -> int {
        self.value() % 16
    }

    /// The zero-based rank of this tile: the high nibble of the index.
    pub open spec fn spec_rank(self) -> int {
        self.value() / 16
    }

    /// A tile is well formed when both nibbles denote a real coordinate.
    /// Every tile the constructor produces is well formed.
    pub open spec fn wf(self) -> bool {
        0 <= self.spec_file() < 8 && 0 <= self.spec_rank() < 8
    }

    /// The tile at the given file and rank, addressed through the 0x88
    /// square index.
    pub fn new(file: File, rank: Rank) -> (t: Tile)
        ensures
            t.wf(),
            t.spec_file() == file_index(file),
            t.spec_rank() == rank_index(rank),
    {
        let f = file.as_u8();
        let r = rank.as_u8();
        let t = Tile(Square::new(f, r).as_u8());
        proof {
            assert(t.value() == square_index(f as int, r as int));
            lemma_nibbles_of_index(f as int, r as int);
        }
        t
    }

    /// The raw 0x88 index byte of this tile.
    pub fn as_u8(&self) -> (b: u8)
        ensures
            b as int == self.value(),
    {
        self.0
    }

    /// The file of this tile, as a zero-based index.
    pub fn file_u8(&self) -> (f: u8)
        ensures
            f as int == self.spec_file(),
    {
        self.0 % 16
    }

    /// The rank of this tile, as a zero-based index.
    pub fn rank_u8(&self) -> (r: u8)
        ensures
            r as int == self.spec_rank(),
    {
        self.0 / 16
    }
}

/// The nibbles of a 0x88 index recover the coordinates it was built from.
pub proof fn lemma_nibbles_of_index(file: int, rank: int)
    requires
        0 <= file < 8,
        0 <= rank < 8,
    ensures
        square_index(file, rank) % 16 == file,
        square_index(file, rank) / 16 == rank,
{
    assert((rank * 16 + file) % 16 == file && (rank * 16 + file) / 16 == rank)
        by (nonlinear_arith)
        requires
            0 <= file < 8,
            0 <= rank < 8,
    ;
}

/// A specification-level tile lies on the coordinate it was built from.
pub proof fn lemma_spec_new_tile(file: int, rank: int)
    requires
        0 <= file < 8,
        0 <= rank < 8,
    ensures
        Tile::spec_new(file, rank).wf(),
        Tile::spec_new(file, rank).spec_file() == file,
        Tile::spec_new(file, rank).spec_rank() == rank,
{
    assert(0 <= rank * 16 + file < 128) by (nonlinear_arith)
        requires
            0 <= file < 8,
            0 <= rank < 8,
    ;
    assert(Tile::spec_new(file, rank).value() == square_index(file, rank));
    lemma_nibbles_of_index(file, rank);
}

/// A tile is determined by its file and rank: two well-formed tiles on the
/// same coordinate are the same tile.
pub proof fn lemma_tile_injective(a: Tile, b: Tile)
    requires
        a.spec_file() == b.spec_file(),
        a.spec_rank() == b.spec_rank(),
    ensures
        a == b,
{
    assert(a.value() == 16 * (a.value() / 16) + a.value() % 16);
    assert(b.value() == 16 * (b.value() / 16) + b.value() % 16);
}

/// Whether a character is a FEN file letter, `a` through `h`.
pub open spec fn is_file_char(c: char) -> bool {
    'a' <= c <= 'h'
}

/// Whether a character is a FEN rank digit, `1` through `8`.
pub open spec fn is_rank_char(c: char) -> bool {
    '1' <= c <= '8'
}

/// The zero-based file index a file letter denotes.
pub open spec fn file_of_char(c: char) -> int {
    c as int - 'a' as int
}

/// The zero-based rank index a rank digit denotes.
pub open spec fn rank_of_char(c: char) -> int {
    c as int - '1' as int
}

/// The file letter of a zero-based file index.
pub open spec fn file_char(file: int) -> char {
    ('a' as int + file) as char
}

/// The rank digit of a zero-based rank index.
pub open spec fn rank_char(rank: int) -> char {
    ('1' as int + rank) as char
}

/// The coordinate a two-character square reference denotes: a file letter
/// `a`-`h` followed by a rank digit `1`-`8`. Any other shape is invalid.
pub open spec fn tile_of_chars(s: Seq<char>) -> Option<(int, int)> {
    if s.len() == 2 && is_file_char(s[0]) && is_rank_char(s[1]) {
        Some((file_of_char(s[0]), rank_of_char(s[1])))
    } else {
        None
    }
}

/// The file letter of a zero-based file index, as a one-character string
/// for the encoder to append.
pub fn file_char_str(file: u8) -> (s: &'static str)
    requires
        file < 8,
    ensures
        s@ == seq![file_char(file as int)],
{
    proof {
        reveal_strlit("a");
        reveal_strlit("b");
        reveal_strlit("c");
        reveal_strlit("d");
        reveal_strlit("e");
        reveal_strlit("f");
        reveal_strlit("g");
        reveal_strlit("h");
    }
    let s: &'static str = match file {
        0 => "a",
        1 => "b",
        2 => "c",
        3 => "d",
        4 => "e",
        5 => "f",
        6 => "g",
        _ => "h",
    };
    proof {
        assert(file_char(file as int) as int == 'a' as int + file);
        assert(s@ =~= seq![file_char(file as int)]);
    }
    s
}

/// The rank digit of a zero-based rank index, as a one-character string
/// for the encoder to append.
pub fn rank_char_str(rank: u8) -> (s: &'static str)
    requires
        rank < 8,
    ensures
        s@ == seq![rank_char(rank as int)],
{
    proof {
        reveal_strlit("1");
        reveal_strlit("2");
        reveal_strlit("3");
        reveal_strlit("4");
        reveal_strlit("5");
        reveal_strlit("6");
        reveal_strlit("7");
        reveal_strlit("8");
    }
    let s: &'static str = match rank {
        0 => "1",
        1 => "2",
        2 => "3",
        3 => "4",
        4 => "5",
        5 => "6",
        6 => "7",
        _ => "8",
    };
    proof {
        assert(rank_char(rank as int) as int == '1' as int + rank);
        assert(s@ =~= seq![rank_char(rank as int)]);
    }
    s
}

impl Tile {
    /// Decodes a two-character square reference such as `e3`; any other
    /// shape fails with `InvalidEnPassantSquare`, the only field that
    /// carries square references in FEN.
    pub fn parse(s: &str) -> (r: Result<Tile, FenError>)
        ensures
            (match tile_of_chars(s@) {
                Some(fr) => (r matches Ok(t) && t == Tile::spec_new(fr.0, fr.1) && t.wf()
                    && t.spec_file() == fr.0 && t.spec_rank() == fr.1),
                None => r == Err::<Tile, FenError>(FenError::InvalidEnPassantSquare),
            }),
    {
        if s.unicode_len() != 2 {
            return Err(FenError::InvalidEnPassantSquare);
        }
        let c0 = s.get_char(0);
        let c1 = s.get_char(1);
        let f = c0 as u32;
        let r = c1 as u32;
        if f < 'a' as u32 || f > 'h' as u32 {
            return Err(FenError::InvalidEnPassantSquare);
        }
        if r < '1' as u32 || r > '8' as u32 {
            return Err(FenError::InvalidEnPassantSquare);
        }
        let file = File::from_u8((f - 'a' as u32) as u8);
        let rank = Rank::from_u8((r - '1' as u32) as u8);
        let t = Tile::new(file, rank);
        proof {
            let fr = tile_of_chars(s@).unwrap();
            lemma_spec_new_tile(fr.0, fr.1);
            lemma_tile_injective(t, Tile::spec_new(fr.0, fr.1));
        }
        Ok(t)
    }
}

} // verus!
