use vstd::prelude::*;

use crate::error::FenError;
use crate::piece::Color;

verus! {

/// The four independent castling rights of a position. A new game grants
/// all four.
#[derive(Debug, PartialEq, Eq, Clone, Copy, Structural)]
pub struct CastlingAvailability {
    pub white_kingside: bool,
    pub white_queenside: bool,
    pub black_kingside: bool,
    pub black_queenside: bool,
}

/// The wing a castling move goes to.
#[derive(Debug, PartialEq, Eq, Clone, Copy, Structural)]
pub enum Side {
    KingSide,
    QueenSide,
}

/// Read access to castling rights, by colour and wing.
pub trait CanCastle {
    /// The right this value grants to `color` on `side`.
    spec fn castle_right(&self, color: Color, side: Side) -> bool;

    /// Whether `color` may still castle on `side`.
    fn can_castle(&self, color: Color, side: Side) -> (b: bool)
        ensures
            b == self.castle_right(color, side),
    ;
}

/// The rights value that grants nothing, written `-` in FEN.
pub open spec fn no_rights() -> CastlingAvailability {
    CastlingAvailability {
        white_kingside: false,
        white_queenside: false,
        black_kingside: false,
        black_queenside: false,
    }
}

/// The rights value of a new game: all four rights granted.
pub open spec fn all_rights() -> CastlingAvailability {
    CastlingAvailability {
        white_kingside: true,
        white_queenside: true,
        black_kingside: true,
        black_queenside: true,
    }
}

/// Folds castling letters into a rights value, one flag per letter. A
/// character outside `KQkq`, or a letter whose flag is already set (a
/// duplicate), is invalid.
pub open spec fn castling_fold(s: Seq<char>, acc: CastlingAvailability) -> Result<
    CastlingAvailability,
    FenError,
>
    decreases s.len(),
{
    if s.len() == 0 {
        Ok(acc)
    } else if s[0] == 'K' && !acc.white_kingside {
        castling_fold(
            s.drop_first(),
            CastlingAvailability { white_kingside: true, ..acc },
        )
    } else if s[0] == 'Q' && !acc.white_queenside {
        castling_fold(
            s.drop_first(),
            CastlingAvailability { white_queenside: true, ..acc },
        )
    } else if s[0] == 'k' && !acc.black_kingside {
        castling_fold(
            s.drop_first(),
            CastlingAvailability { black_kingside: true, ..acc },
        )
    } else if s[0] == 'q' && !acc.black_queenside {
        castling_fold(
            s.drop_first(),
            CastlingAvailability { black_queenside: true, ..acc },
        )
    } else {
        Err(FenError::InvalidCastlingRights)
    }
}

/// The rights a FEN castling field denotes: a lone `-` grants nothing;
/// otherwise one to four letters of `KQkq`, each at most once, in any
/// order. Anything else is invalid.
pub open spec fn castling_of_chars(s: Seq<char>) -> Result<CastlingAvailability, FenError> {
    if s.len() == 1 && s[0] == '-' {
        Ok(no_rights())
    } else if 1 <= s.len() <= 4 {
        castling_fold(s, no_rights())
    } else {
        Err(FenError::InvalidCastlingRights)
    }
}

/// The canonical FEN text of a rights value: present letters in the fixed
/// order `K`, `Q`, `k`, `q`, or `-` when none is present.
pub open spec fn castling_chars(c: CastlingAvailability) -> Seq<char> {
    if c == no_rights() {
        seq!['-']
    } else {
        (if c.white_kingside {
            seq!['K']
        } else {
            Seq::empty()
        }) + (if c.white_queenside {
            seq!['Q']
        } else {
            Seq::empty()
        }) + (if c.black_kingside {
            seq!['k']
        } else {
            Seq::empty()
        }) + (if c.black_queenside {
            seq!['q']
        } else {
            Seq::empty()
        })
    }
}

impl CastlingAvailability {
    /// Decodes a FEN castling field; see `castling_of_chars` for the
    /// accepted shapes.
    pub fn parse(s: &str) -> (r: Result<CastlingAvailability, FenError>)
        ensures
            r == castling_of_chars(s@),
    {
        let n = s.unicode_len();
        if n == 1 && s.get_char(0) == '-' {
            return Ok(
                CastlingAvailability {
                    white_kingside: false,
                    white_queenside: false,
                    black_kingside: false,
                    black_queenside: false,
                },
            );
        }
        if n < 1 || n > 4 {
            return Err(FenError::InvalidCastlingRights);
        }
        let mut ret = CastlingAvailability {
            white_kingside: false,
            white_queenside: false,
            black_kingside: false,
            black_queenside: false,
        };
        proof {
            assert(s@.skip(0) =~= s@);
        }
        let mut i: usize = 0;
        while i < n
            invariant
                0 <= i <= n,
                n == s@.len(),
                1 <= n <= 4,
                s@.len() == 1 ==> s@[0] != '-',
                castling_fold(s@, no_rights()) == castling_fold(s@.skip(i as int), ret),
            decreases n - i,
        {
            let c = s.get_char(i);
            proof {
                assert(s@.skip(i as int)[0] == s@[i as int]);
                assert(s@.skip(i as int).drop_first() =~= s@.skip(i as int + 1));
            }
            if c == 'K' && !ret.white_kingside {
                ret.white_kingside = true;
            } else if c == 'Q' && !ret.white_queenside {
                ret.white_queenside = true;
            } else if c == 'k' && !ret.black_kingside {
                ret.black_kingside = true;
            } else if c == 'q' && !ret.black_queenside {
                ret.black_queenside = true;
            } else {
                proof {
                    assert(castling_fold(s@.skip(i as int), ret) == Err::<
                        CastlingAvailability,
                        FenError,
                    >(FenError::InvalidCastlingRights));
                }
                return Err(FenError::InvalidCastlingRights);
            }
            i = i + 1;
        }
        proof {
            assert(s@.skip(n as int) =~= Seq::<char>::empty());
        }
        Ok(ret)
    }

    /// Encodes this rights value as its canonical FEN castling field.
    pub fn encode(&self) -> (r: String)
        ensures
            r@ == castling_chars(*self),
    {
        proof {
            reveal_strlit("-");
            reveal_strlit("K");
            reveal_strlit("Q");
            reveal_strlit("k");
            reveal_strlit("q");
        }
        if !self.white_kingside && !self.white_queenside && !self.black_kingside
            && !self.black_queenside {
            let mut out = String::new();
            out.append("-");
            return out;
        }
        let mut out = String::new();
        if self.white_kingside {
            out.append("K");
        }
        if self.white_queenside {
            out.append("Q");
        }
        if self.black_kingside {
            out.append("k");
        }
        if self.black_queenside {
            out.append("q");
        }
        proof {
            assert(out@ =~= castling_chars(*self));
        }
        out
    }
}

impl CanCastle for CastlingAvailability {
    open spec fn castle_right(&self, color: Color, side: Side) -> bool {
        match (color, side) {
            (Color::White, Side::KingSide) => self.white_kingside,
            (Color::White, Side::QueenSide) => self.white_queenside,
            (Color::Black, Side::KingSide) => self.black_kingside,
            (Color::Black, Side::QueenSide) => self.black_queenside,
        }
    }

    fn can_castle(&self, color: Color, side: Side) -> (b: bool) {
        match (color, side) {
            (Color::White, Side::KingSide) => self.white_kingside,
            (Color::White, Side::QueenSide) => self.white_queenside,
            (Color::Black, Side::KingSide) => self.black_kingside,
            (Color::Black, Side::QueenSide) => self.black_queenside,
        }
    }
}

impl Default for CastlingAvailability {
    /// A new game grants all four rights.
    fn default() -> (c: CastlingAvailability)
        ensures
            c == all_rights(),
    {
        CastlingAvailability {
            white_kingside: true,
            white_queenside: true,
            black_kingside: true,
            black_queenside: true,
        }
    }
}

/// Every rights value round-trips through its FEN text: each of the 16
/// subsets of `KQkq`, the empty one written `-`, encodes to a field that
/// decodes back to the same value.
pub proof fn lemma_castling_round_trip(c: CastlingAvailability)
    ensures
        castling_of_chars(castling_chars(c)) == Ok::<CastlingAvailability, FenError>(c),
{
    reveal_with_fuel(castling_fold, 6);
    let s = castling_chars(c);
    if c == no_rights() {
        assert(s.len() == 1 && s[0] == '-');
    } else {
        if c.white_kingside {
            if c.white_queenside {
                if c.black_kingside {
                    if c.black_queenside {
                        assert(s =~= seq!['K', 'Q', 'k', 'q']);
                    } else {
                        assert(s =~= seq!['K', 'Q', 'k']);
                    }
                } else {
                    if c.black_queenside {
                        assert(s =~= seq!['K', 'Q', 'q']);
                    } else {
                        assert(s =~= seq!['K', 'Q']);
                    }
                }
            } else {
                if c.black_kingside {
                    if c.black_queenside {
                        assert(s =~= seq!['K', 'k', 'q']);
                    } else {
                        assert(s =~= seq!['K', 'k']);
                    }
                } else {
                    if c.black_queenside {
                        assert(s =~= seq!['K', 'q']);
                    } else {
                        assert(s =~= seq!['K']);
                    }
                }
            }
        } else {
            if c.white_queenside {
                if c.black_kingside {
                    if c.black_queenside {
                        assert(s =~= seq!['Q', 'k', 'q']);
                    } else {
                        assert(s =~= seq!['Q', 'k']);
                    }
                } else {
                    if c.black_queenside {
                        assert(s =~= seq!['Q', 'q']);
                    } else {
                        assert(s =~= seq!['Q']);
                    }
                }
            } else {
                if c.black_kingside {
                    if c.black_queenside {
                        assert(s =~= seq!['k', 'q']);
                    } else {
                        assert(s =~= seq!['k']);
                    }
                } else {
                    assert(s =~= seq!['q']);
                }
            }
        }
    }
}

/// A castling field never holds a space or a rank separator, so the fields
/// of an encoded FEN split back apart cleanly.
pub proof fn lemma_castling_chars_plain(c: CastlingAvailability)
    ensures
        forall|i: int|
            0 <= i < castling_chars(c).len() ==> #[trigger] castling_chars(c)[i] != ' '
                && castling_chars(c)[i] != '/',
{
    let s = castling_chars(c);
    assert forall|i: int| 0 <= i < s.len() implies #[trigger] s[i] != ' ' && s[i] != '/' by {
        if c != no_rights() {
            assert(s[i] == 'K' || s[i] == 'Q' || s[i] == 'k' || s[i] == 'q');
        }
    }
}

} // verus!
