use chess_fen::Board;
use chess_fen::CanCastle;
use chess_fen::CastlingAvailability;
use chess_fen::Color;
use chess_fen::FenError;
use chess_fen::File;
use chess_fen::Piece;
use chess_fen::PieceType;
use chess_fen::Rank;
use chess_fen::Side;
use chess_fen::Square;
use chess_fen::Tile;

#[test]
fn the_64_square_indices_are_pairwise_distinct() {
    let mut seen: Vec<u8> = Vec::new();
    for rank in 0..8u8 {
        for file in 0..8u8 {
            let index = Square::new(file, rank).as_u8();
            assert!(!seen.contains(&index));
            seen.push(index);
        }
    }
    assert_eq!(seen.len(), 64);
}

#[test]
fn the_square_index_packs_rank_and_file_into_nibbles() {
    assert_eq!(Square::new(0, 0).as_u8(), 0x00);
    assert_eq!(Square::new(7, 0).as_u8(), 0x07);
    assert_eq!(Square::new(0, 7).as_u8(), 0x70);
    assert_eq!(Square::new(7, 7).as_u8(), 0x77);
    assert_eq!(Square::new(4, 2).as_u8(), 0x24);
}

#[test]
fn a_tile_carries_the_same_index_as_its_square() {
    let tile = Tile::new(File::E, Rank::Three);
    assert_eq!(tile.as_u8(), Square::new(4, 2).as_u8());
    assert_eq!(tile.file_u8(), 4);
    assert_eq!(tile.rank_u8(), 2);
}

#[test]
fn tile_parse_reads_file_letter_then_rank_digit() {
    let tile = Tile::parse("c6").unwrap();
    assert_eq!(tile.file_u8(), 2);
    assert_eq!(tile.rank_u8(), 5);
    assert_eq!(Tile::parse("e3").unwrap().as_u8(), 0x24);
    assert_eq!(Tile::parse("i1").err().unwrap(), FenError::InvalidEnPassantSquare);
    assert_eq!(Tile::parse("a0").err().unwrap(), FenError::InvalidEnPassantSquare);
    assert_eq!(Tile::parse("a10").err().unwrap(), FenError::InvalidEnPassantSquare);
}

#[test]
fn all_twelve_piece_letters_decode_to_their_piece() {
    let cases = [
        ('p', PieceType::Pawn, Color::Black),
        ('n', PieceType::Knight, Color::Black),
        ('b', PieceType::Bishop, Color::Black),
        ('r', PieceType::Rook, Color::Black),
        ('q', PieceType::Queen, Color::Black),
        ('k', PieceType::King, Color::Black),
        ('P', PieceType::Pawn, Color::White),
        ('N', PieceType::Knight, Color::White),
        ('B', PieceType::Bishop, Color::White),
        ('R', PieceType::Rook, Color::White),
        ('Q', PieceType::Queen, Color::White),
        ('K', PieceType::King, Color::White),
    ];
    for (letter, kind, color) in cases.iter() {
        let piece = Piece::from_letter(*letter).unwrap();
        assert_eq!(piece.kind, *kind);
        assert_eq!(piece.color, *color);
        assert_eq!(piece.to_letter(), *letter);
    }
}

#[test]
fn an_unknown_letter_is_no_piece() {
    assert_eq!(Piece::from_letter('x').err().unwrap(), FenError::InvalidPieceLetter);
    assert_eq!(Piece::from_letter('1').err().unwrap(), FenError::InvalidPieceLetter);
    assert_eq!(Piece::from_letter(' ').err().unwrap(), FenError::InvalidPieceLetter);
}

#[test]
fn castling_parse_sets_exactly_the_named_rights() {
    let rights = CastlingAvailability::parse("Kq").unwrap();
    assert!(rights.can_castle(Color::White, Side::KingSide));
    assert!(!rights.can_castle(Color::White, Side::QueenSide));
    assert!(!rights.can_castle(Color::Black, Side::KingSide));
    assert!(rights.can_castle(Color::Black, Side::QueenSide));
    assert_eq!(rights.encode(), "Kq");
}

#[test]
fn castling_default_grants_all_four_rights() {
    let rights = CastlingAvailability::default();
    assert!(rights.can_castle(Color::White, Side::KingSide));
    assert!(rights.can_castle(Color::White, Side::QueenSide));
    assert!(rights.can_castle(Color::Black, Side::KingSide));
    assert!(rights.can_castle(Color::Black, Side::QueenSide));
    assert_eq!(rights.encode(), "KQkq");
}

#[test]
fn no_castling_rights_encode_as_a_dash() {
    let rights = CastlingAvailability::parse("-").unwrap();
    assert!(!rights.can_castle(Color::White, Side::KingSide));
    assert!(!rights.can_castle(Color::Black, Side::QueenSide));
    assert_eq!(rights.encode(), "-");
}

#[test]
fn the_start_position_reads_back_through_the_accessors() {
    let board = Board::default();
    assert_eq!(board.next_move(), Color::White);
    assert_eq!(board.halfmove_clock(), 0);
    assert_eq!(board.fullmove_number(), 1);
    assert!(board.en_passant_target_square().is_none());
    let rights = board.castling_availability();
    assert!(rights.can_castle(Color::White, Side::KingSide));
    assert!(rights.can_castle(Color::Black, Side::QueenSide));

    let king = board.piece_at(Tile::new(File::E, Rank::One)).unwrap();
    assert_eq!(king.kind, PieceType::King);
    assert_eq!(king.color, Color::White);
    let queen = board.piece_at(Tile::new(File::D, Rank::Eight)).unwrap();
    assert_eq!(queen.kind, PieceType::Queen);
    assert_eq!(queen.color, Color::Black);
    let pawn = board.piece_at(Tile::new(File::A, Rank::Two)).unwrap();
    assert_eq!(pawn.kind, PieceType::Pawn);
    assert_eq!(pawn.color, Color::White);
    assert!(board.piece_at(Tile::new(File::D, Rank::Four)).is_none());
}

#[test]
fn boards_differing_in_one_cell_are_unequal() {
    let a = Board::parse("8/8/8/8/8/8/8/Q7 w - - 0 1").unwrap();
    let b = Board::parse("8/8/8/8/8/8/8/R7 w - - 0 1").unwrap();
    let a_again = Board::parse("8/8/8/8/8/8/8/Q7 w - - 0 1").unwrap();
    assert!(a != b);
    assert!(a == a_again);
}

#[test]
fn boards_differing_in_a_counter_are_unequal() {
    let a = Board::parse("8/8/8/8/8/8/8/8 w - - 0 1").unwrap();
    let b = Board::parse("8/8/8/8/8/8/8/8 w - - 1 1").unwrap();
    assert!(a != b);
}

#[test]
fn file_and_rank_indices_round_trip() {
    for i in 0..8u8 {
        assert_eq!(File::from_u8(i).as_u8(), i);
        assert_eq!(Rank::from_u8(i).as_u8(), i);
    }
}
