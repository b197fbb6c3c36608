use chess_fen::Board;
use chess_fen::FenError;

const START: &str = "rnbqkbnr/pppppppp/8/8/8/8/PPPPPPPP/RNBQKBNR w KQkq - 0 1";

fn parse_err(s: &str) -> FenError {
    Board::parse(s).err().unwrap()
}

#[test]
fn start_position_encodes_to_the_canonical_fen() {
    let board = Board::default();
    assert_eq!(board.to_fen(), START);
}

#[test]
fn parse_then_encode_round_trips_the_start_position() {
    let board = Board::parse(START).unwrap();
    let again = Board::parse(&board.to_fen()).unwrap();
    assert!(board == again);
}

#[test]
fn parse_then_encode_round_trips_a_middlegame_position() {
    let fen = "r1bqk2r/pppp1ppp/2n2n2/2b1p3/2B1P3/5N2/PPPP1PPP/RNBQ1RK1 b kq - 5 4";
    let board = Board::parse(fen).unwrap();
    assert_eq!(board.to_fen(), fen);
    let again = Board::parse(&board.to_fen()).unwrap();
    assert!(board == again);
}

#[test]
fn parse_then_encode_round_trips_an_en_passant_position() {
    let fen = "rnbqkbnr/ppp1pppp/8/8/3pP3/8/PPPP1PPP/RNBQKBNR b KQkq e3 0 3";
    let board = Board::parse(fen).unwrap();
    assert_eq!(board.to_fen(), fen);
    let again = Board::parse(&board.to_fen()).unwrap();
    assert!(board == again);
}

#[test]
fn five_fields_fail_with_wrong_field_count() {
    assert_eq!(
        parse_err("rnbqkbnr/pppppppp/8/8/8/8/PPPPPPPP/RNBQKBNR w KQkq - 0"),
        FenError::WrongFieldCount
    );
}

#[test]
fn seven_fields_fail_with_wrong_field_count() {
    assert_eq!(
        parse_err("rnbqkbnr/pppppppp/8/8/8/8/PPPPPPPP/RNBQKBNR w KQkq - 0 1 extra"),
        FenError::WrongFieldCount
    );
}

#[test]
fn empty_input_fails_with_wrong_field_count() {
    assert_eq!(parse_err(""), FenError::WrongFieldCount);
}

#[test]
fn a_doubled_space_changes_the_field_count() {
    assert_eq!(
        parse_err("rnbqkbnr/pppppppp/8/8/8/8/PPPPPPPP/RNBQKBNR w  KQkq - 0 1"),
        FenError::WrongFieldCount
    );
}

#[test]
fn seven_rank_groups_fail_with_wrong_rank_count() {
    assert_eq!(
        parse_err("8/8/8/8/8/8/8 w KQkq - 0 1"),
        FenError::WrongRankCount
    );
}

#[test]
fn nine_rank_groups_fail_with_wrong_rank_count() {
    assert_eq!(
        parse_err("8/8/8/8/8/8/8/8/8 w KQkq - 0 1"),
        FenError::WrongRankCount
    );
}

#[test]
fn a_rank_described_too_long_fails_with_rank_overflow() {
    assert_eq!(
        parse_err("44p/8/8/8/8/8/8/8 w KQkq - 0 1"),
        FenError::RankOverflow
    );
    assert_eq!(
        parse_err("ppppppppp/8/8/8/8/8/8/8 w KQkq - 0 1"),
        FenError::RankOverflow
    );
}

#[test]
fn a_nine_in_a_rank_is_an_invalid_piece_letter() {
    assert_eq!(
        parse_err("9/8/8/8/8/8/8/8 w KQkq - 0 1"),
        FenError::InvalidPieceLetter
    );
}

#[test]
fn an_unknown_letter_in_a_rank_is_an_invalid_piece_letter() {
    assert_eq!(
        parse_err("rnbqkbnr/pppxpppp/8/8/8/8/PPPPPPPP/RNBQKBNR w KQkq - 0 1"),
        FenError::InvalidPieceLetter
    );
}

#[test]
fn run_lengths_eight_and_four_four_describe_the_same_empty_rank() {
    let split_once = Board::parse("44/8/8/8/8/8/8/8 w - - 0 1").unwrap();
    let whole = Board::parse("8/8/8/8/8/8/8/8 w - - 0 1").unwrap();
    assert!(split_once == whole);
    assert_eq!(split_once.to_fen(), "8/8/8/8/8/8/8/8 w - - 0 1");
}

#[test]
fn an_underfull_rank_group_leaves_the_remaining_cells_empty() {
    let short = Board::parse("p/8/8/8/8/8/8/8 w - - 0 1").unwrap();
    let long = Board::parse("p7/8/8/8/8/8/8/8 w - - 0 1").unwrap();
    assert!(short == long);
    assert_eq!(short.to_fen(), "p7/8/8/8/8/8/8/8 w - - 0 1");
}

#[test]
fn side_to_move_accepts_only_w_and_b() {
    assert!(Board::parse("8/8/8/8/8/8/8/8 w - - 0 1").is_ok());
    assert!(Board::parse("8/8/8/8/8/8/8/8 b - - 0 1").is_ok());
    assert_eq!(
        parse_err("8/8/8/8/8/8/8/8 x - - 0 1"),
        FenError::InvalidSideToMove
    );
    assert_eq!(
        parse_err("8/8/8/8/8/8/8/8 ww - - 0 1"),
        FenError::InvalidSideToMove
    );
}

#[test]
fn every_castling_subset_parses_and_round_trips() {
    let subsets = [
        "-", "K", "Q", "k", "q", "KQ", "Kk", "Kq", "Qk", "Qq", "kq", "KQk", "KQq", "Kkq", "Qkq",
        "KQkq",
    ];
    for subset in subsets.iter() {
        let fen = format!("8/8/8/8/8/8/8/8 w {} - 0 1", subset);
        let board = Board::parse(&fen).unwrap();
        assert_eq!(board.to_fen(), fen);
        let again = Board::parse(&board.to_fen()).unwrap();
        assert!(board == again);
    }
}

#[test]
fn castling_letters_come_back_in_canonical_order() {
    let board = Board::parse("8/8/8/8/8/8/8/8 w qK - 0 1").unwrap();
    assert_eq!(board.to_fen(), "8/8/8/8/8/8/8/8 w Kq - 0 1");
}

#[test]
fn an_unknown_castling_letter_is_rejected() {
    assert_eq!(
        parse_err("8/8/8/8/8/8/8/8 w KQkqX - 0 1"),
        FenError::InvalidCastlingRights
    );
}

#[test]
fn a_duplicate_castling_letter_is_rejected() {
    assert_eq!(
        parse_err("8/8/8/8/8/8/8/8 w KK - 0 1"),
        FenError::InvalidCastlingRights
    );
}

#[test]
fn an_equals_sign_is_not_a_castling_field() {
    assert_eq!(
        parse_err("8/8/8/8/8/8/8/8 w = - 0 1"),
        FenError::InvalidCastlingRights
    );
}

#[test]
fn an_en_passant_square_parses_to_its_coordinate() {
    let board = Board::parse("8/8/8/8/8/8/8/8 w - e3 0 1").unwrap();
    let target = board.en_passant_target_square().unwrap();
    assert_eq!(target.file_u8(), 4);
    assert_eq!(target.rank_u8(), 2);
}

#[test]
fn an_en_passant_rank_out_of_range_is_rejected() {
    assert_eq!(
        parse_err("8/8/8/8/8/8/8/8 w - e9 0 1"),
        FenError::InvalidEnPassantSquare
    );
}

#[test]
fn an_en_passant_file_out_of_range_is_rejected() {
    assert_eq!(
        parse_err("8/8/8/8/8/8/8/8 w - z3 0 1"),
        FenError::InvalidEnPassantSquare
    );
}

#[test]
fn halfmove_clock_must_be_a_number() {
    assert_eq!(
        parse_err("8/8/8/8/8/8/8/8 w - - x 1"),
        FenError::InvalidHalfmoveClock
    );
    assert_eq!(
        parse_err("8/8/8/8/8/8/8/8 w - - -1 1"),
        FenError::InvalidHalfmoveClock
    );
}

#[test]
fn halfmove_clock_must_fit_in_64_bits() {
    assert!(Board::parse("8/8/8/8/8/8/8/8 w - - 18446744073709551615 1").is_ok());
    assert_eq!(
        parse_err("8/8/8/8/8/8/8/8 w - - 18446744073709551616 1"),
        FenError::InvalidHalfmoveClock
    );
}

#[test]
fn fullmove_number_must_be_a_positive_number() {
    assert_eq!(
        parse_err("8/8/8/8/8/8/8/8 w - - 0 0"),
        FenError::InvalidFullmoveNumber
    );
    assert_eq!(
        parse_err("8/8/8/8/8/8/8/8 w - - 0 x"),
        FenError::InvalidFullmoveNumber
    );
}

#[test]
fn leading_zeros_are_read_and_re_encoded_canonically() {
    let board = Board::parse("8/8/8/8/8/8/8/8 w - - 007 042").unwrap();
    assert_eq!(board.halfmove_clock(), 7);
    assert_eq!(board.fullmove_number(), 42);
    assert_eq!(board.to_fen(), "8/8/8/8/8/8/8/8 w - - 7 42");
}

#[test]
fn decoding_stops_at_the_first_failing_field() {
    // Both the placement and the castling field are bad; the placement
    // decides.
    assert_eq!(
        parse_err("x7/8/8/8/8/8/8/8 w XX - 0 1"),
        FenError::InvalidPieceLetter
    );
}

#[test]
fn render_draws_the_start_position_rank_eight_first() {
    let board = Board::default();
    let expected = "rnbqkbnr\npppppppp\n********\n********\n********\n********\nPPPPPPPP\nRNBQKBNR\n";
    assert_eq!(board.render(), expected);
}
