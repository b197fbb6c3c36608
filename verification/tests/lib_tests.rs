use chess_fen::Board;

#[test]
fn it_works() {
    assert_eq!(0b11111111 ^ 7, 0xf8);
}

#[test]
fn pen_notation_starting_position_gives_the_same_result_as_default_implementation() {
    let pen = "rnbqkbnr/pppppppp/8/8/8/8/PPPPPPPP/RNBQKBNR w KQkq - 0 1";

    let pen_board = Board::parse(pen).unwrap();
    let def_board = Board::default();

    assert!(pen_board == def_board);
}
