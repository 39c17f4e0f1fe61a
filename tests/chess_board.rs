use std::collections::HashSet;

use chess::chess_board::{ChessBoard, ChessBoardBuilder};
use chess::enums::{CastlePosition, ChessBoardError, FenError, Move, MoveError, PromotionKind};
use chess::position::Position;
use chess::stone::Stone;
use chess::turns::Turn;

const START: &str = "rnbqkbnr/pppppppp/8/8/8/8/PPPPPPPP/RNBQKBNR w KQkq - 0 1";

fn board(fen: &str, validation: bool) -> ChessBoard {
    ChessBoardBuilder::new().fen(fen).validation(validation).sync(true).build().unwrap()
}

fn at(name: &str) -> Position {
    Position::from_str(name).unwrap()
}

fn moves_of(b: &ChessBoard, name: &str) -> HashSet<Position> {
    b.possible_moves(&at(name)).into_iter().collect()
}

#[test]
fn test_chess_board() {
    let fen = "rnb1kbnr/ppp1p1pp/8/4Pp2/8/3P1N2/PP1P1PPP/RNBQK2R w KQkq f6 0 1";
    let chess_board = ChessBoardBuilder::new().fen(fen).validation(true).sync(true).build().unwrap();

    assert_eq!(
        HashSet::<Position>::new(),
        chess_board.possible_moves(&Position::new(3, 2)).into_iter().collect::<HashSet<Position>>()
    );
}

#[test]
fn build_then_sync_gives_the_fen_back() {
    let fen = "rnb1kbnr/ppp1p1pp/8/4Pp2/8/3P1N2/PP1P1PPP/RNBQK2R w KQkq f6 0 1";
    let mut b = board(fen, true);
    b.sync_fen();
    assert_eq!(b.fen, fen);
    let mut s = board(START, false);
    s.sync_fen();
    assert_eq!(s.fen, START);
}

#[test]
fn clocks_are_carried_as_written() {
    let fen = "8/8/8/8/8/8/8/4K2k b - - 12 +7";
    let mut b = board(fen, false);
    assert_eq!(b.half_move_clock, 12);
    assert_eq!(b.full_move_clock, 7);
    b.sync_fen();
    assert_eq!(b.fen, fen);
}

#[test]
fn opening_pawn_double_step() {
    let mut b = board(START, true);
    let r = b.move_piece("lp", Some(at("e2")), Some(at("e4")));
    assert_eq!(r, Ok(Move::Normal));
    assert_eq!(b.fen, "rnbqkbnr/pppppppp/8/8/4P3/8/PPPP1PPP/RNBQKBNR b KQkq e3 0 1");
    assert_eq!(b.turn, Turn::Black);
    assert_eq!(b.passant, Some(Position::new(4, 5)));
    assert!(b.stone_at(4, 6).is_none());
    assert_eq!(b.stone_at(4, 4).map(|s| s.char()), Some('P'));
}

#[test]
fn same_square_is_a_no_op() {
    let mut b = board(START, true);
    let r = b.move_piece("lp", Some(at("e2")), Some(at("e2")));
    assert_eq!(r, Ok(Move::Normal));
    assert_eq!(b.fen, START);
    assert_eq!(b.trash_string(), "");
    assert_eq!(b.turn, Turn::White);
}

#[test]
fn a_pinned_rook_keeps_to_its_file() {
    let b = board("4r2k/8/8/8/8/8/4R3/4K3 w - - 0 1", true);
    let expected: HashSet<Position> =
        ["e3", "e4", "e5", "e6", "e7", "e8"].iter().map(|n| at(n)).collect();
    assert_eq!(moves_of(&b, "e2"), expected);
}

#[test]
fn king_may_not_step_into_check() {
    let b = board("4k3/8/8/8/8/8/3r4/4K3 w - - 0 1", true);
    let got = moves_of(&b, "e1");
    let expected: HashSet<Position> = ["d2", "f1"].iter().map(|n| at(n)).collect();
    assert_eq!(got, expected);
}

#[test]
fn capture_goes_to_the_trash() {
    let mut b = board(START, false);
    let r = b.move_piece("lq", Some(at("d1")), Some(at("d7")));
    assert_eq!(r, Ok(Move::Normal));
    assert_eq!(b.deleted_stones.len(), 1);
    assert_eq!(b.trash_string(), "p");
    assert_eq!(b.stone_at(3, 1).map(|s| s.char()), Some('Q'));
}

#[test]
fn en_passant_takes_the_passed_pawn() {
    let mut b = board("4k3/8/8/3pP3/8/8/8/4K3 w - d6 0 1", true);
    let r = b.move_piece("lp", Some(at("e5")), Some(at("d6")));
    assert_eq!(r, Ok(Move::Passant));
    assert!(b.stone_at(3, 3).is_none());
    assert_eq!(b.stone_at(3, 2).map(|s| s.char()), Some('P'));
    assert_eq!(b.trash_string(), "p");
    assert_eq!(b.passant, None);
    assert_eq!(b.fen, "4k3/8/3P4/8/8/8/8/4K3 b - - 0 1");
}

#[test]
fn castling_moves_the_rook() {
    let mut b = board("r3k2r/8/8/8/8/8/8/R3K2R w KQkq - 0 1", true);
    let r = b.move_piece("lk", Some(at("e1")), Some(at("g1")));
    assert_eq!(r, Ok(Move::Castle(CastlePosition::KingSide)));
    assert_eq!(b.fen, "r3k2r/8/8/8/8/8/8/R4RK1 b kq - 0 1");
    let r = b.move_piece("dk", Some(at("e8")), Some(at("c8")));
    assert_eq!(r, Ok(Move::Castle(CastlePosition::QueenSide)));
    assert_eq!(b.fen, "2kr3r/8/8/8/8/8/8/R4RK1 w - - 0 1");
}

#[test]
fn castling_through_a_stone_is_refused() {
    let mut b = board("r3k2r/8/8/8/8/8/8/R3KB1R w KQkq - 0 1", true);
    let r = b.move_piece("lk", Some(at("e1")), Some(at("g1")));
    assert_eq!(r, Err(ChessBoardError::InvalidMove(MoveError::InvalidMove)));
    assert_eq!(b.fen, "r3k2r/8/8/8/8/8/8/R3KB1R w KQkq - 0 1");
}

#[test]
fn a_rook_move_costs_its_side() {
    let mut b = board("r3k2r/8/8/8/8/8/8/R3K2R w KQkq - 0 1", true);
    b.move_piece("lr", Some(at("h1")), Some(at("h2"))).unwrap();
    assert_eq!(b.fen, "r3k2r/8/8/8/8/8/7R/R3K3 b Qkq - 0 1");
}

#[test]
fn a_king_move_costs_its_own_side() {
    let mut b = board("r3k2r/8/8/8/8/8/8/R3K2R b KQkq - 0 1", true);
    b.move_piece("dk", Some(at("e8")), Some(at("d8"))).unwrap();
    assert_eq!(b.fen, "r2k3r/8/8/8/8/8/8/R3K2R w KQ - 0 1");
}

#[test]
fn promotion_gives_a_queen() {
    let mut b = board("8/4P3/8/8/8/8/8/k3K3 w - - 0 1", true);
    let r = b.move_piece("lp", Some(at("e7")), Some(at("e8")));
    assert_eq!(r, Ok(Move::Promotion(PromotionKind::Queen)));
    assert_eq!(b.fen, "4Q3/8/8/8/8/8/8/k3K3 b - - 0 1");
}

#[test]
fn moves_of_the_wrong_side_are_refused() {
    let mut b = board(START, true);
    let r = b.move_piece("dp", Some(at("e7")), Some(at("e5")));
    assert_eq!(r, Err(ChessBoardError::InvalidMove(MoveError::InvalidMove)));
    let r = b.move_piece("xx", Some(at("e2")), Some(at("e4")));
    assert_eq!(r, Err(ChessBoardError::InvalidMove(MoveError::NoStoneFound)));
    let r = b.move_piece("lp", Some(at("e2")), Some(at("e5")));
    assert_eq!(r, Err(ChessBoardError::InvalidMove(MoveError::InvalidMove)));
    let r = b.move_piece("lp", Some(at("e2")), None);
    assert_eq!(r, Err(ChessBoardError::InvalidMove(MoveError::InvalidMove)));
    assert_eq!(b.fen, START);
}

#[test]
fn free_editing_uses_the_trash() {
    let mut b = ChessBoardBuilder::new().fen(START).deleted_stones("qN").validation(false).sync(false).build().unwrap();
    assert_eq!(b.move_piece("lp", Some(at("a2")), None), Ok(Move::Normal));
    assert_eq!(b.trash_string(), "qNP");
    assert_eq!(b.move_piece("ln", None, Some(at("a2"))), Ok(Move::Normal));
    assert_eq!(b.trash_string(), "qP");
    assert_eq!(b.stone_at(0, 6).map(|s| s.char()), Some('N'));
    assert_eq!(b.move_piece("lb", None, Some(at("a3"))), Err(ChessBoardError::InvalidMove(MoveError::NoStoneFound)));
    assert_eq!(b.move_piece("lp", Some(at("a4")), Some(at("a5"))), Err(ChessBoardError::InvalidMove(MoveError::NoStoneFound)));
    assert_eq!(b.fen, START);
    assert_eq!(b.turn, Turn::White);
}

#[test]
fn each_fen_field_has_its_error() {
    let e = |fen: &str| ChessBoardBuilder::new().fen(fen).validation(false).build().err();
    assert_eq!(e("8/8/8/8/8/8/8/8 w - - 0"), Some(ChessBoardError::InvalidFen(FenError::InvalidFormat)));
    assert_eq!(e("9/8/8/8/8/8/8/8 w - - 0 1"), Some(ChessBoardError::InvalidFen(FenError::InvalidStones)));
    assert_eq!(e("8/8/8/8/8/8/8/8/8 w - - 0 1"), Some(ChessBoardError::InvalidFen(FenError::InvalidStones)));
    assert_eq!(e("x7/8/8/8/8/8/8/8 w - - 0 1"), Some(ChessBoardError::InvalidFen(FenError::InvalidStones)));
    assert_eq!(e("8/8/8/8/8/8/8/8 x - - 0 1"), Some(ChessBoardError::InvalidFen(FenError::InvalidTurn)));
    assert_eq!(e("8/8/8/8/8/8/8/8 w KX - 0 1"), Some(ChessBoardError::InvalidFen(FenError::InvalidCastleRules)));
    assert_eq!(e("8/8/8/8/8/8/8/8 w - z9 0 1"), Some(ChessBoardError::InvalidFen(FenError::InvalidPassant)));
    assert_eq!(e("8/8/8/8/8/8/8/8 w - - a 1"), Some(ChessBoardError::InvalidFen(FenError::InvalidHalfMoveClock)));
    assert_eq!(e("8/8/8/8/8/8/8/8 w - - 0 99999999999"), Some(ChessBoardError::InvalidFen(FenError::InvalidFullMoveClock)));
    let bad_trash = ChessBoardBuilder::new().fen(START).deleted_stones("px").build().err();
    assert_eq!(bad_trash, Some(ChessBoardError::InvalidDeletedStones));
    assert_eq!(ChessBoardBuilder::new().build().err(), Some(ChessBoardError::BuildError));
}

#[test]
fn validation_checks_castling_rights() {
    let fen = "rnbqkbnr/pppppppp/8/8/8/8/PPPPPPPP/RNBQKBN1 w KQkq - 0 1";
    let r = ChessBoardBuilder::new().fen(fen).validation(true).build().err();
    assert_eq!(r, Some(ChessBoardError::InvalidFen(FenError::InvalidCastleRules)));
    assert!(ChessBoardBuilder::new().fen(fen).validation(false).build().is_ok());
}

#[test]
fn fools_mate_is_checkmate() {
    let b = board("rnb1kbnr/pppp1ppp/8/4p3/6Pq/5P2/PPPPP2P/RNBQKBNR w KQkq - 1 3", true);
    assert!(b.is_in_check());
    assert!(b.is_checkmate());
    let s = board(START, true);
    assert!(!s.is_in_check());
    assert!(!s.is_checkmate());
}

#[test]
fn threat_map_marks_attacked_squares() {
    let b = board(START, true);
    assert!(b.treat_at(4, 2));
    assert!(b.treat_at(5, 3));
    assert!(b.treat_at(0, 2));
    assert!(!b.treat_at(4, 4));
    let n = ChessBoard::new(START).unwrap();
    assert!(!n.validation);
    assert!(n.sync);
}

#[test]
fn stones_and_positions_in_row_order() {
    let b = board("k7/8/8/8/8/8/8/7K w - - 0 1", false);
    let list = b.stones_and_positions();
    assert_eq!(list.len(), 2);
    assert_eq!(list[0].0, Position::new(0, 0));
    assert_eq!(list[0].1.char(), 'k');
    assert_eq!(list[1].0, Position::new(7, 7));
    assert_eq!(b.cloned_stones_and_positions().len(), 2);
}

#[test]
fn trash_from_text_skips_other_characters() {
    let mut b = board(START, false);
    b.set_trash_from_str("p?Q");
    assert_eq!(b.trash_string(), "pQ");
    assert_eq!(b.cloned_deleted_stones().len(), 2);
}

#[test]
fn view_settings() {
    let mut b = board(START, false);
    assert_eq!(b.css_class(), "chessboard");
    b.flip();
    assert_eq!(b.css_class(), "chessboard flipped");
    assert!(!b.white_view());
    b.toggle_validation();
    assert!(b.validation);
    assert!(b.valid_castle_rules());
    assert!(b.stone_at_is(4, 7, chess::stone::Kind::King));
    assert!(!b.stone_at_is(4, 7, chess::stone::Kind::Queen));
}

#[test]
fn stone_letters_and_tags() {
    let s = Stone::try_from('n').unwrap();
    assert_eq!(s.as_str(), "dn");
    assert_eq!(s.image_class(), "dn");
    assert_eq!(s.char(), 'n');
    let t = Stone::from_str("lq").unwrap();
    assert_eq!(t.char(), 'Q');
    assert!(Stone::try_from('x').is_err());
    assert!(Stone::from_str("lx").is_err());
    assert_eq!(chess::stone::Color::Dark.to_string(), "dark");
}

#[test]
fn the_mover_s_own_king_is_guarded_off_turn() {
    let b = board("4k3/4r3/8/8/8/8/8/4R2K w - - 0 1", true);
    let expected: HashSet<Position> =
        ["e6", "e5", "e4", "e3", "e2", "e1"].iter().map(|n| at(n)).collect();
    assert_eq!(moves_of(&b, "e7"), expected);
}
