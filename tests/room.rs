use chess::enums::Move;
use chess::room::{HistoryError, Room, User};

const START: &str = "rnbqkbnr/pppppppp/8/8/8/8/PPPPPPPP/RNBQKBNR w KQkq - 0 1";
const AFTER_E4: &str = "rnbqkbnr/pppppppp/8/8/4P3/8/PPPP1PPP/RNBQKBNR b KQkq - 0 1";
const AFTER_E5: &str = "rnbqkbnr/pppp1ppp/8/4p3/4P3/8/PPPP1PPP/RNBQKBNR w KQkq - 0 1";

#[test]
fn undo_then_redo_restores_the_position() {
    let mut room = Room::new(None, None, 0).unwrap();
    assert_eq!(room.current_fen, START);
    assert_eq!(room.play("lp", "e2", "e4"), Ok(Move::Normal));
    assert_eq!(room.play("dp", "e7", "e5"), Ok(Move::Normal));
    assert_eq!(room.current_fen, AFTER_E5);
    let before = (room.current_fen.clone(), room.trash.clone());
    let undone = room.undo().unwrap();
    assert_eq!(undone.previous_fen, AFTER_E4);
    assert_eq!(room.current_fen, AFTER_E4);
    let redone = room.redo().unwrap();
    assert_eq!(redone.current_fen, AFTER_E5);
    assert_eq!((room.current_fen.clone(), room.trash.clone()), before);
}

#[test]
fn history_ends_are_reported() {
    let mut room = Room::new(None, None, 0).unwrap();
    assert_eq!(room.undo().err(), Some(HistoryError::NoMoreMoves));
    assert_eq!(room.redo().err(), Some(HistoryError::NoMoreMoves));
    room.play("lp", "e2", "e4").unwrap();
    assert_eq!(room.redo().err(), Some(HistoryError::NoMoreMoves));
    room.undo().unwrap();
    assert_eq!(room.current_fen, START);
    assert_eq!(room.undo().err(), Some(HistoryError::NoMoreMoves));
}

#[test]
fn a_new_move_drops_the_undone_ones() {
    let mut room = Room::new(None, None, 0).unwrap();
    room.play("lp", "e2", "e4").unwrap();
    room.play("dp", "e7", "e5").unwrap();
    room.undo().unwrap();
    room.play("dp", "d7", "d5").unwrap();
    assert_eq!(room.moves.len(), 2);
    assert_eq!(room.current_move_index, Some(1));
    assert_eq!(room.redo().err(), Some(HistoryError::NoMoreMoves));
    assert_eq!(room.moves[1].msg, "/move dp d7 d5");
}

#[test]
fn refused_moves_leave_the_room_alone() {
    let mut room = Room::new(None, Some("q".to_string()), 0).unwrap();
    assert!(room.set_options(true, true).is_ok());
    assert!(room.play("lp", "e2", "e5").is_err());
    assert_eq!(room.moves.len(), 0);
    assert_eq!(room.current_fen, START);
    assert_eq!(room.trash, "q");
    assert_eq!(room.options_string(), "validation sync");
}

#[test]
fn reset_goes_back_to_the_start() {
    let mut room = Room::new(Some(AFTER_E4.to_string()), None, 0).unwrap();
    room.play("dp", "e7", "e5").unwrap();
    assert!(room.reset().is_ok());
    assert_eq!(room.current_fen, AFTER_E4);
    assert_eq!(room.moves.len(), 0);
    assert_eq!(room.current_move_index, None);
}

#[test]
fn bad_rooms_are_refused() {
    assert!(Room::new(Some("nonsense".to_string()), None, 0).is_err());
    assert!(Room::new(None, Some("z".to_string()), 0).is_err());
}

#[test]
fn options_string_names_the_switches() {
    let mut room = Room::new(None, None, 0).unwrap();
    assert_eq!(room.options_string(), "sync");
    room.set_options(true, false).unwrap();
    assert_eq!(room.options_string(), "validation");
    room.set_options(false, false).unwrap();
    assert_eq!(room.options_string(), "");
}

#[test]
fn sessions_are_kept_by_id() {
    let mut room = Room::new(None, None, 0).unwrap();
    room.insert_session("a".to_string(), User::new("a".to_string(), "ann".to_string(), "main".to_string(), None));
    room.insert_session("b".to_string(), User::new("b".to_string(), "bob".to_string(), "main".to_string(), None));
    room.insert_session("a".to_string(), User::new("a".to_string(), "amy".to_string(), "main".to_string(), None));
    assert_eq!(room.usernames(), vec!["a:amy:online".to_string(), "b:bob:online".to_string()]);
    room.disconnect_session("b", 5);
    assert_eq!(room.usernames()[1], "b:bob:away");
    room.connect_session("b");
    assert_eq!(room.usernames()[1], "b:bob:online");
    assert!(room.remove_session("a").is_some());
    assert!(room.remove_session("a").is_none());
    assert_eq!(room.sessions().len(), 1);
}

#[test]
fn push_move_drops_the_redo_tail() {
    let mut room = Room::new(None, None, 0).unwrap();
    room.play("lp", "e2", "e4").unwrap();
    room.play("dp", "e7", "e5").unwrap();
    room.undo().unwrap();
    room.undo().unwrap();
    let first = room.moves[0].copy();
    room.push_move(first);
    assert_eq!(room.moves.len(), 1);
    assert_eq!(room.current_move_index, Some(0));
}
