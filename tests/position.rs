use chess::notification::{Notification, NotifyType};
use chess::position::Position;
use chess::stone::Stone as BoardStone;
use chess::stone_signal::StoneSignal;
use chess::web_stone::Stone;

#[test]
fn squares_have_algebraic_names() {
    assert_eq!(Position::new(4, 4).to_string(), "e4");
    assert_eq!(Position::new(0, 0).to_string(), "a8");
    assert_eq!(Position::new(7, 7).to_string(), "h1");
    assert_eq!(Position::new(2, 5).css_class(), "square-c3");
    assert_eq!(Position::from_str("e3"), Ok(Position::new(4, 5)));
    assert_eq!(Position::from_str("i1"), Err(()));
    assert_eq!(Position::from_str("deleted"), Err(()));
    assert_eq!(Position::new(3, 6).x(), 3);
    assert_eq!(Position::new(3, 6).y(), 6);
}

#[test]
fn web_stones_describe_letters() {
    let s = Stone::from_char('N').unwrap();
    assert_eq!((s.c.as_str(), s.color.as_str(), s.name.as_str(), s.image_class.as_str()), ("N", "White", "Knight", "ln"));
    let d = Stone::from_char('k').unwrap();
    assert_eq!((d.color.as_str(), d.name.as_str(), d.image_class.as_str()), ("Black", "King", "dk"));
    assert!(Stone::from_char('x').is_none());
}

#[test]
fn notifications_toggle() {
    let mut n = Notification::new("hi".to_string(), NotifyType::Warning);
    assert!(!n.is_active);
    n.enable();
    assert!(n.is_active);
    n.disable();
    assert!(!n.is_active);
    assert_eq!(n.notify_type, NotifyType::Warning);
}

#[test]
fn stone_signals_track_display_state() {
    let knight = BoardStone::try_from('N').unwrap();
    let mut s = StoneSignal::new(Some(Position::new(6, 7)), knight);
    assert_eq!(s.unique_key(), "g1_N");
    s.enable_dragging();
    assert!(s.is_dragging());
    s.disable_dragging();
    assert!(!s.is_dragging());
    s.delete();
    assert!(s.is_deleted());
    s.restore();
    assert!(!s.is_deleted());
    s.set_position(None);
    assert_eq!(s.position(), None);
    assert_eq!(s.unique_key(), "deleted_N");
    let d = StoneSignal::new_deleted(knight);
    assert!(d.is_deleted());
    assert_eq!(d.stone().char(), 'N');
}
