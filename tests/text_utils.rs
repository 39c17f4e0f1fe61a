use chess::class_list::ClassList;
use chess::events::EventError;
use chess::style::Style;

#[test]
fn class_lists_add_once_and_remove_all() {
    let mut c = ClassList::new("piece dragging");
    c.add("selected");
    assert_eq!(c.class_name, "piece dragging selected");
    c.add("piece");
    assert_eq!(c.class_name, "piece dragging selected");
    c.remove("dragging");
    assert_eq!(c.class_name, "piece selected");
    c.remove("absent");
    assert_eq!(c.class_name, "piece selected");
}

#[test]
fn styles_keep_one_value_per_key() {
    let mut s = Style::new("left:10px;top:5px;left:12px;");
    assert_eq!(s.to_string(), "left:12px;top:5px;");
    s.set("z-index", "3");
    assert_eq!(s.to_string(), "left:12px;top:5px;z-index:3;");
    s.remove("top");
    assert_eq!(s.to_string(), "left:12px;z-index:3;");
    assert_eq!(Style::new("").to_string(), "");
}

#[test]
fn event_errors_keep_their_message() {
    assert_eq!(EventError::new("No piece being dragged found").message, "No piece being dragged found");
}
