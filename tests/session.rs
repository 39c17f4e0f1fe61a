use chess::session::{parse_command, Command};

#[test]
fn commands_are_read() {
    match parse_command("/move lp e2 e4", "bob") {
        Command::Move { piece, from, to } => assert_eq!((piece.as_str(), from.as_str(), to.as_str()), ("lp", "e2", "e4")),
        other => panic!("unexpected {:?}", other),
    }
    match parse_command("  /join room1 8/8/8/8/8/8/8/8 w - - 0 1|pq  ", "bob") {
        Command::Join { room, fen, trash } => {
            assert_eq!(room, "room1");
            assert_eq!(fen.as_deref(), Some("8/8/8/8/8/8/8/8 w - - 0 1"));
            assert_eq!(trash.as_deref(), Some("pq"));
        }
        other => panic!("unexpected {:?}", other),
    }
    match parse_command("/join lobby", "bob") {
        Command::Join { room, fen, trash } => {
            assert_eq!(room, "lobby");
            assert!(fen.is_none() && trash.is_none());
        }
        other => panic!("unexpected {:?}", other),
    }
    assert!(matches!(parse_command("/reset", "bob"), Command::Reset));
    assert!(matches!(parse_command("/undo", "bob"), Command::Undo));
    assert!(matches!(parse_command("/redo", "bob"), Command::Redo));
}

#[test]
fn other_lines_are_chat_or_replies() {
    match parse_command("  hello there ", "bob") {
        Command::Chat { text } => assert_eq!(text, "bob: hello there"),
        other => panic!("unexpected {:?}", other),
    }
    match parse_command("/move lp e2", "bob") {
        Command::Reply { text } => assert_eq!(text, "!!! move is required"),
        other => panic!("unexpected {:?}", other),
    }
    match parse_command("/username", "bob") {
        Command::Reply { text } => assert_eq!(text, "!!! name is required"),
        other => panic!("unexpected {:?}", other),
    }
    match parse_command("/username carol", "bob") {
        Command::Username { name } => assert_eq!(name, "carol"),
        other => panic!("unexpected {:?}", other),
    }
    match parse_command("/dance", "bob") {
        Command::Reply { text } => assert_eq!(text, "!!! unknown command: \"/dance\""),
        other => panic!("unexpected {:?}", other),
    }
}
