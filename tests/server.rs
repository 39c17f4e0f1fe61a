use chess::server::{ChessServer, Outbound};

fn texts(out: &[Outbound]) -> Vec<String> {
    out.iter()
        .map(|o| match o {
            Outbound::Broadcast { text, .. } => text.clone(),
            Outbound::Direct { text, .. } => text.clone(),
        })
        .collect()
}

#[test]
fn a_new_user_joins_the_main_room() {
    let mut server = ChessServer::new(0);
    let out = server.connect("u1", "alice", 1);
    let t = texts(&out);
    assert_eq!(t[0], "/add_user u1:alice:online");
    assert_eq!(t[1], "/sync_board main|rnbqkbnr/pppppppp/8/8/8/8/PPPPPPPP/RNBQKBNR w KQkq - 0 1|");
    assert_eq!(t[2], "/sync_users main|u1:alice:online");
    assert_eq!(t[3], "/sync_options sync");
    assert_eq!(server.recipients("main", None), vec!["u1".to_string()]);
    assert!(server.recipients("main", Some("u1")).is_empty());
}

#[test]
fn moves_are_announced_and_refusals_resynced() {
    let mut server = ChessServer::new(0);
    server.connect("u1", "alice", 1);
    server.connect("u2", "bob", 1);
    let out = server.play_move("u1", "lp", "e2", "e4");
    assert_eq!(texts(&out), vec!["/move lp e2 e4".to_string()]);
    match &out[0] {
        Outbound::Broadcast { skip, .. } => assert_eq!(skip.as_deref(), Some("u1")),
        _ => panic!("a move is broadcast"),
    }
    server.options("u1", true, true);
    let out = server.play_move("u2", "lp", "d2", "d5");
    assert_eq!(
        texts(&out),
        vec!["/sync_board main|rnbqkbnr/pppppppp/8/8/4P3/8/PPPP1PPP/RNBQKBNR b KQkq - 0 1|".to_string()]
    );
}

#[test]
fn castling_is_followed_by_the_rook() {
    let mut server = ChessServer::new(0);
    server.connect("u1", "alice", 1);
    server.join("u1", "c", Some("r3k2r/8/8/8/8/8/8/R3K2R w KQkq - 0 1".to_string()), None, 1);
    server.options("u1", true, true);
    let out = server.play_move("u1", "lk", "e1", "g1");
    assert_eq!(texts(&out), vec!["/move lk e1 g1".to_string(), "/move lr h1 f1".to_string()]);
}

#[test]
fn checkmate_is_announced() {
    let mut server = ChessServer::new(0);
    server.connect("u1", "alice", 1);
    server.join("u1", "m", Some("rnbqkbnr/pppp1ppp/8/4p3/6P1/5P2/PPPPP2P/RNBQKBNR b KQkq - 0 2".to_string()), None, 1);
    server.options("u1", true, true);
    let out = server.play_move("u1", "dq", "d8", "h4");
    assert_eq!(texts(&out), vec!["/move dq d8 h4".to_string(), "/checkmate".to_string()]);
}

#[test]
fn idle_rooms_and_users_are_swept() {
    let mut server = ChessServer::new(0);
    server.connect("u1", "alice", 1);
    server.connect("u2", "bob", 1);
    server.join("u2", "side", None, None, 2);
    let out = server.disconnect("u1", 10);
    assert_eq!(texts(&out), vec!["/disconnect_user u1:alice:away".to_string()]);
    let out = server.sweep(100, 300, 300);
    assert!(out.is_empty());
    let out = server.sweep(310, 300, 300);
    assert_eq!(texts(&out), vec!["/remove_user u1:alice:away".to_string()]);
    assert!(server.recipients("main", None).is_empty());
    assert_eq!(server.rooms[0].room.empty_at, Some(310));
    assert_eq!(server.sessions.len(), 1);
    assert_eq!(server.rooms.len(), 2);
    let out = server.sweep(320, 300, 300);
    assert!(out.is_empty());
    server.sweep(610, 300, 300);
    assert_eq!(server.rooms.len(), 1);
    assert_eq!(server.rooms[0].name, "side");
}

#[test]
fn joining_leaves_the_old_room() {
    let mut server = ChessServer::new(0);
    server.connect("u1", "alice", 1);
    server.connect("u2", "bob", 1);
    let out = server.join("u1", "other", None, None, 5);
    let t = texts(&out);
    assert_eq!(t[0], "/remove_user u1:alice:online");
    assert_eq!(t[4], "/notify success Joined room other");
    assert_eq!(t[5], "/add_user u1:alice:online");
    assert_eq!(server.recipients("main", None), vec!["u2".to_string()]);
    assert_eq!(server.recipients("other", None), vec!["u1".to_string()]);
    let out = server.join("u1", "bad", Some("nonsense".to_string()), None, 6);
    assert_eq!(texts(&out), vec!["/notify error Failed to create room".to_string()]);
    let out = server.join("u1", "main", Some("nonsense".to_string()), None, 7);
    assert_eq!(texts(&out)[0], "/sync_board main|rnbqkbnr/pppppppp/8/8/8/8/PPPPPPPP/RNBQKBNR w KQkq - 0 1|");
    assert_eq!(server.recipients("main", None), vec!["u2".to_string(), "u1".to_string()]);
}

#[test]
fn undo_redo_and_reset_resync_the_room() {
    let mut server = ChessServer::new(0);
    server.connect("u1", "alice", 1);
    let out = server.undo("u1");
    assert_eq!(texts(&out)[0], "/notify warning No more moves to undo");
    server.play_move("u1", "lp", "e2", "e4");
    let out = server.undo("u1");
    assert_eq!(texts(&out), vec!["/sync_board main|rnbqkbnr/pppppppp/8/8/8/8/PPPPPPPP/RNBQKBNR w KQkq - 0 1|".to_string()]);
    let out = server.redo("u1");
    assert_eq!(texts(&out), vec!["/sync_board main|rnbqkbnr/pppppppp/8/8/4P3/8/PPPP1PPP/RNBQKBNR b KQkq - 0 1|".to_string()]);
    let out = server.reset("u1");
    assert_eq!(texts(&out), vec!["/sync_board main|rnbqkbnr/pppppppp/8/8/8/8/PPPPPPPP/RNBQKBNR w KQkq - 0 1|".to_string()]);
}

#[test]
fn renames_chat_and_reconnects() {
    let mut server = ChessServer::new(0);
    server.connect("u1", "alice", 1);
    let out = server.user_sync("u1", "ally");
    assert_eq!(texts(&out), vec!["/add_user u1:ally:online".to_string()]);
    let out = server.client_message("u1", "ally: hi");
    assert_eq!(texts(&out), vec!["ally: hi".to_string()]);
    server.disconnect("u1", 3);
    let out = server.connect("u1", "ally", 4);
    assert_eq!(texts(&out)[0], "/connect_user u1:ally:online");
    assert_eq!(server.sessions.len(), 1);
    let out = server.options("u1", true, false);
    assert_eq!(texts(&out), vec!["/notify success Options applied".to_string(), "/sync_options validation".to_string()]);
}
