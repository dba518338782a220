use chess_chat::message::MessageType;
use chess_chat::server::ChatServer;
use chess_chat::session::{SessionProfile, WsSession};

fn setup(name: &str) -> (ChatServer, WsSession) {
    let mut hub = ChatServer::new();
    let s = WsSession::new(1, name);
    s.start(&mut hub);
    hub.take_outbox();
    (hub, s)
}

#[test]
fn unknown_command() {
    let (mut hub, mut s) = setup("Alice");
    let r = s.handle_text(&mut hub, "/dance now").unwrap();
    assert_eq!(r.msg_type, MessageType::Error);
    assert_eq!(r.content, "Unknown command: \"/dance now\"");
    assert_eq!(r.from_id, 0);
    assert_eq!(r.username, "server");
}

#[test]
fn missing_arguments() {
    let (mut hub, mut s) = setup("Alice");
    let cases = [
        ("/join-room", "Room name is required"),
        ("/join-game", "Game name is required"),
        ("/game-move", "Move string is required"),
        ("/delete-game", "Game name is required"),
    ];
    for (line, text) in cases {
        let r = s.handle_text(&mut hub, line).unwrap();
        assert_eq!(r.msg_type, MessageType::Error);
        assert_eq!(r.content, text);
    }
    assert!(hub.take_outbox().is_empty());
}

#[test]
fn join_room_command() {
    let (mut hub, mut s) = setup("Alice");
    let r = s.handle_text(&mut hub, "/join-room ocean");
    assert!(r.is_none());
    assert_eq!(s.room, "ocean");
    assert_eq!(s.game, "none");
    assert_eq!(hub.list_users("ocean"), vec!["Alice"]);
    let r = s.handle_text(&mut hub, "/list-users").unwrap();
    assert_eq!((r.msg_type, r.content.as_str()), (MessageType::UserList, "Alice"));
    let r = s.handle_text(&mut hub, "/list-rooms").unwrap();
    assert_eq!((r.msg_type, r.content.as_str()), (MessageType::RoomList, "main,mountain,ocean,sky,space"));
}

#[test]
fn self_info_json() {
    let (mut hub, mut s) = setup("Al\"ice");
    let r = s.handle_text(&mut hub, "/self-info").unwrap();
    assert_eq!(r.msg_type, MessageType::SelfInfo);
    assert_eq!(r.content, "{\"username\":\"Al\\\"ice\",\"room\":\"main\",\"game\":\"none\",\"id\":1}");
}

#[test]
fn leave_game_command() {
    let (mut hub, mut s) = setup("Alice");
    s.handle_text(&mut hub, "/new-game");
    let r = s.handle_text(&mut hub, "/leave-game").unwrap();
    assert_eq!(r.content, "You left none chess game and joined the main room");
    assert_eq!(s.room, "main");
    assert_eq!(s.game, "none");
    assert!(hub.all_games().is_empty());
    assert_eq!(hub.list_users("main"), vec!["Alice"]);
}

#[test]
fn game_lists_and_delete_command() {
    let mut hub = ChatServer::new();
    let mut a = WsSession::new(1, "Alice");
    let mut b = WsSession::new(2, "Bob");
    a.start(&mut hub);
    b.start(&mut hub);
    a.handle_text(&mut hub, "/new-game");
    b.handle_text(&mut hub, "/new-game");
    let r = a.handle_text(&mut hub, "/list-available-games").unwrap();
    assert_eq!((r.msg_type, r.content.as_str()), (MessageType::AvailableGameList, "Alice,Bob"));
    let r = a.handle_text(&mut hub, "/list-all-games").unwrap();
    assert_eq!((r.msg_type, r.content.as_str()), (MessageType::AllGameList, "Alice,Bob"));
    let r = a.handle_text(&mut hub, "/delete-game Bob").unwrap();
    assert_eq!(r.content, "Alice chess game deleted");
    assert_eq!(hub.all_games(), vec!["Alice"]);
}

#[test]
fn chat_text_is_trimmed_and_not_echoed() {
    let (mut hub, mut s) = setup("Alice");
    let other = WsSession::new(2, "Bob");
    other.start(&mut hub);
    hub.take_outbox();
    assert!(s.handle_text(&mut hub, "\t hi there  ").is_none());
    let out = hub.take_outbox();
    assert_eq!(out.len(), 1);
    assert_eq!(out[0].to, 2);
    assert_eq!(out[0].msg.content, "hi there");
    let r = s.handle_text(&mut hub, "   /list-users  ").unwrap();
    assert_eq!(r.content, "Alice,Bob");
}

#[test]
fn heartbeat_timeout() {
    let (mut hub, s) = setup("Alice");
    assert!(!s.check_heartbeat(&mut hub, 10000));
    assert!(hub.username_taken("Alice"));
    assert!(s.check_heartbeat(&mut hub, 10001));
    assert!(!hub.username_taken("Alice"));
    assert_eq!(hub.visitor_count(), 0);
}

#[test]
fn profile_record() {
    let p = SessionProfile {
        username: "Bo\\b".to_string(),
        room: "sky".to_string(),
        game: "none".to_string(),
        id: 907,
    };
    assert_eq!(p.to_json(), "{\"username\":\"Bo\\\\b\",\"room\":\"sky\",\"game\":\"none\",\"id\":907}");
    let s = WsSession::new(5, "Eve");
    let q = s.profile();
    assert_eq!((q.username.as_str(), q.room.as_str(), q.game.as_str(), q.id), ("Eve", "main", "none", 5));
}
