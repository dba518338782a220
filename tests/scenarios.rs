use chess_chat::message::{Delivery, MessageType};
use chess_chat::server::ChatServer;
use chess_chat::session::WsSession;

fn to_whom(out: &[Delivery], id: usize) -> Vec<(MessageType, String)> {
    out.iter()
        .filter(|d| d.to == id)
        .map(|d| (d.msg.msg_type, d.msg.content.clone()))
        .collect()
}

fn game_record(hub: &ChatServer, name: &str) -> Option<(usize, usize, bool)> {
    hub.list_games()
        .iter()
        .find(|g| g.game_id() == name)
        .map(|g| (g.white_id(), g.black_id(), g.started()))
}

#[test]
fn alice_connects() {
    let mut hub = ChatServer::new();
    let alice = WsSession::new(11, "Alice");
    let direct = alice.start(&mut hub);
    assert_eq!(direct.len(), 2);
    assert_eq!(direct[0].msg_type, MessageType::Status);
    assert!(direct[0].content.starts_with("You connected"));
    assert_eq!(direct[1].msg_type, MessageType::Connect);
    assert_eq!(direct[1].content, "11");
    assert_eq!(direct[1].from_id, 0);
    assert_eq!(direct[1].username, "server");
    let out = hub.take_outbox();
    let got = to_whom(&out, 11);
    assert_eq!(
        got,
        vec![
            (MessageType::Status, "You joined the main room".to_string()),
            (MessageType::UserList, "Alice".to_string()),
        ]
    );
    let rooms = hub.list_rooms();
    assert!(!rooms.contains(&"lobby".to_string()));
    assert!(!rooms.contains(&"in_game".to_string()));
    assert!(rooms.contains(&"main".to_string()));
    assert_eq!(hub.visitor_count(), 1);
}

#[test]
fn bob_joins_and_chats() {
    let mut hub = ChatServer::new();
    let mut alice = WsSession::new(1, "Alice");
    let mut bob = WsSession::new(2, "Bob");
    alice.start(&mut hub);
    hub.take_outbox();
    bob.start(&mut hub);
    let out = hub.take_outbox();
    let got = to_whom(&out, 1);
    assert!(got.contains(&(MessageType::Status, "Bob joined main room".to_string())));
    let lists: Vec<&String> = got
        .iter()
        .filter(|(k, _)| *k == MessageType::UserList)
        .map(|(_, c)| c)
        .collect();
    assert_eq!(lists.len(), 1);
    assert!(lists[0] == "Alice,Bob" || lists[0] == "Bob,Alice");
    let reply = bob.handle_text(&mut hub, "  hello \n");
    assert!(reply.is_none());
    let out = hub.take_outbox();
    assert_eq!(out.len(), 1);
    assert_eq!(out[0].to, 1);
    assert_eq!(out[0].msg.msg_type, MessageType::ClientMessage);
    assert_eq!(out[0].msg.from_id, 2);
    assert_eq!(out[0].msg.username, "Bob");
    assert_eq!(out[0].msg.content, "hello");
    assert!(to_whom(&out, 2).is_empty());
    let _ = alice.handle_text(&mut hub, "/list-users");
}

#[test]
fn alice_creates_game() {
    let mut hub = ChatServer::new();
    let mut alice = WsSession::new(1, "Alice");
    alice.start(&mut hub);
    hub.take_outbox();
    let reply = alice.handle_text(&mut hub, "/new-game").unwrap();
    assert_eq!(reply.msg_type, MessageType::Status);
    assert_eq!(reply.content, "New game with the name Alice created and joined");
    assert_eq!(game_record(&hub, "Alice"), Some((1, 0, false)));
    assert_eq!(alice.room, "in_game");
    assert_eq!(alice.game, "Alice");
    assert!(hub.available_games().contains(&"Alice".to_string()));
    let out = hub.take_outbox();
    let got = to_whom(&out, 1);
    assert!(got.contains(&(MessageType::AvailableGameList, "Alice".to_string())));
    assert!(got.contains(&(MessageType::AllGameList, "Alice".to_string())));
    let again = alice.handle_text(&mut hub, "/new-game").unwrap();
    assert_eq!(again.msg_type, MessageType::Error);
    assert_eq!(again.content, "Game with the name Alice already exists");
}

#[test]
fn bob_joins_game() {
    let mut hub = ChatServer::new();
    let mut alice = WsSession::new(1, "Alice");
    let mut bob = WsSession::new(2, "Bob");
    alice.start(&mut hub);
    bob.start(&mut hub);
    alice.handle_text(&mut hub, "/new-game");
    hub.take_outbox();
    let reply = bob.handle_text(&mut hub, "/join-game Alice").unwrap();
    assert_eq!(reply.content, "New joined Alice chess game");
    assert_eq!(game_record(&hub, "Alice"), Some((1, 2, true)));
    let out = hub.take_outbox();
    assert!(to_whom(&out, 1).contains(&(MessageType::Status, "Opponent joined the game".to_string())));
    assert!(!hub.available_games().contains(&"Alice".to_string()));
    assert_eq!(bob.game, "Alice");
    assert_eq!(bob.room, "is_game");
}

#[test]
fn bob_sends_move() {
    let mut hub = ChatServer::new();
    let mut alice = WsSession::new(1, "Alice");
    let mut bob = WsSession::new(2, "Bob");
    alice.start(&mut hub);
    bob.start(&mut hub);
    alice.handle_text(&mut hub, "/new-game");
    bob.handle_text(&mut hub, "/join-game Alice");
    hub.take_outbox();
    let reply = bob.handle_text(&mut hub, "/game-move e2e4").unwrap();
    assert_eq!(reply.msg_type, MessageType::Status);
    assert_eq!(reply.content, "Game move sent e2e4");
    let out = hub.take_outbox();
    assert_eq!(to_whom(&out, 1), vec![(MessageType::GameMove, "e2e4".to_string())]);
    assert!(to_whom(&out, 2).is_empty());
}

#[test]
fn alice_drops_out() {
    let mut hub = ChatServer::new();
    let mut alice = WsSession::new(1, "Alice");
    let mut bob = WsSession::new(2, "Bob");
    alice.start(&mut hub);
    bob.start(&mut hub);
    alice.handle_text(&mut hub, "/new-game");
    bob.handle_text(&mut hub, "/join-game Alice");
    hub.take_outbox();
    alice.stop(&mut hub);
    let out = hub.take_outbox();
    assert!(to_whom(&out, 2).contains(&(MessageType::Status, "Opponent has left the game".to_string())));
    assert!(to_whom(&out, 1).is_empty());
    assert_eq!(game_record(&hub, "Alice"), Some((0, 2, true)));
    assert_eq!(hub.visitor_count(), 1);
    bob.stop(&mut hub);
    assert_eq!(game_record(&hub, "Alice"), None);
    assert_eq!(hub.visitor_count(), 0);
    assert!(hub.all_games().is_empty());
}
