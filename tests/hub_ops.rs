use chess_chat::message::{Delivery, Message, MessageType};
use chess_chat::server::ChatServer;
use chess_chat::session::WsSession;

fn kinds_to(out: &[Delivery], id: usize, k: MessageType) -> Vec<String> {
    out.iter()
        .filter(|d| d.to == id && d.msg.msg_type == k)
        .map(|d| d.msg.content.clone())
        .collect()
}

fn connected(hub: &mut ChatServer, id: usize, name: &str) -> WsSession {
    let s = WsSession::new(id, name);
    s.start(hub);
    s
}

#[test]
fn fresh_hub_rooms() {
    let hub = ChatServer::new();
    assert_eq!(hub.list_rooms(), vec!["main", "mountain", "ocean", "sky", "space"]);
    assert_eq!(hub.visitor_count(), 0);
    assert!(hub.list_users("main").is_empty());
    assert!(hub.list_users("nowhere").is_empty());
}

#[test]
fn broadcast_skips_only_skip_id() {
    let mut hub = ChatServer::new();
    connected(&mut hub, 1, "A");
    connected(&mut hub, 2, "B");
    connected(&mut hub, 3, "C");
    hub.take_outbox();
    hub.broadcast("main", Message::server(MessageType::Info, "x"), 2);
    let out = hub.take_outbox();
    let to: Vec<usize> = out.iter().map(|d| d.to).collect();
    assert_eq!(to, vec![1, 3]);
    hub.broadcast("main", Message::server(MessageType::Info, "y"), 0);
    let out = hub.take_outbox();
    let to: Vec<usize> = out.iter().map(|d| d.to).collect();
    assert_eq!(to, vec![1, 2, 3]);
    hub.broadcast("nowhere", Message::server(MessageType::Info, "z"), 0);
    assert!(hub.take_outbox().is_empty());
}

#[test]
fn send_to_unknown_or_zero_is_silent() {
    let mut hub = ChatServer::new();
    connected(&mut hub, 1, "A");
    hub.take_outbox();
    hub.send_client_msg(0, Message::server(MessageType::Info, "x"));
    hub.send_client_msg(42, Message::server(MessageType::Info, "x"));
    assert!(hub.take_outbox().is_empty());
    hub.send_client_msg(1, Message::server(MessageType::Info, "x"));
    assert_eq!(hub.take_outbox().len(), 1);
}

#[test]
fn join_room_moves_between_rooms() {
    let mut hub = ChatServer::new();
    connected(&mut hub, 1, "A");
    connected(&mut hub, 2, "B");
    connected(&mut hub, 3, "C");
    hub.join_room("ocean", 3, "C");
    hub.take_outbox();
    hub.join_room("ocean", 1, "A");
    let out = hub.take_outbox();
    assert_eq!(hub.list_users("main"), vec!["B"]);
    assert_eq!(hub.list_users("ocean"), vec!["C", "A"]);
    assert_eq!(kinds_to(&out, 2, MessageType::Status), vec!["A left the main room"]);
    assert_eq!(kinds_to(&out, 2, MessageType::UserList), vec!["B"]);
    assert_eq!(kinds_to(&out, 3, MessageType::Status), vec!["A joined ocean room"]);
    assert_eq!(kinds_to(&out, 3, MessageType::UserList), vec!["C,A"]);
    assert_eq!(kinds_to(&out, 1, MessageType::Status), vec!["You joined the ocean room"]);
    assert_eq!(kinds_to(&out, 1, MessageType::UserList), vec!["C,A"]);
    hub.join_room("attic", 2, "B");
    assert_eq!(hub.list_users("attic"), vec!["B"]);
    assert!(hub.list_rooms().contains(&"attic".to_string()));
}

#[test]
fn lobby_is_quiet() {
    let mut hub = ChatServer::new();
    connected(&mut hub, 1, "A");
    connected(&mut hub, 2, "B");
    hub.join_room("lobby", 1, "A");
    hub.take_outbox();
    hub.join_room("lobby", 2, "B");
    let out = hub.take_outbox();
    assert!(kinds_to(&out, 2, MessageType::Status).is_empty());
    assert!(kinds_to(&out, 1, MessageType::Status).is_empty());
    assert_eq!(kinds_to(&out, 1, MessageType::UserList), vec!["A,B"]);
    hub.leave_all_rooms(2, "B");
    let out = hub.take_outbox();
    assert!(kinds_to(&out, 1, MessageType::Status).is_empty());
    assert_eq!(kinds_to(&out, 1, MessageType::UserList), vec!["A"]);
    assert_eq!(hub.list_users("lobby"), vec!["A"]);
}

#[test]
fn visitor_count_follows_connections() {
    let mut hub = ChatServer::new();
    connected(&mut hub, 1, "A");
    connected(&mut hub, 2, "B");
    assert_eq!(hub.visitor_count(), 2);
    hub.disconnect(1);
    assert_eq!(hub.visitor_count(), 1);
    hub.disconnect(1);
    hub.disconnect(77);
    assert_eq!(hub.visitor_count(), 1);
    hub.disconnect(2);
    assert_eq!(hub.visitor_count(), 0);
}

#[test]
fn disconnect_clears_everything() {
    let mut hub = ChatServer::new();
    connected(&mut hub, 1, "A");
    connected(&mut hub, 2, "B");
    hub.new_game(1, "A");
    hub.take_outbox();
    hub.disconnect(1);
    let out = hub.take_outbox();
    assert!(out.iter().all(|d| d.to != 1));
    assert!(!hub.username_taken("A"));
    assert!(hub.username_taken("B"));
    assert!(hub.list_users("in_game").is_empty());
    assert!(hub.all_games().is_empty());
    assert_eq!(hub.sessions(), vec![(2, "B".to_string())]);
}

#[test]
fn one_user_list_per_member() {
    let mut hub = ChatServer::new();
    connected(&mut hub, 1, "A");
    connected(&mut hub, 2, "B");
    hub.take_outbox();
    connected(&mut hub, 3, "C");
    let out = hub.take_outbox();
    for id in [1, 2, 3] {
        assert_eq!(kinds_to(&out, id, MessageType::UserList), vec!["A,B,C"]);
    }
}

#[test]
fn one_game_list_pair_per_watcher() {
    let mut hub = ChatServer::new();
    connected(&mut hub, 1, "A");
    connected(&mut hub, 2, "B");
    connected(&mut hub, 3, "C");
    hub.new_game(1, "A");
    hub.join_room("lobby", 2, "B");
    hub.take_outbox();
    hub.delete_game("A");
    let out = hub.take_outbox();
    for id in [1, 2] {
        assert_eq!(kinds_to(&out, id, MessageType::AvailableGameList), vec![""]);
        assert_eq!(kinds_to(&out, id, MessageType::AllGameList), vec![""]);
    }
    assert!(out.iter().all(|d| d.to != 3));
}

#[test]
fn join_game_needs_open_game() {
    let mut hub = ChatServer::new();
    connected(&mut hub, 1, "A");
    connected(&mut hub, 2, "B");
    connected(&mut hub, 3, "C");
    hub.new_game(1, "A");
    hub.join_game(2, "A", "B");
    hub.take_outbox();
    hub.join_game(3, "A", "C");
    let out = hub.take_outbox();
    assert!(kinds_to(&out, 1, MessageType::Status).is_empty());
    assert_eq!(hub.list_users("lobby"), vec!["B", "C"]);
    assert_eq!(hub.all_games(), vec!["A"]);
    assert!(hub.available_games().is_empty());
    hub.join_game(3, "Nope", "C");
    assert_eq!(hub.all_games(), vec!["A"]);
}

#[test]
fn leave_game_keeps_started_remainder() {
    let mut hub = ChatServer::new();
    connected(&mut hub, 1, "A");
    connected(&mut hub, 2, "B");
    hub.new_game(1, "A");
    hub.join_game(2, "A", "B");
    hub.take_outbox();
    hub.leave_game("A", 2);
    let out = hub.take_outbox();
    assert_eq!(kinds_to(&out, 1, MessageType::Status), vec!["Opponent has left the game"]);
    assert_eq!(hub.all_games(), vec!["A"]);
    assert!(hub.available_games().is_empty());
    hub.send_game_move("A", "e4", 1);
    assert!(hub.take_outbox().is_empty());
    hub.leave_game("A", 1);
    assert!(hub.all_games().is_empty());
    assert!(!hub.game_exists("A"));
}

#[test]
fn leave_all_games_without_game_is_silent() {
    let mut hub = ChatServer::new();
    connected(&mut hub, 1, "A");
    hub.join_room("lobby", 1, "A");
    hub.take_outbox();
    hub.leave_all_games(1);
    assert!(hub.take_outbox().is_empty());
}

#[test]
fn every_session_in_exactly_one_room() {
    let mut hub = ChatServer::new();
    let names = ["A", "B", "C", "D"];
    for (i, n) in names.iter().enumerate() {
        connected(&mut hub, i + 1, n);
    }
    hub.join_room("ocean", 2, "B");
    hub.new_game(3, "C");
    hub.join_game(4, "C", "D");
    hub.join_room("sky", 1, "A");
    hub.join_room("sky", 1, "A");
    let mut rooms = hub.list_rooms();
    rooms.push("lobby".to_string());
    rooms.push("in_game".to_string());
    for n in names {
        let count = rooms
            .iter()
            .filter(|r| hub.list_users(r).contains(&n.to_string()))
            .count();
        assert_eq!(count, 1, "{n}");
    }
}
