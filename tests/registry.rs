use chess_chat::game::{GameManager, SessionGame};
use chess_chat::message::join_list;
use chess_chat::models::user::UserInfo;
use chess_chat::text::{decimal, is_command, split_command_line};

#[test]
fn game_seats_and_start() {
    let mut g = SessionGame::new("Alice".to_string(), 1);
    assert_eq!(g.white_id(), 1);
    assert_eq!(g.black_id(), 0);
    assert_eq!(g.num_players(), 1);
    assert!(g.is_joinable());
    assert!(!g.started());
    g.join_game(2);
    assert!(g.started());
    assert!(!g.is_joinable());
    assert_eq!(g.num_players(), 2);
    assert_eq!(g.opponent_id(1), 2);
    assert_eq!(g.opponent_id(2), 1);
    assert_eq!(g.opponent_id(3), 0);
    g.leave_game(2);
    assert_eq!(g.black_id(), 0);
    assert_eq!(g.num_players(), 1);
    assert!(g.started());
    assert_eq!(g.opponent_id(1), 0);
    g.leave_game(1);
    assert_eq!(g.num_players(), 0);
    assert_eq!(g.game_id(), "Alice");
}

#[test]
fn manager_join_only_open_games() {
    let mut m = GameManager::new();
    m.new_game("Alice", 1);
    m.join_game("Alice", 2);
    m.join_game("Alice", 3);
    let g = m.get_game("Alice").unwrap();
    assert_eq!((g.white_id(), g.black_id(), g.started()), (1, 2, true));
    m.join_game("Nobody", 4);
    assert!(m.get_game("Nobody").is_none());
    assert_eq!(m.opponent_id("Alice", 2), 1);
    assert_eq!(m.opponent_id("Nobody", 2), 0);
}

#[test]
fn manager_removes_empty_game() {
    let mut m = GameManager::new();
    m.new_game("Alice", 1);
    m.join_game("Alice", 2);
    m.leave_game("Alice", 1);
    assert!(m.get_game("Alice").is_some());
    m.leave_game("Alice", 2);
    assert!(m.get_game("Alice").is_none());
    assert!(m.all_games().is_empty());
}

#[test]
fn manager_lists_and_deletes() {
    let mut m = GameManager::new();
    m.new_game("Alice", 1);
    m.new_game("Bob", 2);
    m.new_game("Carol", 3);
    m.join_game("Bob", 4);
    assert_eq!(m.all_games(), vec!["Alice", "Bob", "Carol"]);
    assert_eq!(m.available_games(), vec!["Alice", "Carol"]);
    m.delete_game("Alice");
    assert_eq!(m.all_games(), vec!["Bob", "Carol"]);
    m.new_game("Bob", 9);
    let g = m.get_game("Bob").unwrap();
    assert_eq!((g.white_id(), g.black_id(), g.started()), (9, 0, false));
    assert_eq!(m.get_games().len(), 2);
}

#[test]
fn lists_are_comma_joined() {
    assert_eq!(join_list(&vec![]), "");
    assert_eq!(join_list(&vec!["a".to_string()]), "a");
    assert_eq!(join_list(&vec!["a".to_string(), "b,c".to_string(), "d".to_string()]), "a,b,c,d");
}

#[test]
fn decimal_text_of_ids() {
    assert_eq!(decimal(0), "0");
    assert_eq!(decimal(7), "7");
    assert_eq!(decimal(1234), "1234");
    assert_eq!(decimal(usize::MAX), usize::MAX.to_string());
}

#[test]
fn command_lines_split_at_first_space() {
    assert_eq!(split_command_line("/join-room ocean"), ("/join-room", Some("ocean")));
    assert_eq!(split_command_line("/list-rooms"), ("/list-rooms", None));
    assert_eq!(split_command_line("/game-move  e2 e4"), ("/game-move", Some(" e2 e4")));
    assert_eq!(split_command_line(""), ("", None));
    assert!(is_command("/x"));
    assert!(!is_command("x/"));
    assert!(!is_command(""));
}

#[test]
fn user_info_names() {
    assert_eq!(UserInfo::new("Zoe").nickname, "Zoe");
    let u = UserInfo::default();
    assert_eq!(u.nickname.len(), 20);
    assert!(u.nickname.starts_with("User-"));
    assert!(u.nickname[5..].chars().all(|c| c.is_ascii_alphanumeric()));
    let v = UserInfo::random();
    assert!(v.nickname.starts_with("User-"));
}
