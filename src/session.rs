use vstd::prelude::*;

use crate::game::{all_ids, has_game, open_ids};
use crate::message::{
    join_commas, join_list, server_msg, DeliveryView, Message, MessageType, MessageView,
};
use crate::server::{public_rooms, ChatServer, HubView};
use crate::text::{
    debug_quoted, debug_text, decimal, decimal_text, is_command, json_quoted, json_string,
    same_text, split_command, split_command_line, trim_text, trimmed,
};

verus! {

/// Time after the last ping or pong from a client at which its session ends.
pub const CLIENT_TIMEOUT_MS: u64 = 10000;

/// Time between two pings to a client.
pub const HEARTBEAT_INTERVAL_MS: u64 = 5000;

/// A session's own account of itself: name, room, game and id.
#[derive(Debug)]
pub struct SessionProfile {
    pub username: String,
    pub room: String,
    pub game: String,
    pub id: usize,
}

impl View for SessionProfile {
    type V = SessionView;

    open spec fn view(&self) -> SessionView {
        SessionView {
            id: self.id,
            room: self.room@,
            game: self.game@,
            username: self.username@,
        }
    }
}

impl SessionProfile {
    /// The profile as a JSON object with its fields in the order username,
    /// room, game, id.
    pub fn to_json(&self) -> (r: String)
        ensures
            r@ == profile_json(self@),
    {
        String::from_str("{\"username\":").concat(json_string(self.username.as_str()).as_str())
            .concat(",\"room\":").concat(json_string(self.room.as_str()).as_str())
            .concat(",\"game\":").concat(json_string(self.game.as_str()).as_str())
            .concat(",\"id\":").concat(decimal(self.id).as_str())
            .concat("}")
    }
}

/// What one endpoint knows of its own session.
#[derive(Debug)]
pub struct WsSession {
    /// unique session id
    pub id: usize,
    /// the room the endpoint believes it is in
    pub room: String,
    /// the game it plays, or "none"
    pub game: String,
    /// peer name
    pub username: String,
}

/// The mathematical value of a [`WsSession`].
pub struct SessionView {
    pub id: usize,
    pub room: Seq<char>,
    pub game: Seq<char>,
    pub username: Seq<char>,
}

impl View for WsSession {
    type V = SessionView;

    open spec fn view(&self) -> SessionView {
        SessionView {
            id: self.id,
            room: self.room@,
            game: self.game@,
            username: self.username@,
        }
    }
}

/// What a command does: the endpoint's and the hub's new state, the
/// messages the hub queues, and the reply to the issuing client.
pub struct Outcome {
    pub session: SessionView,
    pub hub: HubView,
    pub out: Seq<DeliveryView>,
    pub reply: Option<MessageView>,
}

/// The value of an optional message.
pub open spec fn opt_view(m: Option<Message>) -> Option<MessageView> {
    match m {
        Some(x) => Some(x@),
        None => None,
    }
}

/// The JSON record a client gets for `/self-info`.
pub open spec fn profile_json(s: SessionView) -> Seq<char> {
    "{\"username\":"@ + json_quoted(s.username) + ",\"room\":"@ + json_quoted(s.room)
        + ",\"game\":"@ + json_quoted(s.game) + ",\"id\":"@ + decimal_text(s.id as nat) + "}"@
}

/// A reply from the server to the issuing client.
pub open spec fn reply(kind: MessageType, content: Seq<char>) -> Option<MessageView> {
    Some(server_msg(kind, content))
}

/// The command table: what command line `m` does to session `s` and hub `h`.
pub open spec fn command_effect(s: SessionView, h: HubView, m: Seq<char>) -> Outcome {
    let (verb, arg) = split_command(m);
    let same = Outcome { session: s, hub: h, out: Seq::empty(), reply: None };
    if verb == "/list-rooms"@ {
        Outcome { reply: reply(MessageType::RoomList, join_commas(public_rooms(h.rooms))), ..same }
    } else if verb == "/list-users"@ {
        Outcome { reply: reply(MessageType::UserList, join_commas(h.user_list(s.room))), ..same }
    } else if verb == "/join-room"@ {
        match arg {
            Some(name) => {
                let (h1, o) = h.join_room(name, s.id, s.username);
                Outcome {
                    session: SessionView { room: name, game: "none"@, ..s },
                    hub: h1,
                    out: o,
                    reply: None,
                }
            },
            None => Outcome { reply: reply(MessageType::Error, "Room name is required"@), ..same },
        }
    } else if verb == "/new-game"@ {
        if has_game(h.games, s.username) {
            Outcome {
                reply: reply(
                    MessageType::Error,
                    "Game with the name "@ + s.username + " already exists"@,
                ),
                ..same
            }
        } else {
            let (h1, o) = h.new_game(s.id, s.username);
            Outcome {
                session: SessionView { room: "in_game"@, game: s.username, ..s },
                hub: h1,
                out: o,
                reply: reply(
                    MessageType::Status,
                    "New game with the name "@ + s.username + " created and joined"@,
                ),
            }
        }
    } else if verb == "/join-game"@ {
        match arg {
            Some(name) => {
                let (h1, o) = h.join_game(s.id, name, s.username);
                Outcome {
                    session: SessionView { room: "is_game"@, game: name, ..s },
                    hub: h1,
                    out: o,
                    reply: reply(MessageType::Status, "New joined "@ + name + " chess game"@),
                }
            },
            None => Outcome { reply: reply(MessageType::Error, "Game name is required"@), ..same },
        }
    } else if verb == "/leave-game"@ {
        let (h1, o1) = h.leave_game(s.game, s.id);
        let (h2, o2) = h1.join_room("main"@, s.id, s.username);
        Outcome {
            session: SessionView { room: "main"@, game: "none"@, ..s },
            hub: h2,
            out: o1 + o2,
            reply: reply(
                MessageType::Status,
                "You left "@ + "none"@ + " chess game and joined the main room"@,
            ),
        }
    } else if verb == "/game-move"@ {
        match arg {
            Some(mv) => Outcome {
                out: h.send_game_move(s.game, mv, s.id),
                reply: reply(MessageType::Status, "Game move sent "@ + mv),
                ..same
            },
            None => Outcome { reply: reply(MessageType::Error, "Move string is required"@), ..same },
        }
    } else if verb == "/list-available-games"@ {
        Outcome {
            reply: reply(MessageType::AvailableGameList, join_commas(open_ids(h.games))),
            ..same
        }
    } else if verb == "/list-all-games"@ {
        Outcome { reply: reply(MessageType::AllGameList, join_commas(all_ids(h.games))), ..same }
    } else if verb == "/delete-game"@ {
        match arg {
            Some(name) => {
                let (h1, o) = h.delete_game(name);
                Outcome {
                    hub: h1,
                    out: o,
                    reply: reply(MessageType::Status, s.game + " chess game deleted"@),
                    ..same
                }
            },
            None => Outcome { reply: reply(MessageType::Error, "Game name is required"@), ..same },
        }
    } else if verb == "/self-info"@ {
        Outcome { reply: reply(MessageType::SelfInfo, profile_json(s)), ..same }
    } else {
        Outcome { reply: reply(MessageType::Error, "Unknown command: "@ + debug_quoted(m)), ..same }
    }
}

/// The chat message that session `s` sends with text `m`.
pub open spec fn chat_msg(s: SessionView, m: Seq<char>) -> MessageView {
    MessageView {
        msg_type: MessageType::ClientMessage,
        from_id: s.id,
        username: s.username,
        content: m,
    }
}

/// What a text frame does: its trimmed text is a command when it begins
/// with a slash, and otherwise chat for the others in the session's room.
pub open spec fn text_effect(s: SessionView, h: HubView, text: Seq<char>) -> Outcome {
    let m = trimmed(text);
    if m.len() > 0 && m[0] == '/' {
        command_effect(s, h, m)
    } else {
        Outcome { session: s, hub: h, out: h.broadcast(s.room, chat_msg(s, m), s.id), reply: None }
    }
}

impl WsSession {
    /// A fresh endpoint in the main room, playing no game.
    pub fn new(id: usize, username: &str) -> (r: WsSession)
        ensures
            r@ == (SessionView { id, room: "main"@, game: "none"@, username: username@ }),
    {
        WsSession {
            id,
            room: String::from_str("main"),
            game: String::from_str("none"),
            username: String::from_str(username),
        }
    }

    /// A reply from the server.
    fn server_reply(kind: MessageType, content: String) -> (r: Option<Message>)
        ensures
            opt_view(r) == reply(kind, content@),
    {
        Some(Message::server(kind, content.as_str()))
    }

    /// What `/self-info` reports of this session.
    pub fn profile(&self) -> (r: SessionProfile)
        ensures
            r@ == self@,
    {
        SessionProfile {
            username: self.username.clone(),
            room: self.room.clone(),
            game: self.game.clone(),
            id: self.id,
        }
    }

    /// Carries out command line `msg`; returns the reply for the issuing
    /// client, if there is one.
    #[verifier::rlimit(60)]
    #[verifier::spinoff_prover]
    pub fn handle_command(&mut self, hub: &mut ChatServer, msg: &str) -> (r: Option<Message>)
        requires
            old(hub).wf(),
        ensures
            final(hub).wf(),
            final(self)@ == command_effect(old(self)@, old(hub).view(), msg@).session,
            final(hub).view() == command_effect(old(self)@, old(hub).view(), msg@).hub,
            final(hub).sent() == old(hub).sent() + command_effect(old(self)@, old(hub).view(), msg@).out,
            opt_view(r) == command_effect(old(self)@, old(hub).view(), msg@).reply,
    {
        let ghost s0 = self@;
        let ghost h0 = hub.view();
        let (verb, arg) = split_command_line(msg);
        if same_text(verb, "/list-rooms") {
            let rooms = hub.list_rooms();
            Self::server_reply(MessageType::RoomList, join_list(&rooms))
        } else if same_text(verb, "/list-users") {
            let users = hub.list_users(self.room.as_str());
            Self::server_reply(MessageType::UserList, join_list(&users))
        } else if same_text(verb, "/join-room") {
            match arg {
                Some(new_room) => {
                    self.room = String::from_str(new_room);
                    self.game = String::from_str("none");
                    hub.join_room(new_room, self.id, self.username.as_str());
                    None
                },
                None => Self::server_reply(MessageType::Error, String::from_str("Room name is required")),
            }
        } else if same_text(verb, "/new-game") {
            if hub.game_exists(self.username.as_str()) {
                let text = String::from_str("Game with the name ").concat(self.username.as_str()).concat(
                    " already exists",
                );
                return Self::server_reply(MessageType::Error, text);
            }
            self.room = String::from_str("in_game");
            self.game = self.username.clone();
            hub.new_game(self.id, self.username.as_str());
            let text = String::from_str("New game with the name ").concat(self.username.as_str()).concat(
                " created and joined",
            );
            Self::server_reply(MessageType::Status, text)
        } else if same_text(verb, "/join-game") {
            match arg {
                Some(game_name) => {
                    hub.join_game(self.id, game_name, self.username.as_str());
                    self.room = String::from_str("is_game");
                    self.game = String::from_str(game_name);
                    let text = String::from_str("New joined ").concat(game_name).concat(" chess game");
                    Self::server_reply(MessageType::Status, text)
                },
                None => Self::server_reply(MessageType::Error, String::from_str("Game name is required")),
            }
        } else if same_text(verb, "/leave-game") {
            hub.leave_game(self.game.as_str(), self.id);
            hub.join_room("main", self.id, self.username.as_str());
            self.room = String::from_str("main");
            self.game = String::from_str("none");
            let text = String::from_str("You left ").concat(self.game.as_str()).concat(
                " chess game and joined the main room",
            );
            Self::server_reply(MessageType::Status, text)
        } else if same_text(verb, "/game-move") {
            match arg {
                Some(move_str) => {
                    hub.send_game_move(self.game.as_str(), move_str, self.id);
                    let text = String::from_str("Game move sent ").concat(move_str);
                    Self::server_reply(MessageType::Status, text)
                },
                None => Self::server_reply(MessageType::Error, String::from_str("Move string is required")),
            }
        } else if same_text(verb, "/list-available-games") {
            let games = hub.available_games();
            Self::server_reply(MessageType::AvailableGameList, join_list(&games))
        } else if same_text(verb, "/list-all-games") {
            let games = hub.all_games();
            Self::server_reply(MessageType::AllGameList, join_list(&games))
        } else if same_text(verb, "/delete-game") {
            match arg {
                Some(game_name) => {
                    hub.delete_game(game_name);
                    let text = self.game.clone().concat(" chess game deleted");
                    Self::server_reply(MessageType::Status, text)
                },
                None => Self::server_reply(MessageType::Error, String::from_str("Game name is required")),
            }
        } else if same_text(verb, "/self-info") {
            Self::server_reply(MessageType::SelfInfo, self.profile().to_json())
        } else {
            let text = String::from_str("Unknown command: ").concat(debug_text(msg).as_str());
            Self::server_reply(MessageType::Error, text)
        }
    }

    /// Sends chat text `msg` to the others in this endpoint's room.
    pub fn handle_message(&self, hub: &mut ChatServer, msg: &str)
        requires
            old(hub).wf(),
        ensures
            final(hub).view() == old(hub).view(),
            final(hub).sent() == old(hub).sent() + old(hub).view().broadcast(
                self@.room,
                chat_msg(self@, msg@),
                self.id,
            ),
    {
        let m = Message {
            msg_type: MessageType::ClientMessage,
            from_id: self.id,
            username: self.username.clone(),
            content: String::from_str(msg),
        };
        hub.broadcast(self.room.as_str(), m, self.id);
    }

    /// Handles one text frame from the client; returns the reply for it, if
    /// there is one.
    pub fn handle_text(&mut self, hub: &mut ChatServer, text: &str) -> (r: Option<Message>)
        requires
            old(hub).wf(),
        ensures
            final(hub).wf(),
            final(self)@ == text_effect(old(self)@, old(hub).view(), text@).session,
            final(hub).view() == text_effect(old(self)@, old(hub).view(), text@).hub,
            final(hub).sent() == old(hub).sent() + text_effect(old(self)@, old(hub).view(), text@).out,
            opt_view(r) == text_effect(old(self)@, old(hub).view(), text@).reply,
    {
        let m = trim_text(text);
        if is_command(m) {
            self.handle_command(hub, m)
        } else {
            self.handle_message(hub, m);
            None
        }
    }

    /// Registers the session with the hub, which puts it in the main room;
    /// returns the welcome and the message that tells the client its id,
    /// which the client gets first.
    pub fn start(&self, hub: &mut ChatServer) -> (r: Vec<Message>)
        requires
            old(hub).wf(),
            old(hub).view().visitors < usize::MAX,
        ensures
            final(hub).wf(),
            final(hub).view() == old(hub).view().connect(self.id, self@.username).0,
            final(hub).sent() == old(hub).sent() + old(hub).view().connect(self.id, self@.username).1,
            r@.map_values(|m: Message| m@) == seq![
                server_msg(MessageType::Status, "You connected to the server"@),
                server_msg(MessageType::Connect, decimal_text(self.id as nat)),
            ],
    {
        hub.connect(self.id, self.username.as_str());
        let mut r: Vec<Message> = Vec::new();
        r.push(Message::server(MessageType::Status, "You connected to the server"));
        let id_text = decimal(self.id);
        r.push(Message::server(MessageType::Connect, id_text.as_str()));
        assert(r@.map_values(|m: Message| m@) =~= seq![
            server_msg(MessageType::Status, "You connected to the server"@),
            server_msg(MessageType::Connect, decimal_text(self.id as nat)),
        ]);
        r
    }

    /// Ends the session at the hub.
    pub fn stop(&self, hub: &mut ChatServer)
        requires
            old(hub).wf(),
        ensures
            final(hub).wf(),
            final(hub).view() == old(hub).view().disconnect(self.id).0,
            final(hub).sent() == old(hub).sent() + old(hub).view().disconnect(self.id).1,
    {
        hub.disconnect(self.id);
    }

    /// At a heartbeat tick, `elapsed_ms` after the client was last heard:
    /// past the timeout the session ends at the hub and the endpoint must
    /// stop, which the result says.
    pub fn check_heartbeat(&self, hub: &mut ChatServer, elapsed_ms: u64) -> (expired: bool)
        requires
            old(hub).wf(),
        ensures
            final(hub).wf(),
            expired == (elapsed_ms > CLIENT_TIMEOUT_MS),
            expired ==> final(hub).view() == old(hub).view().disconnect(self.id).0,
            expired ==> final(hub).sent() == old(hub).sent() + old(hub).view().disconnect(self.id).1,
            !expired ==> final(hub).view() == old(hub).view() && final(hub).sent() == old(hub).sent(),
    {
        if elapsed_ms > CLIENT_TIMEOUT_MS {
            hub.disconnect(self.id);
            true
        } else {
            false
        }
    }
}

} // verus!
