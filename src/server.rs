use vstd::prelude::*;

use crate::game::{
    all_ids, games_after_delete, has_game, games_after_join, games_after_leave, games_after_new, games_wf,
    lemma_delete_keeps_seats_unique, lemma_join_keeps_seats_unique, lemma_leave_keeps_seats_unique,
    lemma_new_keeps_seats_unique, open_ids, opponent_in, seat_game, seated, seats_unique,
    GameManager, GameView, SessionGame,
};
use crate::message::{
    join_commas, join_list, server_msg, Delivery, DeliveryView, Message, MessageType, MessageView,
};
use crate::text::same_text;

verus! {

/// A connected session as the registry holds it.
pub struct SessV {
    pub id: usize,
    pub nick: Seq<char>,
}

/// A room: its name and its members in order of arrival.
pub struct RoomV {
    pub name: Seq<char>,
    pub members: Seq<usize>,
}

/// The mathematical state of the hub.
pub struct HubView {
    pub sessions: Seq<SessV>,
    pub rooms: Seq<RoomV>,
    pub games: Seq<GameView>,
    pub visitors: int,
}

/// Whether `id` is a connected session.
pub open spec fn is_session(ss: Seq<SessV>, id: usize) -> bool {
    exists|i: int| 0 <= i < ss.len() && ss[i].id == id
}

/// Where session `id` stands in the registry.
pub open spec fn session_index(ss: Seq<SessV>, id: usize) -> int {
    choose|i: int| 0 <= i < ss.len() && ss[i].id == id
}

/// The nickname of session `id`.
pub open spec fn nick_of(ss: Seq<SessV>, id: usize) -> Seq<char> {
    ss[session_index(ss, id)].nick
}

/// Whether a room of that name exists.
pub open spec fn has_room(rs: Seq<RoomV>, name: Seq<char>) -> bool {
    exists|i: int| 0 <= i < rs.len() && rs[i].name == name
}

/// Where the room of that name stands.
pub open spec fn room_index(rs: Seq<RoomV>, name: Seq<char>) -> int {
    choose|i: int| 0 <= i < rs.len() && rs[i].name == name
}

/// Members of the room of that name; none where there is no such room.
pub open spec fn members_of(rs: Seq<RoomV>, name: Seq<char>) -> Seq<usize> {
    if has_room(rs, name) {
        rs[room_index(rs, name)].members
    } else {
        Seq::empty()
    }
}

/// Whether some room holds `s`.
pub open spec fn in_some_room(rs: Seq<RoomV>, s: usize) -> bool {
    exists|i: int| 0 <= i < rs.len() && rs[i].members.contains(s)
}

/// The room that holds `s`.
pub open spec fn room_holding(rs: Seq<RoomV>, s: usize) -> int {
    choose|i: int| 0 <= i < rs.len() && rs[i].members.contains(s)
}

/// Whether exactly one room holds `s`.
pub open spec fn in_exactly_one_room(rs: Seq<RoomV>, s: usize) -> bool {
    exists|i: int|
        0 <= i < rs.len() && rs[i].members.contains(s) && forall|j: int|
            0 <= j < rs.len() && j != i ==> !(#[trigger] rs[j].members.contains(s))
}

/// The rooms after `s` leaves room `i`.
pub open spec fn rooms_without(rs: Seq<RoomV>, i: int, s: usize) -> Seq<RoomV> {
    let ms = rs[i].members;
    rs.update(i, RoomV { name: rs[i].name, members: ms.remove(ms.index_of(s)) })
}

/// The rooms after `s` enters room `name`, which is created if absent.
pub open spec fn rooms_with(rs: Seq<RoomV>, name: Seq<char>, s: usize) -> Seq<RoomV> {
    if has_room(rs, name) {
        let i = room_index(rs, name);
        rs.update(i, RoomV { name, members: rs[i].members.push(s) })
    } else {
        rs.push(RoomV { name, members: seq![s] })
    }
}

/// One copy of `m` for each of `ms` that is connected and is not `skip`,
/// in the order of `ms`.
pub open spec fn deliver(ss: Seq<SessV>, ms: Seq<usize>, skip: usize, m: MessageView) -> Seq<
    DeliveryView,
>
    decreases ms.len(),
{
    if ms.len() == 0 {
        Seq::empty()
    } else if ms.last() != skip && is_session(ss, ms.last()) {
        deliver(ss, ms.drop_last(), skip, m).push(DeliveryView { to: ms.last(), msg: m })
    } else {
        deliver(ss, ms.drop_last(), skip, m)
    }
}

/// Nicknames of those of `ms` that are connected, in the order of `ms`.
pub open spec fn names_of(ss: Seq<SessV>, ms: Seq<usize>) -> Seq<Seq<char>>
    decreases ms.len(),
{
    if ms.len() == 0 {
        Seq::empty()
    } else if is_session(ss, ms.last()) {
        names_of(ss, ms.drop_last()).push(nick_of(ss, ms.last()))
    } else {
        names_of(ss, ms.drop_last())
    }
}

/// Names of the rooms that are listed publicly: all but the lobby and the
/// room of running games.
pub open spec fn public_rooms(rs: Seq<RoomV>) -> Seq<Seq<char>>
    decreases rs.len(),
{
    if rs.len() == 0 {
        Seq::empty()
    } else if rs.last().name != "lobby"@ && rs.last().name != "in_game"@ {
        public_rooms(rs.drop_last()).push(rs.last().name)
    } else {
        public_rooms(rs.drop_last())
    }
}

/// The notice that `nick` left `room`.
pub open spec fn left_text(nick: Seq<char>, room: Seq<char>) -> Seq<char> {
    nick + " left the "@ + room + " room"@
}

/// The greeting for a session that entered `room`.
pub open spec fn joined_you_text(room: Seq<char>) -> Seq<char> {
    "You joined the "@ + room + " room"@
}

/// The notice that `nick` entered `room`.
pub open spec fn joined_text(nick: Seq<char>, room: Seq<char>) -> Seq<char> {
    nick + " joined "@ + room + " room"@
}

impl HubView {
    /// Session ids, room names and game names are unique; a room holds an id
    /// once; no id is in two rooms or seated in two games; games are well
    /// formed; the visitor count covers the connected sessions.
    pub open spec fn wf(self) -> bool {
        &&& forall|i: int, j: int|
            0 <= i < self.sessions.len() && 0 <= j < self.sessions.len() && self.sessions[i].id
                == self.sessions[j].id ==> i == j
        &&& self.rooms_wf()
        &&& games_wf(self.games)
        &&& seats_unique(self.games)
        &&& self.sessions.len() <= self.visitors
    }

    /// Room names are unique, a room holds an id once, and no id is in two
    /// rooms.
    pub open spec fn rooms_wf(self) -> bool {
        &&& forall|i: int, j: int|
            0 <= i < self.rooms.len() && 0 <= j < self.rooms.len() && self.rooms[i].name
                == self.rooms[j].name ==> i == j
        &&& forall|i: int| 0 <= i < self.rooms.len() ==> (#[trigger] self.rooms[i]).members.no_duplicates()
        &&& forall|i: int, j: int, s: usize|
            0 <= i < self.rooms.len() && 0 <= j < self.rooms.len() && (
            #[trigger] self.rooms[i].members.contains(s)) && (
            #[trigger] self.rooms[j].members.contains(s)) ==> i == j
    }

    /// Every connected session is in exactly one room.
    pub open spec fn one_room_each(self) -> bool {
        forall|s: usize| is_session(self.sessions, s) ==> in_exactly_one_room(self.rooms, s)
    }

    /// This state with other rooms.
    pub open spec fn with_rooms(self, rooms: Seq<RoomV>) -> HubView {
        HubView { rooms, ..self }
    }

    /// This state with another game registry.
    pub open spec fn with_games(self, games: Seq<GameView>) -> HubView {
        HubView { games, ..self }
    }

    /// `m` to every connected member of `room` but `skip`.
    pub open spec fn broadcast(self, room: Seq<char>, m: MessageView, skip: usize) -> Seq<
        DeliveryView,
    > {
        deliver(self.sessions, members_of(self.rooms, room), skip, m)
    }

    /// `m` to session `id`; nothing where `id` is 0 or not connected.
    pub open spec fn send_to(self, id: usize, m: MessageView) -> Seq<DeliveryView> {
        if id != 0 && is_session(self.sessions, id) {
            seq![DeliveryView { to: id, msg: m }]
        } else {
            Seq::empty()
        }
    }

    /// Nicknames of the connected members of `room`.
    pub open spec fn user_list(self, room: Seq<char>) -> Seq<Seq<char>> {
        names_of(self.sessions, members_of(self.rooms, room))
    }

    /// The user list of `room` to all its members.
    pub open spec fn user_list_broadcast(self, room: Seq<char>) -> Seq<DeliveryView> {
        self.broadcast(room, server_msg(MessageType::UserList, join_commas(self.user_list(room))), 0)
    }

    /// The list of games that can be joined.
    pub open spec fn available_msg(self) -> MessageView {
        server_msg(MessageType::AvailableGameList, join_commas(open_ids(self.games)))
    }

    /// The list of all games.
    pub open spec fn all_games_msg(self) -> MessageView {
        server_msg(MessageType::AllGameList, join_commas(all_ids(self.games)))
    }

    /// Both game lists to the lobby, then both to the room of running games.
    pub open spec fn game_lists_broadcast(self) -> Seq<DeliveryView> {
        self.broadcast("lobby"@, self.available_msg(), 0) + self.broadcast(
            "lobby"@,
            self.all_games_msg(),
            0,
        ) + self.broadcast("in_game"@, self.available_msg(), 0) + self.broadcast(
            "in_game"@,
            self.all_games_msg(),
            0,
        )
    }

    /// `s` leaves room `i`: the others hear of it (not in the lobby), `s`
    /// is removed, and the room gets its new user list.
    pub open spec fn leave_room(self, i: int, s: usize, nick: Seq<char>) -> (HubView, Seq<
        DeliveryView,
    >) {
        let name = self.rooms[i].name;
        let o1 = if name != "lobby"@ {
            self.broadcast(name, server_msg(MessageType::Status, left_text(nick, name)), s)
        } else {
            Seq::empty()
        };
        let h1 = self.with_rooms(rooms_without(self.rooms, i, s));
        (h1, o1 + h1.user_list_broadcast(name))
    }

    /// `s` leaves the room it is in, if any.
    pub open spec fn leave_all_rooms(self, s: usize, nick: Seq<char>) -> (HubView, Seq<
        DeliveryView,
    >) {
        if in_some_room(self.rooms, s) {
            self.leave_room(room_holding(self.rooms, s), s, nick)
        } else {
            (self, Seq::empty())
        }
    }

    /// `s` leaves game `gid`: the opponent hears of it and both game lists
    /// go out.
    pub open spec fn leave_game(self, gid: Seq<char>, s: usize) -> (HubView, Seq<DeliveryView>) {
        let opp = opponent_in(self.games, gid, s);
        let h1 = self.with_games(games_after_leave(self.games, gid, s));
        (
            h1,
            h1.send_to(opp, server_msg(MessageType::Status, "Opponent has left the game"@))
                + h1.game_lists_broadcast(),
        )
    }

    /// `s` leaves the game it sits in, if any.
    pub open spec fn leave_all_games(self, s: usize) -> (HubView, Seq<DeliveryView>) {
        if seated(self.games, s) {
            self.leave_game(self.games[seat_game(self.games, s)].id, s)
        } else {
            (self, Seq::empty())
        }
    }

    /// `s`, in no room, enters room `name`: outside the lobby it is greeted
    /// and the others hear of it; then the room gets its new user list.
    pub open spec fn enter_room(self, name: Seq<char>, s: usize, nick: Seq<char>) -> (HubView, Seq<
        DeliveryView,
    >) {
        let h = self.with_rooms(rooms_with(self.rooms, name, s));
        let o = if name != "lobby"@ {
            h.send_to(s, server_msg(MessageType::Status, joined_you_text(name))) + h.broadcast(
                name,
                server_msg(MessageType::Status, joined_text(nick, name)),
                s,
            )
        } else {
            Seq::empty()
        };
        (h, o + h.user_list_broadcast(name))
    }

    /// `s` leaves its room and its game, then enters room `name`.
    pub open spec fn join_room(self, name: Seq<char>, s: usize, nick: Seq<char>) -> (HubView, Seq<
        DeliveryView,
    >) {
        let (h1, o1) = self.leave_all_rooms(s, nick);
        let (h2, o2) = h1.leave_all_games(s);
        let (h3, o3) = h2.enter_room(name, s, nick);
        (h3, o1 + o2 + o3)
    }

    /// The registry with `s` under nickname `nick` and one more visitor.
    pub open spec fn with_session(self, s: usize, nick: Seq<char>) -> HubView {
        HubView {
            sessions: if is_session(self.sessions, s) {
                self.sessions.update(session_index(self.sessions, s), SessV { id: s, nick })
            } else {
                self.sessions.push(SessV { id: s, nick })
            },
            visitors: self.visitors + 1,
            ..self
        }
    }

    /// A session arrives and enters the main room.
    pub open spec fn connect(self, s: usize, nick: Seq<char>) -> (HubView, Seq<DeliveryView>) {
        self.with_session(s, nick).join_room("main"@, s, nick)
    }

    /// A connected session goes: it leaves the registry, its room and its
    /// game, and the visitor count drops by one. Unknown ids change nothing.
    pub open spec fn disconnect(self, s: usize) -> (HubView, Seq<DeliveryView>) {
        if is_session(self.sessions, s) {
            let nick = nick_of(self.sessions, s);
            let h1 = HubView {
                sessions: self.sessions.remove(session_index(self.sessions, s)),
                visitors: self.visitors - 1,
                ..self
            };
            let (h2, o1) = h1.leave_all_rooms(s, nick);
            let (h3, o2) = h2.leave_all_games(s);
            (h3, o1 + o2)
        } else {
            (self, Seq::empty())
        }
    }

    /// `s` creates the game named `nick` and waits in the room of running
    /// games; both game lists go out.
    pub open spec fn new_game(self, s: usize, nick: Seq<char>) -> (HubView, Seq<DeliveryView>) {
        let (h1, o1) = self.leave_all_rooms(s, nick);
        let (h2, o2) = h1.join_room("in_game"@, s, nick);
        let h3 = h2.with_games(games_after_new(h2.games, nick, s));
        (h3, o1 + o2 + h3.game_lists_broadcast())
    }

    /// `s` moves to the lobby and takes the free seat of `gid` if that game
    /// waits for an opponent; the opponent hears of it and both game lists
    /// go out.
    pub open spec fn join_game(self, s: usize, gid: Seq<char>, nick: Seq<char>) -> (HubView, Seq<
        DeliveryView,
    >) {
        let (h1, o1) = self.join_room("lobby"@, s, nick);
        let h2 = h1.with_games(games_after_join(h1.games, gid, s));
        let opp = opponent_in(h2.games, gid, s);
        (
            h2,
            o1 + h2.send_to(opp, server_msg(MessageType::Status, "Opponent joined the game"@))
                + h2.game_lists_broadcast(),
        )
    }

    /// The move, verbatim, to the opponent of `s` in `gid`.
    pub open spec fn send_game_move(self, gid: Seq<char>, mv: Seq<char>, s: usize) -> Seq<
        DeliveryView,
    > {
        self.send_to(opponent_in(self.games, gid, s), server_msg(MessageType::GameMove, mv))
    }

    /// Game `gid` is removed and both game lists go out.
    pub open spec fn delete_game(self, gid: Seq<char>) -> (HubView, Seq<DeliveryView>) {
        let h1 = self.with_games(games_after_delete(self.games, gid));
        (h1, h1.game_lists_broadcast())
    }
}

/// A connected session: its id and the nickname it chose.
#[derive(Debug)]
struct SessionEntry {
    id: usize,
    nickname: String,
}

/// A room and its members in order of arrival.
#[derive(Debug)]
struct Room {
    name: String,
    members: Vec<usize>,
}

/// The coordination hub: sole owner of the sessions, the rooms and the game
/// registry. Each operation changes the state and queues, in order, the
/// messages it owes to sessions; the caller drains them with
/// [`ChatServer::take_outbox`] and hands each to its session.
#[derive(Debug)]
pub struct ChatServer {
    sessions: Vec<SessionEntry>,
    rooms: Vec<Room>,
    game_manager: GameManager,
    visitor_count: usize,
    outbox: Vec<Delivery>,
}

/// Position of `s` in `ms`.
fn position_of(ms: &Vec<usize>, s: usize) -> (r: Option<usize>)
    ensures
        r is None <==> !ms@.contains(s),
        r matches Some(k) ==> k < ms@.len() && ms@[k as int] == s && forall|j: int|
            0 <= j < k ==> ms@[j] != s,
{
    let mut k: usize = 0;
    while k < ms.len()
        invariant
            k <= ms.len(),
            forall|j: int| 0 <= j < k ==> ms@[j] != s,
        decreases ms.len() - k,
    {
        if ms[k] == s {
            return Some(k);
        }
        k = k + 1;
    }
    None
}

/// Between `a` and `b` no id but `s` changes room: rooms keep their
/// places, and new ones come only at the end.
pub open spec fn same_others(a: Seq<RoomV>, b: Seq<RoomV>, s: usize) -> bool {
    &&& a.len() <= b.len()
    &&& forall|j: int, t: usize|
        0 <= j < b.len() && t != s ==> (#[trigger] b[j].members.contains(t) <==> (j < a.len()
            && a[j].members.contains(t)))
}

/// Two steps that move only `s` together move only `s`.
proof fn lemma_same_others_trans(a: Seq<RoomV>, b: Seq<RoomV>, c: Seq<RoomV>, s: usize)
    requires
        same_others(a, b, s),
        same_others(b, c, s),
    ensures
        same_others(a, c, s),
{
    assert forall|j: int, t: usize| 0 <= j < c.len() && t != s implies (#[trigger] c[j].members.contains(t)
        <==> (j < a.len() && a[j].members.contains(t))) by {
        if j < b.len() {
            assert(b[j].members.contains(t) <==> (j < a.len() && a[j].members.contains(t)));
        }
    }
}

/// An id that does not move stays in exactly one room if it was.
proof fn lemma_same_others_one_room(a: Seq<RoomV>, b: Seq<RoomV>, s: usize, t: usize)
    requires
        same_others(a, b, s),
        t != s,
    ensures
        in_exactly_one_room(a, t) <==> in_exactly_one_room(b, t),
{
    if in_exactly_one_room(a, t) {
        let i = choose|i: int|
            0 <= i < a.len() && a[i].members.contains(t) && forall|j: int|
                0 <= j < a.len() && j != i ==> !(#[trigger] a[j].members.contains(t));
        assert(b[i].members.contains(t));
        assert forall|j: int| 0 <= j < b.len() && j != i implies !(#[trigger] b[j].members.contains(t)) by {
            if b[j].members.contains(t) {
                assert(a[j].members.contains(t));
            }
        }
    }
    if in_exactly_one_room(b, t) {
        let i = choose|i: int|
            0 <= i < b.len() && b[i].members.contains(t) && forall|j: int|
                0 <= j < b.len() && j != i ==> !(#[trigger] b[j].members.contains(t));
        assert(a[i].members.contains(t));
        assert forall|j: int| 0 <= j < a.len() && j != i implies !(#[trigger] a[j].members.contains(t)) by {
            if a[j].members.contains(t) {
                assert(b[j].members.contains(t));
            }
        }
    }
}

/// Removing the one occurrence of `s` from a list without repeats.
pub proof fn lemma_remove_unique(ms: Seq<usize>, s: usize, k: int)
    requires
        ms.no_duplicates(),
        0 <= k < ms.len(),
        ms[k] == s,
    ensures
        ms.index_of(s) == k,
        ms.remove(k).no_duplicates(),
        forall|x: usize| ms.remove(k).contains(x) <==> (ms.contains(x) && x != s),
{
    assert(ms.contains(s));
    let r = ms.remove(k);
    assert forall|x: usize| r.contains(x) <==> (ms.contains(x) && x != s) by {
        if r.contains(x) {
            let j = choose|j: int| 0 <= j < r.len() && r[j] == x;
            if j < k {
                assert(ms[j] == x);
            } else {
                assert(ms[j + 1] == x);
            }
        }
        if ms.contains(x) && x != s {
            let j = choose|j: int| 0 <= j < ms.len() && ms[j] == x;
            if j < k {
                assert(r[j] == x);
            } else {
                assert(j != k);
                assert(r[j - 1] == x);
            }
        }
    }
}

impl ChatServer {
    /// The state of the hub.
    pub closed spec fn view(&self) -> HubView {
        HubView {
            sessions: self.sessions@.map_values(|e: SessionEntry| SessV { id: e.id, nick: e.nickname@ }),
            rooms: self.rooms@.map_values(|r: Room| RoomV { name: r.name@, members: r.members@ }),
            games: self.game_manager@,
            visitors: self.visitor_count as int,
        }
    }

    /// The messages queued so far and not yet taken.
    pub closed spec fn sent(&self) -> Seq<DeliveryView> {
        self.outbox@.map_values(|d: Delivery| d@)
    }

    /// Invariant of the hub.
    pub open spec fn wf(&self) -> bool {
        self.view().wf()
    }

    /// Position of session `id`.
    fn find_session(&self, id: usize) -> (r: Option<usize>)
        requires
            self.wf(),
        ensures
            r is None <==> !is_session(self.view().sessions, id),
            r matches Some(i) ==> i == session_index(self.view().sessions, id) && i
                < self.view().sessions.len(),
    {
        let ghost ss = self.view().sessions;
        let mut i: usize = 0;
        while i < self.sessions.len()
            invariant
                i <= self.sessions.len(),
                self.wf(),
                ss == self.view().sessions,
                forall|j: int| 0 <= j < i ==> ss[j].id != id,
            decreases self.sessions.len() - i,
        {
            if self.sessions[i].id == id {
                proof {
                    assert(ss[i as int].id == id);
                    let k = session_index(ss, id);
                    assert(0 <= k < ss.len() && ss[k].id == id);
                    assert(ss[k].id == ss[i as int].id);
                }
                return Some(i);
            }
            i = i + 1;
        }
        None
    }

    /// Position of the room of that name.
    fn find_room(&self, name: &str) -> (r: Option<usize>)
        requires
            self.wf(),
        ensures
            r is None <==> !has_room(self.view().rooms, name@),
            r matches Some(i) ==> i == room_index(self.view().rooms, name@) && i
                < self.view().rooms.len(),
    {
        let ghost rs = self.view().rooms;
        let key = String::from_str(name);
        let mut i: usize = 0;
        while i < self.rooms.len()
            invariant
                i <= self.rooms.len(),
                self.wf(),
                key@ == name@,
                rs == self.view().rooms,
                forall|j: int| 0 <= j < i ==> rs[j].name != name@,
            decreases self.rooms.len() - i,
        {
            if self.rooms[i].name == key {
                proof {
                    assert(rs[i as int].name == name@);
                    let k = room_index(rs, name@);
                    assert(0 <= k < rs.len() && rs[k].name == name@);
                    assert(rs[k].name == rs[i as int].name);
                }
                return Some(i);
            }
            i = i + 1;
        }
        None
    }

    /// Position of the room that holds `s`.
    fn room_of(&self, s: usize) -> (r: Option<usize>)
        requires
            self.wf(),
        ensures
            r is None <==> !in_some_room(self.view().rooms, s),
            r matches Some(i) ==> i == room_holding(self.view().rooms, s) && i
                < self.view().rooms.len(),
    {
        let ghost rs = self.view().rooms;
        let mut i: usize = 0;
        while i < self.rooms.len()
            invariant
                i <= self.rooms.len(),
                self.wf(),
                rs == self.view().rooms,
                forall|j: int| 0 <= j < i ==> !rs[j].members.contains(s),
            decreases self.rooms.len() - i,
        {
            if position_of(&self.rooms[i].members, s).is_some() {
                proof {
                    assert(rs[i as int].members.contains(s));
                    let k = room_holding(rs, s);
                    assert(0 <= k < rs.len() && rs[k].members.contains(s));
                }
                return Some(i);
            }
            i = i + 1;
        }
        None
    }

    /// Queues `msg` for session `session_id`; nothing where the id is 0 or
    /// not connected.
    pub fn send_client_msg(&mut self, session_id: usize, msg: Message)
        requires
            old(self).wf(),
        ensures
            final(self).view() == old(self).view(),
            final(self).sent() == old(self).sent() + old(self).view().send_to(session_id, msg@),
    {
        if session_id != 0 && self.find_session(session_id).is_some() {
            self.outbox.push(Delivery { to: session_id, msg });
            assert(self.sent() =~= old(self).sent() + old(self).view().send_to(session_id, msg@));
        } else {
            assert(self.sent() =~= old(self).sent() + old(self).view().send_to(session_id, msg@));
        }
    }

    /// Queues `message` for every connected member of `room` except
    /// `skip_id`; with `skip_id` 0 every member gets it.
    pub fn broadcast(&mut self, room: &str, message: Message, skip_id: usize)
        requires
            old(self).wf(),
        ensures
            final(self).view() == old(self).view(),
            final(self).sent() == old(self).sent() + old(self).view().broadcast(
                room@,
                message@,
                skip_id,
            ),
    {
        let ghost h = self.view();
        match self.find_room(room) {
            Some(i) => {
                let ghost ms = h.rooms[i as int].members;
                let mut k: usize = 0;
                let n = self.rooms[i].members.len();
                while k < n
                    invariant
                        i < self.rooms.len(),
                        n == ms.len(),
                        k <= n,
                        self.wf(),
                        self.view() == h,
                        ms == self.rooms[i as int].members@,
                        self.sent() == old(self).sent() + deliver(h.sessions, ms.take(k as int), skip_id, message@),
                    decreases n - k,
                {
                    proof {
                        assert(ms.take(k as int + 1).drop_last() =~= ms.take(k as int));
                    }
                    let id = self.rooms[i].members[k];
                    if id != skip_id && self.find_session(id).is_some() {
                        let ghost before = self.sent();
                        self.outbox.push(Delivery { to: id, msg: message.duplicate() });
                        assert(self.sent() =~= before.push(DeliveryView { to: id, msg: message@ }));
                    }
                    k = k + 1;
                }
                assert(ms.take(n as int) =~= ms);
            },
            None => {
                assert(old(self).view().broadcast(room@, message@, skip_id) =~= Seq::empty());
                assert(self.sent() =~= old(self).sent() + old(self).view().broadcast(room@, message@, skip_id));
            },
        }
    }

    /// Removes `s` from room `i`.
    fn remove_member(&mut self, i: usize, s: usize)
        requires
            old(self).wf(),
            i < old(self).view().rooms.len(),
            old(self).view().rooms[i as int].members.contains(s),
        ensures
            final(self).wf(),
            final(self).view() == old(self).view().with_rooms(
                rooms_without(old(self).view().rooms, i as int, s),
            ),
            final(self).sent() == old(self).sent(),
            same_others(old(self).view().rooms, final(self).view().rooms, s),
    {
        let ghost h = self.view();
        let mut room = self.rooms.remove(i);
        assert(room.members@ == h.rooms[i as int].members);
        match position_of(&room.members, s) {
            Some(k) => {
                proof {
                    lemma_remove_unique(room.members@, s, k as int);
                }
                room.members.remove(k);
            },
            None => {},
        }
        self.rooms.insert(i, room);
        proof {
            let rs = h.rooms;
            let nr = rooms_without(rs, i as int, s);
            assert(self.view().rooms =~= nr);
            assert(self.view() =~= h.with_rooms(nr));
            assert forall|j: int, t: usize| 0 <= j < nr.len() && t != s implies (
            #[trigger] nr[j].members.contains(t) <==> (j < rs.len() && rs[j].members.contains(t))) by {
                if j == i {
                    lemma_remove_unique(rs[i as int].members, s, rs[i as int].members.index_of(s));
                }
            }
            assert forall|a: int, b: int, x: usize|
                0 <= a < nr.len() && 0 <= b < nr.len() && #[trigger] nr[a].members.contains(x)
                    && #[trigger] nr[b].members.contains(x) implies a == b by {
                assert(rs[a].members.contains(x));
                assert(rs[b].members.contains(x));
            }
            assert forall|a: int| 0 <= a < nr.len() implies (#[trigger] nr[a]).members.no_duplicates() by {
                if a != i {
                    assert(rs[a].members.no_duplicates());
                }
            }
            assert forall|a: int, b: int|
                0 <= a < nr.len() && 0 <= b < nr.len() && nr[a].name == nr[b].name implies a == b by {
                assert(rs[a].name == nr[a].name);
                assert(rs[b].name == nr[b].name);
            }
        }
    }

    /// Adds `s`, which is in no room, to room `name`, creating it if absent.
    fn add_member(&mut self, name: &str, s: usize)
        requires
            old(self).wf(),
            !in_some_room(old(self).view().rooms, s),
        ensures
            final(self).wf(),
            final(self).view() == old(self).view().with_rooms(
                rooms_with(old(self).view().rooms, name@, s),
            ),
            final(self).sent() == old(self).sent(),
            same_others(old(self).view().rooms, final(self).view().rooms, s),
    {
        let ghost h = self.view();
        let ghost rs = h.rooms;
        match self.find_room(name) {
            Some(i) => {
                let mut room = self.rooms.remove(i);
                assert(room.members@ == rs[i as int].members);
                assert(room.name@ == name@);
                room.members.push(s);
                self.rooms.insert(i, room);
                proof {
                    let nr = rooms_with(rs, name@, s);
                    assert(self.view().rooms =~= nr);
                    assert(!rs[i as int].members.contains(s));
                    assert forall|a: int, x: usize|
                        0 <= a < nr.len() && #[trigger] nr[a].members.contains(x)
                            implies rs[a].members.contains(x) || (a == i && x == s) by {
                        if a == i && x != s {
                            let j = choose|j: int| 0 <= j < nr[a].members.len() && nr[a].members[j] == x;
                            assert(rs[a].members[j] == x);
                        }
                    }
                    assert forall|a: int| 0 <= a < nr.len() implies (#[trigger] nr[a]).members.no_duplicates() by {
                        assert(rs[a].members.no_duplicates());
                    }
                    assert forall|j: int, t: usize| 0 <= j < nr.len() && t != s implies (
                    #[trigger] nr[j].members.contains(t) <==> (j < rs.len() && rs[j].members.contains(t))) by {
                        if j == i && rs[j].members.contains(t) {
                            let q = choose|q: int| 0 <= q < rs[j].members.len() && rs[j].members[q] == t;
                            assert(nr[j].members[q] == t);
                        }
                    }
                    assert forall|a: int, b: int|
                        0 <= a < nr.len() && 0 <= b < nr.len() && nr[a].name == nr[b].name implies a == b by {
                        assert(rs[a].name == nr[a].name);
                        assert(rs[b].name == nr[b].name);
                    }
                }
            },
            None => {
                let mut members: Vec<usize> = Vec::new();
                members.push(s);
                self.rooms.push(Room { name: String::from_str(name), members });
                proof {
                    let nr = rooms_with(rs, name@, s);
                    assert(self.view().rooms =~= nr);
                    assert(nr[rs.len() as int].members =~= seq![s]);
                    assert forall|a: int, x: usize|
                        0 <= a < nr.len() && #[trigger] nr[a].members.contains(x)
                            implies (a < rs.len() && rs[a].members.contains(x)) || (a == rs.len() && x == s) by {
                        if a == rs.len() {
                            assert(nr[a].members[0] == s);
                        }
                    }
                    assert forall|a: int| 0 <= a < nr.len() implies (#[trigger] nr[a]).members.no_duplicates() by {
                        if a < rs.len() {
                            assert(rs[a].members.no_duplicates());
                        }
                    }
                    assert forall|j: int, t: usize| 0 <= j < nr.len() && t != s implies (
                    #[trigger] nr[j].members.contains(t) <==> (j < rs.len() && rs[j].members.contains(t))) by {
                        if j == rs.len() && nr[j].members.contains(t) {
                            assert(nr[j].members[0] == s);
                        }
                    }
                    assert forall|a: int, b: int|
                        0 <= a < nr.len() && 0 <= b < nr.len() && nr[a].name == nr[b].name implies a == b by {
                        if a < rs.len() && b < rs.len() {
                            assert(rs[a].name == nr[a].name);
                            assert(rs[b].name == nr[b].name);
                        }
                    }
                }
            },
        }
    }

    /// Nicknames of the connected members of `room_name`, in order of arrival.
    pub fn list_users(&self, room_name: &str) -> (r: Vec<String>)
        requires
            self.wf(),
        ensures
            r.deep_view() == self.view().user_list(room_name@),
    {
        let ghost h = self.view();
        let mut usernames: Vec<String> = Vec::new();
        match self.find_room(room_name) {
            Some(i) => {
                let ghost ms = h.rooms[i as int].members;
                let mut k: usize = 0;
                while k < self.rooms[i].members.len()
                    invariant
                        i < self.rooms.len(),
                        self.wf(),
                        self.view() == h,
                        ms == self.rooms[i as int].members@,
                        k <= ms.len(),
                        usernames.deep_view() == names_of(h.sessions, ms.take(k as int)),
                    decreases ms.len() - k,
                {
                    proof {
                        assert(ms.take(k as int + 1).drop_last() =~= ms.take(k as int));
                    }
                    let id = self.rooms[i].members[k];
                    match self.find_session(id) {
                        Some(j) => {
                            let ghost before = usernames.deep_view();
                            usernames.push(self.sessions[j].nickname.clone());
                            assert(usernames.deep_view() =~= before.push(nick_of(h.sessions, id)));
                        },
                        None => {},
                    }
                    k = k + 1;
                }
                assert(ms.take(ms.len() as int) =~= ms);
            },
            None => {
                assert(usernames.deep_view() =~= names_of(h.sessions, Seq::empty()));
            },
        }
        usernames
    }

    /// Names of the rooms, leaving out the lobby and the room of running games.
    pub fn list_rooms(&self) -> (r: Vec<String>)
        ensures
            r.deep_view() == public_rooms(self.view().rooms),
    {
        let ghost rs = self.view().rooms;
        let mut names: Vec<String> = Vec::new();
        let mut i: usize = 0;
        while i < self.rooms.len()
            invariant
                i <= self.rooms.len(),
                rs == self.view().rooms,
                names.deep_view() == public_rooms(rs.take(i as int)),
            decreases self.rooms.len() - i,
        {
            proof {
                assert(rs.take(i as int + 1).drop_last() =~= rs.take(i as int));
            }
            let name = self.rooms[i].name.as_str();
            if !same_text(name, "lobby") && !same_text(name, "in_game") {
                let ghost before = names.deep_view();
                names.push(self.rooms[i].name.clone());
                assert(names.deep_view() =~= before.push(rs[i as int].name));
            }
            i = i + 1;
        }
        assert(rs.take(i as int) =~= rs);
        names
    }

    /// Whether some connected session goes by `name`.
    pub fn username_taken(&self, name: &str) -> (r: bool)
        ensures
            r == exists|i: int| 0 <= i < self.view().sessions.len() && self.view().sessions[i].nick == name@,
    {
        let ghost ss = self.view().sessions;
        let mut i: usize = 0;
        while i < self.sessions.len()
            invariant
                i <= self.sessions.len(),
                ss == self.view().sessions,
                forall|j: int| 0 <= j < i ==> ss[j].nick != name@,
            decreases self.sessions.len() - i,
        {
            if same_text(self.sessions[i].nickname.as_str(), name) {
                assert(ss[i as int].nick == name@);
                return true;
            }
            i = i + 1;
        }
        false
    }

    /// Queues the user list of `room` for all its members.
    fn broadcast_user_list(&mut self, room: &str)
        requires
            old(self).wf(),
        ensures
            final(self).view() == old(self).view(),
            final(self).sent() == old(self).sent() + old(self).view().user_list_broadcast(room@),
    {
        let users = self.list_users(room);
        let content = join_list(&users);
        self.broadcast(room, Message::server(MessageType::UserList, content.as_str()), 0);
    }

    /// `session_id` leaves room `i`.
    fn leave_room(&mut self, i: usize, session_id: usize, username: &str)
        requires
            old(self).wf(),
            i < old(self).view().rooms.len(),
            old(self).view().rooms[i as int].members.contains(session_id),
        ensures
            final(self).wf(),
            final(self).view() == old(self).view().leave_room(i as int, session_id, username@).0,
            final(self).sent() == old(self).sent() + old(self).view().leave_room(
                i as int,
                session_id,
                username@,
            ).1,
            same_others(old(self).view().rooms, final(self).view().rooms, session_id),
    {
        let ghost h = self.view();
        let name = self.rooms[i].name.clone();
        assert(name@ == h.rooms[i as int].name);
        let ghost o1: Seq<DeliveryView> = Seq::empty();
        if !same_text(name.as_str(), "lobby") {
            let text = String::from_str(username).concat(" left the ").concat(name.as_str()).concat(
                " room",
            );
            self.broadcast(name.as_str(), Message::server(MessageType::Status, text.as_str()), session_id);
            proof {
                o1 = h.broadcast(name@, server_msg(MessageType::Status, left_text(username@, name@)), session_id);
            }
        }
        self.remove_member(i, session_id);
        self.broadcast_user_list(name.as_str());
        proof {
            let r = h.leave_room(i as int, session_id, username@);
            assert(r.1 == o1 + self.view().user_list_broadcast(name@));
            assert(self.sent() =~= old(self).sent() + r.1);
        }
    }

    /// `session_id` leaves the room it is in, if any; the others there hear
    /// of it (outside the lobby) and get the new user list.
    pub fn leave_all_rooms(&mut self, session_id: usize, username: &str)
        requires
            old(self).wf(),
        ensures
            final(self).wf(),
            final(self).view() == old(self).view().leave_all_rooms(session_id, username@).0,
            final(self).sent() == old(self).sent() + old(self).view().leave_all_rooms(
                session_id,
                username@,
            ).1,
            !in_some_room(final(self).view().rooms, session_id),
            same_others(old(self).view().rooms, final(self).view().rooms, session_id),
    {
        let ghost h = self.view();
        match self.room_of(session_id) {
            Some(i) => {
                self.leave_room(i, session_id, username);
                proof {
                    let rs = h.rooms;
                    let nr = self.view().rooms;
                    let ms = rs[i as int].members;
                    let k = ms.index_of(session_id);
                    assert(ms.contains(session_id));
                    lemma_remove_unique(ms, session_id, k);
                    if in_some_room(nr, session_id) {
                        let a = choose|a: int| 0 <= a < nr.len() && nr[a].members.contains(session_id);
                        assert(a != i);
                        assert(rs[a] == nr[a]);
                        assert(rs[a].members.contains(session_id));
                    }
                }
            },
            None => {
                assert(self.sent() =~= old(self).sent() + Seq::<DeliveryView>::empty());
            },
        }
    }

    /// Queues both game lists for the lobby and then for the room of
    /// running games.
    fn broadcast_games(&mut self)
        requires
            old(self).wf(),
        ensures
            final(self).view() == old(self).view(),
            final(self).sent() == old(self).sent() + old(self).view().game_lists_broadcast(),
    {
        let available = join_list(&self.game_manager.available_games());
        let all = join_list(&self.game_manager.all_games());
        let available_msg = Message::server(MessageType::AvailableGameList, available.as_str());
        let all_msg = Message::server(MessageType::AllGameList, all.as_str());
        self.broadcast("lobby", available_msg.duplicate(), 0);
        self.broadcast("lobby", all_msg.duplicate(), 0);
        self.broadcast("in_game", available_msg, 0);
        self.broadcast("in_game", all_msg, 0);
        assert(self.sent() =~= old(self).sent() + old(self).view().game_lists_broadcast());
    }

    /// `session_id` leaves game `game_id`. The opponent, found before the
    /// seat is freed, hears of it; a game left empty is removed; both game
    /// lists go out.
    pub fn leave_game(&mut self, game_id: &str, session_id: usize)
        requires
            old(self).wf(),
        ensures
            final(self).wf(),
            final(self).view() == old(self).view().leave_game(game_id@, session_id).0,
            final(self).sent() == old(self).sent() + old(self).view().leave_game(
                game_id@,
                session_id,
            ).1,
    {
        let ghost h = self.view();
        let opponent_id = self.game_manager.opponent_id(game_id, session_id);
        self.game_manager.leave_game(game_id, session_id);
        proof {
            lemma_leave_keeps_seats_unique(h.games, game_id@, session_id);
            assert(self.view() == h.with_games(games_after_leave(h.games, game_id@, session_id)));
        }
        let msg = Message::server(MessageType::Status, "Opponent has left the game");
        self.send_client_msg(opponent_id, msg);
        self.broadcast_games();
        assert(self.sent() =~= old(self).sent() + h.leave_game(game_id@, session_id).1);
    }

    /// `session_id` leaves the game it sits in, if any.
    pub fn leave_all_games(&mut self, session_id: usize)
        requires
            old(self).wf(),
        ensures
            final(self).wf(),
            final(self).view() == old(self).view().leave_all_games(session_id).0,
            final(self).sent() == old(self).sent() + old(self).view().leave_all_games(session_id).1,
            !seated(final(self).view().games, session_id),
    {
        let ghost h = self.view();
        match self.game_manager.seat_of(session_id) {
            Some(game_id) => {
                proof {
                    let gs = h.games;
                    let i = choose|i: int| 0 <= i < gs.len() && gs[i].seats(session_id) && gs[i].id == game_id@;
                    let q = seat_game(gs, session_id);
                    assert(gs[q].seats(session_id));
                    assert(q == i);
                    lemma_leave_keeps_seats_unique(gs, game_id@, session_id);
                }
                self.leave_game(game_id.as_str(), session_id);
            },
            None => {
                assert(self.sent() =~= old(self).sent() + Seq::<DeliveryView>::empty());
            },
        }
    }

    /// `session_id`, in no room, enters room `room_name`.
    fn enter_room(&mut self, room_name: &str, session_id: usize, username: &str)
        requires
            old(self).wf(),
            !in_some_room(old(self).view().rooms, session_id),
        ensures
            final(self).wf(),
            final(self).view() == old(self).view().enter_room(room_name@, session_id, username@).0,
            final(self).sent() == old(self).sent() + old(self).view().enter_room(
                room_name@,
                session_id,
                username@,
            ).1,
            same_others(old(self).view().rooms, final(self).view().rooms, session_id),
    {
        let ghost h = self.view();
        self.add_member(room_name, session_id);
        let ghost h1 = self.view();
        let ghost o: Seq<DeliveryView> = Seq::empty();
        if !same_text(room_name, "lobby") {
            let greeting = String::from_str("You joined the ").concat(room_name).concat(" room");
            self.send_client_msg(session_id, Message::server(MessageType::Status, greeting.as_str()));
            let notice = String::from_str(username).concat(" joined ").concat(room_name).concat(
                " room",
            );
            self.broadcast(room_name, Message::server(MessageType::Status, notice.as_str()), session_id);
            proof {
                o = h1.send_to(
                    session_id,
                    server_msg(MessageType::Status, joined_you_text(room_name@)),
                ) + h1.broadcast(
                    room_name@,
                    server_msg(MessageType::Status, joined_text(username@, room_name@)),
                    session_id,
                );
            }
        }
        self.broadcast_user_list(room_name);
        proof {
            let r = h.enter_room(room_name@, session_id, username@);
            assert(r.1 == o + h1.user_list_broadcast(room_name@));
            assert(self.sent() =~= old(self).sent() + r.1);
        }
    }

    /// `session_id` leaves its room and its game, then enters `room_name`
    /// (created if absent). Outside the lobby it is greeted and the others
    /// there hear of it; the room's members get its new user list.
    pub fn join_room(&mut self, room_name: &str, session_id: usize, username: &str)
        requires
            old(self).wf(),
        ensures
            final(self).wf(),
            final(self).view() == old(self).view().join_room(room_name@, session_id, username@).0,
            final(self).sent() == old(self).sent() + old(self).view().join_room(
                room_name@,
                session_id,
                username@,
            ).1,
            in_exactly_one_room(final(self).view().rooms, session_id),
            !seated(final(self).view().games, session_id),
            same_others(old(self).view().rooms, final(self).view().rooms, session_id),
            final(self).view().sessions == old(self).view().sessions,
            old(self).view().one_room_each() ==> final(self).view().one_room_each(),
    {
        let ghost h = self.view();
        self.leave_all_rooms(session_id, username);
        let ghost h1 = self.view();
        self.leave_all_games(session_id);
        assert(self.view().rooms == h1.rooms);
        self.enter_room(room_name, session_id, username);
        proof {
            lemma_same_others_trans(h.rooms, h1.rooms, self.view().rooms, session_id);
            let r = h.join_room(room_name@, session_id, username@);
            assert(self.sent() =~= old(self).sent() + r.1);
            let rs = self.view().rooms;
            let k0 = if has_room(h1.rooms, room_name@) {
                room_index(h1.rooms, room_name@)
            } else {
                h1.rooms.len() as int
            };
            assert(0 <= k0 < rs.len());
            let ms = rs[k0].members;
            assert(ms[ms.len() - 1] == session_id);
            assert(ms.contains(session_id));
            assert forall|j: int| 0 <= j < rs.len() && j != k0 implies !(#[trigger] rs[j].members.contains(
                session_id,
            )) by {
                if rs[j].members.contains(session_id) {
                    assert(rs[k0].members.contains(session_id));
                }
            }
            if h.one_room_each() {
                assert forall|t: usize| is_session(self.view().sessions, t) implies in_exactly_one_room(
                    self.view().rooms,
                    t,
                ) by {
                    if t != session_id {
                        lemma_same_others_one_room(h.rooms, rs, session_id, t);
                    }
                }
            }
        }
    }

    /// A hub with the main room, the lobby, the room of running games and
    /// the conversation rooms, all empty, and no visitor yet.
    pub fn new() -> (r: ChatServer)
        ensures
            r.wf(),
            r.view().one_room_each(),
            r.view().sessions.len() == 0,
            r.view().games.len() == 0,
            r.view().visitors == 0,
            r.view().rooms.map_values(|rm: RoomV| rm.name) == seq![
                "main"@,
                "lobby"@,
                "in_game"@,
                "mountain"@,
                "ocean"@,
                "sky"@,
                "space"@,
            ],
            forall|i: int| 0 <= i < r.view().rooms.len() ==> (#[trigger] r.view().rooms[i]).members.len() == 0,
            r.sent().len() == 0,
    {
        let mut rooms: Vec<Room> = Vec::new();
        rooms.push(Room { name: String::from_str("main"), members: Vec::new() });
        rooms.push(Room { name: String::from_str("lobby"), members: Vec::new() });
        rooms.push(Room { name: String::from_str("in_game"), members: Vec::new() });
        rooms.push(Room { name: String::from_str("mountain"), members: Vec::new() });
        rooms.push(Room { name: String::from_str("ocean"), members: Vec::new() });
        rooms.push(Room { name: String::from_str("sky"), members: Vec::new() });
        rooms.push(Room { name: String::from_str("space"), members: Vec::new() });
        let r = ChatServer {
            sessions: Vec::new(),
            rooms,
            game_manager: GameManager::new(),
            visitor_count: 0,
            outbox: Vec::new(),
        };
        proof {
            reveal_strlit("main");
            reveal_strlit("lobby");
            reveal_strlit("in_game");
            reveal_strlit("mountain");
            reveal_strlit("ocean");
            reveal_strlit("sky");
            reveal_strlit("space");
            let rs = r.view().rooms;
            assert(rs.map_values(|rm: RoomV| rm.name) =~= seq![
                "main"@,
                "lobby"@,
                "in_game"@,
                "mountain"@,
                "ocean"@,
                "sky"@,
                "space"@,
            ]);
            assert forall|a: int, b: int| 0 <= a < rs.len() && 0 <= b < rs.len() && rs[a].name == rs[b].name implies a == b by {
                if a != b {
                    assert(rs[a].name.len() != rs[b].name.len() || rs[a].name[0] != rs[b].name[0]
                        || rs[a].name[1] != rs[b].name[1]);
                }
            }
            assert forall|a: int| 0 <= a < rs.len() implies (#[trigger] rs[a]).members.no_duplicates() by {
                assert(rs[a].members.len() == 0);
            }
            assert(r.sent() =~= Seq::<DeliveryView>::empty());
        }
        r
    }

    /// Registers session `session_id` under `username`, counts one more
    /// visitor and puts the session in the main room.
    pub fn connect(&mut self, session_id: usize, username: &str)
        requires
            old(self).wf(),
            old(self).view().visitors < usize::MAX,
        ensures
            final(self).wf(),
            final(self).view() == old(self).view().connect(session_id, username@).0,
            final(self).sent() == old(self).sent() + old(self).view().connect(session_id, username@).1,
            final(self).view().visitors == old(self).view().visitors + 1,
            is_session(final(self).view().sessions, session_id),
            nick_of(final(self).view().sessions, session_id) == username@,
            in_exactly_one_room(final(self).view().rooms, session_id),
            old(self).view().one_room_each() ==> final(self).view().one_room_each(),
    {
        let ghost h = self.view();
        match self.find_session(session_id) {
            Some(i) => {
                self.sessions.set(i, SessionEntry { id: session_id, nickname: String::from_str(username) });
            },
            None => {
                self.sessions.push(SessionEntry { id: session_id, nickname: String::from_str(username) });
            },
        }
        self.visitor_count = self.visitor_count + 1;
        let ghost h1 = self.view();
        proof {
            let hs = h.with_session(session_id, username@);
            assert(h1.sessions =~= hs.sessions);
            assert(h1 == hs);
            let ss = h1.sessions;
            let k = if is_session(h.sessions, session_id) { session_index(h.sessions, session_id) } else { h.sessions.len() as int };
            assert(ss[k].id == session_id);
            assert forall|a: int, b: int| 0 <= a < ss.len() && 0 <= b < ss.len() && ss[a].id == ss[b].id implies a == b by {
                if a != k && b != k {
                    assert(h.sessions[a].id == ss[a].id && h.sessions[b].id == ss[b].id);
                } else if a != b {
                    let o = if a == k { b } else { a };
                    assert(h.sessions[o].id == session_id);
                }
            }
            assert(is_session(ss, session_id));
            assert(session_index(ss, session_id) == k);
        }
        self.join_room("main", session_id, username);
        proof {
            let ss = self.view().sessions;
            if h.one_room_each() {
                assert forall|t: usize| is_session(ss, t) implies in_exactly_one_room(self.view().rooms, t) by {
                    if t != session_id {
                        let a = choose|a: int| 0 <= a < h1.sessions.len() && h1.sessions[a].id == t;
                        if is_session(h.sessions, session_id) {
                            assert(h.sessions[a].id == t);
                        } else {
                            assert(a < h.sessions.len());
                            assert(h.sessions[a].id == t);
                        }
                        assert(in_exactly_one_room(h1.rooms, t));
                        lemma_same_others_one_room(h1.rooms, self.view().rooms, session_id, t);
                    }
                }
            }
        }
    }

    /// Session `id` goes: it leaves the registry, its room and its game, and
    /// the visitor count drops by one. An unknown id changes nothing.
    pub fn disconnect(&mut self, id: usize)
        requires
            old(self).wf(),
        ensures
            final(self).wf(),
            final(self).view() == old(self).view().disconnect(id).0,
            final(self).sent() == old(self).sent() + old(self).view().disconnect(id).1,
            !is_session(final(self).view().sessions, id),
            is_session(old(self).view().sessions, id) ==> {
                &&& !in_some_room(final(self).view().rooms, id)
                &&& !seated(final(self).view().games, id)
                &&& final(self).view().visitors == old(self).view().visitors - 1
            },
            !is_session(old(self).view().sessions, id) ==> final(self).view() == old(self).view(),
            old(self).view().one_room_each() ==> final(self).view().one_room_each(),
    {
        let ghost h = self.view();
        match self.find_session(id) {
            Some(i) => {
                let entry = self.sessions.remove(i);
                self.visitor_count = self.visitor_count - 1;
                proof {
                    let ss = h.sessions;
                    let r = ss.remove(i as int);
                    assert(self.view().sessions =~= r);
                    assert forall|a: int, b: int| 0 <= a < r.len() && 0 <= b < r.len() && r[a].id == r[b].id implies a == b by {
                        let a1 = if a < i { a } else { a + 1 };
                        let b1 = if b < i { b } else { b + 1 };
                        assert(ss[a1].id == ss[b1].id);
                    }
                    if is_session(r, id) {
                        let a = choose|a: int| 0 <= a < r.len() && r[a].id == id;
                        let a1 = if a < i { a } else { a + 1 };
                        assert(ss[a1].id == id);
                    }
                }
                let ghost h1 = self.view();
                self.leave_all_rooms(id, entry.nickname.as_str());
                let ghost h2 = self.view();
                self.leave_all_games(id);
                proof {
                    assert(self.sent() =~= old(self).sent() + h.disconnect(id).1);
                    if h.one_room_each() {
                        assert forall|t: usize| is_session(self.view().sessions, t) implies in_exactly_one_room(
                            self.view().rooms,
                            t,
                        ) by {
                            let a = choose|a: int| 0 <= a < h1.sessions.len() && h1.sessions[a].id == t;
                            let a1 = if a < i { a } else { a + 1 };
                            assert(h.sessions[a1].id == t);
                            assert(t != id);
                            lemma_same_others_one_room(h.rooms, h2.rooms, id, t);
                        }
                    }
                }
            },
            None => {
                assert(self.sent() =~= old(self).sent() + Seq::<DeliveryView>::empty());
            },
        }
    }

    /// `session_id` creates the game named after `username` and waits in the
    /// room of running games; both game lists go out. The caller makes sure
    /// that no game of that name exists (one that does is replaced).
    pub fn new_game(&mut self, session_id: usize, username: &str)
        requires
            old(self).wf(),
        ensures
            final(self).wf(),
            final(self).view() == old(self).view().new_game(session_id, username@).0,
            final(self).sent() == old(self).sent() + old(self).view().new_game(session_id, username@).1,
            in_exactly_one_room(final(self).view().rooms, session_id),
            old(self).view().one_room_each() ==> final(self).view().one_room_each(),
    {
        let ghost h = self.view();
        self.leave_all_rooms(session_id, username);
        let ghost h1 = self.view();
        self.join_room("in_game", session_id, username);
        let ghost h2 = self.view();
        self.game_manager.new_game(username, session_id);
        proof {
            lemma_new_keeps_seats_unique(h2.games, username@, session_id);
            assert(self.view() == h2.with_games(games_after_new(h2.games, username@, session_id)));
            lemma_same_others_trans(h.rooms, h1.rooms, h2.rooms, session_id);
            if h.one_room_each() {
                assert forall|t: usize| is_session(self.view().sessions, t) implies in_exactly_one_room(
                    self.view().rooms,
                    t,
                ) by {
                    if t != session_id {
                        lemma_same_others_one_room(h.rooms, h2.rooms, session_id, t);
                    }
                }
            }
        }
        self.broadcast_games();
        assert(self.sent() =~= old(self).sent() + h.new_game(session_id, username@).1);
    }

    /// `session_id` moves to the lobby and takes the free seat of `game_id`
    /// if that game waits for an opponent, who hears of it; both game lists
    /// go out. A game that cannot be joined is left as it is.
    pub fn join_game(&mut self, session_id: usize, game_id: &str, username: &str)
        requires
            old(self).wf(),
        ensures
            final(self).wf(),
            final(self).view() == old(self).view().join_game(session_id, game_id@, username@).0,
            final(self).sent() == old(self).sent() + old(self).view().join_game(
                session_id,
                game_id@,
                username@,
            ).1,
            in_exactly_one_room(final(self).view().rooms, session_id),
            old(self).view().one_room_each() ==> final(self).view().one_room_each(),
    {
        let ghost h = self.view();
        self.join_room("lobby", session_id, username);
        let ghost h1 = self.view();
        self.game_manager.join_game(game_id, session_id);
        proof {
            lemma_join_keeps_seats_unique(h1.games, game_id@, session_id);
            assert(self.view() == h1.with_games(games_after_join(h1.games, game_id@, session_id)));
        }
        let opponent_id = self.game_manager.opponent_id(game_id, session_id);
        let msg = Message::server(MessageType::Status, "Opponent joined the game");
        self.send_client_msg(opponent_id, msg);
        self.broadcast_games();
        assert(self.sent() =~= old(self).sent() + h.join_game(session_id, game_id@, username@).1);
    }

    /// Relays `move_str`, verbatim, to the opponent of `session_id` in
    /// `game_id`.
    pub fn send_game_move(&mut self, game_id: &str, move_str: &str, session_id: usize)
        requires
            old(self).wf(),
        ensures
            final(self).view() == old(self).view(),
            final(self).sent() == old(self).sent() + old(self).view().send_game_move(
                game_id@,
                move_str@,
                session_id,
            ),
    {
        let opponent_id = self.game_manager.opponent_id(game_id, session_id);
        let msg = Message::server(MessageType::GameMove, move_str);
        self.send_client_msg(opponent_id, msg);
    }

    /// Removes game `game_id` whoever sits in it; both game lists go out.
    pub fn delete_game(&mut self, game_id: &str)
        requires
            old(self).wf(),
        ensures
            final(self).wf(),
            final(self).view() == old(self).view().delete_game(game_id@).0,
            final(self).sent() == old(self).sent() + old(self).view().delete_game(game_id@).1,
    {
        let ghost h = self.view();
        self.game_manager.delete_game(game_id);
        proof {
            lemma_delete_keeps_seats_unique(h.games, game_id@);
            assert(self.view() == h.with_games(games_after_delete(h.games, game_id@)));
        }
        self.broadcast_games();
    }

    /// All games, in registry order.
    pub fn list_games(&self) -> (r: &Vec<SessionGame>)
        ensures
            r@.map_values(|g: SessionGame| g@) == self.view().games,
    {
        self.game_manager.get_games()
    }

    /// Whether a game of that name exists.
    pub fn game_exists(&self, game_id: &str) -> (r: bool)
        requires
            self.wf(),
        ensures
            r == has_game(self.view().games, game_id@),
    {
        self.game_manager.get_game(game_id).is_some()
    }

    /// Names of the games that wait for an opponent.
    pub fn available_games(&self) -> (r: Vec<String>)
        ensures
            r.deep_view() == open_ids(self.view().games),
    {
        self.game_manager.available_games()
    }

    /// Names of all games.
    pub fn all_games(&self) -> (r: Vec<String>)
        ensures
            r.deep_view() == all_ids(self.view().games),
    {
        self.game_manager.all_games()
    }

    /// The connected sessions: id and nickname, in order of arrival.
    pub fn sessions(&self) -> (r: Vec<(usize, String)>)
        ensures
            r@.len() == self.view().sessions.len(),
            forall|i: int|
                0 <= i < r@.len() ==> (#[trigger] r@[i]).0 == self.view().sessions[i].id && r@[i].1@
                    == self.view().sessions[i].nick,
    {
        let mut r: Vec<(usize, String)> = Vec::new();
        let mut i: usize = 0;
        while i < self.sessions.len()
            invariant
                i <= self.sessions.len(),
                r@.len() == i,
                forall|j: int|
                    0 <= j < i ==> (#[trigger] r@[j]).0 == self.view().sessions[j].id && r@[j].1@
                        == self.view().sessions[j].nick,
            decreases self.sessions.len() - i,
        {
            r.push((self.sessions[i].id, self.sessions[i].nickname.clone()));
            i = i + 1;
        }
        r
    }

    /// Hands over the queued messages, oldest first, and empties the queue.
    pub fn take_outbox(&mut self) -> (r: Vec<Delivery>)
        ensures
            final(self).view() == old(self).view(),
            final(self).sent() == Seq::<DeliveryView>::empty(),
            r@.map_values(|d: Delivery| d@) == old(self).sent(),
    {
        let mut r: Vec<Delivery> = Vec::new();
        std::mem::swap(&mut r, &mut self.outbox);
        assert(self.sent() =~= Seq::<DeliveryView>::empty());
        r
    }

    /// Number of visitors now connected.
    pub fn visitor_count(&self) -> (r: usize)
        ensures
            r as int == self.view().visitors,
    {
        self.visitor_count
    }
}

} // verus!
