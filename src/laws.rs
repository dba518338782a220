//! Properties that hold across the hub's operations, proved from their
//! contracts.

use vstd::prelude::*;

use crate::game::{
    game_index, game_of, games_after_join, games_after_leave, games_wf, has_game, opponent_in,
    seat_game, seated, GameView,
};
use crate::message::{join_commas, server_msg, DeliveryView, MessageType, MessageView};
use crate::server::{
    deliver, has_room, in_some_room, is_session, joined_text, joined_you_text, left_text,
    lemma_remove_unique, members_of, room_holding, room_index, rooms_without, HubView, SessV,
};
use crate::session::{chat_msg, SessionView};

verus! {

/// How many of `ds` go to `t` with a message of kind `k`.
pub open spec fn count_to(ds: Seq<DeliveryView>, t: usize, k: MessageType) -> nat
    decreases ds.len(),
{
    if ds.len() == 0 {
        0
    } else {
        count_to(ds.drop_last(), t, k) + if ds.last().to == t && ds.last().msg.msg_type == k {
            1nat
        } else {
            0nat
        }
    }
}

/// Counting over two lists of deliveries one after the other adds up.
pub proof fn lemma_count_concat(a: Seq<DeliveryView>, b: Seq<DeliveryView>, t: usize, k: MessageType)
    ensures
        count_to(a + b, t, k) == count_to(a, t, k) + count_to(b, t, k),
    decreases b.len(),
{
    if b.len() == 0 {
        assert(a + b =~= a);
    } else {
        assert((a + b).drop_last() =~= a + b.drop_last());
        lemma_count_concat(a, b.drop_last(), t, k);
    }
}

/// A broadcast reaches each connected member of the room but `skip`
/// exactly once, and nobody else; every copy is the message itself.
pub proof fn lemma_broadcast_reaches_each_once(
    ss: Seq<SessV>,
    ms: Seq<usize>,
    skip: usize,
    m: MessageView,
    t: usize,
)
    requires
        ms.no_duplicates(),
    ensures
        count_to(deliver(ss, ms, skip, m), t, m.msg_type) == (if ms.contains(t) && t != skip
            && is_session(ss, t) {
            1nat
        } else {
            0nat
        }),
        forall|k: MessageType| k != m.msg_type ==> count_to(deliver(ss, ms, skip, m), t, k) == 0,
        forall|i: int|
            0 <= i < deliver(ss, ms, skip, m).len() ==> (#[trigger] deliver(ss, ms, skip, m)[i]).msg
                == m,
    decreases ms.len(),
{
    if ms.len() > 0 {
        let p = ms.drop_last();
        assert(p.no_duplicates());
        lemma_broadcast_reaches_each_once(ss, p, skip, m, t);
        let x = ms.last();
        assert(ms =~= p.push(x));
        assert(ms.contains(t) <==> (p.contains(t) || x == t)) by {
            if ms.contains(t) && x != t {
                let j = choose|j: int| 0 <= j < ms.len() && ms[j] == t;
                assert(j < p.len());
                assert(p[j] == t);
            }
            if p.contains(t) {
                let j = choose|j: int| 0 <= j < p.len() && p[j] == t;
                assert(ms[j] == t);
            }
        }
        if x == t {
            assert(!p.contains(t)) by {
                if p.contains(t) {
                    let j = choose|j: int| 0 <= j < p.len() && p[j] == t;
                    assert(ms[j] == ms[ms.len() - 1]);
                }
            }
        }
        let d = deliver(ss, ms, skip, m);
        let dp = deliver(ss, p, skip, m);
        if x != skip && is_session(ss, x) {
            assert(d.drop_last() =~= dp);
        }
        assert forall|k: MessageType| k != m.msg_type implies count_to(d, t, k) == 0 by {
            assert(count_to(dp, t, k) == 0);
            if x != skip && is_session(ss, x) {
                assert(d.drop_last() =~= dp);
                assert(d.last().msg.msg_type == m.msg_type);
                assert(count_to(d, t, k) == count_to(d.drop_last(), t, k) + 0);
            } else {
                assert(d == dp);
            }
        }
    }
}

/// The sender of a chat message never gets it back.
pub proof fn lemma_no_echo(h: HubView, s: SessionView, m: Seq<char>)
    requires
        h.wf(),
    ensures
        count_to(
            h.broadcast(s.room, chat_msg(s, m), s.id),
            s.id,
            MessageType::ClientMessage,
        ) == 0,
{
    let ms = members_of(h.rooms, s.room);
    if has_room(h.rooms, s.room) {
        assert(h.rooms[room_index(h.rooms, s.room)].members.no_duplicates());
    }
    lemma_broadcast_reaches_each_once(h.sessions, ms, s.id, chat_msg(s, m), s.id);
}

/// After a state change, each connected member of the room gets the room's
/// user list exactly once, listing the membership after the change.
pub proof fn lemma_user_list_once(h: HubView, room: Seq<char>, t: usize)
    requires
        h.rooms_wf(),
    ensures
        count_to(h.user_list_broadcast(room), t, MessageType::UserList) == (if members_of(
            h.rooms,
            room,
        ).contains(t) && t != 0 && is_session(h.sessions, t) {
            1nat
        } else {
            0nat
        }),
        forall|i: int|
            0 <= i < h.user_list_broadcast(room).len() ==> (#[trigger] h.user_list_broadcast(
                room,
            )[i]).msg.content == join_commas(h.user_list(room)),
{
    let ms = members_of(h.rooms, room);
    if has_room(h.rooms, room) {
        assert(h.rooms[room_index(h.rooms, room)].members.no_duplicates());
    }
    let m = server_msg(
        MessageType::UserList,
        join_commas(h.user_list(room)),
    );
    lemma_broadcast_reaches_each_once(h.sessions, ms, 0, m, t);
}

/// After a change to the game registry, each connected member of the lobby
/// or of the room of running games gets exactly one list of open games and
/// one list of all games, both as the registry stands after the change.
pub proof fn lemma_game_lists_once(h: HubView, t: usize)
    requires
        h.rooms_wf(),
        t != 0,
        is_session(h.sessions, t),
        members_of(h.rooms, "lobby"@).contains(t) || members_of(h.rooms, "in_game"@).contains(t),
    ensures
        count_to(h.game_lists_broadcast(), t, MessageType::AvailableGameList) == 1,
        count_to(h.game_lists_broadcast(), t, MessageType::AllGameList) == 1,
{
    reveal_strlit("lobby");
    reveal_strlit("in_game");
    let lobby = members_of(h.rooms, "lobby"@);
    let in_game = members_of(h.rooms, "in_game"@);
    if has_room(h.rooms, "lobby"@) {
        assert(h.rooms[room_index(h.rooms, "lobby"@)].members.no_duplicates());
    }
    if has_room(h.rooms, "in_game"@) {
        assert(h.rooms[room_index(h.rooms, "in_game"@)].members.no_duplicates());
    }
    assert(!(lobby.contains(t) && in_game.contains(t))) by {
        if lobby.contains(t) && in_game.contains(t) {
            assert(has_room(h.rooms, "lobby"@));
            assert(has_room(h.rooms, "in_game"@));
            let a = room_index(h.rooms, "lobby"@);
            let b = room_index(h.rooms, "in_game"@);
            assert(h.rooms[a].name == "lobby"@);
            assert(h.rooms[b].name == "in_game"@);
            assert(h.rooms[a].members.contains(t) && h.rooms[b].members.contains(t));
            assert(a == b);
            assert("lobby"@.len() != "in_game"@.len());
        }
    }
    let am = h.available_msg();
    let gm = h.all_games_msg();
    let b1 = h.broadcast("lobby"@, am, 0);
    let b2 = h.broadcast("lobby"@, gm, 0);
    let b3 = h.broadcast("in_game"@, am, 0);
    let b4 = h.broadcast("in_game"@, gm, 0);
    lemma_broadcast_reaches_each_once(h.sessions, lobby, 0, am, t);
    lemma_broadcast_reaches_each_once(h.sessions, lobby, 0, gm, t);
    lemma_broadcast_reaches_each_once(h.sessions, in_game, 0, am, t);
    lemma_broadcast_reaches_each_once(h.sessions, in_game, 0, gm, t);
    lemma_count_concat(b1, b2, t, MessageType::AvailableGameList);
    lemma_count_concat(b1 + b2, b3, t, MessageType::AvailableGameList);
    lemma_count_concat(b1 + b2 + b3, b4, t, MessageType::AvailableGameList);
    lemma_count_concat(b1, b2, t, MessageType::AllGameList);
    lemma_count_concat(b1 + b2, b3, t, MessageType::AllGameList);
    lemma_count_concat(b1 + b2 + b3, b4, t, MessageType::AllGameList);
}

/// In the registry a game with both seats filled has started, and one not
/// started holds its creator alone.
pub proof fn lemma_two_seats_started(gs: Seq<GameView>, i: int)
    requires
        games_wf(gs),
        0 <= i < gs.len(),
    ensures
        (gs[i].white.is_some() && gs[i].black.is_some()) ==> gs[i].started,
        !gs[i].started ==> gs[i].white.is_some() && gs[i].black.is_none(),
{
    assert(gs[i].wf());
}

/// Joining a game that waits for an opponent fills both seats and starts it.
pub proof fn lemma_join_starts_game(gs: Seq<GameView>, id: Seq<char>, s: usize)
    requires
        games_wf(gs),
        has_game(gs, id),
        !game_of(gs, id).started,
    ensures
        has_game(games_after_join(gs, id, s), id),
        game_of(games_after_join(gs, id, s), id).started,
        game_of(games_after_join(gs, id, s), id).white.is_some(),
        game_of(games_after_join(gs, id, s), id).black == Some(s),
{
    let k = game_index(gs, id);
    let r = games_after_join(gs, id, s);
    assert(gs[k].wf());
    assert(r[k].id == id);
    let k2 = game_index(r, id);
    assert(r[k2].id == id);
    assert(gs[k2].id == id);
    assert(k2 == k);
}

/// A game whose last player leaves is gone from the registry.
pub proof fn lemma_empty_game_removed(gs: Seq<GameView>, id: Seq<char>, s: usize)
    requires
        games_wf(gs),
        has_game(gs, id),
        game_of(gs, id).without(s).players() == 0,
    ensures
        !has_game(games_after_leave(gs, id, s), id),
{
    let k = game_index(gs, id);
    let r = games_after_leave(gs, id, s);
    if has_game(r, id) {
        let j = choose|j: int| 0 <= j < r.len() && r[j].id == id;
        let j1 = if j < k { j } else { j + 1 };
        assert(gs[j1].id == id);
        assert(gs[k].id == id);
    }
}

/// Whether `k` is one of the two kinds that announce the game lists.
pub open spec fn is_game_list(k: MessageType) -> bool {
    k == MessageType::AvailableGameList || k == MessageType::AllGameList
}

/// A broadcast carries only the kind of its message.
proof fn lemma_deliver_other_kind(ss: Seq<SessV>, ms: Seq<usize>, skip: usize, m: MessageView, t: usize, k: MessageType)
    requires
        m.msg_type != k,
    ensures
        count_to(deliver(ss, ms, skip, m), t, k) == 0,
    decreases ms.len(),
{
    if ms.len() > 0 {
        lemma_deliver_other_kind(ss, ms.drop_last(), skip, m, t, k);
        let d = deliver(ss, ms, skip, m);
        if ms.last() != skip && is_session(ss, ms.last()) {
            assert(d.drop_last() =~= deliver(ss, ms.drop_last(), skip, m));
        }
    }
}

/// A broadcast to a room carries only the kind of its message.
proof fn lemma_broadcast_other_kind(h: HubView, room: Seq<char>, m: MessageView, skip: usize, t: usize, k: MessageType)
    requires
        m.msg_type != k,
    ensures
        count_to(h.broadcast(room, m, skip), t, k) == 0,
{
    lemma_deliver_other_kind(h.sessions, members_of(h.rooms, room), skip, m, t, k);
}

/// A message to one session carries only its own kind.
proof fn lemma_send_other_kind(h: HubView, to: usize, m: MessageView, t: usize, k: MessageType)
    requires
        m.msg_type != k,
    ensures
        count_to(h.send_to(to, m), t, k) == 0,
{
    let d = h.send_to(to, m);
    if d.len() > 0 {
        assert(d.len() == 1);
        assert(d.drop_last() =~= Seq::<DeliveryView>::empty());
        assert(count_to(d.drop_last(), t, k) == 0);
        assert(d.last().msg.msg_type == m.msg_type);
    } else {
        assert(d =~= Seq::<DeliveryView>::empty());
    }
}

/// Leaving a room announces no game list.
proof fn lemma_leave_rooms_no_game_list(h: HubView, s: usize, nick: Seq<char>, t: usize, k: MessageType)
    requires
        is_game_list(k),
    ensures
        count_to(h.leave_all_rooms(s, nick).1, t, k) == 0,
{
    if in_some_room(h.rooms, s) {
        let i = room_holding(h.rooms, s);
        let name = h.rooms[i].name;
        let r = h.leave_room(i, s, nick);
        let h1 = r.0;
        let o1 = if name != "lobby"@ {
            h.broadcast(name, server_msg(MessageType::Status, left_text(nick, name)), s)
        } else {
            Seq::empty()
        };
        if name != "lobby"@ {
            lemma_broadcast_other_kind(h, name, server_msg(MessageType::Status, left_text(nick, name)), s, t, k);
        }
        lemma_broadcast_other_kind(h1, name, server_msg(MessageType::UserList, join_commas(h1.user_list(name))), 0, t, k);
        lemma_count_concat(o1, h1.user_list_broadcast(name), t, k);
    }
}

/// Entering a room announces no game list.
proof fn lemma_enter_room_no_game_list(h: HubView, name: Seq<char>, s: usize, nick: Seq<char>, t: usize, k: MessageType)
    requires
        is_game_list(k),
    ensures
        count_to(h.enter_room(name, s, nick).1, t, k) == 0,
{
    let h1 = h.enter_room(name, s, nick).0;
    let greet = h1.send_to(s, server_msg(MessageType::Status, joined_you_text(name)));
    let notice = h1.broadcast(name, server_msg(MessageType::Status, joined_text(nick, name)), s);
    lemma_send_other_kind(h1, s, server_msg(MessageType::Status, joined_you_text(name)), t, k);
    lemma_broadcast_other_kind(h1, name, server_msg(MessageType::Status, joined_text(nick, name)), s, t, k);
    lemma_count_concat(greet, notice, t, k);
    let o: Seq<DeliveryView> = if name != "lobby"@ { greet + notice } else { Seq::empty() };
    lemma_broadcast_other_kind(h1, name, server_msg(MessageType::UserList, join_commas(h1.user_list(name))), 0, t, k);
    lemma_count_concat(o, h1.user_list_broadcast(name), t, k);
}

/// A session that sits in no game announces no game list by changing rooms.
proof fn lemma_join_room_no_game_list(h: HubView, name: Seq<char>, s: usize, nick: Seq<char>, t: usize, k: MessageType)
    requires
        is_game_list(k),
        !seated(h.games, s),
    ensures
        count_to(h.join_room(name, s, nick).1, t, k) == 0,
{
    let (h1, o1) = h.leave_all_rooms(s, nick);
    assert(h1.games == h.games);
    let (h2, o2) = h1.leave_all_games(s);
    assert(o2 =~= Seq::<DeliveryView>::empty());
    let (h3, o3) = h2.enter_room(name, s, nick);
    lemma_leave_rooms_no_game_list(h, s, nick, t, k);
    lemma_enter_room_no_game_list(h2, name, s, nick, t, k);
    lemma_count_concat(o1, o2, t, k);
    lemma_count_concat(o1 + o2, o3, t, k);
}

/// Deleting a game sends each connected watcher of the lobby or of the room
/// of running games one list of open games and one of all games.
pub proof fn lemma_delete_game_lists_once(h: HubView, gid: Seq<char>, t: usize)
    requires
        h.rooms_wf(),
        t != 0,
        is_session(h.sessions, t),
        members_of(h.rooms, "lobby"@).contains(t) || members_of(h.rooms, "in_game"@).contains(t),
    ensures
        count_to(h.delete_game(gid).1, t, MessageType::AvailableGameList) == 1,
        count_to(h.delete_game(gid).1, t, MessageType::AllGameList) == 1,
{
    lemma_game_lists_once(h.delete_game(gid).0, t);
}

/// Leaving a game sends each connected watcher one list of open games and
/// one of all games.
pub proof fn lemma_leave_game_lists_once(h: HubView, gid: Seq<char>, s: usize, t: usize)
    requires
        h.rooms_wf(),
        t != 0,
        is_session(h.sessions, t),
        members_of(h.rooms, "lobby"@).contains(t) || members_of(h.rooms, "in_game"@).contains(t),
    ensures
        count_to(h.leave_game(gid, s).1, t, MessageType::AvailableGameList) == 1,
        count_to(h.leave_game(gid, s).1, t, MessageType::AllGameList) == 1,
{
    let (h1, o) = h.leave_game(gid, s);
    let opp = opponent_in(h.games, gid, s);
    let m = server_msg(MessageType::Status, "Opponent has left the game"@);
    lemma_game_lists_once(h1, t);
    lemma_send_other_kind(h1, opp, m, t, MessageType::AvailableGameList);
    lemma_send_other_kind(h1, opp, m, t, MessageType::AllGameList);
    lemma_count_concat(h1.send_to(opp, m), h1.game_lists_broadcast(), t, MessageType::AvailableGameList);
    lemma_count_concat(h1.send_to(opp, m), h1.game_lists_broadcast(), t, MessageType::AllGameList);
}

/// Joining a game, for a session that sat in no game, sends each connected
/// watcher after the change one list of open games and one of all games.
pub proof fn lemma_join_game_lists_once(h: HubView, s: usize, gid: Seq<char>, nick: Seq<char>, t: usize)
    requires
        !seated(h.games, s),
        h.join_game(s, gid, nick).0.rooms_wf(),
        t != 0,
        is_session(h.join_game(s, gid, nick).0.sessions, t),
        members_of(h.join_game(s, gid, nick).0.rooms, "lobby"@).contains(t)
            || members_of(h.join_game(s, gid, nick).0.rooms, "in_game"@).contains(t),
    ensures
        count_to(h.join_game(s, gid, nick).1, t, MessageType::AvailableGameList) == 1,
        count_to(h.join_game(s, gid, nick).1, t, MessageType::AllGameList) == 1,
{
    let (h1, o1) = h.join_room("lobby"@, s, nick);
    let h2 = h.join_game(s, gid, nick).0;
    let opp = opponent_in(h2.games, gid, s);
    let m = server_msg(MessageType::Status, "Opponent joined the game"@);
    let sent = h2.send_to(opp, m);
    lemma_game_lists_once(h2, t);
    lemma_join_room_no_game_list(h, "lobby"@, s, nick, t, MessageType::AvailableGameList);
    lemma_join_room_no_game_list(h, "lobby"@, s, nick, t, MessageType::AllGameList);
    lemma_send_other_kind(h2, opp, m, t, MessageType::AvailableGameList);
    lemma_send_other_kind(h2, opp, m, t, MessageType::AllGameList);
    lemma_count_concat(o1, sent, t, MessageType::AvailableGameList);
    lemma_count_concat(o1 + sent, h2.game_lists_broadcast(), t, MessageType::AvailableGameList);
    lemma_count_concat(o1, sent, t, MessageType::AllGameList);
    lemma_count_concat(o1 + sent, h2.game_lists_broadcast(), t, MessageType::AllGameList);
}

/// Creating a game, for a session that sat in no game, sends each connected
/// watcher after the change one list of open games and one of all games.
pub proof fn lemma_new_game_lists_once(h: HubView, s: usize, nick: Seq<char>, t: usize)
    requires
        !seated(h.games, s),
        h.new_game(s, nick).0.rooms_wf(),
        t != 0,
        is_session(h.new_game(s, nick).0.sessions, t),
        members_of(h.new_game(s, nick).0.rooms, "lobby"@).contains(t)
            || members_of(h.new_game(s, nick).0.rooms, "in_game"@).contains(t),
    ensures
        count_to(h.new_game(s, nick).1, t, MessageType::AvailableGameList) == 1,
        count_to(h.new_game(s, nick).1, t, MessageType::AllGameList) == 1,
{
    let (h1, o1) = h.leave_all_rooms(s, nick);
    assert(h1.games == h.games);
    let (h2, o2) = h1.join_room("in_game"@, s, nick);
    let h3 = h.new_game(s, nick).0;
    lemma_game_lists_once(h3, t);
    lemma_leave_rooms_no_game_list(h, s, nick, t, MessageType::AvailableGameList);
    lemma_leave_rooms_no_game_list(h, s, nick, t, MessageType::AllGameList);
    lemma_join_room_no_game_list(h1, "in_game"@, s, nick, t, MessageType::AvailableGameList);
    lemma_join_room_no_game_list(h1, "in_game"@, s, nick, t, MessageType::AllGameList);
    lemma_count_concat(o1, o2, t, MessageType::AvailableGameList);
    lemma_count_concat(o1 + o2, h3.game_lists_broadcast(), t, MessageType::AvailableGameList);
    lemma_count_concat(o1, o2, t, MessageType::AllGameList);
    lemma_count_concat(o1 + o2, h3.game_lists_broadcast(), t, MessageType::AllGameList);
}

/// Leaving a game announces no user list.
proof fn lemma_leave_games_no_user_list(h: HubView, s: usize, t: usize)
    ensures
        count_to(h.leave_all_games(s).1, t, MessageType::UserList) == 0,
{
    if seated(h.games, s) {
        let gid = h.games[seat_game(h.games, s)].id;
        let (h1, o) = h.leave_game(gid, s);
        let opp = opponent_in(h.games, gid, s);
        let m = server_msg(MessageType::Status, "Opponent has left the game"@);
        lemma_send_other_kind(h1, opp, m, t, MessageType::UserList);
        let am = h1.available_msg();
        let gm = h1.all_games_msg();
        let b1 = h1.broadcast("lobby"@, am, 0);
        let b2 = h1.broadcast("lobby"@, gm, 0);
        let b3 = h1.broadcast("in_game"@, am, 0);
        let b4 = h1.broadcast("in_game"@, gm, 0);
        lemma_broadcast_other_kind(h1, "lobby"@, am, 0, t, MessageType::UserList);
        lemma_broadcast_other_kind(h1, "lobby"@, gm, 0, t, MessageType::UserList);
        lemma_broadcast_other_kind(h1, "in_game"@, am, 0, t, MessageType::UserList);
        lemma_broadcast_other_kind(h1, "in_game"@, gm, 0, t, MessageType::UserList);
        lemma_count_concat(b1, b2, t, MessageType::UserList);
        lemma_count_concat(b1 + b2, b3, t, MessageType::UserList);
        lemma_count_concat(b1 + b2 + b3, b4, t, MessageType::UserList);
        lemma_count_concat(h1.send_to(opp, m), h1.game_lists_broadcast(), t, MessageType::UserList);
    }
}

/// When a session moves into room `name` from another room or from none,
/// each connected member of `name` after the move gets the room's user list
/// exactly once from the whole operation.
pub proof fn lemma_join_room_user_list_once(h: HubView, name: Seq<char>, s: usize, nick: Seq<char>, t: usize)
    requires
        h.rooms_wf(),
        h.join_room(name, s, nick).0.rooms_wf(),
        in_some_room(h.rooms, s) ==> h.rooms[room_holding(h.rooms, s)].name != name,
        t != 0,
        is_session(h.join_room(name, s, nick).0.sessions, t),
        members_of(h.join_room(name, s, nick).0.rooms, name).contains(t),
    ensures
        count_to(h.join_room(name, s, nick).1, t, MessageType::UserList) == 1,
{
    let (h1, o1) = h.leave_all_rooms(s, nick);
    let (h2, o2) = h1.leave_all_games(s);
    let (h3, o3) = h2.enter_room(name, s, nick);
    assert(h2.rooms == h1.rooms);
    assert(h3.sessions == h.sessions);
    lemma_leave_games_no_user_list(h1, s, t);
    // the new room's list reaches t once
    lemma_user_list_once(h3, name, t);
    let greet = h3.send_to(s, server_msg(MessageType::Status, joined_you_text(name)));
    let notice = h3.broadcast(name, server_msg(MessageType::Status, joined_text(nick, name)), s);
    lemma_send_other_kind(h3, s, server_msg(MessageType::Status, joined_you_text(name)), t, MessageType::UserList);
    lemma_broadcast_other_kind(h3, name, server_msg(MessageType::Status, joined_text(nick, name)), s, t, MessageType::UserList);
    lemma_count_concat(greet, notice, t, MessageType::UserList);
    let pre: Seq<DeliveryView> = if name != "lobby"@ { greet + notice } else { Seq::empty() };
    lemma_count_concat(pre, h3.user_list_broadcast(name), t, MessageType::UserList);
    // the old room's list does not reach t
    if in_some_room(h.rooms, s) {
        let i = room_holding(h.rooms, s);
        let a = h.rooms[i].name;
        let left = if a != "lobby"@ {
            h.broadcast(a, server_msg(MessageType::Status, left_text(nick, a)), s)
        } else {
            Seq::empty()
        };
        if a != "lobby"@ {
            lemma_broadcast_other_kind(h, a, server_msg(MessageType::Status, left_text(nick, a)), s, t, MessageType::UserList);
        }
        let ms = h.rooms[i].members;
        assert(ms.no_duplicates());
        lemma_remove_unique(ms, s, ms.index_of(s));
        assert(h1.rooms == rooms_without(h.rooms, i, s));
        assert(forall|j: int| 0 <= j < h1.rooms.len() ==> #[trigger] h1.rooms[j].name == h.rooms[j].name);
        assert(room_index(h1.rooms, a) == i) by {
            assert(h1.rooms[i].name == a);
            let q = room_index(h1.rooms, a);
            assert(h.rooms[q].name == a);
        }
        assert(!members_of(h1.rooms, a).contains(t)) by {
            if members_of(h1.rooms, a).contains(t) {
                assert(h1.rooms[i].members.contains(t));
                assert(t != s);
                assert(h.rooms[i].members.contains(t));
                // t is also in the destination room before the move
                let k3 = room_index(h3.rooms, name);
                assert(has_room(h3.rooms, name));
                assert(h3.rooms[k3].name == name);
                assert(h3.rooms[k3].members.contains(t));
                if has_room(h1.rooms, name) {
                    let k = room_index(h1.rooms, name);
                    assert(h3.rooms[k].name == name);
                    assert(k3 == k);
                    let x = choose|x: int| 0 <= x < h3.rooms[k].members.len() && h3.rooms[k].members[x] == t;
                    assert(x < h1.rooms[k].members.len());
                    assert(h1.rooms[k].members.contains(t));
                    if k != i {
                        assert(h.rooms[k].members.contains(t));
                    }
                    assert(h.rooms[k].name == name);
                } else {
                    let k = h1.rooms.len() as int;
                    assert(h3.rooms[k].name == name);
                    assert(k3 == k);
                    assert(h3.rooms[k].members =~= seq![s]);
                }
            }
        }
        let l = server_msg(MessageType::UserList, join_commas(h1.user_list(a)));
        assert(members_of(h1.rooms, a) == h1.rooms[i].members);
        lemma_broadcast_reaches_each_once(h1.sessions, members_of(h1.rooms, a), 0, l, t);
        lemma_count_concat(left, h1.user_list_broadcast(a), t, MessageType::UserList);
    }
    lemma_count_concat(o1, o2, t, MessageType::UserList);
    lemma_count_concat(o1 + o2, o3, t, MessageType::UserList);
}

} // verus!
