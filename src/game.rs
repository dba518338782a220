use vstd::prelude::*;

verus! {

/// A two-seat game: the creator sits at white, the joiner at black.
#[derive(Clone, Debug)]
pub struct SessionGame {
    game_id: String,
    white: Option<usize>,
    black: Option<usize>,
    started: bool,
}

/// The mathematical value of a [`SessionGame`].
pub struct GameView {
    pub id: Seq<char>,
    pub white: Option<usize>,
    pub black: Option<usize>,
    pub started: bool,
}

impl View for SessionGame {
    type V = GameView;

    closed spec fn view(&self) -> GameView {
        GameView { id: self.game_id@, white: self.white, black: self.black, started: self.started }
    }
}

/// The id in a seat, 0 for an empty one.
pub open spec fn seat_id(seat: Option<usize>) -> usize {
    match seat {
        Some(id) => id,
        None => 0,
    }
}

impl GameView {
    /// Number of filled seats.
    pub open spec fn players(self) -> int {
        (if self.white.is_some() { 1int } else { 0int }) + (if self.black.is_some() { 1int } else { 0int })
    }

    /// Whether the session sits at one of the seats.
    pub open spec fn seats(self, s: usize) -> bool {
        self.white == Some(s) || self.black == Some(s)
    }

    /// The other seat's id, or 0 where `s` does not sit in this game.
    pub open spec fn opponent(self, s: usize) -> usize {
        if self.white == Some(s) {
            seat_id(self.black)
        } else if self.black == Some(s) {
            seat_id(self.white)
        } else {
            0
        }
    }

    /// The game after `s` gives up whichever seats it holds.
    pub open spec fn without(self, s: usize) -> GameView {
        GameView {
            white: if self.white == Some(s) { None } else { self.white },
            black: if self.black == Some(s) { None } else { self.black },
            ..self
        }
    }

    /// The game after `b` takes the black seat.
    pub open spec fn with_black(self, b: usize) -> GameView {
        GameView { black: Some(b), started: self.started || self.white.is_some(), ..self }
    }

    /// A game as the registry holds it: never empty, both seats filled only
    /// once started, and one not yet started holds just its creator.
    pub open spec fn wf(self) -> bool {
        &&& self.players() >= 1
        &&& (self.white.is_some() && self.black.is_some()) ==> self.started
        &&& !self.started ==> (self.white.is_some() && self.black.is_none())
    }
}

impl SessionGame {
    /// A game created by `white_session_id`, waiting for an opponent.
    pub fn new(game_id: String, white_session_id: usize) -> (g: SessionGame)
        ensures
            g@ == (GameView { id: game_id@, white: Some(white_session_id), black: None, started: false }),
    {
        SessionGame { game_id, white: Some(white_session_id), black: None, started: false }
    }

    /// Seats `black` at black; the game starts once both seats are filled.
    pub fn join_game(&mut self, black: usize)
        ensures
            final(self)@ == old(self)@.with_black(black),
    {
        self.black = Some(black);
        if self.num_players() == 2 {
            self.started = true;
        }
    }

    /// Frees whichever seat `session_id` holds; `started` stays as it was.
    pub fn leave_game(&mut self, session_id: usize)
        ensures
            final(self)@ == old(self)@.without(session_id),
    {
        if self.black == Some(session_id) {
            self.black = None;
        }
        if self.white == Some(session_id) {
            self.white = None;
        }
    }

    /// Number of filled seats.
    pub fn num_players(&self) -> (n: i8)
        ensures
            n as int == self@.players(),
    {
        let mut num: i8 = 0;
        if self.white.is_some() {
            num += 1;
        }
        if self.black.is_some() {
            num += 1;
        }
        num
    }

    /// The id in the other seat, or 0 where `session_id` is not seated here.
    pub fn opponent_id(&self, session_id: usize) -> (r: usize)
        ensures
            r == self@.opponent(session_id),
    {
        if self.white == Some(session_id) {
            return self.black_id();
        }
        if self.black == Some(session_id) {
            return self.white_id();
        }
        0
    }

    /// A game can be joined until it has started.
    pub fn is_joinable(&self) -> (r: bool)
        ensures
            r == !self@.started,
    {
        !self.started
    }

    /// Id at the black seat, 0 when empty.
    pub fn black_id(&self) -> (r: usize)
        ensures
            r == seat_id(self@.black),
    {
        match self.black {
            Some(id) => id,
            None => 0,
        }
    }

    /// Id at the white seat, 0 when empty.
    pub fn white_id(&self) -> (r: usize)
        ensures
            r == seat_id(self@.white),
    {
        match self.white {
            Some(id) => id,
            None => 0,
        }
    }

    /// A copy of this game, field for field.
    fn duplicate(&self) -> (g: SessionGame)
        ensures
            g@ == self@,
    {
        SessionGame {
            game_id: self.game_id.clone(),
            white: self.white,
            black: self.black,
            started: self.started,
        }
    }

    /// The game's name.
    pub fn game_id(&self) -> (r: &String)
        ensures
            r@ == self@.id,
    {
        &self.game_id
    }

    /// Whether the game has started.
    pub fn started(&self) -> (r: bool)
        ensures
            r == self@.started,
    {
        self.started
    }
}

/// Whether a game of that name is in the registry.
pub open spec fn has_game(gs: Seq<GameView>, id: Seq<char>) -> bool {
    exists|i: int| 0 <= i < gs.len() && gs[i].id == id
}

/// Where the game of that name stands in the registry.
pub open spec fn game_index(gs: Seq<GameView>, id: Seq<char>) -> int {
    choose|i: int| 0 <= i < gs.len() && gs[i].id == id
}

/// The registry's record of the game of that name.
pub open spec fn game_of(gs: Seq<GameView>, id: Seq<char>) -> GameView {
    gs[game_index(gs, id)]
}

/// Names are unique and every record is well formed.
pub open spec fn games_wf(gs: Seq<GameView>) -> bool {
    &&& forall|i: int, j: int| 0 <= i < gs.len() && 0 <= j < gs.len() && gs[i].id == gs[j].id ==> i == j
    &&& forall|i: int| 0 <= i < gs.len() ==> #[trigger] gs[i].wf()
}

/// The registry after a new record for `id` created by `s`: an earlier
/// record of that name is replaced in place, otherwise it is appended.
pub open spec fn games_after_new(gs: Seq<GameView>, id: Seq<char>, s: usize) -> Seq<GameView> {
    let g = GameView { id, white: Some(s), black: None, started: false };
    if has_game(gs, id) {
        gs.update(game_index(gs, id), g)
    } else {
        gs.push(g)
    }
}

/// The registry after `s` asks to join `id`: it takes the black seat only
/// where the game exists and has not started.
pub open spec fn games_after_join(gs: Seq<GameView>, id: Seq<char>, s: usize) -> Seq<GameView> {
    if has_game(gs, id) && !game_of(gs, id).started {
        gs.update(game_index(gs, id), game_of(gs, id).with_black(s))
    } else {
        gs
    }
}

/// The registry after `s` leaves `id`; a game left empty is removed.
pub open spec fn games_after_leave(gs: Seq<GameView>, id: Seq<char>, s: usize) -> Seq<GameView> {
    if has_game(gs, id) {
        let g = game_of(gs, id).without(s);
        if g.players() == 0 {
            gs.remove(game_index(gs, id))
        } else {
            gs.update(game_index(gs, id), g)
        }
    } else {
        gs
    }
}

/// The registry without the game of that name.
pub open spec fn games_after_delete(gs: Seq<GameView>, id: Seq<char>) -> Seq<GameView> {
    if has_game(gs, id) {
        gs.remove(game_index(gs, id))
    } else {
        gs
    }
}

/// The opponent of `s` in game `id`, 0 where either is unknown.
pub open spec fn opponent_in(gs: Seq<GameView>, id: Seq<char>, s: usize) -> usize {
    if has_game(gs, id) {
        game_of(gs, id).opponent(s)
    } else {
        0
    }
}

/// Whether some game seats `s`.
pub open spec fn seated(gs: Seq<GameView>, s: usize) -> bool {
    exists|i: int| 0 <= i < gs.len() && gs[i].seats(s)
}

/// The game that seats `s`.
pub open spec fn seat_game(gs: Seq<GameView>, s: usize) -> int {
    choose|i: int| 0 <= i < gs.len() && gs[i].seats(s)
}

/// No session sits in two games.
pub open spec fn seats_unique(gs: Seq<GameView>) -> bool {
    forall|i: int, j: int, s: usize|
        0 <= i < gs.len() && 0 <= j < gs.len() && (#[trigger] gs[i].seats(s)) && (
        #[trigger] gs[j].seats(s)) ==> i == j
}

/// Leaving a game seats nobody anew.
pub proof fn lemma_leave_keeps_seats_unique(gs: Seq<GameView>, id: Seq<char>, s: usize)
    requires
        games_wf(gs),
        seats_unique(gs),
    ensures
        seats_unique(games_after_leave(gs, id, s)),
        !seated(gs, s) ==> !seated(games_after_leave(gs, id, s), s),
        seated(gs, s) && id == gs[seat_game(gs, s)].id ==> !seated(games_after_leave(gs, id, s), s),
{
    let r = games_after_leave(gs, id, s);
    if has_game(gs, id) {
        let k = game_index(gs, id);
        let g = game_of(gs, id).without(s);
        if g.players() == 0 {
            assert forall|a: int| 0 <= a < r.len() implies r[a] == gs[if a < k { a } else { a + 1 }] by {}
        } else {
            assert forall|a: int| 0 <= a < r.len() && a != k implies r[a] == gs[a] by {}
        }
        assert forall|a: int, b: int, x: usize|
            0 <= a < r.len() && 0 <= b < r.len() && #[trigger] r[a].seats(x) && #[trigger] r[b].seats(x)
                implies a == b by {
            if g.players() == 0 {
                let a1 = if a < k { a } else { a + 1 };
                let b1 = if b < k { b } else { b + 1 };
                assert(gs[a1].seats(x) && gs[b1].seats(x));
            } else {
                assert(gs[a].seats(x) && gs[b].seats(x));
            }
        }
        if seated(r, s) {
            let a = choose|a: int| 0 <= a < r.len() && r[a].seats(s);
            let a1 = if g.players() == 0 && a >= k { a + 1 } else { a };
            assert(gs[a1].seats(s));
            if seated(gs, s) && id == gs[seat_game(gs, s)].id {
                let q = seat_game(gs, s);
                assert(gs[q].seats(s));
                assert(gs[k].id == id);
                assert(gs[q].id == gs[k].id);
                assert(q == k);
            }
        }
    }
}

/// Deleting a game seats nobody anew.
pub proof fn lemma_delete_keeps_seats_unique(gs: Seq<GameView>, id: Seq<char>)
    requires
        seats_unique(gs),
    ensures
        seats_unique(games_after_delete(gs, id)),
{
    let r = games_after_delete(gs, id);
    if has_game(gs, id) {
        let k = game_index(gs, id);
        assert forall|a: int, b: int, x: usize|
            0 <= a < r.len() && 0 <= b < r.len() && #[trigger] r[a].seats(x) && #[trigger] r[b].seats(x)
                implies a == b by {
            let a1 = if a < k { a } else { a + 1 };
            let b1 = if b < k { b } else { b + 1 };
            assert(r[a] == gs[a1] && r[b] == gs[b1]);
        }
    }
}

/// Seating a session that sits nowhere keeps seats unique.
pub proof fn lemma_join_keeps_seats_unique(gs: Seq<GameView>, id: Seq<char>, s: usize)
    requires
        seats_unique(gs),
        !seated(gs, s),
    ensures
        seats_unique(games_after_join(gs, id, s)),
{
    let r = games_after_join(gs, id, s);
    assert forall|a: int, b: int, x: usize|
        0 <= a < r.len() && 0 <= b < r.len() && #[trigger] r[a].seats(x) && #[trigger] r[b].seats(x)
            implies a == b by {
        if x == s {
            if a != b {
                if has_game(gs, id) && !game_of(gs, id).started {
                    let k = game_index(gs, id);
                    if a != k {
                        assert(gs[a].seats(s));
                    } else {
                        assert(gs[b].seats(s));
                    }
                } else {
                    assert(gs[a].seats(s));
                }
            }
        } else {
            assert(gs[a].seats(x) && gs[b].seats(x));
        }
    }
}

/// Creating a game for a session that sits nowhere keeps seats unique.
pub proof fn lemma_new_keeps_seats_unique(gs: Seq<GameView>, id: Seq<char>, s: usize)
    requires
        seats_unique(gs),
        !seated(gs, s),
    ensures
        seats_unique(games_after_new(gs, id, s)),
{
    let r = games_after_new(gs, id, s);
    assert forall|a: int, b: int, x: usize|
        0 <= a < r.len() && 0 <= b < r.len() && #[trigger] r[a].seats(x) && #[trigger] r[b].seats(x)
            implies a == b by {
        let k = if has_game(gs, id) { game_index(gs, id) } else { gs.len() as int };
        if a != k && b != k {
            assert(gs[a].seats(x) && gs[b].seats(x));
        } else if a != b {
            if a != k {
                assert(x == s);
                assert(gs[a].seats(s));
            } else {
                assert(x == s);
                assert(gs[b].seats(s));
            }
        }
    }
}

/// Names of the games that can still be joined, in registry order.
pub open spec fn open_ids(gs: Seq<GameView>) -> Seq<Seq<char>>
    decreases gs.len(),
{
    if gs.len() == 0 {
        Seq::empty()
    } else if !gs.last().started {
        open_ids(gs.drop_last()).push(gs.last().id)
    } else {
        open_ids(gs.drop_last())
    }
}

/// Names of all games, in registry order.
pub open spec fn all_ids(gs: Seq<GameView>) -> Seq<Seq<char>> {
    gs.map_values(|g: GameView| g.id)
}

/// The registry of games, keyed by name.
#[derive(Debug)]
pub struct GameManager {
    games: Vec<SessionGame>,
}

impl View for GameManager {
    type V = Seq<GameView>;

    closed spec fn view(&self) -> Seq<GameView> {
        self.games@.map_values(|g: SessionGame| g@)
    }
}

impl GameManager {
    /// Invariant of the registry.
    pub open spec fn wf(&self) -> bool {
        games_wf(self@)
    }

    /// An empty registry.
    pub fn new() -> (m: GameManager)
        ensures
            m.wf(),
            m@ == Seq::<GameView>::empty(),
    {
        GameManager { games: Vec::new() }
    }

    /// Position of the game of that name.
    fn find(&self, game_id: &str) -> (r: Option<usize>)
        requires
            self.wf(),
        ensures
            r is None <==> !has_game(self@, game_id@),
            r matches Some(i) ==> i == game_index(self@, game_id@) && i < self@.len(),
    {
        let key = String::from_str(game_id);
        let mut i: usize = 0;
        while i < self.games.len()
            invariant
                i <= self.games.len(),
                self.wf(),
                key@ == game_id@,
                forall|j: int| 0 <= j < i ==> self@[j].id != game_id@,
            decreases self.games.len() - i,
        {
            if self.games[i].game_id == key {
                proof {
                    assert(self@[i as int].id == game_id@);
                    let k = game_index(self@, game_id@);
                    assert(0 <= k < self@.len() && self@[k].id == game_id@);
                    assert(self@[k].id == self@[i as int].id);
                    assert(k == i as int);
                }
                return Some(i);
            }
            i = i + 1;
        }
        None
    }

    /// Creates the game `username` with `session_id` at white, replacing a
    /// game of the same name.
    pub fn new_game(&mut self, username: &str, session_id: usize)
        requires
            old(self).wf(),
        ensures
            final(self).wf(),
            final(self)@ == games_after_new(old(self)@, username@, session_id),
    {
        let game = SessionGame::new(String::from_str(username), session_id);
        match self.find(username) {
            Some(i) => {
                self.games.set(i, game);
                assert(self@ =~= games_after_new(old(self)@, username@, session_id));
            },
            None => {
                self.games.push(game);
                assert(self@ =~= games_after_new(old(self)@, username@, session_id));
            },
        }
    }

    /// The game of that name.
    pub fn get_game(&self, game_id: &str) -> (r: Option<&SessionGame>)
        requires
            self.wf(),
        ensures
            r is None <==> !has_game(self@, game_id@),
            r matches Some(g) ==> g@ == game_of(self@, game_id@),
    {
        match self.find(game_id) {
            Some(i) => Some(&self.games[i]),
            None => None,
        }
    }

    /// All games, in registry order.
    pub fn get_games(&self) -> (r: &Vec<SessionGame>)
        ensures
            r@.map_values(|g: SessionGame| g@) == self@,
    {
        &self.games
    }

    /// Seats `session_id` at black of `game_id` if that game waits for an
    /// opponent; otherwise nothing changes.
    pub fn join_game(&mut self, game_id: &str, session_id: usize)
        requires
            old(self).wf(),
        ensures
            final(self).wf(),
            final(self)@ == games_after_join(old(self)@, game_id@, session_id),
    {
        match self.find(game_id) {
            Some(i) => {
                if self.games[i].is_joinable() {
                    let mut g = self.games[i].duplicate();
                    g.join_game(session_id);
                    self.games.set(i, g);
                    proof {
                        let gs = old(self)@;
                        assert(self@ =~= gs.update(i as int, gs[i as int].with_black(session_id)));
                        assert(gs[i as int].wf());
                        assert(self@[i as int].wf());
                        assert forall|j: int| 0 <= j < self@.len() implies #[trigger] self@[j].wf() by {
                            if j != i {
                                assert(gs[j].wf());
                            }
                        }
                    }
                }
                assert(self@ =~= games_after_join(old(self)@, game_id@, session_id));
            },
            None => {},
        }
    }

    /// `session_id` gives up its seat in `game_id`; a game left with no
    /// player is removed.
    pub fn leave_game(&mut self, game_id: &str, session_id: usize)
        requires
            old(self).wf(),
        ensures
            final(self).wf(),
            final(self)@ == games_after_leave(old(self)@, game_id@, session_id),
            has_game(old(self)@, game_id@) && game_of(old(self)@, game_id@).without(
                session_id,
            ).players() == 0 ==> !has_game(final(self)@, game_id@),
    {
        match self.find(game_id) {
            Some(i) => {
                let mut g = self.games[i].duplicate();
                g.leave_game(session_id);
                let gs = Ghost(old(self)@);
                if g.num_players() == 0 {
                    self.games.remove(i);
                    proof {
                        assert(self@ =~= gs@.remove(i as int));
                        assert forall|j: int| 0 <= j < self@.len() implies #[trigger] self@[j].wf() by {
                            if j < i { assert(gs@[j].wf()); } else { assert(gs@[j + 1].wf()); }
                        }
                        assert forall|a: int, b: int| 0 <= a < self@.len() && 0 <= b < self@.len()
                            && self@[a].id == self@[b].id implies a == b by {
                            let a1 = if a < i { a } else { a + 1 };
                            let b1 = if b < i { b } else { b + 1 };
                            assert(gs@[a1].id == gs@[b1].id);
                        }
                    }
                } else {
                    self.games.set(i, g);
                    proof {
                        assert(self@ =~= gs@.update(i as int, gs@[i as int].without(session_id)));
                        assert(gs@[i as int].wf());
                        assert forall|j: int| 0 <= j < self@.len() implies #[trigger] self@[j].wf() by {
                            if j != i { assert(gs@[j].wf()); }
                        }
                    }
                }
                assert(self@ =~= games_after_leave(old(self)@, game_id@, session_id));
            },
            None => {},
        }
    }

    /// The id seated opposite `session_id` in `game_id`, or 0.
    pub fn opponent_id(&self, game_id: &str, session_id: usize) -> (r: usize)
        requires
            self.wf(),
        ensures
            r == opponent_in(self@, game_id@, session_id),
    {
        match self.find(game_id) {
            Some(i) => self.games[i].opponent_id(session_id),
            None => 0,
        }
    }

    /// Removes the game of that name, whoever still sits in it.
    pub fn delete_game(&mut self, game_id: &str)
        requires
            old(self).wf(),
        ensures
            final(self).wf(),
            final(self)@ == games_after_delete(old(self)@, game_id@),
    {
        match self.find(game_id) {
            Some(i) => {
                let gs = Ghost(old(self)@);
                self.games.remove(i);
                proof {
                    assert(self@ =~= gs@.remove(i as int));
                    assert forall|j: int| 0 <= j < self@.len() implies #[trigger] self@[j].wf() by {
                        if j < i { assert(gs@[j].wf()); } else { assert(gs@[j + 1].wf()); }
                    }
                    assert forall|a: int, b: int| 0 <= a < self@.len() && 0 <= b < self@.len()
                        && self@[a].id == self@[b].id implies a == b by {
                        let a1 = if a < i { a } else { a + 1 };
                        let b1 = if b < i { b } else { b + 1 };
                        assert(gs@[a1].id == gs@[b1].id);
                    }
                }
            },
            None => {},
        }
    }

    /// Names of the games that wait for an opponent.
    pub fn available_games(&self) -> (r: Vec<String>)
        ensures
            r.deep_view() == open_ids(self@),
    {
        let mut r: Vec<String> = Vec::new();
        let mut i: usize = 0;
        while i < self.games.len()
            invariant
                i <= self.games.len(),
                r.deep_view() == open_ids(self@.take(i as int)),
            decreases self.games.len() - i,
        {
            proof {
                assert(self@.take(i as int + 1).drop_last() =~= self@.take(i as int));
            }
            if self.games[i].is_joinable() {
                r.push(self.games[i].game_id.clone());
                proof {
                    assert(r.deep_view() =~= open_ids(self@.take(i as int)).push(self@[i as int].id));
                }
            }
            i = i + 1;
        }
        assert(self@.take(i as int) =~= self@);
        r
    }

    /// Names of all games.
    pub fn all_games(&self) -> (r: Vec<String>)
        ensures
            r.deep_view() == all_ids(self@),
    {
        let mut r: Vec<String> = Vec::new();
        let mut i: usize = 0;
        while i < self.games.len()
            invariant
                i <= self.games.len(),
                r.deep_view() =~= all_ids(self@.take(i as int)),
            decreases self.games.len() - i,
        {
            let ghost prev = r.deep_view();
            r.push(self.games[i].game_id.clone());
            proof {
                assert(r.deep_view() =~= prev.push(self@[i as int].id));
                assert(r.deep_view() =~= all_ids(self@.take(i as int + 1)));
            }
            i = i + 1;
        }
        assert(self@.take(i as int) =~= self@);
        r
    }

    /// Name of the first game that seats `session_id`.
    pub fn seat_of(&self, session_id: usize) -> (r: Option<String>)
        ensures
            r is None <==> !seated(self@, session_id),
            r matches Some(id) ==> exists|i: int|
                0 <= i < self@.len() && self@[i].seats(session_id) && self@[i].id == id@,
    {
        let mut i: usize = 0;
        while i < self.games.len()
            invariant
                i <= self.games.len(),
                forall|j: int| 0 <= j < i ==> !self@[j].seats(session_id),
            decreases self.games.len() - i,
        {
            if self.games[i].white == Some(session_id) || self.games[i].black == Some(session_id) {
                assert(self@[i as int].seats(session_id));
                return Some(self.games[i].game_id.clone());
            }
            i = i + 1;
        }
        None
    }
}

} // verus!
