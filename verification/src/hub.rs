//! Which connection plays which side of which game. A player that connects
//! again replaces its own earlier connection, and a connection that closes
//! removes only itself.
use vstd::prelude::*;
use crate::protocol::{ServerMessage, Side};
use crate::server::{error_message, is_error_message, text_equals};

verus! {

/// One player's connection to a game.
#[derive(Clone, Debug, PartialEq, Eq)]
pub struct Seat {
    pub game_id: String,
    pub side: Side,
    pub connection_id: u128,
}

pub open spec fn seat_key(s: Seat) -> (Seq<char>, Side) {
    (s.game_id@, s.side)
}

/// The connection of each seated (game, side).
pub open spec fn seats_map(seats: Seq<Seat>) -> Map<(Seq<char>, Side), u128>
    decreases seats.len(),
{
    if seats.len() == 0 {
        Map::empty()
    } else {
        seats_map(seats.drop_last()).insert(seat_key(seats.last()), seats.last().connection_id)
    }
}

pub open spec fn keys_unique(seats: Seq<Seat>) -> bool {
    forall|i: int, j: int| 0 <= i < j < seats.len() ==> seat_key(#[trigger] seats[i]) != seat_key(#[trigger] seats[j])
}

proof fn lemma_seats_map_lookup(seats: Seq<Seat>, k: (Seq<char>, Side))
    requires
        keys_unique(seats),
    ensures
        seats_map(seats).contains_key(k) <==> exists|i: int| 0 <= i < seats.len() && seat_key(#[trigger] seats[i]) == k,
        forall|i: int| 0 <= i < seats.len() && seat_key(#[trigger] seats[i]) == k ==> seats_map(seats)[k]
            == seats[i].connection_id,
    decreases seats.len(),
{
    if seats.len() > 0 {
        let rest = seats.drop_last();
        assert(keys_unique(rest)) by {
            assert forall|i: int, j: int| 0 <= i < j < rest.len() implies seat_key(#[trigger] rest[i]) != seat_key(
                #[trigger] rest[j],
            ) by {
                assert(rest[i] == seats[i] && rest[j] == seats[j]);
            }
        }
        lemma_seats_map_lookup(rest, k);
        if seats_map(seats).contains_key(k) && seat_key(seats.last()) != k {
            let i = choose|i: int| 0 <= i < rest.len() && seat_key(#[trigger] rest[i]) == k;
            assert(seats[i] == rest[i]);
        }
        if exists|i: int| 0 <= i < seats.len() && seat_key(#[trigger] seats[i]) == k {
            let i = choose|i: int| 0 <= i < seats.len() && seat_key(#[trigger] seats[i]) == k;
            if i < seats.len() - 1 {
                assert(rest[i] == seats[i]);
            }
        }
        assert forall|i: int| 0 <= i < seats.len() && seat_key(#[trigger] seats[i]) == k implies seats_map(seats)[k]
            == seats[i].connection_id by {
            if i < seats.len() - 1 {
                assert(rest[i] == seats[i]);
                assert(seat_key(seats[i]) != seat_key(seats[seats.len() - 1]));
            }
        }
    }
}

proof fn lemma_seats_map_remove(seats: Seq<Seat>, i: int)
    requires
        keys_unique(seats),
        0 <= i < seats.len(),
    ensures
        keys_unique(seats.remove(i)),
        seats_map(seats.remove(i)) == seats_map(seats).remove(seat_key(seats[i])),
    decreases seats.len(),
{
    let after = seats.remove(i);
    assert(keys_unique(after)) by {
        assert forall|a: int, b: int| 0 <= a < b < after.len() implies seat_key(#[trigger] after[a]) != seat_key(
            #[trigger] after[b],
        ) by {
            let a2 = if a < i { a } else { a + 1 };
            let b2 = if b < i { b } else { b + 1 };
            assert(after[a] == seats[a2] && after[b] == seats[b2]);
        }
    }
    let rest = seats.drop_last();
    assert(keys_unique(rest)) by {
        assert forall|a: int, b: int| 0 <= a < b < rest.len() implies seat_key(#[trigger] rest[a]) != seat_key(
            #[trigger] rest[b],
        ) by {
            assert(rest[a] == seats[a] && rest[b] == seats[b]);
        }
    }
    if i == seats.len() - 1 {
        assert(after =~= rest);
        lemma_seats_map_lookup(rest, seat_key(seats[i]));
        if seats_map(rest).contains_key(seat_key(seats[i])) {
            let j = choose|j: int| 0 <= j < rest.len() && seat_key(#[trigger] rest[j]) == seat_key(seats[i]);
            assert(rest[j] == seats[j]);
        }
        assert(seats_map(after) =~= seats_map(seats).remove(seat_key(seats[i])));
    } else {
        lemma_seats_map_remove(rest, i);
        assert(after.drop_last() =~= rest.remove(i));
        assert(after.last() == seats.last());
        assert(seat_key(seats[i]) != seat_key(seats.last()));
        assert(seats_map(after) =~= seats_map(seats).remove(seat_key(seats[i])));
    }
}

/// What registering a connection did.
#[derive(Clone, Copy, Debug, PartialEq, Eq, Structural)]
pub struct Registration {
    /// Whether the other side of the game was connected.
    pub opponent_connected: bool,
    /// The connection this one replaced, which is to be told and closed.
    pub replaced: Option<u128>,
}

/// The connections of every game.
#[derive(Clone, Debug)]
pub struct ConnectionHub {
    seats: Vec<Seat>,
}

impl ConnectionHub {
    pub closed spec fn wf(self) -> bool {
        keys_unique(self.seats@)
    }

    pub fn new() -> (r: Self)
        ensures
            r.wf(),
            r@ == Map::<(Seq<char>, Side), u128>::empty(),
    {
        ConnectionHub { seats: Vec::new() }
    }

    fn find(&self, game_id: &str, side: Side) -> (r: Option<usize>)
        requires
            self.wf(),
        ensures
            r matches Some(i) ==> i < self.seats@.len() && seat_key(self.seats@[i as int]) == (game_id@, side),
            r is None ==> !self@.contains_key((game_id@, side)),
            r matches Some(i) ==> self@.contains_key((game_id@, side)) && self@[(game_id@, side)]
                == self.seats@[i as int].connection_id,
    {
        let mut i: usize = 0;
        while i < self.seats.len()
            invariant
                self.wf(),
                i <= self.seats@.len(),
                forall|k: int| 0 <= k < i ==> seat_key(#[trigger] self.seats@[k]) != (game_id@, side),
            decreases self.seats.len() - i,
        {
            if self.seats[i].side == side && text_equals(self.seats[i].game_id.as_str(), game_id) {
                proof {
                    lemma_seats_map_lookup(self.seats@, (game_id@, side));
                }
                return Some(i);
            }
            i += 1;
        }
        proof {
            lemma_seats_map_lookup(self.seats@, (game_id@, side));
        }
        None
    }

    /// The connection seated at a game's side, if any.
    pub fn connection(&self, game_id: &str, side: Side) -> (r: Option<u128>)
        requires
            self.wf(),
        ensures
            r == (if self@.contains_key((game_id@, side)) {
                Some(self@[(game_id@, side)])
            } else {
                None
            }),
    {
        match self.find(game_id, side) {
            Some(i) => Some(self.seats[i].connection_id),
            None => None,
        }
    }

    /// Seats a connection at a game's side, replacing the one seated there.
    pub fn register(&mut self, game_id: &str, side: Side, connection_id: u128) -> (r: Registration)
        requires
            old(self).wf(),
        ensures
            final(self).wf(),
            final(self)@ == old(self)@.insert((game_id@, side), connection_id),
            r.opponent_connected == old(self)@.contains_key((game_id@, side.other())),
            r.replaced == (if old(self)@.contains_key((game_id@, side)) {
                Some(old(self)@[(game_id@, side)])
            } else {
                None
            }),
    {
        let opponent_connected = self.find(game_id, side.opposite()).is_some();
        let replaced = match self.find(game_id, side) {
            Some(i) => {
                let previous = self.seats[i].connection_id;
                proof {
                    lemma_seats_map_remove(self.seats@, i as int);
                }
                self.seats.remove(i);
                Some(previous)
            },
            None => None,
        };
        let ghost before = self.seats@;
        proof {
            lemma_seats_map_lookup(before, (game_id@, side));
        }
        let seat = Seat { game_id: game_id.to_owned(), side, connection_id };
        self.seats.push(seat);
        proof {
            assert(self.seats@.drop_last() =~= before);
            assert forall|i: int, j: int| 0 <= i < j < self.seats@.len() implies seat_key(#[trigger] self.seats@[i])
                != seat_key(#[trigger] self.seats@[j]) by {
                if j == self.seats@.len() - 1 {
                    assert(self.seats@[i] == before[i]);
                }
            }
            assert(self@ =~= old(self)@.insert((game_id@, side), connection_id));
        }
        Registration { opponent_connected, replaced }
    }

    /// Removes a connection from a game's side if it is still the one seated
    /// there; returns the opponent's connection, which is to be told.
    pub fn unregister(&mut self, game_id: &str, side: Side, connection_id: u128) -> (r: Option<u128>)
        requires
            old(self).wf(),
        ensures
            final(self).wf(),
            old(self)@.contains_key((game_id@, side)) && old(self)@[(game_id@, side)] == connection_id ==> {
                &&& final(self)@ == old(self)@.remove((game_id@, side))
                &&& r == (if old(self)@.contains_key((game_id@, side.other())) {
                    Some(old(self)@[(game_id@, side.other())])
                } else {
                    None
                })
            },
            !(old(self)@.contains_key((game_id@, side)) && old(self)@[(game_id@, side)] == connection_id) ==> {
                &&& final(self)@ == old(self)@
                &&& r is None
            },
    {
        match self.find(game_id, side) {
            Some(i) => {
                if self.seats[i].connection_id != connection_id {
                    return None;
                }
                proof {
                    lemma_seats_map_remove(self.seats@, i as int);
                }
                self.seats.remove(i);
                self.connection(game_id, side.opposite())
            },
            None => None,
        }
    }

    /// The connections seated at a game, in no particular order.
    pub fn members(&self, game_id: &str) -> (r: Vec<u128>)
        requires
            self.wf(),
        ensures
            forall|c: u128|
                r@.contains(c) <==> (exists|s: Side| #[trigger] self@.contains_key((game_id@, s)) && self@[(game_id@, s)]
                    == c),
    {
        let mut r: Vec<u128> = Vec::new();
        if let Some(c) = self.connection(game_id, Side::White) {
            r.push(c);
        }
        if let Some(c) = self.connection(game_id, Side::Black) {
            r.push(c);
        }
        proof {
            assert forall|c: u128| r@.contains(c) <==> (exists|s: Side| #[trigger] self@.contains_key((game_id@, s)) && self@[(game_id@, s)]
                == c) by {
                if exists|s: Side| #[trigger] self@.contains_key((game_id@, s)) && self@[(game_id@, s)] == c {
                    let s = choose|s: Side| #[trigger] self@.contains_key((game_id@, s)) && self@[(game_id@, s)] == c;
                    if s == Side::White {
                        assert(r@[0] == c);
                    } else {
                        assert(r@[r@.len() - 1] == c);
                    }
                }
            }
        }
        r
    }
}

impl vstd::view::View for ConnectionHub {
    type V = Map<(Seq<char>, Side), u128>;

    /// The connection seated at each (game, side).
    closed spec fn view(&self) -> Map<(Seq<char>, Side), u128> {
        seats_map(self.seats@)
    }
}

/// What a replaced connection is told before it is closed.
pub fn connection_replaced_message() -> (r: ServerMessage)
    ensures
        is_error_message(r, "connection_replaced"@, "This player reconnected from another client."@),
{
    error_message("connection_replaced", "This player reconnected from another client.")
}

/// What a player is told when the opponent's connection closes.
pub fn opponent_left_message() -> (r: ServerMessage)
    ensures
        r == (ServerMessage::OpponentConnection { connected: false }),
{
    ServerMessage::OpponentConnection { connected: false }
}

/// What a player is told when the opponent joins.
pub fn opponent_joined_message() -> (r: ServerMessage)
    ensures
        r == (ServerMessage::OpponentConnection { connected: true }),
{
    ServerMessage::OpponentConnection { connected: true }
}

} // verus!
