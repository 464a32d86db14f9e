//! A roster: the players of one table, of one game or of the house, in the
//! order in which they were admitted, and no player twice.

use crate::player::Player;
use vstd::prelude::*;
use vstd::std_specs::cmp::PartialEqSpecImpl;

verus! {

/// No two entries of `players` are the same player.
pub open spec fn distinct(players: Seq<Player>) -> bool {
    forall|i: int, j: int|
        0 <= i < j < players.len() ==> players[i].identifier != players[j].identifier
}

/// Whether a player with this identifier is among `players`.
pub open spec fn seated(players: Seq<Player>, identifier: u128) -> bool {
    exists|i: int| 0 <= i < players.len() && players[i].identifier == identifier
}

/// The seat of the player with this identifier, where there is one.
pub open spec fn seat_of(players: Seq<Player>, identifier: u128) -> int {
    choose|i: int| 0 <= i < players.len() && players[i].identifier == identifier
}

/// `players` once `player` has asked for a seat: a player who is already
/// there keeps the seat and the record they have.
pub open spec fn after_join(players: Seq<Player>, player: Player) -> Seq<Player> {
    if seated(players, player.identifier) {
        players
    } else {
        players.push(player)
    }
}

/// `players` once the player with this identifier has left.
pub open spec fn after_leave(players: Seq<Player>, identifier: u128) -> Seq<Player> {
    if seated(players, identifier) {
        players.remove(seat_of(players, identifier))
    } else {
        players
    }
}

/// In a roster without doubles, a player's seat is the only index that holds
/// their identifier.
pub proof fn lemma_seat_is_unique(players: Seq<Player>, seat: int)
    requires
        distinct(players),
        0 <= seat < players.len(),
    ensures
        seated(players, players[seat].identifier),
        seat_of(players, players[seat].identifier) == seat,
{
    let found = seat_of(players, players[seat].identifier);
    assert(0 <= found < players.len() && players[found].identifier == players[seat].identifier);
    if found < seat {
        assert(players[found].identifier != players[seat].identifier);
    } else if seat < found {
        assert(players[seat].identifier != players[found].identifier);
    }
}

/// Joining and leaving keep a roster free of doubles.
pub proof fn lemma_distinct_is_kept(players: Seq<Player>, player: Player)
    requires
        distinct(players),
    ensures
        distinct(after_join(players, player)),
        distinct(after_leave(players, player.identifier)),
{
    if !seated(players, player.identifier) {
        let joined = players.push(player);
        assert forall|i: int, j: int| 0 <= i < j < joined.len() implies joined[i].identifier
            != joined[j].identifier by {
            if j == players.len() {
                assert(joined[i] == players[i]);
            }
        }
    } else {
        let seat = seat_of(players, player.identifier);
        let left = players.remove(seat);
        assert forall|i: int, j: int| 0 <= i < j < left.len() implies left[i].identifier
            != left[j].identifier by {
            let from_i = if i < seat { i } else { i + 1 };
            let from_j = if j < seat { j } else { j + 1 };
            assert(left[i] == players[from_i]);
            assert(left[j] == players[from_j]);
        }
    }
}

/// The players that hold a seat, unique by identity.
#[derive(Debug)]
pub struct Roster {
    seats: Vec<Player>,
}

impl View for Roster {
    type V = Seq<Player>;

    closed spec fn view(&self) -> Seq<Player> {
        self.seats@
    }
}

impl Roster {
    /// Every roster is free of doubles.
    #[verifier::type_invariant]
    pub open spec fn well_formed(&self) -> bool {
        distinct(self@)
    }

    /// An empty roster.
    pub fn new() -> (roster: Roster)
        ensures
            roster@ == Seq::<Player>::empty(),
    {
        Roster { seats: Vec::new() }
    }

    /// How many players hold a seat.
    pub fn len(&self) -> (count: usize)
        ensures
            count == self@.len(),
    {
        self.seats.len()
    }

    /// Whether nobody holds a seat.
    pub fn is_empty(&self) -> (empty: bool)
        ensures
            empty == (self@.len() == 0),
    {
        self.seats.len() == 0
    }

    /// The players in the order of their seats.
    pub fn players(&self) -> (players: &Vec<Player>)
        ensures
            players@ == self@,
            distinct(players@),
    {
        proof {
            use_type_invariant(self);
        }
        &self.seats
    }

    /// The seat of the player with this identifier.
    pub fn seat(&self, identifier: u128) -> (seat: Option<usize>)
        ensures
            seat is Some <==> seated(self@, identifier),
            seat matches Some(index) ==> index == seat_of(self@, identifier) && index < self@.len()
                && self@[index as int].identifier == identifier,
    {
        proof {
            use_type_invariant(self);
        }
        let mut index: usize = 0;
        while index < self.seats.len()
            invariant
                index <= self.seats.len(),
                distinct(self.seats@),
                forall|i: int| 0 <= i < index ==> self.seats@[i].identifier != identifier,
            decreases self.seats.len() - index,
        {
            if self.seats[index].identifier == identifier {
                proof {
                    lemma_seat_is_unique(self.seats@, index as int);
                }
                return Some(index);
            }
            index += 1;
        }
        None
    }

    /// Whether `player` holds a seat.
    pub fn contains(&self, player: &Player) -> (found: bool)
        ensures
            found == seated(self@, player.identifier),
    {
        self.seat(player.identifier).is_some()
    }

    /// The record that the roster holds of `player`.
    pub fn get(&self, player: &Player) -> (found: Option<&Player>)
        ensures
            found is Some <==> seated(self@, player.identifier),
            found matches Some(record) ==> *record == self@[seat_of(self@, player.identifier)],
    {
        match self.seat(player.identifier) {
            Some(index) => Some(&self.seats[index]),
            None => None,
        }
    }

    /// Seats `player` unless they hold a seat already, and says whether a seat
    /// was given.
    pub fn insert(&mut self, player: Player) -> (added: bool)
        ensures
            added == !seated(old(self)@, player.identifier),
            final(self)@ == after_join(old(self)@, player),
    {
        proof {
            use_type_invariant(&*self);
            lemma_distinct_is_kept(self@, player);
        }
        if self.seat(player.identifier).is_some() {
            false
        } else {
            let mut seats = Vec::new();
            std::mem::swap(&mut seats, &mut self.seats);
            seats.push(player);
            self.seats = seats;
            true
        }
    }

    /// Takes `player` out of the roster and hands back the record it held.
    pub fn take(&mut self, player: &Player) -> (taken: Option<Player>)
        ensures
            taken is Some <==> seated(old(self)@, player.identifier),
            taken matches Some(record) ==> record == old(self)@[seat_of(
                old(self)@,
                player.identifier,
            )],
            final(self)@ == after_leave(old(self)@, player.identifier),
    {
        proof {
            use_type_invariant(&*self);
            lemma_distinct_is_kept(self@, *player);
        }
        match self.seat(player.identifier) {
            Some(index) => {
                let mut seats = Vec::new();
                std::mem::swap(&mut seats, &mut self.seats);
                let record = seats.remove(index);
                self.seats = seats;
                Some(record)
            },
            None => None,
        }
    }

    /// Takes `player` out of the roster and says whether they held a seat.
    pub fn remove(&mut self, player: &Player) -> (removed: bool)
        ensures
            removed == seated(old(self)@, player.identifier),
            final(self)@ == after_leave(old(self)@, player.identifier),
    {
        self.take(player).is_some()
    }
}

/// Two rosters are equal when they seat the same players, in whatever
/// order.
impl PartialEq for Roster {
    fn eq(&self, other: &Roster) -> (same: bool) {
        if self.seats.len() != other.seats.len() {
            return false;
        }
        let mut index: usize = 0;
        while index < self.seats.len()
            invariant
                index <= self.seats.len(),
                self@ == self.seats@,
                forall|i: int| 0 <= i < index ==> seated(other@, #[trigger] self@[i].identifier),
            decreases self.seats.len() - index,
        {
            if other.seat(self.seats[index].identifier).is_none() {
                return false;
            }
            index += 1;
        }
        true
    }
}

impl Eq for Roster {}

impl PartialEqSpecImpl for Roster {
    open spec fn obeys_eq_spec() -> bool {
        true
    }

    open spec fn eq_spec(&self, other: &Roster) -> bool {
        &&& self@.len() == other@.len()
        &&& forall|i: int| 0 <= i < self@.len() ==> seated(other@, #[trigger] self@[i].identifier)
    }
}

} // verus!
