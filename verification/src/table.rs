//! A table: a named place for one game, with a price of admission and a
//! number of seats.

use crate::error::CasinoError;
use crate::game_type::GameType;
use crate::player::Player;
use crate::roster::{after_join, after_leave, seat_of, seated, Roster};
use vstd::prelude::*;

verus! {

/// A table of the casino and the players that sit at it.
#[derive(Debug, PartialEq, Eq)]
pub struct Table {
    pub name: String,
    pub players: Roster,
    pub game: GameType,
    pub minimum_buy_in_chips_amount: u32,
    pub maximum_players_count: usize,
}

impl Table {
    /// Whether the table seats no more players than it has seats.
    pub open spec fn within_capacity(&self) -> bool {
        self.players@.len() <= self.maximum_players_count
    }

    /// Whether every player at the table holds the buy-in.
    pub open spec fn all_bought_in(&self) -> bool {
        forall|seat: int|
            0 <= seat < self.players@.len() ==> self.minimum_buy_in_chips_amount
                <= #[trigger] self.players@[seat].chips
    }

    /// What a request of `player` for a seat is answered with. A full table
    /// refuses everybody; a table with a free seat refuses the player who
    /// holds fewer chips than the buy-in, and says how many are missing.
    pub open spec fn admission_of(&self, player: Player) -> Result<(), CasinoError> {
        if self.players@.len() >= self.maximum_players_count {
            Err(CasinoError::TableFull)
        } else if player.chips < self.minimum_buy_in_chips_amount {
            Err(
                CasinoError::InsufficientChips {
                    deficit: (self.minimum_buy_in_chips_amount - player.chips) as u32,
                },
            )
        } else {
            Ok(())
        }
    }

    /// What a request to leave of the player with this identifier is
    /// answered with: the record that the table holds of them, unless the
    /// table is empty or they do not sit at it.
    pub open spec fn departure_of(&self, identifier: u128) -> Result<Player, CasinoError> {
        if self.players@.len() == 0 {
            Err(CasinoError::TableEmpty)
        } else if !seated(self.players@, identifier) {
            Err(CasinoError::PlayerNotSeated)
        } else {
            Ok(self.players@[seat_of(self.players@, identifier)])
        }
    }

    /// An empty table.
    pub fn new(
        name: String,
        game_type: GameType,
        minimum_buy_in_chips_amount: u32,
        maximum_players_count: usize,
    ) -> (table: Table)
        ensures
            table.name == name,
            table.players@ == Seq::<Player>::empty(),
            table.game == game_type,
            table.minimum_buy_in_chips_amount == minimum_buy_in_chips_amount,
            table.maximum_players_count == maximum_players_count,
            table.within_capacity(),
            table.all_bought_in(),
    {
        Table {
            name,
            players: Roster::new(),
            game: game_type,
            minimum_buy_in_chips_amount,
            maximum_players_count,
        }
    }

    /// Seats `player`, if a seat is free and they hold the buy-in. A player
    /// who sits at the table already keeps their seat. A refusal leaves the
    /// table as it was.
    pub fn add_player(&mut self, player: Player) -> (admission: Result<(), CasinoError>)
        ensures
            admission == old(self).admission_of(player),
            admission is Ok ==> final(self).players@ == after_join(old(self).players@, player),
            admission is Ok ==> final(self).within_capacity(),
            admission is Err ==> final(self).players@ == old(self).players@,
            old(self).all_bought_in() ==> final(self).all_bought_in(),
            old(self).players@.len() < old(self).maximum_players_count && player.chips < old(
                self,
            ).minimum_buy_in_chips_amount ==> admission == Err::<(), CasinoError>(
                CasinoError::InsufficientChips {
                    deficit: (old(self).minimum_buy_in_chips_amount - player.chips) as u32,
                },
            ),
            final(self).name == old(self).name,
            final(self).game == old(self).game,
            final(self).minimum_buy_in_chips_amount == old(self).minimum_buy_in_chips_amount,
            final(self).maximum_players_count == old(self).maximum_players_count,
    {
        if self.players.len() >= self.maximum_players_count {
            return Err(CasinoError::TableFull);
        }
        if player.chips < self.minimum_buy_in_chips_amount {
            return Err(
                CasinoError::InsufficientChips {
                    deficit: self.minimum_buy_in_chips_amount - player.chips,
                },
            );
        }
        self.players.insert(player);
        Ok(())
    }

    /// Takes `player` from their seat and hands back the record that the
    /// table held of them. A refusal leaves the table as it was.
    pub fn remove_player(&mut self, player: &Player) -> (departure: Result<Player, CasinoError>)
        ensures
            departure == old(self).departure_of(player.identifier),
            final(self).players@ == after_leave(old(self).players@, player.identifier),
            departure is Err ==> final(self).players@ == old(self).players@,
            old(self).within_capacity() ==> final(self).within_capacity(),
            old(self).all_bought_in() ==> final(self).all_bought_in(),
            final(self).name == old(self).name,
            final(self).game == old(self).game,
            final(self).minimum_buy_in_chips_amount == old(self).minimum_buy_in_chips_amount,
            final(self).maximum_players_count == old(self).maximum_players_count,
    {
        if self.players.len() < 1 {
            return Err(CasinoError::TableEmpty);
        }
        let departure = match self.players.take(player) {
            Some(record) => Ok(record),
            None => Err(CasinoError::PlayerNotSeated),
        };
        proof {
            let before = old(self).players@;
            if old(self).all_bought_in() && seated(before, player.identifier) {
                let gap = seat_of(before, player.identifier);
                assert forall|seat: int|
                    0 <= seat < self.players@.len() implies self.minimum_buy_in_chips_amount
                    <= #[trigger] self.players@[seat].chips by {
                    let from = if seat < gap { seat } else { seat + 1 };
                    assert(self.players@[seat] == before[from]);
                }
            }
        }
        departure
    }
}

/// A player who is given a seat that they did not have, and who leaves at
/// once, gets their own record back and leaves the seats as they were
/// before they came. Here `joined` is the table after `add_player` was
/// called on `before` with `player`, and `left` is that table after
/// `remove_player` was called on it with the same player.
pub proof fn lemma_join_then_leave(before: Table, joined: Table, left: Table, player: Player)
    requires
        before.admission_of(player) is Ok,
        !seated(before.players@, player.identifier),
        joined.players@ == after_join(before.players@, player),
        left.players@ == after_leave(joined.players@, player.identifier),
    ensures
        joined.departure_of(player.identifier) == Ok::<Player, CasinoError>(player),
        left.players@ == before.players@,
{
    let seats = before.players@;
    let taken = seats.push(player);
    assert(taken[seats.len() as int].identifier == player.identifier);
    let seat = seat_of(taken, player.identifier);
    if seat < seats.len() {
        assert(seats[seat].identifier == player.identifier);
    }
    assert(taken.remove(seat) == seats);
}

} // verus!
