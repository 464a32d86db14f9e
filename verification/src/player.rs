//! Players: an identity, a display name and a chip balance.

use uuid::Uuid;
use vstd::prelude::*;
use vstd::std_specs::cmp::PartialEqSpecImpl;

verus! {

/// The chips a player starts with when no amount is given.
pub const DEFAULT_BUY_IN_CHIPS_AMOUNT: u32 = 100;

/// A player. Two players are the same player when their identifiers are
/// equal, whatever their names and balances.
#[derive(Debug)]
pub struct Player {
    pub identifier: u128,
    pub name: String,
    pub chips: u32,
}

/// Calls `uuid::Uuid::new_v4` and hands back the 128 bits of the identifier
/// (`Uuid::as_u128`). The bits are random, so nothing is claimed of them.
#[verifier::external_body]
fn fresh_identifier() -> u128 {
    Uuid::new_v4().as_u128()
}

impl Player {
    /// Whether `self` and `other` are the same player.
    pub open spec fn same_as(self, other: Player) -> bool {
        self.identifier == other.identifier
    }

    /// A player with the given identity, name and balance.
    pub fn with_identifier(identifier: u128, name: &str, chips: u32) -> (player: Player)
        ensures
            player.identifier == identifier,
            player.name@ == name@,
            player.chips == chips,
    {
        Player { identifier, name: name.to_owned(), chips }
    }

    /// A player with a fresh identity and the default balance.
    pub fn new(name: &str) -> (player: Player)
        ensures
            player.name@ == name@,
            player.chips == DEFAULT_BUY_IN_CHIPS_AMOUNT,
    {
        Player::new_with_chips(name, DEFAULT_BUY_IN_CHIPS_AMOUNT)
    }

    /// A player with a fresh identity and the given balance.
    pub fn new_with_chips(name: &str, chips: u32) -> (player: Player)
        ensures
            player.name@ == name@,
            player.chips == chips,
    {
        Player::with_identifier(fresh_identifier(), name, chips)
    }
}

impl Clone for Player {
    fn clone(&self) -> (copy: Player)
        ensures
            copy == *self,
    {
        Player { identifier: self.identifier, name: self.name.clone(), chips: self.chips }
    }
}

impl PartialEq for Player {
    fn eq(&self, other: &Player) -> (same: bool) {
        self.identifier == other.identifier
    }
}

impl Eq for Player {}

impl PartialEqSpecImpl for Player {
    open spec fn obeys_eq_spec() -> bool {
        true
    }

    open spec fn eq_spec(&self, other: &Player) -> bool {
        self.identifier == other.identifier
    }
}

} // verus!
