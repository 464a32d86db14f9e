//! What the casino refuses, and why.

use vstd::prelude::*;

verus! {

/// The reasons for which a request is refused.
#[derive(Clone, Copy, Debug, PartialEq, Eq, Hash, Structural)]
pub enum CasinoError {
    /// No table, or no player, is filed where the request looked for one.
    NotFound,
    /// Every seat of the table is taken.
    TableFull,
    /// The player holds fewer chips than the table asks for; `deficit` is
    /// how many are missing.
    InsufficientChips { deficit: u32 },
    /// Nobody sits at the table.
    TableEmpty,
    /// The player does not sit at the table.
    PlayerNotSeated,
    /// The deck ran out before every player had a hand. The round is lost.
    DeckExhausted,
}

} // verus!
