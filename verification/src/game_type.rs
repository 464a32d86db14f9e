//! The game variants that a table can host.

use vstd::prelude::*;

verus! {

/// The card game that a table hosts.
#[derive(Clone, Copy, Debug, PartialEq, Eq, Hash, Structural)]
pub enum GameType {
    TexasHoldEm,
}

impl GameType {
    /// The label of the variant: the key under which its tables are filed.
    pub open spec fn label(self) -> Seq<char> {
        match self {
            GameType::TexasHoldEm => "Texas Hold 'Em"@,
        }
    }

    /// The label as an owned string.
    pub fn get_string(&self) -> (label: String)
        ensures
            label@ == self.label(),
    {
        match self {
            GameType::TexasHoldEm => "Texas Hold 'Em".to_owned(),
        }
    }
}

} // verus!
