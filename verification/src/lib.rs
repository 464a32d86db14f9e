//! A multi-table casino: a registry of named tables per game type, player
//! admission, and the resolution of a round of cards.

pub mod casino;
pub mod deck;
pub mod error;
pub mod game;
pub mod game_type;
pub mod name_map;
pub mod player;
pub mod roster;
pub mod showdown;
pub mod table;
