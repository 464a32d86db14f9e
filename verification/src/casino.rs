//! The casino: its tables, filed by game and by name, and its players.

use crate::error::CasinoError;
use crate::game_type::GameType;
use crate::name_map::NameMap;
use crate::player::{Player, DEFAULT_BUY_IN_CHIPS_AMOUNT};
use crate::roster::{after_join, after_leave, lemma_seat_is_unique, seat_of, seated, Roster};
use crate::table::Table;
use vstd::prelude::*;

verus! {

/// The tables of one game, by name.
pub type Tables = NameMap<Table>;

/// The games that have a table, by label.
pub type Games = NameMap<Tables>;

/// What a registry holds: for the label of each game that has a table, its
/// tables by name.
pub type Registry = Map<Seq<char>, Map<Seq<char>, Table>>;

/// The registry that `games` stands for.
pub open spec fn tables_of(games: Map<Seq<char>, Tables>) -> Registry {
    Map::new(|label: Seq<char>| games.contains_key(label), |label: Seq<char>| games[label]@)
}

/// Whether `tables` holds no table.
pub open spec fn vacant(tables: Map<Seq<char>, Table>) -> bool {
    forall|name: Seq<char>| !tables.contains_key(name)
}

/// Whether every game that the registry lists has a table.
pub open spec fn no_empty_bucket(registry: Registry) -> bool {
    forall|label: Seq<char>| registry.contains_key(label) ==> !vacant(#[trigger] registry[label])
}

/// The table filed under `name` among the tables of the game `label`.
pub open spec fn lookup(registry: Registry, name: Seq<char>, label: Seq<char>) -> Option<Table> {
    if registry.contains_key(label) && registry[label].contains_key(name) {
        Some(registry[label][name])
    } else {
        None
    }
}

/// The registry once `table` has been handed in: it is filed under its game
/// and its name unless a table stands there already, which then stays.
pub open spec fn with_table(registry: Registry, table: Table) -> Registry {
    let label = table.game.label();
    if !registry.contains_key(label) {
        registry.insert(label, Map::<Seq<char>, Table>::empty().insert(table.name@, table))
    } else if registry[label].contains_key(table.name@) {
        registry
    } else {
        registry.insert(label, registry[label].insert(table.name@, table))
    }
}

/// The registry once the table `name` of the game `label` has been struck:
/// a game that is left without a table is struck with it.
pub open spec fn without_table(registry: Registry, name: Seq<char>, label: Seq<char>) -> Registry {
    if !registry.contains_key(label) {
        registry
    } else if vacant(registry[label].remove(name)) {
        registry.remove(label)
    } else {
        registry.insert(label, registry[label].remove(name))
    }
}

/// The registry once every table of `tables` has been handed in, first
/// table first.
pub open spec fn with_tables(registry: Registry, tables: Seq<Table>) -> Registry
    decreases tables.len(),
{
    if tables.len() == 0 {
        registry
    } else {
        with_table(with_tables(registry, tables.drop_last()), tables.last())
    }
}

/// Whether no two tables of `tables` have both their game and their name in
/// common.
pub open spec fn filed_apart(tables: Seq<Table>) -> bool {
    forall|i: int, j: int|
        0 <= i < j < tables.len() ==> tables[i].game.label() != tables[j].game.label()
            || tables[i].name@ != tables[j].name@
}

/// Handing in one table: it is found under its game and its name unless
/// another table stood there, which then is found as before; every other
/// table is found as before; and no game is left without a table.
pub proof fn lemma_with_table(registry: Registry, table: Table)
    ensures
        with_table(registry, table).contains_key(table.game.label()),
        lookup(registry, table.name@, table.game.label()) is None ==> lookup(
            with_table(registry, table),
            table.name@,
            table.game.label(),
        ) == Some(table),
        forall|name: Seq<char>, label: Seq<char>|
            lookup(registry, name, label) is Some || name != table.name@ || label
                != table.game.label() ==> #[trigger] lookup(with_table(registry, table), name, label)
                == lookup(registry, name, label),
        no_empty_bucket(registry) ==> no_empty_bucket(with_table(registry, table)),
{
    let label = table.game.label();
    let after = with_table(registry, table);
    if no_empty_bucket(registry) {
        assert forall|other: Seq<char>| after.contains_key(other) implies !vacant(
            #[trigger] after[other],
        ) by {
            if other == label {
                if registry.contains_key(label) && registry[label].contains_key(table.name@) {
                } else {
                    assert(after[label].contains_key(table.name@));
                }
            } else {
                assert(after[other] == registry[other]);
            }
        }
    }
}

/// Tables that are handed in one after the other, no two with the same
/// game and name and none where a table stands already, are each found
/// under their game and name, exactly as they were handed in; their games
/// are listed; and every table that was filed before is found as before.
pub proof fn lemma_tables_are_found(registry: Registry, tables: Seq<Table>)
    requires
        filed_apart(tables),
        forall|i: int|
            0 <= i < tables.len() ==> lookup(
                registry,
                #[trigger] tables[i].name@,
                tables[i].game.label(),
            ) is None,
    ensures
        forall|i: int|
            0 <= i < tables.len() ==> with_tables(registry, tables).contains_key(
                #[trigger] tables[i].game.label(),
            ),
        forall|i: int|
            0 <= i < tables.len() ==> lookup(
                with_tables(registry, tables),
                tables[i].name@,
                tables[i].game.label(),
            ) == Some(#[trigger] tables[i]),
        forall|name: Seq<char>, label: Seq<char>|
            lookup(registry, name, label) is Some ==> #[trigger] lookup(
                with_tables(registry, tables),
                name,
                label,
            ) == lookup(registry, name, label),
        forall|name: Seq<char>, label: Seq<char>|
            #[trigger] lookup(with_tables(registry, tables), name, label) is Some ==> lookup(
                registry,
                name,
                label,
            ) is Some || exists|i: int|
                0 <= i < tables.len() && tables[i].name@ == name && tables[i].game.label() == label,
        no_empty_bucket(registry) ==> no_empty_bucket(with_tables(registry, tables)),
    decreases tables.len(),
{
    if tables.len() > 0 {
        let earlier = tables.drop_last();
        let last = tables.last();
        let at = tables.len() - 1;
        assert forall|i: int| 0 <= i < earlier.len() implies lookup(
            registry,
            #[trigger] earlier[i].name@,
            earlier[i].game.label(),
        ) is None by {
            assert(earlier[i] == tables[i]);
        }
        assert(filed_apart(earlier)) by {
            assert forall|i: int, j: int| 0 <= i < j < earlier.len() implies earlier[i].game.label()
                != earlier[j].game.label() || earlier[i].name@ != earlier[j].name@ by {
                assert(earlier[i] == tables[i] && earlier[j] == tables[j]);
            }
        }
        lemma_tables_are_found(registry, earlier);
        let so_far = with_tables(registry, earlier);
        let after = with_tables(registry, tables);
        assert(after == with_table(so_far, last));
        lemma_with_table(so_far, last);
        assert(lookup(so_far, last.name@, last.game.label()) is None) by {
            if lookup(so_far, last.name@, last.game.label()) is Some {
                assert(lookup(registry, tables[at].name@, tables[at].game.label()) is None);
                let i = choose|i: int|
                    0 <= i < earlier.len() && earlier[i].name@ == last.name@
                        && earlier[i].game.label() == last.game.label();
                assert(earlier[i] == tables[i]);
            }
        }
        assert forall|i: int| 0 <= i < tables.len() implies after.contains_key(
            #[trigger] tables[i].game.label(),
        ) by {
            if i < at {
                assert(earlier[i] == tables[i]);
                assert(so_far.contains_key(earlier[i].game.label()));
                assert(lookup(so_far, earlier[i].name@, earlier[i].game.label()) is Some);
                assert(lookup(after, earlier[i].name@, earlier[i].game.label()) is Some);
            }
        }
        assert forall|i: int| 0 <= i < tables.len() implies lookup(
            after,
            tables[i].name@,
            tables[i].game.label(),
        ) == Some(#[trigger] tables[i]) by {
            if i < at {
                assert(earlier[i] == tables[i]);
                assert(lookup(so_far, earlier[i].name@, earlier[i].game.label()) == Some(
                    earlier[i],
                ));
            }
        }
        assert forall|name: Seq<char>, label: Seq<char>|
            lookup(registry, name, label) is Some implies #[trigger] lookup(after, name, label)
            == lookup(registry, name, label) by {
            assert(lookup(so_far, name, label) == lookup(registry, name, label));
        }
        assert forall|name: Seq<char>, label: Seq<char>| #[trigger]
            lookup(after, name, label) is Some implies lookup(registry, name, label) is Some
            || exists|i: int|
            0 <= i < tables.len() && tables[i].name@ == name && tables[i].game.label()
                == label by {
            if lookup(so_far, name, label) is Some {
                if lookup(registry, name, label) is None {
                    let i = choose|i: int|
                        0 <= i < earlier.len() && earlier[i].name@ == name
                            && earlier[i].game.label() == label;
                    assert(earlier[i] == tables[i]);
                }
            } else {
                assert(name == last.name@ && label == last.game.label());
                assert(tables[at] == last);
            }
        }
    }
}

/// Striking one table: the table is gone; the game goes with its last
/// table and stays with any other; and every other table is found as
/// before.
pub proof fn lemma_without_table(registry: Registry, name: Seq<char>, label: Seq<char>)
    ensures
        lookup(without_table(registry, name, label), name, label) is None,
        without_table(registry, name, label).contains_key(label) <==> exists|other: Seq<char>|
            other != name && #[trigger] lookup(registry, other, label) is Some,
        forall|other: Seq<char>, game: Seq<char>|
            other != name || game != label ==> #[trigger] lookup(
                without_table(registry, name, label),
                other,
                game,
            ) == lookup(registry, other, game),
        forall|game: Seq<char>|
            game != label ==> without_table(registry, name, label).contains_key(game)
                == registry.contains_key(game),
        no_empty_bucket(registry) ==> no_empty_bucket(without_table(registry, name, label)),
{
    let after = without_table(registry, name, label);
    if registry.contains_key(label) {
        let left = registry[label].remove(name);
        if vacant(left) {
            assert forall|other: Seq<char>| other != name implies !(#[trigger] lookup(
                registry,
                other,
                label,
            ) is Some) by {
                assert(!left.contains_key(other));
            }
        } else {
            let other = choose|other: Seq<char>| left.contains_key(other);
            assert(other != name && lookup(registry, other, label) is Some);
        }
    }
    if no_empty_bucket(registry) {
        assert forall|game: Seq<char>| after.contains_key(game) implies !vacant(
            #[trigger] after[game],
        ) by {
            if game != label {
                assert(after[game] == registry[game]);
            }
        }
    }
}

/// The casino.
#[derive(Debug)]
pub struct Casino {
    games: Games,
    players: Roster,
}

impl View for Casino {
    type V = Registry;

    closed spec fn view(&self) -> Registry {
        tables_of(self.games@)
    }
}

impl Casino {
    /// No game is listed without a table.
    #[verifier::type_invariant]
    closed spec fn well_formed(&self) -> bool {
        no_empty_bucket(tables_of(self.games@))
    }

    /// The players that the casino knows, in the order in which they came.
    /// A seat at a table is another matter: the tables keep their own
    /// rosters.
    pub closed spec fn patrons(&self) -> Seq<Player> {
        self.players@
    }

    /// A casino without tables and without players.
    pub fn new() -> (casino: Casino)
        ensures
            casino@ == Map::<Seq<char>, Map<Seq<char>, Table>>::empty(),
            casino.patrons() == Seq::<Player>::empty(),
    {
        let casino = Casino { games: NameMap::new(), players: Roster::new() };
        assert(casino@ =~= Map::<Seq<char>, Map<Seq<char>, Table>>::empty());
        casino
    }

    /// The games that have a table, each with its tables.
    pub fn get_games(&self) -> (games: &Games)
        ensures
            tables_of(games@) == self@,
            no_empty_bucket(self@),
    {
        proof {
            use_type_invariant(self);
        }
        &self.games
    }

    /// The players that the casino knows.
    pub fn players(&self) -> (players: &Roster)
        ensures
            players@ == self.patrons(),
    {
        &self.players
    }

    /// Makes a table. The table is not filed: that is for `add_table`.
    pub fn new_table(
        &mut self,
        name: &str,
        game_type: GameType,
        minimum_buy_in_chips_amount: u32,
        maximum_players_count: usize,
    ) -> (made: Result<Table, CasinoError>)
        ensures
            made matches Ok(table) && {
                &&& table.name@ == name@
                &&& table.players@ == Seq::<Player>::empty()
                &&& table.game == game_type
                &&& table.minimum_buy_in_chips_amount == minimum_buy_in_chips_amount
                &&& table.maximum_players_count == maximum_players_count
            },
            final(self)@ == old(self)@,
            final(self).patrons() == old(self).patrons(),
    {
        let table = Table::new(
            name.to_owned(),
            game_type,
            minimum_buy_in_chips_amount,
            maximum_players_count,
        );
        Ok(table)
    }

    /// Files `table` under its game and its name. Where a table stands
    /// there already, that table stays and `table` is dropped; either way
    /// the answer is `Ok`.
    pub fn add_table(&mut self, table: Table) -> (filed: Result<(), CasinoError>)
        ensures
            filed is Ok,
            final(self)@ == with_table(old(self)@, table),
            no_empty_bucket(final(self)@),
            final(self).patrons() == old(self).patrons(),
    {
        proof {
            use_type_invariant(&*self);
        }
        let ghost before = self@;
        let mut games = NameMap::new();
        std::mem::swap(&mut games, &mut self.games);
        let label = table.game.get_string();
        let mut tables = match games.remove(label.as_str()) {
            Some(tables) => tables,
            None => NameMap::new(),
        };
        tables.insert_if_absent(table.name.clone(), table);
        assert(tables@.contains_key(table.name@));
        games.insert_if_absent(label, tables);
        proof {
            assert(tables_of(games@) =~= with_table(before, table));
            assert(with_table(before, table)[table.game.label()].contains_key(table.name@));
        }
        self.games = games;
        Ok(())
    }

    /// Strikes the table `table_name` of the game. A game without tables has
    /// none to strike: `NotFound`. A game that has tables, but none of this
    /// name, stays as it is.
    pub fn remove_table(&mut self, table_name: &str, game_type: GameType) -> (struck: Result<
        (),
        CasinoError,
    >)
        ensures
            struck is Err <==> !old(self)@.contains_key(game_type.label()),
            struck matches Err(error) ==> error == CasinoError::NotFound,
            final(self)@ == without_table(old(self)@, table_name@, game_type.label()),
            no_empty_bucket(final(self)@),
            final(self).patrons() == old(self).patrons(),
    {
        proof {
            use_type_invariant(&*self);
        }
        let ghost before = self@;
        let label = game_type.get_string();
        let mut games = NameMap::new();
        std::mem::swap(&mut games, &mut self.games);
        let struck = match games.remove(label.as_str()) {
            Some(mut tables) => {
                tables.remove(table_name);
                if tables.len() == 0 {
                    proof {
                        assert(vacant(tables@)) by {
                            assert(tables@.dom() =~= Set::<Seq<char>>::empty());
                        }
                    }
                } else {
                    proof {
                        assert(!vacant(tables@)) by {
                            if vacant(tables@) {
                                assert(tables@.dom() =~= Set::<Seq<char>>::empty());
                            }
                        }
                    }
                    games.insert_if_absent(label, tables);
                }
                Ok(())
            },
            None => Err(CasinoError::NotFound),
        };
        proof {
            assert(tables_of(games@) =~= without_table(
                before,
                table_name@,
                game_type.label(),
            ));
        }
        self.games = games;
        struck
    }

    /// The table `table_name` of the game.
    pub fn get_table(&self, table_name: &str, game_type: GameType) -> (found: Result<
        &Table,
        CasinoError,
    >)
        ensures
            found is Ok <==> lookup(self@, table_name@, game_type.label()) is Some,
            found matches Ok(table) ==> lookup(self@, table_name@, game_type.label()) == Some(
                *table,
            ),
            found matches Err(error) ==> error == CasinoError::NotFound,
    {
        let label = game_type.get_string();
        if let Some(tables) = self.games.get(label.as_str()) {
            if let Some(table) = tables.get(table_name) {
                return Ok(table);
            }
        }
        Err(CasinoError::NotFound)
    }

    /// Takes `player` into the casino unless the casino knows them already,
    /// and says whether they were taken in.
    pub fn enroll(&mut self, player: Player) -> (added: bool)
        ensures
            added == !seated(old(self).patrons(), player.identifier),
            final(self).patrons() == after_join(old(self).patrons(), player),
            final(self)@ == old(self)@,
    {
        proof {
            use_type_invariant(&*self);
        }
        let mut players = Roster::new();
        std::mem::swap(&mut players, &mut self.players);
        let added = players.insert(player);
        self.players = players;
        added
    }

    /// Takes in a player with a fresh identity and the default balance, and
    /// hands back the record that the casino holds under that identity: the
    /// new player's, unless the casino knew the identity already.
    pub fn add_player(&mut self, player_name: &str) -> (added: Result<&Player, CasinoError>)
        ensures
            added matches Ok(record) && {
                &&& final(self).patrons() == after_join(old(self).patrons(), *record)
                &&& seated(final(self).patrons(), record.identifier)
                &&& *record == final(self).patrons()[seat_of(
                    final(self).patrons(),
                    record.identifier,
                )]
                &&& !seated(old(self).patrons(), record.identifier) ==> record.name@
                    == player_name@ && record.chips == DEFAULT_BUY_IN_CHIPS_AMOUNT
            },
            final(self)@ == old(self)@,
    {
        let player = Player::new(player_name);
        self.enroll(player.clone());
        proof {
            use_type_invariant(&self.players);
            let before = old(self).patrons();
            if !seated(before, player.identifier) {
                assert(self.patrons()[before.len() as int] == player);
                lemma_seat_is_unique(self.patrons(), before.len() as int);
            } else {
                let seat = seat_of(before, player.identifier);
                assert(before[seat].identifier == player.identifier);
            }
        }
        match self.players.get(&player) {
            Some(record) => Ok(record),
            None => Err(CasinoError::NotFound),
        }
    }

    /// Takes in a player with a fresh identity and the given balance, and
    /// hands back their record.
    pub fn add_player_with_chips(&mut self, player_name: &str, chips: u32) -> (added: Result<
        Player,
        CasinoError,
    >)
        ensures
            added matches Ok(player) && {
                &&& player.name@ == player_name@
                &&& player.chips == chips
                &&& final(self).patrons() == after_join(old(self).patrons(), player)
            },
            final(self)@ == old(self)@,
    {
        let player = Player::new_with_chips(player_name, chips);
        self.enroll(player.clone());
        Ok(player)
    }

    /// Strikes `player` from the casino and hands back the record that it
    /// held of them. The tables are not told: a seat that the player holds
    /// stays theirs.
    pub fn remove_player(&mut self, player: &Player) -> (removed: Result<Player, CasinoError>)
        ensures
            removed is Ok <==> seated(old(self).patrons(), player.identifier),
            removed matches Ok(record) ==> record == old(self).patrons()[seat_of(
                old(self).patrons(),
                player.identifier,
            )],
            removed matches Err(error) ==> error == CasinoError::NotFound,
            final(self).patrons() == after_leave(old(self).patrons(), player.identifier),
            final(self)@ == old(self)@,
    {
        proof {
            use_type_invariant(&*self);
        }
        let mut players = Roster::new();
        std::mem::swap(&mut players, &mut self.players);
        let taken = players.take(player);
        self.players = players;
        match taken {
            Some(record) => Ok(record),
            None => Err(CasinoError::NotFound),
        }
    }
}

} // verus!
