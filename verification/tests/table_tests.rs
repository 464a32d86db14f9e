use casino::error::CasinoError;
use casino::game_type::GameType;
use casino::player::Player;
use casino::table::Table;

fn player(identifier: u128, name: &str, chips: u32) -> Player {
    Player::with_identifier(identifier, name, chips)
}

fn table(minimum: u32, seats: usize) -> Table {
    Table::new("High Rollers".to_string(), GameType::TexasHoldEm, minimum, seats)
}

fn seated_names(table: &Table) -> Vec<String> {
    table.players.players().iter().map(|p| p.name.clone()).collect()
}

#[test]
fn game_type_label() {
    assert_eq!(GameType::TexasHoldEm.get_string(), "Texas Hold 'Em");
}

#[test]
fn new_table_is_empty_and_keeps_its_terms() {
    let table = Table::new("Main".to_string(), GameType::TexasHoldEm, 50, 6);
    assert_eq!(table.name, "Main");
    assert_eq!(table.game, GameType::TexasHoldEm);
    assert_eq!(table.minimum_buy_in_chips_amount, 50);
    assert_eq!(table.maximum_players_count, 6);
    assert_eq!(table.players.len(), 0);
}

#[test]
fn join_seats_a_player_who_holds_the_buy_in() {
    let mut table = table(50, 6);
    assert_eq!(table.add_player(player(1, "Ann", 50)), Ok(()));
    assert_eq!(table.add_player(player(2, "Ben", 51)), Ok(()));
    assert_eq!(seated_names(&table), vec!["Ann", "Ben"]);
}

#[test]
fn join_with_too_few_chips_reports_the_deficit() {
    let mut table = table(100, 6);
    table.add_player(player(1, "Ann", 100)).unwrap();
    assert_eq!(
        table.add_player(player(2, "Ben", 30)),
        Err(CasinoError::InsufficientChips { deficit: 70 })
    );
    assert_eq!(
        table.add_player(player(3, "Cat", 99)),
        Err(CasinoError::InsufficientChips { deficit: 1 })
    );
    assert_eq!(
        table.add_player(player(4, "Dan", 0)),
        Err(CasinoError::InsufficientChips { deficit: 100 })
    );
    assert_eq!(seated_names(&table), vec!["Ann"]);
}

#[test]
fn join_with_the_largest_deficit() {
    let mut table = table(u32::MAX, 6);
    assert_eq!(
        table.add_player(player(1, "Ann", 0)),
        Err(CasinoError::InsufficientChips { deficit: u32::MAX })
    );
    assert_eq!(table.add_player(player(2, "Ben", u32::MAX)), Ok(()));
}

#[test]
fn third_player_at_a_table_for_two_is_refused() {
    let mut table = table(10, 2);
    assert_eq!(table.add_player(player(1, "Ann", 10)), Ok(()));
    assert_eq!(table.add_player(player(2, "Ben", 10)), Ok(()));
    assert_eq!(table.add_player(player(3, "Cat", 10)), Err(CasinoError::TableFull));
    assert_eq!(table.players.len(), 2);
    assert_eq!(seated_names(&table), vec!["Ann", "Ben"]);
}

#[test]
fn table_without_seats_refuses_everybody() {
    let mut table = table(0, 0);
    assert_eq!(table.add_player(player(1, "Ann", 10)), Err(CasinoError::TableFull));
    assert_eq!(table.players.len(), 0);
}

#[test]
fn full_table_is_reported_before_the_chips_are_counted() {
    let mut table = table(100, 1);
    table.add_player(player(1, "Ann", 100)).unwrap();
    assert_eq!(table.add_player(player(2, "Ben", 5)), Err(CasinoError::TableFull));
}

#[test]
fn full_table_refuses_a_player_who_sits_there() {
    let mut table = table(10, 1);
    table.add_player(player(1, "Ann", 10)).unwrap();
    assert_eq!(table.add_player(player(1, "Ann", 10)), Err(CasinoError::TableFull));
}

#[test]
fn seated_player_who_joins_again_keeps_the_seat() {
    let mut table = table(10, 4);
    table.add_player(player(1, "Ann", 10)).unwrap();
    assert_eq!(table.add_player(player(1, "Ann again", 500)), Ok(()));
    assert_eq!(table.players.len(), 1);
    assert_eq!(seated_names(&table), vec!["Ann"]);
}

#[test]
fn seat_is_free_again_after_a_player_left() {
    let mut table = table(10, 2);
    table.add_player(player(1, "Ann", 10)).unwrap();
    table.add_player(player(2, "Ben", 10)).unwrap();
    table.remove_player(&player(1, "Ann", 10)).unwrap();
    assert_eq!(table.add_player(player(3, "Cat", 10)), Ok(()));
    assert_eq!(seated_names(&table), vec!["Ben", "Cat"]);
}

#[test]
fn leave_hands_back_the_seated_record() {
    let mut table = table(10, 4);
    table.add_player(player(1, "Ann", 10)).unwrap();
    table.add_player(player(2, "Ben", 20)).unwrap();
    let left = table.remove_player(&player(2, "someone", 0)).unwrap();
    assert_eq!(left.identifier, 2);
    assert_eq!(left.name, "Ben");
    assert_eq!(left.chips, 20);
    assert_eq!(seated_names(&table), vec!["Ann"]);
}

#[test]
fn leave_takes_a_mutable_reference_too() {
    let mut table = table(10, 4);
    let mut ann = player(1, "Ann", 10);
    table.add_player(ann.clone()).unwrap();
    assert!(table.remove_player(&mut ann).is_ok());
}

#[test]
fn leave_an_empty_table() {
    let mut table = table(10, 4);
    let refused = table.remove_player(&player(1, "Ann", 10));
    assert!(matches!(refused, Err(CasinoError::TableEmpty)));
}

#[test]
fn leave_without_a_seat() {
    let mut table = table(10, 4);
    table.add_player(player(1, "Ann", 10)).unwrap();
    let refused = table.remove_player(&player(2, "Ben", 10));
    assert!(matches!(refused, Err(CasinoError::PlayerNotSeated)));
    assert_eq!(seated_names(&table), vec!["Ann"]);
}

#[test]
fn join_then_leave_restores_the_seats() {
    let mut table = table(10, 4);
    table.add_player(player(1, "Ann", 10)).unwrap();
    table.add_player(player(2, "Ben", 20)).unwrap();
    let before = seated_names(&table);
    table.add_player(player(3, "Cat", 30)).unwrap();
    let left = table.remove_player(&player(3, "Cat", 30)).unwrap();
    assert_eq!(left.name, "Cat");
    assert_eq!(seated_names(&table), before);
    assert_eq!(table.players.len(), 2);
}

#[test]
fn tables_are_equal_when_terms_and_players_are() {
    let mut left = table(10, 4);
    let mut right = table(10, 4);
    assert_eq!(left, right);
    left.add_player(player(1, "Ann", 10)).unwrap();
    assert_ne!(left, right);
    right.add_player(player(1, "Ann", 10)).unwrap();
    assert_eq!(left, right);
    assert_ne!(left, table(11, 4));
}
