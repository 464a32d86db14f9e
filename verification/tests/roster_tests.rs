use casino::player::{Player, DEFAULT_BUY_IN_CHIPS_AMOUNT};
use casino::roster::Roster;

fn player(identifier: u128, name: &str, chips: u32) -> Player {
    Player::with_identifier(identifier, name, chips)
}

#[test]
fn new_player_has_name_and_default_chips() {
    let alice = Player::new("Alice");
    assert_eq!(alice.name, "Alice");
    assert_eq!(alice.chips, 100);
    assert_eq!(DEFAULT_BUY_IN_CHIPS_AMOUNT, 100);
}

#[test]
fn new_player_with_chips_has_name_and_chips() {
    let bob = Player::new_with_chips("Bob", 2500);
    assert_eq!(bob.name, "Bob");
    assert_eq!(bob.chips, 2500);
}

#[test]
fn new_players_have_identities_of_their_own() {
    let first = Player::new("Twin");
    let second = Player::new("Twin");
    assert_ne!(first.identifier, second.identifier);
    assert!(first != second);
}

#[test]
fn new_identity_is_a_version_four_uuid() {
    let carol = Player::new("Carol");
    let identity = uuid::Uuid::from_u128(carol.identifier);
    assert_eq!(identity.get_version_num(), 4);
}

#[test]
fn with_identifier_keeps_every_field() {
    let dave = player(7, "Dave", 42);
    assert_eq!(dave.identifier, 7);
    assert_eq!(dave.name, "Dave");
    assert_eq!(dave.chips, 42);
}

#[test]
fn players_are_equal_by_identity_alone() {
    let one = player(1, "One", 10);
    let same = player(1, "Other name", 999);
    let other = player(2, "One", 10);
    assert!(one == same);
    assert!(one != other);
}

#[test]
fn clone_keeps_every_field() {
    let erin = player(11, "Erin", 77);
    let copy = erin.clone();
    assert_eq!(copy.identifier, 11);
    assert_eq!(copy.name, "Erin");
    assert_eq!(copy.chips, 77);
}

#[test]
fn new_roster_is_empty() {
    let roster = Roster::new();
    assert_eq!(roster.len(), 0);
    assert!(roster.is_empty());
    assert!(roster.players().is_empty());
}

#[test]
fn insert_seats_in_order() {
    let mut roster = Roster::new();
    assert!(roster.insert(player(3, "c", 1)));
    assert!(roster.insert(player(1, "a", 2)));
    assert!(roster.insert(player(2, "b", 3)));
    assert_eq!(roster.len(), 3);
    assert!(!roster.is_empty());
    let names: Vec<&str> = roster.players().iter().map(|p| p.name.as_str()).collect();
    assert_eq!(names, vec!["c", "a", "b"]);
    assert_eq!(roster.seat(3), Some(0));
    assert_eq!(roster.seat(1), Some(1));
    assert_eq!(roster.seat(2), Some(2));
    assert_eq!(roster.seat(4), None);
}

#[test]
fn insert_of_a_seated_player_keeps_the_first_record() {
    let mut roster = Roster::new();
    assert!(roster.insert(player(5, "first", 10)));
    assert!(!roster.insert(player(5, "second", 20)));
    assert_eq!(roster.len(), 1);
    let kept = roster.get(&player(5, "whoever", 0)).unwrap();
    assert_eq!(kept.name, "first");
    assert_eq!(kept.chips, 10);
}

#[test]
fn contains_and_get_go_by_identity() {
    let mut roster = Roster::new();
    roster.insert(player(8, "h", 1));
    assert!(roster.contains(&player(8, "another", 2)));
    assert!(!roster.contains(&player(9, "h", 1)));
    assert!(roster.get(&player(9, "h", 1)).is_none());
}

#[test]
fn take_hands_back_the_record_and_closes_the_gap() {
    let mut roster = Roster::new();
    roster.insert(player(1, "a", 10));
    roster.insert(player(2, "b", 20));
    roster.insert(player(3, "c", 30));
    let taken = roster.take(&player(2, "", 0)).unwrap();
    assert_eq!(taken.name, "b");
    assert_eq!(taken.chips, 20);
    assert_eq!(roster.len(), 2);
    let names: Vec<&str> = roster.players().iter().map(|p| p.name.as_str()).collect();
    assert_eq!(names, vec!["a", "c"]);
    assert!(roster.take(&player(2, "", 0)).is_none());
    assert_eq!(roster.len(), 2);
}

#[test]
fn remove_says_whether_the_player_was_there() {
    let mut roster = Roster::new();
    roster.insert(player(1, "a", 10));
    assert!(!roster.remove(&player(2, "b", 10)));
    assert_eq!(roster.len(), 1);
    assert!(roster.remove(&player(1, "a", 10)));
    assert!(roster.is_empty());
}

#[test]
fn rosters_are_equal_whatever_the_order() {
    let mut left = Roster::new();
    left.insert(player(1, "a", 10));
    left.insert(player(2, "b", 20));
    let mut right = Roster::new();
    right.insert(player(2, "b", 20));
    right.insert(player(1, "a", 10));
    assert!(left == right);
    right.insert(player(3, "c", 30));
    assert!(left != right);
    left.insert(player(4, "d", 40));
    assert!(left != right);
}
