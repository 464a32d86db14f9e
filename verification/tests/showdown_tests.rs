use casino::deck::{Card, Hand};
use casino::player::Player;
use casino::showdown::{leading_players, resolve, Contender, HandRank, Outcome};

const HIGH_CARD: HandRank = HandRank(100);
const PAIR_OF_ACES: HandRank = HandRank(212);
const TWO_PAIR: HandRank = HandRank(300);
const FLUSH: HandRank = HandRank(600);

fn contender(identifier: u128, name: &str, rank: HandRank) -> Contender {
    let seat = identifier as u8;
    Contender {
        player: Player::with_identifier(identifier, name, 100),
        hand: Hand {
            cards: [Card { value: seat % 13, suit: 0 }, Card { value: seat % 13, suit: 1 }],
        },
        rank,
    }
}

fn names(contenders: &[Contender]) -> Vec<&str> {
    contenders.iter().map(|c| c.player.name.as_str()).collect()
}

#[test]
fn two_pairs_of_aces_push_and_high_card_is_out() {
    let round = vec![
        contender(1, "A", PAIR_OF_ACES),
        contender(2, "B", PAIR_OF_ACES),
        contender(3, "C", HIGH_CARD),
    ];
    assert_eq!(names(&leading_players(&round)), vec!["A", "B"]);
    match resolve(&round) {
        Outcome::Push(tied) => {
            assert_eq!(names(&tied), vec!["A", "B"]);
            assert_eq!(tied[0].rank, PAIR_OF_ACES);
            assert_eq!(tied[1].rank, PAIR_OF_ACES);
            assert_eq!(tied[0].hand, round[0].hand);
            assert_eq!(tied[1].hand, round[1].hand);
        }
        other => panic!("{:?}", other),
    }
}

#[test]
fn flush_beats_two_pair() {
    let round = vec![contender(1, "A", FLUSH), contender(2, "B", TWO_PAIR)];
    assert_eq!(names(&leading_players(&round)), vec!["A"]);
    match resolve(&round) {
        Outcome::Win(winner) => {
            assert_eq!(winner.player.name, "A");
            assert_eq!(winner.player.identifier, 1);
            assert_eq!(winner.rank, FLUSH);
            assert_eq!(winner.hand, round[0].hand);
        }
        other => panic!("{:?}", other),
    }
}

#[test]
fn flush_beats_two_pair_in_the_other_order() {
    let round = vec![contender(2, "B", TWO_PAIR), contender(1, "A", FLUSH)];
    assert_eq!(names(&leading_players(&round)), vec!["A"]);
    assert!(matches!(resolve(&round), Outcome::Win(winner) if winner.player.name == "A"));
}

#[test]
fn nobody_leads_an_empty_round() {
    let round: Vec<Contender> = Vec::new();
    assert!(leading_players(&round).is_empty());
    assert!(matches!(resolve(&round), Outcome::NoContest));
}

#[test]
fn a_lone_contender_wins() {
    let round = vec![contender(1, "A", HandRank(0))];
    assert!(matches!(resolve(&round), Outcome::Win(winner) if winner.player.name == "A"));
}

#[test]
fn later_better_hand_clears_the_earlier_leaders() {
    let round = vec![
        contender(1, "A", TWO_PAIR),
        contender(2, "B", TWO_PAIR),
        contender(3, "C", FLUSH),
        contender(4, "D", HIGH_CARD),
        contender(5, "E", FLUSH),
    ];
    assert_eq!(names(&leading_players(&round)), vec!["C", "E"]);
    assert!(matches!(resolve(&round), Outcome::Push(tied) if tied.len() == 2));
}

#[test]
fn everybody_pushes_when_all_hold_the_same() {
    let round = vec![
        contender(1, "A", HIGH_CARD),
        contender(2, "B", HIGH_CARD),
        contender(3, "C", HIGH_CARD),
    ];
    assert_eq!(names(&leading_players(&round)), vec!["A", "B", "C"]);
}

#[test]
fn extreme_ranks() {
    let round = vec![
        contender(1, "A", HandRank(0)),
        contender(2, "B", HandRank(u32::MAX)),
        contender(3, "C", HandRank(u32::MAX - 1)),
    ];
    assert_eq!(names(&leading_players(&round)), vec!["B"]);
}

#[test]
fn leaders_do_not_depend_on_the_order() {
    let ranks = [TWO_PAIR, HIGH_CARD, TWO_PAIR, PAIR_OF_ACES];
    let orders: [[usize; 4]; 6] = [
        [0, 1, 2, 3],
        [3, 2, 1, 0],
        [1, 0, 3, 2],
        [2, 3, 0, 1],
        [1, 3, 0, 2],
        [3, 0, 2, 1],
    ];
    for order in orders.iter() {
        let round: Vec<Contender> = order
            .iter()
            .map(|&seat| contender(seat as u128 + 1, &format!("P{}", seat), ranks[seat]))
            .collect();
        let mut leaders: Vec<u128> =
            leading_players(&round).iter().map(|c| c.player.identifier).collect();
        leaders.sort();
        assert_eq!(leaders, vec![1, 3]);
    }
}

#[test]
fn hand_ranks_are_ordered_by_their_number() {
    assert!(FLUSH > TWO_PAIR);
    assert!(TWO_PAIR > PAIR_OF_ACES);
    assert!(PAIR_OF_ACES > HIGH_CARD);
    assert!(HandRank(5) == HandRank(5));
    assert!(HandRank(5) < HandRank(6));
}
