//! One game of Texas hold 'em: a deck, the players, and the rounds.

use crate::deck::{draw_card, reshuffle, sorted_deck, undealt, whole_deck, Card, Hand};
use crate::error::CasinoError;
use crate::player::{Player, DEFAULT_BUY_IN_CHIPS_AMOUNT};
use crate::roster::{after_join, after_leave, seated, Roster};
use crate::showdown::{resolve, settles, Contender, HandRank, Outcome};
use cards::deck::Deck;
use vstd::prelude::*;

verus! {

/// The cards that a hand is ranked on: the cards on the table, then the two
/// cards of the hand.
pub open spec fn candidate_cards(community: Seq<Card>, hand: Hand) -> Seq<Card> {
    community + hand.cards@
}

/// Whether `rank` is what the ranking gave for `hand` with `community` on
/// the table.
pub open spec fn ranked_by<F: Fn(Vec<Card>) -> HandRank>(
    rank_hand: &F,
    community: Seq<Card>,
    hand: Hand,
    rank: HandRank,
) -> bool {
    exists|cards: Vec<Card>|
        cards@ == candidate_cards(community, hand) && #[trigger] call_ensures(
            *rank_hand,
            (cards,),
            rank,
        )
}

/// Whether the ranking takes every two cards that a deck can deal.
pub open spec fn ranks_every_hand<F: Fn(Vec<Card>) -> HandRank>(rank_hand: &F) -> bool {
    forall|cards: Vec<Card>|
        cards@.len() == 2 && cards@[0].valid() && cards@[1].valid() && cards@[0] != cards@[1]
            ==> #[trigger] call_requires(*rank_hand, (cards,))
}

/// The cards of the hands, in the order in which they were dealt, each by
/// its place in a sorted deck.
pub open spec fn dealt_cards(contenders: Seq<Contender>) -> Seq<u8> {
    Seq::new(
        2 * contenders.len(),
        |k: int| contenders[k / 2].hand.cards[k % 2].code() as u8,
    )
}

/// The cards that a hand is ranked on, for the ranking to take.
pub fn cards_to_rank(community: &Vec<Card>, hand: &Hand) -> (cards: Vec<Card>)
    ensures
        cards@ == candidate_cards(community@, *hand),
{
    let mut cards = community.clone();
    cards.push(hand.cards[0]);
    cards.push(hand.cards[1]);
    cards
}

/// What happened in one round.
#[derive(Debug)]
pub struct RoundReport {
    /// The cards on the table. No round puts any there.
    pub community: Vec<Card>,
    /// The players with the hands they were dealt and their ranks, in the
    /// order of the deal.
    pub contenders: Vec<Contender>,
    /// Who won, or who pushed.
    pub outcome: Outcome,
}

/// A game: its deck, its players, and whether it has ended.
pub struct Game {
    deck: Deck,
    players: Roster,
    game_over: bool,
}

impl Game {
    /// The players of the game, in the order in which they joined.
    pub closed spec fn roster(&self) -> Seq<Player> {
        self.players@
    }

    /// The cards that the deck has not dealt, next card first.
    pub closed spec fn stock(&self) -> Seq<u8> {
        undealt(self.deck)
    }

    /// Whether the game has ended.
    pub closed spec fn over(&self) -> bool {
        self.game_over
    }

    /// Whether `report` tells a round of this game, as the game stands after
    /// it: every player was dealt two cards off the top of a whole deck, in
    /// the order of the seats; each hand has the rank that `rank_hand` gave
    /// it; and the outcome names the leaders.
    pub open spec fn records<F: Fn(Vec<Card>) -> HandRank>(
        &self,
        rank_hand: &F,
        report: RoundReport,
    ) -> bool {
        &&& report.community@ == Seq::<Card>::empty()
        &&& report.contenders@.len() == self.roster().len()
        &&& forall|i: int|
            0 <= i < report.contenders@.len() ==> {
                let contender = #[trigger] report.contenders@[i];
                &&& contender.player == self.roster()[i]
                &&& contender.hand.cards[0].valid()
                &&& contender.hand.cards[1].valid()
                &&& ranked_by(rank_hand, report.community@, contender.hand, contender.rank)
            }
        &&& whole_deck(dealt_cards(report.contenders@) + self.stock())
        &&& settles(report.outcome, report.contenders@)
    }

    /// A new game: a sorted deck, no players, not over.
    pub fn new() -> (game: Game)
        ensures
            game.roster() == Seq::<Player>::empty(),
            game.stock() == Seq::new(52, |i: int| i as u8),
            !game.over(),
    {
        Game { deck: sorted_deck(), players: Roster::new(), game_over: false }
    }

    /// The players of the game.
    pub fn players(&self) -> (players: &Roster)
        ensures
            players@ == self.roster(),
    {
        &self.players
    }

    /// Whether the game has ended.
    pub fn game_over(&self) -> (over: bool)
        ensures
            over == self.over(),
    {
        self.game_over
    }

    /// Lets `player` into the game unless they are in it already, and says
    /// whether they were let in.
    pub fn seat(&mut self, player: Player) -> (added: bool)
        ensures
            added == !seated(old(self).roster(), player.identifier),
            final(self).roster() == after_join(old(self).roster(), player),
            final(self).stock() == old(self).stock(),
            final(self).over() == old(self).over(),
    {
        self.players.insert(player)
    }

    /// Adds a player with a fresh identity and the default buy-in, and
    /// hands back their record.
    pub fn add_player(&mut self, player_name: &str) -> (player: Player)
        ensures
            player.name@ == player_name@,
            player.chips == DEFAULT_BUY_IN_CHIPS_AMOUNT,
            final(self).roster() == after_join(old(self).roster(), player),
            final(self).stock() == old(self).stock(),
            final(self).over() == old(self).over(),
    {
        self.add_player_with_chips(player_name, DEFAULT_BUY_IN_CHIPS_AMOUNT)
    }

    /// Adds a player with a fresh identity and the given buy-in, and hands
    /// back their record.
    pub fn add_player_with_chips(&mut self, player_name: &str, chips: u32) -> (player: Player)
        ensures
            player.name@ == player_name@,
            player.chips == chips,
            final(self).roster() == after_join(old(self).roster(), player),
            final(self).stock() == old(self).stock(),
            final(self).over() == old(self).over(),
    {
        let player = Player::new_with_chips(player_name, chips);
        self.seat(player.clone());
        player
    }

    /// Takes `player` out of the game.
    pub fn remove_player(&mut self, player: &Player)
        ensures
            final(self).roster() == after_leave(old(self).roster(), player.identifier),
            final(self).stock() == old(self).stock(),
            final(self).over() == old(self).over(),
    {
        self.players.remove(player);
    }

    /// Whether too few players are left for another round: fewer than two.
    pub fn is_game_over(&self) -> (over: bool)
        ensures
            over == (self.roster().len() < 2),
    {
        self.players.len() < 2
    }

    /// Deals one hand: the next two cards of the deck. A deck with fewer
    /// than two cards is exhausted, and is empty afterwards.
    pub fn deal_hand(&mut self) -> (dealt: Result<Hand, CasinoError>)
        ensures
            final(self).roster() == old(self).roster(),
            final(self).over() == old(self).over(),
            dealt is Ok <==> old(self).stock().len() >= 2,
            dealt matches Ok(hand) ==> {
                &&& hand.cards[0].valid() && hand.cards[0].code() == old(self).stock()[0]
                &&& hand.cards[1].valid() && hand.cards[1].code() == old(self).stock()[1]
                &&& final(self).stock() == old(self).stock().skip(2)
            },
            dealt matches Err(error) ==> error == CasinoError::DeckExhausted,
            dealt is Err ==> final(self).stock().len() == 0,
    {
        let first = match draw_card(&mut self.deck) {
            Some(card) => card,
            None => { return Err(CasinoError::DeckExhausted); },
        };
        let second = match draw_card(&mut self.deck) {
            Some(card) => card,
            None => { return Err(CasinoError::DeckExhausted); },
        };
        proof {
            let before = old(self).stock();
            assert(before.drop_first().drop_first() == before.skip(2));
        }
        Ok(Hand { cards: [first, second] })
    }

    /// Plays one round: shuffles the whole deck, deals a hand to every
    /// player in the order of the seats, has every hand ranked, and names
    /// the leaders. With more players than the deck has hands for, the deck
    /// is exhausted and the round is lost.
    pub fn play_round<F: Fn(Vec<Card>) -> HandRank>(&mut self, rank_hand: &F) -> (round: Result<
        RoundReport,
        CasinoError,
    >)
        requires
            ranks_every_hand(rank_hand),
        ensures
            final(self).roster() == old(self).roster(),
            final(self).over() == old(self).over(),
            round is Err <==> 2 * old(self).roster().len() > 52,
            round matches Err(error) ==> error == CasinoError::DeckExhausted,
            round is Err ==> final(self).stock().len() == 0,
            round matches Ok(report) ==> final(self).records(rank_hand, report),
    {
        reshuffle(&mut self.deck);
        let ghost shuffled = self.stock();
        let count = self.players.len();
        let mut hands: Vec<Hand> = Vec::new();
        while hands.len() < count
            invariant
                count == self.roster().len(),
                self.roster() == old(self).roster(),
                self.over() == old(self).over(),
                whole_deck(shuffled),
                hands@.len() <= count,
                2 * hands@.len() <= 52,
                self.stock() == shuffled.skip(2 * (hands@.len() as int)),
                forall|i: int|
                    0 <= i < hands@.len() ==> {
                        let hand = #[trigger] hands@[i];
                        &&& hand.cards[0].valid() && hand.cards[0].code() == shuffled[2 * i]
                        &&& hand.cards[1].valid() && hand.cards[1].code() == shuffled[2 * i + 1]
                    },
            decreases count - hands@.len(),
        {
            match self.deal_hand() {
                Ok(hand) => {
                    hands.push(hand);
                    proof {
                        let dealt = hands@.len() as int - 1;
                        assert(shuffled.skip(2 * dealt).skip(2) == shuffled.skip(2 * dealt + 2));
                    }
                },
                Err(error) => {
                    return Err(error);
                },
            }
        }
        proof {
            assert forall|i: int| 0 <= i < hands@.len() implies (#[trigger] hands@[i]).cards[0]
                != hands@[i].cards[1] by {
                assert(shuffled[2 * i] != shuffled[2 * i + 1]);
            }
        }
        let community: Vec<Card> = Vec::new();
        let players = self.players.players();
        let mut contenders: Vec<Contender> = Vec::new();
        while contenders.len() < count
            invariant
                count == players@.len(),
                count == hands@.len(),
                contenders@.len() <= count,
                community@ == Seq::<Card>::empty(),
                ranks_every_hand(rank_hand),
                forall|i: int|
                    0 <= i < hands@.len() ==> {
                        let hand = #[trigger] hands@[i];
                        hand.cards[0].valid() && hand.cards[1].valid() && hand.cards[0]
                            != hand.cards[1]
                    },
                forall|i: int|
                    0 <= i < contenders@.len() ==> {
                        let contender = #[trigger] contenders@[i];
                        &&& contender.player == players@[i]
                        &&& contender.hand == hands@[i]
                        &&& ranked_by(rank_hand, community@, contender.hand, contender.rank)
                    },
            decreases count - contenders@.len(),
        {
            let seat = contenders.len();
            let hand = hands[seat];
            let cards = cards_to_rank(&community, &hand);
            let rank = rank_hand(cards);
            contenders.push(Contender { player: players[seat].clone(), hand, rank });
        }
        let outcome = resolve(&contenders);
        proof {
            let dealt = dealt_cards(contenders@);
            assert(dealt + self.stock() == shuffled) by {
                assert forall|k: int| 0 <= k < dealt.len() implies dealt[k] == shuffled[k] by {
                    let hand = hands@[k / 2];
                    assert(contenders@[k / 2].hand == hand);
                    if k % 2 == 0 {
                        assert(hand.cards[0].code() == shuffled[2 * (k / 2)]);
                    } else {
                        assert(hand.cards[1].code() == shuffled[2 * (k / 2) + 1]);
                    }
                }
            }
        }
        Ok(RoundReport { community, contenders, outcome })
    }

    /// Plays the game to its end and hands back the report of every round.
    /// No bets are placed, so the first round is the last; a game that is
    /// over plays none. The game is over afterwards, whether the round was
    /// played or lost.
    pub fn play<F: Fn(Vec<Card>) -> HandRank>(&mut self, rank_hand: F) -> (rounds: Result<
        Vec<RoundReport>,
        CasinoError,
    >)
        requires
            ranks_every_hand(&rank_hand),
        ensures
            final(self).roster() == old(self).roster(),
            final(self).over(),
            old(self).over() ==> final(self).stock() == old(self).stock() && (rounds matches Ok(
                reports,
            ) && reports@.len() == 0),
            !old(self).over() ==> {
                &&& rounds is Err <==> 2 * old(self).roster().len() > 52
                &&& rounds matches Err(error) ==> error == CasinoError::DeckExhausted
                &&& rounds is Err ==> final(self).stock().len() == 0
                &&& rounds matches Ok(reports) ==> reports@.len() == 1 && final(self).records(
                    &rank_hand,
                    reports@[0],
                )
            },
    {
        let mut reports: Vec<RoundReport> = Vec::new();
        while !self.game_over
            invariant
                ranks_every_hand(&rank_hand),
                self.roster() == old(self).roster(),
                old(self).over() ==> self.over() && self.stock() == old(self).stock()
                    && reports@.len() == 0,
                !old(self).over() ==> {
                    ||| !self.over() && reports@.len() == 0
                    ||| {
                        &&& self.over()
                        &&& 2 * old(self).roster().len() <= 52
                        &&& reports@.len() == 1
                        &&& self.records(&rank_hand, reports@[0])
                    }
                },
            decreases
                    (if self.game_over {
                        0int
                    } else {
                        1int
                    }),
        {
            match self.play_round(&rank_hand) {
                Ok(report) => {
                    reports.push(report);
                    self.game_over = true;
                },
                Err(error) => {
                    self.game_over = true;
                    return Err(error);
                },
            }
        }
        Ok(reports)
    }
}

} // verus!
