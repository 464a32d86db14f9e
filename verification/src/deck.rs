//! Cards, hands, and the deck that they are dealt from.

use cards::deck::Deck;
use vstd::prelude::*;

verus! {

/// How many cards a whole deck holds.
pub const DECK_SIZE: usize = 52;

/// How many values a suit has.
pub const VALUES_PER_SUIT: u8 = 13;

/// A playing card: `value` counts from 0 for a two to 12 for an ace, `suit`
/// is 0 for spades, 1 for hearts, 2 for diamonds and 3 for clubs.
#[derive(Clone, Copy, Debug, PartialEq, Eq, Hash, Structural)]
pub struct Card {
    pub value: u8,
    pub suit: u8,
}

impl Card {
    /// Whether the card is one of the 52 of a deck.
    pub open spec fn valid(self) -> bool {
        self.value < 13 && self.suit < 4
    }

    /// The place of the card in a sorted deck: by suit, then by value.
    pub open spec fn code(self) -> int {
        self.suit * 13 + self.value
    }
}

/// The two cards that a player holds in a round.
#[derive(Clone, Copy, Debug, PartialEq, Eq, Hash)]
pub struct Hand {
    pub cards: [Card; 2],
}

/// `cards::deck::Deck`, taken as it is: the library sees nothing inside a
/// deck and speaks of it through `undealt` alone.
#[verifier::external_type_specification]
#[verifier::external_body]
pub struct ExDeck(Deck);

/// The cards that a `cards::deck::Deck` has not dealt yet, next card first,
/// each by its place in a sorted deck: 13 times the suit plus the value.
pub uninterp spec fn undealt(deck: Deck) -> Seq<u8>;

/// Whether `cards` are the 52 cards of a deck in some order.
pub open spec fn whole_deck(cards: Seq<u8>) -> bool {
    &&& cards.len() == 52
    &&& cards.no_duplicates()
    &&& forall|i: int| 0 <= i < cards.len() ==> cards[i] < 52
}

/// Calls `cards::deck::Deck::new_unshuffled`: a deck of 52 cards, nothing
/// dealt, sorted by suit and then by value.
#[verifier::external_body]
pub(crate) fn sorted_deck() -> (deck: Deck)
    ensures
        undealt(deck) == Seq::new(52, |i: int| i as u8),
{
    Deck::new_unshuffled()
}

/// Calls `cards::deck::Deck::reset_shuffled`: all 52 cards are back in the
/// deck, in an order that chance picks.
#[verifier::external_body]
pub(crate) fn reshuffle(deck: &mut Deck)
    ensures
        whole_deck(undealt(*final(deck))),
{
    deck.reset_shuffled()
}

/// Calls `cards::deck::Deck::draw`: the next card leaves the deck; an empty
/// deck gives none and stays as it is.
#[verifier::external_body]
pub(crate) fn draw_card(deck: &mut Deck) -> (drawn: Option<Card>)
    ensures
        drawn is Some <==> undealt(*old(deck)).len() > 0,
        drawn matches Some(card) ==> card.valid() && card.code() == undealt(*old(deck))[0]
            && undealt(*final(deck)) == undealt(*old(deck)).drop_first(),
        drawn is None ==> undealt(*final(deck)) == undealt(*old(deck)),
{
    match deck.draw() {
        Ok(card) => Some(Card { value: card.value as u8, suit: card.suit as u8 }),
        Err(_) => None,
    }
}

} // verus!
