//! A blackjack dealing engine: a deck of cards, a dealer that shuffles and
//! deals it, and hands with their scores.

pub mod card;
pub mod dealer;
pub mod deck;
pub mod hand;
pub mod shuffle;

pub use crate::card::{resolve_rank, Card, Rank, Suit};
pub use crate::dealer::{DealError, Dealer};
pub use crate::deck::Deck;
pub use crate::hand::Hand;

use vstd::prelude::*;
use crate::shuffle::{is_shuffled, lemma_shuffled_permutes};

verus! {

/// Opens a round and returns its deck, bottom card first: the deck of a new
/// dealer, shuffled once more.
pub fn run() -> (cards: Vec<Card>)
    ensures
        is_shuffled(cards@, Deck::fresh(), 4),
        Deck::is_full(cards@),
        cards@.no_duplicates(),
{
    let mut dealer = Dealer::new();
    dealer.shuffle_deck();
    proof {
        lemma_shuffled_permutes(dealer.deck@, Deck::fresh(), 4);
        Deck::lemma_fresh_is_full();
        Deck::lemma_full_in_any_order(dealer.deck@, Deck::fresh());
    }
    dealer.deck.cards
}

} // verus!
