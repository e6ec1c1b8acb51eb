//! The deck: fifty-two cards, one for every pairing of a suit with a rank.

use vstd::prelude::*;
use crate::card::{Card, Rank, Suit};

verus! {

/// The cards that have not been dealt yet. The top of the deck is the end of
/// `cards`.
#[derive(Debug)]
pub struct Deck {
    pub cards: Vec<Card>,
}

impl View for Deck {
    type V = Seq<Card>;

    open spec fn view(&self) -> Seq<Card> {
        self.cards@
    }
}

impl Deck {
    /// The number of cards in a full deck.
    pub const DECK_SIZE: usize = 52;

    /// The card at place `i` of a freshly built deck: the suits follow one
    /// another, and within a suit the ranks do.
    pub open spec fn fresh_card(i: int) -> Card {
        Card { suit: Suit::all()[i / 13], rank: Rank::all()[i % 13] }
    }

    /// A freshly built deck, bottom first.
    pub open spec fn fresh() -> Seq<Card> {
        Seq::new(52, |i: int| Deck::fresh_card(i))
    }

    /// The place of `card` in a freshly built deck.
    pub open spec fn fresh_place(card: Card) -> int {
        13 * card.suit.index() + card.rank.index()
    }

    /// A fresh deck holds `card` at `fresh_place(card)` and nowhere else.
    pub proof fn lemma_fresh_place(card: Card)
        ensures
            0 <= Deck::fresh_place(card) < 52,
            Deck::fresh()[Deck::fresh_place(card)] == card,
            forall|i: int| 0 <= i < 52 && Deck::fresh()[i] == card ==> i == Deck::fresh_place(card),
    {
        assert forall|i: int| 0 <= i < 52 && Deck::fresh()[i] == card implies i
            == Deck::fresh_place(card) by {
        }
    }

    /// `cards` are a full deck in some order: fifty-two cards, among them
    /// every pairing of a suit with a rank exactly once.
    pub open spec fn is_full(cards: Seq<Card>) -> bool {
        &&& cards.len() == 52
        &&& forall|card: Card| #[trigger] cards.to_multiset().count(card) == 1
    }

    /// A fresh deck is the full cross product of suits and ranks, and no card
    /// lies at two places of it.
    pub proof fn lemma_fresh_is_full()
        ensures
            Deck::is_full(Deck::fresh()),
            Deck::fresh().no_duplicates(),
    {
        let fresh = Deck::fresh();
        assert forall|i: int, j: int| 0 <= i < 52 && 0 <= j < 52 && i != j implies fresh[i]
            != fresh[j] by {
            Deck::lemma_fresh_place(fresh[i]);
        }
        fresh.lemma_multiset_has_no_duplicates();
        assert forall|card: Card| #[trigger] fresh.to_multiset().count(card) == 1 by {
            Deck::lemma_fresh_place(card);
            fresh.to_multiset_ensures();
        }
    }

    /// Cards that are the cards of a full deck are a full deck, in whatever
    /// order they lie, and none of them lies at two places.
    pub proof fn lemma_full_in_any_order(cards: Seq<Card>, full: Seq<Card>)
        requires
            Deck::is_full(full),
            cards.to_multiset() == full.to_multiset(),
        ensures
            Deck::is_full(cards),
            cards.no_duplicates(),
    {
        cards.to_multiset_ensures();
        full.to_multiset_ensures();
        cards.lemma_multiset_has_no_duplicates_conv();
    }

    /// Builds the full deck in its fixed order: suit by suit, and rank by
    /// rank within each suit.
    pub fn build() -> (deck: Deck)
        ensures
            deck@ == Deck::fresh(),
            Deck::is_full(deck@),
            deck@.no_duplicates(),
    {
        let mut cards: Vec<Card> = Vec::with_capacity(Deck::DECK_SIZE);
        let suits = Suit::all_suits();
        let ranks = Rank::all_ranks();
        for s in 0..suits.len()
            invariant
                suits@ == Suit::all(),
                ranks@ == Rank::all(),
                cards@ == Deck::fresh().take(13 * s),
        {
            for r in 0..ranks.len()
                invariant
                    0 <= s < 4,
                    suits@ == Suit::all(),
                    ranks@ == Rank::all(),
                    cards@ == Deck::fresh().take(13 * s + r),
            {
                cards.push(Card { suit: suits[s], rank: ranks[r] });
            }
        }
        proof {
            assert(cards@ =~= Deck::fresh());
            Deck::lemma_fresh_is_full();
        }
        Deck { cards }
    }
}

} // verus!
