//! The dealer: owner of the deck, who shuffles it and deals from its top.

use vstd::prelude::*;
use vstd::multiset::Multiset;
use vstd::seq_lib::{lemma_multiset_commutative, to_multiset_build};
use crate::card::Card;
use crate::deck::Deck;
use crate::hand::{lemma_score_push, Hand};
use crate::shuffle::{is_shuffle_of, is_shuffled, lemma_shuffled_permutes};

verus! {

/// Why a card could not be dealt.
#[derive(Clone, Copy, Debug, PartialEq, Eq, Structural)]
pub enum DealError {
    /// The deck does not hold the cards that were asked for.
    DeckExhausted,
}

/// Holds the deck of one round.
#[derive(Debug)]
pub struct Dealer {
    pub deck: Deck,
}

/// The cards of a deck and of what is held of it in hands, taken together:
/// every card as often as it occurs in the one or the other.
pub open spec fn in_play(deck: Seq<Card>, held: Seq<Card>) -> Multiset<Card> {
    deck.to_multiset().add(held.to_multiset())
}

/// Dealing loses no card and makes none: once the top card of the deck has
/// gone to the cards held, deck and hands together hold what they held
/// before.
pub proof fn lemma_dealing_keeps_cards(deck: Seq<Card>, held: Seq<Card>)
    requires
        deck.len() > 0,
    ensures
        in_play(deck.drop_last(), held.push(deck.last())) == in_play(deck, held),
{
    to_multiset_build(deck.drop_last(), deck.last());
    to_multiset_build(held, deck.last());
    assert(deck.drop_last().push(deck.last()) =~= deck);
}

/// The opening deal loses no card and makes none: what is left of the deck
/// and the two hands hold together what the deck held.
pub proof fn lemma_opening_deal_keeps_cards(cards: Seq<Card>)
    requires
        cards.len() >= 4,
    ensures
        ({
            let n = cards.len() as int;
            let dealer_hand = seq![cards[n - 2], cards[n - 4]];
            let player_hand = seq![cards[n - 1], cards[n - 3]];
            in_play(cards.take(n - 4), dealer_hand + player_hand) == cards.to_multiset()
        }),
{
    let n = cards.len() as int;
    let (a, b, c, d) = (cards[n - 4], cards[n - 3], cards[n - 2], cards[n - 1]);
    let none = Seq::<Card>::empty();
    let rest = cards.take(n - 4);
    let dealt = cards.skip(n - 4);
    let held = seq![c, a] + seq![d, b];
    assert(rest + dealt =~= cards);
    lemma_multiset_commutative(rest, dealt);
    assert(dealt.to_multiset() == held.to_multiset()) by {
        assert(dealt =~= none.push(a).push(b).push(c).push(d));
        assert(held =~= none.push(c).push(a).push(d).push(b));
        to_multiset_build(none, a);
        to_multiset_build(none.push(a), b);
        to_multiset_build(none.push(a).push(b), c);
        to_multiset_build(none.push(a).push(b).push(c), d);
        to_multiset_build(none, c);
        to_multiset_build(none.push(c), a);
        to_multiset_build(none.push(c).push(a), d);
        to_multiset_build(none.push(c).push(a).push(d), b);
    }
}

impl Dealer {
    /// A dealer with a full deck that has been shuffled three times.
    pub fn new() -> (dealer: Dealer)
        ensures
            is_shuffled(dealer.deck@, Deck::fresh(), 3),
            Deck::is_full(dealer.deck@),
            dealer.deck@.no_duplicates(),
    {
        let mut deck = Deck::build();
        for passes in 0..3usize
            invariant
                is_shuffled(deck@, Deck::fresh(), passes as nat),
        {
            Dealer::shuffle(&mut deck.cards);
        }
        proof {
            lemma_shuffled_permutes(deck@, Deck::fresh(), 3);
            Deck::lemma_fresh_is_full();
            Deck::lemma_full_in_any_order(deck@, Deck::fresh());
        }
        Dealer { deck }
    }

    /// Shuffles the deck once.
    pub fn shuffle_deck(&mut self)
        ensures
            is_shuffle_of(final(self).deck@, old(self).deck@),
            final(self).deck@.len() == old(self).deck@.len(),
            final(self).deck@.to_multiset() == old(self).deck@.to_multiset(),
            old(self).deck@.len() < 2 ==> final(self).deck@ == old(self).deck@,
    {
        Dealer::shuffle(&mut self.deck.cards);
    }

    /// Takes the top card off the deck, if there is one.
    pub fn pop_card(&mut self) -> (popped: Result<Card, DealError>)
        ensures
            match popped {
                Ok(card) => {
                    &&& old(self).deck@.len() > 0
                    &&& card == old(self).deck@.last()
                    &&& final(self).deck@ == old(self).deck@.drop_last()
                },
                Err(error) => {
                    &&& error == DealError::DeckExhausted
                    &&& old(self).deck@.len() == 0
                    &&& final(self).deck@ == old(self).deck@
                },
            },
    {
        match self.deck.cards.pop() {
            Some(card) => Ok(card),
            None => Err(DealError::DeckExhausted),
        }
    }

    /// Deals the top card of the deck to `hand`, where it becomes the last
    /// card, and hands the hand back. With an empty deck nothing changes and
    /// the error says so.
    pub fn hit<'a>(&mut self, hand: &'a mut Hand) -> (outcome: Result<&'a mut Hand, DealError>)
        ensures
            match outcome {
                Ok(held) => {
                    &&& old(self).deck@.len() > 0
                    &&& final(self).deck@ == old(self).deck@.drop_last()
                    &&& held@ == old(hand)@.push(old(self).deck@.last())
                    &&& held.score() == old(hand).score() + old(self).deck@.last().rank.value()
                    &&& in_play(final(self).deck@, held@) == in_play(old(self).deck@, old(hand)@)
                    &&& *final(hand) == *final(held)
                },
                Err(error) => {
                    &&& error == DealError::DeckExhausted
                    &&& old(self).deck@.len() == 0
                    &&& final(self).deck@ == old(self).deck@
                    &&& *final(hand) == *old(hand)
                },
            },
    {
        match self.pop_card() {
            Ok(card) => {
                proof {
                    lemma_score_push(hand@, card);
                    lemma_dealing_keeps_cards(old(self).deck@, hand@);
                }
                hand.cards.push(card);
                Ok(hand)
            },
            Err(error) => Err(error),
        }
    }

    /// Deals two cards each to the player and to the dealer, from the top of
    /// the deck and in turn: the player gets the first and the third card,
    /// the dealer the second and the fourth. The dealer's hand comes first in
    /// the result. A deck of fewer than four cards is left as it is, and the
    /// error says so.
    pub fn deal_new_hand(&mut self) -> (dealt: Result<(Hand, Hand), DealError>)
        ensures
            match dealt {
                Ok((dealer_hand, player_hand)) => {
                    let cards = old(self).deck@;
                    let n = cards.len() as int;
                    &&& n >= 4
                    &&& player_hand@ == seq![cards[n - 1], cards[n - 3]]
                    &&& dealer_hand@ == seq![cards[n - 2], cards[n - 4]]
                    &&& final(self).deck@ == cards.take(n - 4)
                    &&& in_play(final(self).deck@, dealer_hand@ + player_hand@)
                        == cards.to_multiset()
                },
                Err(error) => {
                    &&& error == DealError::DeckExhausted
                    &&& old(self).deck@.len() < 4
                    &&& final(self).deck@ == old(self).deck@
                },
            },
    {
        if self.deck.cards.len() < 4 {
            return Err(DealError::DeckExhausted);
        }
        let mut dealer_hand = Hand::new();
        let mut player_hand = Hand::new();
        player_hand.cards.push(self.pop_card()?);
        dealer_hand.cards.push(self.pop_card()?);
        player_hand.cards.push(self.pop_card()?);
        dealer_hand.cards.push(self.pop_card()?);
        proof {
            let cards = old(self).deck@;
            let n = cards.len() as int;
            assert(dealer_hand@ =~= seq![cards[n - 2], cards[n - 4]]);
            assert(player_hand@ =~= seq![cards[n - 1], cards[n - 3]]);
            assert(self.deck@ =~= cards.take(n - 4));
            lemma_opening_deal_keeps_cards(cards);
        }
        Ok((dealer_hand, player_hand))
    }
}

} // verus!
