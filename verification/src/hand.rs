//! A hand of cards and its score.

use vstd::prelude::*;
use crate::card::{resolve_rank, Card, Rank};

verus! {

/// The cards one party holds, in the order in which they were dealt.
#[derive(Debug)]
pub struct Hand {
    pub cards: Vec<Card>,
}

impl View for Hand {
    type V = Seq<Card>;

    open spec fn view(&self) -> Seq<Card> {
        self.cards@
    }
}

/// The score of a run of cards: the points of their ranks, added up.
pub open spec fn score_of(cards: Seq<Card>) -> nat
    decreases cards.len(),
{
    if cards.len() == 0 {
        0
    } else {
        score_of(cards.drop_last()) + cards.last().rank.value()
    }
}

/// One more card raises the score by the points of that card's rank.
pub proof fn lemma_score_push(cards: Seq<Card>, card: Card)
    ensures
        score_of(cards.push(card)) == score_of(cards) + card.rank.value(),
{
    assert(cards.push(card).drop_last() =~= cards);
}

/// The first cards of a hand never score more than the whole hand.
pub proof fn lemma_score_prefix(cards: Seq<Card>, n: int)
    requires
        0 <= n <= cards.len(),
    ensures
        score_of(cards.take(n)) <= score_of(cards),
    decreases cards.len(),
{
    if n < cards.len() {
        assert(cards.drop_last().take(n) =~= cards.take(n));
        lemma_score_prefix(cards.drop_last(), n);
    } else {
        assert(cards.take(n) =~= cards);
    }
}

/// Every card counts at least two points and at most eleven, so a hand
/// scores at least twice and at most eleven times the number of its cards.
pub proof fn lemma_score_bounds(cards: Seq<Card>)
    ensures
        2 * cards.len() <= score_of(cards) <= 11 * cards.len(),
    decreases cards.len(),
{
    if cards.len() > 0 {
        lemma_score_bounds(cards.drop_last());
    }
}

/// A jack and an ace, of whatever suits and in either order, score
/// twenty-one.
pub proof fn lemma_jack_and_ace_score(first: Card, second: Card)
    requires
        (first.rank == Rank::Jack && second.rank == Rank::Ace) || (first.rank == Rank::Ace
            && second.rank == Rank::Jack),
    ensures
        score_of(seq![first, second]) == 21,
{
    let one = Seq::<Card>::empty().push(first);
    lemma_score_push(Seq::<Card>::empty(), first);
    lemma_score_push(one, second);
    assert(seq![first, second] =~= one.push(second));
}

impl Hand {
    /// The number of cards for which a new hand sets room aside. A hand may
    /// grow beyond it.
    pub const MAX_HAND_SIZE: usize = 10;

    /// The score of this hand.
    pub open spec fn score(&self) -> nat {
        score_of(self@)
    }

    /// The score is read off the cards and nothing else: hands that hold the
    /// same cards in the same order score the same, whenever they are asked.
    pub proof fn lemma_score_is_stable(first: Hand, second: Hand)
        requires
            first@ == second@,
        ensures
            first.score() == second.score(),
    {
    }

    /// A hand without cards.
    pub fn new() -> (hand: Hand)
        ensures
            hand@ == Seq::<Card>::empty(),
            hand.score() == 0,
    {
        Hand { cards: Vec::with_capacity(Hand::MAX_HAND_SIZE) }
    }

    /// Adds up the points of the cards in the hand. An ace counts eleven,
    /// whatever else the hand holds. The sum has to fit the result type,
    /// which by [`lemma_score_bounds`] it does for every hand of fewer than
    /// 390 million cards.
    pub fn get_score(&self) -> (score: u32)
        requires
            self.score() <= u32::MAX,
        ensures
            score == self.score(),
    {
        let mut total: u32 = 0;
        for i in 0..self.cards.len()
            invariant
                total == score_of(self@.take(i as int)),
                self.score() <= u32::MAX,
        {
            proof {
                assert(self@.take(i + 1) =~= self@.take(i as int).push(self@[i as int]));
                lemma_score_push(self@.take(i as int), self@[i as int]);
                lemma_score_prefix(self@, i + 1);
            }
            total = total + resolve_rank(&self.cards[i].rank);
        }
        assert(self@.take(self@.len() as int) =~= self@);
        total
    }
}

} // verus!
