//! The shuffle: one pass over the deck that, at every place, takes out the
//! card there and a card at a randomly drawn place and puts both back.
//!
//! What the random number generator draws cannot be known beforehand, so the
//! pass is described for every sequence of draws: [`shuffled_with`] says what
//! a deck becomes under given draws, and [`is_shuffle_of`] that some possible
//! draws lead from one deck to another. Whatever is drawn, the cards stay the
//! same cards ([`lemma_shuffle_permutes`]).

use vstd::prelude::*;
use vstd::seq_lib::{to_multiset_insert, to_multiset_remove};
use rand::Rng;
use crate::card::Card;
use crate::dealer::Dealer;

verus! {

/// `rand::rngs::ThreadRng`, the handle to the random number generator of the
/// current thread. Its state is not modelled.
#[verifier::external_type_specification]
#[verifier::external_body]
pub struct ExThreadRng(rand::rngs::ThreadRng);

/// `rand::thread_rng` returns a handle to the generator of the current
/// thread. Nothing is claimed of the handle. (The generator is seeded from
/// the operating system on first use and panics if that source fails.)
pub assume_specification[ rand::thread_rng ]() -> (rng: rand::rngs::ThreadRng);

/// `Rng::gen_range` over the inclusive range `low..=high`. The range must not
/// be empty, or `gen_range` panics. Of the number drawn only this is claimed:
/// it lies within the range.
#[verifier::external_body]
fn draw_index(rng: &mut rand::rngs::ThreadRng, low: usize, high: usize) -> (drawn: usize)
    requires
        low <= high,
    ensures
        low <= drawn <= high,
{
    rng.gen_range(low..=high)
}

/// A place of a deck of `len >= 2` cards, held back to the last place but
/// one, so that it still names a card once one card has been taken out.
pub open spec fn clamped(place: int, len: nat) -> int {
    if place <= len - 2 {
        place
    } else {
        len - 2
    }
}

/// One exchange of the shuffle at place `i`, `drawn` being the index drawn
/// for it. The card at `i` is taken out, then the card that now lies at the
/// clamped `drawn`; the second goes back in at the clamped `i`, and then the
/// first at the clamped `drawn`.
pub open spec fn exchange(cards: Seq<Card>, i: int, drawn: int) -> Seq<Card> {
    let near = clamped(i, cards.len());
    let far = clamped(drawn, cards.len());
    let rest = cards.remove(i);
    rest.remove(far).insert(near, rest[far]).insert(far, cards[i])
}

/// The deck after the exchanges at the places `0 .. draws.len()`, in that
/// order, where `draws[i]` is the index drawn for place `i`.
pub open spec fn exchanged(cards: Seq<Card>, draws: Seq<int>) -> Seq<Card>
    decreases draws.len(),
{
    if draws.len() == 0 {
        cards
    } else {
        exchange(exchanged(cards, draws.drop_last()), draws.len() - 1, draws.last())
    }
}

/// The draws that a shuffle of `len` cards can make: one for every place,
/// the one for place `i` above `i` and at most `len`.
pub open spec fn possible_draws(draws: Seq<int>, len: nat) -> bool {
    &&& draws.len() == len
    &&& forall|i: int| 0 <= i < len ==> i < #[trigger] draws[i] <= len
}

/// What a shuffle makes of `cards` when it draws `draws`. A deck of fewer than
/// two cards stays as it is. Any other is first turned over, and then every
/// place gets its exchange, from the first to the last.
pub open spec fn shuffled_with(cards: Seq<Card>, draws: Seq<int>) -> Seq<Card> {
    if cards.len() < 2 {
        cards
    } else {
        exchanged(cards.reverse(), draws)
    }
}

/// `after` is what one shuffle can make of `before`.
pub open spec fn is_shuffle_of(after: Seq<Card>, before: Seq<Card>) -> bool {
    exists|draws: Seq<int>|
        possible_draws(draws, before.len()) && after == #[trigger] shuffled_with(before, draws)
}

/// `after` is what `times` shuffles, one after the other, can make of
/// `before`.
pub open spec fn is_shuffled(after: Seq<Card>, before: Seq<Card>, times: nat) -> bool
    decreases times,
{
    if times == 0 {
        after == before
    } else {
        exists|between: Seq<Card>|
            is_shuffled(between, before, (times - 1) as nat) && #[trigger] is_shuffle_of(
                after,
                between,
            )
    }
}

/// An exchange moves cards and neither adds, drops nor copies one, whatever
/// index was drawn.
pub proof fn lemma_exchange_permutes(cards: Seq<Card>, i: int, drawn: int)
    requires
        cards.len() >= 2,
        0 <= i < cards.len(),
        0 <= drawn,
    ensures
        exchange(cards, i, drawn).len() == cards.len(),
        exchange(cards, i, drawn).to_multiset() == cards.to_multiset(),
{
    let near = clamped(i, cards.len());
    let far = clamped(drawn, cards.len());
    let rest = cards.remove(i);
    let fewer = rest.remove(far);
    let more = fewer.insert(near, rest[far]);
    to_multiset_remove(cards, i);
    to_multiset_remove(rest, far);
    to_multiset_insert(fewer, near, rest[far]);
    to_multiset_insert(more, far, cards[i]);
    cards.to_multiset_ensures();
    rest.to_multiset_ensures();
    assert(cards.contains(cards[i]));
    assert(rest.contains(rest[far]));
}

/// A run of exchanges over the first places of a deck keeps its cards.
pub proof fn lemma_exchanged_permutes(cards: Seq<Card>, draws: Seq<int>)
    requires
        cards.len() >= 2,
        draws.len() <= cards.len(),
        forall|i: int| 0 <= i < draws.len() ==> 0 <= #[trigger] draws[i],
    ensures
        exchanged(cards, draws).len() == cards.len(),
        exchanged(cards, draws).to_multiset() == cards.to_multiset(),
    decreases draws.len(),
{
    if draws.len() > 0 {
        lemma_exchanged_permutes(cards, draws.drop_last());
        lemma_exchange_permutes(
            exchanged(cards, draws.drop_last()),
            draws.len() - 1,
            draws.last(),
        );
    }
}

/// A shuffle is a permutation: the deck has as many cards after it as before,
/// and every card as often.
pub proof fn lemma_shuffle_permutes(after: Seq<Card>, before: Seq<Card>)
    requires
        is_shuffle_of(after, before),
    ensures
        after.len() == before.len(),
        after.to_multiset() == before.to_multiset(),
{
    let draws = choose|draws: Seq<int>|
        possible_draws(draws, before.len()) && after == #[trigger] shuffled_with(before, draws);
    if before.len() >= 2 {
        before.lemma_reverse_to_multiset();
        lemma_exchanged_permutes(before.reverse(), draws);
    }
}

/// Any number of shuffles is a permutation too.
pub proof fn lemma_shuffled_permutes(after: Seq<Card>, before: Seq<Card>, times: nat)
    requires
        is_shuffled(after, before, times),
    ensures
        after.len() == before.len(),
        after.to_multiset() == before.to_multiset(),
    decreases times,
{
    if times > 0 {
        let between = choose|between: Seq<Card>|
            is_shuffled(between, before, (times - 1) as nat) && #[trigger] is_shuffle_of(
                after,
                between,
            );
        lemma_shuffled_permutes(between, before, (times - 1) as nat);
        lemma_shuffle_permutes(after, between);
    }
}

/// Turns the deck over: the top card becomes the bottom card, and so on.
pub fn turn_over(deck: &mut Vec<Card>)
    ensures
        final(deck)@ == old(deck)@.reverse(),
{
    let ghost before = deck@;
    let len = deck.len();
    let mut low: usize = 0;
    while low < len / 2
        invariant
            deck.len() == len,
            before.len() == len,
            low <= len / 2,
            forall|k: int| 0 <= k < low ==> deck@[k] == before[len - 1 - k],
            forall|k: int| len - low <= k < len ==> deck@[k] == before[len - 1 - k],
            forall|k: int| low <= k < len - low ==> deck@[k] == before[k],
        decreases len / 2 - low,
    {
        let high = len - 1 - low;
        let lower = deck[low];
        let upper = deck[high];
        deck.set(low, upper);
        deck.set(high, lower);
        low += 1;
    }
}

/// Carries out one exchange of the shuffle on a deck of at least two cards:
/// the one at place `i`, with `drawn` the index drawn for it.
pub fn exchange_cards(deck: &mut Vec<Card>, i: usize, drawn: usize)
    requires
        old(deck).len() >= 2,
        i < old(deck).len(),
    ensures
        final(deck)@ == exchange(old(deck)@, i as int, drawn as int),
        final(deck).len() == old(deck).len(),
        final(deck)@.to_multiset() == old(deck)@.to_multiset(),
{
    let last_but_one = deck.len() - 2;
    let far = if drawn <= last_but_one { drawn } else { last_but_one };
    let near = if i <= last_but_one { i } else { last_but_one };
    proof {
        lemma_exchange_permutes(deck@, i as int, drawn as int);
    }
    let first_card = deck.remove(i);
    let second_card = deck.remove(far);
    deck.insert(near, second_card);
    deck.insert(far, first_card);
}

impl Dealer {
    /// One shuffle of `deck` in place. A deck of fewer than two cards is left
    /// alone. Any other is turned over, and then, for every place from the
    /// bottom up, an index above that place is drawn at random and the
    /// exchange for it made.
    pub fn shuffle(deck: &mut Vec<Card>)
        ensures
            is_shuffle_of(final(deck)@, old(deck)@),
            final(deck)@.len() == old(deck)@.len(),
            final(deck)@.to_multiset() == old(deck)@.to_multiset(),
            old(deck)@.len() < 2 ==> final(deck)@ == old(deck)@,
    {
        let ghost before = deck@;
        let size = deck.len();
        if size >= 2 {
            let mut rng = rand::thread_rng();
            turn_over(deck);
            let ghost mut draws = Seq::<int>::empty();
            for i in 0..size
                invariant
                    size == before.len(),
                    size >= 2,
                    deck@.len() == size,
                    draws.len() == i,
                    forall|k: int| 0 <= k < i ==> k < #[trigger] draws[k] <= size,
                    deck@ == exchanged(before.reverse(), draws),
            {
                let drawn = draw_index(&mut rng, i + 1, size);
                exchange_cards(deck, i, drawn);
                proof {
                    let ghost earlier = draws;
                    draws = draws.push(drawn as int);
                    assert(draws.drop_last() =~= earlier);
                }
            }
            assert(possible_draws(draws, before.len()));
            assert(deck@ == shuffled_with(before, draws));
        } else {
            let ghost draws = Seq::new(before.len(), |i: int| i + 1);
            assert(possible_draws(draws, before.len()));
            assert(deck@ == shuffled_with(before, draws));
        }
        proof {
            lemma_shuffle_permutes(deck@, before);
        }
    }
}

} // verus!
