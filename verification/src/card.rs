//! Suits, ranks and cards, and the points each rank is worth.

use vstd::prelude::*;

verus! {

/// The four suits, in the order in which a deck is built.
#[derive(Clone, Copy, Debug, PartialEq, Eq, Structural)]
pub enum Suit {
    Hearts,
    Diamonds,
    Clubs,
    Spades,
}

impl Suit {
    /// How many suits there are.
    pub const COUNT: usize = 4;

    /// Every suit once, in declaration order.
    pub open spec fn all() -> Seq<Suit> {
        seq![Suit::Hearts, Suit::Diamonds, Suit::Clubs, Suit::Spades]
    }

    /// The place of this suit in [`Suit::all`].
    pub open spec fn index(self) -> int {
        match self {
            Suit::Hearts => 0,
            Suit::Diamonds => 1,
            Suit::Clubs => 2,
            Suit::Spades => 3,
        }
    }

    /// The suits in the order in which a deck is built.
    pub fn all_suits() -> (suits: Vec<Suit>)
        ensures
            suits@ == Suit::all(),
    {
        let mut suits: Vec<Suit> = Vec::with_capacity(Suit::COUNT);
        suits.push(Suit::Hearts);
        suits.push(Suit::Diamonds);
        suits.push(Suit::Clubs);
        suits.push(Suit::Spades);
        suits
    }
}

/// The thirteen ranks, in the order in which a deck is built.
#[derive(Clone, Copy, Debug, PartialEq, Eq, Structural)]
pub enum Rank {
    Two,
    Three,
    Four,
    Five,
    Six,
    Seven,
    Eight,
    Nine,
    Ten,
    Jack,
    Queen,
    King,
    Ace,
}

impl Rank {
    /// How many ranks there are.
    pub const COUNT: usize = 13;

    /// Every rank once, in declaration order.
    pub open spec fn all() -> Seq<Rank> {
        seq![
            Rank::Two,
            Rank::Three,
            Rank::Four,
            Rank::Five,
            Rank::Six,
            Rank::Seven,
            Rank::Eight,
            Rank::Nine,
            Rank::Ten,
            Rank::Jack,
            Rank::Queen,
            Rank::King,
            Rank::Ace,
        ]
    }

    /// The place of this rank in [`Rank::all`].
    pub open spec fn index(self) -> int {
        match self {
            Rank::Two => 0,
            Rank::Three => 1,
            Rank::Four => 2,
            Rank::Five => 3,
            Rank::Six => 4,
            Rank::Seven => 5,
            Rank::Eight => 6,
            Rank::Nine => 7,
            Rank::Ten => 8,
            Rank::Jack => 9,
            Rank::Queen => 10,
            Rank::King => 11,
            Rank::Ace => 12,
        }
    }

    /// The points a card of this rank adds to a hand: a pip card its face
    /// value, a court card ten, an ace always eleven.
    pub open spec fn value(self) -> nat {
        match self {
            Rank::Jack | Rank::Queen | Rank::King => 10,
            Rank::Ace => 11,
            _ => (self.index() + 2) as nat,
        }
    }

    /// The ranks in the order in which a deck is built.
    pub fn all_ranks() -> (ranks: Vec<Rank>)
        ensures
            ranks@ == Rank::all(),
    {
        let mut ranks: Vec<Rank> = Vec::with_capacity(Rank::COUNT);
        ranks.push(Rank::Two);
        ranks.push(Rank::Three);
        ranks.push(Rank::Four);
        ranks.push(Rank::Five);
        ranks.push(Rank::Six);
        ranks.push(Rank::Seven);
        ranks.push(Rank::Eight);
        ranks.push(Rank::Nine);
        ranks.push(Rank::Ten);
        ranks.push(Rank::Jack);
        ranks.push(Rank::Queen);
        ranks.push(Rank::King);
        ranks.push(Rank::Ace);
        ranks
    }
}

/// A playing card: one suit and one rank.
#[derive(Clone, Copy, Debug, PartialEq, Eq, Structural)]
pub struct Card {
    pub suit: Suit,
    pub rank: Rank,
}

/// The points of a rank, as [`Rank::value`] defines them.
pub fn resolve_rank(rank: &Rank) -> (points: u32)
    ensures
        points == rank.value(),
{
    match rank {
        Rank::Two => 2,
        Rank::Three => 3,
        Rank::Four => 4,
        Rank::Five => 5,
        Rank::Six => 6,
        Rank::Seven => 7,
        Rank::Eight => 8,
        Rank::Nine => 9,
        Rank::Ten => 10,
        Rank::Jack => 10,
        Rank::Queen => 10,
        Rank::King => 10,
        Rank::Ace => 11,
    }
}

} // verus!
