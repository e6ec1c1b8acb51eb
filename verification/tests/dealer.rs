use blackjack::{run, Card, DealError, Dealer, Deck, Hand, Rank, Suit};

fn card(suit: Suit, rank: Rank) -> Card {
    Card { suit, rank }
}

fn unshuffled() -> Dealer {
    Dealer { deck: Deck::build() }
}

fn dealer_with(cards: Vec<Card>) -> Dealer {
    Dealer { deck: Deck { cards } }
}

fn holds_every_card_once(cards: &[Card]) -> bool {
    Deck::build()
        .cards
        .iter()
        .all(|wanted| cards.iter().filter(|card| *card == wanted).count() == 1)
}

#[test]
fn test_shuffle_deck() {
    // Test that shuffle works with no panics
    let mut dealer = Dealer::new();

    dealer.shuffle_deck();

    assert_eq!(&Deck::DECK_SIZE, &dealer.deck.cards.len());
}

#[test]
fn test_create_dealer() {
    assert!(matches!(Some(Dealer::new()), Some(_)));
}

#[test]
fn new_dealer_holds_every_card_once() {
    let dealer = Dealer::new();
    assert_eq!(dealer.deck.cards.len(), 52);
    assert!(holds_every_card_once(&dealer.deck.cards));
}

#[test]
fn shuffle_deck_keeps_every_card() {
    let mut dealer = Dealer::new();
    for _ in 0..10 {
        dealer.shuffle_deck();
        assert_eq!(dealer.deck.cards.len(), 52);
        assert!(holds_every_card_once(&dealer.deck.cards));
    }
}

#[test]
fn shuffle_deck_after_dealing_keeps_what_is_left() {
    let mut dealer = unshuffled();
    let (_dealer_hand, _player_hand) = dealer.deal_new_hand().unwrap();
    let left = dealer.deck.cards.clone();
    dealer.shuffle_deck();
    assert_eq!(dealer.deck.cards.len(), 48);
    for wanted in &left {
        assert_eq!(dealer.deck.cards.iter().filter(|card| *card == wanted).count(), 1);
    }
}

#[test]
fn run_returns_a_full_deck() {
    let cards = run();
    assert_eq!(cards.len(), 52);
    assert!(holds_every_card_once(&cards));
}

#[test]
fn dealing_from_an_unshuffled_deck() {
    let mut dealer = unshuffled();
    let (dealer_hand, player_hand) = dealer.deal_new_hand().unwrap();
    assert_eq!(player_hand.cards[0], card(Suit::Spades, Rank::Ace));
    assert_eq!(dealer_hand.cards[0], card(Suit::Spades, Rank::King));
    assert_eq!(player_hand.cards[1], card(Suit::Spades, Rank::Queen));
    assert_eq!(dealer_hand.cards[1], card(Suit::Spades, Rank::Jack));
    assert_eq!(player_hand.cards.len(), 2);
    assert_eq!(dealer_hand.cards.len(), 2);
    assert_eq!(player_hand.get_score(), 21);
    assert_eq!(dealer_hand.get_score(), 20);
}

#[test]
fn dealing_takes_the_four_top_cards_off_the_deck() {
    let mut dealer = unshuffled();
    dealer.deal_new_hand().unwrap();
    assert_eq!(dealer.deck.cards.len(), 48);
    assert_eq!(dealer.deck.cards, Deck::build().cards[..48].to_vec());
    assert_eq!(*dealer.deck.cards.last().unwrap(), card(Suit::Spades, Rank::Ten));
}

#[test]
fn dealt_cards_are_in_one_hand_each() {
    let mut dealer = Dealer::new();
    let (dealer_hand, player_hand) = dealer.deal_new_hand().unwrap();
    let mut all = dealer.deck.cards.clone();
    all.extend(dealer_hand.cards.iter().copied());
    all.extend(player_hand.cards.iter().copied());
    assert_eq!(all.len(), 52);
    assert!(holds_every_card_once(&all));
}

#[test]
fn dealing_from_exactly_four_cards_empties_the_deck() {
    let a = card(Suit::Hearts, Rank::Two);
    let b = card(Suit::Hearts, Rank::Three);
    let c = card(Suit::Hearts, Rank::Four);
    let d = card(Suit::Hearts, Rank::Five);
    let mut dealer = dealer_with(vec![a, b, c, d]);
    let (dealer_hand, player_hand) = dealer.deal_new_hand().unwrap();
    assert_eq!(player_hand.cards, vec![d, b]);
    assert_eq!(dealer_hand.cards, vec![c, a]);
    assert!(dealer.deck.cards.is_empty());
}

#[test]
fn dealing_from_too_few_cards_is_refused() {
    let a = card(Suit::Hearts, Rank::Two);
    let b = card(Suit::Hearts, Rank::Three);
    let c = card(Suit::Hearts, Rank::Four);
    for size in 0..4 {
        let cards: Vec<Card> = vec![a, b, c].into_iter().take(size).collect();
        let mut dealer = dealer_with(cards.clone());
        assert!(matches!(dealer.deal_new_hand(), Err(DealError::DeckExhausted)));
        assert_eq!(dealer.deck.cards, cards);
    }
}

#[test]
fn dealing_thirteen_rounds_exhausts_the_deck() {
    let mut dealer = Dealer::new();
    for round in 0..13 {
        assert!(dealer.deal_new_hand().is_ok(), "round {}", round);
    }
    assert!(dealer.deck.cards.is_empty());
    assert!(matches!(dealer.deal_new_hand(), Err(DealError::DeckExhausted)));
}

#[test]
fn pop_card_takes_the_top_card() {
    let mut dealer = unshuffled();
    assert_eq!(dealer.pop_card(), Ok(card(Suit::Spades, Rank::Ace)));
    assert_eq!(dealer.pop_card(), Ok(card(Suit::Spades, Rank::King)));
    assert_eq!(dealer.deck.cards.len(), 50);
}

#[test]
fn pop_card_on_an_empty_deck() {
    let mut dealer = dealer_with(Vec::new());
    assert_eq!(dealer.pop_card(), Err(DealError::DeckExhausted));
    assert!(dealer.deck.cards.is_empty());
}

#[test]
fn hit_appends_the_top_card() {
    let mut dealer = unshuffled();
    let mut hand = Hand::new();
    hand.cards.push(card(Suit::Hearts, Rank::Four));
    let before = hand.get_score();

    let held = dealer.hit(&mut hand).unwrap();
    assert_eq!(held.cards, vec![card(Suit::Hearts, Rank::Four), card(Suit::Spades, Rank::Ace)]);

    assert_eq!(hand.cards.len(), 2);
    assert_eq!(hand.cards[1], card(Suit::Spades, Rank::Ace));
    assert_eq!(hand.get_score(), before + 11);
    assert_eq!(hand.get_score(), 15);
    assert_eq!(dealer.deck.cards.len(), 51);
}

#[test]
fn hit_raises_the_score_by_the_card_dealt() {
    let mut dealer = Dealer::new();
    let mut hand = Hand::new();
    for dealt in 1..=52 {
        let top = *dealer.deck.cards.last().unwrap();
        let before = hand.get_score();
        dealer.hit(&mut hand).unwrap();
        assert_eq!(hand.cards.len(), dealt);
        assert_eq!(*hand.cards.last().unwrap(), top);
        assert_eq!(hand.get_score(), before + blackjack::resolve_rank(&top.rank));
    }
    assert_eq!(hand.get_score(), 380);
}

#[test]
fn hit_hands_back_the_same_hand() {
    let mut dealer = unshuffled();
    let mut hand = Hand::new();
    let held = dealer.hit(&mut hand).unwrap();
    held.cards.push(card(Suit::Clubs, Rank::Two));
    assert_eq!(hand.cards, vec![card(Suit::Spades, Rank::Ace), card(Suit::Clubs, Rank::Two)]);
}

#[test]
fn hit_on_an_empty_deck_leaves_the_hand_alone() {
    let mut dealer = dealer_with(Vec::new());
    let mut hand = Hand::new();
    hand.cards.push(card(Suit::Diamonds, Rank::Nine));
    hand.cards.push(card(Suit::Clubs, Rank::Jack));

    assert!(matches!(dealer.hit(&mut hand), Err(DealError::DeckExhausted)));

    assert_eq!(hand.cards, vec![card(Suit::Diamonds, Rank::Nine), card(Suit::Clubs, Rank::Jack)]);
    assert_eq!(hand.get_score(), 19);
    assert!(dealer.deck.cards.is_empty());
}

#[test]
fn hit_after_the_last_card_is_refused() {
    let mut dealer = dealer_with(vec![card(Suit::Hearts, Rank::Six)]);
    let mut hand = Hand::new();
    assert!(dealer.hit(&mut hand).is_ok());
    assert!(matches!(dealer.hit(&mut hand), Err(DealError::DeckExhausted)));
    assert_eq!(hand.cards, vec![card(Suit::Hearts, Rank::Six)]);
}
