use rust_poker::cards::{evaluate_hand, Card, Deck, HandRank, Rank, Suit};

const SUITS: [Suit; 4] = [Suit::Hearts, Suit::Diamonds, Suit::Clubs, Suit::Spades];
const RANKS: [Rank; 13] = [
    Rank::Two,
    Rank::Three,
    Rank::Four,
    Rank::Five,
    Rank::Six,
    Rank::Seven,
    Rank::Eight,
    Rank::Nine,
    Rank::Ten,
    Rank::Jack,
    Rank::Queen,
    Rank::King,
    Rank::Ace,
];

fn card(suit: Suit, rank: Rank) -> Card {
    Card { suit, rank, back: 1 }
}

fn key(c: &Card) -> (usize, usize, i32) {
    let s = SUITS.iter().position(|x| *x == c.suit).unwrap();
    let r = RANKS.iter().position(|x| *x == c.rank).unwrap();
    (s, r, c.back)
}

fn deal_all(deck: &mut Deck) -> Vec<Card> {
    let mut out = Vec::new();
    while let Some(c) = deck.deal() {
        out.push(c);
    }
    out
}

fn sorted_keys(cards: &[Card]) -> Vec<(usize, usize, i32)> {
    let mut keys: Vec<_> = cards.iter().map(key).collect();
    keys.sort();
    keys
}

fn full_keys() -> Vec<(usize, usize, i32)> {
    let mut keys = Vec::new();
    for s in 0..4 {
        for r in 0..13 {
            keys.push((s, r, 1));
        }
    }
    keys
}

#[test]
fn suit_names() {
    assert_eq!(Suit::Hearts.to_string(), "hearts");
    assert_eq!(Suit::Diamonds.to_string(), "diamonds");
    assert_eq!(Suit::Clubs.to_string(), "clubs");
    assert_eq!(Suit::Spades.to_string(), "spades");
}

#[test]
fn rank_names() {
    let names = [
        "02", "03", "04", "05", "06", "07", "08", "09", "10", "jack", "queen", "king", "ace",
    ];
    for (rank, name) in RANKS.iter().zip(names.iter()) {
        assert_eq!(rank.to_string(), *name);
    }
}

#[test]
fn rank_indices_follow_rank_order() {
    for (i, rank) in RANKS.iter().enumerate() {
        assert_eq!(rank.index(), i);
    }
    assert!(Rank::Two < Rank::Ace);
}

#[test]
fn face_file_names() {
    assert_eq!(card(Suit::Hearts, Rank::Two).image_filename(), "hearts_02.png");
    assert_eq!(card(Suit::Diamonds, Rank::King).image_filename(), "diamonds_king.png");
    assert_eq!(card(Suit::Spades, Rank::Ten).image_filename(), "spades_10.png");
    assert_eq!(card(Suit::Clubs, Rank::Ace).image_filename(), "clubs_ace.png");
}

#[test]
fn back_file_names() {
    let mut c = card(Suit::Hearts, Rank::Two);
    for back in [0, 1, 8, 9, 10, 12, 123, -3, -42, i32::MAX, i32::MIN] {
        c.back = back;
        assert_eq!(c.back_image_filename(), format!("back{:02}.png", back));
    }
    c.back = 1;
    assert_eq!(c.back_image_filename(), "back01.png");
}

#[test]
fn new_deck_holds_each_card_once() {
    let mut deck = Deck::new();
    assert!(!deck.is_empty());
    let cards = deal_all(&mut deck);
    assert_eq!(cards.len(), 52);
    assert_eq!(sorted_keys(&cards), full_keys());
    assert!(deck.is_empty());
}

#[test]
fn new_deck_order_and_top_card() {
    let mut deck = Deck::new();
    let cards = deal_all(&mut deck);
    // The top of a new deck is the last card laid out: the ace of spades.
    assert_eq!(key(&cards[0]), (3, 12, 1));
    assert_eq!(key(&cards[1]), (3, 11, 1));
    assert_eq!(key(&cards[51]), (0, 0, 1));
    assert_eq!(key(&cards[13]), (2, 12, 1));
}

#[test]
fn deal_from_empty_deck_gives_none() {
    let mut deck = Deck::new();
    deal_all(&mut deck);
    assert!(deck.deal().is_none());
    assert!(deck.draw_card().is_none());
    assert!(deck.is_empty());
}

#[test]
fn draw_card_is_deal() {
    let mut a = Deck::new();
    let mut b = Deck::new();
    for _ in 0..52 {
        assert_eq!(key(&a.deal().unwrap()), key(&b.draw_card().unwrap()));
    }
}

#[test]
fn shuffle_keeps_cards_and_changes_order() {
    let mut deck = Deck::new();
    deck.shuffle();
    let cards = deal_all(&mut deck);
    assert_eq!(sorted_keys(&cards), full_keys());
    let mut plain = Deck::new();
    let plain_cards = deal_all(&mut plain);
    let same_order = cards.iter().zip(plain_cards.iter()).all(|(a, b)| key(a) == key(b));
    assert!(!same_order);
}

#[test]
fn reset_gives_a_full_deck() {
    let mut deck = Deck::new();
    deck.deal();
    deck.deal();
    deck.reset();
    let cards = deal_all(&mut deck);
    assert_eq!(sorted_keys(&cards), full_keys());
}

fn hand(cards: [(Suit, Rank); 5]) -> [Card; 5] {
    cards.map(|(s, r)| card(s, r))
}

use rust_poker::cards::Rank::{Ace, Eight, Five, Four, Jack, King, Nine, Queen, Seven, Six, Ten, Three, Two};
use rust_poker::cards::Suit::{Clubs, Diamonds, Hearts, Spades};

#[test]
fn ranks_every_kind_of_hand() {
    let cases: Vec<([(Suit, Rank); 5], HandRank)> = vec![
        ([(Hearts, Five), (Hearts, Six), (Hearts, Seven), (Hearts, Eight), (Hearts, Nine)], HandRank::StraightFlush),
        ([(Clubs, Ten), (Clubs, Jack), (Clubs, Queen), (Clubs, King), (Clubs, Ace)], HandRank::StraightFlush),
        ([(Hearts, Nine), (Diamonds, Nine), (Clubs, Nine), (Spades, Nine), (Hearts, Two)], HandRank::FourOfAKind),
        ([(Hearts, Nine), (Diamonds, Nine), (Clubs, Nine), (Spades, Two), (Hearts, Two)], HandRank::FullHouse),
        ([(Spades, Two), (Spades, Nine), (Spades, Jack), (Spades, Four), (Spades, Ace)], HandRank::Flush),
        ([(Spades, Six), (Hearts, Seven), (Clubs, Eight), (Spades, Nine), (Diamonds, Ten)], HandRank::Straight),
        ([(Spades, Ten), (Hearts, Jack), (Clubs, Queen), (Spades, King), (Diamonds, Ace)], HandRank::Straight),
        ([(Spades, Six), (Hearts, Six), (Clubs, Six), (Spades, Nine), (Diamonds, Ten)], HandRank::ThreeOfAKind),
        ([(Spades, Six), (Hearts, Six), (Clubs, Nine), (Spades, Nine), (Diamonds, Ten)], HandRank::TwoPair),
        ([(Spades, Six), (Hearts, Six), (Clubs, Two), (Spades, Nine), (Diamonds, Ten)], HandRank::OnePair),
        ([(Spades, Six), (Hearts, Two), (Clubs, Jack), (Spades, Nine), (Diamonds, Ten)], HandRank::HighCard),
    ];
    for (cards, expected) in cases {
        assert_eq!(evaluate_hand(&hand(cards)), expected);
    }
}

#[test]
fn ace_counts_high_only() {
    // A-2-3-4-5 is not a straight here: the ace ranks above the king only.
    let wheel = hand([(Spades, Ace), (Hearts, Two), (Clubs, Three), (Spades, Four), (Diamonds, Five)]);
    assert_eq!(evaluate_hand(&wheel), HandRank::HighCard);
    let wheel_flush = hand([(Spades, Ace), (Spades, Two), (Spades, Three), (Spades, Four), (Spades, Five)]);
    assert_eq!(evaluate_hand(&wheel_flush), HandRank::Flush);
}

#[test]
fn rank_ignores_card_order() {
    let a = hand([(Hearts, Nine), (Diamonds, Nine), (Clubs, Two), (Spades, Two), (Hearts, Ace)]);
    let b = hand([(Hearts, Ace), (Spades, Two), (Hearts, Nine), (Clubs, Two), (Diamonds, Nine)]);
    assert_eq!(evaluate_hand(&a), HandRank::TwoPair);
    assert_eq!(evaluate_hand(&a), evaluate_hand(&b));
    let c = hand([(Hearts, Six), (Hearts, Nine), (Hearts, Seven), (Hearts, Five), (Hearts, Eight)]);
    assert_eq!(evaluate_hand(&c), HandRank::StraightFlush);
}

#[test]
fn pay_table() {
    let table = [
        (HandRank::HighCard, 0, "High Card"),
        (HandRank::OnePair, 1, "One Pair"),
        (HandRank::TwoPair, 2, "Two Pairs"),
        (HandRank::ThreeOfAKind, 3, "Three of a Kind"),
        (HandRank::Straight, 4, "Straight"),
        (HandRank::Flush, 6, "Flush"),
        (HandRank::FullHouse, 9, "Full House"),
        (HandRank::FourOfAKind, 25, "Four of a Kind"),
        (HandRank::StraightFlush, 50, "Straight Flush"),
    ];
    for (rank, pay, name) in table {
        assert_eq!(rank.payout(), pay);
        assert_eq!(rank.to_string(), name);
    }
}

#[test]
fn payout_rises_with_rank() {
    let ranks = [
        HandRank::HighCard,
        HandRank::OnePair,
        HandRank::TwoPair,
        HandRank::ThreeOfAKind,
        HandRank::Straight,
        HandRank::Flush,
        HandRank::FullHouse,
        HandRank::FourOfAKind,
        HandRank::StraightFlush,
    ];
    for w in ranks.windows(2) {
        assert!(w[0] < w[1]);
        assert!(w[0].payout() < w[1].payout());
    }
}

#[test]
fn rank_ignores_back_numbers() {
    let mut a = hand([(Hearts, Nine), (Diamonds, Nine), (Clubs, Nine), (Spades, Two), (Hearts, Two)]);
    let b = a;
    a[0].back = 7;
    a[3].back = -2;
    assert_eq!(evaluate_hand(&a), evaluate_hand(&b));
    assert_eq!(evaluate_hand(&a), HandRank::FullHouse);
}
