//! Cards, suits and ranks.

use vstd::prelude::*;
use vstd::multiset::Multiset;
use vstd::string::StringExecFns;

use crate::shuffle::{shuffle_cards, thread_rng};
use crate::text::{decimal_width2, push_decimal_width2};

verus! {

#[derive(Debug, Clone, Copy, PartialEq, Eq, Structural)]
pub enum Suit {
    Hearts,
    Diamonds,
    Clubs,
    Spades,
}

/// Position of a suit in the order in which a new deck lays them out.
pub open spec fn suit_index(s: Suit) -> int {
    match s {
        Suit::Hearts => 0,
        Suit::Diamonds => 1,
        Suit::Clubs => 2,
        Suit::Spades => 3,
    }
}

/// The suit at position `i` (`0 <= i < 4`) of the deck order.
pub open spec fn suit_at(i: int) -> Suit {
    if i == 0 {
        Suit::Hearts
    } else if i == 1 {
        Suit::Diamonds
    } else if i == 2 {
        Suit::Clubs
    } else {
        Suit::Spades
    }
}

/// The lower-case name of a suit, as it appears in image file names.
pub open spec fn suit_name(s: Suit) -> Seq<char> {
    match s {
        Suit::Hearts => "hearts"@,
        Suit::Diamonds => "diamonds"@,
        Suit::Clubs => "clubs"@,
        Suit::Spades => "spades"@,
    }
}

impl Suit {
    pub fn to_string(&self) -> (s: String)
        ensures
            s@ == suit_name(*self),
    {
        match self {
            Suit::Hearts => String::from_str("hearts"),
            Suit::Diamonds => String::from_str("diamonds"),
            Suit::Clubs => String::from_str("clubs"),
            Suit::Spades => String::from_str("spades"),
        }
    }
}

#[derive(Debug, Clone, Copy, PartialEq, Ord, PartialOrd, Eq, Hash, Structural)]
pub enum Rank {
    Two,
    Three,
    Four,
    Five,
    Six,
    Seven,
    Eight,
    Nine,
    Ten,
    Jack,
    Queen,
    King,
    Ace,
}

/// Position of a rank from `Two` (0) up to `Ace` (12); ranks compare by it.
pub open spec fn rank_index(r: Rank) -> int {
    match r {
        Rank::Two => 0,
        Rank::Three => 1,
        Rank::Four => 2,
        Rank::Five => 3,
        Rank::Six => 4,
        Rank::Seven => 5,
        Rank::Eight => 6,
        Rank::Nine => 7,
        Rank::Ten => 8,
        Rank::Jack => 9,
        Rank::Queen => 10,
        Rank::King => 11,
        Rank::Ace => 12,
    }
}

/// The rank at position `i` (`0 <= i < 13`).
pub open spec fn rank_at(i: int) -> Rank {
    if i == 0 {
        Rank::Two
    } else if i == 1 {
        Rank::Three
    } else if i == 2 {
        Rank::Four
    } else if i == 3 {
        Rank::Five
    } else if i == 4 {
        Rank::Six
    } else if i == 5 {
        Rank::Seven
    } else if i == 6 {
        Rank::Eight
    } else if i == 7 {
        Rank::Nine
    } else if i == 8 {
        Rank::Ten
    } else if i == 9 {
        Rank::Jack
    } else if i == 10 {
        Rank::Queen
    } else if i == 11 {
        Rank::King
    } else {
        Rank::Ace
    }
}

/// The name of a rank as it appears in image file names.
pub open spec fn rank_name(r: Rank) -> Seq<char> {
    match r {
        Rank::Two => "02"@,
        Rank::Three => "03"@,
        Rank::Four => "04"@,
        Rank::Five => "05"@,
        Rank::Six => "06"@,
        Rank::Seven => "07"@,
        Rank::Eight => "08"@,
        Rank::Nine => "09"@,
        Rank::Ten => "10"@,
        Rank::Jack => "jack"@,
        Rank::Queen => "queen"@,
        Rank::King => "king"@,
        Rank::Ace => "ace"@,
    }
}

impl Rank {
    pub fn to_string(&self) -> (s: String)
        ensures
            s@ == rank_name(*self),
    {
        match self {
            Rank::Two => String::from_str("02"),
            Rank::Three => String::from_str("03"),
            Rank::Four => String::from_str("04"),
            Rank::Five => String::from_str("05"),
            Rank::Six => String::from_str("06"),
            Rank::Seven => String::from_str("07"),
            Rank::Eight => String::from_str("08"),
            Rank::Nine => String::from_str("09"),
            Rank::Ten => String::from_str("10"),
            Rank::Jack => String::from_str("jack"),
            Rank::Queen => String::from_str("queen"),
            Rank::King => String::from_str("king"),
            Rank::Ace => String::from_str("ace"),
        }
    }

    /// The position of this rank, `Two` being 0 and `Ace` 12.
    pub fn index(&self) -> (i: usize)
        ensures
            i == rank_index(*self),
    {
        match self {
            Rank::Two => 0,
            Rank::Three => 1,
            Rank::Four => 2,
            Rank::Five => 3,
            Rank::Six => 4,
            Rank::Seven => 5,
            Rank::Eight => 6,
            Rank::Nine => 7,
            Rank::Ten => 8,
            Rank::Jack => 9,
            Rank::Queen => 10,
            Rank::King => 11,
            Rank::Ace => 12,
        }
    }
}

#[derive(Debug, Clone, Copy)]
pub struct Card {
    pub suit: Suit,
    pub rank: Rank,
    pub back: i32,
}

/// File name of a card's face: `"<suit>_<rank>.png"`, all in lower case.
pub open spec fn face_file_name(c: Card) -> Seq<char> {
    suit_name(c.suit) + "_"@ + rank_name(c.rank) + ".png"@
}

/// File name of a card's back: `"back"`, the back number written with at
/// least two digits, and `".png"`.
pub open spec fn back_file_name(c: Card) -> Seq<char> {
    "back"@ + decimal_width2(c.back as int) + ".png"@
}

impl Card {
    pub fn image_filename(&self) -> (s: String)
        ensures
            s@ == face_file_name(*self),
    {
        let mut s = self.suit.to_string();
        s.append("_");
        let rank = self.rank.to_string();
        s.append(rank.as_str());
        s.append(".png");
        s
    }

    pub fn back_image_filename(&self) -> (s: String)
        ensures
            s@ == back_file_name(*self),
    {
        let mut s = String::from_str("back");
        push_decimal_width2(&mut s, self.back);
        s.append(".png");
        s
    }
}


/// The cards of a new deck, in the order `Deck::new` lays them out: suit by
/// suit (hearts, diamonds, clubs, spades), each from two up to ace, all with
/// back number 1.
pub open spec fn full_deck() -> Seq<Card> {
    Seq::new(52, |i: int| Card { suit: suit_at(i / 13), rank: rank_at(i % 13), back: 1 })
}

/// An order of the cards of a new deck: what shuffling a new deck may give.
pub open spec fn is_shuffled_full_deck(cards: Seq<Card>) -> bool {
    cards.to_multiset() == full_deck().to_multiset()
}

proof fn lemma_deck_position(s: int, r: int)
    requires
        0 <= s,
        0 <= r < 13,
    ensures
        (13 * s + r) / 13 == s,
        (13 * s + r) % 13 == r,
{
    vstd::arithmetic::div_mod::lemma_fundamental_div_mod_converse(13 * s + r, 13, s, r);
}

/// Each of the 52 cards of a new deck differs from every other one.
pub proof fn lemma_full_deck_distinct()
    ensures
        forall|i: int, j: int|
            0 <= i < 52 && 0 <= j < 52 && i != j ==> #[trigger] full_deck()[i] != #[trigger] full_deck()[j],
{
    assert forall|i: int, j: int|
        0 <= i < 52 && 0 <= j < 52 && i != j implies #[trigger] full_deck()[i] != #[trigger] full_deck()[j] by {
        vstd::arithmetic::div_mod::lemma_fundamental_div_mod(i, 13);
        vstd::arithmetic::div_mod::lemma_fundamental_div_mod(j, 13);
        assert(0 <= i / 13 < 4) by (nonlinear_arith)
            requires 0 <= i < 52;
        assert(0 <= j / 13 < 4) by (nonlinear_arith)
            requires 0 <= j < 52;
        if full_deck()[i] == full_deck()[j] {
            assert(i / 13 == j / 13);
            assert(i % 13 == j % 13);
        }
    }
}

/// A new deck holds every combination of suit and rank.
pub proof fn lemma_full_deck_complete(suit: Suit, rank: Rank)
    ensures
        full_deck()[13 * suit_index(suit) + rank_index(rank)] == (Card { suit, rank, back: 1 }),
        0 <= 13 * suit_index(suit) + rank_index(rank) < 52,
{
    lemma_deck_position(suit_index(suit), rank_index(rank));
}

/// A shuffled new deck, like a new one, holds 52 cards, none of them twice.
pub proof fn lemma_shuffled_deck_distinct(cards: Seq<Card>)
    requires
        is_shuffled_full_deck(cards),
    ensures
        cards.len() == 52,
        cards.no_duplicates(),
{
    vstd::seq_lib::to_multiset_len(cards);
    vstd::seq_lib::to_multiset_len(full_deck());
    lemma_full_deck_distinct();
    assert(full_deck().no_duplicates());
    full_deck().lemma_multiset_has_no_duplicates();
    cards.lemma_multiset_has_no_duplicates_conv();
}

/// A stack of cards; the top of the deck is the end of the sequence.
pub struct Deck {
    cards: Vec<Card>,
}

impl View for Deck {
    type V = Seq<Card>;

    closed spec fn view(&self) -> Seq<Card> {
        self.cards@
    }
}

impl Deck {
    pub fn new() -> (deck: Self)
        ensures
            deck@ == full_deck(),
    {
        let suits = [Suit::Hearts, Suit::Diamonds, Suit::Clubs, Suit::Spades];
        let ranks = [
            Rank::Two,
            Rank::Three,
            Rank::Four,
            Rank::Five,
            Rank::Six,
            Rank::Seven,
            Rank::Eight,
            Rank::Nine,
            Rank::Ten,
            Rank::Jack,
            Rank::Queen,
            Rank::King,
            Rank::Ace,
        ];
        assert(forall|i: int| 0 <= i < 4 ==> suits@[i] == suit_at(i));
        assert(forall|i: int| 0 <= i < 13 ==> ranks@[i] == rank_at(i));
        let mut cards: Vec<Card> = Vec::new();
        let mut s: usize = 0;
        while s < 4
            invariant
                0 <= s <= 4,
                cards@.len() == 13 * s,
                forall|k: int| 0 <= k < cards@.len() ==> cards@[k] == full_deck()[k],
                forall|i: int| 0 <= i < 4 ==> suits@[i] == suit_at(i),
                forall|i: int| 0 <= i < 13 ==> ranks@[i] == rank_at(i),
            decreases 4 - s,
        {
            let mut r: usize = 0;
            while r < 13
                invariant
                    0 <= s < 4,
                    0 <= r <= 13,
                    cards@.len() == 13 * s + r,
                    forall|k: int| 0 <= k < cards@.len() ==> cards@[k] == full_deck()[k],
                    forall|i: int| 0 <= i < 4 ==> suits@[i] == suit_at(i),
                    forall|i: int| 0 <= i < 13 ==> ranks@[i] == rank_at(i),
                decreases 13 - r,
            {
                proof {
                    lemma_deck_position(s as int, r as int);
                }
                cards.push(Card { suit: suits[s], rank: ranks[r], back: 1 });
                r += 1;
            }
            s += 1;
        }
        assert(cards@ =~= full_deck());
        Deck { cards }
    }

    pub fn shuffle(&mut self)
        ensures
            final(self)@.to_multiset() == old(self)@.to_multiset(),
            final(self)@.len() == old(self)@.len(),
    {
        let mut rng = thread_rng();
        shuffle_cards(&mut self.cards, &mut rng);
    }

    /// Takes the top card off the deck; `None` when the deck is empty.
    pub fn deal(&mut self) -> (card: Option<Card>)
        ensures
            old(self)@.len() == 0 ==> card is None && final(self)@ == old(self)@,
            old(self)@.len() > 0 ==> card == Some(old(self)@.last()) && final(self)@
                == old(self)@.drop_last(),
    {
        self.cards.pop()
    }

    /// The same as `deal`.
    pub fn draw_card(&mut self) -> (card: Option<Card>)
        ensures
            old(self)@.len() == 0 ==> card is None && final(self)@ == old(self)@,
            old(self)@.len() > 0 ==> card == Some(old(self)@.last()) && final(self)@
                == old(self)@.drop_last(),
    {
        self.deal()
    }

    pub fn is_empty(&self) -> (empty: bool)
        ensures
            empty == (self@.len() == 0),
    {
        self.cards.len() == 0
    }

    /// The number of cards in the deck.
    pub(crate) fn len(&self) -> (n: usize)
        ensures
            n == self@.len(),
    {
        self.cards.len()
    }

    /// The `k`-th card from the top (the top card is the 0-th).
    pub(crate) fn card_from_top(&self, k: usize) -> (card: Card)
        requires
            k < self@.len(),
        ensures
            card == self@[self@.len() - 1 - k],
    {
        self.cards[self.cards.len() - 1 - k]
    }

    /// Replaces the deck by a new one, shuffled.
    pub fn reset(&mut self)
        ensures
            is_shuffled_full_deck(final(self)@),
            final(self)@.len() == 52,
    {
        *self = Deck::new();
        self.shuffle();
    }
}


#[derive(Debug, Clone, Copy, PartialEq, Eq, PartialOrd, Ord, Structural)]
pub enum HandRank {
    HighCard,
    OnePair,
    TwoPair,
    ThreeOfAKind,
    Straight,
    Flush,
    FullHouse,
    FourOfAKind,
    StraightFlush,
}

/// Position of a hand rank from `HighCard` (0) up to `StraightFlush` (8);
/// hand ranks compare by it.
pub open spec fn hand_rank_index(h: HandRank) -> int {
    match h {
        HandRank::HighCard => 0,
        HandRank::OnePair => 1,
        HandRank::TwoPair => 2,
        HandRank::ThreeOfAKind => 3,
        HandRank::Straight => 4,
        HandRank::Flush => 5,
        HandRank::FullHouse => 6,
        HandRank::FourOfAKind => 7,
        HandRank::StraightFlush => 8,
    }
}

/// The name shown for a hand rank.
pub open spec fn hand_rank_name(h: HandRank) -> Seq<char> {
    match h {
        HandRank::HighCard => "High Card"@,
        HandRank::OnePair => "One Pair"@,
        HandRank::TwoPair => "Two Pairs"@,
        HandRank::ThreeOfAKind => "Three of a Kind"@,
        HandRank::Straight => "Straight"@,
        HandRank::Flush => "Flush"@,
        HandRank::FullHouse => "Full House"@,
        HandRank::FourOfAKind => "Four of a Kind"@,
        HandRank::StraightFlush => "Straight Flush"@,
    }
}

/// The pay table: how many times the bet a hand of this rank wins.
pub open spec fn payout_of(h: HandRank) -> int {
    match h {
        HandRank::HighCard => 0,
        HandRank::OnePair => 1,
        HandRank::TwoPair => 2,
        HandRank::ThreeOfAKind => 3,
        HandRank::Straight => 4,
        HandRank::Flush => 6,
        HandRank::FullHouse => 9,
        HandRank::FourOfAKind => 25,
        HandRank::StraightFlush => 50,
    }
}

impl HandRank {
    pub fn to_string(&self) -> (s: &'static str)
        ensures
            s@ == hand_rank_name(*self),
    {
        match self {
            HandRank::HighCard => "High Card",
            HandRank::OnePair => "One Pair",
            HandRank::TwoPair => "Two Pairs",
            HandRank::ThreeOfAKind => "Three of a Kind",
            HandRank::Straight => "Straight",
            HandRank::Flush => "Flush",
            HandRank::FullHouse => "Full House",
            HandRank::FourOfAKind => "Four of a Kind",
            HandRank::StraightFlush => "Straight Flush",
        }
    }

    pub fn payout(&self) -> (p: i32)
        ensures
            p == payout_of(*self),
    {
        match self {
            HandRank::HighCard => 0,
            HandRank::OnePair => 1,
            HandRank::TwoPair => 2,
            HandRank::ThreeOfAKind => 3,
            HandRank::Straight => 4,
            HandRank::Flush => 6,
            HandRank::FullHouse => 9,
            HandRank::FourOfAKind => 25,
            HandRank::StraightFlush => 50,
        }
    }
}

/// A better hand never pays less: the payout rises strictly with the rank.
pub proof fn lemma_payout_increases(a: HandRank, b: HandRank)
    requires
        hand_rank_index(a) < hand_rank_index(b),
    ensures
        0 <= payout_of(a) < payout_of(b) <= 50,
{
}

/// How many cards of `hand` have the rank at position `r`.
pub open spec fn rank_count(hand: Seq<Card>, r: int) -> nat
    decreases hand.len(),
{
    if hand.len() == 0 {
        0
    } else {
        rank_count(hand.drop_last(), r) + if rank_index(hand.last().rank) == r {
            1nat
        } else {
            0nat
        }
    }
}

/// All cards of the hand have the suit of the first one.
pub open spec fn is_flush(hand: Seq<Card>) -> bool {
    forall|i: int| 0 <= i < hand.len() ==> #[trigger] hand[i].suit == hand[0].suit
}

/// The hand holds exactly one card of each of the five ranks from position
/// `lo` up.
pub open spec fn run_of_five_at(hand: Seq<Card>, lo: int) -> bool {
    &&& 0 <= lo
    &&& lo + 5 <= 13
    &&& forall|r: int| lo <= r < lo + 5 ==> #[trigger] rank_count(hand, r) == 1
}

/// The five ranks of the hand are consecutive (the ace counts high only).
pub open spec fn is_straight(hand: Seq<Card>) -> bool {
    exists|lo: int| #[trigger] run_of_five_at(hand, lo)
}

/// The largest number of cards that share a rank among the ranks below
/// position `n`.
pub open spec fn max_count_below(hand: Seq<Card>, n: int) -> nat
    decreases n,
{
    if n <= 0 {
        0
    } else {
        let m = max_count_below(hand, n - 1);
        let c = rank_count(hand, n - 1);
        if c > m {
            c
        } else {
            m
        }
    }
}

/// The number of ranks below position `n` of which the hand holds exactly two
/// cards.
pub open spec fn pairs_below(hand: Seq<Card>, n: int) -> nat
    decreases n,
{
    if n <= 0 {
        0
    } else {
        pairs_below(hand, n - 1) + if rank_count(hand, n - 1) == 2 {
            1nat
        } else {
            0nat
        }
    }
}

/// The largest number of cards of one rank.
pub open spec fn max_rank_count(hand: Seq<Card>) -> nat {
    max_count_below(hand, 13)
}

/// The number of ranks of which the hand holds exactly two cards.
pub open spec fn pair_count(hand: Seq<Card>) -> nat {
    pairs_below(hand, 13)
}

/// The rank of a five-card hand. A straight flush beats four of a kind; a
/// full house is three of one rank and a pair; a flush beats a straight,
/// which beats three of a kind, then two pairs, one pair, high card.
pub open spec fn hand_rank_of(hand: Seq<Card>) -> HandRank {
    let flush = is_flush(hand);
    let straight = is_straight(hand);
    let most = max_rank_count(hand);
    let pairs = pair_count(hand);
    if flush && straight {
        HandRank::StraightFlush
    } else if most == 4 {
        HandRank::FourOfAKind
    } else if most == 3 && pairs == 1 {
        HandRank::FullHouse
    } else if flush {
        HandRank::Flush
    } else if straight {
        HandRank::Straight
    } else if most == 3 {
        HandRank::ThreeOfAKind
    } else if pairs == 2 {
        HandRank::TwoPair
    } else if pairs == 1 {
        HandRank::OnePair
    } else {
        HandRank::HighCard
    }
}

/// Counts, for each rank position, the cards of that rank in the hand.
fn rank_counts(hand: &[Card; 5]) -> (counts: Vec<u8>)
    ensures
        counts@.len() == 13,
        forall|r: int| 0 <= r < 13 ==> #[trigger] counts@[r] == rank_count(hand@, r),
{
    let mut counts: Vec<u8> = Vec::new();
    let mut r: usize = 0;
    while r < 13
        invariant
            0 <= r <= 13,
            counts@.len() == r,
            forall|q: int| 0 <= q < r ==> #[trigger] counts@[q] == rank_count(hand@, q),
        decreases 13 - r,
    {
        let mut n: u8 = 0;
        let mut j: usize = 0;
        while j < 5
            invariant
                0 <= j <= 5,
                0 <= r < 13,
                n == rank_count(hand@.take(j as int), r as int),
                n <= j,
            decreases 5 - j,
        {
            assert(hand@.take(j + 1).drop_last() =~= hand@.take(j as int));
            if hand[j].rank.index() == r {
                n = n + 1;
            }
            j += 1;
        }
        assert(hand@.take(5) =~= hand@);
        counts.push(n);
        r += 1;
    }
    counts
}

pub fn evaluate_hand(hand: &[Card; 5]) -> (rank: HandRank)
    ensures
        rank == hand_rank_of(hand@),
{
    let flush = hand[0].suit == hand[1].suit && hand[1].suit == hand[2].suit && hand[2].suit
        == hand[3].suit && hand[3].suit == hand[4].suit;
    assert(flush == is_flush(hand@));

    let counts = rank_counts(hand);

    let mut straight = false;
    let mut lo: usize = 0;
    while lo + 5 <= 13
        invariant
            counts@.len() == 13,
            forall|r: int| 0 <= r < 13 ==> #[trigger] counts@[r] == rank_count(hand@, r),
            lo <= 9,
            straight == exists|l: int| 0 <= l < lo && #[trigger] run_of_five_at(hand@, l),
        decreases 13 - lo,
    {
        let here = counts[lo] == 1 && counts[lo + 1] == 1 && counts[lo + 2] == 1 && counts[lo
            + 3] == 1 && counts[lo + 4] == 1;
        proof {
            if here {
                assert forall|r: int| lo <= r < lo + 5 implies #[trigger] rank_count(hand@, r)
                    == 1 by {
                    assert(counts@[r] == rank_count(hand@, r));
                }
                assert(run_of_five_at(hand@, lo as int));
            } else {
                if run_of_five_at(hand@, lo as int) {
                    assert(rank_count(hand@, lo as int) == 1);
                    assert(rank_count(hand@, lo + 1) == 1);
                    assert(rank_count(hand@, lo + 2) == 1);
                    assert(rank_count(hand@, lo + 3) == 1);
                    assert(rank_count(hand@, lo + 4) == 1);
                }
            }
        }
        straight = straight || here;
        lo += 1;
    }
    assert(straight == is_straight(hand@));

    let mut most: u8 = 0;
    let mut pairs: u8 = 0;
    let mut r: usize = 0;
    while r < 13
        invariant
            0 <= r <= 13,
            counts@.len() == 13,
            forall|q: int| 0 <= q < 13 ==> #[trigger] counts@[q] == rank_count(hand@, q),
            most == max_count_below(hand@, r as int),
            pairs == pairs_below(hand@, r as int),
            pairs <= r,
        decreases 13 - r,
    {
        let c = counts[r];
        if c > most {
            most = c;
        }
        if c == 2 {
            pairs = pairs + 1;
        }
        r += 1;
    }

    if flush && straight {
        HandRank::StraightFlush
    } else if most == 4 {
        HandRank::FourOfAKind
    } else if most == 3 && pairs == 1 {
        HandRank::FullHouse
    } else if flush {
        HandRank::Flush
    } else if straight {
        HandRank::Straight
    } else if most == 3 {
        HandRank::ThreeOfAKind
    } else if pairs == 2 {
        HandRank::TwoPair
    } else if pairs == 1 {
        HandRank::OnePair
    } else {
        HandRank::HighCard
    }
}


proof fn lemma_rank_count_remove(hand: Seq<Card>, i: int, r: int)
    requires
        0 <= i < hand.len(),
    ensures
        rank_count(hand, r) == rank_count(hand.remove(i), r) + if rank_index(hand[i].rank) == r {
            1nat
        } else {
            0nat
        },
    decreases hand.len(),
{
    if i == hand.len() - 1 {
        assert(hand.remove(i) =~= hand.drop_last());
    } else {
        assert(hand.remove(i).drop_last() =~= hand.drop_last().remove(i));
        assert(hand.remove(i).last() == hand.last());
        lemma_rank_count_remove(hand.drop_last(), i, r);
    }
}

proof fn lemma_rank_count_same_cards(a: Seq<Card>, b: Seq<Card>, r: int)
    requires
        a.to_multiset() == b.to_multiset(),
    ensures
        rank_count(a, r) == rank_count(b, r),
    decreases a.len(),
{
    vstd::seq_lib::to_multiset_len(a);
    vstd::seq_lib::to_multiset_len(b);
    if a.len() > 0 {
        let x = a.last();
        vstd::seq_lib::to_multiset_contains(a, x);
        assert(a.contains(x)) by {
            assert(a[a.len() - 1] == x);
        }
        vstd::seq_lib::to_multiset_contains(b, x);
        let i = choose|i: int| 0 <= i < b.len() && b[i] == x;
        vstd::seq_lib::to_multiset_remove(b, i);
        vstd::seq_lib::to_multiset_remove(a, a.len() - 1);
        assert(a.remove(a.len() - 1) =~= a.drop_last());
        lemma_rank_count_same_cards(a.drop_last(), b.remove(i), r);
        lemma_rank_count_remove(b, i, r);
    }
}

proof fn lemma_counts_agree(a: Seq<Card>, b: Seq<Card>, n: int)
    requires
        forall|r: int| #[trigger] rank_count(a, r) == rank_count(b, r),
    ensures
        max_count_below(a, n) == max_count_below(b, n),
        pairs_below(a, n) == pairs_below(b, n),
    decreases n,
{
    if n > 0 {
        lemma_counts_agree(a, b, n - 1);
        assert(rank_count(a, n - 1) == rank_count(b, n - 1));
    }
}

/// The rank of a hand does not depend on the order of its cards: two hands
/// made of the same cards rank alike.
pub proof fn lemma_hand_rank_ignores_order(a: Seq<Card>, b: Seq<Card>)
    requires
        a.to_multiset() == b.to_multiset(),
    ensures
        hand_rank_of(a) == hand_rank_of(b),
{
    assert forall|r: int| #[trigger] rank_count(a, r) == rank_count(b, r) by {
        lemma_rank_count_same_cards(a, b, r);
    }
    lemma_counts_agree(a, b, 13);
    assert forall|lo: int| #[trigger] run_of_five_at(a, lo) == run_of_five_at(b, lo) by {
        if run_of_five_at(a, lo) {
            assert forall|r: int| lo <= r < lo + 5 implies #[trigger] rank_count(b, r) == 1 by {
                assert(rank_count(a, r) == 1);
            }
        }
        if run_of_five_at(b, lo) {
            assert forall|r: int| lo <= r < lo + 5 implies #[trigger] rank_count(a, r) == 1 by {
                assert(rank_count(b, r) == 1);
            }
        }
    }
    assert(is_straight(a) == is_straight(b)) by {
        if is_straight(a) {
            let lo = choose|lo: int| #[trigger] run_of_five_at(a, lo);
            assert(run_of_five_at(b, lo));
        }
        if is_straight(b) {
            let lo = choose|lo: int| #[trigger] run_of_five_at(b, lo);
            assert(run_of_five_at(a, lo));
        }
    }
    vstd::seq_lib::to_multiset_len(a);
    vstd::seq_lib::to_multiset_len(b);
    assert forall|j: int| 0 <= j < b.len() implies a.contains(#[trigger] b[j]) by {
        vstd::seq_lib::to_multiset_contains(b, b[j]);
        vstd::seq_lib::to_multiset_contains(a, b[j]);
    }
    assert forall|j: int| 0 <= j < a.len() implies b.contains(#[trigger] a[j]) by {
        vstd::seq_lib::to_multiset_contains(b, a[j]);
        vstd::seq_lib::to_multiset_contains(a, a[j]);
    }
    assert(is_flush(a) == is_flush(b)) by {
        if a.len() > 0 {
            if is_flush(a) {
                assert forall|j: int| 0 <= j < b.len() implies #[trigger] b[j].suit == b[0].suit by {
                    assert(a.contains(b[j]));
                    assert(a.contains(b[0]));
                }
            }
            if is_flush(b) {
                assert forall|j: int| 0 <= j < a.len() implies #[trigger] a[j].suit == a[0].suit by {
                    assert(b.contains(a[j]));
                    assert(b.contains(a[0]));
                }
            }
        }
    }
}

/// What a card shows on its face: its suit and its rank.
pub open spec fn face(c: Card) -> (Suit, Rank) {
    (c.suit, c.rank)
}

spec fn has_suit(hand: Seq<Card>, suit: Suit) -> bool {
    exists|k: int| 0 <= k < hand.len() && #[trigger] hand[k].suit == suit
}

proof fn lemma_rank_count_same_faces(a: Seq<Card>, b: Seq<Card>, r: int)
    requires
        a.map_values(|c: Card| face(c)).to_multiset() == b.map_values(|c: Card| face(c)).to_multiset(),
    ensures
        rank_count(a, r) == rank_count(b, r),
    decreases a.len(),
{
    let fa = a.map_values(|c: Card| face(c));
    let fb = b.map_values(|c: Card| face(c));
    vstd::seq_lib::to_multiset_len(fa);
    vstd::seq_lib::to_multiset_len(fb);
    if a.len() > 0 {
        let x = fa.last();
        vstd::seq_lib::to_multiset_contains(fa, x);
        assert(fa.contains(x)) by {
            assert(fa[fa.len() - 1] == x);
        }
        vstd::seq_lib::to_multiset_contains(fb, x);
        let i = choose|i: int| 0 <= i < fb.len() && fb[i] == x;
        vstd::seq_lib::to_multiset_remove(fb, i);
        vstd::seq_lib::to_multiset_remove(fa, fa.len() - 1);
        assert(fa.remove(fa.len() - 1) =~= a.drop_last().map_values(|c: Card| face(c)));
        assert(fb.remove(i) =~= b.remove(i).map_values(|c: Card| face(c)));
        lemma_rank_count_same_faces(a.drop_last(), b.remove(i), r);
        lemma_rank_count_remove(b, i, r);
        assert(b[i].rank == a.last().rank);
    }
}

/// The rank of a hand depends only on the faces of its cards (their suits
/// and ranks), in any order: the back numbers do not count, nor does the order.
pub proof fn lemma_hand_rank_depends_on_faces(a: Seq<Card>, b: Seq<Card>)
    requires
        a.map_values(|c: Card| face(c)).to_multiset() == b.map_values(|c: Card| face(c)).to_multiset(),
    ensures
        hand_rank_of(a) == hand_rank_of(b),
{
    let fa = a.map_values(|c: Card| face(c));
    let fb = b.map_values(|c: Card| face(c));
    assert forall|r: int| #[trigger] rank_count(a, r) == rank_count(b, r) by {
        lemma_rank_count_same_faces(a, b, r);
    }
    lemma_counts_agree(a, b, 13);
    assert forall|lo: int| #[trigger] run_of_five_at(a, lo) == run_of_five_at(b, lo) by {
        if run_of_five_at(a, lo) {
            assert forall|r: int| lo <= r < lo + 5 implies #[trigger] rank_count(b, r) == 1 by {
                assert(rank_count(a, r) == 1);
            }
        }
        if run_of_five_at(b, lo) {
            assert forall|r: int| lo <= r < lo + 5 implies #[trigger] rank_count(a, r) == 1 by {
                assert(rank_count(b, r) == 1);
            }
        }
    }
    assert(is_straight(a) == is_straight(b)) by {
        if is_straight(a) {
            let lo = choose|lo: int| #[trigger] run_of_five_at(a, lo);
            assert(run_of_five_at(b, lo));
        }
        if is_straight(b) {
            let lo = choose|lo: int| #[trigger] run_of_five_at(b, lo);
            assert(run_of_five_at(a, lo));
        }
    }
    vstd::seq_lib::to_multiset_len(fa);
    vstd::seq_lib::to_multiset_len(fb);
    assert forall|j: int| 0 <= j < b.len() implies has_suit(a, #[trigger] b[j].suit) by {
        assert(fb[j] == face(b[j]));
        vstd::seq_lib::to_multiset_contains(fb, fb[j]);
        vstd::seq_lib::to_multiset_contains(fa, fb[j]);
        let k = choose|k: int| 0 <= k < fa.len() && fa[k] == fb[j];
        assert(a[k].suit == b[j].suit);
        assert(has_suit(a, b[j].suit));
    }
    assert forall|j: int| 0 <= j < a.len() implies has_suit(b, #[trigger] a[j].suit) by {
        assert(fa[j] == face(a[j]));
        vstd::seq_lib::to_multiset_contains(fa, fa[j]);
        vstd::seq_lib::to_multiset_contains(fb, fa[j]);
        let k = choose|k: int| 0 <= k < fb.len() && fb[k] == fa[j];
        assert(b[k].suit == a[j].suit);
        assert(has_suit(b, a[j].suit));
    }
    assert(is_flush(a) == is_flush(b)) by {
        if a.len() > 0 {
            if is_flush(a) {
                assert(has_suit(a, b[0].suit));
                assert forall|j: int| 0 <= j < b.len() implies #[trigger] b[j].suit == b[0].suit by {
                    assert(has_suit(a, b[j].suit));
                }
            }
            if is_flush(b) {
                assert(has_suit(b, a[0].suit));
                assert forall|j: int| 0 <= j < a.len() implies #[trigger] a[j].suit == a[0].suit by {
                    assert(has_suit(b, a[j].suit));
                }
            }
        }
    }
}

// ---------------------------------------------------------------------------
// What each kind of hand ranks as, stated through the rank positions and
// suits of its cards.

/// The rank positions of the cards of a hand, in order.
pub open spec fn rank_indices(hand: Seq<Card>) -> Seq<int> {
    hand.map_values(|c: Card| rank_index(c.rank))
}

/// All five cards share one suit.
pub open spec fn one_suit(hand: Seq<Card>) -> bool {
    forall|i: int, j: int| 0 <= i < 5 && 0 <= j < 5 ==> #[trigger] hand[i].suit == #[trigger] hand[j].suit
}

/// The multiset `{a, b, c, d, e}`.
pub open spec fn five(a: int, b: int, c: int, d: int, e: int) -> Multiset<int> {
    Multiset::empty().insert(a).insert(b).insert(c).insert(d).insert(e)
}

proof fn lemma_rank_count_is_multiset_count(hand: Seq<Card>, r: int)
    ensures
        rank_count(hand, r) == rank_indices(hand).to_multiset().count(r),
    decreases hand.len(),
{
    broadcast use vstd::multiset::group_multiset_axioms;

    if hand.len() == 0 {
        assert(rank_indices(hand) =~= Seq::<int>::empty());
        rank_indices(hand).to_multiset_ensures();
    } else {
        lemma_rank_count_is_multiset_count(hand.drop_last(), r);
        assert(rank_indices(hand) =~= rank_indices(hand.drop_last()).push(rank_index(hand.last().rank)));
        vstd::seq_lib::to_multiset_build(rank_indices(hand.drop_last()), rank_index(hand.last().rank));
    }
}

proof fn lemma_max_count_at_most(hand: Seq<Card>, n: int, m: nat)
    requires
        forall|q: int| 0 <= q < n ==> #[trigger] rank_count(hand, q) <= m,
    ensures
        max_count_below(hand, n) <= m,
    decreases n,
{
    if n > 0 {
        lemma_max_count_at_most(hand, n - 1, m);
    }
}

proof fn lemma_max_count_at_least(hand: Seq<Card>, n: int, q: int)
    requires
        0 <= q < n,
    ensures
        max_count_below(hand, n) >= rank_count(hand, q),
    decreases n,
{
    if q < n - 1 {
        lemma_max_count_at_least(hand, n - 1, q);
    }
}

/// Counts the ranks below `n` with exactly two cards, when those are `p1` and
/// `p2` (a negative position standing for none).
proof fn lemma_pairs_below_at(hand: Seq<Card>, n: int, p1: int, p2: int)
    requires
        p1 != p2 || p1 < 0,
        forall|q: int| 0 <= q < n ==> (#[trigger] rank_count(hand, q) == 2 <==> (q == p1 || q == p2)),
    ensures
        pairs_below(hand, n) == (if 0 <= p1 < n { 1int } else { 0int }) + (if 0 <= p2 < n && p2 != p1 {
            1int
        } else {
            0int
        }),
    decreases n,
{
    if n > 0 {
        lemma_pairs_below_at(hand, n - 1, p1, p2);
        assert(rank_count(hand, n - 1) == 2 <==> (n - 1 == p1 || n - 1 == p2));
    }
}

/// A hand holds five cards of ranks from 0 to 12.
proof fn lemma_ranks_in_range(hand: Seq<Card>)
    ensures
        forall|q: int| (q < 0 || q >= 13) ==> #[trigger] rank_count(hand, q) == 0,
{
    assert forall|q: int| (q < 0 || q >= 13) implies #[trigger] rank_count(hand, q) == 0 by {
        lemma_rank_count_zero_outside(hand, q);
    }
}

proof fn lemma_rank_count_zero_outside(hand: Seq<Card>, q: int)
    requires
        q < 0 || q >= 13,
    ensures
        rank_count(hand, q) == 0,
    decreases hand.len(),
{
    if hand.len() > 0 {
        lemma_rank_count_zero_outside(hand.drop_last(), q);
    }
}

/// The counts of each rank when the rank positions of the hand are
/// `{a, b, c, d, e}`.
proof fn lemma_counts_of_five(hand: Seq<Card>, a: int, b: int, c: int, d: int, e: int)
    requires
        rank_indices(hand).to_multiset() == five(a, b, c, d, e),
    ensures
        forall|q: int| #[trigger] rank_count(hand, q) == (if q == a { 1int } else { 0int }) + (if q
            == b { 1int } else { 0int }) + (if q == c { 1int } else { 0int }) + (if q == d {
            1int
        } else {
            0int
        }) + (if q == e { 1int } else { 0int }),
{
    broadcast use vstd::multiset::group_multiset_axioms;

    assert forall|q: int| #[trigger] rank_count(hand, q) == (if q == a { 1int } else { 0int }) + (
    if q == b { 1int } else { 0int }) + (if q == c { 1int } else { 0int }) + (if q == d {
        1int
    } else {
        0int
    }) + (if q == e { 1int } else { 0int }) by {
        lemma_rank_count_is_multiset_count(hand, q);
    }
}

/// Five cards whose ranks follow each other (ace high only), all of one
/// suit, are a straight flush.
pub proof fn lemma_straight_flush(hand: Seq<Card>, r: int)
    requires
        hand.len() == 5,
        0 <= r <= 8,
        rank_indices(hand).to_multiset() == five(r, r + 1, r + 2, r + 3, r + 4),
        one_suit(hand),
    ensures
        hand_rank_of(hand) == HandRank::StraightFlush,
{
    lemma_counts_of_five(hand, r, r + 1, r + 2, r + 3, r + 4);
    assert(run_of_five_at(hand, r));
    lemma_flush(hand);
}

/// Five cards whose ranks follow each other (ace high only), not all of one
/// suit, are a straight.
pub proof fn lemma_straight(hand: Seq<Card>, r: int)
    requires
        hand.len() == 5,
        0 <= r <= 8,
        rank_indices(hand).to_multiset() == five(r, r + 1, r + 2, r + 3, r + 4),
        !one_suit(hand),
    ensures
        hand_rank_of(hand) == HandRank::Straight,
{
    lemma_counts_of_five(hand, r, r + 1, r + 2, r + 3, r + 4);
    assert(run_of_five_at(hand, r));
    lemma_max_count_at_most(hand, 13, 1);
    lemma_pairs_below_at(hand, 13, -1, -2);
    lemma_not_flush(hand);
}

proof fn lemma_not_flush(hand: Seq<Card>)
    requires
        hand.len() == 5,
        !one_suit(hand),
    ensures
        !is_flush(hand),
{
    let (i, j) = choose|i: int, j: int|
        0 <= i < 5 && 0 <= j < 5 && !(#[trigger] hand[i].suit == #[trigger] hand[j].suit);
    if is_flush(hand) {
        assert(hand[i].suit == hand[0].suit);
        assert(hand[j].suit == hand[0].suit);
    }
}

proof fn lemma_flush(hand: Seq<Card>)
    requires
        hand.len() == 5,
        one_suit(hand),
    ensures
        is_flush(hand),
{
    assert forall|i: int| 0 <= i < hand.len() implies #[trigger] hand[i].suit == hand[0].suit by {
        assert(hand[i].suit == hand[0].suit);
    }
}

/// With at most four different ranks in the hand there is no run of five.
proof fn lemma_no_run_with_few_ranks(hand: Seq<Card>, a: int, b: int, c: int, d: int)
    requires
        forall|q: int| #[trigger] rank_count(hand, q) > 0 ==> q == a || q == b || q == c || q == d,
    ensures
        !is_straight(hand),
{
    if is_straight(hand) {
        let lo = choose|lo: int| #[trigger] run_of_five_at(hand, lo);
        assert(rank_count(hand, lo) == 1);
        assert(rank_count(hand, lo + 1) == 1);
        assert(rank_count(hand, lo + 2) == 1);
        assert(rank_count(hand, lo + 3) == 1);
        assert(rank_count(hand, lo + 4) == 1);
    }
}

/// Four cards of one rank and a fifth of another are four of a kind.
pub proof fn lemma_four_of_a_kind(hand: Seq<Card>, a: int, b: int)
    requires
        hand.len() == 5,
        a != b,
        rank_indices(hand).to_multiset() == five(a, a, a, a, b),
    ensures
        hand_rank_of(hand) == HandRank::FourOfAKind,
{
    lemma_counts_of_five(hand, a, a, a, a, b);
    lemma_no_run_with_few_ranks(hand, a, b, b, b);
    lemma_ranks_in_range(hand);
    assert(rank_count(hand, a) == 4);
    lemma_max_count_at_most(hand, 13, 4);
    lemma_max_count_at_least(hand, 13, a);
}

/// Three cards of one rank and two of another are a full house.
pub proof fn lemma_full_house(hand: Seq<Card>, a: int, b: int)
    requires
        hand.len() == 5,
        a != b,
        rank_indices(hand).to_multiset() == five(a, a, a, b, b),
    ensures
        hand_rank_of(hand) == HandRank::FullHouse,
{
    lemma_counts_of_five(hand, a, a, a, b, b);
    lemma_no_run_with_few_ranks(hand, a, b, b, b);
    lemma_ranks_in_range(hand);
    assert(rank_count(hand, a) == 3);
    assert(rank_count(hand, b) == 2);
    lemma_max_count_at_most(hand, 13, 3);
    lemma_max_count_at_least(hand, 13, a);
    lemma_pairs_below_at(hand, 13, b, -1);
}

/// Five cards of one suit, of five different ranks that do not follow each
/// other, are a flush.
pub proof fn lemma_flush_hand(hand: Seq<Card>, a: int, b: int, c: int, d: int, e: int)
    requires
        hand.len() == 5,
        a < b < c < d < e,
        e - a > 4,
        rank_indices(hand).to_multiset() == five(a, b, c, d, e),
        one_suit(hand),
    ensures
        hand_rank_of(hand) == HandRank::Flush,
{
    lemma_counts_of_five(hand, a, b, c, d, e);
    lemma_flush(hand);
    lemma_no_run_of_spread_ranks(hand, a, b, c, d, e);
    lemma_max_count_at_most(hand, 13, 1);
    lemma_pairs_below_at(hand, 13, -1, -2);
}

proof fn lemma_no_run_of_spread_ranks(hand: Seq<Card>, a: int, b: int, c: int, d: int, e: int)
    requires
        a < b < c < d < e,
        e - a > 4,
        forall|q: int| #[trigger] rank_count(hand, q) > 0 ==> q == a || q == b || q == c || q == d
            || q == e,
    ensures
        !is_straight(hand),
{
    if is_straight(hand) {
        let lo = choose|lo: int| #[trigger] run_of_five_at(hand, lo);
        assert(rank_count(hand, lo) == 1);
        assert(rank_count(hand, lo + 1) == 1);
        assert(rank_count(hand, lo + 2) == 1);
        assert(rank_count(hand, lo + 3) == 1);
        assert(rank_count(hand, lo + 4) == 1);
    }
}

/// Three cards of one rank and two more of two other, different ranks, not
/// all of one suit, are three of a kind.
pub proof fn lemma_three_of_a_kind(hand: Seq<Card>, a: int, b: int, c: int)
    requires
        hand.len() == 5,
        a != b && a != c && b != c,
        rank_indices(hand).to_multiset() == five(a, a, a, b, c),
        !one_suit(hand),
    ensures
        hand_rank_of(hand) == HandRank::ThreeOfAKind,
{
    lemma_counts_of_five(hand, a, a, a, b, c);
    lemma_not_flush(hand);
    lemma_no_run_with_few_ranks(hand, a, b, c, c);
    lemma_ranks_in_range(hand);
    assert(rank_count(hand, a) == 3);
    lemma_max_count_at_most(hand, 13, 3);
    lemma_max_count_at_least(hand, 13, a);
    lemma_pairs_below_at(hand, 13, -1, -2);
}

/// Two cards of one rank, two of another and a fifth of a third rank, not
/// all of one suit, are two pairs.
pub proof fn lemma_two_pairs(hand: Seq<Card>, a: int, b: int, c: int)
    requires
        hand.len() == 5,
        a != b && a != c && b != c,
        rank_indices(hand).to_multiset() == five(a, a, b, b, c),
        !one_suit(hand),
    ensures
        hand_rank_of(hand) == HandRank::TwoPair,
{
    lemma_counts_of_five(hand, a, a, b, b, c);
    lemma_not_flush(hand);
    lemma_no_run_with_few_ranks(hand, a, b, c, c);
    lemma_ranks_in_range(hand);
    assert(rank_count(hand, a) == 2);
    assert(rank_count(hand, b) == 2);
    lemma_max_count_at_least(hand, 13, a);
    lemma_max_count_at_most(hand, 13, 2);
    lemma_pairs_below_at(hand, 13, a, b);
}

/// Two cards of one rank and three of three other, different ranks, not all
/// of one suit, are one pair.
pub proof fn lemma_one_pair(hand: Seq<Card>, a: int, b: int, c: int, d: int)
    requires
        hand.len() == 5,
        a != b && a != c && a != d && b != c && b != d && c != d,
        rank_indices(hand).to_multiset() == five(a, a, b, c, d),
        !one_suit(hand),
    ensures
        hand_rank_of(hand) == HandRank::OnePair,
{
    lemma_counts_of_five(hand, a, a, b, c, d);
    lemma_not_flush(hand);
    lemma_no_run_with_few_ranks(hand, a, b, c, d);
    lemma_ranks_in_range(hand);
    assert(rank_count(hand, a) == 2);
    lemma_max_count_at_most(hand, 13, 2);
    lemma_pairs_below_at(hand, 13, a, -1);
}

/// Five cards of five different ranks that do not follow each other, not
/// all of one suit, are a high card hand.
pub proof fn lemma_high_card(hand: Seq<Card>, a: int, b: int, c: int, d: int, e: int)
    requires
        hand.len() == 5,
        a < b < c < d < e,
        e - a > 4,
        rank_indices(hand).to_multiset() == five(a, b, c, d, e),
        !one_suit(hand),
    ensures
        hand_rank_of(hand) == HandRank::HighCard,
{
    lemma_counts_of_five(hand, a, b, c, d, e);
    lemma_not_flush(hand);
    lemma_no_run_of_spread_ranks(hand, a, b, c, d, e);
    lemma_max_count_at_most(hand, 13, 1);
    lemma_pairs_below_at(hand, 13, -1, -2);
}

} // verus!
