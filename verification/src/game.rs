//! The rules of a round: betting, the first deal, holding cards, the draw,
//! settling the bet, and the card flips that pace the deals.
//!
//! Time is counted in nanoseconds and a flip's progress in billionths of the
//! whole flip, so that the pace of the game is exact integer arithmetic: a
//! flip lasts half a second (its progress grows by twice the time elapsed)
//! and the draw gives up waiting for its flips after three seconds.

use vstd::prelude::*;

use crate::cards::{
    evaluate_hand, full_deck, hand_rank_of, is_shuffled_full_deck, payout_of, Card, Deck,
    HandRank, Rank, Suit,
};
use crate::render::{
    card_left, in_bet_down_button, in_bet_up_button, in_card, in_main_button, Renderer,
};

verus! {

/// Progress of a flip that has finished: one whole flip, in billionths.
pub const FLIP_COMPLETE: u64 = 1_000_000_000;

/// After this many nanoseconds of the draw, the result is shown even if some
/// flips have not finished.
pub const FINAL_DEAL_TIMEOUT: u64 = 3_000_000_000;

#[derive(Debug, Clone, Copy, PartialEq, Eq, Structural)]
pub enum GamePhase {
    Betting,
    FirstDeal,
    SelectingHolds,
    FinalDeal,
    ShowResults,
}

/// The flip a card is going through; the number is its progress in billionths
/// of a whole flip (`FLIP_COMPLETE`).
#[derive(Debug, Clone, Copy, PartialEq, Eq, Structural)]
pub enum CardAnimationState {
    Idle,
    FlipToFront(u64),
    FlipToBack(u64),
}

/// Half a flip, in billionths: the card turns edge-on and shows its other side.
pub const HALF_FLIP: u64 = 500_000_000;

/// During a flip the card shows the side it leaves until half-way, and the
/// side it turns to from then on; a still card shows its face.
pub open spec fn shows_back_of(a: CardAnimationState) -> bool {
    match a {
        CardAnimationState::FlipToFront(p) => p < HALF_FLIP,
        CardAnimationState::FlipToBack(p) => p >= HALF_FLIP,
        CardAnimationState::Idle => false,
    }
}

/// How far a flipping card is turned from lying flat, in billionths: it rises
/// from 0 to `FLIP_COMPLETE` in the first half of the flip and falls back to
/// 0 in the second; past the end of a flip it is 0.
pub open spec fn turn_of(a: CardAnimationState) -> int {
    match a {
        CardAnimationState::FlipToFront(p) | CardAnimationState::FlipToBack(p) => if p
            < HALF_FLIP {
            2 * p
        } else if p < FLIP_COMPLETE {
            2 * (FLIP_COMPLETE - p)
        } else {
            0
        },
        CardAnimationState::Idle => 0,
    }
}

impl CardAnimationState {
    /// Whether a card in this state is drawn with its back up.
    pub fn shows_back(&self) -> (back: bool)
        ensures
            back == shows_back_of(*self),
    {
        match self {
            CardAnimationState::FlipToFront(progress) => *progress < HALF_FLIP,
            CardAnimationState::FlipToBack(progress) => *progress >= HALF_FLIP,
            CardAnimationState::Idle => false,
        }
    }

    /// How far a card in this state is turned, in billionths; the drawn width
    /// of a flipping card is its full width times the sine of this number of
    /// billionths of a radian.
    pub fn turn(&self) -> (t: u64)
        ensures
            t == turn_of(*self),
    {
        match self {
            CardAnimationState::FlipToFront(progress) | CardAnimationState::FlipToBack(
                progress,
            ) => {
                if *progress < HALF_FLIP {
                    2 * *progress
                } else if *progress < FLIP_COMPLETE {
                    2 * (FLIP_COMPLETE - *progress)
                } else {
                    0
                }
            },
            CardAnimationState::Idle => 0,
        }
    }
}

/// The keys the game reacts to; every other key is `Other`.
#[derive(Debug, Clone, Copy, PartialEq, Eq, Structural)]
pub enum Keycode {
    Up,
    Down,
    Return,
    Space,
    Num1,
    Num2,
    Num3,
    Num4,
    Num5,
    Escape,
    Other,
}

#[derive(Debug, Clone, Copy, PartialEq, Eq, Structural)]
pub enum MouseButton {
    Left,
    Middle,
    Right,
    X1,
    X2,
    Unknown,
}

/// An input event, as far as the game looks at it.
#[derive(Debug, Clone, Copy, PartialEq, Eq, Structural)]
pub enum Event {
    KeyDown { keycode: Option<Keycode> },
    MouseButtonDown { mouse_btn: MouseButton, x: i32, y: i32 },
    Other,
}

/// The state of the game as plain values.
pub struct GameView {
    pub deck: Seq<Card>,
    pub hand: Seq<Card>,
    pub credits: i32,
    pub bet: i32,
    pub held: Seq<bool>,
    pub phase: GamePhase,
    pub hand_rank: Option<HandRank>,
    pub win_amount: i32,
    pub animation_timer: u64,
    pub card_animations: Seq<CardAnimationState>,
}

pub struct GameState {
    pub deck: Deck,
    pub hand: Vec<Card>,
    pub credits: i32,
    pub bet: i32,
    pub held: [bool; 5],
    pub phase: GamePhase,
    pub hand_rank: Option<HandRank>,
    pub win_amount: i32,
    /// Nanoseconds since the current deal or draw started.
    pub animation_timer: u64,
    pub card_animations: [CardAnimationState; 5],
}

impl View for GameState {
    type V = GameView;

    open spec fn view(&self) -> GameView {
        GameView {
            deck: self.deck@,
            hand: self.hand@,
            credits: self.credits,
            bet: self.bet,
            held: self.held@,
            phase: self.phase,
            hand_rank: self.hand_rank,
            win_amount: self.win_amount,
            animation_timer: self.animation_timer,
            card_animations: self.card_animations@,
        }
    }
}

/// What every operation of the game needs and keeps: at most five cards in
/// hand, five hold marks and five flips, and a card being flipped away only
/// where the hand has a card.
pub open spec fn wf(s: GameView) -> bool {
    &&& s.hand.len() <= 5
    &&& s.held.len() == 5
    &&& s.card_animations.len() == 5
    &&& forall|i: int|
        0 <= i < 5 && (#[trigger] s.card_animations[i] is FlipToBack) ==> i < s.hand.len()
}

/// The state of a new game, with `deck` as its deck.
pub open spec fn initial_view(deck: Seq<Card>) -> GameView {
    GameView {
        deck,
        hand: Seq::empty(),
        credits: 100,
        bet: 5,
        held: Seq::new(5, |i: int| false),
        phase: GamePhase::Betting,
        hand_rank: None,
        win_amount: 0,
        animation_timer: 0,
        card_animations: Seq::new(5, |i: int| CardAnimationState::Idle),
    }
}

// ---------------------------------------------------------------------------
// Drawing cards. A deck that runs out is replaced by `fresh`, a shuffled new
// deck, and the drawing goes on from it.

/// The `k`-th card drawn (from 0) from `deck`, going on with `fresh` once
/// `deck` is empty. Cards are drawn from the top, the end of the sequence.
pub open spec fn drawn_card(deck: Seq<Card>, fresh: Seq<Card>, k: int) -> Card {
    if k < deck.len() {
        deck[deck.len() - 1 - k]
    } else {
        fresh[fresh.len() - 1 - (k - deck.len())]
    }
}

/// The deck left after drawing `n` cards from `deck`, going on with `fresh`.
pub open spec fn deck_after_draws(deck: Seq<Card>, fresh: Seq<Card>, n: int) -> Seq<Card> {
    if n <= deck.len() {
        deck.subrange(0, deck.len() - n)
    } else {
        fresh.subrange(0, fresh.len() - (n - deck.len()))
    }
}

proof fn lemma_shuffled_len(fresh: Seq<Card>)
    requires
        is_shuffled_full_deck(fresh),
    ensures
        fresh.len() == 52,
{
    vstd::seq_lib::to_multiset_len(fresh);
    vstd::seq_lib::to_multiset_len(full_deck());
}

/// Draws the top card; a deck found empty is first replaced by a new,
/// shuffled one.
fn draw_renewing(deck: &mut Deck) -> (card: Option<Card>)
    ensures
        old(deck)@.len() > 0 ==> card == Some(old(deck)@.last()) && final(deck)@ == old(
            deck,
        )@.drop_last(),
        old(deck)@.len() == 0 ==> exists|fresh: Seq<Card>|
            #[trigger] is_shuffled_full_deck(fresh) && fresh.len() == 52 && card == Some(
                fresh.last(),
            ) && final(deck)@ == fresh.drop_last(),
{
    if let Some(card) = deck.draw_card() {
        Some(card)
    } else {
        *deck = Deck::new();
        deck.shuffle();
        let ghost fresh = deck@;
        proof {
            lemma_shuffled_len(fresh);
        }
        let card = deck.draw_card();
        assert(is_shuffled_full_deck(fresh) && fresh.len() == 52 && card == Some(fresh.last())
            && deck@ == fresh.drop_last());
        card
    }
}

// ---------------------------------------------------------------------------
// The transitions, over plain values.

pub open spec fn spec_increase_bet(s: GameView) -> GameView {
    if s.bet < 5 && s.credits >= s.bet + 1 {
        GameView { bet: (s.bet + 1) as i32, ..s }
    } else {
        s
    }
}

pub open spec fn spec_decrease_bet(s: GameView) -> GameView {
    if s.bet > 1 {
        GameView { bet: (s.bet - 1) as i32, ..s }
    } else {
        s
    }
}

pub open spec fn spec_toggle_hold(s: GameView, index: int) -> GameView {
    if 0 <= index < s.hand.len() {
        GameView { held: s.held.update(index, !s.held[index]), ..s }
    } else {
        s
    }
}

/// Dealing a new hand: the bet is paid, five cards are drawn, no card is
/// held, every card starts flipping to its face.
pub open spec fn spec_deal_initial_hand(s: GameView, fresh: Seq<Card>) -> GameView {
    GameView {
        deck: deck_after_draws(s.deck, fresh, 5),
        hand: Seq::new(5, |k: int| drawn_card(s.deck, fresh, k)),
        credits: (s.credits - s.bet) as i32,
        held: Seq::new(5, |i: int| false),
        card_animations: Seq::new(5, |i: int| CardAnimationState::FlipToFront(0)),
        phase: GamePhase::FirstDeal,
        animation_timer: 0,
        ..s
    }
}

/// Starting the draw: every card of the hand that is not held starts
/// flipping to its back.
pub open spec fn spec_deal_final_hand(s: GameView) -> GameView {
    GameView {
        card_animations: Seq::new(
            5,
            |i: int|
                if i < s.hand.len() && !s.held[i] {
                    CardAnimationState::FlipToBack(0)
                } else {
                    s.card_animations[i]
                },
        ),
        phase: GamePhase::FinalDeal,
        animation_timer: 0,
        ..s
    }
}

/// Clearing the table for the next hand, with `fresh` as the new deck.
pub open spec fn spec_reset_for_new_hand(s: GameView, fresh: Seq<Card>) -> GameView {
    GameView {
        deck: fresh,
        hand: Seq::empty(),
        held: Seq::new(5, |i: int| false),
        hand_rank: None,
        win_amount: 0,
        phase: GamePhase::Betting,
        card_animations: Seq::new(5, |i: int| CardAnimationState::Idle),
        ..s
    }
}

/// `a + b`, or `u64::MAX` where that overflows.
pub open spec fn saturating_sum(a: u64, b: u64) -> u64 {
    if a + b > u64::MAX {
        u64::MAX
    } else {
        (a + b) as u64
    }
}

/// A flip after `dt` more nanoseconds. A finished flip to the face leaves
/// the card still; a finished flip to the back starts a flip to the face of
/// a new card during the draw, and leaves the card still otherwise.
pub open spec fn step_animation(a: CardAnimationState, dt: u64, drawing: bool) -> CardAnimationState {
    match a {
        CardAnimationState::FlipToFront(p) => if p + 2 * dt >= FLIP_COMPLETE {
            CardAnimationState::Idle
        } else {
            CardAnimationState::FlipToFront((p + 2 * dt) as u64)
        },
        CardAnimationState::FlipToBack(p) => if p + 2 * dt >= FLIP_COMPLETE {
            if drawing {
                CardAnimationState::FlipToFront(0)
            } else {
                CardAnimationState::Idle
            }
        } else {
            CardAnimationState::FlipToBack((p + 2 * dt) as u64)
        },
        CardAnimationState::Idle => CardAnimationState::Idle,
    }
}

/// During the draw, the `i`-th card finishes flipping to its back within the
/// next `dt` nanoseconds, and is then replaced.
pub open spec fn replaces_card(s: GameView, dt: u64, i: int) -> bool {
    &&& 0 <= i < 5
    &&& s.phase == GamePhase::FinalDeal
    &&& match s.card_animations[i] {
        CardAnimationState::FlipToBack(p) => p + 2 * dt >= FLIP_COMPLETE,
        _ => false,
    }
}

/// How many of the cards before the `i`-th are replaced.
pub open spec fn replacements_before(s: GameView, dt: u64, i: int) -> nat
    decreases i,
{
    if i <= 0 {
        0
    } else {
        replacements_before(s, dt, i - 1) + if replaces_card(s, dt, i - 1) {
            1nat
        } else {
            0nat
        }
    }
}

/// The hand after the replacements: the replaced cards, from left to right,
/// get the cards drawn one after the other.
pub open spec fn hand_after_draw(s: GameView, dt: u64, fresh: Seq<Card>) -> Seq<Card> {
    Seq::new(
        s.hand.len(),
        |i: int|
            if replaces_card(s, dt, i) {
                drawn_card(s.deck, fresh, replacements_before(s, dt, i) as int)
            } else {
                s.hand[i]
            },
    )
}

pub open spec fn all_idle(anims: Seq<CardAnimationState>) -> bool {
    forall|i: int| 0 <= i < anims.len() ==> #[trigger] anims[i] == CardAnimationState::Idle
}

/// The state after `dt` nanoseconds have passed, before the phase is looked at.
pub open spec fn stepped_view(s: GameView, dt: u64, fresh: Seq<Card>) -> GameView {
    GameView {
        deck: deck_after_draws(s.deck, fresh, replacements_before(s, dt, 5) as int),
        hand: hand_after_draw(s, dt, fresh),
        animation_timer: saturating_sum(s.animation_timer, dt),
        card_animations: Seq::new(
            5,
            |i: int| step_animation(s.card_animations[i], dt, s.phase == GamePhase::FinalDeal),
        ),
        ..s
    }
}

/// The draw ends in this step: every flip is over, or it has lasted too long.
pub open spec fn draw_ends(s: GameView, dt: u64, fresh: Seq<Card>) -> bool {
    let t = stepped_view(s, dt, fresh);
    s.phase == GamePhase::FinalDeal && (all_idle(t.card_animations) || t.animation_timer
        > FINAL_DEAL_TIMEOUT)
}

/// The winnings of the final hand, and the credits with them, are `i32`s.
pub open spec fn settlement_fits(s: GameView, dt: u64, fresh: Seq<Card>) -> bool {
    let t = stepped_view(s, dt, fresh);
    let win = payout_of(hand_rank_of(t.hand)) * s.bet;
    draw_ends(s, dt, fresh) && t.hand.len() == 5 ==> i32::MIN <= win <= i32::MAX && i32::MIN
        <= s.credits + win <= i32::MAX
}

/// The game after `dt` nanoseconds, with `fresh` as the deck that replaces
/// one that runs out. When the first deal's flips are over, the hand is
/// ranked and the player may choose holds. When the draw's flips are over, or
/// three seconds have passed, the final hand is ranked, the bet times the
/// payout is won, and the result is shown.
pub open spec fn spec_update(s: GameView, dt: u64, fresh: Seq<Card>) -> GameView {
    let t = stepped_view(s, dt, fresh);
    if s.phase == GamePhase::FirstDeal {
        if all_idle(t.card_animations) {
            GameView {
                phase: GamePhase::SelectingHolds,
                hand_rank: if t.hand.len() == 5 {
                    Some(hand_rank_of(t.hand))
                } else {
                    t.hand_rank
                },
                ..t
            }
        } else {
            t
        }
    } else if draw_ends(s, dt, fresh) {
        let anims = if t.animation_timer > FINAL_DEAL_TIMEOUT {
            Seq::new(5, |i: int| CardAnimationState::Idle)
        } else {
            t.card_animations
        };
        if t.hand.len() == 5 {
            let rank = hand_rank_of(t.hand);
            let win = payout_of(rank) * s.bet;
            GameView {
                card_animations: anims,
                hand_rank: Some(rank),
                win_amount: win as i32,
                credits: (s.credits + win) as i32,
                phase: GamePhase::ShowResults,
                animation_timer: 0,
                ..t
            }
        } else {
            GameView {
                card_animations: anims,
                phase: GamePhase::ShowResults,
                animation_timer: 0,
                ..t
            }
        }
    } else {
        t
    }
}

proof fn lemma_replacements_before_grow(s: GameView, dt: u64, j: int, i: int)
    requires
        0 <= j <= i,
    ensures
        replacements_before(s, dt, j) <= replacements_before(s, dt, i),
        j < i && replaces_card(s, dt, j) ==> replacements_before(s, dt, j) < replacements_before(
            s,
            dt,
            i,
        ),
        replacements_before(s, dt, i) <= i,
    decreases i,
{
    if i > 0 {
        if j < i {
            lemma_replacements_before_grow(s, dt, j, i - 1);
        } else {
            lemma_replacements_before_grow(s, dt, i - 1, i - 1);
        }
    }
}

proof fn lemma_hand_after_draw_at(s: GameView, dt: u64, fresh: Seq<Card>, j: int)
    requires
        0 <= j < s.hand.len(),
    ensures
        hand_after_draw(s, dt, fresh)[j] == if replaces_card(s, dt, j) {
            drawn_card(s.deck, fresh, replacements_before(s, dt, j) as int)
        } else {
            s.hand[j]
        },
{
}

fn all_idle_exec(anims: &[CardAnimationState; 5]) -> (idle: bool)
    ensures
        idle == all_idle(anims@),
{
    let mut i: usize = 0;
    while i < 5
        invariant
            0 <= i <= 5,
            forall|j: int| 0 <= j < i ==> #[trigger] anims@[j] == CardAnimationState::Idle,
        decreases 5 - i,
    {
        if anims[i] != CardAnimationState::Idle {
            return false;
        }
        i += 1;
    }
    true
}

fn hand_array(hand: &Vec<Card>) -> (cards: [Card; 5])
    requires
        hand@.len() == 5,
    ensures
        cards@ == hand@,
{
    let cards = [hand[0], hand[1], hand[2], hand[3], hand[4]];
    assert(cards@ =~= hand@);
    cards
}

/// What a key does while the bet is being chosen.
pub open spec fn spec_betting_keys(s: GameView, keycode: Keycode, fresh: Seq<Card>) -> GameView {
    match keycode {
        Keycode::Up => spec_increase_bet(s),
        Keycode::Down => spec_decrease_bet(s),
        Keycode::Return | Keycode::Space => spec_deal_initial_hand(s, fresh),
        _ => s,
    }
}

/// What a key does while holds are being chosen: keys 1 to 5 hold or release
/// the cards from the left, Return and Space start the draw.
pub open spec fn spec_selecting_holds_keys(s: GameView, keycode: Keycode) -> GameView {
    match keycode {
        Keycode::Num1 => spec_toggle_hold(s, 0),
        Keycode::Num2 => spec_toggle_hold(s, 1),
        Keycode::Num3 => spec_toggle_hold(s, 2),
        Keycode::Num4 => spec_toggle_hold(s, 3),
        Keycode::Num5 => spec_toggle_hold(s, 4),
        Keycode::Return | Keycode::Space => spec_deal_final_hand(s),
        _ => s,
    }
}

/// The first card, from position `i` on and below `n`, that `(x, y)` is on.
pub open spec fn card_hit_from(i: int, n: int, x: int, y: int) -> Option<int>
    decreases n - i,
{
    if i >= n {
        None
    } else if in_card(i, x, y) {
        Some(i)
    } else {
        card_hit_from(i + 1, n, x, y)
    }
}

/// What a left click at `(x, y)` does. Only the buttons and the cards act:
/// the bet is set with the + and - buttons while betting, and on the result
/// screen NEW GAME starts a new hand, with the bet as it was.
pub open spec fn spec_mouse_click(s: GameView, x: int, y: int, fresh: Seq<Card>) -> GameView {
    match s.phase {
        GamePhase::Betting => if in_bet_up_button(x, y) {
            spec_increase_bet(s)
        } else if in_bet_down_button(x, y) {
            spec_decrease_bet(s)
        } else if in_main_button(x, y) {
            spec_deal_initial_hand(s, fresh)
        } else {
            s
        },
        GamePhase::SelectingHolds => {
            let t = match card_hit_from(0, s.hand.len() as int, x, y) {
                Some(i) => spec_toggle_hold(s, i),
                None => s,
            };
            if in_main_button(x, y) {
                spec_deal_final_hand(t)
            } else {
                t
            }
        },
        GamePhase::ShowResults => if in_main_button(x, y) {
            spec_reset_for_new_hand(s, fresh)
        } else {
            s
        },
        _ => s,
    }
}

/// What an input event does, with `fresh` as the deck that replaces one that
/// runs out or is renewed for the next hand.
pub open spec fn spec_handle_event(s: GameView, event: Event, fresh: Seq<Card>) -> GameView {
    match event {
        Event::KeyDown { keycode: Some(keycode) } => match s.phase {
            GamePhase::Betting => spec_betting_keys(s, keycode, fresh),
            GamePhase::SelectingHolds => spec_selecting_holds_keys(s, keycode),
            GamePhase::ShowResults => if keycode == Keycode::Return || keycode == Keycode::Space {
                spec_reset_for_new_hand(s, fresh)
            } else {
                s
            },
            _ => s,
        },
        Event::MouseButtonDown { mouse_btn: MouseButton::Left, x, y } => spec_mouse_click(
            s,
            x as int,
            y as int,
            fresh,
        ),
        _ => s,
    }
}

/// The event deals a new hand, and so takes the bet from the credits.
pub open spec fn event_deals(s: GameView, event: Event) -> bool {
    &&& s.phase == GamePhase::Betting
    &&& match event {
        Event::KeyDown { keycode: Some(keycode) } => keycode == Keycode::Return || keycode
            == Keycode::Space,
        Event::MouseButtonDown { mouse_btn: MouseButton::Left, x, y } => !in_bet_up_button(
            x as int,
            y as int,
        ) && !in_bet_down_button(x as int, y as int) && in_main_button(x as int, y as int),
        _ => false,
    }
}

/// The draw replaces only cards that the hand has: every card that finishes
/// flipping to its back during the draw has a place in the hand.
pub open spec fn draws_in_hand(s: GameView, dt: u64) -> bool {
    forall|i: int| 0 <= i < 5 && #[trigger] replaces_card(s, dt, i) ==> i < s.hand.len()
}

/// What `update` needs: it replaces only cards that the hand has, and the
/// winnings of the draw and the credits with them are `i32`s, whichever
/// deck replaces one that runs out.
pub open spec fn update_fits(s: GameView, dt: u64) -> bool {
    &&& draws_in_hand(s, dt)
    &&& forall|fresh: Seq<Card>|
        is_shuffled_full_deck(fresh) ==> #[trigger] settlement_fits(s, dt, fresh)
}

/// The last card position that a click at `(x, y)` looks at while holds are
/// chosen: the card hit, or else the last card of the hand.
pub open spec fn click_reach(s: GameView, x: int, y: int) -> int {
    match card_hit_from(0, s.hand.len() as int, x, y) {
        Some(h) => h,
        None => s.hand.len() - 1,
    }
}

/// What handling `event` needs: a deal's bet can be taken from the credits,
/// and while holds are chosen, the draw finds at most five cards, a click
/// looks only at cards whose left edge is an `i32`, and the card it hits has
/// one of the five hold marks.
pub open spec fn event_fits(s: GameView, event: Event) -> bool {
    &&& event_deals(s, event) ==> i32::MIN <= s.credits - s.bet <= i32::MAX
    &&& s.phase == GamePhase::SelectingHolds ==> match event {
        Event::KeyDown { keycode: Some(keycode) } => keycode == Keycode::Return || keycode
            == Keycode::Space ==> s.hand.len() <= 5,
        Event::MouseButtonDown { mouse_btn: MouseButton::Left, x, y } => {
            &&& card_left(click_reach(s, x as int, y as int)) <= i32::MAX
            &&& (card_hit_from(0, s.hand.len() as int, x as int, y as int) matches Some(h) ==> h
                < 5)
            &&& in_main_button(x as int, y as int) ==> s.hand.len() <= 5
        },
        _ => true,
    }
}

proof fn lemma_card_hit_from_range(i: int, n: int, x: int, y: int)
    ensures
        card_hit_from(i, n, x, y) matches Some(h) ==> i <= h < n && in_card(h, x, y),
    decreases n - i,
{
    if i < n && !in_card(i, x, y) {
        lemma_card_hit_from_range(i + 1, n, x, y);
    }
}

/// While the deck holds the cards that the draw takes, the shuffle that
/// would replace an empty deck plays no part.
proof fn lemma_draws_ignore_fresh(s: GameView, dt: u64, f1: Seq<Card>, f2: Seq<Card>)
    requires
        replacements_before(s, dt, 5) <= s.deck.len(),
    ensures
        stepped_view(s, dt, f1) == stepped_view(s, dt, f2),
{
    assert forall|j: int| 0 <= j < s.hand.len() implies #[trigger] hand_after_draw(s, dt, f1)[j]
        == hand_after_draw(s, dt, f2)[j] by {
        lemma_hand_after_draw_at(s, dt, f1, j);
        lemma_hand_after_draw_at(s, dt, f2, j);
        if replaces_card(s, dt, j) {
            lemma_replacements_before_grow(s, dt, j, 5);
        }
    }
    assert(hand_after_draw(s, dt, f1) =~= hand_after_draw(s, dt, f2));
}

/// A payout between 0 and 50 times the bet lies between 0 and 50 bets.
proof fn lemma_win_between(p: int, bet: int)
    requires
        0 <= p <= 50,
    ensures
        bet >= 0 ==> 0 <= p * bet <= 50 * bet,
        bet < 0 ==> 50 * bet <= p * bet <= 0,
{
    assert(bet >= 0 ==> 0 <= p * bet <= 50 * bet) by (nonlinear_arith)
        requires
            0 <= p <= 50,
    ;
    assert(bet < 0 ==> 50 * bet <= p * bet <= 0) by (nonlinear_arith)
        requires
            0 <= p <= 50,
    ;
}

// ---------------------------------------------------------------------------
// The game.

/// `a` and `b` agree on everything but the deck and the hand.
spec fn same_but_cards(a: GameView, b: GameView) -> bool {
    &&& a.credits == b.credits
    &&& a.bet == b.bet
    &&& a.held == b.held
    &&& a.phase == b.phase
    &&& a.hand_rank == b.hand_rank
    &&& a.win_amount == b.win_amount
    &&& a.animation_timer == b.animation_timer
    &&& a.card_animations == b.card_animations
}

/// `a` and `b` agree on everything but the hold marks and the flips.
spec fn same_but_marks(a: GameView, b: GameView) -> bool {
    &&& a.deck == b.deck
    &&& a.hand == b.hand
    &&& a.credits == b.credits
    &&& a.bet == b.bet
    &&& a.phase == b.phase
    &&& a.hand_rank == b.hand_rank
    &&& a.win_amount == b.win_amount
    &&& a.animation_timer == b.animation_timer
}

impl GameState {
    /// A new game: a shuffled deck, 100 credits and a bet of 5.
    pub fn new() -> (game: Self)
        ensures
            is_shuffled_full_deck(game@.deck),
            game@ == initial_view(game@.deck),
            wf(game@),
    {
        let mut deck = Deck::new();
        deck.shuffle();
        let game = GameState {
            deck,
            hand: Vec::new(),
            credits: 100,
            bet: 5,
            held: [false; 5],
            phase: GamePhase::Betting,
            hand_rank: None,
            win_amount: 0,
            animation_timer: 0,
            card_animations: [CardAnimationState::Idle; 5],
        };
        assert(game@.held =~= Seq::new(5, |i: int| false));
        assert(game@.card_animations =~= Seq::new(5, |i: int| CardAnimationState::Idle));
        assert(game@.hand =~= Seq::<Card>::empty());
        game
    }

    fn increase_bet(&mut self)
        ensures
            final(self)@ == spec_increase_bet(old(self)@),
    {
        if self.bet < 5 && self.credits >= self.bet + 1 {
            self.bet += 1;
        }
    }

    fn decrease_bet(&mut self)
        ensures
            final(self)@ == spec_decrease_bet(old(self)@),
    {
        if self.bet > 1 {
            self.bet -= 1;
        }
    }

    fn toggle_hold(&mut self, index: usize)
        requires
            index < old(self)@.hand.len() ==> index < 5,
        ensures
            final(self)@ == spec_toggle_hold(old(self)@, index as int),
    {
        if index < self.hand.len() {
            self.held[index] = !self.held[index];
        }
        assert(self@.held =~= spec_toggle_hold(old(self)@, index as int).held);
    }

    /// Pays the bet and deals five cards, replacing the deck by a new,
    /// shuffled one if it runs out.
    pub fn deal_initial_hand(&mut self)
        requires
            i32::MIN <= old(self)@.credits - old(self)@.bet <= i32::MAX,
        ensures
            exists|fresh: Seq<Card>|
                #[trigger] is_shuffled_full_deck(fresh) && final(self)@ == spec_deal_initial_hand(
                    old(self)@,
                    fresh,
                ),
    {
        let ghost s0 = self@;
        self.hand.clear();
        let ghost s1 = self@;
        let mut i: usize = 0;
        while i < 5
            invariant
                0 <= i <= 5,
                same_but_marks(self@, s1),
                forall|j: int| 0 <= j < i ==> !self.held@[j],
                forall|j: int|
                    0 <= j < i ==> self.card_animations@[j] == CardAnimationState::FlipToFront(0),
            decreases 5 - i,
        {
            self.held[i] = false;
            self.card_animations[i] = CardAnimationState::FlipToFront(0);
            i += 1;
        }
        self.credits -= self.bet;
        assert(self@.held =~= Seq::new(5, |i: int| false));
        assert(self@.card_animations =~= Seq::new(5, |i: int| CardAnimationState::FlipToFront(0)));
        let ghost s2 = self@;

        let ghost d0 = s0.deck;
        let ghost mut fresh = full_deck();
        proof {
            vstd::seq_lib::to_multiset_len(full_deck());
        }
        let mut k: usize = 0;
        while k < 5
            invariant
                0 <= k <= 5,
                is_shuffled_full_deck(fresh),
                fresh.len() == 52,
                same_but_cards(self@, s2),
                self.hand@ =~= Seq::new(k as nat, |j: int| drawn_card(d0, fresh, j)),
                self.deck@ == deck_after_draws(d0, fresh, k as int),
            decreases 5 - k,
        {
            let ghost before = self.deck@;
            let drawn = draw_renewing(&mut self.deck);
            proof {
                if before.len() == 0 {
                    let f = choose|f: Seq<Card>|
                        #[trigger] is_shuffled_full_deck(f) && f.len() == 52 && drawn == Some(
                            f.last(),
                        ) && self.deck@ == f.drop_last();
                    assert(k == d0.len());
                    assert(self.hand@ =~= Seq::new(k as nat, |j: int| drawn_card(d0, f, j)));
                    fresh = f;
                }
            }
            if let Some(card) = drawn {
                self.hand.push(card);
            }
            k += 1;
        }
        self.phase = GamePhase::FirstDeal;
        self.animation_timer = 0;
        assert(self@ == spec_deal_initial_hand(s0, fresh));
    }

    /// Starts the draw: the cards not held start flipping to their backs.
    fn deal_final_hand(&mut self)
        requires
            old(self)@.hand.len() <= 5,
        ensures
            final(self)@ == spec_deal_final_hand(old(self)@),
    {
        let ghost s0 = self@;
        let n = self.hand.len();
        let mut i: usize = 0;
        while i < n
            invariant
                0 <= i <= n,
                n == s0.hand.len(),
                n <= 5,
                same_but_marks(self@, s0),
                self.held@ == s0.held,
                self.held@.len() == 5,
                s0.card_animations.len() == 5,
                forall|j: int|
                    0 <= j < 5 ==> #[trigger] self.card_animations@[j] == if j < i && !s0.held[j] {
                        CardAnimationState::FlipToBack(0)
                    } else {
                        s0.card_animations[j]
                    },
            decreases n - i,
        {
            if !self.held[i] {
                self.card_animations[i] = CardAnimationState::FlipToBack(0);
            }
            i += 1;
        }

        self.phase = GamePhase::FinalDeal;
        self.animation_timer = 0;
        assert(self@.card_animations =~= spec_deal_final_hand(s0).card_animations);
    }

    /// Clears the table for the next hand, with a new, shuffled deck.
    fn reset_for_new_hand(&mut self)
        ensures
            exists|fresh: Seq<Card>|
                #[trigger] is_shuffled_full_deck(fresh) && final(self)@ == spec_reset_for_new_hand(
                    old(self)@,
                    fresh,
                ),
    {
        let ghost s0 = self@;
        self.deck.reset();
        self.hand.clear();
        self.held = [false; 5];
        self.hand_rank = None;
        self.win_amount = 0;
        self.phase = GamePhase::Betting;
        self.card_animations = [CardAnimationState::Idle; 5];
        assert(self@.held =~= Seq::new(5, |i: int| false));
        assert(self@.card_animations =~= Seq::new(5, |i: int| CardAnimationState::Idle));
        assert(self@.hand =~= Seq::<Card>::empty());
        assert(self@ == spec_reset_for_new_hand(s0, self@.deck));
    }

    /// Lets `dt_nanos` nanoseconds pass: moves the flips on, replaces the
    /// cards whose flip to the back ends during the draw, and ends the first
    /// deal or the draw when their flips are over.
    pub fn update(&mut self, dt_nanos: u64)
        requires
            update_fits(old(self)@, dt_nanos),
        ensures
            exists|fresh: Seq<Card>|
                #[trigger] is_shuffled_full_deck(fresh) && final(self)@ == spec_update(
                    old(self)@,
                    dt_nanos,
                    fresh,
                ),
    {
        let ghost s0 = self@;
        let ghost d0 = s0.deck;
        let ghost mut fresh = full_deck();
        proof {
            vstd::seq_lib::to_multiset_len(full_deck());
        }
        self.animation_timer = self.animation_timer.saturating_add(dt_nanos);
        let step = dt_nanos.saturating_add(dt_nanos);
        let drawing = self.phase == GamePhase::FinalDeal;

        let mut i: usize = 0;
        while i < 5
            invariant
                0 <= i <= 5,
                draws_in_hand(s0, dt_nanos),
                s0.card_animations.len() == 5,
                d0 == s0.deck,
                drawing == (s0.phase == GamePhase::FinalDeal),
                step == saturating_sum(dt_nanos, dt_nanos),
                is_shuffled_full_deck(fresh),
                fresh.len() == 52,
                self.credits == s0.credits,
                self.bet == s0.bet,
                self.held@ == s0.held,
                self.phase == s0.phase,
                self.hand_rank == s0.hand_rank,
                self.win_amount == s0.win_amount,
                self.animation_timer == saturating_sum(s0.animation_timer, dt_nanos),
                self.hand@.len() == s0.hand.len(),
                forall|j: int|
                    0 <= j < 5 ==> #[trigger] self.card_animations@[j] == if j < i {
                        step_animation(s0.card_animations[j], dt_nanos, drawing)
                    } else {
                        s0.card_animations[j]
                    },
                forall|j: int|
                    0 <= j < s0.hand.len() ==> #[trigger] self.hand@[j] == if j < i {
                        hand_after_draw(s0, dt_nanos, fresh)[j]
                    } else {
                        s0.hand[j]
                    },
                self.deck@ == deck_after_draws(
                    d0,
                    fresh,
                    replacements_before(s0, dt_nanos, i as int) as int,
                ),
            decreases 5 - i,
        {
            proof {
                lemma_replacements_before_grow(s0, dt_nanos, i as int, i as int);
            }
            match self.card_animations[i] {
                CardAnimationState::FlipToFront(progress) => {
                    let new_progress = progress.saturating_add(step);
                    if new_progress >= FLIP_COMPLETE {
                        self.card_animations[i] = CardAnimationState::Idle;
                    } else {
                        self.card_animations[i] = CardAnimationState::FlipToFront(new_progress);
                    }
                },
                CardAnimationState::FlipToBack(progress) => {
                    let new_progress = progress.saturating_add(step);
                    if new_progress >= FLIP_COMPLETE {
                        if drawing {
                            let ghost before = self.deck@;
                            let ghost k = replacements_before(s0, dt_nanos, i as int) as int;
                            let drawn = draw_renewing(&mut self.deck);
                            proof {
                                if before.len() == 0 {
                                    let f = choose|f: Seq<Card>|
                                        #[trigger] is_shuffled_full_deck(f) && f.len() == 52
                                            && drawn == Some(f.last()) && self.deck@
                                            == f.drop_last();
                                    assert(k == d0.len());
                                    assert forall|j: int|
                                        0 <= j < i && j < s0.hand.len() implies
                                        #[trigger] hand_after_draw(s0, dt_nanos, f)[j]
                                        == hand_after_draw(s0, dt_nanos, fresh)[j] by {
                                        lemma_replacements_before_grow(
                                            s0,
                                            dt_nanos,
                                            j,
                                            i as int,
                                        );
                                        lemma_hand_after_draw_at(s0, dt_nanos, f, j);
                                        lemma_hand_after_draw_at(s0, dt_nanos, fresh, j);

                                    }
                                    fresh = f;
                                }
                            }
                            assert(replaces_card(s0, dt_nanos, i as int));
                            if let Some(card) = drawn {
                                self.hand.set(i, card);
                            }
                            self.card_animations[i] = CardAnimationState::FlipToFront(0);
                        } else {
                            self.card_animations[i] = CardAnimationState::Idle;
                        }
                    } else {
                        self.card_animations[i] = CardAnimationState::FlipToBack(new_progress);
                    }
                },
                CardAnimationState::Idle => {},
            }
            i += 1;
        }
        assert forall|j: int| 0 <= j < s0.hand.len() implies #[trigger] self.hand@[j]
            == hand_after_draw(s0, dt_nanos, fresh)[j] by {
            lemma_hand_after_draw_at(s0, dt_nanos, fresh, j);
        }
        assert(self.hand@ =~= hand_after_draw(s0, dt_nanos, fresh));
        assert(self.card_animations@ =~= stepped_view(s0, dt_nanos, fresh).card_animations);
        assert(self@ == stepped_view(s0, dt_nanos, fresh));

        match self.phase {
            GamePhase::FirstDeal => {
                let all_done = all_idle_exec(&self.card_animations);
                if all_done {
                    self.phase = GamePhase::SelectingHolds;
                    if self.hand.len() == 5 {
                        let cards = hand_array(&self.hand);
                        self.hand_rank = Some(evaluate_hand(&cards));
                    }
                }
            },
            GamePhase::FinalDeal => {
                let all_done = all_idle_exec(&self.card_animations);
                let timeout_reached = self.animation_timer > FINAL_DEAL_TIMEOUT;
                if all_done || timeout_reached {
                    if timeout_reached {
                        self.card_animations = [CardAnimationState::Idle; 5];
                        assert(self.card_animations@ =~= Seq::new(
                            5,
                            |i: int| CardAnimationState::Idle,
                        ));
                    }
                    if self.hand.len() == 5 {
                        let cards = hand_array(&self.hand);
                        let rank = evaluate_hand(&cards);
                        self.hand_rank = Some(rank);
                        assert(settlement_fits(s0, dt_nanos, fresh));
                        self.win_amount = rank.payout() * self.bet;
                        self.credits += self.win_amount;
                    }
                    self.phase = GamePhase::ShowResults;
                    self.animation_timer = 0;
                }
            },
            _ => {},
        }
        assert(self@ == spec_update(s0, dt_nanos, fresh));
    }

    /// Whether `event` would deal a new hand, and so take the bet from the
    /// credits.
    fn deals_on(&self, event: &Event, renderer: &Renderer) -> (deals: bool)
        ensures
            deals == event_deals(self@, *event),
    {
        if self.phase != GamePhase::Betting {
            return false;
        }
        match event {
            Event::KeyDown { keycode: Some(keycode) } => *keycode == Keycode::Return || *keycode
                == Keycode::Space,
            Event::MouseButtonDown { mouse_btn: MouseButton::Left, x, y } => {
                !renderer.is_point_in_bet_up_button(*x, *y) && !renderer.is_point_in_bet_down_button(
                    *x,
                    *y,
                ) && renderer.is_point_in_deal_button(*x, *y)
            },
            _ => false,
        }
    }

    /// Whether `handle_event` can take `event`: what it needs of the game
    /// (`event_fits`) holds.
    pub fn can_handle(&self, event: &Event, renderer: &Renderer) -> (ok: bool)
        ensures
            ok == event_fits(self@, *event),
    {
        if self.deals_on(event, renderer) {
            let rest = self.credits as i64 - self.bet as i64;
            if rest < i32::MIN as i64 || rest > i32::MAX as i64 {
                return false;
            }
        }
        if self.phase != GamePhase::SelectingHolds {
            return true;
        }
        match event {
            Event::KeyDown { keycode: Some(keycode) } => {
                !((*keycode == Keycode::Return || *keycode == Keycode::Space) && self.hand.len() > 5)
            },
            Event::MouseButtonDown { mouse_btn: MouseButton::Left, x, y } => {
                let ghost s = self@;
                let n = self.hand.len();
                let main = renderer.is_point_in_draw_button(*x, *y);
                let mut i: usize = 0;
                while i < n
                    invariant
                        0 <= i <= n,
                        n == s.hand.len(),
                        s == self@,
                        s.phase == GamePhase::SelectingHolds,
                        main == in_main_button(*x as int, *y as int),
                        i <= 17_895_697,
                        event_deals(s, *event) ==> i32::MIN <= s.credits - s.bet <= i32::MAX,
                        *event == (Event::MouseButtonDown { mouse_btn: MouseButton::Left, x: *x, y: *y }),
                        card_hit_from(0, n as int, *x as int, *y as int) == card_hit_from(
                            i as int,
                            n as int,
                            *x as int,
                            *y as int,
                        ),
                    decreases n - i,
                {
                    proof {
                        lemma_card_hit_from_range(i as int, n as int, *x as int, *y as int);
                    }
                    if i > 17_895_696 {
                        assert(click_reach(s, *x as int, *y as int) >= i);
                        return false;
                    }
                    if renderer.is_point_in_card(i, *x, *y) {
                        assert(card_hit_from(i as int, n as int, *x as int, *y as int) == Some(
                            i as int,
                        ));
                        return i < 5 && (!main || n <= 5);
                    }
                    i += 1;
                }
                !main || n <= 5
            },
            _ => true,
        }
    }

    /// Whether `update(dt_nanos)` can run: what it needs of the game
    /// (`update_fits`) holds. The answer is exact when the deck holds the
    /// cards that the draw takes in this step; when the deck would run out,
    /// the new cards come from a shuffle, and the answer is `true` only if
    /// any payout of the draw fits.
    pub fn can_update(&self, dt_nanos: u64) -> (ok: bool)
        ensures
            ok ==> update_fits(self@, dt_nanos),
            replacements_before(self@, dt_nanos, 5) <= self@.deck.len() ==> ok == update_fits(
                self@,
                dt_nanos,
            ),
    {
        let ghost s = self@;
        let step = dt_nanos.saturating_add(dt_nanos);
        let drawing = self.phase == GamePhase::FinalDeal;
        let n = self.hand.len();
        let deck_len = self.deck.len();
        let mut stepped = self.card_animations;
        let mut cards: [Card; 5] = if n == 5 {
            hand_array(&self.hand)
        } else {
            [Card { suit: Suit::Hearts, rank: Rank::Two, back: 1 }; 5]
        };
        let mut m: usize = 0;
        let mut i: usize = 0;
        while i < 5
            invariant
                0 <= i <= 5,
                s == self@,
                n == s.hand.len(),
                deck_len == s.deck.len(),
                drawing == (s.phase == GamePhase::FinalDeal),
                step == saturating_sum(dt_nanos, dt_nanos),
                m == replacements_before(s, dt_nanos, i as int),
                forall|j: int|
                    0 <= j < 5 ==> #[trigger] stepped@[j] == if j < i {
                        step_animation(s.card_animations[j], dt_nanos, drawing)
                    } else {
                        s.card_animations[j]
                    },
                forall|j: int| 0 <= j < i && #[trigger] replaces_card(s, dt_nanos, j) ==> j < n,
                n == 5 ==> forall|j: int| i <= j < 5 ==> #[trigger] cards@[j] == s.hand[j],
                n == 5 && m <= deck_len ==> forall|j: int|
                    0 <= j < i ==> #[trigger] cards@[j] == hand_after_draw(s, dt_nanos, full_deck())[j],
            decreases 5 - i,
        {
            proof {
                lemma_replacements_before_grow(s, dt_nanos, i as int, i as int);
            }
            match self.card_animations[i] {
                CardAnimationState::FlipToFront(progress) => {
                    let new_progress = progress.saturating_add(step);
                    if new_progress >= FLIP_COMPLETE {
                        stepped[i] = CardAnimationState::Idle;
                    } else {
                        stepped[i] = CardAnimationState::FlipToFront(new_progress);
                    }
                },
                CardAnimationState::FlipToBack(progress) => {
                    let new_progress = progress.saturating_add(step);
                    if new_progress >= FLIP_COMPLETE {
                        if drawing {
                            assert(replaces_card(s, dt_nanos, i as int));
                            if i >= n {
                                return false;
                            }
                            if m < deck_len && n == 5 {
                                cards[i] = self.deck.card_from_top(m);
                            }
                            m += 1;
                            stepped[i] = CardAnimationState::FlipToFront(0);
                        } else {
                            stepped[i] = CardAnimationState::Idle;
                        }
                    } else {
                        stepped[i] = CardAnimationState::FlipToBack(new_progress);
                    }
                },
                CardAnimationState::Idle => {},
            }
            proof {
                if n == 5 && m <= deck_len {
                    lemma_hand_after_draw_at(s, dt_nanos, full_deck(), i as int);
                }
            }
            i += 1;
        }
        let ghost t = stepped_view(s, dt_nanos, full_deck());
        assert(stepped@ =~= t.card_animations);
        assert(draws_in_hand(s, dt_nanos));
        let timer = self.animation_timer.saturating_add(dt_nanos);
        let ends = drawing && (all_idle_exec(&stepped) || timer > FINAL_DEAL_TIMEOUT);
        proof {
            vstd::seq_lib::to_multiset_len(full_deck());
            assert(is_shuffled_full_deck(full_deck()));
            assert forall|fresh: Seq<Card>| #[trigger] stepped_view(s, dt_nanos, fresh).card_animations
                == t.card_animations && stepped_view(s, dt_nanos, fresh).hand.len() == n
                && stepped_view(s, dt_nanos, fresh).animation_timer == timer by {}
        }
        if !ends || n != 5 {
            assert forall|fresh: Seq<Card>| is_shuffled_full_deck(fresh) implies #[trigger] settlement_fits(
                s,
                dt_nanos,
                fresh,
            ) by {
                assert(stepped_view(s, dt_nanos, fresh).card_animations == t.card_animations);
            }
            return true;
        }
        let bet = self.bet as i64;
        let credits = self.credits as i64;
        let lowest = i32::MIN as i64;
        let highest = i32::MAX as i64;
        if m <= deck_len {
            assert(cards@ =~= t.hand);
            let rank = evaluate_hand(&cards);
            let win = rank.payout() as i64 * bet;
            let ok = lowest <= win && win <= highest && lowest <= credits + win && credits + win
                <= highest;
            proof {
                assert forall|fresh: Seq<Card>| is_shuffled_full_deck(fresh) implies #[trigger] settlement_fits(
                    s,
                    dt_nanos,
                    fresh,
                ) == settlement_fits(s, dt_nanos, full_deck()) by {
                    lemma_draws_ignore_fresh(s, dt_nanos, fresh, full_deck());
                }
                assert(ok == settlement_fits(s, dt_nanos, full_deck()));
            }
            ok
        } else {
            let most = 50 * bet;
            let ok = lowest <= most && most <= highest && lowest <= credits + most && credits
                + most <= highest;
            proof {
                if ok {
                    assert forall|fresh: Seq<Card>| is_shuffled_full_deck(fresh) implies #[trigger] settlement_fits(
                        s,
                        dt_nanos,
                        fresh,
                    ) by {
                        let p = payout_of(hand_rank_of(stepped_view(s, dt_nanos, fresh).hand));
                        lemma_win_between(p, s.bet as int);
                    }
                }
            }
            ok
        }
    }

    pub fn handle_event(&mut self, event: &Event, renderer: &Renderer)
        requires
            event_fits(old(self)@, *event),
        ensures
            exists|fresh: Seq<Card>|
                #[trigger] is_shuffled_full_deck(fresh) && final(self)@ == spec_handle_event(
                    old(self)@,
                    *event,
                    fresh,
                ),
    {
        proof {
            vstd::seq_lib::to_multiset_len(full_deck());
            assert(is_shuffled_full_deck(full_deck()));
        }
        match event {
            Event::KeyDown { keycode: Some(keycode) } => {
                match self.phase {
                    GamePhase::Betting => self.handle_betting_keys(*keycode),
                    GamePhase::SelectingHolds => self.handle_selecting_holds_keys(*keycode),
                    GamePhase::ShowResults => {
                        if *keycode == Keycode::Return || *keycode == Keycode::Space {
                            self.reset_for_new_hand();
                        }
                    },
                    _ => {},
                }
            },
            Event::MouseButtonDown { mouse_btn: MouseButton::Left, x, y } => {
                self.handle_mouse_click(*x, *y, renderer);
            },
            _ => {},
        }
    }

    fn handle_betting_keys(&mut self, keycode: Keycode)
        requires
            keycode == Keycode::Return || keycode == Keycode::Space ==> i32::MIN <= old(
                self,
            )@.credits - old(self)@.bet <= i32::MAX,
        ensures
            exists|fresh: Seq<Card>|
                #[trigger] is_shuffled_full_deck(fresh) && final(self)@ == spec_betting_keys(
                    old(self)@,
                    keycode,
                    fresh,
                ),
    {
        proof {
            vstd::seq_lib::to_multiset_len(full_deck());
            assert(is_shuffled_full_deck(full_deck()));
        }
        match keycode {
            Keycode::Up => self.increase_bet(),
            Keycode::Down => self.decrease_bet(),
            Keycode::Return | Keycode::Space => self.deal_initial_hand(),
            _ => {},
        }
    }

    fn handle_selecting_holds_keys(&mut self, keycode: Keycode)
        requires
            keycode == Keycode::Return || keycode == Keycode::Space ==> old(self)@.hand.len() <= 5,
        ensures
            final(self)@ == spec_selecting_holds_keys(old(self)@, keycode),
    {
        match keycode {
            Keycode::Num1 => self.toggle_hold(0),
            Keycode::Num2 => self.toggle_hold(1),
            Keycode::Num3 => self.toggle_hold(2),
            Keycode::Num4 => self.toggle_hold(3),
            Keycode::Num5 => self.toggle_hold(4),
            Keycode::Return | Keycode::Space => self.deal_final_hand(),
            _ => {},
        }
    }

    fn handle_mouse_click(&mut self, x: i32, y: i32, renderer: &Renderer)
        requires
            event_fits(old(self)@, Event::MouseButtonDown { mouse_btn: MouseButton::Left, x, y }),
        ensures
            exists|fresh: Seq<Card>|
                #[trigger] is_shuffled_full_deck(fresh) && final(self)@ == spec_mouse_click(
                    old(self)@,
                    x as int,
                    y as int,
                    fresh,
                ),
    {
        proof {
            vstd::seq_lib::to_multiset_len(full_deck());
            assert(is_shuffled_full_deck(full_deck()));
        }
        let ghost s0 = self@;
        match self.phase {
            GamePhase::Betting => {
                if renderer.is_point_in_bet_up_button(x, y) {
                    self.increase_bet();
                    assert(self@ == spec_mouse_click(s0, x as int, y as int, full_deck()));
                } else if renderer.is_point_in_bet_down_button(x, y) {
                    self.decrease_bet();
                    assert(self@ == spec_mouse_click(s0, x as int, y as int, full_deck()));
                } else if renderer.is_point_in_deal_button(x, y) {
                    self.deal_initial_hand();
                } else {
                    assert(self@ == spec_mouse_click(s0, x as int, y as int, full_deck()));
                }
            },
            GamePhase::SelectingHolds => {
                let n = self.hand.len();
                let ghost mut hit: Option<int> = None;
                let mut i: usize = 0;
                while i < n
                    invariant_except_break
                        self@ == s0,
                        hit is None,
                        card_hit_from(0, n as int, x as int, y as int) == card_hit_from(
                            i as int,
                            n as int,
                            x as int,
                            y as int,
                        ),
                    invariant
                        0 <= i <= n,
                        n == s0.hand.len(),
                        s0.phase == GamePhase::SelectingHolds,
                        event_fits(s0, Event::MouseButtonDown { mouse_btn: MouseButton::Left, x, y }),
                    ensures
                        card_hit_from(0, n as int, x as int, y as int) == hit,
                        self@ == match hit {
                            Some(j) => spec_toggle_hold(s0, j),
                            None => s0,
                        },
                    decreases n - i,
                {
                    proof {
                        lemma_card_hit_from_range(i as int, n as int, x as int, y as int);
                        assert(i <= click_reach(s0, x as int, y as int));
                        assert(card_left(i as int) <= i32::MAX);
                    }
                    if renderer.is_point_in_card(i, x, y) {
                        assert(card_hit_from(i as int, n as int, x as int, y as int) == Some(i as int));
                        self.toggle_hold(i);
                        proof {
                            hit = Some(i as int);
                        }
                        break;
                    }
                    i += 1;
                }
                if renderer.is_point_in_draw_button(x, y) {
                    self.deal_final_hand();
                }
            },
            GamePhase::ShowResults => {
                if renderer.is_point_in_new_game_button(x, y) {
                    self.reset_for_new_hand();
                }
            },
            _ => {},
        }
    }
}

} // verus!
