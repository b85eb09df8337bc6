use rust_poker::cards::{evaluate_hand, Card, HandRank, Rank, Suit};
use rust_poker::game::{
    CardAnimationState, Event, GamePhase, GameState, Keycode, MouseButton, FLIP_COMPLETE,
};
use rust_poker::render::Renderer;

const QUARTER_SECOND: u64 = 250_000_000;

fn key_down(k: Keycode) -> Event {
    Event::KeyDown { keycode: Some(k) }
}

fn left_click(x: i32, y: i32) -> Event {
    Event::MouseButtonDown { mouse_btn: MouseButton::Left, x, y }
}

fn same_card(a: &Card, b: &Card) -> bool {
    a.suit == b.suit && a.rank == b.rank && a.back == b.back
}

fn finish_flips(game: &mut GameState) {
    game.update(QUARTER_SECOND);
    game.update(QUARTER_SECOND);
}

fn hand_array(game: &GameState) -> [Card; 5] {
    [game.hand[0], game.hand[1], game.hand[2], game.hand[3], game.hand[4]]
}

#[test]
fn a_new_game_waits_for_a_bet() {
    let game = GameState::new();
    assert_eq!(game.credits, 100);
    assert_eq!(game.bet, 5);
    assert_eq!(game.phase, GamePhase::Betting);
    assert!(game.hand.is_empty());
    assert_eq!(game.held, [false; 5]);
    assert_eq!(game.hand_rank, None);
    assert_eq!(game.win_amount, 0);
    assert_eq!(game.card_animations, [CardAnimationState::Idle; 5]);
}

#[test]
fn bet_keys_stay_between_one_and_five() {
    let r = Renderer;
    let mut game = GameState::new();
    game.handle_event(&key_down(Keycode::Up), &r);
    assert_eq!(game.bet, 5);
    for expected in [4, 3, 2, 1, 1] {
        game.handle_event(&key_down(Keycode::Down), &r);
        assert_eq!(game.bet, expected);
    }
    game.handle_event(&key_down(Keycode::Up), &r);
    assert_eq!(game.bet, 2);
    // Lowering undoes raising.
    game.handle_event(&key_down(Keycode::Down), &r);
    assert_eq!(game.bet, 1);
}

#[test]
fn raising_the_bet_needs_credits() {
    let r = Renderer;
    let mut game = GameState::new();
    game.bet = 2;
    game.credits = 2;
    game.handle_event(&key_down(Keycode::Up), &r);
    assert_eq!(game.bet, 2);
    game.credits = 3;
    game.handle_event(&key_down(Keycode::Up), &r);
    assert_eq!(game.bet, 3);
}

#[test]
fn dealing_takes_the_bet_and_five_distinct_cards() {
    let r = Renderer;
    let mut game = GameState::new();
    game.handle_event(&key_down(Keycode::Down), &r);
    game.handle_event(&key_down(Keycode::Return), &r);
    assert_eq!(game.credits, 96);
    assert_eq!(game.phase, GamePhase::FirstDeal);
    assert_eq!(game.hand.len(), 5);
    assert_eq!(game.card_animations, [CardAnimationState::FlipToFront(0); 5]);
    for i in 0..5 {
        for j in 0..i {
            assert!(!same_card(&game.hand[i], &game.hand[j]));
        }
    }
    // The dealt cards left the deck.
    let mut rest = Vec::new();
    while let Some(c) = game.deck.deal() {
        rest.push(c);
    }
    assert_eq!(rest.len(), 47);
    for c in &game.hand {
        assert!(!rest.iter().any(|d| same_card(c, d)));
    }
}

#[test]
fn first_deal_flips_then_ranks_the_hand() {
    let r = Renderer;
    let mut game = GameState::new();
    game.handle_event(&key_down(Keycode::Space), &r);
    game.update(QUARTER_SECOND);
    assert_eq!(game.phase, GamePhase::FirstDeal);
    assert_eq!(game.card_animations, [CardAnimationState::FlipToFront(FLIP_COMPLETE / 2); 5]);
    game.update(QUARTER_SECOND);
    assert_eq!(game.card_animations, [CardAnimationState::Idle; 5]);
    assert_eq!(game.phase, GamePhase::SelectingHolds);
    assert_eq!(game.hand_rank, Some(evaluate_hand(&hand_array(&game))));
}

#[test]
fn number_keys_hold_and_release_cards() {
    let r = Renderer;
    let mut game = GameState::new();
    game.handle_event(&key_down(Keycode::Return), &r);
    finish_flips(&mut game);
    game.handle_event(&key_down(Keycode::Num1), &r);
    game.handle_event(&key_down(Keycode::Num4), &r);
    assert_eq!(game.held, [true, false, false, true, false]);
    game.handle_event(&key_down(Keycode::Num4), &r);
    assert_eq!(game.held, [true, false, false, false, false]);
    game.handle_event(&key_down(Keycode::Up), &r);
    assert_eq!(game.held, [true, false, false, false, false]);
    assert_eq!(game.bet, 5);
}

#[test]
fn the_draw_keeps_held_cards_and_pays_the_final_hand() {
    let r = Renderer;
    let mut game = GameState::new();
    game.handle_event(&key_down(Keycode::Return), &r);
    finish_flips(&mut game);
    let before = game.hand.clone();
    game.handle_event(&key_down(Keycode::Num2), &r);
    game.handle_event(&key_down(Keycode::Num5), &r);
    game.handle_event(&key_down(Keycode::Return), &r);
    assert_eq!(game.phase, GamePhase::FinalDeal);
    assert_eq!(game.card_animations[0], CardAnimationState::FlipToBack(0));
    assert_eq!(game.card_animations[1], CardAnimationState::Idle);
    assert_eq!(game.card_animations[4], CardAnimationState::Idle);
    finish_flips(&mut game);
    // The replaced cards now flip to their faces.
    assert_eq!(game.card_animations[0], CardAnimationState::FlipToFront(0));
    assert_eq!(game.phase, GamePhase::FinalDeal);
    finish_flips(&mut game);
    assert_eq!(game.phase, GamePhase::ShowResults);
    assert!(same_card(&game.hand[1], &before[1]));
    assert!(same_card(&game.hand[4], &before[4]));
    for i in [0, 2, 3] {
        assert!(!same_card(&game.hand[i], &before[i]));
    }
    let rank = evaluate_hand(&hand_array(&game));
    assert_eq!(game.hand_rank, Some(rank));
    assert_eq!(game.win_amount, rank.payout() * 5);
    assert_eq!(game.credits, 95 + rank.payout() * 5);
}

#[test]
fn a_known_final_hand_pays_its_table_value() {
    let r = Renderer;
    let mut game = GameState::new();
    game.handle_event(&key_down(Keycode::Return), &r);
    finish_flips(&mut game);
    let pair = [
        Card { suit: Suit::Hearts, rank: Rank::Queen, back: 1 },
        Card { suit: Suit::Spades, rank: Rank::Queen, back: 1 },
        Card { suit: Suit::Clubs, rank: Rank::Queen, back: 1 },
        Card { suit: Suit::Diamonds, rank: Rank::Two, back: 1 },
        Card { suit: Suit::Hearts, rank: Rank::Two, back: 1 },
    ];
    game.hand = pair.to_vec();
    game.held = [true; 5];
    game.handle_event(&key_down(Keycode::Space), &r);
    game.update(1);
    assert_eq!(game.phase, GamePhase::ShowResults);
    assert_eq!(game.hand_rank, Some(HandRank::FullHouse));
    assert_eq!(game.win_amount, 45);
    assert_eq!(game.credits, 95 + 45);
}

#[test]
fn show_results_then_new_hand() {
    let r = Renderer;
    let mut game = GameState::new();
    game.handle_event(&key_down(Keycode::Return), &r);
    finish_flips(&mut game);
    game.handle_event(&key_down(Keycode::Return), &r);
    finish_flips(&mut game);
    finish_flips(&mut game);
    assert_eq!(game.phase, GamePhase::ShowResults);
    game.handle_event(&key_down(Keycode::Up), &r);
    assert_eq!(game.phase, GamePhase::ShowResults);
    game.handle_event(&key_down(Keycode::Space), &r);
    assert_eq!(game.phase, GamePhase::Betting);
    assert!(game.hand.is_empty());
    assert_eq!(game.hand_rank, None);
    assert_eq!(game.win_amount, 0);
    assert_eq!(game.held, [false; 5]);
    let mut count = 0;
    while game.deck.deal().is_some() {
        count += 1;
    }
    assert_eq!(count, 52);
}

#[test]
fn mouse_drives_the_betting_buttons() {
    let r = Renderer;
    let mut game = GameState::new();
    game.handle_event(&left_click(60, 410), &r);
    assert_eq!(game.bet, 4);
    game.handle_event(&left_click(210, 410), &r);
    assert_eq!(game.bet, 5);
    game.handle_event(&Event::MouseButtonDown { mouse_btn: MouseButton::Right, x: 60, y: 410 }, &r);
    assert_eq!(game.bet, 5);
    game.handle_event(&left_click(10, 10), &r);
    assert_eq!(game.phase, GamePhase::Betting);
    game.handle_event(&left_click(400, 420), &r);
    assert_eq!(game.phase, GamePhase::FirstDeal);
    assert_eq!(game.credits, 95);
}

#[test]
fn mouse_holds_cards_and_draws() {
    let r = Renderer;
    let mut game = GameState::new();
    game.handle_event(&key_down(Keycode::Return), &r);
    finish_flips(&mut game);
    game.handle_event(&left_click(110, 210), &r);
    game.handle_event(&left_click(600, 300), &r);
    assert_eq!(game.held, [true, false, false, false, true]);
    game.handle_event(&left_click(190, 300), &r);
    assert_eq!(game.held, [true, false, false, false, true]);
    game.handle_event(&left_click(110, 210), &r);
    assert_eq!(game.held, [false, false, false, false, true]);
    game.handle_event(&left_click(400, 420), &r);
    assert_eq!(game.phase, GamePhase::FinalDeal);
}

#[test]
fn only_new_game_acts_on_the_result_screen() {
    let r = Renderer;
    let mut game = GameState::new();
    game.handle_event(&key_down(Keycode::Down), &r);
    game.handle_event(&key_down(Keycode::Down), &r);
    game.handle_event(&key_down(Keycode::Return), &r);
    finish_flips(&mut game);
    game.handle_event(&key_down(Keycode::Return), &r);
    finish_flips(&mut game);
    finish_flips(&mut game);
    assert_eq!(game.phase, GamePhase::ShowResults);
    let credits = game.credits;
    game.handle_event(&left_click(10, 10), &r);
    assert_eq!(game.bet, 3);
    assert_eq!(game.phase, GamePhase::ShowResults);
    game.handle_event(&left_click(210, 410), &r);
    assert_eq!(game.bet, 3);
    game.handle_event(&left_click(400, 420), &r);
    assert_eq!(game.bet, 3);
    assert_eq!(game.credits, credits);
    assert_eq!(game.phase, GamePhase::Betting);
    assert!(game.hand.is_empty());
}

#[test]
fn other_events_change_nothing() {
    let r = Renderer;
    let mut game = GameState::new();
    game.handle_event(&Event::Other, &r);
    game.handle_event(&Event::KeyDown { keycode: None }, &r);
    game.handle_event(&key_down(Keycode::Num1), &r);
    assert_eq!(game.phase, GamePhase::Betting);
    assert_eq!(game.bet, 5);
    assert_eq!(game.held, [false; 5]);
    game.handle_event(&key_down(Keycode::Return), &r);
    game.handle_event(&key_down(Keycode::Return), &r);
    assert_eq!(game.phase, GamePhase::FirstDeal);
    assert_eq!(game.credits, 95);
}

#[test]
fn an_empty_deck_is_renewed_when_dealing() {
    let mut game = GameState::new();
    for _ in 0..50 {
        game.deck.deal();
    }
    game.deal_initial_hand();
    assert_eq!(game.hand.len(), 5);
    let mut count = 0;
    while game.deck.deal().is_some() {
        count += 1;
    }
    assert_eq!(count, 49);
}

#[test]
fn flips_show_the_side_they_leave_until_half_way() {
    let half = FLIP_COMPLETE / 2;
    assert!(CardAnimationState::FlipToFront(0).shows_back());
    assert!(CardAnimationState::FlipToFront(half - 1).shows_back());
    assert!(!CardAnimationState::FlipToFront(half).shows_back());
    assert!(!CardAnimationState::FlipToBack(half - 1).shows_back());
    assert!(CardAnimationState::FlipToBack(half).shows_back());
    assert!(!CardAnimationState::Idle.shows_back());
    assert_eq!(CardAnimationState::FlipToFront(0).turn(), 0);
    assert_eq!(CardAnimationState::FlipToFront(FLIP_COMPLETE / 4).turn(), half);
    assert_eq!(CardAnimationState::FlipToBack(half).turn(), FLIP_COMPLETE);
    assert_eq!(CardAnimationState::FlipToBack(FLIP_COMPLETE / 4 * 3).turn(), half);
    assert_eq!(CardAnimationState::Idle.turn(), 0);
}

#[test]
fn can_handle_tells_which_events_are_safe() {
    let r = Renderer;
    let mut game = GameState::new();
    assert!(game.can_handle(&key_down(Keycode::Return), &r));
    assert!(game.can_handle(&left_click(400, 420), &r));
    game.credits = i32::MIN;
    assert!(!game.can_handle(&key_down(Keycode::Return), &r));
    assert!(!game.can_handle(&left_click(400, 420), &r));
    assert!(game.can_handle(&left_click(60, 410), &r));
    assert!(game.can_handle(&key_down(Keycode::Up), &r));
    game.credits = 100;
    game.handle_event(&key_down(Keycode::Return), &r);
    finish_flips(&mut game);
    assert_eq!(game.phase, GamePhase::SelectingHolds);
    assert!(game.can_handle(&key_down(Keycode::Return), &r));
    assert!(game.can_handle(&left_click(110, 210), &r));
    // A sixth card: the draw would look past the five hold marks.
    let extra = game.hand[0];
    game.hand.push(extra);
    assert!(!game.can_handle(&key_down(Keycode::Return), &r));
    assert!(!game.can_handle(&left_click(400, 420), &r));
    assert!(!game.can_handle(&left_click(710, 250), &r));
    assert!(game.can_handle(&left_click(110, 250), &r));
    assert!(game.can_handle(&key_down(Keycode::Num1), &r));
}

#[test]
fn can_update_tells_whether_the_winnings_fit() {
    let r = Renderer;
    let mut game = GameState::new();
    assert!(game.can_update(QUARTER_SECOND));
    game.handle_event(&key_down(Keycode::Return), &r);
    finish_flips(&mut game);
    let quads = [
        Card { suit: Suit::Hearts, rank: Rank::Queen, back: 1 },
        Card { suit: Suit::Spades, rank: Rank::Queen, back: 1 },
        Card { suit: Suit::Clubs, rank: Rank::Queen, back: 1 },
        Card { suit: Suit::Diamonds, rank: Rank::Queen, back: 1 },
        Card { suit: Suit::Hearts, rank: Rank::Two, back: 1 },
    ];
    game.hand = quads.to_vec();
    game.held = [true; 5];
    game.handle_event(&key_down(Keycode::Space), &r);
    // Four of a kind pays 25 times the bet of 5.
    game.credits = i32::MAX - 125;
    assert!(game.can_update(1));
    game.credits = i32::MAX - 124;
    assert!(!game.can_update(1));
    game.credits = i32::MAX - 125;
    game.update(1);
    assert_eq!(game.credits, i32::MAX);
    assert_eq!(game.phase, GamePhase::ShowResults);
}

#[test]
fn a_flip_beyond_the_hand_cannot_be_drawn() {
    let r = Renderer;
    let mut game = GameState::new();
    game.handle_event(&key_down(Keycode::Return), &r);
    finish_flips(&mut game);
    game.handle_event(&key_down(Keycode::Return), &r);
    game.hand.pop();
    assert!(game.can_update(1));
    assert!(!game.can_update(QUARTER_SECOND * 2));
}

#[test]
fn a_draw_that_lasts_too_long_ends_at_once() {
    let r = Renderer;
    let mut game = GameState::new();
    game.handle_event(&key_down(Keycode::Return), &r);
    finish_flips(&mut game);
    game.handle_event(&key_down(Keycode::Return), &r);
    assert_eq!(game.card_animations, [CardAnimationState::FlipToBack(0); 5]);
    // One long step ends the flips to the back, starts the new cards'
    // flips, and passes the three-second limit: the result is shown.
    game.update(3_100_000_000);
    assert_eq!(game.phase, GamePhase::ShowResults);
    assert_eq!(game.card_animations, [CardAnimationState::Idle; 5]);
    let rank = evaluate_hand(&hand_array(&game));
    assert_eq!(game.hand_rank, Some(rank));
    assert_eq!(game.credits, 95 + rank.payout() * 5);
}

#[test]
fn a_short_long_step_waits_for_the_new_cards() {
    let r = Renderer;
    let mut game = GameState::new();
    game.handle_event(&key_down(Keycode::Return), &r);
    finish_flips(&mut game);
    game.handle_event(&key_down(Keycode::Return), &r);
    game.update(2_900_000_000);
    assert_eq!(game.phase, GamePhase::FinalDeal);
    assert_eq!(game.card_animations, [CardAnimationState::FlipToFront(0); 5]);
}
