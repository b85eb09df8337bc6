//! Properties the game keeps across its operations.

use vstd::prelude::*;

use crate::render::in_card;
use crate::cards::{hand_rank_of, is_shuffled_full_deck, payout_of, Card};
use crate::game::{
    all_idle, deck_after_draws, draw_ends, drawn_card, replaces_card, spec_deal_final_hand,
    spec_deal_initial_hand, spec_decrease_bet, spec_reset_for_new_hand, card_hit_from, spec_handle_event, spec_increase_bet,
    spec_toggle_hold, spec_update, stepped_view, wf, draws_in_hand, event_deals, event_fits, CardAnimationState, Event, GamePhase,
    GameView, Keycode, MouseButton,
};

verus! {

/// Dealing a new hand leaves the game well formed.
pub proof fn lemma_deal_keeps_wf(s: GameView, fresh: Seq<Card>)
    ensures
        wf(spec_deal_initial_hand(s, fresh)),
{
}

proof fn lemma_single_steps_keep_wf(s: GameView, index: int, fresh: Seq<Card>)
    requires
        wf(s),
    ensures
        wf(spec_increase_bet(s)),
        wf(spec_decrease_bet(s)),
        wf(spec_toggle_hold(s, index)),
        wf(spec_deal_final_hand(s)),
        wf(spec_reset_for_new_hand(s, fresh)),
        wf(spec_deal_initial_hand(s, fresh)),
{
}

/// Whatever input comes, the game stays well formed.
pub proof fn lemma_event_keeps_wf(s: GameView, event: Event, fresh: Seq<Card>)
    requires
        wf(s),
    ensures
        wf(spec_handle_event(s, event, fresh)),
{
    lemma_single_steps_keep_wf(s, 0, fresh);
    lemma_single_steps_keep_wf(s, 1, fresh);
    lemma_single_steps_keep_wf(s, 2, fresh);
    lemma_single_steps_keep_wf(s, 3, fresh);
    lemma_single_steps_keep_wf(s, 4, fresh);
    match event {
        Event::MouseButtonDown { mouse_btn: _, x, y } => {
            match card_hit_from(0, s.hand.len() as int, x as int, y as int) {
                Some(i) => {
                    lemma_single_steps_keep_wf(s, i, fresh);
                    lemma_single_steps_keep_wf(spec_toggle_hold(s, i), 0, fresh);
                },
                None => {},
            }
        },
        _ => {},
    }
}

/// However much time passes, the game stays well formed.
pub proof fn lemma_update_keeps_wf(s: GameView, dt: u64, fresh: Seq<Card>)
    requires
        wf(s),
    ensures
        wf(spec_update(s, dt, fresh)),
{
}

/// The bet always stays between 1 and 5: no input and no passing of time
/// takes it out of that range.
pub proof fn lemma_bet_stays_in_range(s: GameView, event: Event, dt: u64, fresh: Seq<Card>)
    requires
        1 <= s.bet <= 5,
    ensures
        1 <= spec_handle_event(s, event, fresh).bet <= 5,
        1 <= spec_update(s, dt, fresh).bet <= 5,
{
}

/// The bet is raised only while the credits cover the raised bet.
pub proof fn lemma_raise_needs_credits(s: GameView)
    ensures
        spec_increase_bet(s).bet != s.bet ==> spec_increase_bet(s).bet == s.bet + 1
            <= s.credits && s.bet < 5,
{
}

/// Lowering the bet undoes raising it.
pub proof fn lemma_lower_undoes_raise(s: GameView)
    requires
        1 <= s.bet,
    ensures
        spec_increase_bet(s) != s ==> spec_decrease_bet(spec_increase_bet(s)) == s,
{
}

/// Holding a card twice releases it again.
pub proof fn lemma_toggle_twice(s: GameView, index: int)
    requires
        wf(s),
        0 <= index,
    ensures
        spec_toggle_hold(spec_toggle_hold(s, index), index) == s,
{
    if index < s.hand.len() {
        assert(spec_toggle_hold(spec_toggle_hold(s, index), index).held =~= s.held);
    }
}

/// Dealing takes the bet from the credits, and deals the top five cards of
/// the deck, top first, when the deck holds at least five.
pub proof fn lemma_deal_takes_bet_and_top_cards(s: GameView, fresh: Seq<Card>)
    requires
        i32::MIN <= s.credits - s.bet <= i32::MAX,
    ensures
        spec_deal_initial_hand(s, fresh).credits == s.credits - s.bet,
        spec_deal_initial_hand(s, fresh).hand.len() == 5,
        s.deck.len() >= 5 ==> spec_deal_initial_hand(s, fresh).hand =~= s.deck.subrange(
            s.deck.len() - 5,
            s.deck.len() as int,
        ).reverse(),
        s.deck.len() >= 5 ==> spec_deal_initial_hand(s, fresh).deck =~= s.deck.subrange(
            0,
            s.deck.len() - 5,
        ),
{
}

/// Dealing from a deck of at least five cards moves cards from the deck to
/// the hand: together they hold exactly the cards the deck held.
pub proof fn lemma_deal_keeps_cards(s: GameView, fresh: Seq<Card>)
    requires
        s.deck.len() >= 5,
    ensures
        spec_deal_initial_hand(s, fresh).hand.to_multiset().add(
            spec_deal_initial_hand(s, fresh).deck.to_multiset(),
        ) == s.deck.to_multiset(),
{
    let n = s.deck.len() as int;
    let t = spec_deal_initial_hand(s, fresh);
    let top = s.deck.subrange(n - 5, n);
    let rest = s.deck.subrange(0, n - 5);
    assert(t.hand =~= top.reverse());
    assert(t.deck =~= rest);
    assert(s.deck =~= rest + top);
    top.lemma_reverse_to_multiset();
    vstd::seq_lib::lemma_multiset_commutative(rest, top);
    vstd::seq_lib::lemma_multiset_commutative(top, rest);
    assert(rest.to_multiset().add(top.to_multiset()) =~= top.to_multiset().add(
        rest.to_multiset(),
    ));
}

/// A card that is not flipping to its back keeps its place in the hand and
/// does not start flipping to its back as time passes. With
/// `lemma_held_cards_not_drawn`, a held card stays in the hand through the
/// whole draw.
pub proof fn lemma_unflipped_card_stays(s: GameView, dt: u64, fresh: Seq<Card>, i: int)
    requires
        wf(s),
        0 <= i < s.hand.len(),
        !(s.card_animations[i] is FlipToBack),
    ensures
        spec_update(s, dt, fresh).hand[i] == s.hand[i],
        !(spec_update(s, dt, fresh).card_animations[i] is FlipToBack),
{
    assert(!replaces_card(s, dt, i));
}

/// Starting the draw flips away exactly the cards that are not held, among
/// cards at rest: a held card is not replaced.
pub proof fn lemma_held_cards_not_drawn(s: GameView, i: int)
    requires
        wf(s),
        all_idle(s.card_animations),
        0 <= i < s.hand.len(),
    ensures
        spec_deal_final_hand(s).card_animations[i] is FlipToBack <==> !s.held[i],
        spec_deal_final_hand(s).hand == s.hand,
{
    assert(s.card_animations[i] == CardAnimationState::Idle);
}

/// When the draw ends with five cards in hand, the final hand is ranked, the
/// payout of its rank times the bet is won, and the winnings are added to the
/// credits; the result is then shown.
pub proof fn lemma_draw_pays(s: GameView, dt: u64, fresh: Seq<Card>)
    requires
        draw_ends(s, dt, fresh),
        stepped_view(s, dt, fresh).hand.len() == 5,
        i32::MIN <= payout_of(hand_rank_of(stepped_view(s, dt, fresh).hand)) * s.bet
            <= i32::MAX,
        i32::MIN <= s.credits + payout_of(hand_rank_of(stepped_view(s, dt, fresh).hand)) * s.bet
            <= i32::MAX,
    ensures
        ({
            let t = spec_update(s, dt, fresh);
            &&& t.hand == stepped_view(s, dt, fresh).hand
            &&& t.hand_rank == Some(hand_rank_of(t.hand))
            &&& t.win_amount == payout_of(hand_rank_of(t.hand)) * s.bet
            &&& t.credits == s.credits + t.win_amount
            &&& t.phase == GamePhase::ShowResults
        }),
{
}

/// The credits change only when a hand is dealt (the bet is paid) and when
/// the draw ends (the winnings are added).
pub proof fn lemma_credits_change_only_on_deal_and_payout(
    s: GameView,
    event: Event,
    dt: u64,
    fresh: Seq<Card>,
)
    ensures
        !(s.phase == GamePhase::Betting) ==> spec_handle_event(s, event, fresh).credits
            == s.credits,
        !draw_ends(s, dt, fresh) ==> spec_update(s, dt, fresh).credits == s.credits,
{
}

/// The game after a run of updates: the `k`-th lets `steps[k].0`
/// nanoseconds pass, with `steps[k].1` as the deck that replaces one that
/// runs out.
pub open spec fn after_updates(s: GameView, steps: Seq<(u64, Seq<Card>)>) -> GameView
    decreases steps.len(),
{
    if steps.len() == 0 {
        s
    } else {
        after_updates(spec_update(s, steps[0].0, steps[0].1), steps.drop_first())
    }
}

proof fn lemma_unflipped_card_stays_through(s: GameView, steps: Seq<(u64, Seq<Card>)>, i: int)
    requires
        wf(s),
        0 <= i < s.hand.len(),
        !(s.card_animations[i] is FlipToBack),
    ensures
        after_updates(s, steps).hand.len() == s.hand.len(),
        after_updates(s, steps).hand[i] == s.hand[i],
    decreases steps.len(),
{
    if steps.len() > 0 {
        let t = spec_update(s, steps[0].0, steps[0].1);
        lemma_unflipped_card_stays(s, steps[0].0, steps[0].1, i);
        lemma_update_keeps_wf(s, steps[0].0, steps[0].1);
        assert(t.hand.len() == s.hand.len());
        lemma_unflipped_card_stays_through(t, steps.drop_first(), i);
    }
}

/// A held card is still in its place after the draw, however the time of the
/// draw is cut into updates, unless it was already flipping to its back when
/// the draw started.
pub proof fn lemma_held_card_survives_draw(s: GameView, steps: Seq<(u64, Seq<Card>)>, i: int)
    requires
        wf(s),
        0 <= i < s.hand.len(),
        s.held[i],
        !(s.card_animations[i] is FlipToBack),
    ensures
        after_updates(spec_deal_final_hand(s), steps).hand[i] == s.hand[i],
{
    assert(spec_deal_final_hand(s).card_animations[i] == s.card_animations[i]);
    lemma_single_steps_keep_wf(s, 0, Seq::empty());
    lemma_unflipped_card_stays_through(spec_deal_final_hand(s), steps, i);
}

/// Time passing ends the first deal (holds are chosen next) and the draw
/// (the result is shown next), and leaves every other phase as it is.
pub proof fn lemma_update_phase(s: GameView, dt: u64, fresh: Seq<Card>)
    ensures
        ({
            let p = spec_update(s, dt, fresh).phase;
            ||| p == s.phase
            ||| s.phase == GamePhase::FirstDeal && p == GamePhase::SelectingHolds
            ||| s.phase == GamePhase::FinalDeal && p == GamePhase::ShowResults
        }),
{
}

/// A well-formed game never replaces a card it does not have.
pub proof fn lemma_wf_draws_in_hand(s: GameView, dt: u64)
    requires
        wf(s),
    ensures
        draws_in_hand(s, dt),
{
    assert forall|i: int| 0 <= i < 5 && #[trigger] replaces_card(s, dt, i) implies i
        < s.hand.len() by {
        assert(s.card_animations[i] is FlipToBack);
    }
}

/// A well-formed game can take every event, as long as a deal's bet can be
/// taken from the credits.
pub proof fn lemma_wf_event_fits(s: GameView, event: Event)
    requires
        wf(s),
        event_deals(s, event) ==> i32::MIN <= s.credits - s.bet <= i32::MAX,
    ensures
        event_fits(s, event),
{
    match event {
        Event::MouseButtonDown { mouse_btn: _, x, y } => {
            lemma_card_hit_from_bounds(0, s.hand.len() as int, x as int, y as int);
        },
        _ => {},
    }
}

proof fn lemma_card_hit_from_bounds(i: int, n: int, x: int, y: int)
    requires
        0 <= i,
    ensures
        card_hit_from(i, n, x, y) matches Some(h) ==> i <= h < n,
    decreases n - i,
{
    if i < n && !in_card(i, x, y) {
        lemma_card_hit_from_bounds(i + 1, n, x, y);
    }
}

// ---------------------------------------------------------------------------
// What the keys and buttons do, phase by phase.

/// While betting, Down and a click on the - button lower a bet above 1 by
/// one, whatever the credits, and change nothing else; a bet of 1 stays.
pub proof fn lemma_lower_bet(s: GameView, x: i32, y: i32, fresh: Seq<Card>)
    requires
        s.phase == GamePhase::Betting,
        50 <= x < 100,
        400 <= y < 430,
    ensures
        spec_handle_event(s, Event::KeyDown { keycode: Some(Keycode::Down) }, fresh) == if s.bet
            > 1 {
            GameView { bet: (s.bet - 1) as i32, ..s }
        } else {
            s
        },
        spec_handle_event(s, Event::MouseButtonDown { mouse_btn: MouseButton::Left, x, y }, fresh)
            == if s.bet > 1 {
            GameView { bet: (s.bet - 1) as i32, ..s }
        } else {
            s
        },
{
}

/// While betting, Up and a click on the + button raise the bet by one while
/// it is below 5 and the credits cover the raised bet, and change nothing
/// else; otherwise nothing changes.
pub proof fn lemma_raise_bet(s: GameView, x: i32, y: i32, fresh: Seq<Card>)
    requires
        s.phase == GamePhase::Betting,
        200 <= x < 250,
        400 <= y < 430,
    ensures
        spec_handle_event(s, Event::KeyDown { keycode: Some(Keycode::Up) }, fresh) == if s.bet < 5
            && s.bet < s.credits {
            GameView { bet: (s.bet + 1) as i32, ..s }
        } else {
            s
        },
        spec_handle_event(s, Event::MouseButtonDown { mouse_btn: MouseButton::Left, x, y }, fresh)
            == if s.bet < 5 && s.bet < s.credits {
            GameView { bet: (s.bet + 1) as i32, ..s }
        } else {
            s
        },
{
}

/// While betting, Return, Space and a click on DEAL deal a new hand: the bet
/// is paid from the credits, five cards are dealt, none held, and the first
/// deal begins; from a deck of at least five cards the hand is its top five,
/// top card first, and the deck keeps the rest.
pub proof fn lemma_deal_keys(s: GameView, event: Event, fresh: Seq<Card>)
    requires
        s.phase == GamePhase::Betting,
        event == (Event::KeyDown { keycode: Some(Keycode::Return) }) || event == (Event::KeyDown {
            keycode: Some(Keycode::Space),
        }) || (event matches Event::MouseButtonDown { mouse_btn: MouseButton::Left, x, y } && 350
            <= x < 450 && 400 <= y < 440),
    ensures
        ({
            let t = spec_handle_event(s, event, fresh);
            &&& t.phase == GamePhase::FirstDeal
            &&& t.credits == (s.credits - s.bet) as i32
            &&& t.bet == s.bet
            &&& t.hand.len() == 5
            &&& forall|i: int| 0 <= i < 5 ==> !(#[trigger] t.held[i])
            &&& forall|i: int|
                0 <= i < 5 ==> #[trigger] t.card_animations[i] == CardAnimationState::FlipToFront(0)
            &&& s.deck.len() >= 5 ==> forall|i: int|
                0 <= i < 5 ==> #[trigger] t.hand[i] == s.deck[s.deck.len() - 1 - i]
            &&& s.deck.len() >= 5 ==> t.deck == s.deck.subrange(0, s.deck.len() - 5)
        }),
{
}

/// Which number key belongs to the `j`-th card from the left.
pub open spec fn number_key(j: int) -> Keycode {
    if j == 0 {
        Keycode::Num1
    } else if j == 1 {
        Keycode::Num2
    } else if j == 2 {
        Keycode::Num3
    } else if j == 3 {
        Keycode::Num4
    } else {
        Keycode::Num5
    }
}

/// While holds are chosen, the number key of the `j`-th card, and a click on
/// that card, hold it or release it, and change nothing else.
pub proof fn lemma_hold_keys_and_clicks(s: GameView, j: int, x: i32, y: i32, fresh: Seq<Card>)
    requires
        s.phase == GamePhase::SelectingHolds,
        0 <= j < 5,
        j < s.hand.len(),
        100 + 120 * j <= x < 180 + 120 * j,
        200 <= y < 320,
    ensures
        spec_handle_event(s, Event::KeyDown { keycode: Some(number_key(j)) }, fresh) == (GameView {
            held: s.held.update(j, !s.held[j]),
            ..s
        }),
        spec_handle_event(s, Event::MouseButtonDown { mouse_btn: MouseButton::Left, x, y }, fresh)
            == (GameView { held: s.held.update(j, !s.held[j]), ..s }),
{
    lemma_card_hit_is(s.hand.len() as int, j, x as int, y as int, 0);
}

proof fn lemma_card_hit_is(n: int, j: int, x: int, y: int, i: int)
    requires
        0 <= i <= j < n,
        j < 5,
        100 + 120 * j <= x < 180 + 120 * j,
        200 <= y < 320,
    ensures
        card_hit_from(i, n, x, y) == Some(j),
    decreases j - i,
{
    if i < j {
        assert(!in_card(i, x, y));
        lemma_card_hit_is(n, j, x, y, i + 1);
    } else {
        assert(in_card(j, x, y));
    }
}

/// While holds are chosen, Return and Space start the draw: the cards not
/// held start flipping to their backs, the held ones keep their flips, and
/// nothing else changes but the phase and the timer.
pub proof fn lemma_draw_keys(s: GameView, k: Keycode, fresh: Seq<Card>)
    requires
        s.phase == GamePhase::SelectingHolds,
        k == Keycode::Return || k == Keycode::Space,
    ensures
        ({
            let t = spec_handle_event(s, Event::KeyDown { keycode: Some(k) }, fresh);
            &&& t.phase == GamePhase::FinalDeal
            &&& t.hand == s.hand
            &&& t.held == s.held
            &&& t.deck == s.deck
            &&& t.credits == s.credits
            &&& t.bet == s.bet
            &&& forall|i: int|
                0 <= i < 5 ==> #[trigger] t.card_animations[i] == if i < s.hand.len() && !s.held[i] {
                    CardAnimationState::FlipToBack(0)
                } else {
                    s.card_animations[i]
                }
        }),
{
}

/// On the result screen, Return, Space and a click on NEW GAME start a new
/// hand: the table is cleared (no cards, no holds, no rank, no winnings, no
/// flips), `fresh` becomes the deck, credits and bet stay, and betting begins.
pub proof fn lemma_new_hand(s: GameView, event: Event, fresh: Seq<Card>)
    requires
        s.phase == GamePhase::ShowResults,
        event == (Event::KeyDown { keycode: Some(Keycode::Return) }) || event == (Event::KeyDown {
            keycode: Some(Keycode::Space),
        }) || (event matches Event::MouseButtonDown { mouse_btn: MouseButton::Left, x, y } && 350
            <= x < 450 && 400 <= y < 440),
    ensures
        ({
            let t = spec_handle_event(s, event, fresh);
            &&& t.phase == GamePhase::Betting
            &&& t.hand.len() == 0
            &&& t.held.len() == 5
            &&& forall|i: int| 0 <= i < 5 ==> !(#[trigger] t.held[i])
            &&& t.hand_rank is None
            &&& t.win_amount == 0
            &&& t.deck == fresh
            &&& t.credits == s.credits
            &&& t.bet == s.bet
            &&& forall|i: int|
                0 <= i < 5 ==> #[trigger] t.card_animations[i] == CardAnimationState::Idle
        }),
{
}

/// On the result screen, a click anywhere but on NEW GAME, and any key but
/// Return and Space, change nothing.
pub proof fn lemma_result_screen_waits(s: GameView, event: Event, fresh: Seq<Card>)
    requires
        s.phase == GamePhase::ShowResults,
        match event {
            Event::KeyDown { keycode: Some(k) } => k != Keycode::Return && k != Keycode::Space,
            Event::MouseButtonDown { mouse_btn: _, x, y } => !(350 <= x < 450 && 400 <= y < 440),
            _ => true,
        },
    ensures
        spec_handle_event(s, event, fresh) == s,
{
}

// ---------------------------------------------------------------------------
// The pace of the first deal.

/// During the first deal a card's flip to its face moves on by twice the
/// time that passes (in billionths of a flip) and ends when it reaches a
/// whole flip; while one flip is not over, the first deal goes on.
pub proof fn lemma_first_deal_flip_moves_on(s: GameView, dt: u64, fresh: Seq<Card>, i: int, p: u64)
    requires
        s.phase == GamePhase::FirstDeal,
        0 <= i < 5,
        s.card_animations.len() == 5,
        s.card_animations[i] == CardAnimationState::FlipToFront(p),
        p + 2 * dt < 1_000_000_000,
    ensures
        spec_update(s, dt, fresh).card_animations[i] == CardAnimationState::FlipToFront(
            (p + 2 * dt) as u64,
        ),
        spec_update(s, dt, fresh).phase == GamePhase::FirstDeal,
        spec_update(s, dt, fresh).hand == s.hand,
{
    assert(!all_idle(stepped_view(s, dt, fresh).card_animations));
    assert(stepped_view(s, dt, fresh).hand =~= s.hand);
}

/// When every flip of the first deal ends, the player chooses holds, and a
/// hand of five is ranked; the cards, credits and bet stay as they were.
pub proof fn lemma_first_deal_ends(s: GameView, dt: u64, fresh: Seq<Card>)
    requires
        s.phase == GamePhase::FirstDeal,
        s.hand.len() == 5,
        s.card_animations.len() == 5,
        forall|i: int|
            0 <= i < 5 ==> match #[trigger] s.card_animations[i] {
                CardAnimationState::FlipToFront(p) => p + 2 * dt >= 1_000_000_000,
                CardAnimationState::FlipToBack(p) => p + 2 * dt >= 1_000_000_000,
                CardAnimationState::Idle => true,
            },
    ensures
        ({
            let t = spec_update(s, dt, fresh);
            &&& t.phase == GamePhase::SelectingHolds
            &&& t.hand == s.hand
            &&& t.hand_rank == Some(hand_rank_of(s.hand))
            &&& t.credits == s.credits
            &&& t.bet == s.bet
            &&& t.held == s.held
        }),
{
    assert(stepped_view(s, dt, fresh).hand =~= s.hand);
    assert(all_idle(stepped_view(s, dt, fresh).card_animations));
}

} // verus!
