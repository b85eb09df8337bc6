use rust_poker::render::Renderer;
use rust_poker::ui::Button;

#[test]
fn bet_buttons_have_half_open_edges() {
    let r = Renderer;
    assert!(r.is_point_in_bet_up_button(200, 400));
    assert!(r.is_point_in_bet_up_button(249, 429));
    assert!(!r.is_point_in_bet_up_button(250, 410));
    assert!(!r.is_point_in_bet_up_button(220, 430));
    assert!(!r.is_point_in_bet_up_button(199, 410));
    assert!(r.is_point_in_bet_down_button(50, 400));
    assert!(r.is_point_in_bet_down_button(99, 429));
    assert!(!r.is_point_in_bet_down_button(100, 400));
    assert!(!r.is_point_in_bet_down_button(60, 399));
}

#[test]
fn main_button_is_shared_by_deal_draw_and_new_game() {
    let r = Renderer;
    for (x, y, inside) in [(350, 400, true), (449, 439, true), (450, 420, false), (400, 440, false), (349, 420, false)] {
        assert_eq!(r.is_point_in_deal_button(x, y), inside);
        assert_eq!(r.is_point_in_draw_button(x, y), inside);
        assert_eq!(r.is_point_in_new_game_button(x, y), inside);
    }
}

#[test]
fn cards_are_spaced_along_a_row() {
    let r = Renderer;
    assert!(r.is_point_in_card(0, 100, 200));
    assert!(r.is_point_in_card(0, 179, 319));
    assert!(!r.is_point_in_card(0, 180, 250));
    assert!(!r.is_point_in_card(0, 150, 320));
    assert!(r.is_point_in_card(1, 220, 250));
    assert!(!r.is_point_in_card(1, 150, 250));
    assert!(r.is_point_in_card(4, 580, 250));
    assert!(r.is_point_in_card(4, 659, 250));
    assert!(!r.is_point_in_card(4, 660, 250));
}

#[test]
fn far_cards_are_clamped_like_sdl_rectangles() {
    let r = Renderer;
    // index 9_000_000 puts the left edge at 1_080_000_100, past SDL's
    // largest position (1_073_741_823), where the rectangle is moved to.
    assert!(r.is_point_in_card(9_000_000, 1_073_741_823, 250));
    assert!(!r.is_point_in_card(9_000_000, 1_080_000_100, 250));
}

#[test]
fn button_edges_are_inside() {
    let b = Button::new(10, 20, 30, 40, "OK");
    assert_eq!(b.x, 10);
    assert_eq!(b.y, 20);
    assert_eq!(b.width, 30);
    assert_eq!(b.height, 40);
    assert_eq!(b.text, "OK");
    assert!(b.contains_point(10, 20));
    assert!(b.contains_point(40, 60));
    assert!(!b.contains_point(41, 30));
    assert!(!b.contains_point(9, 30));
    assert!(!b.contains_point(20, 61));
    assert!(!b.contains_point(20, 19));
}
