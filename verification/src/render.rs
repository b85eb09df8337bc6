//! Where the buttons and the cards stand on the screen, and which of them a
//! point falls in.

use vstd::prelude::*;

verus! {

/// The largest coordinate or size that an SDL rectangle keeps (`i32::MAX / 2`).
pub open spec fn rect_max() -> int {
    1073741823
}

/// The smallest coordinate that an SDL rectangle keeps (`i32::MIN / 2`).
pub open spec fn rect_min() -> int {
    -1073741824
}

/// A rectangle's position as SDL stores it: clamped to `rect_min()..=rect_max()`.
pub open spec fn clamp_position(v: int) -> int {
    if v > rect_max() {
        rect_max()
    } else if v < rect_min() {
        rect_min()
    } else {
        v
    }
}

/// A rectangle's size as SDL stores it: 0 becomes 1, and sizes are capped at
/// `rect_max()`.
pub open spec fn clamp_size(v: int) -> int {
    if v == 0 {
        1
    } else if v > rect_max() {
        rect_max()
    } else {
        v
    }
}

/// Whether the point `(x, y)` lies in the SDL rectangle made from left edge
/// `left`, top edge `top`, width `w` and height `h`: the left and top edges
/// belong to it, the right and bottom ones do not.
pub open spec fn rect_contains(left: int, top: int, w: int, h: int, x: int, y: int) -> bool {
    let l = clamp_position(left);
    let t = clamp_position(top);
    l <= x < l + clamp_size(w) && t <= y < t + clamp_size(h)
}

/// `sdl2::rect::Rect::new(left, top, w, h).contains_point((x, y))`. The
/// whole behaviour of those two functions (clamping the position and size,
/// then comparing against the half-open edges) is `rect_contains`, and this
/// function is proved against it.
fn rect_contains_point(left: i32, top: i32, w: u32, h: u32, x: i32, y: i32) -> (inside: bool)
    ensures
        inside == rect_contains(left as int, top as int, w as int, h as int, x as int, y as int),
{
    let max: i32 = 1073741823;
    let min: i32 = -1073741824;
    let l = if left > max {
        max
    } else if left < min {
        min
    } else {
        left
    };
    let t = if top > max {
        max
    } else if top < min {
        min
    } else {
        top
    };
    let cw: i32 = if w == 0 {
        1
    } else if w > 1073741823u32 {
        max
    } else {
        w as i32
    };
    let ch: i32 = if h == 0 {
        1
    } else if h > 1073741823u32 {
        max
    } else {
        h as i32
    };
    x >= l && x < l + cw && y >= t && y < t + ch
}

/// Left edge of the `index`-th card of the hand.
pub open spec fn card_left(index: int) -> int {
    100 + index * 120
}

/// Whether `(x, y)` is on the `index`-th card of the hand.
pub open spec fn in_card(index: int, x: int, y: int) -> bool {
    rect_contains(card_left(index), 200, 80, 120, x, y)
}

/// Whether `(x, y)` is on the button that raises the bet.
pub open spec fn in_bet_up_button(x: int, y: int) -> bool {
    rect_contains(200, 400, 50, 30, x, y)
}

/// Whether `(x, y)` is on the button that lowers the bet.
pub open spec fn in_bet_down_button(x: int, y: int) -> bool {
    rect_contains(50, 400, 50, 30, x, y)
}

/// Whether `(x, y)` is on the wide button below the cards, which reads DEAL,
/// DRAW or NEW GAME depending on the phase.
pub open spec fn in_main_button(x: int, y: int) -> bool {
    rect_contains(350, 400, 100, 40, x, y)
}

/// The screen layout of the game: the places of the buttons and the cards.
pub struct Renderer;

impl Renderer {
    pub fn is_point_in_bet_up_button(&self, x: i32, y: i32) -> (inside: bool)
        ensures
            inside == in_bet_up_button(x as int, y as int),
    {
        rect_contains_point(200, 400, 50, 30, x, y)
    }

    pub fn is_point_in_bet_down_button(&self, x: i32, y: i32) -> (inside: bool)
        ensures
            inside == in_bet_down_button(x as int, y as int),
    {
        rect_contains_point(50, 400, 50, 30, x, y)
    }

    pub fn is_point_in_deal_button(&self, x: i32, y: i32) -> (inside: bool)
        ensures
            inside == in_main_button(x as int, y as int),
    {
        rect_contains_point(350, 400, 100, 40, x, y)
    }

    pub fn is_point_in_draw_button(&self, x: i32, y: i32) -> (inside: bool)
        ensures
            inside == in_main_button(x as int, y as int),
    {
        rect_contains_point(350, 400, 100, 40, x, y)
    }

    pub fn is_point_in_new_game_button(&self, x: i32, y: i32) -> (inside: bool)
        ensures
            inside == in_main_button(x as int, y as int),
    {
        rect_contains_point(350, 400, 100, 40, x, y)
    }

    /// Whether `(x, y)` is on the `index`-th card. The index is taken as an
    /// `i32` (wrapping, as `as` does), and the card's left edge,
    /// `100 + index * 120`, must be an `i32`.
    pub fn is_point_in_card(&self, index: usize, x: i32, y: i32) -> (inside: bool)
        requires
            i32::MIN <= card_left((index as i32) as int) <= i32::MAX,
        ensures
            inside == in_card((index as i32) as int, x as int, y as int),
    {
        let left = 100 + index as i32 * 120;
        rect_contains_point(left, 200, 80, 120, x, y)
    }
}

} // verus!
