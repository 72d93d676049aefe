//! Axis-aligned rectangles on the virtual screen and the hit test on them.
//!
//! A quad is centred on its position, so its edges may fall on half units.
//! The edge functions therefore report twice the coordinate of the edge,
//! which is always a whole number.

use vstd::prelude::*;

verus! {

/// A pair of whole numbers used for sizes measured in device pixels.
#[derive(Debug, Clone, Copy, PartialEq, Eq, Structural)]
pub struct Vec2i {
    pub x: i32,
    pub y: i32,
}

/// A point or an extent on the virtual screen.
#[derive(Debug, Clone, Copy, PartialEq, Eq, Structural)]
pub struct Vec2 {
    pub x: i64,
    pub y: i64,
}

/// A rectangle given by its centre and its full width and height.
#[derive(Debug, Clone, Copy, PartialEq, Eq, Structural)]
pub struct Quad {
    pub pos: Vec2,
    pub size: Vec2,
}

/// Width of the window in device pixels. The virtual screen is twice as wide.
pub const SCREEN_WIDTH: i32 = 1200;

/// Height of the window in device pixels. The virtual screen is twice as high.
pub const SCREEN_HEIGHT: i32 = 900;

/// Width of a card on the virtual screen.
pub const CARD_WIDTH: i64 = 160;

/// Height of a card on the virtual screen.
pub const CARD_HEIGHT: i64 = 240;

/// Gap between two neighbouring columns or piles.
pub const CARD_GAP: i64 = 20;

/// How far each card of a fan lies below the one before it.
pub const FAN_OFFSET: i64 = 70;

/// The y coordinate of the upper row: stock, talon and foundations.
pub const TOP_ROW_Y: i64 = 350;

/// The x coordinate of the stock and of the first column.
pub const FIRST_COLUMN_X: i64 = -700;

/// The x coordinate of the talon.
pub const TALON_X: i64 = -520;

/// The x coordinate of the first foundation.
pub const FIRST_FOUNDATION_X: i64 = -160;

/// Size of the window in device pixels.
pub open spec fn spec_screen_size() -> Vec2i {
    Vec2i { x: SCREEN_WIDTH, y: SCREEN_HEIGHT }
}

/// Size of a card on the virtual screen.
pub open spec fn spec_card_size() -> Vec2 {
    Vec2 { x: CARD_WIDTH, y: CARD_HEIGHT }
}

/// A card-sized quad centred on `(x, y)`.
pub open spec fn spec_card_quad(x: int, y: int) -> Quad {
    Quad { pos: Vec2 { x: x as i64, y: y as i64 }, size: spec_card_size() }
}

/// Where the stock lies.
pub open spec fn spec_deck_quad() -> Quad {
    spec_card_quad(FIRST_COLUMN_X as int, TOP_ROW_Y as int)
}

#[verifier::when_used_as_spec(spec_screen_size)]
pub fn screen_size() -> (size: Vec2i)
    ensures
        size == spec_screen_size(),
{
    Vec2i { x: SCREEN_WIDTH, y: SCREEN_HEIGHT }
}

#[verifier::when_used_as_spec(spec_card_size)]
pub fn card_size() -> (size: Vec2)
    ensures
        size == spec_card_size(),
{
    Vec2 { x: CARD_WIDTH, y: CARD_HEIGHT }
}

#[verifier::when_used_as_spec(spec_deck_quad)]
pub fn deck_quad() -> (quad: Quad)
    ensures
        quad == spec_deck_quad(),
{
    Quad { pos: Vec2 { x: FIRST_COLUMN_X, y: TOP_ROW_Y }, size: card_size() }
}

impl Vec2 {
    pub fn new(x: i64, y: i64) -> (v: Self)
        ensures
            v == (Vec2 { x, y }),
    {
        Vec2 { x, y }
    }

    pub fn zero() -> (v: Self)
        ensures
            v == (Vec2 { x: 0, y: 0 }),
    {
        Vec2::new(0, 0)
    }
}

impl Quad {
    /// Twice the y coordinate of the upper edge.
    pub open spec fn spec_top(self) -> int {
        2 * self.pos.y + self.size.y
    }

    /// Twice the y coordinate of the lower edge.
    pub open spec fn spec_bottom(self) -> int {
        2 * self.pos.y - self.size.y
    }

    /// Twice the x coordinate of the right edge.
    pub open spec fn spec_right(self) -> int {
        2 * self.pos.x + self.size.x
    }

    /// Twice the x coordinate of the left edge.
    pub open spec fn spec_left(self) -> int {
        2 * self.pos.x - self.size.x
    }

    /// Whether `pos` lies in the rectangle, its border included.
    pub open spec fn spec_contains(self, pos: Vec2) -> bool {
        &&& self.spec_bottom() <= 2 * pos.y <= self.spec_top()
        &&& self.spec_left() <= 2 * pos.x <= self.spec_right()
    }

    pub fn new(pos: Vec2, size: Vec2) -> (q: Self)
        ensures
            q == (Quad { pos, size }),
    {
        Self { pos, size }
    }

    /// Hit test: the border counts as inside. A quad of negative width or
    /// height contains nothing.
    pub fn contains(&self, pos: Vec2) -> (inside: bool)
        ensures
            inside == self.spec_contains(pos),
    {
        let px: i128 = 2 * (pos.x as i128);
        let py: i128 = 2 * (pos.y as i128);
        py >= self.bottom() && py <= self.top() && px >= self.left() && px <= self.right()
    }

    pub fn top(&self) -> (edge: i128)
        ensures
            edge == self.spec_top(),
    {
        2 * (self.pos.y as i128) + (self.size.y as i128)
    }

    pub fn bottom(&self) -> (edge: i128)
        ensures
            edge == self.spec_bottom(),
    {
        2 * (self.pos.y as i128) - (self.size.y as i128)
    }

    pub fn right(&self) -> (edge: i128)
        ensures
            edge == self.spec_right(),
    {
        2 * (self.pos.x as i128) + (self.size.x as i128)
    }

    pub fn left(&self) -> (edge: i128)
        ensures
            edge == self.spec_left(),
    {
        2 * (self.pos.x as i128) - (self.size.x as i128)
    }
}

} // verus!
