use vstd::prelude::*;

verus! {

/// Tenths of a pixel per pixel.
pub const SCALE: i64 = 10;

/// Width of the window.
pub const WIN_W: i64 = 12800;

/// Height of the window.
pub const WIN_H: i64 = 7200;

/// Side of the player's square collision box.
pub const PLAYER_SIZE: i64 = 150;

/// Horizontal extent of a pipe.
pub const PIPE_WIDTH: i64 = 500;

/// Vertical opening between a pipe's top and bottom part.
pub const PIPE_GAP: i64 = 1000;

/// Magnitude of the coordinates a game state may hold; well inside `i64`,
/// so that every step of the game computes without overflow.
pub const COORD_LIMIT: i64 = 1_000_000_000_000_000;

/// A point of the playing field, `y` growing downwards.
#[derive(Clone, Copy, Debug, PartialEq, Eq, Structural)]
pub struct Position {
    pub x: i64,
    pub y: i64,
}

/// An axis-aligned rectangle: top-left corner and size.
#[derive(Clone, Copy, Debug, PartialEq, Eq, Structural)]
pub struct Rect {
    pub x: i64,
    pub y: i64,
    pub w: i64,
    pub h: i64,
}

pub open spec fn within_limit(v: int) -> bool {
    -COORD_LIMIT <= v <= COORD_LIMIT
}

/// Coordinates up to four times the state limit, for which the boxes below fit.
pub open spec fn within_wide_limit(v: int) -> bool {
    -4 * COORD_LIMIT <= v <= 4 * COORD_LIMIT
}

impl Position {
    pub open spec fn within_limits(self) -> bool {
        within_limit(self.x as int) && within_limit(self.y as int)
    }

    pub open spec fn within_wide_limits(self) -> bool {
        within_wide_limit(self.x as int) && within_wide_limit(self.y as int)
    }
}

/// Open rectangles overlap iff both their x-ranges and their y-ranges meet.
pub open spec fn overlaps(a: Rect, b: Rect) -> bool {
    &&& a.x < b.x + b.w
    &&& a.x + a.w > b.x
    &&& a.y < b.y + b.h
    &&& a.y + a.h > b.y
}

/// The player's box: its position is the top-left corner.
pub open spec fn player_box_of(p: Position) -> Rect {
    Rect { x: p.x, y: p.y, w: PLAYER_SIZE, h: PLAYER_SIZE }
}

/// A pipe's upper part: from the top of the window down to the gap.
pub open spec fn top_box_of(pipe: Position) -> Rect {
    Rect { x: pipe.x, y: 0, w: PIPE_WIDTH, h: (pipe.y - PIPE_GAP / 2) as i64 }
}

/// A pipe's lower part: from the gap down to the bottom of the window.
pub open spec fn bottom_box_of(pipe: Position) -> Rect {
    Rect {
        x: pipe.x,
        y: (pipe.y + PIPE_GAP / 2) as i64,
        w: PIPE_WIDTH,
        h: (WIN_H - (pipe.y + PIPE_GAP / 2)) as i64,
    }
}

impl Rect {
    /// Whether the two rectangles overlap (touching edges do not count).
    pub fn intersects(&self, other: &Rect) -> (r: bool)
        ensures
            r == overlaps(*self, *other),
    {
        let (ax, ay, aw, ah) = (self.x as i128, self.y as i128, self.w as i128, self.h as i128);
        let (bx, by, bw, bh) = (other.x as i128, other.y as i128, other.w as i128, other.h as i128);
        ax < bx + bw && ax + aw > bx && ay < by + bh && ay + ah > by
    }
}

/// The player's collision box at `p`.
pub fn player_box(p: &Position) -> (r: Rect)
    ensures
        r == player_box_of(*p),
{
    Rect { x: p.x, y: p.y, w: PLAYER_SIZE, h: PLAYER_SIZE }
}

/// The upper part of the pipe whose gap is centred at `pipe`.
pub fn top_box(pipe: &Position) -> (r: Rect)
    requires
        pipe.within_wide_limits(),
    ensures
        r == top_box_of(*pipe),
        r.h == pipe.y - PIPE_GAP / 2,
{
    Rect { x: pipe.x, y: 0, w: PIPE_WIDTH, h: pipe.y - PIPE_GAP / 2 }
}

/// The lower part of the pipe whose gap is centred at `pipe`.
pub fn bottom_box(pipe: &Position) -> (r: Rect)
    requires
        pipe.within_wide_limits(),
    ensures
        r == bottom_box_of(*pipe),
        r.y == pipe.y + PIPE_GAP / 2,
        r.h == WIN_H - (pipe.y + PIPE_GAP / 2),
{
    let top = pipe.y + PIPE_GAP / 2;
    Rect { x: pipe.x, y: top, w: PIPE_WIDTH, h: WIN_H - top }
}

} // verus!
