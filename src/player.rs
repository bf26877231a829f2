use vstd::prelude::*;
use crate::geometry::Position;

verus! {

/// Added to the player's velocity every frame.
pub const GRAVITY: i64 = 8;

/// The velocity a jump sets, whatever the velocity was.
pub const JUMP_VELOCITY: i64 = -100;

/// The one player: a position and a vertical velocity (positive = falling).
#[derive(Clone, Copy, Debug, PartialEq, Eq, Structural)]
pub struct Player {
    pub pos: Position,
    pub velocity: i64,
}

/// The velocity after one frame: gravity, overridden by a jump.
pub open spec fn next_velocity(velocity: int, jump: bool) -> int {
    if jump {
        JUMP_VELOCITY as int
    } else {
        velocity + GRAVITY
    }
}

/// The player after one frame: the new velocity moves it vertically.
pub open spec fn advanced(p: Player, jump: bool) -> Player {
    let v = next_velocity(p.velocity as int, jump);
    Player { pos: Position { x: p.pos.x, y: (p.pos.y + v) as i64 }, velocity: v as i64 }
}

impl Player {
    /// The new velocity and height fit in `i64`.
    pub open spec fn can_advance(self, jump: bool) -> bool {
        let v = next_velocity(self.velocity as int, jump);
        &&& i64::MIN <= v <= i64::MAX
        &&& i64::MIN <= self.pos.y + v <= i64::MAX
    }

    /// One frame of motion: gravity, or a jump, then the vertical move.
    pub fn advance(&mut self, jump: bool)
        requires
            old(self).can_advance(jump),
        ensures
            *final(self) == advanced(*old(self), jump),
            !jump ==> final(self).velocity == old(self).velocity + GRAVITY,
            jump ==> final(self).velocity == JUMP_VELOCITY,
            final(self).pos.y == old(self).pos.y + final(self).velocity,
            final(self).pos.x == old(self).pos.x,
    {
        if jump {
            self.velocity = JUMP_VELOCITY;
        } else {
            self.velocity = self.velocity + GRAVITY;
        }
        self.pos.y = self.pos.y + self.velocity;
    }
}

} // verus!
