use vstd::prelude::*;
use crate::chance::random_in;
use crate::geometry::{
    bottom_box, bottom_box_of, overlaps, player_box, player_box_of, top_box, top_box_of,
    within_limit, Position, COORD_LIMIT, SCALE, WIN_H, WIN_W,
};
use crate::pipes::{
    pipes_within_limits, rightmost, scroll_all, scroll_pipes, spaced_after_frame, valid_gap_center,
    valid_gap_centers,
    GAP_CENTER_HIGH, GAP_CENTER_LOW, PIPE_DIST, PIPE_NUM,
};
use crate::player::{advanced, Player};

verus! {

/// The player's x, the same for the whole session.
pub const PLAYER_START_X: i64 = 1000;

/// The player's height when a session starts.
pub const PLAYER_START_Y: i64 = 2000;

/// Whether the player's box meets the upper or the lower part of a pipe.
pub open spec fn hits_pipe(player: Position, pipe: Position) -> bool {
    overlaps(player_box_of(player), top_box_of(pipe))
        || overlaps(player_box_of(player), bottom_box_of(pipe))
}

/// Whether the player is above the top or below the bottom of the window.
pub open spec fn out_of_field(player: Position) -> bool {
    player.y < 0 || player.y > WIN_H
}

/// The game ends when the player hits any pipe or leaves the field.
pub open spec fn game_over(player: Position, pipes: Seq<Position>) -> bool {
    (exists|k: int| 0 <= k < pipes.len() && #[trigger] hits_pipe(player, pipes[k]))
        || out_of_field(player)
}

/// The whole state of a session: one player, a fixed row of pipes (gap
/// centres) and the index of the pipe recycled most recently.
#[derive(Debug)]
pub struct GameState {
    pub player: Player,
    pub pipes: Vec<Position>,
    pub last_pipe_ind: usize,
}

impl GameState {
    /// The row has its fixed length and `last_pipe_ind` names one of its pipes.
    pub open spec fn wf(&self) -> bool {
        &&& self.pipes.len() == PIPE_NUM
        &&& self.last_pipe_ind < PIPE_NUM
    }

    /// Well formed, with every coordinate and the velocity within `COORD_LIMIT`.
    pub open spec fn within_limits(&self) -> bool {
        &&& self.wf()
        &&& self.player.pos.within_limits()
        &&& within_limit(self.player.velocity as int)
        &&& pipes_within_limits(self.pipes@)
    }

    /// A new session whose pipe `k` has the gap centre `gaps[k]`: the pipes
    /// start at the right edge of the window, `PIPE_DIST` apart, and the last
    /// of them counts as the one recycled most recently.
    pub fn with_gaps(gaps: &Vec<i64>) -> (r: GameState)
        requires
            gaps.len() == PIPE_NUM,
            valid_gap_centers(gaps@),
        ensures
            r.within_limits(),
            r.player == (Player { pos: Position { x: PLAYER_START_X, y: PLAYER_START_Y }, velocity: 0 }),
            r.last_pipe_ind == PIPE_NUM - 1,
            rightmost(r.pipes@, r.last_pipe_ind as int),
            forall|k: int| 0 <= k < PIPE_NUM ==>
                #[trigger] r.pipes[k] == (Position { x: (WIN_W + k * PIPE_DIST) as i64, y: gaps[k] }),
    {
        let mut pipes: Vec<Position> = Vec::new();
        let mut x: i64 = WIN_W;
        let mut k: usize = 0;
        while k < PIPE_NUM
            invariant
                gaps.len() == PIPE_NUM,
                valid_gap_centers(gaps@),
                k <= PIPE_NUM,
                pipes.len() == k,
                x == WIN_W + k * PIPE_DIST,
                forall|j: int| 0 <= j < k ==>
                    #[trigger] pipes[j] == (Position { x: (WIN_W + j * PIPE_DIST) as i64, y: gaps[j] }),
            decreases PIPE_NUM - k,
        {
            pipes.push(Position { x, y: gaps[k] });
            x = x + PIPE_DIST;
            k = k + 1;
        }
        let r = GameState {
            player: Player { pos: Position { x: PLAYER_START_X, y: PLAYER_START_Y }, velocity: 0 },
            pipes,
            last_pipe_ind: PIPE_NUM - 1,
        };
        assert forall|j: int| 0 <= j < r.pipes.len() implies (#[trigger] r.pipes@[j]).within_limits() by {
            assert(r.pipes[j].y == gaps[j]);
            assert(valid_gap_center(gaps[j] as int));
        }
        assert forall|j: int| 0 <= j < r.pipes@.len() implies (#[trigger] r.pipes@[j]).x <= r.pipes@[PIPE_NUM - 1].x by {
            assert(r.pipes[j].x == WIN_W + j * PIPE_DIST);
        }
        r
    }

    /// A new session with gap centres drawn at random, in whole pixels,
    /// from `GAP_CENTER_LOW..GAP_CENTER_HIGH`.
    pub fn new() -> (r: GameState)
        ensures
            r.within_limits(),
            r.player == (Player { pos: Position { x: PLAYER_START_X, y: PLAYER_START_Y }, velocity: 0 }),
            r.last_pipe_ind == PIPE_NUM - 1,
            rightmost(r.pipes@, r.last_pipe_ind as int),
            forall|k: int| 0 <= k < PIPE_NUM ==> {
                &&& (#[trigger] r.pipes[k]).x == WIN_W + k * PIPE_DIST
                &&& valid_gap_center(r.pipes[k].y as int)
            },
    {
        let gaps = draw_gap_centers();
        Self::with_gaps(&gaps)
    }

    /// Whether the session ends in the current state: the player's box
    /// meets a pipe's upper or lower part, or the player is out of the field.
    pub fn is_over(&self) -> (r: bool)
        requires
            self.player.pos.within_wide_limits(),
            forall|k: int| 0 <= k < self.pipes.len() ==> (#[trigger] self.pipes[k]).within_wide_limits(),
        ensures
            r == game_over(self.player.pos, self.pipes@),
    {
        let pos = self.player.pos;
        let pb = player_box(&pos);
        let mut hit = false;
        let mut i: usize = 0;
        while i < self.pipes.len()
            invariant
                i <= self.pipes.len(),
                pb == player_box_of(pos),
                pos == self.player.pos,
                forall|k: int| 0 <= k < self.pipes.len() ==> (#[trigger] self.pipes[k]).within_wide_limits(),
                hit == exists|k: int| 0 <= k < i && #[trigger] hits_pipe(pos, self.pipes@[k]),
            decreases self.pipes.len() - i,
        {
            let pipe = self.pipes[i];
            let top = top_box(&pipe);
            let bottom = bottom_box(&pipe);
            let meets = pb.intersects(&top) || pb.intersects(&bottom);
            assert(meets == hits_pipe(pos, self.pipes@[i as int]));
            if meets {
                hit = true;
            }
            i = i + 1;
        }
        hit || pos.y < 0 || pos.y > WIN_H
    }

    /// One frame with the given gap centres for recycled pipes: the player
    /// moves (a jump when `jump`), every pipe scrolls and may be recycled,
    /// then the result says whether the session ends.
    pub fn step(&mut self, jump: bool, fresh: &Vec<i64>) -> (over: bool)
        requires
            old(self).within_limits(),
            fresh.len() == PIPE_NUM,
            valid_gap_centers(fresh@),
        ensures
            final(self).wf(),
            final(self).player == advanced(old(self).player, jump),
            (final(self).pipes@, final(self).last_pipe_ind as int)
                == scroll_all(old(self).pipes@, old(self).last_pipe_ind as int, fresh@),
            spaced_after_frame(old(self).pipes@, old(self).last_pipe_ind as int, fresh@, final(self).pipes@),
            rightmost(old(self).pipes@, old(self).last_pipe_ind as int)
                ==> rightmost(final(self).pipes@, final(self).last_pipe_ind as int),
            over == game_over(final(self).player.pos, final(self).pipes@),
    {
        self.player.advance(jump);
        scroll_pipes(&mut self.pipes, &mut self.last_pipe_ind, fresh);
        self.is_over()
    }

    /// One frame, with a gap centre drawn at random, in whole pixels, for
    /// each pipe that is recycled; as `step` for those centres.
    pub fn update(&mut self, jump: bool) -> (over: bool)
        requires
            old(self).within_limits(),
        ensures
            final(self).wf(),
            final(self).player == advanced(old(self).player, jump),
            exists|fresh: Seq<i64>| {
                &&& fresh.len() == PIPE_NUM
                &&& valid_gap_centers(fresh)
                &&& (final(self).pipes@, final(self).last_pipe_ind as int)
                    == #[trigger] scroll_all(old(self).pipes@, old(self).last_pipe_ind as int, fresh)
                &&& spaced_after_frame(old(self).pipes@, old(self).last_pipe_ind as int, fresh, final(self).pipes@)
            },
            rightmost(old(self).pipes@, old(self).last_pipe_ind as int)
                ==> rightmost(final(self).pipes@, final(self).last_pipe_ind as int),
            over == game_over(final(self).player.pos, final(self).pipes@),
    {
        let fresh = draw_gap_centers();
        let over = self.step(jump, &fresh);
        assert(valid_gap_centers(fresh@));
        over
    }

    /// Whether `within_limits` holds, for callers that cannot know it.
    pub fn is_within_limits(&self) -> (r: bool)
        ensures
            r == self.within_limits(),
    {
        if self.pipes.len() != PIPE_NUM || self.last_pipe_ind >= PIPE_NUM {
            return false;
        }
        if !in_limit(self.player.pos.x) || !in_limit(self.player.pos.y) || !in_limit(self.player.velocity) {
            return false;
        }
        let mut i: usize = 0;
        while i < self.pipes.len()
            invariant
                i <= self.pipes.len(),
                forall|k: int| 0 <= k < i ==> (#[trigger] self.pipes@[k]).within_limits(),
            decreases self.pipes.len() - i,
        {
            if !in_limit(self.pipes[i].x) || !in_limit(self.pipes[i].y) {
                return false;
            }
            i = i + 1;
        }
        true
    }
}

fn in_limit(v: i64) -> (r: bool)
    ensures
        r == within_limit(v as int),
{
    -COORD_LIMIT <= v && v <= COORD_LIMIT
}

/// One gap centre per pipe, each drawn at random in whole pixels.
fn draw_gap_centers() -> (r: Vec<i64>)
    ensures
        r.len() == PIPE_NUM,
        valid_gap_centers(r@),
{
    let mut r: Vec<i64> = Vec::new();
    let mut k: usize = 0;
    while k < PIPE_NUM
        invariant
            k <= PIPE_NUM,
            r.len() == k,
            valid_gap_centers(r@),
        decreases PIPE_NUM - k,
    {
        let g = random_in(GAP_CENTER_LOW / SCALE, GAP_CENTER_HIGH / SCALE);
        r.push(g * SCALE);
        k = k + 1;
    }
    r
}

} // verus!
