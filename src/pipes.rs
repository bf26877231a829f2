use vstd::prelude::*;
use crate::geometry::{Position, PIPE_WIDTH, COORD_LIMIT, within_limit};

verus! {

/// Number of pipes; they are never added or removed, only moved.
pub const PIPE_NUM: usize = 5;

/// Horizontal distance between a recycled pipe and the one recycled before it.
pub const PIPE_DIST: i64 = 5500;

/// Leftward move of every pipe per frame.
pub const SCROLL_SPEED: i64 = 50;

/// Lowest gap centre a pipe is given (inclusive).
pub const GAP_CENTER_LOW: i64 = 1000;

/// Highest gap centre a pipe is given (exclusive).
pub const GAP_CENTER_HIGH: i64 = 6200;

pub open spec fn valid_gap_center(y: int) -> bool {
    GAP_CENTER_LOW <= y < GAP_CENTER_HIGH
}

/// Every pipe moved left by `SCROLL_SPEED`, gap centres kept.
pub open spec fn scrolled(pipes: Seq<Position>) -> Seq<Position> {
    pipes.map_values(|p: Position| Position { x: (p.x - SCROLL_SPEED) as i64, y: p.y })
}

/// Whether pipe `i` is recycled in a frame that starts from `pipes`: its
/// scrolled x is past the left edge.
pub open spec fn recycled_in_frame(pipes: Seq<Position>, i: int) -> bool {
    pipes[i].x - SCROLL_SPEED < -PIPE_WIDTH
}

/// The recycle pass visiting pipe `i` of an already scrolled row, while pipe
/// `last` is the one most recently recycled: if pipe `i` is past the left
/// edge, it moves `PIPE_DIST` beyond pipe `last`, takes the gap centre
/// `fresh_y` and becomes the most recently recycled.
pub open spec fn recycle_one(pipes: Seq<Position>, last: int, i: int, fresh_y: i64) -> (Seq<Position>, int) {
    if pipes[i].x < -PIPE_WIDTH {
        (pipes.update(i, Position { x: (pipes[last].x + PIPE_DIST) as i64, y: fresh_y }), i)
    } else {
        (pipes, last)
    }
}

/// The recycle pass over the first `n` pipes, in ascending index order;
/// `fresh[i]` is the gap centre pipe `i` takes if it is recycled.
pub open spec fn recycle_first(pipes: Seq<Position>, last: int, fresh: Seq<i64>, n: nat) -> (Seq<Position>, int)
    decreases n,
{
    if n == 0 {
        (pipes, last)
    } else {
        let (p, l) = recycle_first(pipes, last, fresh, (n - 1) as nat);
        recycle_one(p, l, n - 1, fresh[n - 1])
    }
}

/// One frame of the pipes: all of them scroll, then the recycle pass runs
/// over the whole row.
pub open spec fn scroll_all(pipes: Seq<Position>, last: int, fresh: Seq<i64>) -> (Seq<Position>, int) {
    recycle_first(scrolled(pipes), last, fresh, pipes.len())
}

/// The pipe that pipe `i` is placed against if it is recycled in the frame.
pub open spec fn reference_of(pipes: Seq<Position>, last: int, fresh: Seq<i64>, i: int) -> int {
    recycle_first(scrolled(pipes), last, fresh, i as nat).1
}

/// After the frame `result`, each pipe recycled in it stands exactly
/// `PIPE_DIST` beyond its reference, wherever that reference is another
/// pipe that is not itself recycled after it in the pass.
pub open spec fn spaced_after_frame(pipes: Seq<Position>, last: int, fresh: Seq<i64>, result: Seq<Position>) -> bool {
    forall|i: int| 0 <= i < pipes.len() && recycled_in_frame(pipes, i) ==> {
        let l = #[trigger] reference_of(pipes, last, fresh, i);
        (l != i && (l < i || !recycled_in_frame(pipes, l))) ==> result[i].x == result[l].x + PIPE_DIST
    }
}

/// Pipe `l` is at least as far right as every pipe.
pub open spec fn rightmost(pipes: Seq<Position>, l: int) -> bool {
    forall|k: int| 0 <= k < pipes.len() ==> (#[trigger] pipes[k]).x <= pipes[l].x
}

pub open spec fn pipes_within_limits(pipes: Seq<Position>) -> bool {
    forall|k: int| 0 <= k < pipes.len() ==> (#[trigger] pipes[k]).within_limits()
}

pub open spec fn valid_gap_centers(fresh: Seq<i64>) -> bool {
    forall|k: int| 0 <= k < fresh.len() ==> valid_gap_center(#[trigger] fresh[k] as int)
}

/// Bounds of a row after its scroll and `n` steps of the recycle pass.
pub open spec fn row_bounded(pipes: Seq<Position>, n: nat) -> bool {
    forall|k: int| 0 <= k < pipes.len() ==>
        -COORD_LIMIT - SCROLL_SPEED <= (#[trigger] pipes[k]).x <= COORD_LIMIT + PIPE_DIST * n
        && within_limit(pipes[k].y as int)
}

proof fn lemma_scrolled_bounded(pipes: Seq<Position>)
    requires
        pipes_within_limits(pipes),
    ensures
        scrolled(pipes).len() == pipes.len(),
        row_bounded(scrolled(pipes), 0),
        forall|k: int| 0 <= k < pipes.len() ==>
            (#[trigger] scrolled(pipes)[k]).x == pipes[k].x - SCROLL_SPEED && scrolled(pipes)[k].y == pipes[k].y,
{
    assert forall|k: int| 0 <= k < pipes.len() implies
        (#[trigger] scrolled(pipes)[k]).x == pipes[k].x - SCROLL_SPEED && scrolled(pipes)[k].y == pipes[k].y by {
        assert(pipes[k].within_limits());
    }
}

/// After `n` steps of the pass: the pipes not yet visited are as they were,
/// and the bounds grow by `PIPE_DIST` a step.
proof fn lemma_recycle_bounds(pipes: Seq<Position>, last: int, fresh: Seq<i64>, n: nat)
    requires
        n <= pipes.len() <= PIPE_NUM,
        0 <= last < pipes.len(),
        fresh.len() == pipes.len(),
        row_bounded(pipes, 0),
        valid_gap_centers(fresh),
    ensures
        ({
            let (p, l) = recycle_first(pipes, last, fresh, n);
            &&& p.len() == pipes.len()
            &&& 0 <= l < pipes.len()
            &&& forall|k: int| n <= k < pipes.len() ==> #[trigger] p[k] == pipes[k]
            &&& row_bounded(p, n)
        }),
    decreases n,
{
    if n > 0 {
        lemma_recycle_bounds(pipes, last, fresh, (n - 1) as nat);
        let (p, l) = recycle_first(pipes, last, fresh, (n - 1) as nat);
        let i = n - 1;
        assert(valid_gap_center(fresh[i] as int));
        assert(-COORD_LIMIT - SCROLL_SPEED <= p[l].x <= COORD_LIMIT + PIPE_DIST * (n - 1));
        let (q, m) = recycle_first(pipes, last, fresh, n);
        assert((q, m) == recycle_one(p, l, i, fresh[i]));
        assert forall|k: int| 0 <= k < pipes.len() implies
            -COORD_LIMIT - SCROLL_SPEED <= (#[trigger] q[k]).x <= COORD_LIMIT + PIPE_DIST * n
            && within_limit(q[k].y as int) by {
            assert(-COORD_LIMIT - SCROLL_SPEED <= p[k].x <= COORD_LIMIT + PIPE_DIST * (n - 1));
            if k != i {
                assert(q[k] == p[k]);
            }
        }
    }
}

/// Steps of the pass after pipe `k` was visited leave pipe `k` alone.
proof fn lemma_recycle_keeps_visited(pipes: Seq<Position>, last: int, fresh: Seq<i64>, k: int, n: nat)
    requires
        0 <= k < n <= pipes.len() <= PIPE_NUM,
        0 <= last < pipes.len(),
        fresh.len() == pipes.len(),
        row_bounded(pipes, 0),
        valid_gap_centers(fresh),
    ensures
        recycle_first(pipes, last, fresh, n).0[k] == recycle_first(pipes, last, fresh, (k + 1) as nat).0[k],
    decreases n,
{
    if n > k + 1 {
        lemma_recycle_keeps_visited(pipes, last, fresh, k, (n - 1) as nat);
        lemma_recycle_bounds(pipes, last, fresh, (n - 1) as nat);
    }
}

/// The pass keeps the most recently recycled pipe the rightmost one.
proof fn lemma_recycle_keeps_rightmost(pipes: Seq<Position>, last: int, fresh: Seq<i64>, n: nat)
    requires
        n <= pipes.len() <= PIPE_NUM,
        0 <= last < pipes.len(),
        fresh.len() == pipes.len(),
        row_bounded(pipes, 0),
        valid_gap_centers(fresh),
        rightmost(pipes, last),
    ensures
        rightmost(recycle_first(pipes, last, fresh, n).0, recycle_first(pipes, last, fresh, n).1),
    decreases n,
{
    if n > 0 {
        lemma_recycle_keeps_rightmost(pipes, last, fresh, (n - 1) as nat);
        lemma_recycle_bounds(pipes, last, fresh, (n - 1) as nat);
        let (p, l) = recycle_first(pipes, last, fresh, (n - 1) as nat);
        let (q, m) = recycle_first(pipes, last, fresh, n);
        assert((q, m) == recycle_one(p, l, n - 1, fresh[n - 1]));
        assert forall|k: int| 0 <= k < q.len() implies (#[trigger] q[k]).x <= q[m].x by {
            assert(p[k].x <= p[l].x);
        }
    }
}

/// Every pipe, in one frame: its x first drops by `SCROLL_SPEED`; it is
/// recycled exactly when that x is below `-PIPE_WIDTH`. A pipe that stays
/// keeps that x and its gap centre. A recycled one lands `PIPE_DIST` beyond
/// its reference (the pipe recycled most recently before it, as it stands
/// after the scroll and the recycling before this pipe), takes its fresh
/// gap centre, and becomes the reference for the pipes recycled after it.
pub proof fn lemma_frame_moves_each_pipe(pipes: Seq<Position>, last: int, fresh: Seq<i64>, k: int)
    requires
        pipes.len() == PIPE_NUM,
        0 <= last < PIPE_NUM,
        fresh.len() == PIPE_NUM,
        pipes_within_limits(pipes),
        valid_gap_centers(fresh),
        0 <= k < PIPE_NUM,
    ensures
        ({
            let (before, reference) = recycle_first(scrolled(pipes), last, fresh, k as nat);
            let after_ref = recycle_first(scrolled(pipes), last, fresh, (k + 1) as nat).1;
            let moved = scroll_all(pipes, last, fresh).0[k];
            let sx = pipes[k].x - SCROLL_SPEED;
            &&& before[k] == Position { x: sx as i64, y: pipes[k].y }
            &&& sx >= -PIPE_WIDTH ==> moved == Position { x: sx as i64, y: pipes[k].y } && after_ref == reference
            &&& sx < -PIPE_WIDTH ==> {
                &&& moved.y == fresh[k]
                &&& moved.x == before[reference].x + PIPE_DIST
                &&& after_ref == k
            }
        }),
{
    lemma_scrolled_bounded(pipes);
    lemma_recycle_bounds(scrolled(pipes), last, fresh, k as nat);
    lemma_recycle_keeps_visited(scrolled(pipes), last, fresh, k, PIPE_NUM as nat);
}

/// Each pipe recycled in a frame ends exactly `PIPE_DIST` beyond its
/// reference, when that reference is another pipe not recycled after it.
pub proof fn lemma_frame_keeps_spacing(pipes: Seq<Position>, last: int, fresh: Seq<i64>)
    requires
        pipes.len() == PIPE_NUM,
        0 <= last < PIPE_NUM,
        fresh.len() == PIPE_NUM,
        pipes_within_limits(pipes),
        valid_gap_centers(fresh),
    ensures
        spaced_after_frame(pipes, last, fresh, scroll_all(pipes, last, fresh).0),
{
    let s = scrolled(pipes);
    let result = scroll_all(pipes, last, fresh).0;
    lemma_scrolled_bounded(pipes);
    assert forall|i: int| 0 <= i < pipes.len() && recycled_in_frame(pipes, i) implies {
        let l = #[trigger] reference_of(pipes, last, fresh, i);
        (l != i && (l < i || !recycled_in_frame(pipes, l))) ==> result[i].x == result[l].x + PIPE_DIST
    } by {
        let l = reference_of(pipes, last, fresh, i);
        lemma_frame_moves_each_pipe(pipes, last, fresh, i);
        lemma_recycle_bounds(s, last, fresh, i as nat);
        let before = recycle_first(s, last, fresh, i as nat).0;
        if l != i && (l < i || !recycled_in_frame(pipes, l)) {
            if l < i {
                lemma_recycle_keeps_visited(s, last, fresh, l, i as nat);
                lemma_recycle_keeps_visited(s, last, fresh, l, PIPE_NUM as nat);
            } else {
                lemma_frame_moves_each_pipe(pipes, last, fresh, l);
                lemma_recycle_bounds(s, last, fresh, l as nat);
                assert(before[l] == s[l]);
            }
        }
    }
}

/// One frame keeps the most recently recycled pipe the rightmost one.
pub proof fn lemma_frame_keeps_rightmost(pipes: Seq<Position>, last: int, fresh: Seq<i64>)
    requires
        pipes.len() == PIPE_NUM,
        0 <= last < PIPE_NUM,
        fresh.len() == PIPE_NUM,
        pipes_within_limits(pipes),
        valid_gap_centers(fresh),
        rightmost(pipes, last),
    ensures
        0 <= scroll_all(pipes, last, fresh).1 < PIPE_NUM,
        rightmost(scroll_all(pipes, last, fresh).0, scroll_all(pipes, last, fresh).1),
{
    let s = scrolled(pipes);
    lemma_scrolled_bounded(pipes);
    assert forall|k: int| 0 <= k < s.len() implies (#[trigger] s[k]).x <= s[last].x by {
        assert(pipes[k].x <= pipes[last].x);
    }
    lemma_recycle_bounds(s, last, fresh, PIPE_NUM as nat);
    lemma_recycle_keeps_rightmost(s, last, fresh, PIPE_NUM as nat);
}

/// Moves every pipe left by `SCROLL_SPEED`.
pub fn scroll_row(pipes: &mut Vec<Position>)
    requires
        pipes_within_limits(old(pipes)@),
    ensures
        final(pipes)@ == scrolled(old(pipes)@),
{
    let ghost start = pipes@;
    proof {
        lemma_scrolled_bounded(start);
    }
    let mut i: usize = 0;
    while i < pipes.len()
        invariant
            pipes.len() == start.len(),
            i <= pipes.len(),
            pipes_within_limits(start),
            forall|k: int| 0 <= k < i ==> #[trigger] pipes@[k] == scrolled(start)[k],
            forall|k: int| i <= k < pipes.len() ==> #[trigger] pipes@[k] == start[k],
        decreases pipes.len() - i,
    {
        assert(start[i as int].within_limits());
        let p = pipes[i];
        pipes.set(i, Position { x: p.x - SCROLL_SPEED, y: p.y });
        i = i + 1;
    }
    assert(pipes@ =~= scrolled(start));
}

/// The recycle pass visiting pipe `i` of an already scrolled row. It is
/// recycled exactly when its x is below `-PIPE_WIDTH`: it is placed
/// `PIPE_DIST` beyond pipe `*last`, takes the gap centre `fresh_y`, and
/// `*last` becomes `i`. Otherwise nothing changes.
pub fn recycle_pipe(pipes: &mut Vec<Position>, last: &mut usize, i: usize, fresh_y: i64)
    requires
        i < old(pipes).len(),
        *old(last) < old(pipes).len(),
        old(pipes)[i as int].x < -PIPE_WIDTH ==> old(pipes)[*old(last) as int].x + PIPE_DIST <= i64::MAX,
    ensures
        (final(pipes)@, *final(last) as int) == recycle_one(old(pipes)@, *old(last) as int, i as int, fresh_y),
        final(pipes).len() == old(pipes).len(),
        forall|k: int| 0 <= k < old(pipes).len() && k != i ==> final(pipes)[k] == old(pipes)[k],
        old(pipes)[i as int].x >= -PIPE_WIDTH ==> final(pipes)[i as int] == old(pipes)[i as int] && *final(last) == *old(last),
        old(pipes)[i as int].x < -PIPE_WIDTH ==> {
            &&& final(pipes)[i as int].x == old(pipes)[*old(last) as int].x + PIPE_DIST
            &&& final(pipes)[i as int].y == fresh_y
            &&& *final(last) == i
        },
{
    if pipes[i].x < -PIPE_WIDTH {
        let nx = pipes[*last].x + PIPE_DIST;
        pipes.set(i, Position { x: nx, y: fresh_y });
        *last = i;
    }
}

/// One frame of the pipes: every pipe scrolls left by `SCROLL_SPEED`, then
/// each, in ascending index order, may be recycled as `recycle_pipe` does;
/// `fresh[i]` is the gap centre that pipe `i` takes if it is recycled.
pub fn scroll_pipes(pipes: &mut Vec<Position>, last: &mut usize, fresh: &Vec<i64>)
    requires
        old(pipes).len() == PIPE_NUM,
        *old(last) < old(pipes).len(),
        fresh.len() == old(pipes).len(),
        pipes_within_limits(old(pipes)@),
        valid_gap_centers(fresh@),
    ensures
        (final(pipes)@, *final(last) as int) == scroll_all(old(pipes)@, *old(last) as int, fresh@),
        final(pipes).len() == old(pipes).len(),
        *final(last) < final(pipes).len(),
        forall|k: int| 0 <= k < final(pipes).len() ==> (#[trigger] final(pipes)[k]).within_wide_limits(),
        spaced_after_frame(old(pipes)@, *old(last) as int, fresh@, final(pipes)@),
        rightmost(old(pipes)@, *old(last) as int) ==> rightmost(final(pipes)@, *final(last) as int),
{
    let ghost start = pipes@;
    let ghost start_last = *last as int;
    scroll_row(pipes);
    let ghost row = pipes@;
    proof {
        lemma_scrolled_bounded(start);
        lemma_recycle_bounds(row, start_last, fresh@, PIPE_NUM as nat);
        lemma_frame_keeps_spacing(start, start_last, fresh@);
        if rightmost(start, start_last) {
            lemma_frame_keeps_rightmost(start, start_last, fresh@);
        }
    }
    let n = pipes.len();
    let mut i: usize = 0;
    while i < n
        invariant
            n == pipes.len(),
            n == row.len(),
            n == PIPE_NUM,
            fresh.len() == n,
            0 <= i <= n,
            *last < n,
            0 <= start_last < n,
            row_bounded(row, 0),
            valid_gap_centers(fresh@),
            (pipes@, *last as int) == recycle_first(row, start_last, fresh@, i as nat),
        decreases n - i,
    {
        proof {
            lemma_recycle_bounds(row, start_last, fresh@, i as nat);
            assert(pipes[*last as int].x <= COORD_LIMIT + PIPE_DIST * i);
        }
        recycle_pipe(pipes, last, i, fresh[i]);
        i = i + 1;
    }
    proof {
        assert forall|k: int| 0 <= k < pipes.len() implies (#[trigger] pipes[k]).within_wide_limits() by {
            assert(pipes@[k] == pipes[k]);
        }
    }
}

} // verus!
