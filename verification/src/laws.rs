//! The library's global guarantees, stated and proved over the spec-level
//! transitions that the engines' contracts pin: single live head, monotonic
//! sequence indices, silent move rejection, the move/rewind round trip,
//! plate idempotence, unconditional budget accounting, and door/anti-door
//! exclusivity.

use vstd::prelude::*;

use crate::door::{plate_ready, plate_step};
use crate::grid::{BottomTileType, GridPos, Tile, TopTileType, grid_in_bounds, grid_tile};
use crate::movement::{Direction, dest_pos, move_accepted, move_grown, move_step_moved,
    move_step_state};
use crate::rewind::{clear_one, clear_tops, rewind_step};
use crate::snake::{GameView, has_live_head, wf_view};

verus! {

/// Single head: in every well-formed state, at most one segment carries
/// the movable marker — any two movable segments are the same one. Every
/// engine of the library returns well-formed states, so this holds of all
/// reachable states.
pub proof fn lemma_single_head(v: GameView)
    requires
        wf_view(v),
    ensures
        forall|i: int, j: int|
            0 <= i < v.segments.len() && 0 <= j < v.segments.len()
                && (#[trigger] v.segments[i]).movable && (#[trigger] v.segments[j]).movable ==> i
                == j,
{
}

/// Monotonic indices: in every well-formed state, sequence indices grow
/// strictly from tail to head. The movement engine assigns each new
/// segment the next index at creation and never reassigns an existing
/// one, so the order is a creation-time property.
pub proof fn lemma_monotonic_indices(v: GameView)
    requires
        wf_view(v),
    ensures
        forall|i: int, j: int|
            0 <= i < j < v.segments.len() ==> #[trigger] v.segments[i].sequence_index
                < #[trigger] v.segments[j].sequence_index,
{
}

/// Move rejection: a move that is not accepted — in particular one whose
/// destination tile is occupied by anything at all — creates no segment
/// and mutates nothing: the state after it is exactly the state before
/// it.
pub proof fn lemma_move_rejection(v: GameView, dir: Direction)
    ensures
        !move_step_moved(v, dir) ==> move_step_state(v, dir) == v,
        has_live_head(v) && grid_in_bounds(v.grid, dest_pos(v.segments.last().pos, dir))
            && !(grid_tile(v.grid, dest_pos(v.segments.last().pos, dir)).top is Nothing)
            ==> !move_step_moved(v, dir),
{
}

/// Move round trip: an accepted move followed by a rewind of one step
/// returns the chain to its pre-move segment count, and leaves the tile
/// the move had entered empty again. Stated for destinations that hold no
/// pressure plate: an activated plate may latch and kill segments, and
/// those effects are deliberately not undone by a rewind.
pub proof fn lemma_move_rewind_round_trip(v: GameView, dir: Direction)
    requires
        wf_view(v),
        move_accepted(v, dir),
        !(grid_tile(v.grid, dest_pos(v.segments.last().pos, dir)).bottom is PressurePlate),
    ensures
        rewind_step(move_step_state(v, dir), 1).segments.len() == v.segments.len(),
        grid_tile(
            rewind_step(move_step_state(v, dir), 1).grid,
            dest_pos(v.segments.last().pos, dir),
        ).top is Nothing,
{
    let dest = dest_pos(v.segments.last().pos, dir);
    let w = move_step_state(v, dir);
    assert(w == move_grown(v, dir));
    let n1 = w.segments.len() as int;
    assert(n1 == v.segments.len() + 1);
    let u = rewind_step(w, 1);
    let removed = crate::rewind::rewind_removed(w.segments, 1);
    assert(removed =~= w.segments.subrange(n1 - 1, n1));
    assert(removed.last() == w.segments.last());
    assert(w.segments.last().pos == dest);
    assert(removed.drop_last() =~= Seq::<crate::snake::SnakeSegment>::empty());
    assert(u.grid == clear_tops(clear_one(w.grid, dest), removed.drop_last()));
    assert(grid_in_bounds(w.grid, dest)) by {
        assert(grid_in_bounds(v.grid, dest));
        assert(w.grid.len() == v.grid.len());
        assert(w.grid[dest.x as int].len() == v.grid[dest.x as int].len());
    }
    assert(grid_tile(u.grid, dest).top is Nothing);
}

/// Plate idempotence: activating the same plate position twice produces
/// exactly the state of activating it once — the plate latches on the
/// first activation and the second changes nothing.
pub proof fn lemma_plate_idempotent(v: GameView, channel: char, pos: GridPos)
    ensures
        plate_step(plate_step(v, channel, pos), channel, pos) == plate_step(v, channel, pos),
{
    let w = plate_step(v, channel, pos);
    if plate_ready(v, channel, pos) {
        assert(w.latched.contains(pos));
        assert(!plate_ready(w, channel, pos));
    }
}

/// Budget accounting: a rewind of `steps` spends exactly one rewind from
/// `total` and exactly `steps` from `individual`, however many segments
/// actually existed — the spend is unconditional.
pub proof fn lemma_budget_accounting(v: GameView, steps: nat)
    ensures
        rewind_step(v, steps).total == v.total - 1,
        rewind_step(v, steps).individual == v.individual - steps,
{
}

/// Door/anti-door exclusivity: in every well-formed state, no tile is
/// simultaneously a door and an anti-door — of the same channel or of any
/// other — since a door tile's effect layer is always empty.
pub proof fn lemma_door_anti_door_exclusive(v: GameView)
    requires
        wf_view(v),
    ensures
        forall|x: int, y: int|
            0 <= x < v.grid.len() && 0 <= y < v.grid[x].len() ==> !((#[trigger] v.grid[x][y]).top
                is Door && v.grid[x][y].bottom is AntiDoor),
{
    assert forall|x: int, y: int|
        0 <= x < v.grid.len() && 0 <= y < v.grid[x].len() implies !((#[trigger] v.grid[x][y]).top
        is Door && v.grid[x][y].bottom is AntiDoor) by {
        if v.grid[x][y].top is Door {
            assert(v.grid[x][y].bottom is Nothing);
        }
    }
}

} // verus!
