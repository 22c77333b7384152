//! The movement engine: one axis-aligned unit step of the live head. The
//! destination tile is validated, the chain grows by one segment, the grid
//! is updated, and tile-entry side effects (plate activation, win) are
//! dispatched.

use vstd::prelude::*;

use crate::door::{plate_step, lemma_plate_preserves_wf};
use crate::grid::{BottomTileType, GameEvent, GridPos, Tile, TopTileType, grid_in_bounds,
    grid_tile, grid_update, spec_enter_events};
use crate::snake::{Game, GameView, SnakeSegment, has_live_head, wf_view};

verus! {

/// A directional input: axis-aligned, unit length. Diagonal or zero inputs
/// cannot be expressed, so the engine never sees them.
#[derive(Debug, Clone, Copy, PartialEq, Eq, Structural)]
pub enum Direction {
    Up,
    Down,
    Left,
    Right,
}

/// The destination coordinates of a step from `pos`, as unbounded integers
/// so that stepping off the left or bottom edge is representable.
pub open spec fn dest_coords(pos: GridPos, dir: Direction) -> (int, int) {
    match dir {
        Direction::Up => (pos.x as int, pos.y + 1),
        Direction::Down => (pos.x as int, pos.y - 1),
        Direction::Left => (pos.x - 1, pos.y as int),
        Direction::Right => (pos.x + 1, pos.y as int),
    }
}

/// Whether the destination of a step from `pos` lies on the grid.
pub open spec fn dest_on_grid(grid: Seq<Seq<Tile>>, pos: GridPos, dir: Direction) -> bool {
    let (x, y) = dest_coords(pos, dir);
    0 <= x < grid.len() && 0 <= y < grid[x].len()
}

/// The destination cell of a step from `pos`, meaningful when it lies on
/// the grid.
pub open spec fn dest_pos(pos: GridPos, dir: Direction) -> GridPos {
    let (x, y) = dest_coords(pos, dir);
    GridPos { x: x as usize, y: y as usize }
}

/// Whether a step of the live head in direction `dir` is accepted: there is
/// a live head, the destination lies on the grid, and the destination tile
/// is unoccupied. A wall, a door and the snake's own body reject the move
/// uniformly.
pub open spec fn move_accepted(v: GameView, dir: Direction) -> bool {
    &&& has_live_head(v)
    &&& dest_on_grid(v.grid, v.segments.last().pos, dir)
    &&& grid_tile(v.grid, dest_pos(v.segments.last().pos, dir)).top is Nothing
}

/// The game state right after the grid mutation and chain growth of an
/// accepted move, before any plate reaction: the destination tile becomes
/// snake-occupied, a new movable segment with the next sequence index is
/// spawned there, and the previous head is demoted to frozen history.
pub open spec fn move_grown(v: GameView, dir: Direction) -> GameView {
    let head = v.segments.last();
    let dest = dest_pos(head.pos, dir);
    let t = grid_tile(v.grid, dest);
    GameView {
        grid: grid_update(v.grid, dest, Tile { top: TopTileType::Snake, bottom: t.bottom }),
        segments: v.segments.update(
            v.segments.len() - 1,
            SnakeSegment { movable: false, ..head },
        ).push(
            SnakeSegment {
                sequence_index: (head.sequence_index + 1) as usize,
                pos: dest,
                movable: true,
            },
        ),
        latched: v.latched,
        total: v.total,
        individual: v.individual,
    }
}

/// The game state after a move in direction `dir`. A rejected move — no
/// live head, an off-grid destination, or an occupied destination tile —
/// leaves the state untouched. An accepted move grows the chain onto the
/// destination and, when the destination holds an unlatched pressure plate,
/// runs the plate reaction atomically with the move.
pub open spec fn move_step_state(v: GameView, dir: Direction) -> GameView {
    if !move_accepted(v, dir) {
        v
    } else {
        let head = v.segments.last();
        let dest = dest_pos(head.pos, dir);
        let grown = move_grown(v, dir);
        match grid_tile(v.grid, dest).bottom {
            BottomTileType::PressurePlate(channel) => plate_step(grown, channel, dest),
            _ => grown,
        }
    }
}

/// Whether the move in direction `dir` is accepted, as reported to the
/// caller.
pub open spec fn move_step_moved(v: GameView, dir: Direction) -> bool {
    move_accepted(v, dir)
}

/// The events an accepted move emits on entering the destination tile: a
/// plate activation, the win trigger, or nothing. A rejected move emits
/// nothing.
pub open spec fn move_step_events(v: GameView, dir: Direction) -> Seq<GameEvent> {
    if !move_accepted(v, dir) {
        Seq::empty()
    } else {
        spec_enter_events(
            grid_tile(v.grid, dest_pos(v.segments.last().pos, dir)).bottom,
            dest_pos(v.segments.last().pos, dir),
        )
    }
}

/// What a move returns to the caller: whether the chain grew, and the
/// events the destination tile emitted, to be reacted to outside the core.
#[derive(Debug, Clone, PartialEq, Eq)]
pub struct MoveOutcome {
    pub moved: bool,
    pub events: Vec<GameEvent>,
}

/// An accepted move preserves the game invariant up to the plate reaction.
proof fn lemma_move_grown_wf(v: GameView, dir: Direction)
    requires
        wf_view(v),
        move_accepted(v, dir),
        v.segments.last().sequence_index < usize::MAX,
    ensures
        wf_view(move_grown(v, dir)),
{
    let w = move_grown(v, dir);
    let n = v.segments.len() as int;
    let head = v.segments.last();
    let dest = dest_pos(head.pos, dir);
    assert(grid_in_bounds(v.grid, dest));
    // The destination tile is unoccupied, so no segment stands there.
    assert forall|i: int| 0 <= i < n implies (#[trigger] v.segments[i]).pos != dest by {
        assert(grid_tile(v.grid, v.segments[i].pos).top is Snake);
    }
    assert forall|x: int| 0 <= x < w.grid.len() implies #[trigger] w.grid[x].len()
        == w.grid[0].len() by {
        assert(w.grid[x].len() == v.grid[x].len());
        assert(w.grid[0].len() == v.grid[0].len());
    }
    assert forall|i: int| 0 <= i < w.segments.len() implies grid_in_bounds(
        w.grid,
        (#[trigger] w.segments[i]).pos,
    ) && grid_tile(w.grid, w.segments[i].pos).top is Snake by {
        let s = w.segments[i];
        if i < n {
            assert(s.pos == v.segments[i].pos);
            assert(grid_tile(v.grid, s.pos).top is Snake);
            assert(w.grid[s.pos.x as int].len() == v.grid[s.pos.x as int].len());
        } else {
            assert(s.pos == dest);
        }
    }
    assert forall|i: int, j: int| 0 <= i < j < w.segments.len() implies #[trigger] w.segments[i].sequence_index
        < #[trigger] w.segments[j].sequence_index by {
        if j < n {
            assert(v.segments[i].sequence_index < v.segments[j].sequence_index);
        } else if 0 <= i < n - 1 {
            assert(v.segments[i].sequence_index < v.segments[n - 1].sequence_index);
        }
    }
}

impl Game {
    /// One step of the live head in direction `dir`. A move whose
    /// destination is off the grid or occupied fails silently — the state
    /// is left exactly as it was, no segment is created and no tile is
    /// touched. An accepted move enters the destination tile, dispatches
    /// its effects, spawns the new head there with the next sequence index
    /// and freezes the previous head, all atomically. With no live head
    /// (the snake is dead) the move is a no-op.
    pub fn move_snake(&mut self, dir: Direction) -> (r: MoveOutcome)
        requires
            wf_view(old(self)@),
            has_live_head(old(self)@) ==> old(self)@.segments.last().sequence_index < usize::MAX,
        ensures
            final(self)@ == move_step_state(old(self)@, dir),
            r.moved == move_step_moved(old(self)@, dir),
            r.events@ == move_step_events(old(self)@, dir),
            wf_view(final(self)@),
    {
        let n = self.segments.len();
        let head = match self.segments.last() {
            Option::Some(s) => {
                if !s.movable {
                    return MoveOutcome { moved: false, events: Vec::new() };
                }
                *s
            },
            Option::None => {
                return MoveOutcome { moved: false, events: Vec::new() };
            },
        };
        proof {
            assert(grid_in_bounds(old(self)@.grid, head.pos));
        }
        // Materialise the grid bounds: the head stands on the grid, so the
        // destination arithmetic below cannot overflow.
        let _width = self.grid.width();
        let _column_height = self.grid.column_height(head.pos.x);
        // The destination cell; stepping off the edge rejects the move.
        let dest = match dir {
            Direction::Up => GridPos { x: head.pos.x, y: head.pos.y + 1 },
            Direction::Down => {
                if head.pos.y == 0 {
                    return MoveOutcome { moved: false, events: Vec::new() };
                }
                GridPos { x: head.pos.x, y: head.pos.y - 1 }
            },
            Direction::Left => {
                if head.pos.x == 0 {
                    return MoveOutcome { moved: false, events: Vec::new() };
                }
                GridPos { x: head.pos.x - 1, y: head.pos.y }
            },
            Direction::Right => GridPos { x: head.pos.x + 1, y: head.pos.y },
        };
        let plate_channel: Option<char> = match self.grid.get(dest) {
            Option::Some(tile) => {
                if tile.is_occupied() {
                    return MoveOutcome { moved: false, events: Vec::new() };
                }
                match &tile.bottom {
                    BottomTileType::PressurePlate(c) => Option::Some(*c),
                    _ => Option::None,
                }
            },
            Option::None => {
                return MoveOutcome { moved: false, events: Vec::new() };
            },
        };
        let ghost v0 = self@;
        proof {
            assert(move_accepted(v0, dir));
        }
        // Enter the destination tile and collect its effects.
        let events = self.grid.tile_mut(dest).snake_passes(dest);
        // Spawn the new head; the previous head becomes frozen history.
        let prev = &mut self.segments[n - 1];
        prev.movable = false;
        self.segments.push(
            SnakeSegment { sequence_index: head.sequence_index + 1, pos: dest, movable: true },
        );
        proof {
            assert(self@ =~~= move_grown(v0, dir));
            lemma_move_grown_wf(v0, dir);
        }
        // The plate reaction runs atomically with the move.
        match plate_channel {
            Option::Some(channel) => {
                self.on_plate_activated(channel, dest);
            },
            Option::None => {},
        }
        proof {
            assert(events@ == move_step_events(v0, dir));
            assert(self@ == move_step_state(v0, dir));
        }
        MoveOutcome { moved: true, events }
    }
}

} // verus!
