//! The plate/door reaction: activating a pressure plate latches it once,
//! despawns every door of its channel and promotes every anti-door of its
//! channel into a solid door, killing any segment the new door materialises
//! on.

use vstd::prelude::*;

use crate::grid::{BottomTileType, GridPos, Tile, TopTileType, grid_in_bounds, grid_tile};
use crate::snake::{Game, GameView, SnakeSegment, lemma_filter_preserves_chain_wf, wf_view};

verus! {

/// What plate activation of `channel` does to one tile: a door of the
/// channel opens (its top is cleared), an anti-door of the channel
/// materialises into a door, any other tile is untouched.
pub open spec fn plate_tile_step(t: Tile, channel: char) -> Tile {
    let top = if t.top == TopTileType::Door(channel) {
        TopTileType::Nothing
    } else {
        t.top
    };
    if t.bottom == BottomTileType::AntiDoor(channel) {
        Tile { top: TopTileType::Door(channel), bottom: BottomTileType::Nothing }
    } else {
        Tile { top, bottom: t.bottom }
    }
}

/// The whole grid after plate activation of `channel`, tile by tile.
pub open spec fn plate_grid(grid: Seq<Seq<Tile>>, channel: char) -> Seq<Seq<Tile>> {
    grid.map_values(|column: Seq<Tile>| column.map_values(|t: Tile| plate_tile_step(t, channel)))
}

/// A segment survives the activation unless a door of the channel
/// materialises on its cell.
pub open spec fn segment_survives(grid: Seq<Seq<Tile>>, channel: char, s: SnakeSegment) -> bool {
    !(grid_in_bounds(grid, s.pos) && grid_tile(grid, s.pos).bottom == BottomTileType::AntiDoor(
        channel,
    ))
}

/// The survival test as a predicate on segments, for a fixed grid and
/// channel.
pub open spec fn survives_pred(grid: Seq<Seq<Tile>>, channel: char) -> spec_fn(
    SnakeSegment,
) -> bool {
    |s: SnakeSegment| segment_survives(grid, channel, s)
}

/// Whether activating the plate at `pos` fires at all: the cell holds a
/// plate of the channel and has not latched yet.
pub open spec fn plate_ready(v: GameView, channel: char, pos: GridPos) -> bool {
    &&& grid_in_bounds(v.grid, pos)
    &&& grid_tile(v.grid, pos).bottom == BottomTileType::PressurePlate(channel)
    &&& !v.latched.contains(pos)
}

/// The game state after activating the plate of `channel` at `pos`. A
/// latched plate, or a position that holds no matching plate, fires nothing:
/// the state is unchanged. Otherwise the plate latches, doors of the channel
/// open, anti-doors of the channel become doors, and segments under those
/// new doors are killed; budgets are untouched.
pub open spec fn plate_step(v: GameView, channel: char, pos: GridPos) -> GameView {
    if plate_ready(v, channel, pos) {
        GameView {
            grid: plate_grid(v.grid, channel),
            segments: v.segments.filter(survives_pred(v.grid, channel)),
            latched: v.latched.insert(pos),
            total: v.total,
            individual: v.individual,
        }
    } else {
        v
    }
}

/// Plate activation preserves the game invariant.
pub proof fn lemma_plate_preserves_wf(v: GameView, channel: char, pos: GridPos)
    requires
        wf_view(v),
    ensures
        wf_view(plate_step(v, channel, pos)),
{
    if plate_ready(v, channel, pos) {
        let pred = survives_pred(v.grid, channel);
        let w = plate_step(v, channel, pos);
        lemma_filter_preserves_chain_wf(v.segments, pred);
        assert forall|x: int| 0 <= x < w.grid.len() implies #[trigger] w.grid[x].len()
            == w.grid[0].len() by {
            assert(w.grid[x].len() == v.grid[x].len());
            assert(w.grid[0].len() == v.grid[0].len());
        }
        assert forall|i: int| 0 <= i < w.segments.len() implies grid_in_bounds(
            w.grid,
            (#[trigger] w.segments[i]).pos,
        ) && grid_tile(w.grid, w.segments[i].pos).top is Snake by {
            let s = w.segments[i];
            assert(v.segments.contains(s) && pred(s));
            let j = choose|j: int| 0 <= j < v.segments.len() && v.segments[j] == s;
            assert(grid_in_bounds(v.grid, s.pos) && grid_tile(v.grid, s.pos).top is Snake);
            assert(w.grid[s.pos.x as int].len() == v.grid[s.pos.x as int].len());
        }
    }
}

impl Game {
    /// Whether the plate at `pos` has already latched.
    fn latched_contains(&self, pos: GridPos) -> (r: bool)
        ensures
            r == self@.latched.contains(pos),
    {
        let mut i: usize = 0;
        while i < self.latched.len()
            invariant
                i <= self.latched@.len(),
                forall|j: int| 0 <= j < i ==> self.latched@[j] != pos,
            decreases self.latched@.len() - i,
        {
            if self.latched[i] == pos {
                assert(self@.latched.contains(pos));
                return true;
            }
            i += 1;
        }
        assert(!self.latched@.contains(pos));
        false
    }

    /// Reacts to a plate activation of `channel` at `pos`: exactly the
    /// transition `plate_step`. A second activation of the same plate
    /// changes nothing — the plate latches exactly once.
    pub fn on_plate_activated(&mut self, channel: char, pos: GridPos)
        ensures
            final(self)@ == plate_step(old(self)@, channel, pos),
            old(self)@.latched.contains(pos) ==> *final(self) == *old(self),
            wf_view(old(self)@) ==> wf_view(final(self)@),
    {
        let ready = match self.grid.get(pos) {
            Option::Some(t) => match &t.bottom {
                BottomTileType::PressurePlate(c) => *c == channel,
                _ => false,
            },
            Option::None => false,
        };
        if !ready || self.latched_contains(pos) {
            proof {
                assert(!plate_ready(old(self)@, channel, pos));
            }
            return;
        }
        let ghost v0 = self@;
        let ghost g0 = self@.grid;
        let ghost pred = survives_pred(g0, channel);
        // Latch the plate.
        let ghost l0 = self.latched@;
        self.latched.push(pos);
        proof {
            assert forall|q: GridPos| #[trigger] self.latched@.contains(q) implies
                v0.latched.contains(q) || q == pos by {
                let i = choose|i: int| 0 <= i < self.latched@.len() && self.latched@[i] == q;
                if i < l0.len() {
                    assert(l0[i] == q);
                    assert(l0.contains(q));
                }
            }
            assert forall|q: GridPos| v0.latched.contains(q) || q == pos implies
                #[trigger] self.latched@.contains(q) by {
                if v0.latched.contains(q) {
                    let i = choose|i: int| 0 <= i < l0.len() && l0[i] == q;
                    assert(self.latched@[i] == q);
                } else {
                    assert(self.latched@[l0.len() as int] == q);
                }
            }
            assert(self@.latched =~= v0.latched.insert(pos));
        }
        // Kill the segments on which a door of the channel materialises.
        let mut survivors: Vec<SnakeSegment> = Vec::new();
        let mut i: usize = 0;
        while i < self.segments.len()
            invariant
                self.grid@ == g0,
                self.latched@ == l0.push(pos),
                self.segments@ == v0.segments,
                self.rewinds == old(self).rewinds,
                i <= self.segments@.len(),
                survivors@ == self.segments@.take(i as int).filter(pred),
                pred == survives_pred(g0, channel),
            decreases self.segments@.len() - i,
        {
            let s = self.segments[i];
            let doomed = match self.grid.get(s.pos) {
                Option::Some(t) => match &t.bottom {
                    BottomTileType::AntiDoor(c) => *c == channel,
                    _ => false,
                },
                Option::None => false,
            };
            proof {
                reveal(Seq::filter);
                let pre = self.segments@.take(i as int);
                let cur = self.segments@.take(i + 1);
                assert(cur.drop_last() =~= pre);
                assert(cur.last() == s);
            }
            if !doomed {
                survivors.push(s);
            }
            i += 1;
        }
        proof {
            assert(self.segments@.take(self.segments@.len() as int) =~= self.segments@);
        }
        self.segments = survivors;
        // Open doors of the channel, promote its anti-doors into doors.
        let width = self.grid.width();
        let mut x: usize = 0;
        while x < width
            invariant
                self.latched@ == l0.push(pos),
                self.segments@ == v0.segments.filter(survives_pred(g0, channel)),
                self.rewinds == old(self).rewinds,
                width == self.grid@.len(),
                x <= width,
                self.grid@.len() == g0.len(),
                forall|i: int| 0 <= i < g0.len() ==> #[trigger] self.grid@[i].len() == g0[i].len(),
                forall|i: int, j: int|
                    0 <= i < g0.len() && 0 <= j < g0[i].len() ==> #[trigger] self.grid@[i][j] == (
                    if i < x {
                        plate_tile_step(g0[i][j], channel)
                    } else {
                        g0[i][j]
                    }),
            decreases width - x,
        {
            let height = self.grid.column_height(x);
            let mut y: usize = 0;
            while y < height
                invariant
                    self.latched@ == l0.push(pos),
                    self.segments@ == v0.segments.filter(survives_pred(g0, channel)),
                    self.rewinds == old(self).rewinds,
                    width == self.grid@.len(),
                    x < width,
                    height == self.grid@[x as int].len(),
                    y <= height,
                    self.grid@.len() == g0.len(),
                    forall|i: int| 0 <= i < g0.len() ==> #[trigger] self.grid@[i].len()
                        == g0[i].len(),
                    forall|i: int, j: int|
                        0 <= i < g0.len() && 0 <= j < g0[i].len() ==> #[trigger] self.grid@[i][j]
                            == (if i < x || (i == x && j < y) {
                            plate_tile_step(g0[i][j], channel)
                        } else {
                            g0[i][j]
                        }),
                decreases height - y,
            {
                let p = GridPos { x, y };
                let (is_anti, is_door) = match self.grid.get(p) {
                    Option::Some(t) => (
                        match &t.bottom {
                            BottomTileType::AntiDoor(c) => *c == channel,
                            _ => false,
                        },
                        match t.top {
                            TopTileType::Door(c) => c == channel,
                            _ => false,
                        },
                    ),
                    Option::None => (false, false),
                };
                if is_anti {
                    self.grid.tile_mut(p).upgrade_to_door(channel);
                } else if is_door {
                    self.grid.tile_mut(p).top_removed();
                }
                y += 1;
            }
            x += 1;
        }
        proof {
            assert(plate_ready(v0, channel, pos));
            assert(self.grid@ =~~= plate_grid(g0, channel));
            assert(self@.segments == v0.segments.filter(survives_pred(g0, channel)));
            assert(self@.latched =~= v0.latched.insert(pos));
            assert(self@.total == v0.total && self@.individual == v0.individual);
            assert(self@ =~~= plate_step(v0, channel, pos));
            if wf_view(v0) {
                lemma_plate_preserves_wf(v0, channel, pos);
            }
        }
    }
}

} // verus!
