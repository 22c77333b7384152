//! The snake chain and the whole game state: segments with their sequence
//! indices, the rewind budgets, and the aggregate `Game` that the movement,
//! rewind, plate and spike engines mutate.

use vstd::prelude::*;

use crate::grid::{GameMap, GridPos, Tile, TopTileType, doors_clean, grid_in_bounds, grid_tile,
    grid_wf};

verus! {

/// One segment of the snake chain. `sequence_index` is assigned at creation,
/// grows strictly from tail to head, and is never reassigned; `movable` marks
/// the live head, of which a chain has at most one.
#[derive(Debug, Clone, Copy, PartialEq, Eq, Structural)]
pub struct SnakeSegment {
    pub sequence_index: usize,
    pub pos: GridPos,
    pub movable: bool,
}

/// The rewind budgets: `total` counts rewind operations, `individual` the
/// cumulative steps over all rewinds. Either going negative is a terminal
/// death condition, detected by the caller.
#[derive(Debug, Clone, Copy, PartialEq, Eq, Structural)]
pub struct RewindCounter {
    pub total: isize,
    pub individual: isize,
}

/// The terminal condition of a level, observed by the surrounding state
/// machine.
#[derive(Debug, Clone, Copy, PartialEq, Eq, Structural)]
pub enum GameOverState {
    Ongoing,
    Death,
    Win,
}

/// The mathematical model of a game state: the tile matrix, the chain in
/// tail-to-head order, the set of latched plate positions and the budgets.
#[verifier::ext_equal]
pub struct GameView {
    pub grid: Seq<Seq<Tile>>,
    pub segments: Seq<SnakeSegment>,
    pub latched: Set<GridPos>,
    pub total: int,
    pub individual: int,
}

/// Well-formedness of a game state. Every engine of the library preserves it:
/// the grid is rectangular; sequence indices grow strictly from tail to head;
/// only the head segment (the last) may carry the movable marker; every
/// segment stands, alone, on an in-range tile it occupies; a door tile has an
/// empty effect layer (so no tile is both a door and an anti-door); latched
/// plate positions are in range.
pub open spec fn wf_view(v: GameView) -> bool {
    &&& grid_wf(v.grid)
    &&& forall|i: int, j: int|
        0 <= i < j < v.segments.len() ==> #[trigger] v.segments[i].sequence_index
            < #[trigger] v.segments[j].sequence_index
    &&& forall|i: int|
        0 <= i < v.segments.len() && (#[trigger] v.segments[i]).movable ==> i == v.segments.len()
            - 1
    &&& forall|i: int|
        0 <= i < v.segments.len() ==> grid_in_bounds(v.grid, (#[trigger] v.segments[i]).pos)
            && grid_tile(v.grid, v.segments[i].pos).top is Snake
    &&& forall|i: int, j: int|
        0 <= i < j < v.segments.len() ==> (#[trigger] v.segments[i]).pos != (
        #[trigger] v.segments[j]).pos
    &&& doors_clean(v.grid)
    &&& forall|p: GridPos| #[trigger] v.latched.contains(p) ==> grid_in_bounds(v.grid, p)
}

/// Whether the chain has a live head: a last segment carrying the movable
/// marker.
pub open spec fn has_live_head(v: GameView) -> bool {
    v.segments.len() > 0 && v.segments.last().movable
}

/// Whether two distinct cells of the grid both hold a snake occupant — a
/// corrupt initial map, rejected at load.
pub open spec fn multi_snake(tiles: Seq<Seq<Tile>>) -> bool {
    exists|p: GridPos, q: GridPos|
        p != q && #[trigger] grid_in_bounds(tiles, p) && #[trigger] grid_in_bounds(tiles, q)
            && grid_tile(tiles, p).top is Snake && grid_tile(tiles, q).top is Snake
}

/// Whether some cell of the grid holds a snake occupant.
pub open spec fn some_snake(tiles: Seq<Seq<Tile>>) -> bool {
    exists|p: GridPos|
        #[trigger] grid_in_bounds(tiles, p) && grid_tile(tiles, p).top is Snake
}

/// Whether `p` lies strictly before the cell `(x, y)` in the column-first
/// scan order of the map loader.
spec fn scanned_before(p: GridPos, x: int, y: int) -> bool {
    (p.x as int) < x || ((p.x as int) == x && (p.y as int) < y)
}

/// The loader's scan so far: either no snake cell seen, or exactly one.
spec fn scan_state(tiles: Seq<Seq<Tile>>, found: Option<GridPos>, x: int, y: int) -> bool {
    match found {
        Option::Some(p0) => {
            &&& grid_in_bounds(tiles, p0)
            &&& grid_tile(tiles, p0).top is Snake
            &&& scanned_before(p0, x, y)
            &&& forall|p: GridPos|
                scanned_before(p, x, y) && #[trigger] grid_in_bounds(tiles, p) && p != p0 ==> !(
                grid_tile(tiles, p).top is Snake)
        },
        Option::None => forall|p: GridPos|
            scanned_before(p, x, y) && #[trigger] grid_in_bounds(tiles, p) ==> !(grid_tile(
                tiles,
                p,
            ).top is Snake),
    }
}

/// Filtering a chain keeps it a chain: every kept segment is one of the
/// original ones, sequence indices still grow strictly, positions stay
/// pairwise distinct, and a movable segment can still only stand at the
/// head. The engines that kill segments (plate reaction, spikes) rely on
/// this to preserve the game invariant.
pub proof fn lemma_filter_preserves_chain_wf(
    segs: Seq<SnakeSegment>,
    pred: spec_fn(SnakeSegment) -> bool,
)
    requires
        forall|i: int, j: int|
            0 <= i < j < segs.len() ==> #[trigger] segs[i].sequence_index
                < #[trigger] segs[j].sequence_index,
        forall|i: int| 0 <= i < segs.len() && (#[trigger] segs[i]).movable ==> i == segs.len() - 1,
        forall|i: int, j: int|
            0 <= i < j < segs.len() ==> (#[trigger] segs[i]).pos != (#[trigger] segs[j]).pos,
    ensures
        forall|k: int|
            0 <= k < segs.filter(pred).len() ==> segs.contains(#[trigger] segs.filter(pred)[k])
                && pred(segs.filter(pred)[k]),
        forall|i: int, j: int|
            0 <= i < j < segs.filter(pred).len() ==> #[trigger] segs.filter(
                pred,
            )[i].sequence_index < #[trigger] segs.filter(pred)[j].sequence_index,
        forall|i: int|
            0 <= i < segs.filter(pred).len() && (#[trigger] segs.filter(pred)[i]).movable ==> i
                == segs.filter(pred).len() - 1,
        forall|i: int, j: int|
            0 <= i < j < segs.filter(pred).len() ==> (#[trigger] segs.filter(pred)[i]).pos != (
            #[trigger] segs.filter(pred)[j]).pos,
    decreases segs.len(),
{
    reveal(Seq::filter);
    let f = segs.filter(pred);
    if segs.len() == 0 {
    } else {
        let d = segs.drop_last();
        let last = segs.last();
        lemma_filter_preserves_chain_wf(d, pred);
        let fd = d.filter(pred);
        // Every kept element of the shorter chain is one of the original
        // segments, standing strictly before the head.
        assert forall|k: int| 0 <= k < fd.len() implies segs.contains(#[trigger] fd[k])
            && !fd[k].movable && fd[k].sequence_index < last.sequence_index && fd[k].pos
            != last.pos by {
            assert(d.contains(fd[k]));
            let m = choose|m: int| 0 <= m < d.len() && d[m] == fd[k];
            assert(segs[m] == fd[k]);
            assert(segs[m].sequence_index < segs[segs.len() - 1].sequence_index);
            assert(segs[m].pos != segs[segs.len() - 1].pos);
            if segs[m].movable {
                assert(m == segs.len() - 1);
            }
        }
        if pred(last) {
            assert(f == fd.push(last));
            assert(segs.contains(last)) by {
                assert(segs[segs.len() - 1] == last);
            }
        } else {
            assert(f == fd);
        }
    }
}

/// The whole game state of one level: created at load, mutated by the
/// movement, rewind, plate and spike engines, dropped on level transition.
#[derive(Debug)]
pub struct Game {
    pub grid: GameMap,
    pub segments: Vec<SnakeSegment>,
    pub latched: Vec<GridPos>,
    pub rewinds: RewindCounter,
}

impl View for Game {
    type V = GameView;

    open spec fn view(&self) -> GameView {
        GameView {
            grid: self.grid@,
            segments: self.segments@,
            latched: self.latched@.to_set(),
            total: self.rewinds.total as int,
            individual: self.rewinds.individual as int,
        }
    }
}

impl Game {
    /// Builds the game state for a freshly parsed map and its per-level
    /// budgets. The single cell marked as the snake in the map becomes the
    /// movable head with sequence index 0; a map without one starts with an
    /// empty chain (an immediate death, detected by the observer). A map with
    /// two or more snake cells would break the single-head invariant and is
    /// rejected.
    pub fn load(grid: GameMap, total: isize, individual: isize) -> (r: Option<Game>)
        requires
            grid.wf(),
            doors_clean(grid@),
        ensures
            r is Some <==> !multi_snake(grid@),
            r is Some ==> {
                let g = r->0;
                &&& wf_view(g@)
                &&& g@.grid == grid@
                &&& g@.latched == Set::<GridPos>::empty()
                &&& g@.total == total as int
                &&& g@.individual == individual as int
                &&& (g@.segments.len() == 1 <==> some_snake(grid@))
                &&& (g@.segments.len() == 0 <==> !some_snake(grid@))
                &&& (g@.segments.len() == 1 ==> {
                    let s = g@.segments[0];
                    &&& s.sequence_index == 0
                    &&& s.movable
                    &&& grid_in_bounds(grid@, s.pos)
                    &&& grid_tile(grid@, s.pos).top is Snake
                })
            },
    {
        let width = grid.width();
        let mut found: Option<GridPos> = Option::None;
        let mut x: usize = 0;
        while x < width
            invariant
                grid.wf(),
                width == grid.spec_width(),
                x <= width,
                scan_state(grid@, found, x as int, 0),
            decreases width - x,
        {
            let height = grid.height();
            let mut y: usize = 0;
            while y < height
                invariant
                    grid.wf(),
                    width == grid.spec_width(),
                    height == grid.spec_height(),
                    x < width,
                    y <= height,
                    scan_state(grid@, found, x as int, y as int),
                decreases height - y,
            {
                let pos = GridPos { x, y };
                proof {
                    assert(grid_in_bounds(grid@, pos));
                }
                let here_snake = match grid.get(pos) {
                    Option::Some(tile) => matches!(tile.top, TopTileType::Snake),
                    Option::None => false,
                };
                if here_snake {
                    match found {
                        Option::Some(other) => {
                            proof {
                                assert(other != pos);
                                assert(multi_snake(grid@));
                            }
                            return Option::None;
                        },
                        Option::None => {
                            found = Option::Some(pos);
                        },
                    }
                }
                proof {
                    assert forall|p: GridPos|
                        scanned_before(p, x as int, y + 1) && #[trigger] grid_in_bounds(grid@, p)
                            && p != pos implies scanned_before(p, x as int, y as int) by {}
                }
                y += 1;
            }
            proof {
                assert forall|p: GridPos|
                    scanned_before(p, x + 1, 0) && #[trigger] grid_in_bounds(grid@, p) implies
                    scanned_before(p, x as int, height as int) by {
                    assert(grid@[p.x as int].len() == grid@[0].len());
                }
            }
            x += 1;
        }
        proof {
            assert forall|p: GridPos| #[trigger] grid_in_bounds(grid@, p) implies scanned_before(
                p,
                width as int,
                0,
            ) by {}
        }
        let mut segments: Vec<SnakeSegment> = Vec::new();
        match found {
            Option::Some(p) => {
                segments.push(SnakeSegment { sequence_index: 0, pos: p, movable: true });
            },
            Option::None => {},
        }
        let g = Game {
            grid,
            segments,
            latched: Vec::new(),
            rewinds: RewindCounter { total, individual },
        };
        proof {
            assert(g@.latched =~= Set::<GridPos>::empty());
            if multi_snake(g@.grid) {
                let (p, q) = choose|p: GridPos, q: GridPos|
                    p != q && #[trigger] grid_in_bounds(g@.grid, p) && #[trigger] grid_in_bounds(
                        g@.grid,
                        q,
                    ) && grid_tile(g@.grid, p).top is Snake && grid_tile(g@.grid, q).top is Snake;
                assert(false);
            }
            if found is None && some_snake(g@.grid) {
                let p = choose|p: GridPos|
                    #[trigger] grid_in_bounds(g@.grid, p) && grid_tile(g@.grid, p).top is Snake;
                assert(false);
            }
        }
        Option::Some(g)
    }

    /// Whether the chain still has a live head; its absence is the death
    /// condition watched by the surrounding state machine.
    pub fn check_for_death(&self) -> (r: bool)
        ensures
            r == !has_live_head(self@),
    {
        match self.segments.last() {
            Option::Some(s) => !s.movable,
            Option::None => true,
        }
    }

    /// Whether a rewind budget has gone negative — the terminal budget
    /// exhaustion condition.
    pub fn check_for_rewinds_left(&self) -> (r: bool)
        ensures
            r == (self@.total < 0 || self@.individual < 0),
    {
        self.rewinds.total < 0 || self.rewinds.individual < 0
    }

    /// The terminal condition the core can observe on its own: death by a
    /// lost head or an exhausted budget. The win is observed by the caller
    /// through the `GameWinTrigger` event, not through this query.
    pub fn check_game_over(&self) -> (r: GameOverState)
        ensures
            r == GameOverState::Death <==> (!has_live_head(self@) || self@.total < 0
                || self@.individual < 0),
            r != GameOverState::Win,
    {
        if self.check_for_death() || self.check_for_rewinds_left() {
            GameOverState::Death
        } else {
            GameOverState::Ongoing
        }
    }
}

} // verus!
