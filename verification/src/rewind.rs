//! The rewind/cycle engine: removing the most recent segments of the chain,
//! freeing their tiles, promoting the next-older segment to live head, and
//! spending the rewind budgets.

use vstd::prelude::*;

use crate::grid::{GridPos, Tile, TopTileType, grid_in_bounds, grid_tile, grid_update};
use crate::input::{Key, command_valid, decode_rewind_command, spec_decode_command};
use crate::snake::{Game, GameView, SnakeSegment, wf_view};

verus! {

/// One tile freed: the occupancy layer at `pos` is cleared; an off-grid
/// position frees nothing.
pub open spec fn clear_one(grid: Seq<Seq<Tile>>, pos: GridPos) -> Seq<Seq<Tile>> {
    if grid_in_bounds(grid, pos) {
        grid_update(
            grid,
            pos,
            Tile { top: TopTileType::Nothing, bottom: grid_tile(grid, pos).bottom },
        )
    } else {
        grid
    }
}

/// The grid after freeing the tiles of the given segments, most recent
/// first — the order in which the engine destroys them.
pub open spec fn clear_tops(grid: Seq<Seq<Tile>>, segs: Seq<SnakeSegment>) -> Seq<Seq<Tile>>
    decreases segs.len(),
{
    if segs.len() == 0 {
        grid
    } else {
        clear_tops(clear_one(grid, segs.last().pos), segs.drop_last())
    }
}

/// Freeing tiles touches nothing but the occupancy layer of the freed
/// cells: the shape is kept, a cell none of the segments stands on is
/// untouched, and a cell some segment stands on keeps its effect layer
/// under a cleared top.
pub proof fn lemma_clear_tops(grid: Seq<Seq<Tile>>, segs: Seq<SnakeSegment>)
    ensures
        clear_tops(grid, segs).len() == grid.len(),
        forall|x: int|
            0 <= x < grid.len() ==> #[trigger] clear_tops(grid, segs)[x].len() == grid[x].len(),
        forall|q: GridPos|
            #[trigger] grid_in_bounds(grid, q) && !(exists|i: int|
                0 <= i < segs.len() && (#[trigger] segs[i]).pos == q) ==> grid_tile(
                clear_tops(grid, segs),
                q,
            ) == grid_tile(grid, q),
        forall|q: GridPos|
            #[trigger] grid_in_bounds(grid, q) && (exists|i: int|
                0 <= i < segs.len() && (#[trigger] segs[i]).pos == q) ==> grid_tile(
                clear_tops(grid, segs),
                q,
            ) == (Tile { top: TopTileType::Nothing, bottom: grid_tile(grid, q).bottom }),
        forall|x: int, y: int|
            0 <= x < grid.len() && 0 <= y < grid[x].len() ==> (#[trigger] clear_tops(
                grid,
                segs,
            )[x][y] == grid[x][y] || clear_tops(grid, segs)[x][y] == (Tile {
                top: TopTileType::Nothing,
                bottom: grid[x][y].bottom,
            })),
    decreases segs.len(),
{
    if segs.len() > 0 {
        let s = segs.last();
        let g1 = clear_one(grid, s.pos);
        let d = segs.drop_last();
        lemma_clear_tops(g1, d);
        assert forall|q: GridPos| #[trigger] grid_in_bounds(grid, q) implies grid_in_bounds(
            g1,
            q,
        ) && grid_tile(g1, q).bottom == grid_tile(grid, q).bottom && (q != s.pos ==> grid_tile(
            g1,
            q,
        ) == grid_tile(grid, q)) by {}
        assert forall|q: GridPos|
            #[trigger] grid_in_bounds(grid, q) && !(exists|i: int|
                0 <= i < segs.len() && (#[trigger] segs[i]).pos == q) implies grid_tile(
            clear_tops(grid, segs),
            q,
        ) == grid_tile(grid, q) by {
            assert(forall|i: int| 0 <= i < d.len() ==> d[i] == segs[i]);
            assert(!(exists|i: int| 0 <= i < d.len() && (#[trigger] d[i]).pos == q));
            assert(s.pos != q) by {
                assert(segs[segs.len() - 1] == s);
            }
        }
        assert forall|q: GridPos|
            #[trigger] grid_in_bounds(grid, q) && (exists|i: int|
                0 <= i < segs.len() && (#[trigger] segs[i]).pos == q) implies grid_tile(
            clear_tops(grid, segs),
            q,
        ) == Tile { top: TopTileType::Nothing, bottom: grid_tile(grid, q).bottom } by {
            let i = choose|i: int| 0 <= i < segs.len() && (#[trigger] segs[i]).pos == q;
            if i < segs.len() - 1 {
                assert(d[i].pos == q);
                assert(exists|j: int| 0 <= j < d.len() && (#[trigger] d[j]).pos == q);
            } else {
                assert(s.pos == q);
                if exists|j: int| 0 <= j < d.len() && (#[trigger] d[j]).pos == q {
                    assert(grid_tile(clear_tops(g1, d), q) == Tile {
                        top: TopTileType::Nothing,
                        bottom: grid_tile(g1, q).bottom,
                    });
                } else {
                    assert(grid_tile(clear_tops(g1, d), q) == grid_tile(g1, q));
                }
            }
        }
    }
}

/// The chain after a rewind of `steps`: the `steps` most recent segments
/// are removed (fewer, if the chain is shorter), and the segment that was
/// at ordinal `steps` from the head, if any, becomes the live head.
pub open spec fn rewind_segments(segs: Seq<SnakeSegment>, steps: nat) -> Seq<SnakeSegment> {
    let n = segs.len();
    if steps < n {
        let kept = segs.take(n - steps);
        kept.update(kept.len() - 1, SnakeSegment { movable: true, ..kept.last() })
    } else {
        Seq::empty()
    }
}

/// The segments a rewind of `steps` removes: the `steps` most recent.
pub open spec fn rewind_removed(segs: Seq<SnakeSegment>, steps: nat) -> Seq<SnakeSegment> {
    let n = segs.len() as int;
    if steps < n {
        segs.subrange(n - steps, n)
    } else {
        segs
    }
}

/// The game state after a rewind of `steps`: the removed segments' tiles
/// are freed, the chain is truncated with the surviving head made movable
/// (none, if `steps` covers the whole chain), and the budgets are spent
/// unconditionally — one rewind from `total`, `steps` from `individual`,
/// however many segments actually existed.
pub open spec fn rewind_step(v: GameView, steps: nat) -> GameView {
    GameView {
        grid: clear_tops(v.grid, rewind_removed(v.segments, steps)),
        segments: rewind_segments(v.segments, steps),
        latched: v.latched,
        total: v.total - 1,
        individual: v.individual - steps,
    }
}

/// A rewind preserves the game invariant.
pub proof fn lemma_rewind_preserves_wf(v: GameView, steps: nat)
    requires
        wf_view(v),
    ensures
        wf_view(rewind_step(v, steps)),
{
    let w = rewind_step(v, steps);
    let n = v.segments.len() as int;
    let removed = rewind_removed(v.segments, steps);
    lemma_clear_tops(v.grid, removed);
    assert forall|x: int| 0 <= x < w.grid.len() implies #[trigger] w.grid[x].len()
        == w.grid[0].len() by {
        assert(w.grid[x].len() == v.grid[x].len());
        assert(w.grid[0].len() == v.grid[0].len());
    }
    assert forall|x: int, y: int|
        0 <= x < w.grid.len() && 0 <= y < w.grid[x].len() implies ((#[trigger] w.grid[x][y]).top
        is Door ==> w.grid[x][y].bottom is Nothing) by {
        assert(w.grid[x][y] == v.grid[x][y] || w.grid[x][y] == (Tile {
            top: TopTileType::Nothing,
            bottom: v.grid[x][y].bottom,
        }));
    }
    if steps < n {
        let kept = v.segments.take(n - steps);
        assert forall|i: int| 0 <= i < w.segments.len() implies grid_in_bounds(
            w.grid,
            (#[trigger] w.segments[i]).pos,
        ) && grid_tile(w.grid, w.segments[i].pos).top is Snake by {
            let q = w.segments[i].pos;
            assert(w.segments[i].pos == v.segments[i].pos);
            assert(grid_in_bounds(v.grid, q) && grid_tile(v.grid, q).top is Snake);
            if exists|j: int| 0 <= j < removed.len() && (#[trigger] removed[j]).pos == q {
                let j = choose|j: int| 0 <= j < removed.len() && (#[trigger] removed[j]).pos == q;
                assert(removed[j] == v.segments[n - steps + j]);
                assert(v.segments[i].pos != v.segments[n - steps + j].pos);
                assert(false);
            }
            assert(grid_tile(w.grid, q) == grid_tile(v.grid, q));
            assert(w.grid[q.x as int].len() == v.grid[q.x as int].len());
        }
    }
    assert forall|p: GridPos| #[trigger] w.latched.contains(p) implies grid_in_bounds(
        w.grid,
        p,
    ) by {
        assert(grid_in_bounds(v.grid, p));
        assert(w.grid[p.x as int].len() == v.grid[p.x as int].len());
    }
}

impl Game {
    /// A rewind of a decoded step count: destroys the `steps` most recent
    /// segments (clamped to the chain's length), frees their tiles, hands
    /// the movable marker to the segment at ordinal `steps` from the head
    /// if one remains — with `steps` past the chain's end no segment
    /// becomes movable and the chain is left headless — and spends the
    /// budgets unconditionally: `total` by one, `individual` by `steps`,
    /// even when `steps` exceeds the number of living segments. A rewind
    /// of 0 steps is a pure budget decrement that re-marks the head.
    pub fn cycle_snake(&mut self, steps: usize)
        requires
            wf_view(old(self)@),
            old(self)@.total - 1 >= isize::MIN,
            old(self)@.individual - steps >= isize::MIN,
            steps <= isize::MAX,
        ensures
            final(self)@ == rewind_step(old(self)@, steps as nat),
            wf_view(final(self)@),
    {
        let ghost v0 = self@;
        let ghost removed = rewind_removed(v0.segments, steps as nat);
        let n = self.segments.len();
        let k = if steps < n {
            steps
        } else {
            n
        };
        proof {
            assert(removed =~= v0.segments.subrange(n - k, n as int));
            assert(removed.take(k as int) =~= removed);
        }
        let mut j: usize = 0;
        while j < k
            invariant
                j <= k <= n,
                n == v0.segments.len(),
                k == if steps < n {
                    steps as int
                } else {
                    n as int
                },
                removed == rewind_removed(v0.segments, steps as nat),
                removed.len() == k,
                self.segments@ == v0.segments.take(n - j),
                self.latched@ == old(self).latched@,
                self.rewinds == old(self).rewinds,
                clear_tops(v0.grid, removed) == clear_tops(self.grid@, removed.take(k - j)),
            decreases k - j,
        {
            let ghost grid_before = self.grid@;
            let s = match self.segments.pop() {
                Option::Some(s) => s,
                Option::None => {
                    proof {
                        assert(false);
                    }
                    return;
                },
            };
            proof {
                assert(self.segments@ =~= v0.segments.take(n - j - 1));
                assert(s == v0.segments[n - 1 - j]);
                assert(removed.take(k - j).last() == removed[k - j - 1]);
                assert(removed[k - j - 1] == v0.segments[n - 1 - j]);
            }
            match self.grid.get(s.pos) {
                Option::Some(_) => {
                    self.grid.tile_mut(s.pos).top_removed();
                },
                Option::None => {},
            }
            proof {
                assert(self.grid@ =~~= clear_one(grid_before, s.pos));
                assert(removed.take(k - j).drop_last() =~= removed.take(k - j - 1));
                assert(clear_tops(grid_before, removed.take(k - j)) == clear_tops(
                    self.grid@,
                    removed.take(k - j - 1),
                ));
            }
            j += 1;
        }
        proof {
            assert(removed.take(0) =~= Seq::<SnakeSegment>::empty());
            assert(clear_tops(v0.grid, removed) == self.grid@);
        }
        // The surviving segment nearest the head, if any, becomes movable.
        if steps < n {
            let last_index = self.segments.len() - 1;
            proof {
                assert(self.segments@.len() == n - steps);
            }
            let head = &mut self.segments[last_index];
            head.movable = true;
        }
        // The budgets are spent unconditionally.
        self.rewinds.total = self.rewinds.total - 1;
        self.rewinds.individual = self.rewinds.individual - (steps as isize);
        proof {
            if steps < n {
                let kept = v0.segments.take(n - steps);
                assert(self.segments@ =~= kept.update(
                    kept.len() - 1,
                    SnakeSegment { movable: true, ..kept.last() },
                ));
            } else {
                assert(self.segments@ =~= Seq::<SnakeSegment>::empty());
            }
            assert(self@ =~~= rewind_step(v0, steps as nat));
            lemma_rewind_preserves_wf(v0, steps as nat);
        }
    }

    /// Processes a captured key buffer, as one game tick does: a buffer not
    /// yet ending in `Enter` is left to grow; a complete buffer is decoded
    /// and cleared, and a valid command rewinds the chain by the decoded
    /// step count. An invalid command is discarded with no effect on the
    /// game and no budget spent.
    pub fn handle_key_buffer(&mut self, buffer: &mut Vec<Key>) -> (r: Option<usize>)
        requires
            wf_view(old(self)@),
            old(self)@.total - 1 >= isize::MIN,
            old(self)@.individual - 100000000 >= isize::MIN,
        ensures
            wf_view(final(self)@),
            old(buffer)@.len() == 0 || !(old(buffer)@.last() == Key::Enter) ==> r is None
                && *final(self) == *old(self) && final(buffer)@ == old(buffer)@,
            old(buffer)@.len() > 0 && old(buffer)@.last() == Key::Enter ==> final(buffer)@
                == Seq::<Key>::empty() && (match r {
                Option::Some(steps) => command_valid(old(buffer)@) && steps
                    == spec_decode_command(old(buffer)@) && final(self)@ == rewind_step(
                    old(self)@,
                    steps as nat,
                ),
                Option::None => !command_valid(old(buffer)@) && *final(self) == *old(self),
            }),
    {
        let complete = match buffer.last() {
            Option::Some(k) => matches!(k, Key::Enter),
            Option::None => false,
        };
        if !complete {
            return Option::None;
        }
        let decoded = decode_rewind_command(buffer);
        buffer.clear();
        match decoded {
            Option::Some(steps) => {
                self.cycle_snake(steps);
                Option::Some(steps)
            },
            Option::None => Option::None,
        }
    }
}

} // verus!
