//! The spike strike: when spikes are out, every segment standing on a spike
//! tile dies and frees its tile. The timing of strikes is presentational
//! and left to the caller; this engine performs one strike.

use vstd::prelude::*;

use crate::grid::{BottomTileType, GridPos, Tile, grid_in_bounds, grid_tile};
use crate::rewind::{clear_tops, lemma_clear_tops};
use crate::snake::{Game, GameView, SnakeSegment, lemma_filter_preserves_chain_wf, wf_view};

verus! {

/// A segment survives a spike strike unless its cell's effect layer is a
/// spike.
pub open spec fn spike_survives(grid: Seq<Seq<Tile>>, s: SnakeSegment) -> bool {
    !(grid_in_bounds(grid, s.pos) && grid_tile(grid, s.pos).bottom is Spike)
}

/// The survival test as a predicate on segments, for a fixed grid.
pub open spec fn spike_survives_pred(grid: Seq<Seq<Tile>>) -> spec_fn(SnakeSegment) -> bool {
    |s: SnakeSegment| spike_survives(grid, s)
}

/// The complement: the segments a strike kills.
pub open spec fn spike_doomed_pred(grid: Seq<Seq<Tile>>) -> spec_fn(SnakeSegment) -> bool {
    |s: SnakeSegment| !spike_survives(grid, s)
}

/// The game state after one spike strike: the segments on spike tiles are
/// removed and their tiles freed; everything else, the budgets included,
/// is untouched.
pub open spec fn spike_step(v: GameView) -> GameView {
    GameView {
        grid: clear_tops(v.grid, v.segments.filter(spike_doomed_pred(v.grid))),
        segments: v.segments.filter(spike_survives_pred(v.grid)),
        latched: v.latched,
        total: v.total,
        individual: v.individual,
    }
}

/// A spike strike preserves the game invariant.
pub proof fn lemma_spike_preserves_wf(v: GameView)
    requires
        wf_view(v),
    ensures
        wf_view(spike_step(v)),
{
    let w = spike_step(v);
    let killed = v.segments.filter(spike_doomed_pred(v.grid));
    lemma_filter_preserves_chain_wf(v.segments, spike_survives_pred(v.grid));
    lemma_filter_preserves_chain_wf(v.segments, spike_doomed_pred(v.grid));
    lemma_clear_tops(v.grid, killed);
    assert forall|x: int| 0 <= x < w.grid.len() implies #[trigger] w.grid[x].len()
        == w.grid[0].len() by {
        assert(w.grid[x].len() == v.grid[x].len());
        assert(w.grid[0].len() == v.grid[0].len());
    }
    assert forall|x: int, y: int|
        0 <= x < w.grid.len() && 0 <= y < w.grid[x].len() implies ((#[trigger] w.grid[x][y]).top
        is Door ==> w.grid[x][y].bottom is Nothing) by {
        assert(w.grid[x][y] == v.grid[x][y] || w.grid[x][y] == (Tile {
            top: crate::grid::TopTileType::Nothing,
            bottom: v.grid[x][y].bottom,
        }));
    }
    assert forall|i: int| 0 <= i < w.segments.len() implies grid_in_bounds(
        w.grid,
        (#[trigger] w.segments[i]).pos,
    ) && grid_tile(w.grid, w.segments[i].pos).top is Snake by {
        let s = w.segments[i];
        let q = s.pos;
        assert(v.segments.contains(s) && spike_survives_pred(v.grid)(s));
        let si = choose|si: int| 0 <= si < v.segments.len() && v.segments[si] == s;
        assert(grid_in_bounds(v.grid, q) && grid_tile(v.grid, q).top is Snake);
        if exists|j: int| 0 <= j < killed.len() && (#[trigger] killed[j]).pos == q {
            let j = choose|j: int| 0 <= j < killed.len() && (#[trigger] killed[j]).pos == q;
            assert(v.segments.contains(killed[j]) && spike_doomed_pred(v.grid)(killed[j]));
            let kj = choose|kj: int| 0 <= kj < v.segments.len() && v.segments[kj] == killed[j];
            if si != kj {
                assert(v.segments[si].pos != v.segments[kj].pos);
            }
            assert(false);
        }
        assert(grid_tile(w.grid, q) == grid_tile(v.grid, q));
        assert(w.grid[q.x as int].len() == v.grid[q.x as int].len());
    }
    assert forall|p: GridPos| #[trigger] w.latched.contains(p) implies grid_in_bounds(
        w.grid,
        p,
    ) by {
        assert(grid_in_bounds(v.grid, p));
        assert(w.grid[p.x as int].len() == v.grid[p.x as int].len());
    }
}

impl Game {
    /// One spike strike: kills every living segment whose tile holds a
    /// spike, freeing its tile; returns how many segments died. Killing
    /// the head leaves the chain headless, which the game-over observer
    /// detects. Budgets, plates and every other tile are untouched.
    pub fn activate_spike(&mut self) -> (killed: usize)
        ensures
            final(self)@ == spike_step(old(self)@),
            killed == old(self)@.segments.len() - final(self)@.segments.len(),
            wf_view(old(self)@) ==> wf_view(final(self)@),
    {
        let ghost v0 = self@;
        let ghost g0 = self@.grid;
        let ghost surv = spike_survives_pred(g0);
        let ghost doom = spike_doomed_pred(g0);
        let mut survivors: Vec<SnakeSegment> = Vec::new();
        let mut killed_segs: Vec<SnakeSegment> = Vec::new();
        let mut i: usize = 0;
        while i < self.segments.len()
            invariant
                self.grid@ == g0,
                self.latched@ == old(self).latched@,
                self.rewinds == old(self).rewinds,
                self.segments@ == v0.segments,
                i <= v0.segments.len(),
                surv == spike_survives_pred(g0),
                doom == spike_doomed_pred(g0),
                survivors@ == v0.segments.take(i as int).filter(surv),
                killed_segs@ == v0.segments.take(i as int).filter(doom),
                survivors@.len() + killed_segs@.len() == i,
            decreases v0.segments.len() - i,
        {
            let s = self.segments[i];
            let doomed = match self.grid.get(s.pos) {
                Option::Some(t) => matches!(t.bottom, BottomTileType::Spike),
                Option::None => false,
            };
            proof {
                reveal(Seq::filter);
                let pre = v0.segments.take(i as int);
                let cur = v0.segments.take(i + 1);
                assert(cur.drop_last() =~= pre);
                assert(cur.last() == s);
            }
            if doomed {
                killed_segs.push(s);
            } else {
                survivors.push(s);
            }
            i += 1;
        }
        proof {
            assert(v0.segments.take(v0.segments.len() as int) =~= v0.segments);
        }
        self.segments = survivors;
        let killed = killed_segs.len();
        // Free the tiles of the killed segments, most recent first.
        let ghost removed = v0.segments.filter(doom);
        let k = killed_segs.len();
        let mut j: usize = 0;
        proof {
            assert(removed.take(k as int) =~= removed);
        }
        while j < k
            invariant
                j <= k,
                k == removed.len(),
                killed_segs@ == removed.take(k - j),
                self.segments@ == v0.segments.filter(spike_survives_pred(g0)),
                self.latched@ == old(self).latched@,
                self.rewinds == old(self).rewinds,
                clear_tops(g0, removed) == clear_tops(self.grid@, removed.take(k - j)),
            decreases k - j,
        {
            let ghost grid_before = self.grid@;
            let s = match killed_segs.pop() {
                Option::Some(s) => s,
                Option::None => {
                    proof {
                        assert(false);
                    }
                    return 0;
                },
            };
            proof {
                assert(s == removed.take(k - j).last());
            }
            match self.grid.get(s.pos) {
                Option::Some(_) => {
                    self.grid.tile_mut(s.pos).top_removed();
                },
                Option::None => {},
            }
            proof {
                assert(self.grid@ =~~= crate::rewind::clear_one(grid_before, s.pos));
                assert(removed.take(k - j).drop_last() =~= removed.take(k - j - 1));
                assert(killed_segs@ =~= removed.take(k - j - 1));
                assert(clear_tops(grid_before, removed.take(k - j)) == clear_tops(
                    self.grid@,
                    removed.take(k - j - 1),
                ));
            }
            j += 1;
        }
        proof {
            assert(removed.take(0) =~= Seq::<SnakeSegment>::empty());
            assert(self@ =~~= spike_step(v0));
            if wf_view(v0) {
                lemma_spike_preserves_wf(v0);
            }
        }
        killed
    }
}

} // verus!
