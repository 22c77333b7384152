//! The grid of tiles: positions, the two layers of a tile, and the
//! bounds-checked rectangular map.

use vstd::prelude::*;

verus! {

/// A cell coordinate: `x` selects the column, `y` the row, with `y` growing
/// upward (row 0 is the bottom row of the map text).
#[derive(Debug, Clone, Copy, PartialEq, Eq, Structural)]
pub struct GridPos {
    pub x: usize,
    pub y: usize,
}

/// The occupancy layer of a tile. A tile whose top is anything but
/// `Nothing` blocks movement.
#[derive(Debug, Clone, Copy, PartialEq, Eq, Structural)]
pub enum TopTileType {
    Snake,
    Wall,
    Door(char),
    Nothing,
}

/// The effect layer of a tile, independent of the occupancy layer.
#[derive(Debug, Clone, PartialEq, Eq)]
pub enum BottomTileType {
    PressurePlate(char),
    Exit,
    Spike,
    TextHint(Vec<char>),
    AntiDoor(char),
    Nothing,
}

/// One cell of the map: an occupancy layer over an effect layer.
#[derive(Debug, Clone, PartialEq, Eq)]
pub struct Tile {
    pub top: TopTileType,
    pub bottom: BottomTileType,
}

/// An outbound event emitted by a grid mutation, to be reacted to by the
/// caller: the mutation and its consequence are decoupled.
#[derive(Debug, Clone, PartialEq, Eq)]
pub enum GameEvent {
    /// A snake segment settled on a pressure plate of the given channel at
    /// the given position.
    PressurePlateActivated(char, GridPos),
    /// A snake segment settled on the exit tile.
    GameWinTrigger,
}

/// The events that entering a tile with the given effect layer emits.
pub open spec fn spec_enter_events(bottom: BottomTileType, pos: GridPos) -> Seq<GameEvent> {
    match bottom {
        BottomTileType::PressurePlate(channel) => seq![
            GameEvent::PressurePlateActivated(channel, pos),
        ],
        BottomTileType::Exit => seq![GameEvent::GameWinTrigger],
        _ => Seq::empty(),
    }
}

impl Tile {
    /// An absent layer defaults to its empty value.
    pub fn new(top: Option<TopTileType>, bottom: Option<BottomTileType>) -> (r: Tile)
        ensures
            r.top == (match top {
                Option::Some(t) => t,
                Option::None => TopTileType::Nothing,
            }),
            r.bottom == (match bottom {
                Option::Some(b) => b,
                Option::None => BottomTileType::Nothing,
            }),
    {
        Tile {
            top: match top {
                Option::Some(t) => t,
                Option::None => TopTileType::Nothing,
            },
            bottom: match bottom {
                Option::Some(b) => b,
                Option::None => BottomTileType::Nothing,
            },
        }
    }

    /// True unless the occupancy layer is empty; an occupied tile blocks
    /// movement, whatever occupies it.
    pub fn is_occupied(&self) -> (r: bool)
        ensures
            r == !(self.top is Nothing),
    {
        !matches!(self.top, TopTileType::Nothing)
    }

    /// A snake segment settles on this tile: the occupancy layer becomes
    /// `Snake`, and the effect layer may emit an event (a plate activation or
    /// the win trigger), which the caller dispatches.
    pub fn snake_passes(&mut self, pos: GridPos) -> (events: Vec<GameEvent>)
        ensures
            final(self).top == TopTileType::Snake,
            final(self).bottom == old(self).bottom,
            events@ == spec_enter_events(old(self).bottom, pos),
    {
        self.top = TopTileType::Snake;
        let mut events: Vec<GameEvent> = Vec::new();
        match &self.bottom {
            BottomTileType::PressurePlate(channel) => {
                events.push(GameEvent::PressurePlateActivated(*channel, pos));
            },
            BottomTileType::Exit => {
                events.push(GameEvent::GameWinTrigger);
            },
            _ => {},
        }
        assert(events@ =~= spec_enter_events(old(self).bottom, pos));
        events
    }

    /// The segment occupying this tile is destroyed: the occupancy layer is
    /// cleared, the effect layer kept.
    pub fn top_removed(&mut self)
        ensures
            final(self).top == TopTileType::Nothing,
            final(self).bottom == old(self).bottom,
    {
        self.top = TopTileType::Nothing;
    }

    /// A latent door materialises: the tile becomes a solid door of the given
    /// channel and its effect layer is cleared.
    pub fn upgrade_to_door(&mut self, door: char)
        ensures
            final(self).top == TopTileType::Door(door),
            final(self).bottom == BottomTileType::Nothing,
    {
        self.top = TopTileType::Door(door);
        self.bottom = BottomTileType::Nothing;
    }
}

/// A rectangular grid of tiles is a non-empty sequence of non-empty columns
/// of one shared length.
pub open spec fn grid_wf(tiles: Seq<Seq<Tile>>) -> bool {
    &&& tiles.len() > 0
    &&& tiles[0].len() > 0
    &&& forall|x: int| 0 <= x < tiles.len() ==> #[trigger] tiles[x].len() == tiles[0].len()
}

/// Whether `pos` addresses a cell of the grid.
pub open spec fn grid_in_bounds(tiles: Seq<Seq<Tile>>, pos: GridPos) -> bool {
    pos.x < tiles.len() && pos.y < tiles[pos.x as int].len()
}

/// The tile at `pos`.
pub open spec fn grid_tile(tiles: Seq<Seq<Tile>>, pos: GridPos) -> Tile {
    tiles[pos.x as int][pos.y as int]
}

/// The grid with the tile at `pos` replaced by `t`.
pub open spec fn grid_update(tiles: Seq<Seq<Tile>>, pos: GridPos, t: Tile) -> Seq<Seq<Tile>> {
    tiles.update(pos.x as int, tiles[pos.x as int].update(pos.y as int, t))
}

/// Door tiles carry no effect layer: a solid door and a latent anti-door
/// never share a cell. Maps produced by the loader satisfy this, and every
/// engine preserves it.
pub open spec fn doors_clean(tiles: Seq<Seq<Tile>>) -> bool {
    forall|x: int, y: int|
        0 <= x < tiles.len() && 0 <= y < tiles[x].len() ==> ((#[trigger] tiles[x][y]).top
            is Door ==> tiles[x][y].bottom is Nothing)
}

/// The rectangular map of tiles, indexed column-first: the tile at `pos`
/// is column `pos.x`, row `pos.y`. The shape is fixed at construction.
#[derive(Debug, Clone, PartialEq, Eq)]
pub struct GameMap {
    tiles: Vec<Vec<Tile>>,
}

impl View for GameMap {
    type V = Seq<Seq<Tile>>;

    closed spec fn view(&self) -> Seq<Seq<Tile>> {
        self.tiles@.map_values(|column: Vec<Tile>| column@)
    }
}

impl GameMap {
    /// A well-shaped map: non-empty and rectangular.
    pub open spec fn wf(&self) -> bool {
        grid_wf(self@)
    }

    pub open spec fn spec_width(&self) -> int {
        self@.len() as int
    }

    pub open spec fn spec_height(&self) -> int {
        self@[0].len() as int
    }

    /// Wraps a column-first tile matrix; `None` if it is empty or ragged.
    pub fn new(tiles: Vec<Vec<Tile>>) -> (r: Option<GameMap>)
        ensures
            r is Some <==> grid_wf(tiles@.map_values(|column: Vec<Tile>| column@)),
            r is Some ==> r->0@ == tiles@.map_values(|column: Vec<Tile>| column@),
    {
        if tiles.len() == 0 || tiles[0].len() == 0 {
            return Option::None;
        }
        let height = tiles[0].len();
        let mut x: usize = 0;
        while x < tiles.len()
            invariant
                height == tiles@[0]@.len(),
                x <= tiles@.len(),
                forall|i: int| 0 <= i < x ==> #[trigger] tiles@[i]@.len() == height,
            decreases tiles@.len() - x,
        {
            if tiles[x].len() != height {
                proof {
                    let mapped = tiles@.map_values(|column: Vec<Tile>| column@);
                    assert(mapped[x as int].len() != mapped[0].len());
                }
                return Option::None;
            }
            x += 1;
        }
        let r = GameMap { tiles };
        assert(r@ =~= r.tiles@.map_values(|column: Vec<Tile>| column@));
        Option::Some(r)
    }

    /// The number of columns.
    pub fn width(&self) -> (r: usize)
        ensures
            r == self.spec_width(),
    {
        self.tiles.len()
    }

    /// The number of rows.
    pub fn height(&self) -> (r: usize)
        requires
            self.wf(),
        ensures
            r == self.spec_height(),
    {
        self.tiles[0].len()
    }

    /// The number of rows of one column.
    pub fn column_height(&self, x: usize) -> (r: usize)
        requires
            x < self@.len(),
        ensures
            r == self@[x as int].len(),
    {
        self.tiles[x].len()
    }

    /// Bounds-checked lookup: `None` on an out-of-range position, which the
    /// caller treats as "no tile" — never a fatal error.
    pub fn get(&self, pos: GridPos) -> (r: Option<&Tile>)
        ensures
            r is Some <==> grid_in_bounds(self@, pos),
            r is Some ==> *r->0 == grid_tile(self@, pos),
    {
        if pos.x < self.tiles.len() {
            let column = &self.tiles[pos.x];
            if pos.y < column.len() {
                return Option::Some(&column[pos.y]);
            }
        }
        Option::None
    }

    /// Mutable access to the tile at an in-range position.
    pub(crate) fn tile_mut(&mut self, pos: GridPos) -> (r: &mut Tile)
        requires
            grid_in_bounds(old(self)@, pos),
        ensures
            *r == grid_tile(old(self)@, pos),
            final(self)@ =~= grid_update(old(self)@, pos, *final(r)),
    {
        let column = &mut self.tiles[pos.x];
        &mut column[pos.y]
    }
}

} // verus!
