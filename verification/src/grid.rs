//! The battle grid: a fixed rectangle of tiles, each with a height, a terrain
//! kind and the ids of the units standing on it.

use vstd::prelude::*;
use crate::pos::Pos;

verus! {

/// Terrain of a tile.
#[derive(Clone, Copy, Debug, PartialEq, Eq, Structural)]
pub enum TileType {
    Grass,
}

/// The longest side a grid may have. With this bound every distance and
/// every path cost on a grid fits in `usize`.
pub const MAX_SIDE: usize = 16384;

/// One tile of the grid.
pub struct Tile {
    pub height: usize,
    pub kind: TileType,
    pub occupants: Vec<usize>,
}

/// What a tile holds, as plain values.
pub struct TileView {
    pub height: usize,
    pub kind: TileType,
    pub occupants: Seq<usize>,
}

impl View for Tile {
    type V = TileView;

    open spec fn view(&self) -> TileView {
        TileView { height: self.height, kind: self.kind, occupants: self.occupants@ }
    }
}

/// What a grid holds: its sides and the tile at each coordinate inside them.
pub struct GridView {
    pub width: nat,
    pub height: nat,
    pub tiles: Map<Pos, TileView>,
}

impl GridView {
    /// The coordinate lies on the grid.
    pub open spec fn in_bounds(self, p: Pos) -> bool {
        p.x < self.width && p.y < self.height
    }

    /// The ids of the units on tile `p`, in the order they came.
    pub open spec fn occupants(self, p: Pos) -> Seq<usize> {
        self.tiles[p].occupants
    }

    /// Some unit stands on tile `p`.
    pub open spec fn occupied(self, p: Pos) -> bool {
        self.in_bounds(p) && self.occupants(p).len() > 0
    }

    /// The grid has a tile for exactly the coordinates inside its sides, and
    /// its sides are within `MAX_SIDE`.
    pub open spec fn wf(self) -> bool {
        &&& self.width <= MAX_SIDE
        &&& self.height <= MAX_SIDE
        &&& forall|p: Pos| #[trigger] self.tiles.dom().contains(p) <==> self.in_bounds(p)
    }

    /// Nobody stands on any tile of the grid.
    pub open spec fn empty(self) -> bool {
        forall|p: Pos| self.in_bounds(p) ==> (#[trigger] self.occupants(p)).len() == 0
    }

    /// The grid with the occupants of tile `p` replaced.
    pub open spec fn with_occupants(self, p: Pos, ids: Seq<usize>) -> GridView {
        GridView {
            tiles: self.tiles.insert(
                p,
                TileView { occupants: ids, ..self.tiles[p] },
            ),
            ..self
        }
    }

    /// A grid of the given sides where every tile has height 1, is grass and
    /// is empty.
    pub open spec fn blank(width: nat, height: nat) -> GridView {
        GridView {
            width,
            height,
            tiles: Map::new(
                |p: Pos| p.x < width && p.y < height,
                |p: Pos| TileView { height: 1, kind: TileType::Grass, occupants: Seq::empty() },
            ),
        }
    }
}

/// The battle grid. `tiles[x][y]` is the tile at column `x`, row `y`.
pub struct Grid {
    pub(crate) tiles: Vec<Vec<Tile>>,
    pub(crate) width: usize,
    pub(crate) height: usize,
}

impl View for Grid {
    type V = GridView;

    open(crate) spec fn view(&self) -> GridView {
        GridView {
            width: self.width as nat,
            height: self.height as nat,
            tiles: Map::new(
                |p: Pos| p.x < self.width && p.y < self.height,
                |p: Pos| self.tiles@[p.x as int]@[p.y as int]@,
            ),
        }
    }
}

impl Grid {
    /// The grid is a rectangle of `width` columns of `height` tiles each.
    pub open(crate) spec fn wf(&self) -> bool {
        &&& self.width <= MAX_SIDE
        &&& self.height <= MAX_SIDE
        &&& self.tiles@.len() == self.width
        &&& forall|x: int| 0 <= x < self.width ==> (#[trigger] self.tiles@[x])@.len() == self.height
    }

    /// A well-formed grid has a well-formed view.
    pub proof fn lemma_view_wf(&self)
        requires
            self.wf(),
        ensures
            self@.wf(),
    {
    }

    /// Builds a blank grid, or `None` when a side is longer than `MAX_SIDE`.
    pub fn new(width: usize, height: usize) -> (r: Option<Grid>)
        ensures
            r.is_some() <==> width <= MAX_SIDE && height <= MAX_SIDE,
            r.is_some() ==> r.unwrap().wf() && r.unwrap()@ == GridView::blank(
                width as nat,
                height as nat,
            ),
    {
        if width > MAX_SIDE || height > MAX_SIDE {
            return None;
        }
        let mut tiles: Vec<Vec<Tile>> = Vec::new();
        let mut x: usize = 0;
        while x < width
            invariant
                x <= width,
                tiles@.len() == x,
                forall|i: int| 0 <= i < x ==> (#[trigger] tiles@[i])@.len() == height,
                forall|i: int, j: int|
                    0 <= i < x && 0 <= j < height ==> (#[trigger] tiles@[i]@[j])@ == (TileView {
                        height: 1,
                        kind: TileType::Grass,
                        occupants: Seq::empty(),
                    }),
            decreases width - x,
        {
            let mut column: Vec<Tile> = Vec::new();
            let mut y: usize = 0;
            while y < height
                invariant
                    y <= height,
                    column@.len() == y,
                    forall|j: int|
                        0 <= j < y ==> (#[trigger] column@[j])@ == (TileView {
                            height: 1,
                            kind: TileType::Grass,
                            occupants: Seq::empty(),
                        }),
                decreases height - y,
            {
                column.push(Tile { height: 1, kind: TileType::Grass, occupants: Vec::new() });
                y = y + 1;
            }
            tiles.push(column);
            x = x + 1;
        }
        let grid = Grid { tiles, width, height };
        assert(grid@.tiles =~= GridView::blank(width as nat, height as nat).tiles);
        Some(grid)
    }

    /// Number of columns.
    pub fn width(&self) -> (w: usize)
        ensures
            w == self@.width,
    {
        self.width
    }

    /// Number of rows.
    pub fn height(&self) -> (h: usize)
        ensures
            h == self@.height,
    {
        self.height
    }

    /// Whether the coordinate lies on the grid.
    pub fn in_bounds(&self, p: Pos) -> (r: bool)
        ensures
            r == self@.in_bounds(p),
    {
        p.x < self.width && p.y < self.height
    }

    /// Whether a unit stands on tile `p`. A coordinate off the grid holds
    /// nobody.
    pub fn is_occupied(&self, p: Pos) -> (r: bool)
        requires
            self.wf(),
        ensures
            r == self@.occupied(p),
    {
        if p.x < self.width && p.y < self.height {
            self.tiles[p.x][p.y].occupants.len() > 0
        } else {
            false
        }
    }

    /// The ids of the units on tile `p`; none for a coordinate off the grid.
    pub fn occupants(&self, p: Pos) -> (ids: Vec<usize>)
        requires
            self.wf(),
        ensures
            ids@ == if self@.in_bounds(p) {
                self@.occupants(p)
            } else {
                Seq::empty()
            },
    {
        if p.x < self.width && p.y < self.height {
            self.tiles[p.x][p.y].occupants.clone()
        } else {
            Vec::new()
        }
    }

    /// The unit that stands first on tile `p`.
    pub fn first_occupant(&self, p: Pos) -> (id: Option<usize>)
        requires
            self.wf(),
        ensures
            id == if self@.occupied(p) {
                Some(self@.occupants(p)[0])
            } else {
                None
            },
    {
        if p.x < self.width && p.y < self.height && self.tiles[p.x][p.y].occupants.len() > 0 {
            Some(self.tiles[p.x][p.y].occupants[0])
        } else {
            None
        }
    }

    /// Whether no unit stands anywhere on the grid.
    pub fn is_empty(&self) -> (r: bool)
        requires
            self.wf(),
        ensures
            r == self@.empty(),
    {
        let mut x: usize = 0;
        while x < self.width
            invariant
                self.wf(),
                x <= self.width,
                forall|p: Pos|
                    p.x < x && p.y < self.height ==> (#[trigger] self@.occupants(p)).len() == 0,
            decreases self.width - x,
        {
            let mut y: usize = 0;
            while y < self.height
                invariant
                    self.wf(),
                    x < self.width,
                    y <= self.height,
                    forall|p: Pos|
                        p.x < x && p.y < self.height ==> (#[trigger] self@.occupants(p)).len()
                            == 0,
                    forall|p: Pos|
                        p.x == x && p.y < y ==> (#[trigger] self@.occupants(p)).len() == 0,
                decreases self.height - y,
            {
                if self.tiles[x][y].occupants.len() > 0 {
                    assert(self@.occupants(Pos { x, y }).len() > 0);
                    return false;
                }
                y = y + 1;
            }
            x = x + 1;
        }
        true
    }

    /// The height layer of tile `p`.
    pub fn tile_height(&self, p: Pos) -> (h: usize)
        requires
            self.wf(),
            self@.in_bounds(p),
        ensures
            h == self@.tiles[p].height,
    {
        self.tiles[p.x][p.y].height
    }

    /// Puts unit `id` on tile `p`, behind those already there.
    pub fn push_occupant(&mut self, p: Pos, id: usize)
        requires
            old(self).wf(),
            old(self)@.in_bounds(p),
        ensures
            final(self).wf(),
            final(self)@ == old(self)@.with_occupants(p, old(self)@.occupants(p).push(id)),
    {
        self.tiles[p.x][p.y].occupants.push(id);
        assert(self@.tiles =~= old(self)@.with_occupants(
            p,
            old(self)@.occupants(p).push(id),
        ).tiles);
    }

    /// Takes the unit that came last off tile `p` and returns its id; an
    /// empty tile stays as it is.
    pub fn pop_occupant(&mut self, p: Pos) -> (id: Option<usize>)
        requires
            old(self).wf(),
            old(self)@.in_bounds(p),
        ensures
            final(self).wf(),
            old(self)@.occupied(p) ==> id == Some(old(self)@.occupants(p).last()) && final(self)@
                == old(self)@.with_occupants(p, old(self)@.occupants(p).drop_last()),
            !old(self)@.occupied(p) ==> id.is_none() && final(self)@ == old(self)@,
    {
        let id = self.tiles[p.x][p.y].occupants.pop();
        proof {
            if old(self)@.occupied(p) {
                assert(self@.tiles =~= old(self)@.with_occupants(
                    p,
                    old(self)@.occupants(p).drop_last(),
                ).tiles);
            } else {
                assert(self@.tiles =~= old(self)@.tiles);
            }
        }
        id
    }

    /// Takes the unit that stands first off tile `p` and returns its id; an
    /// empty tile stays as it is.
    pub fn remove_first_occupant(&mut self, p: Pos) -> (id: Option<usize>)
        requires
            old(self).wf(),
            old(self)@.in_bounds(p),
        ensures
            final(self).wf(),
            old(self)@.occupied(p) ==> id == Some(old(self)@.occupants(p)[0]) && final(self)@
                == old(self)@.with_occupants(p, old(self)@.occupants(p).drop_first()),
            !old(self)@.occupied(p) ==> id.is_none() && final(self)@ == old(self)@,
    {
        if self.tiles[p.x][p.y].occupants.len() == 0 {
            return None;
        }
        let id = self.tiles[p.x][p.y].occupants.remove(0);
        proof {
            assert(old(self)@.occupants(p).remove(0) =~= old(self)@.occupants(p).drop_first());
            assert(self@.tiles =~= old(self)@.with_occupants(
                p,
                old(self)@.occupants(p).drop_first(),
            ).tiles);
        }
        Some(id)
    }
}

} // verus!
