use vstd::prelude::*;
use crate::error::WorldError;
use crate::tiles::{Point, TileGrid, TileType, Tileable};

verus! {

/// The axis along which a corridor runs.
#[derive(Clone, Copy, Debug, PartialEq, Eq, Structural)]
pub enum CorridorType {
    Horizontal,
    Vertical,
}

/// A straight passage, one tile wide, that runs `length` cells from `start`
/// towards growing `x` (horizontal) or growing `y` (vertical).
#[derive(Clone, Copy, Debug, PartialEq, Eq)]
pub struct Corridor {
    pub start: Point,
    pub length: usize,
    pub direction: CorridorType,
}

impl Corridor {
    /// The corridor of `length` cells that leaves `start` along `direction`.
    pub fn new(start: Point, length: usize, direction: CorridorType) -> (corridor: Corridor)
        ensures
            corridor == (Corridor { start, length, direction }),
    {
        Corridor { start, length, direction }
    }

    /// The same corridor laid along `direction`.
    pub open spec fn along(&self, direction: CorridorType) -> Corridor {
        Corridor { start: self.start, length: self.length, direction }
    }

    /// Whether `(x, y)` is one of the floor cells of the corridor.
    pub open spec fn on_path(&self, x: int, y: int) -> bool {
        match self.direction {
            CorridorType::Horizontal => y == self.start.1 && self.start.0 <= x < self.start.0
                + self.length,
            CorridorType::Vertical => x == self.start.0 && self.start.1 <= y < self.start.1
                + self.length,
        }
    }

    /// Whether `(x, y)` touches a floor cell of the corridor from the side:
    /// from above or below a horizontal one, from the left or right of a
    /// vertical one.
    pub open spec fn beside_path(&self, x: int, y: int) -> bool {
        match self.direction {
            CorridorType::Horizontal => (y == self.start.1 - 1 || y == self.start.1 + 1)
                && self.start.0 <= x < self.start.0 + self.length,
            CorridorType::Vertical => (x == self.start.0 - 1 || x == self.start.0 + 1)
                && self.start.1 <= y < self.start.1 + self.length,
        }
    }

    /// What the cell at `(x, y)` holds after the corridor was painted, if it
    /// held `before`: the path becomes floor, and the cells beside it become
    /// wall where nothing was painted yet.
    pub open spec fn cell_after(&self, before: TileType, x: int, y: int) -> TileType {
        if self.on_path(x, y) {
            TileType::Floor
        } else if self.beside_path(x, y) && before == TileType::Empty {
            TileType::Wall
        } else {
            before
        }
    }

    /// A corridor fits a grid exactly if every cell of its path and every
    /// cell beside the path is a cell of the grid.
    pub proof fn lemma_fits_is_on_grid(self, side: nat)
        ensures
            self.fits(side) <==> forall|x: int, y: int|
                #![trigger self.on_path(x, y)]
                #![trigger self.beside_path(x, y)]
                self.on_path(x, y) || self.beside_path(x, y) ==> 0 <= x < side && 0 <= y < side,
    {
        if self.length > 0 {
            let (x, y) = (self.start.0 as int, self.start.1 as int);
            let last = self.length - 1;
            match self.direction {
                CorridorType::Horizontal => {
                    assert(self.beside_path(x, y - 1));
                    assert(self.beside_path(x + last, y + 1));
                },
                CorridorType::Vertical => {
                    assert(self.beside_path(x - 1, y));
                    assert(self.beside_path(x + 1, y + last));
                },
            }
        }
    }

    /// Paints the corridor along the `y` axis, whatever its own direction.
    pub fn tile_vertical(&self, grid: &mut TileGrid)
        requires
            old(grid).wf(),
            self.along(CorridorType::Vertical).fits(old(grid).side()),
        ensures
            final(grid).wf(),
            final(grid)@ == self.along(CorridorType::Vertical).painted(old(grid)@),
    {
        let ghost shape = self.along(CorridorType::Vertical);
        let ghost side = grid.side();
        proof {
            grid.lemma_side_fits_usize();
        }
        let x = self.start.0;
        if self.length == 0 {
            assert(grid@ =~~= shape.painted(old(grid)@));
            return ;
        }
        let endy = self.start.1 + self.length;
        let mut y = self.start.1;
        while y < endy
            invariant
                grid.wf(),
                grid.side() == side == old(grid).side(),
                side <= usize::MAX,
                old(grid).wf(),
                shape == self.along(CorridorType::Vertical),
                1 <= x,
                x + 1 < side,
                x == self.start.0,
                self.start.1 <= y <= endy <= side,
                endy == self.start.1 + self.length,
                forall|cx: int, cy: int|
                    0 <= cx < side && 0 <= cy < side ==> #[trigger] grid@[cy][cx] == if cy < y {
                        shape.cell_after(old(grid)@[cy][cx], cx, cy)
                    } else {
                        old(grid)@[cy][cx]
                    },
            decreases endy - y,
        {
            grid.set_empty_tile(x - 1, y, TileType::Wall);
            grid.set_tile(x, y, TileType::Floor);
            grid.set_empty_tile(x + 1, y, TileType::Wall);
            y += 1;
        }
        assert(grid@ =~~= shape.painted(old(grid)@));
    }

    /// Paints the corridor along the `x` axis, whatever its own direction.
    pub fn tile_horizontal(&self, grid: &mut TileGrid)
        requires
            old(grid).wf(),
            self.along(CorridorType::Horizontal).fits(old(grid).side()),
        ensures
            final(grid).wf(),
            final(grid)@ == self.along(CorridorType::Horizontal).painted(old(grid)@),
    {
        let ghost shape = self.along(CorridorType::Horizontal);
        let ghost side = grid.side();
        proof {
            grid.lemma_side_fits_usize();
        }
        let y = self.start.1;
        if self.length == 0 {
            assert(grid@ =~~= shape.painted(old(grid)@));
            return ;
        }
        let endx = self.start.0 + self.length;
        let mut x = self.start.0;
        while x < endx
            invariant
                grid.wf(),
                grid.side() == side == old(grid).side(),
                side <= usize::MAX,
                old(grid).wf(),
                shape == self.along(CorridorType::Horizontal),
                1 <= y,
                y + 1 < side,
                y == self.start.1,
                self.start.0 <= x <= endx <= side,
                endx == self.start.0 + self.length,
                forall|cx: int, cy: int|
                    0 <= cx < side && 0 <= cy < side ==> #[trigger] grid@[cy][cx] == if cx < x {
                        shape.cell_after(old(grid)@[cy][cx], cx, cy)
                    } else {
                        old(grid)@[cy][cx]
                    },
            decreases endx - x,
        {
            grid.set_empty_tile(x, y - 1, TileType::Wall);
            grid.set_tile(x, y, TileType::Floor);
            grid.set_empty_tile(x, y + 1, TileType::Wall);
            x += 1;
        }
        assert(grid@ =~~= shape.painted(old(grid)@));
    }

    /// Whether the corridor fits a grid of `side` rows and columns, decided
    /// without leaving `usize`.
    fn fits_grid(&self, side: usize) -> (ok: bool)
        ensures
            ok == self.fits(side as nat),
    {
        if self.length == 0 {
            return true;
        }
        let (along, across) = match self.direction {
            CorridorType::Horizontal => (self.start.0, self.start.1),
            CorridorType::Vertical => (self.start.1, self.start.0),
        };
        1 <= across && across < side && across + 1 < side && self.length <= side && along <= side
            - self.length
    }
}

impl Tileable for Corridor {
    /// A corridor without cells fits anywhere. Any other needs its path and
    /// the cells on both sides of it on the grid.
    open spec fn fits(&self, side: nat) -> bool {
        self.length == 0 || match self.direction {
            CorridorType::Horizontal => 1 <= self.start.1 && self.start.1 + 1 < side
                && self.start.0 + self.length <= side,
            CorridorType::Vertical => 1 <= self.start.0 && self.start.0 + 1 < side
                && self.start.1 + self.length <= side,
        }
    }

    open spec fn painted(&self, cells: Seq<Seq<TileType>>) -> Seq<Seq<TileType>> {
        Seq::new(
            cells.len(),
            |y: int| Seq::new(cells[y].len(), |x: int| self.cell_after(cells[y][x], x, y)),
        )
    }

    fn tile(&self, grid: &mut TileGrid) -> (res: Result<(), WorldError>) {
        if !self.fits_grid(grid.size()) {
            return Err(WorldError::OutOfBounds);
        }
        match self.direction {
            CorridorType::Horizontal => self.tile_horizontal(grid),
            CorridorType::Vertical => self.tile_vertical(grid),
        }
        Ok(())
    }
}

} // verus!
