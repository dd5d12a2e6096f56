use vstd::prelude::*;
use crate::error::WorldError;

verus! {

/// A grid position `(x, y)`; `x` counts columns and `y` counts rows.
pub type Point = (usize, usize);

/// What a single cell of the map holds.
#[derive(Clone, Copy, Debug, PartialEq, Eq, Structural)]
pub enum TileType {
    /// Nothing has been painted here yet.
    Empty,
    Wall,
    Corridor,
    Floor,
}

/// Whether a grid can have `size` cells a side: it has a cell, and its cells
/// can be counted in a `usize`.
pub open spec fn valid_size(size: nat) -> bool {
    0 < size && size * size <= usize::MAX
}

/// The cells of a grid with `size` rows of `size` cells, all unpainted.
pub open spec fn blank(size: nat) -> Seq<Seq<TileType>> {
    Seq::new(size, |y: int| Seq::new(size, |x: int| TileType::Empty))
}

/// Whether `cells` has as many cells in every row as it has rows.
pub open spec fn is_square(cells: Seq<Seq<TileType>>) -> bool {
    forall|y: int| 0 <= y < cells.len() ==> (#[trigger] cells[y]).len() == cells.len()
}

/// The positions `(x, y)` at which `cells` holds `tile`.
pub open spec fn cells_holding(cells: Seq<Seq<TileType>>, tile: TileType) -> Set<(int, int)> {
    Set::new(
        |c: (int, int)|
            0 <= c.1 < cells.len() && 0 <= c.0 < cells[c.1].len() && cells[c.1][c.0] == tile,
    )
}

/// The positions with a column from `x0` up to `x1` and a row from `y0` up to
/// `y1`, the upper bounds left out.
pub open spec fn rectangle(x0: int, x1: int, y0: int, y1: int) -> Set<(int, int)> {
    Set::new(|c: (int, int)| x0 <= c.0 < x1 && y0 <= c.1 < y1)
}

/// A rectangle that is one row high has as many cells as it has columns.
proof fn lemma_row_count(x0: int, x1: int, y: int)
    requires
        x0 <= x1,
    ensures
        rectangle(x0, x1, y, y + 1).finite(),
        rectangle(x0, x1, y, y + 1).len() == x1 - x0,
    decreases x1 - x0,
{
    if x0 == x1 {
        assert(rectangle(x0, x1, y, y + 1) =~= Set::empty());
    } else {
        lemma_row_count(x0, x1 - 1, y);
        assert(rectangle(x0, x1, y, y + 1) =~= rectangle(x0, x1 - 1, y, y + 1).insert((x1 - 1, y)));
    }
}

/// A rectangle has as many cells as its width times its height.
pub proof fn lemma_rectangle_count(x0: int, x1: int, y0: int, y1: int)
    requires
        x0 <= x1,
        y0 <= y1,
    ensures
        rectangle(x0, x1, y0, y1).finite(),
        rectangle(x0, x1, y0, y1).len() == (x1 - x0) * (y1 - y0),
    decreases y1 - y0,
{
    if y0 == y1 {
        assert(rectangle(x0, x1, y0, y1) =~= Set::empty());
        assert((x1 - x0) * (y1 - y0) == 0) by (nonlinear_arith)
            requires
                y1 - y0 == 0,
        ;
    } else {
        let below = rectangle(x0, x1, y0, y1 - 1);
        let row = rectangle(x0, x1, y1 - 1, y1);
        lemma_rectangle_count(x0, x1, y0, y1 - 1);
        lemma_row_count(x0, x1, y1 - 1);
        assert(rectangle(x0, x1, y0, y1) =~= below + row);
        vstd::set_lib::lemma_set_disjoint_lens(below, row);
        assert((x1 - x0) * (y1 - 1 - y0) + (x1 - x0) == (x1 - x0) * (y1 - y0)) by (nonlinear_arith);
    }
}

/// `cells` with the cell in column `x` of row `y` replaced by `tile`.
pub open spec fn with_cell(cells: Seq<Seq<TileType>>, x: int, y: int, tile: TileType) -> Seq<
    Seq<TileType>,
> {
    cells.update(y, cells[y].update(x, tile))
}

/// Something that can paint itself onto a grid.
pub trait Tileable {
    /// Whether every cell that the shape paints lies on a grid with `side`
    /// rows and columns.
    spec fn fits(&self, side: nat) -> bool;

    /// The cells of a grid after the shape was painted onto `cells`.
    spec fn painted(&self, cells: Seq<Seq<TileType>>) -> Seq<Seq<TileType>>;

    /// Paints the shape onto `grid`. A shape that does not fit is refused
    /// and leaves the grid as it was.
    fn tile(&self, grid: &mut TileGrid) -> (res: Result<(), WorldError>)
        requires
            old(grid).wf(),
        ensures
            final(grid).wf(),
            final(grid).side() == old(grid).side(),
            match res {
                Ok(_) => self.fits(old(grid).side()) && final(grid)@ == self.painted(old(grid)@),
                Err(error) => !self.fits(old(grid).side()) && error == WorldError::OutOfBounds
                    && final(grid)@ == old(grid)@,
            },
    ;
}

/// A square canvas of tiles. Its view is the sequence of its rows, so the
/// cell at `(x, y)` is `grid@[y][x]`.
pub struct TileGrid {
    grid: Vec<Vec<TileType>>,
}

impl View for TileGrid {
    type V = Seq<Seq<TileType>>;

    closed spec fn view(&self) -> Seq<Seq<TileType>> {
        Seq::new(self.grid.len() as nat, |y: int| self.grid[y]@)
    }
}

impl TileGrid {
    /// The grid is square.
    pub open spec fn wf(&self) -> bool {
        is_square(self@)
    }

    /// The number of rows, which is also the number of columns.
    pub open spec fn side(&self) -> nat {
        self@.len()
    }

    /// The tile in column `x` of row `y`.
    pub open spec fn at(&self, x: int, y: int) -> TileType {
        self@[y][x]
    }

    /// The side of a grid is a length in memory.
    pub proof fn lemma_side_fits_usize(&self)
        ensures
            self.side() <= usize::MAX,
    {
    }

    /// A grid of `size` by `size` unpainted cells. A grid without cells is
    /// refused, and so is one with more cells than a `usize` can count.
    pub fn new(size: usize) -> (res: Result<TileGrid, WorldError>)
        ensures
            match res {
                Ok(grid) => valid_size(size as nat) && grid.wf() && grid@ == blank(size as nat),
                Err(error) => !valid_size(size as nat) && error == WorldError::InvalidDimension,
            },
    {
        if size == 0 || size.checked_mul(size).is_none() {
            return Err(WorldError::InvalidDimension);
        }
        let mut grid: Vec<Vec<TileType>> = Vec::with_capacity(size);
        for y in 0..size
            invariant
                grid@.len() == y,
                forall|j: int| 0 <= j < y ==> (#[trigger] grid@[j])@ == Seq::new(
                    size as nat,
                    |x: int| TileType::Empty,
                ),
        {
            let mut row: Vec<TileType> = Vec::with_capacity(size);
            for x in 0..size
                invariant
                    row@.len() == x,
                    forall|i: int| 0 <= i < x ==> #[trigger] row@[i] == TileType::Empty,
            {
                row.push(TileType::Empty);
            }
            grid.push(row);
        }
        Ok(TileGrid { grid })
    }

    /// The side length of the grid.
    pub fn size(&self) -> (size: usize)
        ensures
            size == self.side(),
    {
        self.grid.len()
    }

    /// Overwrites the cell at `(x, y)` with `tile`, whatever it held.
    pub fn set_tile(&mut self, x: usize, y: usize, tile: TileType)
        requires
            old(self).wf(),
            x < old(self).side(),
            y < old(self).side(),
        ensures
            final(self).wf(),
            final(self)@ == with_cell(old(self)@, x as int, y as int, tile),
    {
        assert(self@[y as int] == self.grid[y as int]@);
        self.grid[y][x] = tile;
        assert(self@ =~= with_cell(old(self)@, x as int, y as int, tile));
    }

    /// Sets a tile if nothing lies underneath it: an unpainted cell takes
    /// `tile`, a painted one keeps what it holds.
    pub fn set_empty_tile(&mut self, x: usize, y: usize, tile: TileType)
        requires
            old(self).wf(),
            x < old(self).side(),
            y < old(self).side(),
        ensures
            final(self).wf(),
            old(self).at(x as int, y as int) == TileType::Empty ==> final(self)@ == with_cell(
                old(self)@,
                x as int,
                y as int,
                tile,
            ),
            old(self).at(x as int, y as int) != TileType::Empty ==> final(self)@ == old(self)@,
    {
        match self.grid[y][x] {
            TileType::Empty => self.set_tile(x, y, tile),
            _ => {},
        }
    }

    /// Read-only access to the rows of the grid.
    pub fn raw_data(&self) -> (rows: &Vec<Vec<TileType>>)
        ensures
            rows@.len() == self@.len(),
            forall|y: int| 0 <= y < rows@.len() ==> (#[trigger] rows@[y])@ == self@[y],
    {
        &self.grid
    }
}

} // verus!
