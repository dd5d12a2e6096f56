use vstd::prelude::*;
use crate::error::WorldError;
use crate::tiles::{
    blank, cells_holding, is_square, lemma_rectangle_count, rectangle, Point, TileGrid, TileType,
    Tileable,
};

verus! {

/// The step `(dx, dy)` towards smaller `x`.
pub const LEFT: (i8, i8) = (-1i8, 0);

/// The step `(dx, dy)` towards greater `x`.
pub const RIGHT: (i8, i8) = (1i8, 0);

/// The step `(dx, dy)` towards smaller `y`, the top of the map.
pub const UP: (i8, i8) = (0, -1i8);

/// The step `(dx, dy)` towards greater `y`, the bottom of the map.
pub const DOWN: (i8, i8) = (0, 1i8);

/// The midpoint of `a` and `b` on one axis, rounded down.
pub open spec fn midpoint(a: int, b: int) -> int {
    (a + b) / 2
}

/// One side of a room: where it starts and ends, the point halfway between,
/// and the direction in which a corridor would leave it.
#[derive(Clone, Copy, Debug)]
pub struct RoomEdge {
    pub start: Point,
    pub mid_point: Point,
    pub end: Point,
    pub corridor_dir: (i8, i8),
}

impl RoomEdge {
    /// The edge that [`RoomEdge::new`] builds.
    pub open spec fn spec_new(start: Point, end: Point, corridor_dir: (i8, i8)) -> RoomEdge {
        RoomEdge {
            start,
            end,
            mid_point: (
                midpoint(start.0 as int, end.0 as int) as usize,
                midpoint(start.1 as int, end.1 as int) as usize,
            ),
            corridor_dir,
        }
    }

    /// The edge from `start` to `end` that faces `corridor_dir`. Its
    /// midpoint is the mean of the two ends on each axis, rounded down.
    pub fn new(start: Point, end: Point, corridor_dir: (i8, i8)) -> (edge: RoomEdge)
        ensures
            edge == RoomEdge::spec_new(start, end, corridor_dir),
            edge.mid_point.0 == midpoint(start.0 as int, end.0 as int),
            edge.mid_point.1 == midpoint(start.1 as int, end.1 as int),
    {
        RoomEdge {
            start,
            end,
            mid_point: (halfway(start.0, end.0), halfway(start.1, end.1)),
            corridor_dir,
        }
    }
}

/// The midpoint of two coordinates, computed without leaving `usize`.
fn halfway(a: usize, b: usize) -> (mid: usize)
    ensures
        mid == midpoint(a as int, b as int),
{
    a / 2 + b / 2 + (a % 2 + b % 2) / 2
}

/// A rectangular room. `start` is its top-left corner; the wall ring runs
/// from `start` to `start + (width, height)`. The centre and the four edges
/// follow from these three.
#[derive(Clone, Copy, Debug)]
pub struct Room {
    pub start: Point,
    pub center: Point,
    pub width: usize,
    pub height: usize,
    pub edges: [RoomEdge; 4],
}

impl Room {
    /// The room that [`Room::new`] builds: the centre lies half the width and
    /// half the height from `start`, rounded down, and the edges are the top,
    /// left, bottom and right side, in this order.
    pub open spec fn spec_new(start: Point, width: usize, height: usize) -> Room {
        let right = (start.0 + width) as usize;
        let bottom = (start.1 + height) as usize;
        Room {
            start,
            width,
            height,
            center: ((start.0 + width / 2) as usize, (start.1 + height / 2) as usize),
            edges: [
                RoomEdge::spec_new(start, (right, start.1), UP),
                RoomEdge::spec_new(start, (start.0, bottom), LEFT),
                RoomEdge::spec_new((start.0, bottom), (right, bottom), DOWN),
                RoomEdge::spec_new((right, start.1), (right, bottom), RIGHT),
            ],
        }
    }

    /// The room has at least one cell in each direction, its far corner is
    /// a grid position, and its centre and edges are the derived ones.
    pub open spec fn wf(&self) -> bool {
        &&& self.width >= 1
        &&& self.height >= 1
        &&& self.start.0 + self.width <= usize::MAX
        &&& self.start.1 + self.height <= usize::MAX
        &&& *self == Room::spec_new(self.start, self.width, self.height)
    }

    /// The room with corner `start` and the given extent. A room needs at
    /// least one cell in each direction, and its far corner has to be a grid
    /// position.
    pub fn new(start: Point, width: usize, height: usize) -> (room: Room)
        requires
            width >= 1,
            height >= 1,
            start.0 + width <= usize::MAX,
            start.1 + height <= usize::MAX,
        ensures
            room == Room::spec_new(start, width, height),
            room.wf(),
            room.center.0 == start.0 + width / 2,
            room.center.1 == start.1 + height / 2,
            start.0 <= room.center.0 < start.0 + width,
            start.1 <= room.center.1 < start.1 + height,
    {
        Room {
            start,
            width,
            height,
            center: (start.0 + width / 2, start.1 + height / 2),
            edges: [
                RoomEdge::new(start, (start.0 + width, start.1), UP),
                RoomEdge::new(start, (start.0, start.1 + height), LEFT),
                RoomEdge::new((start.0, start.1 + height), (start.0 + width, start.1 + height), DOWN),
                RoomEdge::new((start.0 + width, start.1), (start.0 + width, start.1 + height), RIGHT),
            ],
        }
    }
}

impl Room {
    /// The centre of a room lies half its width and half its height from its
    /// corner, rounded down, and so within the room's own cells.
    pub proof fn lemma_center_within(self)
        requires
            self.wf(),
        ensures
            self.center.0 == self.start.0 + self.width / 2,
            self.center.1 == self.start.1 + self.height / 2,
            self.start.0 <= self.center.0 < self.start.0 + self.width,
            self.start.1 <= self.center.1 < self.start.1 + self.height,
    {
    }

    /// Whether `(x, y)` lies in the room's box grown by `padding` cells: the
    /// columns from `start.0` up to, not including, `start.0 + width +
    /// padding`, and the rows likewise.
    pub open spec fn in_padded_box(&self, x: int, y: int, padding: int) -> bool {
        self.start.0 <= x < self.start.0 + self.width + padding && self.start.1 <= y
            < self.start.1 + self.height + padding
    }

    /// Whether the room's padded box meets the padded box of a room with
    /// corner `start` and the given extent.
    pub open spec fn overlaps_box(&self, start: Point, width: int, height: int, padding: int) -> bool {
        &&& self.start.0 < start.0 + width + padding
        &&& self.start.0 + self.width + padding > start.0
        &&& self.start.1 < start.1 + height + padding
        &&& self.start.1 + self.height + padding > start.1
    }

    /// Whether the padded boxes of two rooms meet.
    pub open spec fn clashes(&self, other: Room, padding: int) -> bool {
        self.overlaps_box(other.start, other.width as int, other.height as int, padding)
    }

    /// Two padded boxes meet exactly if some cell lies in both.
    pub proof fn lemma_clash_is_shared_cell(self, other: Room, padding: int)
        requires
            self.width + padding > 0,
            self.height + padding > 0,
            other.width + padding > 0,
            other.height + padding > 0,
        ensures
            self.clashes(other, padding) <==> exists|x: int, y: int|
                self.in_padded_box(x, y, padding) && other.in_padded_box(x, y, padding),
            self.clashes(other, padding) == other.clashes(self, padding),
    {
        if self.clashes(other, padding) {
            let x = if self.start.0 >= other.start.0 {
                self.start.0 as int
            } else {
                other.start.0 as int
            };
            let y = if self.start.1 >= other.start.1 {
                self.start.1 as int
            } else {
                other.start.1 as int
            };
            assert(self.in_padded_box(x, y, padding) && other.in_padded_box(x, y, padding));
        }
    }

    /// Whether `(x, y)` lies on the wall ring, the outline of the rectangle
    /// from `start` to `start + (width, height)`, both corners included.
    pub open spec fn on_ring(&self, x: int, y: int) -> bool {
        let (left, top) = (self.start.0 as int, self.start.1 as int);
        let (right, bottom) = (left + self.width, top + self.height);
        left <= x <= right && top <= y <= bottom && (x == left || x == right || y == top || y
            == bottom)
    }

    /// Whether `(x, y)` lies strictly inside the wall ring.
    pub open spec fn inside(&self, x: int, y: int) -> bool {
        self.start.0 < x < self.start.0 + self.width && self.start.1 < y < self.start.1
            + self.height
    }

    /// The cells strictly inside the wall ring.
    pub open spec fn interior(&self) -> Set<(int, int)> {
        rectangle(
            self.start.0 + 1,
            self.start.0 + self.width,
            self.start.1 + 1,
            self.start.1 + self.height,
        )
    }

    /// What the cell at `(x, y)` holds after the room was painted, if it held
    /// `before`: the interior becomes floor, and the ring becomes wall where
    /// nothing was painted yet.
    pub open spec fn cell_after(&self, before: TileType, x: int, y: int) -> TileType {
        if self.inside(x, y) {
            TileType::Floor
        } else if self.on_ring(x, y) && before == TileType::Empty {
            TileType::Wall
        } else {
            before
        }
    }
}

impl Room {
    /// A room fits a grid exactly if every cell of its ring and its interior
    /// is a cell of the grid.
    pub proof fn lemma_fits_is_on_grid(self, side: nat)
        ensures
            self.fits(side) <==> forall|x: int, y: int|
                #![trigger self.on_ring(x, y)]
                #![trigger self.inside(x, y)]
                self.on_ring(x, y) || self.inside(x, y) ==> 0 <= x < side && 0 <= y < side,
    {
        let (right, bottom) = (self.start.0 + self.width, self.start.1 + self.height);
        assert(self.on_ring(right, bottom));
    }

    /// A painted room is a full rectangle of floor, one cell narrower and
    /// one cell lower than the room, shut in by its ring: whatever the grid
    /// held before, every interior cell is floor, there are `(width - 1) *
    /// (height - 1)` of them, every ring cell is painted, and every cell next
    /// to an interior cell, diagonals included, is interior or ring.
    pub proof fn lemma_ring_encloses_floor(self, cells: Seq<Seq<TileType>>)
        requires
            self.width >= 1,
            self.height >= 1,
            is_square(cells),
            self.fits(cells.len()),
        ensures
            is_square(self.painted(cells)),
            self.painted(cells).len() == cells.len(),
            self.interior().finite(),
            self.interior().len() == (self.width - 1) * (self.height - 1),
            forall|x: int, y: int| self.interior().contains((x, y)) <==> self.inside(x, y),
            forall|x: int, y: int| #[trigger]
                self.inside(x, y) ==> self.painted(cells)[y][x] == TileType::Floor,
            forall|x: int, y: int| #[trigger]
                self.on_ring(x, y) ==> self.painted(cells)[y][x] != TileType::Empty,
            forall|x: int, y: int, u: int, v: int|
                #![trigger self.inside(x, y), self.on_ring(u, v)]
                self.inside(x, y) && x - 1 <= u <= x + 1 && y - 1 <= v <= y + 1 ==> self.inside(
                    u,
                    v,
                ) || self.on_ring(u, v),
    {
        lemma_rectangle_count(
            self.start.0 + 1,
            self.start.0 + self.width,
            self.start.1 + 1,
            self.start.1 + self.height,
        );
    }

    /// On a grid that held nothing, a painted room shows exactly its
    /// interior as floor and exactly its ring as wall, and nothing else.
    pub proof fn lemma_room_on_blank(self, size: nat)
        requires
            self.width >= 1,
            self.height >= 1,
            self.fits(size),
        ensures
            cells_holding(self.painted(blank(size)), TileType::Floor) == self.interior(),
            cells_holding(self.painted(blank(size)), TileType::Floor).len() == (self.width - 1)
                * (self.height - 1),
            forall|x: int, y: int|
                0 <= x < size && 0 <= y < size ==> #[trigger] self.painted(blank(size))[y][x]
                    == if self.inside(x, y) {
                    TileType::Floor
                } else if self.on_ring(x, y) {
                    TileType::Wall
                } else {
                    TileType::Empty
                },
    {
        self.lemma_ring_encloses_floor(blank(size));
        assert(cells_holding(self.painted(blank(size)), TileType::Floor) =~= self.interior());
    }
}

impl Tileable for Room {
    open spec fn fits(&self, side: nat) -> bool {
        self.start.0 + self.width < side && self.start.1 + self.height < side
    }

    open spec fn painted(&self, cells: Seq<Seq<TileType>>) -> Seq<Seq<TileType>> {
        Seq::new(
            cells.len(),
            |y: int| Seq::new(cells[y].len(), |x: int| self.cell_after(cells[y][x], x, y)),
        )
    }

    fn tile(&self, grid: &mut TileGrid) -> (res: Result<(), WorldError>) {
        let side = grid.size();
        if self.width >= side || self.start.0 >= side - self.width || self.height >= side
            || self.start.1 >= side - self.height {
            return Err(WorldError::OutOfBounds);
        }
        let (left, top) = self.start;
        let endx = left + self.width;
        let endy = top + self.height;

        // Set the walls
        let mut x = left;
        while x <= endx
            invariant
                grid.wf(),
                grid.side() == side == old(grid).side(),
                old(grid).wf(),
                left <= x <= endx + 1,
                endx < side,
                top <= endy < side,
                forall|cx: int, cy: int|
                    0 <= cx < side && 0 <= cy < side ==> #[trigger] grid@[cy][cx] == if (cy == top
                        || cy == endy) && left <= cx < x && old(grid)@[cy][cx]
                        == TileType::Empty {
                        TileType::Wall
                    } else {
                        old(grid)@[cy][cx]
                    },
            decreases endx + 1 - x,
        {
            grid.set_empty_tile(x, top, TileType::Wall);
            grid.set_empty_tile(x, endy, TileType::Wall);
            x += 1;
        }

        let mut y = top;
        while y < endy
            invariant
                grid.wf(),
                grid.side() == side == old(grid).side(),
                old(grid).wf(),
                left <= endx < side,
                top <= y <= endy < side,
                forall|cx: int, cy: int|
                    0 <= cx < side && 0 <= cy < side ==> #[trigger] grid@[cy][cx] == if old(
                        grid,
                    )@[cy][cx] == TileType::Empty && (((cy == top || cy == endy) && left <= cx
                        <= endx) || ((cx == left || cx == endx) && top <= cy < y)) {
                        TileType::Wall
                    } else {
                        old(grid)@[cy][cx]
                    },
            decreases endy - y,
        {
            grid.set_empty_tile(left, y, TileType::Wall);
            grid.set_empty_tile(endx, y, TileType::Wall);
            y += 1;
        }

        // Fill the room
        let mut x = left + 1;
        while x < endx
            invariant
                grid.wf(),
                grid.side() == side == old(grid).side(),
                old(grid).wf(),
                left < x,
                endx < side,
                endy < side,
                endx == left + self.width,
                endy == top + self.height,
                self.start == (left, top),
                forall|cx: int, cy: int|
                    0 <= cx < side && 0 <= cy < side ==> #[trigger] grid@[cy][cx] == if self.inside(
                        cx,
                        cy,
                    ) && cx >= x {
                        old(grid)@[cy][cx]
                    } else {
                        self.cell_after(old(grid)@[cy][cx], cx, cy)
                    },
            decreases endx - x,
        {
            let mut y = top + 1;
            while y < endy
                invariant
                    grid.wf(),
                    grid.side() == side == old(grid).side(),
                    old(grid).wf(),
                    left < x < endx,
                    top < y,
                    endx < side,
                    endy < side,
                    endx == left + self.width,
                    endy == top + self.height,
                    self.start == (left, top),
                    forall|cx: int, cy: int|
                        0 <= cx < side && 0 <= cy < side ==> #[trigger] grid@[cy][cx]
                            == if self.inside(cx, cy) && (cx > x || (cx == x && cy >= y)) {
                            old(grid)@[cy][cx]
                        } else {
                            self.cell_after(old(grid)@[cy][cx], cx, cy)
                        },
                decreases endy - y,
            {
                grid.set_tile(x, y, TileType::Floor);
                y += 1;
            }
            x += 1;
        }
        assert(grid@ =~~= self.painted(old(grid)@));
        Ok(())
    }
}

} // verus!
