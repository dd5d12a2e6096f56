use vstd::prelude::*;
use crate::corridor::{Corridor, CorridorType};
use crate::error::WorldError;
use crate::random::random_between;
use crate::room::Room;
use crate::tiles::{blank, valid_size, Point, TileGrid, TileType, Tileable};

verus! {

/// The margin, in cells, by which the box of every room is grown before two
/// rooms are tested for overlap.
pub const PADDING: usize = 2;

/// The shortest side that a room of a world has.
pub const MIN_ROOM_SIDE: usize = 3;

/// The longest side that a room of a world has.
pub const MAX_ROOM_SIDE: usize = 5;

/// The least number of rooms that one generation adds.
pub const MIN_ROOMS: usize = 3;

/// The greatest number of rooms that one generation adds.
pub const MAX_ROOMS: usize = 4;

/// The least side of a grid on which two rooms can keep apart: two rooms of
/// the shortest side, the padding between them, and the far wall.
pub const MIN_SIZE_FOR_TWO_ROOMS: usize = 2 * MIN_ROOM_SIDE + PADDING + 1;

/// How many candidates are drawn for one room before generation gives up.
pub const MAX_PLACEMENT_ATTEMPTS: usize = 1000;

/// The square of the straight-line distance between two points. Ordering
/// points by it orders them by their distance.
pub open spec fn dist2(p: Point, q: Point) -> int {
    (p.0 - q.0) * (p.0 - q.0) + (p.1 - q.1) * (p.1 - q.1)
}

/// Whether room `j` is the nearest neighbour of room `i`: another room whose
/// centre is no farther from the centre of `i` than that of any other room,
/// and the first such room in the sequence.
pub open spec fn is_nearest(rooms: Seq<Room>, i: int, j: int) -> bool {
    &&& 0 <= i < rooms.len()
    &&& 0 <= j < rooms.len()
    &&& j != i
    &&& forall|k: int|
        0 <= k < rooms.len() && k != i ==> dist2(rooms[i].center, rooms[j].center) <= dist2(
            rooms[i].center,
            (#[trigger] rooms[k]).center,
        )
    &&& forall|k: int|
        0 <= k < j && k != i ==> dist2(rooms[i].center, rooms[j].center) < dist2(
            rooms[i].center,
            (#[trigger] rooms[k]).center,
        )
}

/// The index of the nearest neighbour of room `i`, where it has one.
pub open spec fn nearest(rooms: Seq<Room>, i: int) -> int {
    choose|j: int| is_nearest(rooms, i, j)
}

/// A room has at most one nearest neighbour.
pub proof fn lemma_nearest_unique(rooms: Seq<Room>, i: int, a: int, b: int)
    requires
        is_nearest(rooms, i, a),
        is_nearest(rooms, i, b),
    ensures
        a == b,
{
    if a < b {
        assert(dist2(rooms[i].center, rooms[b].center) < dist2(rooms[i].center, rooms[a].center));
    }
    if b < a {
        assert(dist2(rooms[i].center, rooms[a].center) < dist2(rooms[i].center, rooms[b].center));
    }
}

/// A room that is the nearest neighbour of room `i` is the one that
/// `nearest` names.
pub proof fn lemma_nearest_is(rooms: Seq<Room>, i: int, j: int)
    requires
        is_nearest(rooms, i, j),
    ensures
        nearest(rooms, i) == j,
{
    lemma_nearest_unique(rooms, i, j, nearest(rooms, i));
}

/// The nearest neighbour among the first `k` rooms, for a room that has a
/// neighbour among them.
proof fn lemma_prefix_has_nearest(rooms: Seq<Room>, i: int, k: int) -> (j: int)
    requires
        0 <= i < rooms.len(),
        0 <= k <= rooms.len(),
        k >= 2 || (k == 1 && i != 0),
    ensures
        0 <= j < k,
        j != i,
        forall|m: int|
            0 <= m < k && m != i ==> dist2(rooms[i].center, rooms[j].center) <= dist2(
                rooms[i].center,
                (#[trigger] rooms[m]).center,
            ),
        forall|m: int|
            0 <= m < j && m != i ==> dist2(rooms[i].center, rooms[j].center) < dist2(
                rooms[i].center,
                (#[trigger] rooms[m]).center,
            ),
    decreases k,
{
    let last = k - 1;
    if last >= 2 || (last == 1 && i != 0) {
        let best = lemma_prefix_has_nearest(rooms, i, last);
        if last != i && dist2(rooms[i].center, rooms[last].center) < dist2(
            rooms[i].center,
            rooms[best].center,
        ) {
            last
        } else {
            best
        }
    } else {
        last
    }
}

/// Every room that is not alone has a nearest neighbour.
pub proof fn lemma_nearest_exists(rooms: Seq<Room>, i: int)
    requires
        rooms.len() >= 2,
        0 <= i < rooms.len(),
    ensures
        is_nearest(rooms, i, nearest(rooms, i)),
{
    let j = lemma_prefix_has_nearest(rooms, i, rooms.len() as int);
    assert(is_nearest(rooms, i, j));
}

/// The corridor that leaves the centre `from` towards the centre `to`: it
/// runs to the right along the row of `from`, as far as the column of `to`,
/// and has no cells if `to` does not lie to the right.
pub open spec fn corridor_towards(from: Point, to: Point) -> Corridor {
    Corridor {
        start: from,
        length: if to.0 > from.0 {
            (to.0 - from.0) as usize
        } else {
            0
        },
        direction: CorridorType::Horizontal,
    }
}

/// The corridor from room `i` towards its nearest neighbour.
pub open spec fn link(rooms: Seq<Room>, i: int) -> Corridor {
    corridor_towards(rooms[i].center, rooms[nearest(rooms, i)].center)
}

/// One corridor for every room, in the order of the rooms. A room that is
/// alone has no neighbour and gets none.
pub open spec fn links(rooms: Seq<Room>) -> Seq<Corridor> {
    if rooms.len() < 2 {
        Seq::empty()
    } else {
        Seq::new(rooms.len(), |i: int| link(rooms, i))
    }
}

/// The cells after every shape of `shapes` was painted onto `cells`, the
/// first shape first.
pub open spec fn paint_all<T: Tileable>(cells: Seq<Seq<TileType>>, shapes: Seq<T>) -> Seq<
    Seq<TileType>,
>
    decreases shapes.len(),
{
    if shapes.len() == 0 {
        cells
    } else {
        shapes.last().painted(paint_all(cells, shapes.drop_last()))
    }
}

/// What a world holds: the side of its grid, and its rooms and corridors in
/// the order in which they were added.
pub struct WorldView {
    pub size: nat,
    pub rooms: Seq<Room>,
    pub corridors: Seq<Corridor>,
}

impl WorldView {
    /// Whether a room with corner `start` and the given extent may be added:
    /// its sides are of an allowed length, its wall ring lies on the grid,
    /// and its padded box meets that of no room already there.
    pub open spec fn admits(self, start: Point, width: usize, height: usize) -> bool {
        &&& MIN_ROOM_SIDE <= width <= MAX_ROOM_SIDE
        &&& MIN_ROOM_SIDE <= height <= MAX_ROOM_SIDE
        &&& start.0 + width < self.size
        &&& start.1 + height < self.size
        &&& forall|i: int|
            0 <= i < self.rooms.len() ==> !(#[trigger] self.rooms[i]).overlaps_box(
                start,
                width as int,
                height as int,
                PADDING as int,
            )
    }

    /// Every room is well formed, has sides of an allowed length and lies
    /// on the grid; no two rooms have padded boxes that meet; every
    /// corridor lies on the grid.
    pub open spec fn wf(self) -> bool {
        &&& self.size <= usize::MAX
        &&& forall|i: int|
            0 <= i < self.rooms.len() ==> {
                let room = #[trigger] self.rooms[i];
                &&& room.wf()
                &&& MIN_ROOM_SIDE <= room.width <= MAX_ROOM_SIDE
                &&& MIN_ROOM_SIDE <= room.height <= MAX_ROOM_SIDE
                &&& room.fits(self.size)
            }
        &&& forall|i: int, j: int|
            0 <= i < j < self.rooms.len() ==> !(#[trigger] self.rooms[i]).clashes(
                #[trigger] self.rooms[j],
                PADDING as int,
            )
        &&& forall|k: int|
            0 <= k < self.corridors.len() ==> (#[trigger] self.corridors[k]).fits(self.size)
    }

    /// The cells of the finished map: an unpainted grid onto which the rooms
    /// and then the corridors were painted, each in the order of its sequence.
    pub open spec fn rendered(self) -> Seq<Seq<TileType>> {
        paint_all(paint_all(blank(self.size), self.rooms), self.corridors)
    }

    /// Whether `res` is what building the map of this world gives: the grid
    /// with the rendered cells, or a refusal if no grid has the size of the
    /// world.
    pub open spec fn renders(self, res: Result<TileGrid, WorldError>) -> bool {
        match res {
            Ok(grid) => valid_size(self.size) && grid.wf() && grid@ == self.rendered(),
            Err(error) => !valid_size(self.size) && error == WorldError::InvalidDimension,
        }
    }
}

impl WorldView {
    /// No cell lies in the padded boxes of two different rooms of a world.
    pub proof fn lemma_rooms_keep_apart(self, a: int, b: int)
        requires
            self.wf(),
            0 <= a < self.rooms.len(),
            0 <= b < self.rooms.len(),
            a != b,
        ensures
            !self.rooms[a].clashes(self.rooms[b], PADDING as int),
            forall|x: int, y: int|
                !(self.rooms[a].in_padded_box(x, y, PADDING as int) && self.rooms[b].in_padded_box(
                    x,
                    y,
                    PADDING as int,
                )),
    {
        self.rooms[a].lemma_clash_is_shared_cell(self.rooms[b], PADDING as int);
    }

    /// A grid that is too small admits no room: none at all if it has no
    /// more cells a side than the shortest room, and no second one if it has
    /// fewer than `MIN_SIZE_FOR_TWO_ROOMS`.
    pub proof fn lemma_small_grid_admits_nothing(self)
        requires
            self.wf(),
            self.size <= MIN_ROOM_SIDE || (self.size < MIN_SIZE_FOR_TWO_ROOMS && self.rooms.len()
                >= 1),
        ensures
            forall|start: Point, width: usize, height: usize|
                !#[trigger] self.admits(start, width, height),
    {
        assert forall|start: Point, width: usize, height: usize|
            !#[trigger] self.admits(start, width, height) by {
            if self.size > MIN_ROOM_SIDE && self.admits(start, width, height) {
                // Both corners lie in the first few columns and rows, too near each other.
                assert(self.rooms[0].overlaps_box(
                    start,
                    width as int,
                    height as int,
                    PADDING as int,
                ));
            }
        }
    }

    /// Building the map twice gives the same: two results for one world are
    /// both grids with the same cells, or both the same refusal.
    pub proof fn lemma_map_is_repeatable(
        self,
        first: Result<TileGrid, WorldError>,
        second: Result<TileGrid, WorldError>,
    )
        requires
            self.renders(first),
            self.renders(second),
        ensures
            match (first, second) {
                (Ok(one), Ok(other)) => one@ == other@,
                (Err(one), Err(other)) => one == other,
                _ => false,
            },
    {
    }
}

/// A dungeon in the making: the rooms and corridors generated so far for a
/// square grid.
pub struct World {
    size: usize,
    rooms: Vec<Room>,
    corridors: Vec<Corridor>,
}

impl View for World {
    type V = WorldView;

    closed spec fn view(&self) -> WorldView {
        WorldView { size: self.size as nat, rooms: self.rooms@, corridors: self.corridors@ }
    }
}

/// The interface of a world that generates itself and hands out its map.
pub trait GameWorld: Sized {
    /// Whether the world is in a state that its operations keep.
    spec fn wf(&self) -> bool;

    /// The side of the grid that the world is made for.
    spec fn grid_side(&self) -> nat;

    /// A world for a grid of `size` by `size` cells.
    fn new(size: usize) -> (world: Self)
        ensures
            world.wf(),
            world.grid_side() == size,
    ;

    /// Adds rooms and the corridors between them. The only failure is that
    /// the rooms found no place.
    fn generate(&mut self) -> (res: Result<(), WorldError>)
        requires
            old(self).wf(),
        ensures
            final(self).wf(),
            final(self).grid_side() == old(self).grid_side(),
            res matches Err(error) ==> error == WorldError::GenerationExhausted,
    ;

    /// Paints the world onto a fresh grid of its size. It fails exactly if
    /// no grid can have that size.
    fn to_tilegrid(&self) -> (res: Result<TileGrid, WorldError>)
        requires
            self.wf(),
        ensures
            match res {
                Ok(grid) => valid_size(self.grid_side()) && grid.wf() && grid.side()
                    == self.grid_side(),
                Err(error) => !valid_size(self.grid_side()) && error
                    == WorldError::InvalidDimension,
            },
    ;
}

/// The square of the distance between two coordinates.
fn gap_squared(a: usize, b: usize) -> (square: u128)
    ensures
        square == (a - b) * (a - b),
{
    let gap = if a >= b {
        a - b
    } else {
        b - a
    };
    let wide = gap as u128;
    assert(wide * wide <= u128::MAX && wide * wide == (a - b) * (a - b)) by (nonlinear_arith)
        requires
            wide <= 0xFFFF_FFFF_FFFF_FFFF,
            wide == a - b || wide == b - a,
    ;
    wide * wide
}

/// Whether `a` lies nearer to `origin` than `b` does.
pub fn closer(origin: Point, a: Point, b: Point) -> (nearer: bool)
    ensures
        nearer == (dist2(origin, a) < dist2(origin, b)),
{
    let ax = gap_squared(origin.0, a.0);
    let ay = gap_squared(origin.1, a.1);
    let bx = gap_squared(origin.0, b.0);
    let by = gap_squared(origin.1, b.1);
    if ax >= bx {
        ay < by && ax - bx < by - ay
    } else {
        ay <= by || ay - by < bx - ax
    }
}

impl World {
    /// The side of the grid.
    pub fn size(&self) -> (size: usize)
        ensures
            size == self@.size,
    {
        self.size
    }

    /// The rooms, in the order in which they were added.
    pub fn rooms(&self) -> (rooms: &Vec<Room>)
        ensures
            rooms@ == self@.rooms,
    {
        &self.rooms
    }

    /// The corridors, in the order in which they were added.
    pub fn corridors(&self) -> (corridors: &Vec<Corridor>)
        ensures
            corridors@ == self@.corridors,
    {
        &self.corridors
    }

    /// Whether the box of a room with corner `start` and the given extent,
    /// grown by `padding`, meets the grown box of a room of this world.
    pub fn overlaps(&self, start: Point, width: usize, height: usize, padding: usize) -> (hit: bool)
        ensures
            hit == exists|i: int|
                0 <= i < self@.rooms.len() && (#[trigger] self@.rooms[i]).overlaps_box(
                    start,
                    width as int,
                    height as int,
                    padding as int,
                ),
    {
        let right = start.0 as u128 + width as u128 + padding as u128;
        let bottom = start.1 as u128 + height as u128 + padding as u128;
        let mut k: usize = 0;
        while k < self.rooms.len()
            invariant
                k <= self.rooms.len(),
                right == start.0 + width + padding,
                bottom == start.1 + height + padding,
                forall|i: int|
                    0 <= i < k ==> !(#[trigger] self@.rooms[i]).overlaps_box(
                        start,
                        width as int,
                        height as int,
                        padding as int,
                    ),
            decreases self.rooms.len() - k,
        {
            let room = &self.rooms[k];
            if (room.start.0 as u128) < right && room.start.0 as u128 + room.width as u128
                + padding as u128 > start.0 as u128 && (room.start.1 as u128) < bottom
                && room.start.1 as u128 + room.height as u128 + padding as u128
                > start.1 as u128 {
                assert(self@.rooms[k as int].overlaps_box(
                    start,
                    width as int,
                    height as int,
                    padding as int,
                ));
                return true;
            }
            k += 1;
        }
        false
    }

    /// Adds the room with corner `start` and the given extent if the world
    /// admits it, and says whether it did.
    pub fn place_room(&mut self, start: Point, width: usize, height: usize) -> (placed: bool)
        requires
            old(self).wf(),
        ensures
            final(self).wf(),
            placed == old(self)@.admits(start, width, height),
            placed ==> final(self)@ == (WorldView {
                rooms: old(self)@.rooms.push(Room::spec_new(start, width, height)),
                ..old(self)@
            }),
            !placed ==> final(self)@ == old(self)@,
    {
        if width < MIN_ROOM_SIDE || width > MAX_ROOM_SIDE || height < MIN_ROOM_SIDE || height
            > MAX_ROOM_SIDE {
            return false;
        }
        if width >= self.size || start.0 >= self.size - width || height >= self.size || start.1
            >= self.size - height {
            return false;
        }
        if self.overlaps(start, width, height, PADDING) {
            return false;
        }
        let room = Room::new(start, width, height);
        self.rooms.push(room);
        true
    }

    /// Draws candidates for a room until the world admits one. The sides
    /// are drawn from the allowed lengths and the corner from the positions
    /// at which the room lies on the grid. Gives up after
    /// `MAX_PLACEMENT_ATTEMPTS` candidates; a world that admits no room at all
    /// always ends so. A world without rooms whose grid is longer than the
    /// longest room admits whatever is drawn, so there the first candidate
    /// is returned.
    pub fn random_room(&self) -> (res: Result<Room, WorldError>)
        requires
            self.wf(),
        ensures
            match res {
                Ok(room) => room.wf() && self@.admits(room.start, room.width, room.height),
                Err(error) => error == WorldError::GenerationExhausted,
            },
            (forall|start: Point, width: usize, height: usize|
                !#[trigger] self@.admits(start, width, height)) ==> res is Err,
            self@.rooms.len() == 0 && MAX_ROOM_SIDE < self@.size ==> res is Ok,
    {
        let mut rng = rand::thread_rng();
        let mut attempts: usize = 0;
        while attempts < MAX_PLACEMENT_ATTEMPTS
            invariant
                self@.wf(),
                self@.rooms.len() == 0 && MAX_ROOM_SIDE < self@.size ==> attempts == 0,
            decreases MAX_PLACEMENT_ATTEMPTS - attempts,
        {
            let width = random_between(&mut rng, MIN_ROOM_SIDE, MAX_ROOM_SIDE + 1);
            let height = random_between(&mut rng, MIN_ROOM_SIDE, MAX_ROOM_SIDE + 1);
            if width < self.size && height < self.size {
                let start = (
                    random_between(&mut rng, 0, self.size - width),
                    random_between(&mut rng, 0, self.size - height),
                );
                if !self.overlaps(start, width, height, PADDING) {
                    assert(self@.admits(start, width, height));
                    return Ok(Room::new(start, width, height));
                }
            }
            attempts += 1;
        }
        Err(WorldError::GenerationExhausted)
    }

    /// The index of the nearest neighbour of the room at `index`. There is
    /// none if `index` names no room or the room is alone.
    pub fn nearest_room(&self, index: usize) -> (found: Option<usize>)
        ensures
            found matches Some(j) ==> is_nearest(self@.rooms, index as int, j as int),
            found is None <==> index >= self@.rooms.len() || self@.rooms.len() <= 1,
    {
        let n = self.rooms.len();
        if index >= n {
            return None;
        }
        let origin = self.rooms[index].center;
        let mut best: Option<usize> = None;
        let mut k: usize = 0;
        while k < n
            invariant
                k <= n == self.rooms@.len(),
                index < n,
                origin == self.rooms@[index as int].center,
                match best {
                    None => k == 0 || (k == 1 && index == 0),
                    Some(b) => {
                        &&& b < k
                        &&& b != index
                        &&& forall|m: int|
                            0 <= m < k && m != index ==> dist2(origin, self.rooms@[b as int].center)
                                <= dist2(origin, (#[trigger] self.rooms@[m]).center)
                        &&& forall|m: int|
                            0 <= m < b && m != index ==> dist2(origin, self.rooms@[b as int].center)
                                < dist2(origin, (#[trigger] self.rooms@[m]).center)
                    },
                },
            decreases n - k,
        {
            if k != index {
                match best {
                    None => {
                        best = Some(k);
                    },
                    Some(b) => {
                        if closer(origin, self.rooms[k].center, self.rooms[b].center) {
                            best = Some(k);
                        }
                    },
                }
            }
            k += 1;
        }
        best
    }

    /// Adds, for every room that has a neighbour, the corridor from its
    /// centre towards the centre of its nearest neighbour.
    pub fn link_rooms(&mut self)
        requires
            old(self).wf(),
        ensures
            final(self).wf(),
            final(self)@ == (WorldView {
                corridors: old(self)@.corridors + links(old(self)@.rooms),
                ..old(self)@
            }),
    {
        let n = self.rooms.len();
        let mut i: usize = 0;
        while i < n
            invariant
                i <= n == self.rooms@.len(),
                self@.wf(),
                self@.size == old(self)@.size,
                self@.rooms == old(self)@.rooms,
                n >= 2 ==> self@.corridors == old(self)@.corridors + Seq::new(
                    i as nat,
                    |m: int| link(old(self)@.rooms, m),
                ),
                n < 2 ==> self@.corridors == old(self)@.corridors,
            decreases n - i,
        {
            match self.nearest_room(i) {
                Some(j) => {
                    let from = self.rooms[i].center;
                    let to = self.rooms[j].center;
                    let length = if to.0 > from.0 {
                        to.0 - from.0
                    } else {
                        0
                    };
                    let corridor = Corridor::new(from, length, CorridorType::Horizontal);
                    proof {
                        lemma_nearest_is(self@.rooms, i as int, j as int);
                    }
                    self.corridors.push(corridor);
                    assert(self@.corridors =~= old(self)@.corridors + Seq::new(
                        (i + 1) as nat,
                        |m: int| link(old(self)@.rooms, m),
                    ));
                },
                None => {},
            }
            i += 1;
        }
    }
}

impl GameWorld for World {
    open spec fn wf(&self) -> bool {
        self@.wf()
    }

    open spec fn grid_side(&self) -> nat {
        self@.size
    }

    /// A world without rooms and corridors. Any size is taken; one that is
    /// too small for a room shows when rooms are generated.
    fn new(size: usize) -> (world: World)
        ensures
            world@ == (WorldView { size: size as nat, rooms: Seq::empty(), corridors: Seq::empty() }),
    {
        World { size, rooms: Vec::new(), corridors: Vec::new() }
    }

    /// Adds between `MIN_ROOMS` and `MAX_ROOMS` rooms that the world admits,
    /// and then one corridor for every room of the world, old and new, towards
    /// its nearest neighbour. If a room finds no place the world stays as it
    /// was. A world that admits no room at all always ends so, and so does
    /// one whose grid has fewer than `MIN_SIZE_FOR_TWO_ROOMS` cells a side.
    fn generate(&mut self) -> (res: Result<(), WorldError>)
        ensures
            final(self)@.size == old(self)@.size,
            match res {
                Ok(_) => {
                    &&& old(self)@.rooms.len() + MIN_ROOMS <= final(self)@.rooms.len()
                        <= old(self)@.rooms.len() + MAX_ROOMS
                    &&& final(self)@.rooms.take(old(self)@.rooms.len() as int) == old(self)@.rooms
                    &&& final(self)@.corridors == old(self)@.corridors + links(final(self)@.rooms)
                },
                Err(error) => error == WorldError::GenerationExhausted && final(self)@ == old(
                    self,
                )@,
            },
            (forall|start: Point, width: usize, height: usize|
                !#[trigger] old(self)@.admits(start, width, height)) ==> res is Err,
            old(self)@.size < MIN_SIZE_FOR_TWO_ROOMS ==> res is Err,
    {
        let mut rng = rand::thread_rng();
        let room_number = random_between(&mut rng, MIN_ROOMS, MAX_ROOMS + 1);
        let first = self.rooms.len();
        let mut made: usize = 0;
        while made < room_number
            invariant
                made <= room_number <= MAX_ROOMS,
                self@.wf(),
                self@.size == old(self)@.size,
                self@.corridors == old(self)@.corridors,
                self@.rooms.len() == first + made,
                first == old(self)@.rooms.len(),
                self@.rooms.take(first as int) == old(self)@.rooms,
                made == 0 ==> self@ == old(self)@,
                made >= 1 ==> ({
                    let room = self@.rooms[first as int];
                    old(self)@.admits(room.start, room.width, room.height)
                }),
                self@.size < MIN_SIZE_FOR_TWO_ROOMS ==> made <= 1,
            decreases room_number - made,
        {
            proof {
                if self@.size < MIN_SIZE_FOR_TWO_ROOMS && made == 1 {
                    self@.lemma_small_grid_admits_nothing();
                }
            }
            match self.random_room() {
                Ok(room) => {
                    self.rooms.push(room);
                },
                Err(error) => {
                    self.rooms.truncate(first);
                    return Err(error);
                },
            }
            made += 1;
        }
        self.link_rooms();
        Ok(())
    }

    /// The map of the world: a fresh grid with every room and then every
    /// corridor painted onto it, each in the order in which it was added. A
    /// world whose size no grid can have has no map.
    fn to_tilegrid(&self) -> (res: Result<TileGrid, WorldError>)
        ensures
            self@.renders(res),
    {
        let mut grid = match TileGrid::new(self.size) {
            Ok(grid) => grid,
            Err(error) => {
                return Err(error);
            },
        };
        let mut i: usize = 0;
        while i < self.rooms.len()
            invariant
                i <= self.rooms@.len(),
                self@.wf(),
                grid.wf(),
                grid.side() == self@.size,
                grid@ == paint_all(blank(self@.size), self@.rooms.take(i as int)),
            decreases self.rooms.len() - i,
        {
            match self.rooms[i].tile(&mut grid) {
                Ok(_) => {},
                Err(error) => {
                    return Err(error);
                },
            }
            assert(self@.rooms.take(i + 1).drop_last() =~= self@.rooms.take(i as int));
            i += 1;
        }
        assert(self@.rooms.take(i as int) =~= self@.rooms);
        let mut k: usize = 0;
        while k < self.corridors.len()
            invariant
                k <= self.corridors@.len(),
                self@.wf(),
                grid.wf(),
                grid.side() == self@.size,
                grid@ == paint_all(
                    paint_all(blank(self@.size), self@.rooms),
                    self@.corridors.take(k as int),
                ),
            decreases self.corridors.len() - k,
        {
            match self.corridors[k].tile(&mut grid) {
                Ok(_) => {},
                Err(error) => {
                    return Err(error);
                },
            }
            assert(self@.corridors.take(k + 1).drop_last() =~= self@.corridors.take(k as int));
            k += 1;
        }
        assert(self@.corridors.take(k as int) =~= self@.corridors);
        Ok(grid)
    }
}

} // verus!
