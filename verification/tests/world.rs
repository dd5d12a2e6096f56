use dungeon_world::corridor::{Corridor, CorridorType};
use dungeon_world::error::WorldError;
use dungeon_world::room::Room;
use dungeon_world::tiles::{TileGrid, TileType};
use dungeon_world::world::{
    closer, GameWorld, World, MAX_ROOMS, MAX_ROOM_SIDE, MIN_ROOMS, MIN_ROOM_SIDE,
    MIN_SIZE_FOR_TWO_ROOMS, PADDING,
};

fn cell(grid: &TileGrid, x: usize, y: usize) -> TileType {
    grid.raw_data()[y][x]
}

fn boxes_meet(a: &Room, b: &Room, padding: usize) -> bool {
    a.start.0 < b.start.0 + b.width + padding
        && b.start.0 < a.start.0 + a.width + padding
        && a.start.1 < b.start.1 + b.height + padding
        && b.start.1 < a.start.1 + a.height + padding
}

fn three_rooms() -> World {
    let mut world = World::new(20);
    assert!(world.place_room((1, 1), 3, 3));
    assert!(world.place_room((10, 2), 4, 4));
    assert!(world.place_room((3, 12), 5, 3));
    world
}

#[test]
fn test_generates_world() {
    let mut world = World::new(128);
    let generated = world.generate();
    assert!(generated.is_ok());
}

#[test]
fn new_world_is_empty() {
    let world = World::new(20);
    assert_eq!(world.size(), 20);
    assert!(world.rooms().is_empty());
    assert!(world.corridors().is_empty());
}

#[test]
fn constants_of_generation() {
    assert_eq!(PADDING, 2);
    assert_eq!((MIN_ROOM_SIDE, MAX_ROOM_SIDE), (3, 5));
    assert_eq!((MIN_ROOMS, MAX_ROOMS), (3, 4));
}

#[test]
fn generated_rooms_keep_apart_and_lie_on_the_grid() {
    for _ in 0..50 {
        let mut world = World::new(40);
        assert_eq!(world.generate(), Ok(()));
        let rooms = world.rooms();
        assert!(MIN_ROOMS <= rooms.len() && rooms.len() <= MAX_ROOMS);
        for (i, room) in rooms.iter().enumerate() {
            assert!(MIN_ROOM_SIDE <= room.width && room.width <= MAX_ROOM_SIDE);
            assert!(MIN_ROOM_SIDE <= room.height && room.height <= MAX_ROOM_SIDE);
            assert!(room.start.0 + room.width < 40);
            assert!(room.start.1 + room.height < 40);
            assert_eq!(room.center, (room.start.0 + room.width / 2, room.start.1 + room.height / 2));
            for other in &rooms[i + 1..] {
                assert!(!boxes_meet(room, other, PADDING));
            }
        }
    }
}

#[test]
fn generated_corridors_leave_every_room_center() {
    let mut world = World::new(64);
    assert_eq!(world.generate(), Ok(()));
    assert_eq!(world.corridors().len(), world.rooms().len());
    for (i, corridor) in world.corridors().iter().enumerate() {
        let from = world.rooms()[i].center;
        let to = world.rooms()[world.nearest_room(i).unwrap()].center;
        assert_eq!(corridor.start, from);
        assert_eq!(corridor.direction, CorridorType::Horizontal);
        assert_eq!(corridor.length, to.0.saturating_sub(from.0));
    }
}

#[test]
fn generating_twice_appends() {
    let mut world = World::new(128);
    assert_eq!(world.generate(), Ok(()));
    let rooms_before: Vec<(usize, usize)> = world.rooms().iter().map(|room| room.start).collect();
    let corridors_before: Vec<Corridor> = world.corridors().clone();
    assert_eq!(world.generate(), Ok(()));
    let rooms = world.rooms();
    assert!(rooms_before.len() + MIN_ROOMS <= rooms.len());
    assert!(rooms.len() <= rooms_before.len() + MAX_ROOMS);
    for (i, start) in rooms_before.iter().enumerate() {
        assert_eq!(rooms[i].start, *start);
    }
    assert_eq!(world.corridors().len(), corridors_before.len() + rooms.len());
    assert_eq!(&world.corridors()[..corridors_before.len()], &corridors_before[..]);
}

#[test]
fn grid_too_small_for_a_room_exhausts_generation() {
    for size in 0..=MIN_ROOM_SIDE {
        let mut world = World::new(size);
        assert_eq!(world.generate(), Err(WorldError::GenerationExhausted));
        assert!(world.rooms().is_empty());
        assert!(world.corridors().is_empty());
    }
}

#[test]
fn grid_too_small_for_two_rooms_exhausts_generation() {
    assert_eq!(MIN_SIZE_FOR_TWO_ROOMS, 9);
    for size in 4..MIN_SIZE_FOR_TWO_ROOMS {
        let mut world = World::new(size);
        assert_eq!(world.generate(), Err(WorldError::GenerationExhausted));
        assert!(world.rooms().is_empty());
        assert!(world.corridors().is_empty());
        assert_eq!(world.size(), size);
    }
}

#[test]
fn two_rooms_fit_the_smallest_grid_for_two() {
    let mut world = World::new(MIN_SIZE_FOR_TWO_ROOMS);
    assert!(world.place_room((0, 0), 3, 3));
    assert!(world.place_room((5, 0), 3, 3));
    let mut smaller = World::new(MIN_SIZE_FOR_TWO_ROOMS - 1);
    assert!(smaller.place_room((0, 0), 3, 3));
    assert!(!smaller.place_room((5, 0), 3, 3));
    assert!(!smaller.place_room((4, 4), 3, 3));
}

#[test]
fn failed_generation_leaves_the_world_as_it_was() {
    let mut world = World::new(9);
    assert!(world.place_room((0, 0), 5, 5));
    world.link_rooms();
    assert_eq!(world.generate(), Err(WorldError::GenerationExhausted));
    assert_eq!(world.rooms().len(), 1);
    assert_eq!(world.rooms()[0].start, (0, 0));
    assert!(world.corridors().is_empty());
}

#[test]
fn random_room_is_one_that_the_world_admits() {
    let mut world = World::new(16);
    assert!(world.place_room((6, 6), 3, 3));
    for _ in 0..100 {
        let room = world.random_room().unwrap();
        assert!(MIN_ROOM_SIDE <= room.width && room.width <= MAX_ROOM_SIDE);
        assert!(MIN_ROOM_SIDE <= room.height && room.height <= MAX_ROOM_SIDE);
        assert!(room.start.0 + room.width < 16 && room.start.1 + room.height < 16);
        assert!(!world.overlaps(room.start, room.width, room.height, PADDING));
        assert_eq!(room.center, (room.start.0 + room.width / 2, room.start.1 + room.height / 2));
    }
}

#[test]
fn random_room_always_finds_a_place_in_an_empty_world() {
    for size in MAX_ROOM_SIDE + 1..12 {
        let world = World::new(size);
        for _ in 0..200 {
            let room = world.random_room().unwrap();
            assert!(room.start.0 + room.width < size && room.start.1 + room.height < size);
        }
    }
}

#[test]
fn random_room_gives_up_on_a_full_world() {
    let mut world = World::new(8);
    assert!(world.place_room((2, 2), 3, 3));
    assert!(matches!(world.random_room(), Err(WorldError::GenerationExhausted)));
    assert!(matches!(World::new(3).random_room(), Err(WorldError::GenerationExhausted)));
}

#[test]
fn place_room_takes_rooms_of_allowed_sides_only() {
    let mut world = World::new(40);
    assert!(!world.place_room((1, 1), 2, 3));
    assert!(!world.place_room((1, 1), 3, 2));
    assert!(!world.place_room((1, 1), 6, 3));
    assert!(!world.place_room((1, 1), 3, 6));
    assert!(!world.place_room((1, 1), 0, 0));
    assert!(!world.place_room((1, 1), usize::MAX, 3));
    assert!(world.rooms().is_empty());
    assert!(world.place_room((1, 1), 3, 5));
    assert!(world.place_room((20, 20), 5, 3));
    assert_eq!(world.rooms().len(), 2);
}

#[test]
fn place_room_keeps_the_wall_ring_on_the_grid() {
    let mut world = World::new(10);
    assert!(!world.place_room((7, 0), 3, 3));
    assert!(!world.place_room((0, 7), 3, 3));
    assert!(!world.place_room((usize::MAX, 0), 3, 3));
    assert!(!world.place_room((0, usize::MAX - 2), 3, 3));
    assert!(world.place_room((6, 6), 3, 3));
    assert_eq!(world.rooms()[0].start, (6, 6));
    assert_eq!(world.rooms()[0].center, (7, 7));
}

#[test]
fn place_room_keeps_the_padding_on_every_side() {
    let mut world = World::new(40);
    assert!(world.place_room((10, 10), 3, 4));
    // The box of this room, grown by the padding, covers columns 10..15 and rows 10..16.
    assert!(!world.place_room((14, 10), 3, 3));
    assert!(!world.place_room((10, 15), 3, 3));
    assert!(!world.place_room((6, 10), 3, 3));
    assert!(!world.place_room((10, 6), 3, 3));
    assert!(!world.place_room((10, 10), 3, 4));
    assert!(world.place_room((15, 10), 3, 3));
    assert!(world.place_room((10, 16), 3, 3));
    assert!(world.place_room((5, 10), 3, 3));
    assert!(world.place_room((10, 5), 3, 3));
    assert_eq!(world.rooms().len(), 5);
}

#[test]
fn overlaps_grows_both_boxes_by_the_padding() {
    let mut world = World::new(40);
    assert!(!world.overlaps((0, 0), 3, 3, 2));
    assert!(world.place_room((10, 10), 3, 3));
    assert!(world.overlaps((10, 10), 3, 3, 0));
    assert!(world.overlaps((12, 12), 1, 1, 0));
    assert!(!world.overlaps((13, 10), 3, 3, 0));
    assert!(world.overlaps((13, 10), 3, 3, 1));
    assert!(world.overlaps((14, 10), 3, 3, 2));
    assert!(!world.overlaps((15, 10), 3, 3, 2));
    assert!(world.overlaps((6, 10), 3, 3, 2));
    assert!(!world.overlaps((5, 10), 3, 3, 2));
    assert!(world.overlaps((10, 6), 3, 3, 2));
    assert!(!world.overlaps((10, 5), 3, 3, 2));
    assert!(world.overlaps((0, 0), usize::MAX, usize::MAX, usize::MAX));
    assert!(world.overlaps((usize::MAX, usize::MAX), usize::MAX, usize::MAX, usize::MAX));
    assert!(!world.overlaps((usize::MAX, usize::MAX), usize::MAX, usize::MAX, 0));
}

#[test]
fn closer_compares_straight_line_distances() {
    assert!(closer((0, 0), (1, 1), (2, 0)));
    assert!(!closer((0, 0), (2, 0), (1, 1)));
    assert!(!closer((0, 0), (3, 4), (5, 0)));
    assert!(!closer((0, 0), (5, 0), (3, 4)));
    assert!(closer((10, 10), (7, 6), (16, 10)));
    assert!(closer((4, 4), (4, 4), (4, 5)));
    assert!(!closer((4, 4), (4, 4), (4, 4)));
}

#[test]
fn closer_holds_for_the_farthest_points() {
    let far = usize::MAX;
    assert!(closer((0, 0), (far, far - 1), (far, far)));
    assert!(!closer((0, 0), (far, far), (far, far - 1)));
    assert!(!closer((0, 0), (far, far), (far, far)));
    assert!(closer((far, 0), (0, 0), (0, 1)));
    assert!(closer((0, 0), (far, 0), (far - 1, far)));
    assert!(!closer((0, 0), (far - 1, far), (far, 0)));
}

#[test]
fn nearest_room_is_the_other_room_with_the_nearest_center() {
    let world = three_rooms();
    // The centres are (2, 2), (12, 4) and (5, 13).
    assert_eq!(world.nearest_room(0), Some(1));
    assert_eq!(world.nearest_room(1), Some(0));
    assert_eq!(world.nearest_room(2), Some(0));
    assert_eq!(world.nearest_room(3), None);
    assert_eq!(world.nearest_room(usize::MAX), None);
}

#[test]
fn nearest_room_prefers_the_first_of_equally_near_rooms() {
    let mut world = World::new(40);
    assert!(world.place_room((10, 10), 3, 3));
    assert!(world.place_room((20, 10), 3, 3));
    assert!(world.place_room((0, 10), 3, 3));
    assert!(world.place_room((10, 20), 3, 3));
    assert!(world.place_room((10, 0), 3, 3));
    assert_eq!(world.nearest_room(0), Some(1));
    assert_eq!(world.nearest_room(1), Some(0));
    assert_eq!(world.nearest_room(3), Some(0));
}

#[test]
fn a_single_room_has_no_neighbour() {
    let mut world = World::new(20);
    assert_eq!(world.nearest_room(0), None);
    assert!(world.place_room((5, 5), 4, 4));
    assert_eq!(world.nearest_room(0), None);
    world.link_rooms();
    assert!(world.corridors().is_empty());
}

#[test]
fn link_rooms_runs_right_or_not_at_all() {
    let mut world = three_rooms();
    world.link_rooms();
    let expected = vec![
        Corridor::new((2, 2), 10, CorridorType::Horizontal),
        Corridor::new((12, 4), 0, CorridorType::Horizontal),
        Corridor::new((5, 13), 0, CorridorType::Horizontal),
    ];
    assert_eq!(world.corridors(), &expected);
    assert_eq!(world.rooms().len(), 3);
    world.link_rooms();
    assert_eq!(world.corridors().len(), 6);
    assert_eq!(&world.corridors()[3..], &expected[..]);
}

#[test]
fn three_rooms_show_floor_within_walls() {
    let mut world = three_rooms();
    world.link_rooms();
    let grid = world.to_tilegrid().unwrap();
    assert_eq!(grid.size(), 20);
    // Room with corner (1, 1), 3 wide and 3 high.
    for (x, y) in [(2, 2), (3, 2), (2, 3), (3, 3)] {
        assert_eq!(cell(&grid, x, y), TileType::Floor);
    }
    for (x, y) in [(1, 1), (2, 1), (4, 1), (1, 3), (1, 4), (3, 4), (4, 4), (4, 3)] {
        assert_eq!(cell(&grid, x, y), TileType::Wall);
    }
    // Room with corner (10, 2), 4 wide and 4 high.
    for (x, y) in [(11, 3), (13, 3), (12, 4), (11, 5), (13, 5)] {
        assert_eq!(cell(&grid, x, y), TileType::Floor);
    }
    for (x, y) in [(14, 2), (12, 2), (10, 6), (14, 6), (14, 4), (10, 5), (10, 3)] {
        assert_eq!(cell(&grid, x, y), TileType::Wall);
    }
    // Room with corner (3, 12), 5 wide and 3 high.
    for (x, y) in [(4, 13), (7, 13), (4, 14), (7, 14), (5, 13)] {
        assert_eq!(cell(&grid, x, y), TileType::Floor);
    }
    for (x, y) in [(3, 12), (8, 12), (3, 15), (8, 15), (5, 12), (3, 14), (8, 13)] {
        assert_eq!(cell(&grid, x, y), TileType::Wall);
    }
    // The corridor from (2, 2) runs right, through the wall at (4, 2) and along the
    // top wall of the second room, up to column 11.
    for x in 2..12 {
        assert_eq!(cell(&grid, x, 2), TileType::Floor);
    }
    for x in 5..10 {
        assert_eq!(cell(&grid, x, 1), TileType::Wall);
        assert_eq!(cell(&grid, x, 3), TileType::Wall);
    }
    assert_eq!(cell(&grid, 11, 1), TileType::Wall);
    assert_eq!(cell(&grid, 12, 1), TileType::Empty);
    assert_eq!(cell(&grid, 12, 2), TileType::Wall);
    assert_eq!(cell(&grid, 0, 0), TileType::Empty);
    assert_eq!(cell(&grid, 19, 19), TileType::Empty);
    assert_eq!(cell(&grid, 9, 9), TileType::Empty);
}

#[test]
fn rooms_alone_show_as_painted_one_by_one() {
    let world = three_rooms();
    let grid = world.to_tilegrid().unwrap();
    let mut floor = 0;
    let mut wall = 0;
    for row in grid.raw_data() {
        for tile in row {
            match tile {
                TileType::Floor => floor += 1,
                TileType::Wall => wall += 1,
                TileType::Empty => {},
                TileType::Corridor => panic!("nothing paints this tile"),
            }
        }
    }
    assert_eq!(floor, 2 * 2 + 3 * 3 + 4 * 2);
    assert_eq!(wall, (4 * 4 - 2 * 2) + (5 * 5 - 3 * 3) + (6 * 4 - 4 * 2));
}

#[test]
fn building_the_map_twice_gives_the_same_cells() {
    let mut world = World::new(48);
    assert_eq!(world.generate(), Ok(()));
    let first = world.to_tilegrid().unwrap();
    let second = world.to_tilegrid().unwrap();
    assert_eq!(first.raw_data(), second.raw_data());
    let mut fixed = three_rooms();
    fixed.link_rooms();
    assert_eq!(fixed.to_tilegrid().unwrap().raw_data(), fixed.to_tilegrid().unwrap().raw_data());
}

#[test]
fn building_the_map_leaves_the_world_alone() {
    let mut world = three_rooms();
    world.link_rooms();
    let corridors = world.corridors().clone();
    let _ = world.to_tilegrid().unwrap();
    assert_eq!(world.rooms().len(), 3);
    assert_eq!(world.corridors(), &corridors);
}

#[test]
fn generated_world_shows_every_room() {
    let mut world = World::new(32);
    assert_eq!(world.generate(), Ok(()));
    let grid = world.to_tilegrid().unwrap();
    assert_eq!(grid.raw_data().len(), 32);
    for room in world.rooms() {
        for x in room.start.0 + 1..room.start.0 + room.width {
            for y in room.start.1 + 1..room.start.1 + room.height {
                assert_eq!(cell(&grid, x, y), TileType::Floor);
            }
        }
        for x in room.start.0..=room.start.0 + room.width {
            assert_ne!(cell(&grid, x, room.start.1), TileType::Empty);
            assert_ne!(cell(&grid, x, room.start.1 + room.height), TileType::Empty);
        }
    }
}

#[test]
fn world_without_cells_has_no_map() {
    let world = World::new(0);
    assert!(matches!(world.to_tilegrid(), Err(WorldError::InvalidDimension)));
}

#[test]
fn world_with_too_many_cells_has_no_map() {
    let mut world = World::new(usize::MAX);
    assert!(world.place_room((usize::MAX - 4, 7), 3, 3));
    assert!(matches!(world.to_tilegrid(), Err(WorldError::InvalidDimension)));
}

#[test]
fn empty_world_gives_an_unpainted_map() {
    let grid = World::new(3).to_tilegrid().unwrap();
    assert_eq!(grid.raw_data(), &vec![vec![TileType::Empty; 3]; 3]);
}
