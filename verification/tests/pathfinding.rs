use tank_core::grid::{tile_walkable, world_to_tile, GridMap, Tile};
use tank_core::geometry::Transform;
use tank_core::pathfinder::a_star;

fn open_grid(rows: usize, cols: usize) -> GridMap {
    GridMap::new(vec![vec![0; cols]; rows]).unwrap()
}

fn tile(row: i32, col: i32) -> Tile {
    Tile { row, col }
}

fn assert_is_walk(map: &GridMap, path: &Vec<Tile>, from: Tile, to: Tile) {
    assert_eq!(path[0], from);
    assert_eq!(path[path.len() - 1], to);
    for t in path.iter() {
        assert!(tile_walkable(map, t.row, t.col));
    }
    for pair in path.windows(2) {
        let step = (pair[0].row - pair[1].row).abs() + (pair[0].col - pair[1].col).abs();
        assert_eq!(step, 1);
    }
}

#[test]
fn route_across_an_open_grid_has_manhattan_length_plus_one() {
    let map = open_grid(5, 5);
    let path = a_star(&map, tile(0, 0), tile(4, 4)).unwrap();
    assert_eq!(path.len(), 9);
    assert_is_walk(&map, &path, tile(0, 0), tile(4, 4));
}

#[test]
fn ties_are_broken_by_order_of_discovery() {
    let map = open_grid(5, 5);
    let path = a_star(&map, tile(0, 0), tile(4, 4)).unwrap();
    let expected = vec![
        tile(0, 0),
        tile(1, 0),
        tile(2, 0),
        tile(3, 0),
        tile(4, 0),
        tile(4, 1),
        tile(4, 2),
        tile(4, 3),
        tile(4, 4),
    ];
    assert_eq!(path, expected);
}

#[test]
fn equal_inputs_give_equal_routes() {
    let map = GridMap::new(vec![
        vec![0, 0, 0, 0, 0, 0],
        vec![0, 1, 1, 0, 1, 0],
        vec![0, 0, 0, 0, 1, 0],
        vec![0, 1, 0, 1, 1, 0],
        vec![0, 0, 0, 0, 0, 0],
    ])
    .unwrap();
    let first = a_star(&map, tile(0, 0), tile(4, 5));
    let second = a_star(&map, tile(0, 0), tile(4, 5));
    assert!(first.is_some());
    assert_eq!(first, second);
    let copy = map.clone();
    assert_eq!(a_star(&copy, tile(0, 0), tile(4, 5)), first);
}

#[test]
fn route_goes_round_a_wall_by_the_shortest_way() {
    let map = GridMap::new(vec![vec![0, 1, 0], vec![0, 1, 0], vec![0, 0, 0]]).unwrap();
    let path = a_star(&map, tile(0, 0), tile(0, 2)).unwrap();
    assert_eq!(path.len(), 7);
    assert_is_walk(&map, &path, tile(0, 0), tile(0, 2));
    assert_eq!(
        path,
        vec![tile(0, 0), tile(1, 0), tile(2, 0), tile(2, 1), tile(2, 2), tile(1, 2), tile(0, 2)]
    );
}

#[test]
fn shorter_of_two_ways_round_is_taken() {
    // Round the left end of the wall: 2 + 2 + 2 steps; round the right end: 3 + 2 + 3.
    let map = GridMap::new(vec![
        vec![0, 0, 0, 0, 0, 0, 0],
        vec![0, 0, 0, 0, 0, 0, 0],
        vec![0, 0, 1, 1, 1, 1, 0],
        vec![0, 0, 0, 0, 0, 0, 0],
    ])
    .unwrap();
    let path = a_star(&map, tile(1, 3), tile(3, 3)).unwrap();
    assert_eq!(path.len(), 7);
    assert_is_walk(&map, &path, tile(1, 3), tile(3, 3));
}

#[test]
fn enclosed_goal_has_no_route() {
    let mut cells = vec![vec![0; 5]; 5];
    cells[3][4] = 1;
    cells[4][3] = 1;
    let map = GridMap::new(cells).unwrap();
    assert_eq!(a_star(&map, tile(0, 0), tile(4, 4)), None);
    assert_eq!(a_star(&map, tile(4, 4), tile(0, 0)), None);
}

#[test]
fn route_from_a_tile_to_itself_is_that_tile() {
    let map = open_grid(3, 3);
    assert_eq!(a_star(&map, tile(1, 1), tile(1, 1)), Some(vec![tile(1, 1)]));
}

#[test]
fn adjacent_tiles_are_joined_by_a_route_of_two() {
    let map = open_grid(2, 2);
    assert_eq!(a_star(&map, tile(0, 0), tile(0, 1)), Some(vec![tile(0, 0), tile(0, 1)]));
}

#[test]
fn ends_that_are_not_walkable_have_no_route() {
    let mut cells = vec![vec![0; 3]; 3];
    cells[0][0] = 2;
    cells[2][2] = 6;
    let map = GridMap::new(cells).unwrap();
    assert_eq!(a_star(&map, tile(0, 0), tile(1, 1)), None);
    assert_eq!(a_star(&map, tile(1, 1), tile(0, 0)), None);
    assert_eq!(a_star(&map, tile(1, 1), tile(2, 2)), None);
}

#[test]
fn ends_beyond_the_map_have_no_route() {
    let map = open_grid(3, 3);
    assert_eq!(a_star(&map, tile(0, 0), tile(3, 0)), None);
    assert_eq!(a_star(&map, tile(0, 0), tile(0, 3)), None);
    assert_eq!(a_star(&map, tile(-1, 0), tile(0, 0)), None);
    assert_eq!(a_star(&map, tile(0, -1), tile(0, 0)), None);
    assert_eq!(a_star(&map, tile(0, 0), tile(i32::MAX, i32::MIN)), None);
}

#[test]
fn empty_map_has_no_route() {
    let map = GridMap::new(Vec::new()).unwrap();
    assert_eq!(a_star(&map, tile(0, 0), tile(0, 0)), None);
    let no_columns = GridMap::new(vec![Vec::new(), Vec::new()]).unwrap();
    assert_eq!(a_star(&no_columns, tile(0, 0), tile(1, 0)), None);
}

#[test]
fn cheaper_way_to_a_waiting_tile_replaces_the_dearer_one() {
    // A maze in which the estimate leads the search into a pocket first.
    let map = GridMap::new(vec![
        vec![0, 0, 0, 0, 0],
        vec![0, 1, 1, 1, 0],
        vec![0, 0, 0, 1, 0],
        vec![1, 1, 0, 1, 0],
        vec![0, 0, 0, 0, 0],
    ])
    .unwrap();
    let path = a_star(&map, tile(2, 2), tile(0, 4)).unwrap();
    assert_is_walk(&map, &path, tile(2, 2), tile(0, 4));
    // Down and round the right: 2 + 2 + 4 = 8 steps; up the left and along the top: 2 + 2 + 4.
    assert_eq!(path.len(), 9);
}

#[test]
fn simple_traversal() {
    // The objective tile itself is an obstacle: a route to it does not exist, and the
    // enemy keeps its direction.
    let mut cells = vec![vec![0; 5]; 5];
    cells[4][4] = 6;
    let with_objective = GridMap::new(cells).unwrap();
    assert_eq!(a_star(&with_objective, tile(0, 0), tile(4, 4)), None);
    // Over the open ground the route has the Manhattan distance of 8 steps, and start.
    let open = open_grid(5, 5);
    let path = a_star(&open, tile(0, 0), tile(4, 4)).unwrap();
    assert_eq!(path.len(), 9);
    // The first two steps, walked at one unit a frame, are two unit displacements along
    // the axes of the steps.
    let mut player = tank_core::motion::Player::new(1);
    let mut transform = Transform::new(-48, 48);
    let mut frame = 0usize;
    let mut moving = tank_core::geometry::Moving::new(tank_core::geometry::GameDirection::Up, 1);
    for step in 0..2 {
        let dir = tank_core::enemy::path_to_move_direction(&path[step..].to_vec()).unwrap();
        player.direction_stack = vec![dir];
        let before = transform;
        tank_core::motion::update_player(&mut transform, &mut frame, &mut moving, &mut player);
        let dx = transform.x - before.x;
        let dy = transform.y - before.y;
        let rows = path[step + 1].row - path[step].row;
        let cols = path[step + 1].col - path[step].col;
        assert_eq!((dx, dy), (cols, -rows));
        assert_eq!(dx.abs() + dy.abs(), 1);
    }
    assert_eq!(transform, Transform::new(-48, 46));
}

#[test]
fn grid_must_be_a_rectangle() {
    assert!(GridMap::new(vec![vec![0, 0], vec![0]]).is_none());
    assert!(GridMap::new(vec![vec![0], vec![0, 0]]).is_none());
    assert!(GridMap::new(vec![vec![0, 1], vec![2, 3]]).is_some());
    let map = GridMap::new(vec![vec![0, 1, 0], vec![2, 3, 0]]).unwrap();
    assert_eq!(map.row_count(), 2);
    assert_eq!(map.col_count(), 3);
    assert_eq!(GridMap::new(Vec::new()).unwrap().col_count(), 0);
}

#[test]
fn walkable_means_on_the_map_and_empty() {
    let map = GridMap::new(vec![vec![0, 1], vec![6, 0]]).unwrap();
    assert!(tile_walkable(&map, 0, 0));
    assert!(!tile_walkable(&map, 0, 1));
    assert!(!tile_walkable(&map, 1, 0));
    assert!(tile_walkable(&map, 1, 1));
    assert!(!tile_walkable(&map, -1, 0));
    assert!(!tile_walkable(&map, 0, -1));
    assert!(!tile_walkable(&map, 2, 0));
    assert!(!tile_walkable(&map, 0, 2));
    assert!(!tile_walkable(&map, i32::MAX, i32::MAX));
}

#[test]
fn world_positions_map_to_tiles_with_the_vertical_axis_flipped() {
    let map = open_grid(26, 26);
    assert_eq!(world_to_tile(&map, Transform::new(0, 0)), tile(13, 13));
    assert_eq!(world_to_tile(&map, Transform::new(-312, 312)), tile(0, 0));
    assert_eq!(world_to_tile(&map, Transform::new(-289, 289)), tile(0, 0));
    assert_eq!(world_to_tile(&map, Transform::new(-288, 288)), tile(1, 1));
    assert_eq!(world_to_tile(&map, Transform::new(311, -311)), tile(25, 25));
    assert_eq!(world_to_tile(&map, Transform::new(-1, 1)), tile(12, 12));
}

#[test]
fn positions_off_the_map_map_to_tiles_off_the_map() {
    let map = open_grid(26, 26);
    assert_eq!(world_to_tile(&map, Transform::new(312, 0)), tile(13, 26));
    assert_eq!(world_to_tile(&map, Transform::new(-313, 0)), tile(13, -1));
    assert_eq!(world_to_tile(&map, Transform::new(0, 313)), tile(-1, 13));
    assert_eq!(world_to_tile(&map, Transform::new(0, -312)), tile(26, 13));
    assert_eq!(world_to_tile(&map, Transform::new(-337, 337)), tile(-2, -2));
}
