use aoc2018::carts::{collect_carts, move_cart, Cart};
use aoc2018::engine::{find_duplicate, move_carts, simulate, CollisionEvent};
use aoc2018::order::sort_carts;
use aoc2018::track::{apply_turn, Direction, Grid, Point, Tile, TrackError, TurnPhase};

fn chars(lines: &[&str]) -> Vec<Vec<char>> {
    lines.iter().map(|l| l.chars().collect()).collect()
}

fn first_example() -> Vec<Vec<char>> {
    chars(&[
        "/->-\\        ",
        "|   |  /----\\",
        "| /-+--+-\\  |",
        "| | |  | v  |",
        "\\-+-/  \\-+--/",
        "  \\------/   ",
    ])
}

fn second_example() -> Vec<Vec<char>> {
    chars(&[
        "/>-<\\  ",
        "|   |  ",
        "| /<+-\\",
        "| | | v",
        "\\>+</ |",
        "  |   ^",
        "  \\<->/",
    ])
}

#[test]
fn first_crash_of_the_loop_example() {
    let map = first_example();
    let grid = Grid::from_chars(&map);
    let carts = collect_carts(&map);
    assert_eq!(carts.len(), 2);
    let outcome = simulate(&grid, carts, 1000).unwrap();
    assert_eq!(
        outcome.first_collision(),
        Some(CollisionEvent { position: Point { x: 7, y: 3 }, tick: 14 })
    );
    assert_eq!(outcome.alive_count(), 0);
    assert_eq!(outcome.survivor(), None);
}

#[test]
fn head_on_carts_on_a_straight_track() {
    let map = chars(&["|", "v", "|", "|", "|", "^", "|"]);
    let grid = Grid::from_chars(&map);
    let carts = collect_carts(&map);
    let outcome = simulate(&grid, carts, 100).unwrap();
    assert_eq!(
        outcome.first_collision(),
        Some(CollisionEvent { position: Point { x: 0, y: 3 }, tick: 2 })
    );
    assert_eq!(outcome.survivor(), None);
}

#[test]
fn last_cart_of_the_second_example() {
    let map = second_example();
    let grid = Grid::from_chars(&map);
    let carts = collect_carts(&map);
    assert_eq!(carts.len(), 9);
    let outcome = simulate(&grid, carts, 1000).unwrap();
    assert_eq!(outcome.alive_count(), 1);
    assert_eq!(outcome.survivor(), Some(Point { x: 6, y: 4 }));
    assert_eq!(outcome.ticks, 3);
    assert_eq!(outcome.first_collision().unwrap().tick, 1);
}

#[test]
fn two_carts_crash_in_the_first_tick() {
    let map = chars(&["->-<-"]);
    let grid = Grid::from_chars(&map);
    let carts = collect_carts(&map);
    let outcome = simulate(&grid, carts, 10).unwrap();
    assert_eq!(
        outcome.first_collision(),
        Some(CollisionEvent { position: Point { x: 2, y: 0 }, tick: 1 })
    );
    assert_eq!(outcome.ticks, 1);
    assert_eq!(outcome.first_collision().unwrap().tick, outcome.ticks);
    assert_eq!(outcome.alive_count(), 0);
    assert_eq!(outcome.survivor(), None);
}

#[test]
fn adjacent_carts_facing_each_other() {
    let map = chars(&["><"]);
    let grid = Grid::from_chars(&map);
    let mut carts = collect_carts(&map);
    let crashes = move_carts(&grid, &mut carts).unwrap();
    assert_eq!(crashes, vec![Point { x: 1, y: 0 }]);
    assert!(!carts[0].alive && !carts[1].alive);
}

#[test]
fn straight_track_moves_one_unit_per_tick() {
    let map = chars(&["v", "|", "|", "|", "|", "^"]);
    let grid = Grid::from_chars(&map);
    let mut cart = collect_carts(&map)[0];
    for k in 1..5 {
        move_cart(&mut cart, &grid).unwrap();
        assert_eq!((cart.x, cart.y), (0, k));
        assert_eq!(cart.direction, Direction::Down);
        assert_eq!(cart.turn_phase, TurnPhase::Left);
    }
}

#[test]
fn too_few_carts_are_refused() {
    let map = chars(&["->--"]);
    let grid = Grid::from_chars(&map);
    let carts = collect_carts(&map);
    assert_eq!(simulate(&grid, carts, 10).unwrap_err(), TrackError::InsufficientCarts);
    assert_eq!(simulate(&grid, Vec::new(), 10).unwrap_err(), TrackError::InsufficientCarts);
}

#[test]
fn a_cart_off_straight_track_is_refused() {
    let grid = Grid::from_chars(&chars(&["-+--"]));
    let carts = vec![Cart::new(1, 0, Direction::Right), Cart::new(3, 0, Direction::Left)];
    assert_eq!(simulate(&grid, carts, 10).unwrap_err(), TrackError::InvalidTrack);
    let carts = vec![Cart::new(0, 0, Direction::Up), Cart::new(3, 0, Direction::Left)];
    assert_eq!(simulate(&grid, carts, 10).unwrap_err(), TrackError::InvalidTrack);
    let carts = vec![Cart::new(0, 0, Direction::Right), Cart::new(9, 0, Direction::Left)];
    assert_eq!(simulate(&grid, carts, 10).unwrap_err(), TrackError::OutOfBounds);
}

#[test]
fn a_cart_that_leaves_the_track_stops_the_run() {
    let map = chars(&["->-  -<"]);
    let grid = Grid::from_chars(&map);
    let carts = collect_carts(&map);
    assert_eq!(simulate(&grid, carts, 10).unwrap_err(), TrackError::InvalidTrack);
    let mut cart = Cart::new(0, 0, Direction::Left);
    let grid = Grid::from_chars(&chars(&["-"]));
    assert_eq!(move_cart(&mut cart, &grid), Err(TrackError::OutOfBounds));
    assert_eq!(cart, Cart::new(0, 0, Direction::Left));
}

#[test]
fn a_step_off_the_grid_or_onto_empty_cells_is_refused() {
    let grid = Grid::from_chars(&chars(&["-- -", "|"]));
    let mut cart = Cart::new(1, 0, Direction::Right);
    assert_eq!(move_cart(&mut cart, &grid), Err(TrackError::InvalidTrack));
    assert_eq!(cart, Cart::new(1, 0, Direction::Right));
    let mut cart = Cart::new(3, 0, Direction::Right);
    assert_eq!(move_cart(&mut cart, &grid), Err(TrackError::OutOfBounds));
    let mut cart = Cart::new(3, 0, Direction::Down);
    assert_eq!(move_cart(&mut cart, &grid), Err(TrackError::OutOfBounds));
    let mut cart = Cart::new(2, 0, Direction::Left);
    assert_eq!(move_cart(&mut cart, &grid), Err(TrackError::InvalidTrack));
    let mut cart = Cart::new(0, 0, Direction::Down);
    assert_eq!(move_cart(&mut cart, &grid), Ok(()));
    assert_eq!((cart.x, cart.y), (0, 1));
}

#[test]
fn a_cart_faces_up_from_the_top_row() {
    let grid = Grid::from_chars(&chars(&["-+-", "|||"]));
    let mut cart = Cart::new(0, 0, Direction::Right);
    move_cart(&mut cart, &grid).unwrap();
    assert_eq!(move_cart(&mut cart, &grid), Err(TrackError::OutOfBounds));
    cart.turn_phase = TurnPhase::Right;
    move_cart(&mut cart, &grid).unwrap();
    assert_eq!((cart.x, cart.y, cart.direction), (1, 1, Direction::Down));
    assert_eq!(cart.turn_phase, TurnPhase::Left);
}

#[test]
fn tiles_and_bounds() {
    let grid = Grid::from_chars(&chars(&["/-+", "|"]));
    assert_eq!(grid.tile_at(0, 0), Ok(Tile::CurveSlash));
    assert_eq!(grid.tile_at(2, 0), Ok(Tile::Intersection));
    assert_eq!(grid.tile_at(0, 1), Ok(Tile::Vertical));
    assert_eq!(grid.tile_at(1, 1), Err(TrackError::OutOfBounds));
    assert_eq!(grid.tile_at(0, 2), Err(TrackError::OutOfBounds));
    let grid = Grid::from_chars(&chars(&["\\ .v<>^"]));
    assert_eq!(grid.tile_at(0, 0), Ok(Tile::CurveBackslash));
    assert_eq!(grid.tile_at(1, 0), Ok(Tile::Empty));
    assert_eq!(grid.tile_at(2, 0), Ok(Tile::Empty));
    assert_eq!(grid.tile_at(3, 0), Ok(Tile::Vertical));
    assert_eq!(grid.tile_at(4, 0), Ok(Tile::Horizontal));
}

#[test]
fn turn_phases_cycle_left_straight_right() {
    let mut phase = TurnPhase::Left;
    let mut seen = Vec::new();
    for _ in 0..6 {
        seen.push(apply_turn(Direction::Up, phase));
        phase = phase.advance();
    }
    let (l, u, r) = (Direction::Left, Direction::Up, Direction::Right);
    assert_eq!(seen, vec![l, u, r, l, u, r]);
    assert_eq!(Direction::Right.turn_left(), Direction::Up);
    assert_eq!(Direction::Left.turn_right(), Direction::Up);
    assert_eq!(Direction::Down.turn_left(), Direction::Right);
}

#[test]
fn a_cart_crossing_intersections_turns_in_cycle() {
    // A column of intersections: left, then straight, then right.
    let grid = Grid::from_chars(&chars(&["+++", "+++", "+++", "+++"]));
    let mut cart = Cart::new(1, 0, Direction::Down);
    move_cart(&mut cart, &grid).unwrap();
    assert_eq!((cart.x, cart.y, cart.direction), (2, 0, Direction::Right));
    assert_eq!(cart.turn_phase, TurnPhase::Straight);
    let mut cart = Cart::new(1, 1, Direction::Down);
    cart.turn_phase = TurnPhase::Straight;
    move_cart(&mut cart, &grid).unwrap();
    assert_eq!((cart.x, cart.y, cart.direction), (1, 2, Direction::Down));
    assert_eq!(cart.turn_phase, TurnPhase::Right);
    move_cart(&mut cart, &grid).unwrap();
    assert_eq!((cart.x, cart.y, cart.direction), (0, 2, Direction::Left));
    assert_eq!(cart.turn_phase, TurnPhase::Left);
}

#[test]
fn curves_turn_by_facing() {
    let grid = Grid::from_chars(&chars(&["/\\", "\\/"]));
    let mut cart = Cart::new(1, 1, Direction::Right);
    cart.x = 0;
    cart.y = 0;
    cart.direction = Direction::Left;
    move_cart(&mut cart, &grid).unwrap();
    assert_eq!((cart.x, cart.y, cart.direction), (0, 1, Direction::Down));
    move_cart(&mut cart, &grid).unwrap();
    assert_eq!((cart.x, cart.y, cart.direction), (1, 1, Direction::Right));
    move_cart(&mut cart, &grid).unwrap();
    assert_eq!((cart.x, cart.y, cart.direction), (1, 0, Direction::Up));
    move_cart(&mut cart, &grid).unwrap();
    assert_eq!((cart.x, cart.y, cart.direction), (0, 0, Direction::Left));
    assert_eq!(cart.turn_phase, TurnPhase::Left);
}

#[test]
fn carts_are_collected_and_ordered_by_row_then_column() {
    let map = chars(&["  v ", "> < ", " ^  "]);
    let carts = collect_carts(&map);
    let cells: Vec<(usize, usize)> = carts.iter().map(|c| (c.x, c.y)).collect();
    assert_eq!(cells, vec![(2, 0), (0, 1), (2, 1), (1, 2)]);
    assert_eq!(carts[1].direction, Direction::Right);
    assert_eq!(carts[1].id, Point { x: 0, y: 1 });
    let mut shuffled = vec![carts[3], carts[0], carts[2], carts[1]];
    shuffled[2].alive = false;
    assert_eq!(sort_carts(&shuffled), vec![1, 3, 0]);
}

#[test]
fn a_run_can_stop_at_its_tick_budget() {
    let map = chars(&["/>-<\\", "|   |", "\\---/"]);
    let grid = Grid::from_chars(&map);
    let carts = collect_carts(&map);
    let outcome = simulate(&grid, carts, 0).unwrap();
    assert_eq!(outcome.ticks, 0);
    assert_eq!(outcome.alive_count(), 2);
    assert_eq!(outcome.first_collision(), None);
}

#[test]
fn duplicate_points() {
    let points = vec![Point { x: 1, y: 2 }, Point { x: 3, y: 4 }];
    assert_eq!(find_duplicate(&Point { x: 3, y: 4 }, &points), Some(Point { x: 3, y: 4 }));
    assert_eq!(find_duplicate(&Point { x: 4, y: 3 }, &points), None);
    assert_eq!(find_duplicate(&Point { x: 0, y: 0 }, &Vec::new()), None);
}
