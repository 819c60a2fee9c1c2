use aoc2018::coordinates::{get_edge_coordinates, Coordinate};
use aoc2018::fabric::Claim;
use aoc2018::frequency::{calculate_final_frequency, find_frequency_used_twice};
use aoc2018::inventory::{
    build_hash, calculate_checksum, common_letters, contains_thrice, contains_twice, find_box_id,
    find_match, Checksum,
};
use aoc2018::marbles::{insert, move_left, move_right, remove, Marble};
use aoc2018::plants::change;
use aoc2018::polymer::{react, react_till_finished};
use aoc2018::power_grid::{
    calculate_power_level, generate_grid, largest_power_square, power_for_square, square_key,
};
use aoc2018::stars::{close_enough, draw, max_x, max_y, min_x, min_y, move_points, PointWithVelocity};

#[test]
fn frequency_sums_the_changes() {
    assert_eq!(calculate_final_frequency(0, &[1, -2, 3, 1]), 3);
    assert_eq!(calculate_final_frequency(0, &[1, 1, 1]), 3);
    assert_eq!(calculate_final_frequency(0, &[1, 1, -2]), 0);
    assert_eq!(calculate_final_frequency(0, &[-1, -2, -3]), -6);
    assert_eq!(calculate_final_frequency(7, &[]), 7);
    assert_eq!(calculate_final_frequency(2, &[1]), 5);
}

#[test]
fn checksum_of_the_example_ids() {
    let ids = ["abcdef", "bababc", "abbcde", "abcccd", "aabcdd", "abcdee", "ababab"];
    let checksum = calculate_checksum(&ids);
    assert_eq!(checksum, Checksum { twice: 4, thrice: 3 });
    assert_eq!(checksum.calc(), 12);
    assert_eq!(Checksum { twice: 1, thrice: 1 }.update(true, false), Checksum { twice: 2, thrice: 1 });
}

#[test]
fn byte_counts() {
    let hash = build_hash("bababc");
    assert_eq!(hash.get(&b'a'), Some(&2));
    assert_eq!(hash.get(&b'b'), Some(&3));
    assert_eq!(hash.get(&b'c'), Some(&1));
    assert_eq!(hash.get(&b'd'), None);
    assert!(contains_twice(&hash));
    assert!(contains_thrice(&hash));
    let hash = build_hash("abcdef");
    assert!(!contains_twice(&hash));
    assert!(!contains_thrice(&hash));
}

#[test]
fn ids_that_differ_in_one_place() {
    assert_eq!(aoc2018::inventory::matches("fghij", "fguij"), Some(2));
    assert_eq!(aoc2018::inventory::matches("abcde", "axcye"), None);
    assert_eq!(aoc2018::inventory::matches("abcde", "abcde"), None);
    assert_eq!(aoc2018::inventory::matches("abcde", "abcdx"), Some(4));
    let ids = ["abcde", "fghij", "klmno", "pqrst", "fguij", "axcye", "wvxyz"];
    assert_eq!(find_match("fguij", &ids), Some(2));
    assert_eq!(find_match("zzzzz", &ids), None);
    let found = find_box_id(&ids);
    assert_eq!(found, Some(("fghij", 2)));
    assert_eq!(common_letters(found.unwrap()), Some("fgij".to_string()));
    assert_eq!(find_box_id(&["abc", "xyz"]), None);
}

#[test]
fn claim_ranges() {
    let claim = Claim { id: 123, x: 3, y: 2, width: 5, height: 4 };
    assert_eq!(claim.x_range(), 3..8);
    assert_eq!(claim.y_range(), 2..6);
}

#[test]
fn polymer_reactions() {
    assert_eq!(react("aA"), "");
    assert_eq!(react("abBA"), "aA");
    assert_eq!(react("abAB"), "abAB");
    assert_eq!(react("aabAAB"), "aabAAB");
    assert_eq!(react("dabAcCaCBAcCcaDA"), "dabAaCBAcaDA");
    assert_eq!(react_till_finished("abBA".to_string()), "");
    let product = react_till_finished("dabAcCaCBAcCcaDA".to_string());
    assert_eq!(product, "dabCBAcaDA");
    assert_eq!(product.len(), 10);
}

#[test]
fn taxicab_distances_and_edges() {
    let c = Coordinate { x: 1, y: 1 };
    assert_eq!(c.distance_from(4, 5), 7);
    assert_eq!(c.distance_from(-2, 0), 4);
    assert_eq!(c.distance_from(1, 1), 0);
    let cells: Vec<Vec<Coordinate>> = (0..2)
        .map(|x| (0..3).map(|y| Coordinate { x, y }).collect())
        .collect();
    let grid: Vec<Vec<&Coordinate>> = cells.iter().map(|col| col.iter().collect()).collect();
    let edges = get_edge_coordinates(grid, 2, 3);
    let pairs: Vec<(i32, i32)> = edges.iter().map(|c| (c.x, c.y)).collect();
    assert_eq!(
        pairs,
        vec![(0, 0), (0, 2), (1, 0), (1, 2), (0, 0), (1, 0), (0, 1), (1, 1), (0, 2), (1, 2)]
    );
}

fn high_score(players: usize, last_marble: usize) -> usize {
    let mut circle = vec![Marble { points: 0, left: 0, right: 0 }];
    let mut scores = vec![0; players];
    let mut current = 0;
    for points in 1..=last_marble {
        let player = (points - 1) % players;
        if points % 23 == 0 {
            current = move_left(&circle, current, 7);
            let next = move_right(&circle, current, 1);
            scores[player] += points + remove(&mut circle, current);
            current = next;
        } else {
            current = move_right(&circle, current, 1);
            current = insert(&mut circle, current, points);
        }
    }
    scores.into_iter().max().unwrap()
}

#[test]
fn marble_game_high_scores() {
    assert_eq!(high_score(9, 25), 32);
    assert_eq!(high_score(10, 1618), 8317);
    assert_eq!(high_score(13, 7999), 146373);
}

#[test]
fn marble_links() {
    let mut circle = vec![Marble { points: 0, left: 0, right: 0 }];
    assert_eq!(insert(&mut circle, 0, 1), 1);
    assert_eq!(circle[0], Marble { points: 0, left: 1, right: 1 });
    assert_eq!(circle[1], Marble { points: 1, left: 0, right: 0 });
    assert_eq!(insert(&mut circle, 0, 2), 2);
    assert_eq!(move_right(&circle, 0, 1), 2);
    assert_eq!(move_right(&circle, 0, 2), 1);
    assert_eq!(move_left(&circle, 0, 1), 1);
    assert_eq!(move_left(&circle, 0, 3), 0);
    assert_eq!(remove(&mut circle, 2), 2);
    assert_eq!(move_right(&circle, 0, 1), 1);
    assert_eq!(move_left(&circle, 0, 1), 1);
}

#[test]
fn stars_drift_and_close_in() {
    let mut points = vec![
        PointWithVelocity { x: 0, y: 10, velocity_x: 100, velocity_y: -1 },
        PointWithVelocity { x: 300, y: 0, velocity_x: -100, velocity_y: 2 },
    ];
    assert_eq!((min_x(&points), max_x(&points)), (0, 300));
    assert_eq!((min_y(&points), max_y(&points)), (0, 10));
    assert!(!close_enough(&points));
    move_points(&mut points);
    assert_eq!((points[0].x, points[0].y), (100, 9));
    assert_eq!((points[1].x, points[1].y), (200, 2));
    assert!(close_enough(&points));
    let wide = vec![
        PointWithVelocity { x: 0, y: 0, velocity_x: 0, velocity_y: 0 },
        PointWithVelocity { x: 0, y: 150, velocity_x: 0, velocity_y: 0 },
    ];
    assert!(!close_enough(&wide));
}

#[test]
fn fuel_cell_power_levels() {
    assert_eq!(calculate_power_level(3, 5, 8), 4);
    assert_eq!(calculate_power_level(122, 79, 57), -5);
    assert_eq!(calculate_power_level(217, 196, 39), 0);
    assert_eq!(calculate_power_level(101, 153, 71), 4);
    assert_eq!(calculate_power_level(0, 0, 5), -5);
    assert_eq!(calculate_power_level(0, 0, -20), -3);
}

#[test]
fn square_power_totals() {
    let grid = generate_grid(18);
    assert_eq!(grid[33][45], calculate_power_level(33, 45, 18));
    assert_eq!(power_for_square(grid, 33, 45, 3), 29);
    assert_eq!(power_for_square(grid, 298, 0, 3), 0);
    assert_eq!(power_for_square(grid, 0, 0, 0), 0);
    let grid = generate_grid(42);
    assert_eq!(power_for_square(grid, 21, 61, 3), 30);
}

#[test]
fn plant_generations() {
    let rules = vec![
        "...##", "..#..", ".#...", ".#.#.", ".#.##", ".##..", ".####", "#.#.#", "#.###", "##.#.",
        "##.##", "###..", "###.#", "####.",
    ];
    let mut first = "#..#.#..##......###...###".to_string();
    let (next, zero) = change(&mut first, &rules, 0);
    assert_eq!(first, "#..#.#..##......###...###");
    assert_eq!(next, "...#...#....#.....#..#..#..#.......");
    assert_eq!(zero, 0);
    let mut state = "#..#.#..##......###...###".to_string();
    let mut pot_zero_at: i64 = 0;
    for _ in 0..20 {
        let (new_state, new_zero) = change(&mut state, &rules, pot_zero_at);
        pot_zero_at = new_zero;
        state = new_state.trim_start_matches('.').trim_end_matches('.').to_string();
    }
    let sum: i64 = state
        .char_indices()
        .filter(|(_, c)| *c == '#')
        .map(|(i, _)| i as i64 - pot_zero_at)
        .sum();
    assert_eq!(sum, 325);
    let (empty, zero) = change(&mut String::new(), &rules, 4);
    assert_eq!(empty, "..........");
    assert_eq!(zero, 4);
}

#[test]
fn first_repeated_frequency() {
    assert_eq!(find_frequency_used_twice(0, &[1, -1], vec![0], 100), Some(0));
    assert_eq!(find_frequency_used_twice(0, &[3, 3, 4, -2, -4], vec![0], 100), Some(10));
    assert_eq!(find_frequency_used_twice(0, &[-6, 3, 8, 5, -6], vec![0], 100), Some(5));
    assert_eq!(find_frequency_used_twice(0, &[7, 7, -2, -7, -4], vec![0], 100), Some(14));
    assert_eq!(find_frequency_used_twice(0, &[1, -2, 3, 1], vec![0], 100), Some(2));
    assert_eq!(find_frequency_used_twice(0, &[1], vec![0], 50), None);
    assert_eq!(find_frequency_used_twice(0, &[1, -2, 3, 1], vec![0], 3), None);
}

#[test]
fn star_picture() {
    let points = vec![
        PointWithVelocity { x: 1, y: 1, velocity_x: 0, velocity_y: 0 },
        PointWithVelocity { x: 2, y: 3, velocity_x: 0, velocity_y: 0 },
        PointWithVelocity { x: 3, y: 1, velocity_x: 0, velocity_y: 0 },
    ];
    assert_eq!(draw(&points), vec!["#..", "..#", "#.."]);
}

#[test]
fn square_names() {
    assert_eq!(square_key(90, 269, 16), "90-269-16");
    assert_eq!(square_key(0, 7, 300), "0-7-300");
}

#[test]
fn most_powerful_square_of_serial_18() {
    let grid = generate_grid(18);
    assert_eq!(largest_power_square(grid), "90-269-16");
}

#[test]
fn most_powerful_square_of_serial_42() {
    let grid = generate_grid(42);
    assert_eq!(largest_power_square(grid), "232-251-12");
}
