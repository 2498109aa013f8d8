use raycasting::maze::{
    area_is_free, cell_at, find_cell, height_in_cells, is_goal_at, is_wall, parse_maze, ray_hit,
    width_in_cells,
};

fn sample() -> Vec<Vec<char>> {
    parse_maze("+-+-+\n|p  |\n| + g\n+---+\n")
}

#[test]
fn parse_splits_lines() {
    let m = parse_maze("ab\r\ncd\n\nx");
    assert_eq!(m, vec![vec!['a', 'b'], vec!['c', 'd'], vec![], vec!['x']]);
    assert_eq!(parse_maze(""), Vec::<Vec<char>>::new());
    assert_eq!(parse_maze("a\n"), vec![vec!['a']]);
    assert_eq!(parse_maze("a\r"), vec![vec!['a', '\r']]);
}

#[test]
fn dimensions() {
    let m = parse_maze("ab\nabcd\nc");
    assert_eq!(height_in_cells(&m), 3);
    assert_eq!(width_in_cells(&m), 4);
    assert_eq!(width_in_cells(&Vec::new()), 0);
}

#[test]
fn walls_and_open_cells() {
    let m = sample();
    assert!(is_wall(&m, 0, 0));
    assert!(!is_wall(&m, 1, 1)); // spawn
    assert!(!is_wall(&m, 1, 2)); // empty
    assert!(!is_wall(&m, 2, 4)); // goal
    assert!(is_wall(&m, 2, 2)); // '+'
    assert!(is_wall(&m, 9, 0)); // outside
    assert!(is_wall(&m, 0, 9));
    assert_eq!(cell_at(&m, 4, 2), Some('g'));
    assert_eq!(cell_at(&m, 5, 2), None);
}

#[test]
fn find_first_cell() {
    let m = parse_maze("  G\n g \n");
    assert_eq!(find_cell(&m, 'g'), Some((2, 0)));
    assert_eq!(find_cell(&m, 'G'), Some((2, 0)));
    assert_eq!(find_cell(&m, 'p'), None);
    let m2 = parse_maze("ab\nb");
    assert_eq!(find_cell(&m2, 'b'), Some((1, 0)));
}

#[test]
fn rays_stop_at_walls() {
    let m = sample();
    assert_eq!(ray_hit(&m, 150, 150, 100), None);
    assert_eq!(ray_hit(&m, 50, 150, 100), Some('|'));
    assert_eq!(ray_hit(&m, 250, 250, 100), Some('+'));
    assert_eq!(ray_hit(&m, 450, 250, 100), None);
    assert_eq!(ray_hit(&m, 950, 150, 100), Some('#'));
}

#[test]
fn free_area_needs_every_point_open() {
    let m = sample();
    assert!(area_is_free(&m, &[Some((150, 150)), Some((199, 199))], 100));
    assert!(!area_is_free(&m, &[Some((150, 150)), Some((250, 250))], 100));
    assert!(!area_is_free(&m, &[Some((150, 150)), None], 100));
    assert!(area_is_free(&m, &[], 100));
}

#[test]
fn goal_detection() {
    let m = sample();
    assert!(is_goal_at(&m, 450, 250, 100));
    assert!(!is_goal_at(&m, 150, 150, 100));
    assert!(!is_goal_at(&m, 5000, 5000, 100));
    let upper = parse_maze("G");
    assert!(is_goal_at(&upper, 10, 10, 100));
}
