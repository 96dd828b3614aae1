use game_of_life::grid::{Grid, PhysicalSize};

/// A board from rows in which `#` is alive.
fn board(rows: &[&str]) -> Grid {
    Grid { grid: rows.iter().map(|r| r.chars().map(|c| c == '#').collect()).collect() }
}

fn rows(grid: &Grid) -> Vec<String> {
    grid.grid
        .iter()
        .map(|r| r.iter().map(|c| if *c { '#' } else { '.' }).collect())
        .collect()
}

fn after(start: &[&str], generations: usize) -> Vec<String> {
    let mut grid = board(start);
    for _ in 0..generations {
        grid.update();
    }
    rows(&grid)
}

/// A board that looks random but is always the same.
fn sample(height: usize, width: usize) -> Grid {
    let mut x: u32 = 2463534242;
    let mut grid = Vec::new();
    for _ in 0..height {
        let mut row = Vec::new();
        for _ in 0..width {
            x ^= x << 13;
            x ^= x >> 17;
            x ^= x << 5;
            row.push(x % 3 == 0);
        }
        grid.push(row);
    }
    Grid { grid }
}

#[test]
fn new_board_is_dead_and_has_a_cell_for_ten_pixels() {
    let grid = Grid::new(105, 39);
    assert_eq!(grid.width(), 10);
    assert_eq!(grid.height(), 3);
    assert!(grid.grid.iter().all(|r| r.len() == 10 && r.iter().all(|c| !*c)));
    assert_eq!(Grid::new(800, 800).grid, vec![vec![false; 80]; 80]);
    assert_eq!(Grid::new(800, 9).height(), 0);
    assert_eq!(Grid::new(9, 800).width(), 0);
}

#[test]
fn lonely_and_crowded_cells_die() {
    assert_eq!(after(&["...", ".#.", "..."], 1), ["...", "...", "..."]);
    assert_eq!(after(&["#..", ".#.", "..."], 1), ["...", "...", "..."]);
    assert_eq!(after(&[".#.", "###", ".#."], 1), ["###", "#.#", "###"]);
    assert_eq!(after(&["###", "###", "###"], 1), ["#.#", "...", "#.#"]);
}

#[test]
fn two_or_three_neighbors_keep_a_cell_alive() {
    assert_eq!(after(&["#..", ".#.", "..#"], 1), ["...", ".#.", "..."]);
    assert_eq!(after(&["##", "##"], 1), ["##", "##"]);
}

#[test]
fn three_neighbors_bring_a_cell_to_life() {
    assert_eq!(after(&["##", "#."], 1), ["##", "##"]);
    assert_eq!(after(&["#.#", "...", "#.."], 1), ["...", ".#.", "..."]);
    assert_eq!(after(&["#.#", "...", "#.#"], 1), ["...", "...", "..."]);
}

#[test]
fn nothing_lives_beyond_the_border() {
    assert_eq!(after(&["#..#", "....", "....", "#..#"], 1), ["....", "....", "....", "...."]);
    assert_eq!(after(&["###"], 1), [".#."]);
    assert_eq!(after(&["#", "#", "#"], 1), [".", "#", "."]);
    assert_eq!(after(&["#"], 1), ["."]);
    assert_eq!(after(&["", ""], 1), ["", ""]);
}

#[test]
fn dead_board_stays_dead() {
    let mut grid = Grid::new(200, 100);
    grid.update();
    assert_eq!(grid.grid, vec![vec![false; 20]; 10]);
}

#[test]
fn block_is_still() {
    let start = ["##....", "##....", "....##", "....##"];
    assert_eq!(after(&start, 5), start);
}

#[test]
fn blinker_turns() {
    let bar = [".....", ".....", ".###.", ".....", "....."];
    let pillar = [".....", "..#..", "..#..", "..#..", "....."];
    assert_eq!(after(&bar, 1), pillar);
    assert_eq!(after(&bar, 2), bar);
}

#[test]
fn glider_walks() {
    let start = [".#...", "..#..", "###..", ".....", "....."];
    let end = [".....", "..#..", "...#.", ".###.", "....."];
    assert_eq!(after(&start, 4), end);
}

#[test]
fn update_keeps_the_shape() {
    let mut grid = sample(13, 29);
    grid.update();
    assert_eq!(grid.height(), 13);
    assert!(grid.grid.iter().all(|r| r.len() == 29));
}

#[test]
fn update_commutes_with_flip_mirror_and_transpose() {
    let start = sample(17, 23);
    let flip = |g: &Grid| Grid { grid: g.grid.iter().rev().cloned().collect() };
    let mirror = |g: &Grid| Grid {
        grid: g.grid.iter().map(|r| r.iter().rev().cloned().collect()).collect(),
    };
    let transpose = |g: &Grid| Grid {
        grid: (0..g.width()).map(|x| g.grid.iter().map(|r| r[x]).collect()).collect(),
    };
    let mut next = start.clone();
    next.update();
    for change in [&flip as &dyn Fn(&Grid) -> Grid, &mirror, &transpose] {
        let mut changed = change(&start);
        changed.update();
        assert_eq!(changed.grid, change(&next).grid);
    }
}

#[test]
fn next_state_depends_on_the_neighborhood_alone() {
    let mut one = sample(9, 9);
    let mut other = one.clone();
    for y in 0..9 {
        for x in 0..9 {
            if y < 3 || y > 5 || x < 3 || x > 5 {
                other.grid[y][x] = !other.grid[y][x];
            }
        }
    }
    one.update();
    other.update();
    assert_eq!(one.grid[4][4], other.grid[4][4]);
}

#[test]
fn life_comes_from_life() {
    let start = sample(20, 20);
    let mut next = start.clone();
    next.update();
    for y in 0..20usize {
        for x in 0..20usize {
            if next.grid[y][x] {
                assert!((y.max(1) - 1..(y + 2).min(20))
                    .any(|i| (x.max(1) - 1..(x + 2).min(20)).any(|j| start.grid[i][j])));
            }
        }
    }
}

#[test]
fn resize_keeps_what_fits() {
    let mut grid = board(&["##.", ".##", "###"]);
    grid.resize(PhysicalSize { width: 45, height: 29 });
    assert_eq!(rows(&grid), ["##..", ".##."]);
    grid.resize(PhysicalSize { width: 20, height: 40 });
    assert_eq!(rows(&grid), ["##", ".#", "..", ".."]);
    grid.resize(PhysicalSize { width: 25, height: 49 });
    assert_eq!(rows(&grid), ["##", ".#", "..", ".."]);
}

#[test]
fn resize_to_the_same_shape_changes_nothing() {
    let start = sample(8, 12);
    let mut grid = start.clone();
    grid.resize(PhysicalSize { width: 129, height: 80 });
    assert_eq!(grid.grid, start.grid);
}

#[test]
fn growing_and_shrinking_back_restores_the_board() {
    let start = sample(8, 12);
    let mut grid = start.clone();
    grid.resize(PhysicalSize { width: 500, height: 333 });
    assert_eq!((grid.width(), grid.height()), (50, 33));
    grid.resize(PhysicalSize { width: 125, height: 87 });
    assert_eq!(grid.grid, start.grid);
}

#[test]
fn resize_below_one_row_empties_the_board() {
    let mut grid = sample(3, 3);
    grid.resize(PhysicalSize { width: 800, height: 9 });
    assert_eq!(grid.height(), 0);
    let mut grid = sample(3, 3);
    grid.resize(PhysicalSize { width: 3, height: 50 });
    assert_eq!((grid.width(), grid.height()), (0, 5));
}

#[test]
fn fill_gives_every_cell_its_draw() {
    let mut grid = board(&["...", "###"]);
    grid.fill(&vec![vec![true, false, true], vec![false, true, true]]);
    assert_eq!(rows(&grid), ["#.#", ".##"]);
    let other = sample(7, 11);
    let mut grid = Grid::new(110, 70);
    grid.fill(&other.grid);
    assert_eq!(grid.grid, other.grid);
}

#[test]
fn randomize_mixes_the_board_and_keeps_its_shape() {
    let mut grid = Grid::new(800, 400);
    grid.randomize();
    assert_eq!(grid.height(), 40);
    assert!(grid.grid.iter().all(|r| r.len() == 80));
    let alive = grid.grid.iter().flatten().filter(|c| **c).count();
    assert!(alive > 800 && alive < 2400, "{} of 3200 alive", alive);
    let first = grid.clone();
    grid.randomize();
    assert_ne!(grid.grid, first.grid);
}

#[test]
fn randomize_leaves_an_empty_board_empty() {
    let mut grid = Grid::new(5, 5);
    grid.randomize();
    assert_eq!(grid.height(), 0);
}

#[test]
fn clone_has_the_same_cells() {
    let grid = sample(4, 5);
    assert_eq!(grid.clone().grid, grid.grid);
}
