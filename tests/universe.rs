use wasm_game_of_life::{Cell, GridError, Universe};

fn input_spaceship() -> Universe {
    let mut universe = Universe::new(6, 6).unwrap();
    universe.set_cells(&[(1, 2), (2, 3), (3, 1), (3, 2), (3, 3)]);
    universe
}

fn expected_spaceship() -> Universe {
    let mut universe = Universe::new(6, 6).unwrap();
    universe.set_cells(&[(2, 1), (2, 3), (3, 2), (3, 3), (4, 2)]);
    universe
}

/// Neighbour count over the eight offsets with a modulo on every access, as
/// a reference; on a grid one cell wide or high a cell neighbours itself.
fn naive_count(cells: &[Cell], w: u32, h: u32, row: u32, col: u32) -> u8 {
    let mut n = 0;
    for dr in [-1i64, 0, 1] {
        for dc in [-1i64, 0, 1] {
            if dr == 0 && dc == 0 {
                continue;
            }
            let r = ((row as i64 + dr).rem_euclid(h as i64)) as u32;
            let c = ((col as i64 + dc).rem_euclid(w as i64)) as u32;
            if cells[(r * w + c) as usize] == Cell::Alive {
                n += 1;
            }
        }
    }
    n
}

fn naive_tick(cells: &[Cell], w: u32, h: u32) -> Vec<Cell> {
    let mut out = Vec::new();
    for row in 0..h {
        for col in 0..w {
            let n = naive_count(cells, w, h, row, col);
            out.push(Universe::next_cell(cells[(row * w + col) as usize], n));
        }
    }
    out
}

/// A fixed pseudo-random fill, so that runs are repeatable.
fn scrambled(w: u32, h: u32, seed: u64) -> Vec<Cell> {
    let mut x = seed;
    (0..w * h)
        .map(|_| {
            x = x.wrapping_mul(6364136223846793005).wrapping_add(1442695040888963407);
            if (x >> 33) % 3 == 0 {
                Cell::Alive
            } else {
                Cell::Dead
            }
        })
        .collect()
}

#[test]
fn iterate_succeeds() {
    let mut universe = Universe::new(256, 256).unwrap();
    universe.tick();
}

#[test]
fn test_tick() {
    let mut input_universe = input_spaceship();
    let expected_universe = expected_spaceship();
    input_universe.tick();
    assert_eq!(&input_universe.cells(), &expected_universe.cells());
}

#[test]
fn addresses_iterator_test() {
    let universe = Universe::new(256, 256).unwrap();
    let mut iter = universe.addresses_iter().into_iter();
    for r in 0..universe.height() {
        for c in 0..universe.width() {
            let (ri, ci) = iter.next().unwrap();
            assert_eq!(r, ri);
            assert_eq!(c, ci);
        }
    }
    assert!(iter.next().is_none());
}

#[test]
fn rule_table_is_exact() {
    for n in 0u8..=8 {
        let from_alive = Universe::next_cell(Cell::Alive, n);
        let from_dead = Universe::next_cell(Cell::Dead, n);
        let survives = n == 2 || n == 3;
        assert_eq!(from_alive, if survives { Cell::Alive } else { Cell::Dead }, "alive, n = {n}");
        assert_eq!(from_dead, if n == 3 { Cell::Alive } else { Cell::Dead }, "dead, n = {n}");
    }
}

#[test]
fn opposite_corner_is_a_neighbour() {
    let mut universe = Universe::new(5, 4).unwrap();
    // (0,0) alive with neighbours at (3,4), (0,1) and (3,0): all three wrap or touch.
    universe.set_cells(&[(3, 4), (0, 1), (3, 0)]);
    universe.tick();
    // (0,0) was dead with exactly three live neighbours, so it is born.
    assert_eq!(universe.cells()[0], Cell::Alive);

    let mut lone = Universe::new(5, 4).unwrap();
    lone.set_cells(&[(3, 4), (0, 1)]);
    lone.tick();
    assert_eq!(lone.cells()[0], Cell::Dead);
}

#[test]
fn edge_and_interior_strategies_agree() {
    for (w, h, seed) in [(5, 5, 1), (7, 9, 2), (9, 6, 3), (12, 12, 4), (5, 8, 5)] {
        let start = scrambled(w, h, seed);
        let mut universe = Universe::new(w, h).unwrap();
        universe.load_cells(&start);
        universe.tick();
        assert_eq!(universe.cells(), naive_tick(&start, w, h).as_slice(), "{w}x{h}");
    }
}

#[test]
fn degenerate_sizes_wrap_onto_themselves() {
    for (w, h) in [(1, 1), (1, 5), (6, 1), (2, 2), (2, 7), (3, 1)] {
        for seed in 0..4 {
            let start = scrambled(w, h, seed);
            let mut universe = Universe::new(w, h).unwrap();
            universe.load_cells(&start);
            universe.tick();
            assert_eq!(universe.cells(), naive_tick(&start, w, h).as_slice(), "{w}x{h}");
        }
    }
}

#[test]
fn one_wide_column_counts_itself_left_and_right() {
    // On a 1x3 torus each cell is its own left and right neighbour.
    let mut universe = Universe::new(1, 3).unwrap();
    universe.set_cells(&[(1, 0)]);
    universe.tick();
    // rows 0 and 2 see row 1 three times: born; row 1 sees itself twice: survives
    assert_eq!(universe.cells(), &[Cell::Alive, Cell::Alive, Cell::Alive]);
}

#[test]
fn single_live_cell_sees_itself_eight_times() {
    let mut universe = Universe::new(1, 1).unwrap();
    universe.flip_cell(0, 0);
    universe.tick();
    assert_eq!(universe.cells(), &[Cell::Dead]);
}

#[test]
fn glider_moves_across_the_wrap() {
    let mut universe = input_spaceship();
    for _ in 0..24 {
        universe.tick();
    }
    // after 24 generations a glider on a 6x6 torus is back where it started
    assert_eq!(universe.cells(), input_spaceship().cells());
}

#[test]
fn cell_buffer_matches_dimensions_after_resizes_and_ticks() {
    let mut universe = Universe::new(4, 3).unwrap();
    universe.tick();
    assert_eq!(universe.cells().len(), 12);
    universe.set_width(7);
    assert_eq!(universe.cells().len(), 21);
    universe.tick();
    universe.set_height(2);
    assert_eq!(universe.cells().len(), 14);
    universe.tick();
    universe.tick();
    assert_eq!(universe.cells().len(), (universe.width() * universe.height()) as usize);
}

#[test]
fn resizing_kills_every_cell() {
    let mut universe = input_spaceship();
    universe.set_width(6);
    assert!(universe.cells().iter().all(|&c| c == Cell::Dead));
    let mut universe = input_spaceship();
    universe.set_height(8);
    assert_eq!(universe.height(), 8);
    assert_eq!(universe.width(), 6);
    assert!(universe.cells().iter().all(|&c| c == Cell::Dead));
}

#[test]
fn empty_seed_leaves_a_fresh_grid_dead() {
    let mut seeded = Universe::new(6, 4).unwrap();
    seeded.set_cells(&[]);
    let fresh = Universe::new(6, 4).unwrap();
    assert_eq!(seeded.cells(), fresh.cells());
    assert!(seeded.cells().iter().all(|&c| c == Cell::Dead));
}

#[test]
fn seeding_marks_only_the_given_cells() {
    let mut universe = Universe::new(3, 2).unwrap();
    universe.set_cells(&[(1, 2), (0, 0), (1, 2)]);
    let (a, d) = (Cell::Alive, Cell::Dead);
    assert_eq!(universe.cells(), &[a, d, d, d, d, a]);
}

#[test]
fn zero_or_huge_dimensions_are_refused() {
    assert_eq!(Universe::new(0, 5).err(), Some(GridError::ZeroDimension));
    assert_eq!(Universe::new(5, 0).err(), Some(GridError::ZeroDimension));
    assert_eq!(Universe::new(0x1_0000, 0x1_0000).err(), Some(GridError::TooLarge));
}

#[test]
fn flip_toggles_one_cell() {
    let mut universe = Universe::new(4, 3).unwrap();
    universe.flip_cell(2, 1);
    assert_eq!(universe.cells()[9], Cell::Alive);
    assert_eq!(universe.cells().iter().filter(|&&c| c == Cell::Alive).count(), 1);
    universe.flip_cell(2, 1);
    assert!(universe.cells().iter().all(|&c| c == Cell::Dead));
    let mut c = Cell::Dead;
    c.flip();
    assert_eq!(c, Cell::Alive);
    c.flip();
    assert_eq!(c, Cell::Dead);
}

#[test]
fn reset_zero_clears_the_grid() {
    let mut universe = input_spaceship();
    universe.reset_zero();
    assert_eq!(universe.cells(), Universe::new(6, 6).unwrap().cells());
}

#[test]
fn render_draws_one_line_per_row() {
    let mut universe = Universe::new(3, 2).unwrap();
    universe.set_cells(&[(0, 1), (1, 2)]);
    assert_eq!(universe.render(), "\u{25FB}\u{25FC}\u{25FB}\n\u{25FB}\u{25FB}\u{25FC}\n");
}

#[test]
fn cell_addresses_split_live_and_dead() {
    let mut universe = Universe::new(3, 2).unwrap();
    universe.set_cells(&[(0, 1), (1, 2)]);
    assert_eq!(universe.cell_addresses(Cell::Alive), vec![(0, 1), (1, 2)]);
    assert_eq!(
        universe.cell_addresses(Cell::Dead),
        vec![(0, 0), (0, 2), (1, 0), (1, 1)]
    );
}

#[test]
fn index_is_row_major() {
    let universe = Universe::new(7, 3).unwrap();
    assert_eq!(universe.get_index(0, 0), 0);
    assert_eq!(universe.get_index(2, 6), 20);
    assert_eq!(universe.get_index(1, 3), 10);
    assert_eq!(Cell::Alive.value() + Cell::Dead.value(), 1);
}

#[test]
fn corner_counts_opposite_corner() {
    let mut universe = Universe::new(5, 4).unwrap();
    universe.set_cells(&[(0, 0), (3, 4)]);
    assert_eq!(universe.live_neighbour_count_edge(0, 0), 1);
    assert_eq!(universe.live_neighbour_count_edge(3, 4), 1);
}

#[test]
fn centre_count_matches_edge_count_inside() {
    let (w, h) = (7u32, 6u32);
    let start = scrambled(w, h, 9);
    let mut universe = Universe::new(w, h).unwrap();
    universe.load_cells(&start);
    for row in 1..h - 1 {
        let (above, here, below) = universe.live_neighbour_count_row_context(row);
        for col in 1..w - 1 {
            let centre = Universe::live_neighbour_count_centre(above, here, below, col as usize);
            assert_eq!(centre, universe.live_neighbour_count_edge(row, col));
            assert_eq!(centre, naive_count(&start, w, h, row, col));
        }
    }
}
