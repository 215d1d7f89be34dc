use fixedbitset::FixedBitSet;
use game_of_life::universe::next_state;
use game_of_life::Universe;
use game_of_life::UniverseError;

fn seed(i: usize) -> bool {
    i % 2 == 0 || i % 7 == 0
}

/// A universe of the given size with no live cell.
fn empty(width: u32, height: u32) -> Universe {
    let mut universe = Universe::with_dimension(width, height).unwrap();
    for row in 0..height {
        for col in 0..width {
            let index = universe.get_index(row, col);
            if universe.get_cells().contains(index) {
                universe.toggle_cell(row, col).unwrap();
            }
        }
    }
    assert_eq!(universe.get_cells().count_ones(..), 0);
    universe
}

fn with_cells(width: u32, height: u32, cells: &[(u32, u32)]) -> Universe {
    let mut universe = empty(width, height);
    universe.set_cells(cells).unwrap();
    universe
}

fn alive_cells(universe: &Universe) -> Vec<(u32, u32)> {
    let mut alive = Vec::new();
    for row in 0..universe.height() {
        for col in 0..universe.width() {
            if universe.get_cells().contains(universe.get_index(row, col)) {
                alive.push((row, col));
            }
        }
    }
    alive
}

/// The glider laid over the seed pattern of a fresh universe.
fn seeded_input_spaceship() -> Universe {
    let mut universe = Universe::with_dimension(6, 6).unwrap();
    universe
        .set_cells(&[(1, 2), (2, 3), (3, 1), (3, 2), (3, 3)])
        .unwrap();
    universe
}

/// The moved glider laid over the seed pattern of a fresh universe.
fn seeded_expected_spaceship() -> Universe {
    let mut universe = Universe::with_dimension(6, 6).unwrap();
    universe
        .set_cells(&[(2, 1), (2, 3), (3, 2), (3, 3), (4, 2)])
        .unwrap();
    universe
}

fn input_spaceship() -> Universe {
    with_cells(6, 6, &[(1, 2), (2, 3), (3, 1), (3, 2), (3, 3)])
}

fn expected_spaceship() -> Universe {
    with_cells(6, 6, &[(2, 1), (2, 3), (3, 2), (3, 3), (4, 2)])
}

#[test]
fn test_tick() {
    let mut input_universe = seeded_input_spaceship();

    let expected_universe = seeded_expected_spaceship();

    input_universe.tick();

    let diff = input_universe
        .get_cells()
        .difference(expected_universe.get_cells());

    assert_eq!(diff.count(), 0);
}

#[test]
fn glider_moves_one_step() {
    let mut input_universe = input_spaceship();
    let expected_universe = expected_spaceship();

    input_universe.tick();

    let diff = input_universe.get_cells().difference(expected_universe.get_cells());
    assert_eq!(diff.count(), 0);
    assert_eq!(input_universe.get_cells(), expected_universe.get_cells());
    assert_eq!(
        alive_cells(&input_universe),
        vec![(2, 1), (2, 3), (3, 2), (3, 3), (4, 2)]
    );
}

#[test]
fn glider_returns_displaced_after_four_generations() {
    let mut universe = input_spaceship();
    for _ in 0..4 {
        universe.tick();
    }
    assert_eq!(
        alive_cells(&universe),
        vec![(2, 3), (3, 4), (4, 2), (4, 3), (4, 4)]
    );
}

#[test]
fn default_universe_is_64_by_64_and_seeded() {
    let universe = Universe::new();
    assert_eq!(universe.width(), 64);
    assert_eq!(universe.height(), 64);
    assert_eq!(universe.get_cells().len(), 4096);
    for i in 0..4096usize {
        assert_eq!(universe.get_cells().contains(i), seed(i), "cell {}", i);
    }
}

#[test]
fn with_dimension_64_matches_the_seed_rule() {
    let universe = Universe::with_dimension(64, 64).unwrap();
    let mut expected = FixedBitSet::with_capacity(4096);
    for i in 0..4096usize {
        expected.set(i, seed(i));
    }
    assert_eq!(universe.get_cells(), &expected);
    assert_eq!(universe.get_cells(), Universe::new().get_cells());
}

#[test]
fn with_dimension_seeds_a_rectangle() {
    let universe = Universe::with_dimension(5, 3).unwrap();
    assert_eq!(universe.width(), 5);
    assert_eq!(universe.height(), 3);
    assert_eq!(universe.get_cells().len(), 15);
    let alive: Vec<usize> = universe.get_cells().ones().collect();
    assert_eq!(alive, vec![0, 2, 4, 6, 7, 8, 10, 12, 14]);
}

#[test]
fn zero_width_is_refused() {
    assert_eq!(
        Universe::with_dimension(0, 4).err(),
        Some(UniverseError::InvalidDimension)
    );
}

#[test]
fn zero_height_is_refused() {
    assert_eq!(
        Universe::with_dimension(4, 0).err(),
        Some(UniverseError::InvalidDimension)
    );
    assert_eq!(
        Universe::with_dimension(0, 0).err(),
        Some(UniverseError::InvalidDimension)
    );
}

#[test]
fn get_index_is_row_major() {
    let universe = Universe::with_dimension(7, 5).unwrap();
    assert_eq!(universe.get_index(0, 0), 0);
    assert_eq!(universe.get_index(0, 6), 6);
    assert_eq!(universe.get_index(1, 0), 7);
    assert_eq!(universe.get_index(3, 4), 25);
    assert_eq!(universe.get_index(4, 6), 34);
}

#[test]
fn get_index_is_a_bijection() {
    let universe = Universe::with_dimension(7, 5).unwrap();
    let mut seen = vec![false; 35];
    for row in 0..5 {
        for col in 0..7 {
            let index = universe.get_index(row, col);
            assert!(index < 35);
            assert!(!seen[index]);
            seen[index] = true;
            assert_eq!((index / 7) as u32, row);
            assert_eq!((index % 7) as u32, col);
        }
    }
    assert!(seen.iter().all(|s| *s));
}

#[test]
fn neighbor_count_in_the_middle() {
    let universe = with_cells(5, 5, &[(1, 1), (1, 2), (1, 3), (2, 1), (2, 2), (3, 3)]);
    assert_eq!(universe.live_neighbor_count(2, 2), 5);
    assert_eq!(universe.live_neighbor_count(1, 2), 4);
    assert_eq!(universe.live_neighbor_count(4, 4), 1);
    assert_eq!(universe.live_neighbor_count(0, 0), 1);
    assert_eq!(universe.live_neighbor_count(4, 0), 0);
}

#[test]
fn neighbor_count_wraps_around_the_edges() {
    let universe = with_cells(4, 3, &[(2, 3), (0, 3), (2, 0), (1, 1)]);
    // (0, 0): north is row 2, west is column 3.
    assert_eq!(universe.live_neighbor_count(0, 0), 4);
    // (2, 3): south is row 0, east is column 0.
    assert_eq!(universe.live_neighbor_count(2, 3), 2);
    assert_eq!(universe.live_neighbor_count(1, 3), 3);
}

#[test]
fn neighbor_count_excludes_the_cell_itself() {
    let universe = with_cells(5, 5, &[(2, 2)]);
    assert_eq!(universe.live_neighbor_count(2, 2), 0);
    assert_eq!(universe.live_neighbor_count(1, 1), 1);
}

#[test]
fn neighbor_count_is_at_most_eight() {
    let mut universe = empty(4, 4);
    let mut all = Vec::new();
    for row in 0..4 {
        for col in 0..4 {
            all.push((row, col));
        }
    }
    universe.set_cells(&all).unwrap();
    for row in 0..4 {
        for col in 0..4 {
            assert_eq!(universe.live_neighbor_count(row, col), 8);
        }
    }
    let seeded = Universe::new();
    for row in 0..64 {
        for col in 0..64 {
            assert!(seeded.live_neighbor_count(row, col) <= 8);
        }
    }
}

#[test]
fn single_cell_universe_counts_itself_in_every_direction() {
    let mut universe = Universe::with_dimension(1, 1).unwrap();
    assert!(universe.get_cells().contains(0));
    assert_eq!(universe.live_neighbor_count(0, 0), 8);
    universe.tick();
    assert!(!universe.get_cells().contains(0));
    assert_eq!(universe.live_neighbor_count(0, 0), 0);
    universe.tick();
    assert!(!universe.get_cells().contains(0));
}

#[test]
fn rule_table() {
    assert!(!next_state(true, 0));
    assert!(!next_state(true, 1));
    assert!(next_state(true, 2));
    assert!(next_state(true, 3));
    for n in 4..=8u8 {
        assert!(!next_state(true, n));
    }
    for n in 0..=8u8 {
        assert_eq!(next_state(false, n), n == 3);
    }
}

#[test]
fn blinker_oscillates() {
    let mut universe = with_cells(5, 5, &[(2, 1), (2, 2), (2, 3)]);
    universe.tick();
    assert_eq!(alive_cells(&universe), vec![(1, 2), (2, 2), (3, 2)]);
    universe.tick();
    assert_eq!(alive_cells(&universe), vec![(2, 1), (2, 2), (2, 3)]);
}

#[test]
fn block_is_still() {
    let mut universe = with_cells(4, 4, &[(1, 1), (1, 2), (2, 1), (2, 2)]);
    universe.tick();
    assert_eq!(alive_cells(&universe), vec![(1, 1), (1, 2), (2, 1), (2, 2)]);
}

#[test]
fn lonely_cell_dies_and_empty_grid_stays_empty() {
    let mut universe = with_cells(5, 5, &[(0, 0)]);
    universe.tick();
    assert_eq!(universe.get_cells().count_ones(..), 0);
    universe.tick();
    assert_eq!(universe.get_cells().count_ones(..), 0);
}

#[test]
fn tick_reads_only_the_old_generation() {
    // A row of three on a 5x5 grid: were the first rows written in place,
    // the centre would see the newly born cell above it.
    let mut universe = with_cells(5, 5, &[(1, 0), (1, 1), (1, 2)]);
    universe.tick();
    assert_eq!(alive_cells(&universe), vec![(0, 1), (1, 1), (2, 1)]);
}

#[test]
fn tick_matches_a_direct_recomputation() {
    let mut universe = Universe::with_dimension(9, 7).unwrap();
    let before = universe.get_cells().clone();
    let (w, h) = (9i64, 7i64);
    let mut expected = FixedBitSet::with_capacity(63);
    for r in 0..h {
        for c in 0..w {
            let mut n = 0;
            for dr in [-1i64, 0, 1] {
                for dc in [-1i64, 0, 1] {
                    if (dr, dc) != (0, 0) {
                        let rr = (r + dr).rem_euclid(h);
                        let cc = (c + dc).rem_euclid(w);
                        if before.contains((rr * w + cc) as usize) {
                            n += 1;
                        }
                    }
                }
            }
            let i = (r * w + c) as usize;
            let alive = before.contains(i);
            expected.set(i, if alive { n == 2 || n == 3 } else { n == 3 });
        }
    }
    universe.tick();
    assert_eq!(universe.get_cells(), &expected);
}

#[test]
fn equal_universes_stay_equal() {
    let mut a = Universe::with_dimension(11, 6).unwrap();
    let mut b = Universe::with_dimension(11, 6).unwrap();
    assert_eq!(a.get_cells(), b.get_cells());
    for _ in 0..10 {
        a.tick();
        b.tick();
        assert_eq!(a.get_cells(), b.get_cells());
    }
}

#[test]
fn toggle_flips_one_cell() {
    let mut universe = Universe::with_dimension(6, 6).unwrap();
    let before = universe.get_cells().clone();
    // Index 15 is neither a multiple of 2 nor of 7: dead.
    assert_eq!(universe.toggle_cell(2, 3), Ok(()));
    assert!(universe.get_cells().contains(15));
    for i in 0..36usize {
        if i != 15 {
            assert_eq!(universe.get_cells().contains(i), before.contains(i));
        }
    }
    // Index 14 is alive.
    assert_eq!(universe.toggle_cell(2, 2), Ok(()));
    assert!(!universe.get_cells().contains(14));
}

#[test]
fn toggle_twice_restores_the_cell() {
    let mut universe = Universe::with_dimension(6, 6).unwrap();
    let before = universe.get_cells().clone();
    for row in 0..6 {
        for col in 0..6 {
            universe.toggle_cell(row, col).unwrap();
            assert_ne!(universe.get_cells(), &before);
            universe.toggle_cell(row, col).unwrap();
            assert_eq!(universe.get_cells(), &before);
        }
    }
}

#[test]
fn toggle_out_of_range_is_refused() {
    let mut universe = Universe::with_dimension(6, 4).unwrap();
    let before = universe.get_cells().clone();
    assert_eq!(universe.toggle_cell(4, 0), Err(UniverseError::OutOfRange));
    assert_eq!(universe.toggle_cell(0, 6), Err(UniverseError::OutOfRange));
    assert_eq!(universe.toggle_cell(3, 5), Ok(()));
    assert_eq!(universe.toggle_cell(3, 5), Ok(()));
    assert_eq!(universe.get_cells(), &before);
}

#[test]
fn set_cells_only_adds() {
    let mut universe = Universe::with_dimension(6, 6).unwrap();
    let before = universe.get_cells().clone();
    // (2, 3) is index 15, dead; (0, 0) is index 0, alive already.
    assert_eq!(universe.set_cells(&[(2, 3), (0, 0)]), Ok(()));
    for i in 0..36usize {
        assert_eq!(universe.get_cells().contains(i), before.contains(i) || i == 15);
    }
}

#[test]
fn set_cells_with_duplicates_is_idempotent() {
    let mut once = empty(6, 6);
    once.set_cells(&[(1, 2), (3, 3)]).unwrap();
    let mut twice = empty(6, 6);
    twice.set_cells(&[(1, 2), (3, 3), (1, 2), (1, 2)]).unwrap();
    twice.set_cells(&[(3, 3)]).unwrap();
    assert_eq!(once.get_cells(), twice.get_cells());
    assert_eq!(alive_cells(&once), vec![(1, 2), (3, 3)]);
}

#[test]
fn set_cells_with_nothing_changes_nothing() {
    let mut universe = Universe::with_dimension(6, 6).unwrap();
    let before = universe.get_cells().clone();
    assert_eq!(universe.set_cells(&[]), Ok(()));
    assert_eq!(universe.get_cells(), &before);
}

#[test]
fn set_cells_out_of_range_changes_nothing() {
    let mut universe = empty(6, 6);
    assert_eq!(
        universe.set_cells(&[(1, 1), (6, 0), (2, 2)]),
        Err(UniverseError::OutOfRange)
    );
    assert_eq!(universe.get_cells().count_ones(..), 0);
    assert_eq!(
        universe.set_cells(&[(1, 1), (0, 6)]),
        Err(UniverseError::OutOfRange)
    );
    assert_eq!(universe.get_cells().count_ones(..), 0);
}

#[test]
fn shifting_the_seed_shifts_the_next_generation() {
    let (width, height) = (6u32, 6u32);
    let glider = [(1u32, 2u32), (2, 3), (3, 1), (3, 2), (3, 3)];
    let mut base = with_cells(width, height, &glider);
    base.tick();
    let expected = alive_cells(&base);
    for rows in 0..height {
        for cols in 0..width {
            let moved: Vec<(u32, u32)> = glider
                .iter()
                .map(|(r, c)| ((r + rows) % height, (c + cols) % width))
                .collect();
            let mut universe = with_cells(width, height, &moved);
            universe.tick();
            let mut want: Vec<(u32, u32)> = expected
                .iter()
                .map(|(r, c)| ((r + rows) % height, (c + cols) % width))
                .collect();
            want.sort();
            assert_eq!(alive_cells(&universe), want);
        }
    }
}
