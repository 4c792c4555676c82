use game_of_life::Universe;

const ALIVE: char = '\u{25FC}';

/// The board on which exactly the given cells are alive.
fn board(live: &[(u32, u32)]) -> Universe {
    let mut samples = [0.25f64.to_bits(); 4096];
    for &(row, col) in live {
        samples[(row * 64 + col) as usize] = 0.75f64.to_bits();
    }
    Universe::random(&samples)
}

/// The live cells of a board in row-major order, read from its picture.
fn live_cells(universe: &Universe) -> Vec<(u32, u32)> {
    let mut live = Vec::new();
    for (row, line) in universe.render().lines().enumerate() {
        for (col, glyph) in line.chars().enumerate() {
            if glyph == ALIVE {
                live.push((row as u32, col as u32));
            }
        }
    }
    live
}

/// The cells moved by the given offsets around the torus, in row-major order.
fn shifted(cells: &[(u32, u32)], rows: u32, cols: u32) -> Vec<(u32, u32)> {
    let mut moved: Vec<(u32, u32)> =
        cells.iter().map(|&(row, col)| ((row + rows) % 64, (col + cols) % 64)).collect();
    moved.sort();
    moved
}

/// One generation computed cell by cell on a plain table, to hold `tick`
/// against.
fn next_table(table: &Vec<Vec<bool>>) -> Vec<Vec<bool>> {
    let mut next = vec![vec![false; 64]; 64];
    for row in 0..64usize {
        for col in 0..64usize {
            let mut count = 0;
            for down in [63usize, 0, 1] {
                for right in [63usize, 0, 1] {
                    if (down, right) != (0, 0) && table[(row + down) % 64][(col + right) % 64] {
                        count += 1;
                    }
                }
            }
            next[row][col] = count == 3 || (table[row][col] && count == 2);
        }
    }
    next
}

fn table_of(universe: &Universe) -> Vec<Vec<bool>> {
    let mut table = vec![vec![false; 64]; 64];
    for (row, col) in live_cells(universe) {
        table[row as usize][col as usize] = true;
    }
    table
}

#[test]
fn neighbors_of_dead_board() {
    let universe = Universe::new();
    for row in 0..64 {
        for col in 0..64 {
            assert_eq!(universe.live_neighbor_count(row, col), 0);
        }
    }
}

#[test]
fn neighbors_of_full_board() {
    let universe = Universe::random(&[0.75f64.to_bits(); 4096]);
    for row in 0..64 {
        for col in 0..64 {
            assert_eq!(universe.live_neighbor_count(row, col), 8);
        }
    }
}

#[test]
fn neighbors_do_not_count_the_cell_itself() {
    let universe = board(&[(10, 10)]);
    assert_eq!(universe.live_neighbor_count(10, 10), 0);
    for row in 9..12 {
        for col in 9..12 {
            if (row, col) != (10, 10) {
                assert_eq!(universe.live_neighbor_count(row, col), 1);
            }
        }
    }
    assert_eq!(universe.live_neighbor_count(8, 10), 0);
    assert_eq!(universe.live_neighbor_count(10, 12), 0);
}

#[test]
fn neighbors_count_each_of_the_eight() {
    let around = [(4, 4), (4, 5), (4, 6), (5, 4), (5, 6), (6, 4), (6, 5), (6, 6)];
    for size in 0..=8 {
        let universe = board(&around[..size]);
        assert_eq!(universe.live_neighbor_count(5, 5), size as u8);
    }
}

#[test]
fn corner_counts_the_opposite_corner() {
    let universe = board(&[(63, 63)]);
    assert_eq!(universe.live_neighbor_count(0, 0), 1);
    assert_eq!(universe.live_neighbor_count(0, 63), 1);
    assert_eq!(universe.live_neighbor_count(63, 0), 1);
    assert_eq!(universe.live_neighbor_count(63, 63), 0);
    assert_eq!(universe.live_neighbor_count(1, 1), 0);
    let back = board(&[(0, 0)]);
    assert_eq!(back.live_neighbor_count(63, 63), 1);
}

#[test]
fn edges_wrap_on_both_axes() {
    let top = board(&[(0, 20)]);
    assert_eq!(top.live_neighbor_count(63, 19), 1);
    assert_eq!(top.live_neighbor_count(63, 20), 1);
    assert_eq!(top.live_neighbor_count(63, 21), 1);
    assert_eq!(top.live_neighbor_count(62, 20), 0);
    let left = board(&[(20, 0)]);
    assert_eq!(left.live_neighbor_count(19, 63), 1);
    assert_eq!(left.live_neighbor_count(20, 63), 1);
    assert_eq!(left.live_neighbor_count(21, 63), 1);
    assert_eq!(left.live_neighbor_count(20, 62), 0);
}

#[test]
fn corner_sees_all_eight_around_the_torus() {
    let universe =
        board(&[(63, 63), (63, 0), (63, 1), (0, 63), (0, 1), (1, 63), (1, 0), (1, 1)]);
    assert_eq!(universe.live_neighbor_count(0, 0), 8);
}

#[test]
fn neighbor_coordinates_wrap() {
    let universe = Universe::interesting();
    for (row, col) in [(0u32, 0u32), (5, 63), (63, 7), (31, 32)] {
        let count = universe.live_neighbor_count(row, col);
        assert_eq!(universe.live_neighbor_count(row + 64, col), count);
        assert_eq!(universe.live_neighbor_count(row, col + 128), count);
        assert_eq!(universe.live_neighbor_count(row + 64 * 1000, col + 64 * 77), count);
    }
    assert_eq!(
        universe.live_neighbor_count(u32::MAX, u32::MAX),
        universe.live_neighbor_count(63, 63)
    );
}

#[test]
fn lonely_cell_dies() {
    let mut universe = board(&[(5, 5)]);
    assert_eq!(universe.live_neighbor_count(5, 5), 0);
    universe.tick();
    assert!(live_cells(&universe).is_empty());
}

#[test]
fn lonely_cell_in_the_corner_dies() {
    let mut universe = board(&[(0, 0)]);
    universe.tick();
    assert!(live_cells(&universe).is_empty());
}

#[test]
fn dead_board_stays_dead() {
    let mut universe = Universe::new();
    universe.tick();
    assert!(live_cells(&universe).is_empty());
    assert!(universe.cells().iter().all(|&word| word == 0));
}

#[test]
fn pair_dies() {
    let mut universe = board(&[(5, 5), (5, 6)]);
    universe.tick();
    assert!(live_cells(&universe).is_empty());
}

#[test]
fn full_board_dies_of_overpopulation() {
    let mut universe = Universe::random(&[0.75f64.to_bits(); 4096]);
    universe.tick();
    assert!(live_cells(&universe).is_empty());
}

#[test]
fn three_in_a_corner_give_birth() {
    let mut universe = board(&[(5, 5), (5, 6), (6, 5)]);
    universe.tick();
    assert_eq!(live_cells(&universe), vec![(5, 5), (5, 6), (6, 5), (6, 6)]);
}

#[test]
fn crowded_cell_dies() {
    let mut universe = board(&[(5, 5), (4, 4), (4, 6), (6, 4), (6, 6)]);
    assert_eq!(universe.live_neighbor_count(5, 5), 4);
    universe.tick();
    assert_eq!(live_cells(&universe), vec![(4, 5), (5, 4), (5, 6), (6, 5)]);
}

#[test]
fn block_is_stable() {
    let block = vec![(10, 10), (10, 11), (11, 10), (11, 11)];
    let mut universe = board(&block);
    for &(row, col) in block.iter() {
        assert_eq!(universe.live_neighbor_count(row, col), 3);
    }
    for _ in 0..10 {
        universe.tick();
        assert_eq!(live_cells(&universe), block);
    }
}

#[test]
fn block_across_the_corner_is_stable() {
    let block = vec![(0, 0), (0, 63), (63, 0), (63, 63)];
    let mut universe = board(&block);
    for &(row, col) in block.iter() {
        assert_eq!(universe.live_neighbor_count(row, col), 3);
    }
    for _ in 0..10 {
        universe.tick();
        assert_eq!(live_cells(&universe), block);
    }
}

#[test]
fn blinker_turns() {
    let flat = vec![(10, 9), (10, 10), (10, 11)];
    let upright = vec![(9, 10), (10, 10), (11, 10)];
    let mut universe = board(&flat);
    universe.tick();
    assert_eq!(live_cells(&universe), upright);
    universe.tick();
    assert_eq!(live_cells(&universe), flat);
}

#[test]
fn blinker_turns_across_the_edge() {
    let flat = vec![(0, 0), (0, 1), (0, 63)];
    let upright = vec![(0, 0), (1, 0), (63, 0)];
    let mut universe = board(&flat);
    universe.tick();
    assert_eq!(live_cells(&universe), upright);
    universe.tick();
    assert_eq!(live_cells(&universe), flat);
}

#[test]
fn glider_generations() {
    let mut universe = Universe::with_glider();
    universe.tick();
    assert_eq!(live_cells(&universe), vec![(33, 32), (33, 34), (34, 33), (34, 34), (35, 33)]);
    universe.tick();
    assert_eq!(live_cells(&universe), vec![(33, 34), (34, 32), (34, 34), (35, 33), (35, 34)]);
    universe.tick();
    assert_eq!(live_cells(&universe), vec![(33, 33), (34, 34), (34, 35), (35, 33), (35, 34)]);
    universe.tick();
    assert_eq!(live_cells(&universe), vec![(33, 34), (34, 35), (35, 33), (35, 34), (35, 35)]);
}

#[test]
fn glider_moves_one_down_and_right_in_four_ticks() {
    let mut universe = Universe::with_glider();
    let start = live_cells(&universe);
    for _ in 0..4 {
        universe.tick();
    }
    assert_eq!(live_cells(&universe), shifted(&start, 1, 1));
    for _ in 0..4 {
        universe.tick();
    }
    assert_eq!(live_cells(&universe), shifted(&start, 2, 2));
}

#[test]
fn glider_crosses_the_edges() {
    let mut universe = Universe::with_glider();
    let start = live_cells(&universe);
    for _ in 0..4 * 30 {
        universe.tick();
    }
    assert_eq!(live_cells(&universe), shifted(&start, 30, 30));
    assert_eq!(live_cells(&universe), vec![(0, 0), (0, 62), (0, 63), (62, 63), (63, 0)]);
}

#[test]
fn glider_comes_back_around_the_torus() {
    let mut universe = Universe::with_glider();
    let start = live_cells(&universe);
    for _ in 0..4 * 64 {
        universe.tick();
    }
    assert_eq!(live_cells(&universe), start);
}

#[test]
fn tick_agrees_with_a_plain_table() {
    let mut universe = Universe::interesting();
    let mut table = table_of(&universe);
    for _ in 0..12 {
        universe.tick();
        table = next_table(&table);
        assert_eq!(table_of(&universe), table);
    }
}

#[test]
fn tick_on_scattered_cells_agrees_with_a_plain_table() {
    let mut samples = [0u64; 4096];
    let mut state: u64 = 0x9E37_79B9_7F4A_7C15;
    for sample in samples.iter_mut() {
        state = state.wrapping_mul(6364136223846793005).wrapping_add(1442695040888963407);
        *sample = ((state >> 11) as f64 / 9007199254740992.0).to_bits();
    }
    let mut universe = Universe::random(&samples);
    let mut table = table_of(&universe);
    for _ in 0..12 {
        universe.tick();
        table = next_table(&table);
        assert_eq!(table_of(&universe), table);
    }
}

#[test]
fn tick_keeps_the_size() {
    let mut universe = Universe::with_glider();
    for _ in 0..3 {
        universe.tick();
        assert_eq!(universe.num_rows(), 64);
        assert_eq!(universe.num_cols(), 64);
        assert_eq!(universe.cells().len() * usize::BITS as usize, 4096);
    }
}

#[test]
fn tick_reads_only_the_old_generation() {
    let mut universe = board(&[(20, 20), (20, 21), (20, 22), (21, 20), (22, 21)]);
    let table = next_table(&table_of(&universe));
    universe.tick();
    assert_eq!(table_of(&universe), table);
}
