use game_of_life::Universe;
use game_of_life::universe::CELLS;
use game_of_life::universe::COLS;
use game_of_life::universe::ROWS;

const ALIVE: char = '\u{25FC}';
const DEAD: char = '\u{25FB}';

/// The board on which exactly the given cells are alive.
fn board(live: &[(u32, u32)]) -> Universe {
    let mut samples = [0.25f64.to_bits(); 4096];
    for &(row, col) in live {
        samples[(row * 64 + col) as usize] = 0.75f64.to_bits();
    }
    Universe::random(&samples)
}

/// The live cells of a board, read from its picture.
fn live_cells(universe: &Universe) -> Vec<(u32, u32)> {
    let mut live = Vec::new();
    for (row, line) in universe.render().lines().enumerate() {
        for (col, glyph) in line.chars().enumerate() {
            if glyph == ALIVE {
                live.push((row as u32, col as u32));
            }
        }
    }
    live
}

/// The cell with the given row-major index, read from the storage words.
fn stored_bit(universe: &Universe, index: usize) -> bool {
    let width = usize::BITS as usize;
    (universe.cells()[index / width] >> (index % width)) & 1 == 1
}

#[test]
fn sizes_are_fixed() {
    assert_eq!(ROWS, 64);
    assert_eq!(COLS, 64);
    assert_eq!(CELLS, 4096);
}

#[test]
fn new_board_is_64_by_64() {
    let universe = Universe::new();
    assert_eq!(universe.num_rows(), 64);
    assert_eq!(universe.num_cols(), 64);
}

#[test]
fn new_board_is_dead() {
    let universe = Universe::new();
    assert!(live_cells(&universe).is_empty());
    assert!(universe.cells().iter().all(|&word| word == 0));
    for index in 0..4096 {
        assert!(!stored_bit(&universe, index));
    }
}

#[test]
fn every_board_has_one_bit_per_cell() {
    let boards = [
        Universe::new(),
        Universe::interesting(),
        Universe::with_glider(),
        board(&[(1, 2), (63, 63)]),
    ];
    for universe in boards.iter() {
        let cells = universe.cells().len() * usize::BITS as usize;
        assert_eq!(cells, 4096);
        assert_eq!(cells, (universe.num_rows() * universe.num_cols()) as usize);
    }
}

#[test]
fn one_bit_per_cell_after_a_tick() {
    let mut universe = Universe::interesting();
    universe.tick();
    assert_eq!(universe.num_rows(), 64);
    assert_eq!(universe.num_cols(), 64);
    assert_eq!(universe.cells().len() * usize::BITS as usize, 4096);
}

#[test]
fn words_fill_from_the_least_significant_bit() {
    let width = usize::BITS as usize;
    assert_eq!(board(&[(0, 0)]).cells()[0], 1);
    assert_eq!(board(&[(0, 1)]).cells()[0], 2);
    assert_eq!(board(&[(0, 0), (0, 3)]).cells()[0], 9);
    let second_row = board(&[(1, 0)]);
    assert_eq!(second_row.cells()[64 / width], 1 << (64 % width));
    assert_eq!(second_row.cells().iter().filter(|&&word| word != 0).count(), 1);
    let last = board(&[(63, 63)]);
    assert_eq!(last.cells()[last.cells().len() - 1], 1 << (width - 1));
}

#[test]
fn storage_agrees_with_picture() {
    let universe = Universe::interesting();
    let live = live_cells(&universe);
    for row in 0..64u32 {
        for col in 0..64u32 {
            let index = (row * 64 + col) as usize;
            assert_eq!(stored_bit(&universe, index), live.contains(&(row, col)));
        }
    }
}

#[test]
fn interesting_follows_its_formula() {
    let universe = Universe::interesting();
    for index in 0..4096usize {
        assert_eq!(stored_bit(&universe, index), index % 2 == 0 || index % 7 == 0);
    }
    assert_eq!(live_cells(&universe).len(), 2341);
}

#[test]
fn interesting_first_cells() {
    let universe = Universe::interesting();
    let first: Vec<bool> = (0..16).map(|index| stored_bit(&universe, index)).collect();
    assert_eq!(
        first,
        vec![
            true, false, true, false, true, false, true, true, true, false, true, false, true,
            false, true, false
        ]
    );
}

#[test]
fn interesting_is_the_same_every_time() {
    let first = Universe::interesting();
    let second = Universe::interesting();
    assert_eq!(first.cells(), second.cells());
    assert_eq!(first.render(), second.render());
}

#[test]
fn glider_sits_in_the_middle() {
    let universe = Universe::with_glider();
    assert_eq!(live_cells(&universe), vec![(32, 33), (33, 34), (34, 32), (34, 33), (34, 34)]);
}

#[test]
fn glider_is_the_same_every_time() {
    assert_eq!(Universe::with_glider().cells(), Universe::with_glider().cells());
}

#[test]
fn random_lives_from_one_half_up() {
    let numbers = [
        0.0,
        -0.0,
        f64::MIN_POSITIVE,
        5e-324,
        0.25,
        0.49999999999999994,
        0.5,
        0.5000000000000001,
        0.75,
        0.9999999999999999,
        1.0,
        2.0,
        f64::MAX,
        f64::INFINITY,
        f64::NAN,
        -f64::NAN,
        -0.5,
        -0.75,
        -1.0,
        f64::MIN,
        f64::NEG_INFINITY,
    ];
    let mut samples = [0u64; 4096];
    for (index, number) in numbers.iter().enumerate() {
        samples[index] = number.to_bits();
    }
    let universe = Universe::random(&samples);
    for (index, number) in numbers.iter().enumerate() {
        assert_eq!(stored_bit(&universe, index), *number >= 0.5, "sample {}", number);
    }
    assert!(!stored_bit(&universe, 0));
    assert!(!stored_bit(&universe, 5));
    assert!(stored_bit(&universe, 6));
    assert!(stored_bit(&universe, 13));
    assert!(!stored_bit(&universe, 14));
}

#[test]
fn random_thresholds_by_bit_pattern() {
    let mut samples = [0u64; 4096];
    samples[0] = 0x3FDF_FFFF_FFFF_FFFF;
    samples[1] = 0x3FE0_0000_0000_0000;
    samples[2] = 0x7FF0_0000_0000_0000;
    samples[3] = 0x7FF0_0000_0000_0001;
    samples[4] = 0x8000_0000_0000_0000;
    samples[5] = 0xBFE0_0000_0000_0000;
    samples[6] = u64::MAX;
    let universe = Universe::random(&samples);
    let first: Vec<bool> = (0..7).map(|index| stored_bit(&universe, index)).collect();
    assert_eq!(first, vec![false, true, true, false, false, false, false]);
}

#[test]
fn random_places_samples_row_by_row() {
    let universe = board(&[(0, 5), (3, 0), (63, 63)]);
    assert_eq!(live_cells(&universe), vec![(0, 5), (3, 0), (63, 63)]);
    assert!(stored_bit(&universe, 5));
    assert!(stored_bit(&universe, 192));
    assert!(stored_bit(&universe, 4095));
}

#[test]
fn random_with_all_samples_low_is_dead() {
    let universe = Universe::random(&[0.25f64.to_bits(); 4096]);
    assert!(live_cells(&universe).is_empty());
}

#[test]
fn random_with_all_samples_high_is_full() {
    let universe = Universe::random(&[0.75f64.to_bits(); 4096]);
    assert_eq!(live_cells(&universe).len(), 4096);
    assert!(universe.cells().iter().all(|&word| word == usize::MAX));
}

#[test]
fn random_is_decided_by_its_samples() {
    let mut samples = [0u64; 4096];
    let mut state: u64 = 0x2545_F491_4F6C_DD1D;
    let mut numbers = Vec::new();
    for sample in samples.iter_mut() {
        state = state.wrapping_mul(6364136223846793005).wrapping_add(1442695040888963407);
        let number = (state >> 11) as f64 / 9007199254740992.0;
        numbers.push(number);
        *sample = number.to_bits();
    }
    let first = Universe::random(&samples);
    let second = Universe::random(&samples);
    assert_eq!(first.cells(), second.cells());
    assert_eq!(first.render(), second.render());
    for (index, number) in numbers.iter().enumerate() {
        assert_eq!(stored_bit(&first, index), *number >= 0.5);
    }
    let live = live_cells(&first).len();
    assert!(live > 1800 && live < 2300);
}

#[test]
fn render_of_dead_board() {
    let text = Universe::new().render();
    let line: String = std::iter::repeat(DEAD).take(64).collect();
    let mut expected = String::new();
    for _ in 0..64 {
        expected.push_str(&line);
        expected.push('\n');
    }
    assert_eq!(text, expected);
    assert_eq!(text.chars().count(), 64 * 65);
    assert_eq!(text.lines().count(), 64);
    assert!(text.lines().all(|row| row.chars().count() == 64));
    assert!(text.ends_with('\n'));
}

#[test]
fn render_marks_live_cells() {
    let text = board(&[(1, 2), (63, 0)]).render();
    let lines: Vec<&str> = text.lines().collect();
    assert_eq!(lines.len(), 64);
    for (row, line) in lines.iter().enumerate() {
        let glyphs: Vec<char> = line.chars().collect();
        assert_eq!(glyphs.len(), 64);
        for (col, glyph) in glyphs.iter().enumerate() {
            let alive = (row, col) == (1, 2) || (row, col) == (63, 0);
            assert_eq!(*glyph, if alive { ALIVE } else { DEAD });
        }
    }
}

#[test]
fn render_of_glider_rows() {
    let text = Universe::with_glider().render();
    let lines: Vec<&str> = text.lines().collect();
    let row = |cells: &[usize]| -> String {
        (0..64).map(|col| if cells.contains(&col) { ALIVE } else { DEAD }).collect()
    };
    assert_eq!(lines[31], row(&[]));
    assert_eq!(lines[32], row(&[33]));
    assert_eq!(lines[33], row(&[34]));
    assert_eq!(lines[34], row(&[32, 33, 34]));
    assert_eq!(lines[35], row(&[]));
}

#[test]
fn render_does_not_change_the_board() {
    let universe = Universe::interesting();
    let before: Vec<usize> = universe.cells().to_vec();
    let first = universe.render();
    let second = universe.render();
    assert_eq!(first, second);
    assert_eq!(universe.cells(), &before[..]);
}
