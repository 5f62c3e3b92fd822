use game_of_life::board::{
    cells_from_draws, idx, initialize_board, initialize_cross, initialize_glider, initialize_random,
    load_board, pattern_named, save_board, Pattern, SavedBoard,
};
use game_of_life::commands::{parse_command, parse_command_line, Command};
use game_of_life::consts::{CELLS, DELAY_STEP_MS, HEIGHT, INITIAL_DELAY_MS, PAUSE_SLEEP_SECS, WIDTH};
use game_of_life::simulation::{live_neighbor_count, next_generation, Control, Simulation, Tick};
use game_of_life::utils::{cell_representation, render_board};

fn board_with(cells: &[(usize, usize)]) -> Vec<bool> {
    let mut board = vec![false; CELLS];
    for &(row, col) in cells {
        board[idx(row, col)] = true;
    }
    board
}

fn live_cells(board: &[bool]) -> Vec<(usize, usize)> {
    let mut cells = Vec::new();
    for row in 0..HEIGHT {
        for col in 0..WIDTH {
            if board[idx(row, col)] {
                cells.push((row, col));
            }
        }
    }
    cells
}

fn advance(board: &Vec<bool>, wrap: bool) -> Vec<bool> {
    let mut next = vec![false; CELLS];
    next_generation(board, &mut next, wrap);
    next
}

#[test]
fn idx_is_row_major() {
    assert_eq!(idx(0, 0), 0);
    assert_eq!(idx(0, 5), 5);
    assert_eq!(idx(2, 3), 2 * WIDTH + 3);
    assert_eq!(idx(HEIGHT - 1, WIDTH - 1), CELLS - 1);
}

#[test]
fn corner_neighbors_depend_on_topology() {
    let board = vec![true; CELLS];
    assert_eq!(live_neighbor_count(&board, 0, 0, false), 3);
    assert_eq!(live_neighbor_count(&board, 0, 0, true), 8);
    assert_eq!(live_neighbor_count(&board, HEIGHT - 1, WIDTH - 1, false), 3);
    assert_eq!(live_neighbor_count(&board, 0, 5, false), 5);
    assert_eq!(live_neighbor_count(&board, 7, WIDTH - 1, false), 5);
    assert_eq!(live_neighbor_count(&board, 7, 5, false), 8);
}

#[test]
fn wraparound_reaches_the_opposite_edge() {
    let board = board_with(&[(HEIGHT - 1, WIDTH - 1)]);
    assert_eq!(live_neighbor_count(&board, 0, 0, true), 1);
    assert_eq!(live_neighbor_count(&board, 0, 0, false), 0);
}

#[test]
fn same_thresholds_under_both_topologies() {
    // A blinker away from the edges behaves the same on both topologies.
    let board = board_with(&[(10, 9), (10, 10), (10, 11)]);
    let bounded = advance(&board, false);
    let torus = advance(&board, true);
    assert_eq!(bounded, torus);
    assert_eq!(live_cells(&bounded), vec![(9, 10), (10, 10), (11, 10)]);
}

#[test]
fn dead_board_stays_dead() {
    let board = vec![false; CELLS];
    assert!(advance(&board, true).iter().all(|c| !c));
    assert!(advance(&board, false).iter().all(|c| !c));
}

#[test]
fn lone_cell_dies_under_both_topologies() {
    for &(row, col) in &[(0, 0), (12, 40), (HEIGHT - 1, 0)] {
        let board = board_with(&[(row, col)]);
        for &wrap in &[true, false] {
            assert_eq!(live_neighbor_count(&board, row, col, wrap), 0);
            assert!(advance(&board, wrap).iter().all(|c| !c));
        }
    }
}

#[test]
fn three_by_three_block_after_one_generation() {
    let mut cells = Vec::new();
    for row in 10..13 {
        for col in 20..23 {
            cells.push((row, col));
        }
    }
    let next = advance(&board_with(&cells), false);
    // Under B3/S23 the corners survive with three neighbours, the other cells
    // of the block die, and one cell is born beside the middle of each side.
    assert_eq!(
        live_cells(&next),
        vec![(9, 21), (10, 20), (10, 22), (11, 19), (11, 23), (12, 20), (12, 22), (13, 21)]
    );
}

#[test]
fn two_by_two_block_is_still() {
    let board = board_with(&[(0, 0), (0, 1), (1, 0), (1, 1)]);
    assert_eq!(advance(&board, false), board);
}

#[test]
fn save_then_load_gives_the_same_board() {
    let board = initialize_glider(WIDTH, HEIGHT);
    let rows = save_board(&board);
    assert_eq!(rows.len(), HEIGHT);
    assert!(rows.iter().all(|r| r.len() == WIDTH));
    assert_eq!(rows[0][1], '1');
    assert_eq!(rows[0][0], '0');
    assert_eq!(load_board(&rows), board);
    let cross = initialize_cross(WIDTH, HEIGHT);
    assert_eq!(load_board(&save_board(&cross)), cross);
}

#[test]
fn load_ignores_extra_and_fills_missing() {
    let rows: Vec<Vec<char>> = vec!["01x1".chars().collect(), "1".repeat(WIDTH + 5).chars().collect()];
    let board = load_board(&rows);
    assert_eq!(board.len(), CELLS);
    assert_eq!(live_cells(&board)[0], (0, 1));
    assert!(board[idx(0, 3)]);
    assert!(!board[idx(0, 2)]);
    assert!((0..WIDTH).all(|c| board[idx(1, c)]));
    assert!((2 * WIDTH..CELLS).all(|i| !board[i]));
}

#[test]
fn faster_stops_at_one_step() {
    let mut control = Control::new();
    assert_eq!(control.delay, INITIAL_DELAY_MS);
    let mut seen = Vec::new();
    for _ in 0..6 {
        control.apply(Command::Faster);
        seen.push(control.delay);
    }
    assert_eq!(seen, vec![150, 100, 50, 50, 50, 50]);
    assert!(control.delay >= DELAY_STEP_MS);
    control.apply(Command::Slower);
    assert_eq!(control.delay, 100);
}

#[test]
fn slower_stops_where_a_step_no_longer_fits() {
    let mut control = Control { paused: false, delay: u64::MAX - 60, wraparound: true };
    control.apply(Command::Slower);
    assert_eq!(control.delay, u64::MAX - 10);
    control.apply(Command::Slower);
    assert_eq!(control.delay, u64::MAX - 10);
}

#[test]
fn toggle_wrap_twice_restores_the_setting() {
    let mut sim = Simulation::new(initialize_glider(WIDTH, HEIGHT));
    let start = sim.control();
    sim.tick(Some(Command::ToggleWrap));
    assert!(!sim.control().wraparound);
    sim.tick(Some(Command::ToggleWrap));
    assert_eq!(sim.control(), start);
    let mut other = Simulation::new(initialize_glider(WIDTH, HEIGHT));
    sim.advance();
    other.advance();
    assert_eq!(sim.board(), other.board());
}

#[test]
fn glider_moves_diagonally_every_four_generations() {
    let glider = initialize_glider(WIDTH, HEIGHT);
    assert_eq!(live_cells(&glider), vec![(0, 1), (1, 2), (2, 0), (2, 1), (2, 2)]);
    let mut board = glider;
    for _ in 0..4 {
        board = advance(&board, true);
    }
    assert_eq!(live_cells(&board), vec![(1, 2), (2, 3), (3, 1), (3, 2), (3, 3)]);
}

#[test]
fn glider_needs_more_than_two_by_two() {
    assert_eq!(initialize_glider(2, 2), vec![false; 4]);
    assert_eq!(initialize_glider(2, 100), vec![false; 200]);
    assert_eq!(initialize_glider(100, 2), vec![false; 200]);
}

#[test]
fn glider_follows_the_given_width() {
    let small = initialize_glider(3, 3);
    assert_eq!(small, vec![false, true, false, false, false, true, true, true, true]);
    let wide = initialize_glider(100, 3);
    let live: Vec<usize> = (0..300).filter(|&i| wide[i]).collect();
    assert_eq!(live, vec![1, 102, 200, 201, 202]);
}

#[test]
fn cross_follows_the_given_size() {
    let board = initialize_cross(20, 16);
    assert_eq!(board.len(), 320);
    let live: Vec<usize> = (0..320).filter(|&i| board[i]).collect();
    let mut expected: Vec<usize> = (6..14).map(|r| r * 20 + 10).collect();
    expected.extend((6..14).map(|c| 8 * 20 + c));
    expected.sort();
    expected.dedup();
    assert_eq!(live, expected);
}

#[test]
fn cross_is_clipped_to_a_small_grid() {
    let board = initialize_cross(9, 8);
    let live: Vec<usize> = (0..72).filter(|&i| board[i]).collect();
    // Column 4 on rows 6 and 7, row 4 on columns 6 to 8.
    assert_eq!(live, vec![4 * 9 + 6, 4 * 9 + 7, 4 * 9 + 8, 6 * 9 + 4, 7 * 9 + 4]);
    assert_eq!(initialize_cross(5, 5), vec![false; 25]);
    assert_eq!(initialize_cross(0, 7), Vec::<bool>::new());
}

#[test]
fn draws_below_the_numerator_are_alive() {
    assert_eq!(cells_from_draws(&vec![0, 1, 4, 0, 3]), vec![true, false, false, true, false]);
    assert_eq!(cells_from_draws(&Vec::new()), Vec::<bool>::new());
}

#[test]
fn cross_pattern_cells() {
    let board = initialize_cross(WIDTH, HEIGHT);
    let live = live_cells(&board);
    assert_eq!(live.len(), 16);
    for k in 6..14 {
        assert!(board[idx(k, WIDTH / 2)]);
        assert!(board[idx(HEIGHT / 2, k)]);
    }
}

#[test]
fn random_pattern_has_both_states() {
    let board = initialize_random(WIDTH, HEIGHT);
    assert_eq!(board.len(), CELLS);
    assert!(board.iter().any(|c| *c));
    assert!(board.iter().any(|c| !*c));
}

#[test]
fn pattern_names() {
    assert_eq!(pattern_named("glider"), Pattern::Glider);
    assert_eq!(pattern_named("random"), Pattern::Random);
    assert_eq!(pattern_named("line"), Pattern::Cross);
    assert_eq!(pattern_named("Glider"), Pattern::Cross);
}

#[test]
fn initial_board_sources() {
    assert_eq!(initialize_board("glider", SavedBoard::NotRequested), initialize_glider(WIDTH, HEIGHT));
    assert_eq!(initialize_board("line", SavedBoard::NotRequested), initialize_cross(WIDTH, HEIGHT));
    assert_eq!(initialize_board("glider", SavedBoard::Unreadable), initialize_cross(WIDTH, HEIGHT));
    let rows = vec![vec!['1', '1']];
    let loaded = initialize_board("glider", SavedBoard::Lines(rows));
    assert_eq!(live_cells(&loaded), vec![(0, 0), (0, 1)]);
}

#[test]
fn command_vocabulary() {
    assert_eq!(parse_command("pause"), Some(Command::Pause));
    assert_eq!(parse_command("resume"), Some(Command::Resume));
    assert_eq!(parse_command("faster"), Some(Command::Faster));
    assert_eq!(parse_command("slower"), Some(Command::Slower));
    assert_eq!(parse_command("toggle_wrap"), Some(Command::ToggleWrap));
    assert_eq!(parse_command("step"), Some(Command::Step));
    assert_eq!(parse_command("jump"), None);
    assert_eq!(parse_command(""), None);
    assert_eq!(parse_command(" pause"), None);
}

#[test]
fn command_lines_are_trimmed() {
    assert_eq!(parse_command_line("  faster\n"), Some(Command::Faster));
    assert_eq!(parse_command_line("toggle_wrap\r\n"), Some(Command::ToggleWrap));
    assert_eq!(parse_command_line("fast er\n"), None);
    assert_eq!(parse_command_line("pause"), Some(Command::Pause));
    assert_eq!(parse_command_line(""), None);
    assert_eq!(parse_command_line(" \t\n"), None);
}

#[test]
fn ticks_follow_the_settings() {
    let mut sim = Simulation::new(initialize_glider(WIDTH, HEIGHT));
    assert_eq!(sim.tick(None), Tick::Run { generation: 0, save: true, delay_ms: 200 });
    sim.advance();
    assert_eq!(sim.generation(), 1);
    assert_eq!(sim.tick(Some(Command::Slower)), Tick::Run { generation: 1, save: false, delay_ms: 250 });
    assert_eq!(sim.tick(Some(Command::Pause)), Tick::Paused { sleep_secs: PAUSE_SLEEP_SECS });
    assert_eq!(sim.tick(Some(Command::Step)), Tick::Paused { sleep_secs: PAUSE_SLEEP_SECS });
    assert_eq!(sim.tick(Some(Command::Resume)), Tick::Run { generation: 1, save: false, delay_ms: 250 });
    for _ in 0..9 {
        sim.advance();
    }
    assert_eq!(sim.tick(None), Tick::Run { generation: 10, save: true, delay_ms: 250 });
}

#[test]
fn advance_uses_the_wrap_setting() {
    let board = board_with(&[(0, WIDTH - 1), (1, WIDTH - 1), (2, WIDTH - 1)]);
    let mut sim = Simulation::new(board.clone());
    sim.advance();
    assert_eq!(sim.board(), &advance(&board, true));
    sim.tick(Some(Command::ToggleWrap));
    let shown = sim.board().clone();
    sim.advance();
    assert_eq!(sim.board(), &advance(&shown, false));
    assert_eq!(sim.into_board(), advance(&shown, false));
}

#[test]
fn cell_glyphs() {
    assert_eq!(cell_representation(true), "\x1b[32mO\x1b[0m");
    assert_eq!(cell_representation(false), "\x1b[90m.\x1b[0m");
}

#[test]
fn rendered_board_has_one_line_per_row() {
    let board = initialize_glider(WIDTH, HEIGHT);
    let text = render_board(&board);
    let lines: Vec<&str> = text.split_terminator('\n').collect();
    assert_eq!(lines.len(), HEIGHT);
    assert!(text.ends_with('\n'));
    let dead = cell_representation(false);
    let live = cell_representation(true);
    assert!(lines[0].starts_with(&format!("{}{}{}", dead, live, dead)));
    assert_eq!(lines[5], dead.repeat(WIDTH));
    assert_eq!(text.matches(live.as_str()).count(), 5);
}
