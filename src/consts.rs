use vstd::prelude::*;

verus! {

/// Number of columns of the grid.
pub const WIDTH: usize = 80;

/// Number of rows of the grid.
pub const HEIGHT: usize = 30;

/// Number of cells of the grid.
pub const CELLS: usize = WIDTH * HEIGHT;

/// A dead cell with exactly this many live neighbours is born.
pub const BIRTH: usize = 3;

/// Fewest live neighbours with which a live cell survives.
pub const SURVIVE_MIN: usize = 2;

/// Most live neighbours with which a live cell survives.
pub const SURVIVE_MAX: usize = 3;

/// Delay between two generations when the simulation starts, in milliseconds.
pub const INITIAL_DELAY_MS: u64 = 200;

/// Amount by which `faster` and `slower` change the delay, in milliseconds.
pub const DELAY_STEP_MS: u64 = 50;

/// How long a paused simulation sleeps before it looks for a command again, in seconds.
pub const PAUSE_SLEEP_SECS: u64 = 120;

/// The board is saved on every generation that is a multiple of this.
pub const SAVE_INTERVAL: u64 = 10;

/// First row and column of the arms of the cross pattern.
pub const CROSS_FIRST: usize = 6;

/// Last row and column of the arms of the cross pattern.
pub const CROSS_LAST: usize = 13;

/// A cell of the random pattern is alive with probability
/// `RANDOM_ALIVE_NUMERATOR / RANDOM_ALIVE_DENOMINATOR`.
pub const RANDOM_ALIVE_NUMERATOR: u32 = 1;

/// See `RANDOM_ALIVE_NUMERATOR`.
pub const RANDOM_ALIVE_DENOMINATOR: u32 = 5;

/// How cells are drawn: 0 for `O` and a blank, 1 for `@` and `.`, 2 for a
/// green `O` and a dark grey `.` in ANSI colours; any other value draws as 0.
pub const VIEW_MODE: usize = 2;

} // verus!
