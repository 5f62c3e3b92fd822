use vstd::arithmetic::div_mod::{lemma_mod_multiples_vanish, lemma_small_mod};
use vstd::prelude::*;

use crate::board::{cell_at, cell_index, idx, well_sized};
use crate::commands::Command;
use crate::consts::{
    BIRTH, CELLS, DELAY_STEP_MS, HEIGHT, INITIAL_DELAY_MS, PAUSE_SLEEP_SECS, SAVE_INTERVAL,
    SURVIVE_MAX, SURVIVE_MIN, WIDTH,
};

verus! {

/// Coordinate reached from `i` by the offset `d` on an axis of length `n`, if any:
/// taken modulo `n` on a torus, absent when it leaves `[0, n)` on a bounded grid.
pub open spec fn shifted_coord(i: int, d: int, n: int, wrap: bool) -> Option<int> {
    if wrap {
        Some((i + d) % n)
    } else if 0 <= i + d < n {
        Some(i + d)
    } else {
        None
    }
}

/// 1 when the neighbour at offset `(dr, dc)` of `(row, col)` exists and is alive, else 0.
pub open spec fn neighbor_term(b: Seq<bool>, row: int, col: int, dr: int, dc: int, wrap: bool) -> nat {
    match (shifted_coord(row, dr, HEIGHT as int, wrap), shifted_coord(col, dc, WIDTH as int, wrap)) {
        (Some(r), Some(c)) => if cell_at(b, r, c) { 1 } else { 0 },
        _ => 0,
    }
}

/// Number of live cells among the eight neighbours of `(row, col)`.
pub open spec fn neighbor_count(b: Seq<bool>, row: int, col: int, wrap: bool) -> nat {
    neighbor_term(b, row, col, -1, -1, wrap) + neighbor_term(b, row, col, -1, 0, wrap)
        + neighbor_term(b, row, col, -1, 1, wrap) + neighbor_term(b, row, col, 0, -1, wrap)
        + neighbor_term(b, row, col, 0, 1, wrap) + neighbor_term(b, row, col, 1, -1, wrap)
        + neighbor_term(b, row, col, 1, 0, wrap) + neighbor_term(b, row, col, 1, 1, wrap)
}

/// B3/S23: a live cell survives with two or three live neighbours, a dead
/// cell is born with exactly three.
pub open spec fn survives(alive: bool, neighbors: nat) -> bool {
    if alive {
        SURVIVE_MIN <= neighbors <= SURVIVE_MAX
    } else {
        neighbors == BIRTH
    }
}

/// The generation that follows `b`.
pub open spec fn next_board(b: Seq<bool>, wrap: bool) -> Seq<bool> {
    Seq::new(
        CELLS as nat,
        |i: int| survives(b[i], neighbor_count(b, i / WIDTH as int, i % WIDTH as int, wrap)),
    )
}

/// Coordinate reached from `i` by the offset `d` on an axis of length `n`.
fn shift(i: usize, d: isize, n: usize, wrap: bool) -> (r: Option<usize>)
    requires
        i < n,
        n < isize::MAX,
        -1 <= d <= 1,
    ensures
        r matches Some(v) ==> v < n,
        r.is_some() == shifted_coord(i as int, d as int, n as int, wrap).is_some(),
        r matches Some(v) ==> shifted_coord(i as int, d as int, n as int, wrap) == Some(v as int),
{
    let moved: isize = i as isize + d;
    if moved < 0 {
        if wrap {
            proof {
                lemma_mod_multiples_vanish(1, -1, n as int);
                lemma_small_mod((n - 1) as nat, n as nat);
            }
            Some(n - 1)
        } else {
            None
        }
    } else if moved as usize >= n {
        if wrap {
            proof {
                lemma_mod_multiples_vanish(1, 0, n as int);
                lemma_small_mod(0, n as nat);
            }
            Some(0)
        } else {
            None
        }
    } else {
        proof {
            lemma_small_mod(moved as nat, n as nat);
        }
        Some(moved as usize)
    }
}

/// 1 when the neighbour at offset `(dr, dc)` of `(row, col)` exists and is alive, else 0.
fn neighbor_alive(board: &[bool], row: usize, col: usize, dr: isize, dc: isize, wrap: bool) -> (r: usize)
    requires
        well_sized(board@),
        row < HEIGHT,
        col < WIDTH,
        -1 <= dr <= 1,
        -1 <= dc <= 1,
    ensures
        r == neighbor_term(board@, row as int, col as int, dr as int, dc as int, wrap),
{
    match (shift(row, dr, HEIGHT, wrap), shift(col, dc, WIDTH, wrap)) {
        (Some(r), Some(c)) => {
            if board[idx(r, c)] {
                1
            } else {
                0
            }
        },
        _ => 0,
    }
}

/// Counts the live neighbours of a cell, on a torus when `wrap` holds and on
/// a bounded grid otherwise.
pub fn live_neighbor_count(board: &[bool], row: usize, col: usize, wrap: bool) -> (r: usize)
    requires
        well_sized(board@),
        row < HEIGHT,
        col < WIDTH,
    ensures
        r == neighbor_count(board@, row as int, col as int, wrap),
        r <= 8,
{
    let mut count: usize = 0;
    count += neighbor_alive(board, row, col, -1, -1, wrap);
    count += neighbor_alive(board, row, col, -1, 0, wrap);
    count += neighbor_alive(board, row, col, -1, 1, wrap);
    count += neighbor_alive(board, row, col, 0, -1, wrap);
    count += neighbor_alive(board, row, col, 0, 1, wrap);
    count += neighbor_alive(board, row, col, 1, -1, wrap);
    count += neighbor_alive(board, row, col, 1, 0, wrap);
    count += neighbor_alive(board, row, col, 1, 1, wrap);
    count
}

/// Computes the next generation of `current` into `next`, reading only `current`.
pub fn next_generation(current: &Vec<bool>, next: &mut Vec<bool>, wrap: bool)
    requires
        well_sized(current@),
        well_sized(old(next)@),
    ensures
        final(next)@ == next_board(current@, wrap),
{
    let mut row: usize = 0;
    while row < HEIGHT
        invariant
            row <= HEIGHT,
            well_sized(current@),
            well_sized(next@),
            forall|i: int| 0 <= i < row * WIDTH ==> next@[i] == #[trigger] next_board(current@, wrap)[i],
        decreases HEIGHT - row,
    {
        let mut col: usize = 0;
        while col < WIDTH
            invariant
                row < HEIGHT,
                col <= WIDTH,
                well_sized(current@),
                well_sized(next@),
                forall|i: int|
                    0 <= i < row * WIDTH + col ==> next@[i] == #[trigger] next_board(current@, wrap)[i],
            decreases WIDTH - col,
        {
            let neighbors = live_neighbor_count(current, row, col, wrap);
            let current_cell = current[idx(row, col)];
            let should_live = if current_cell {
                SURVIVE_MIN <= neighbors && neighbors <= SURVIVE_MAX
            } else {
                neighbors == BIRTH
            };
            proof {
                let i = cell_index(row as int, col as int);
                assert(i / WIDTH as int == row as int);
                assert(i % WIDTH as int == col as int);
            }
            next.set(idx(row, col), should_live);
            col += 1;
        }
        row += 1;
    }
    assert(next@ =~= next_board(current@, wrap));
}

/// The settings that commands change while the simulation runs.
#[derive(Clone, Copy, Debug, PartialEq, Eq, Structural)]
pub struct Control {
    pub paused: bool,
    /// Delay between two generations, in milliseconds.
    pub delay: u64,
    /// Whether neighbours are counted on a torus rather than a bounded grid.
    pub wraparound: bool,
}

/// The delay after `faster`: one step shorter, unless that would leave no delay above zero.
pub open spec fn faster_delay(delay: u64) -> u64 {
    if delay > DELAY_STEP_MS {
        (delay - DELAY_STEP_MS) as u64
    } else {
        delay
    }
}

/// The delay after `slower`: one step longer, unless that step would not fit in a `u64`.
pub open spec fn slower_delay(delay: u64) -> u64 {
    if delay <= u64::MAX - DELAY_STEP_MS {
        (delay + DELAY_STEP_MS) as u64
    } else {
        delay
    }
}

/// The settings after a command.
pub open spec fn control_after(c: Control, cmd: Command) -> Control {
    match cmd {
        Command::Pause => Control { paused: true, ..c },
        Command::Resume => Control { paused: false, ..c },
        Command::Faster => Control { delay: faster_delay(c.delay), ..c },
        Command::Slower => Control { delay: slower_delay(c.delay), ..c },
        Command::ToggleWrap => Control { wraparound: !c.wraparound, ..c },
        Command::Step => c,
    }
}

impl Control {
    /// The delay is never zero.
    pub open spec fn well_formed(&self) -> bool {
        self.delay > 0
    }

    /// The settings at start: running, the initial delay, wraparound on.
    pub fn new() -> (r: Control)
        ensures
            r == (Control { paused: false, delay: INITIAL_DELAY_MS, wraparound: true }),
            r.well_formed(),
    {
        Control { paused: false, delay: INITIAL_DELAY_MS, wraparound: true }
    }

    /// Applies one command.
    pub fn apply(&mut self, cmd: Command)
        requires
            old(self).well_formed(),
        ensures
            *final(self) == control_after(*old(self), cmd),
            final(self).well_formed(),
    {
        match cmd {
            Command::Pause => self.paused = true,
            Command::Resume => self.paused = false,
            Command::Faster => {
                if self.delay > DELAY_STEP_MS {
                    self.delay = self.delay - DELAY_STEP_MS;
                }
            },
            Command::Slower => {
                if self.delay <= u64::MAX - DELAY_STEP_MS {
                    self.delay = self.delay + DELAY_STEP_MS;
                }
            },
            Command::ToggleWrap => self.wraparound = !self.wraparound,
            Command::Step => {},
        }
    }
}

/// What the caller of the simulation loop does on one turn.
#[derive(Clone, Copy, Debug, PartialEq, Eq, Structural)]
pub enum Tick {
    /// Paused: show nothing and sleep this many seconds before the next turn.
    Paused { sleep_secs: u64 },
    /// Running: show the board as generation `generation`, save it when `save`
    /// holds, advance it, then sleep `delay_ms` milliseconds.
    Run { generation: u64, save: bool, delay_ms: u64 },
}

/// The turn that follows from the settings and the generation shown.
pub open spec fn tick_of(c: Control, generation: u64) -> Tick {
    if c.paused {
        Tick::Paused { sleep_secs: PAUSE_SLEEP_SECS }
    } else {
        Tick::Run { generation, save: generation % SAVE_INTERVAL == 0, delay_ms: c.delay }
    }
}

/// The settings after an optional command.
pub open spec fn control_after_poll(c: Control, command: Option<Command>) -> Control {
    match command {
        Some(cmd) => control_after(c, cmd),
        None => c,
    }
}

/// The state of the simulation loop: the board shown, a scratch board for the
/// next generation, the generation counter and the settings.
pub struct Simulation {
    board: Vec<bool>,
    next_board: Vec<bool>,
    generation: u64,
    control: Control,
}

impl Simulation {
    /// The board of the current generation.
    pub closed spec fn cells(&self) -> Seq<bool> {
        self.board@
    }

    /// The number of the current generation.
    pub closed spec fn spec_generation(&self) -> u64 {
        self.generation
    }

    /// The current settings.
    pub closed spec fn spec_control(&self) -> Control {
        self.control
    }

    /// Both boards have one state per cell and the delay is never zero.
    pub closed spec fn well_formed(&self) -> bool {
        &&& well_sized(self.board@)
        &&& well_sized(self.next_board@)
        &&& self.control.well_formed()
    }

    /// A simulation at generation 0 of `board`, with the starting settings.
    pub fn new(board: Vec<bool>) -> (r: Simulation)
        requires
            well_sized(board@),
        ensures
            r.well_formed(),
            r.cells() == board@,
            r.spec_generation() == 0,
            r.spec_control() == (Control { paused: false, delay: INITIAL_DELAY_MS, wraparound: true }),
    {
        let next_board = board.clone();
        Simulation { board, next_board, generation: 0, control: Control::new() }
    }

    /// The board of the current generation.
    pub fn board(&self) -> (r: &Vec<bool>)
        ensures
            r@ == self.cells(),
    {
        &self.board
    }

    /// The number of the current generation.
    pub fn generation(&self) -> (r: u64)
        ensures
            r == self.spec_generation(),
    {
        self.generation
    }

    /// The current settings.
    pub fn control(&self) -> (r: Control)
        ensures
            r == self.spec_control(),
    {
        self.control
    }

    /// One turn of the loop: applies the command polled this turn, if any,
    /// and says what to do next. The board is left as it is.
    pub fn tick(&mut self, command: Option<Command>) -> (t: Tick)
        requires
            old(self).well_formed(),
        ensures
            final(self).well_formed(),
            final(self).spec_control() == control_after_poll(old(self).spec_control(), command),
            final(self).cells() == old(self).cells(),
            final(self).spec_generation() == old(self).spec_generation(),
            t == tick_of(final(self).spec_control(), old(self).spec_generation()),
    {
        if let Some(cmd) = command {
            self.control.apply(cmd);
        }
        if self.control.paused {
            Tick::Paused { sleep_secs: PAUSE_SLEEP_SECS }
        } else {
            Tick::Run {
                generation: self.generation,
                save: self.generation % SAVE_INTERVAL == 0,
                delay_ms: self.control.delay,
            }
        }
    }

    /// Replaces the board by its next generation, under the current
    /// wraparound setting, and counts the generation.
    pub fn advance(&mut self)
        requires
            old(self).well_formed(),
            old(self).spec_generation() < u64::MAX,
        ensures
            final(self).well_formed(),
            final(self).cells() == next_board(old(self).cells(), old(self).spec_control().wraparound),
            final(self).spec_generation() == old(self).spec_generation() + 1,
            final(self).spec_control() == old(self).spec_control(),
    {
        next_generation(&self.board, &mut self.next_board, self.control.wraparound);
        std::mem::swap(&mut self.board, &mut self.next_board);
        self.generation = self.generation + 1;
    }

    /// The board of the current generation, for a last display.
    pub fn into_board(self) -> (r: Vec<bool>)
        ensures
            r@ == self.cells(),
    {
        self.board
    }
}

/// A neighbour that exists lies on the grid, one step away on each axis
/// at most, and different offsets reach different coordinates.
proof fn lemma_shifted_coord(i: int, d: int, n: int, wrap: bool)
    requires
        3 <= n,
        0 <= i < n,
        -1 <= d <= 1,
    ensures
        shifted_coord(i, d, n, wrap) matches Some(v) ==> v == (if i + d < 0 {
            n - 1
        } else if i + d >= n {
            0
        } else {
            i + d
        }),
        wrap ==> shifted_coord(i, d, n, wrap) is Some,
{
    if wrap {
        if i + d < 0 {
            lemma_mod_multiples_vanish(1, -1, n);
            lemma_small_mod((n - 1) as nat, n as nat);
        } else if i + d >= n {
            lemma_mod_multiples_vanish(1, 0, n);
            lemma_small_mod(0, n as nat);
        } else {
            lemma_small_mod((i + d) as nat, n as nat);
        }
    }
}

/// A neighbour that exists lies on the grid.
proof fn lemma_neighbor_on_grid(row: int, col: int, dr: int, dc: int, wrap: bool)
    requires
        0 <= row < HEIGHT,
        0 <= col < WIDTH,
        -1 <= dr <= 1,
        -1 <= dc <= 1,
    ensures
        shifted_coord(row, dr, HEIGHT as int, wrap) matches Some(r) ==> 0 <= r < HEIGHT && (r == row
            <==> dr == 0),
        shifted_coord(col, dc, WIDTH as int, wrap) matches Some(c) ==> 0 <= c < WIDTH && (c == col
            <==> dc == 0),
{
    lemma_shifted_coord(row, dr, HEIGHT as int, wrap);
    lemma_shifted_coord(col, dc, WIDTH as int, wrap);
}

/// Every existing neighbour of `(row, col)` other than the cell itself is dead.
proof fn lemma_dead_neighbors(b: Seq<bool>, row: int, col: int, wrap: bool)
    requires
        well_sized(b),
        0 <= row < HEIGHT,
        0 <= col < WIDTH,
        forall|i: int| 0 <= i < CELLS && i != cell_index(row, col) ==> !b[i],
    ensures
        neighbor_count(b, row, col, wrap) == 0,
{
    assert forall|dr: int, dc: int|
        -1 <= dr <= 1 && -1 <= dc <= 1 && (dr != 0 || dc != 0) implies #[trigger] neighbor_term(
        b,
        row,
        col,
        dr,
        dc,
        wrap,
    ) == 0 by {
        lemma_neighbor_on_grid(row, col, dr, dc, wrap);
    }
}

/// With a single live cell on the board, no cell has more than one live neighbour.
proof fn lemma_at_most_one_live_neighbor(b: Seq<bool>, row: int, col: int, lone: int, wrap: bool)
    requires
        well_sized(b),
        0 <= row < HEIGHT,
        0 <= col < WIDTH,
        forall|i: int| 0 <= i < CELLS && i != lone ==> !b[i],
    ensures
        neighbor_count(b, row, col, wrap) <= 1,
{
    assert forall|dr: int, dc: int, er: int, ec: int|
        -1 <= dr <= 1 && -1 <= dc <= 1 && -1 <= er <= 1 && -1 <= ec <= 1 && #[trigger] neighbor_term(
            b,
            row,
            col,
            dr,
            dc,
            wrap,
        ) == 1 && #[trigger] neighbor_term(b, row, col, er, ec, wrap) == 1 implies dr == er && dc
        == ec by {
        lemma_shifted_coord(row, dr, HEIGHT as int, wrap);
        lemma_shifted_coord(row, er, HEIGHT as int, wrap);
        lemma_shifted_coord(col, dc, WIDTH as int, wrap);
        lemma_shifted_coord(col, ec, WIDTH as int, wrap);
    }
}

/// A board with no live cell stays without a live cell: nothing is born from nothing.
pub proof fn lemma_dead_board_stays_dead(b: Seq<bool>, wrap: bool)
    requires
        well_sized(b),
        forall|i: int| 0 <= i < b.len() ==> !b[i],
    ensures
        forall|i: int| 0 <= i < CELLS ==> !#[trigger] next_board(b, wrap)[i],
{
    assert forall|i: int| 0 <= i < CELLS implies !#[trigger] next_board(b, wrap)[i] by {
        lemma_dead_neighbors(b, i / WIDTH as int, i % WIDTH as int, wrap);
    }
}

/// A live cell with no other live cell on the board has no live neighbour and
/// dies in the next generation, on a torus and on a bounded grid alike; no
/// cell is born beside it, so the next generation is empty.
pub proof fn lemma_lone_cell_dies(b: Seq<bool>, row: int, col: int, wrap: bool)
    requires
        well_sized(b),
        0 <= row < HEIGHT,
        0 <= col < WIDTH,
        forall|i: int| 0 <= i < CELLS && i != cell_index(row, col) ==> !b[i],
    ensures
        neighbor_count(b, row, col, wrap) == 0,
        !next_board(b, wrap)[cell_index(row, col)],
        forall|i: int| 0 <= i < CELLS ==> !#[trigger] next_board(b, wrap)[i],
{
    lemma_dead_neighbors(b, row, col, wrap);
    let lone = cell_index(row, col);
    assert(lone / WIDTH as int == row);
    assert(lone % WIDTH as int == col);
    assert forall|i: int| 0 <= i < CELLS implies !#[trigger] next_board(b, wrap)[i] by {
        lemma_at_most_one_live_neighbor(b, i / WIDTH as int, i % WIDTH as int, lone, wrap);
    }
}

/// On a bounded grid a cell on an edge has at most five neighbours that can be
/// alive and a cell in a corner at most three.
pub proof fn lemma_bounded_edge_neighbors(b: Seq<bool>, row: int, col: int)
    requires
        well_sized(b),
        0 <= row < HEIGHT,
        0 <= col < WIDTH,
    ensures
        (row == 0 || row == HEIGHT - 1 || col == 0 || col == WIDTH - 1) ==> neighbor_count(
            b,
            row,
            col,
            false,
        ) <= 5,
        (row == 0 || row == HEIGHT - 1) && (col == 0 || col == WIDTH - 1) ==> neighbor_count(
            b,
            row,
            col,
            false,
        ) <= 3,
{
}

/// The wraparound setting changes only how neighbours are counted: the rule
/// that follows is the same, so equal counts give equal next states, and a cell
/// away from the edges has the same count under both topologies.
pub proof fn lemma_wrap_changes_only_counting(b: Seq<bool>, i: int)
    requires
        well_sized(b),
        0 <= i < CELLS,
    ensures
        next_board(b, true)[i] == survives(b[i], neighbor_count(b, i / WIDTH as int, i % WIDTH as int, true)),
        next_board(b, false)[i] == survives(b[i], neighbor_count(b, i / WIDTH as int, i % WIDTH as int, false)),
        neighbor_count(b, i / WIDTH as int, i % WIDTH as int, true) == neighbor_count(
            b,
            i / WIDTH as int,
            i % WIDTH as int,
            false,
        ) ==> next_board(b, true)[i] == next_board(b, false)[i],
        0 < (i / WIDTH as int) < HEIGHT - 1 && 0 < (i % WIDTH as int) < WIDTH - 1 ==> neighbor_count(
            b,
            i / WIDTH as int,
            i % WIDTH as int,
            true,
        ) == neighbor_count(b, i / WIDTH as int, i % WIDTH as int, false),
{
    let row = i / WIDTH as int;
    let col = i % WIDTH as int;
    if 0 < row < HEIGHT - 1 && 0 < col < WIDTH - 1 {
        assert forall|d: int| -1 <= d <= 1 implies #[trigger] shifted_coord(row, d, HEIGHT as int, true)
            == shifted_coord(row, d, HEIGHT as int, false) by {
            lemma_shifted_coord(row, d, HEIGHT as int, true);
        }
        assert forall|d: int| -1 <= d <= 1 implies #[trigger] shifted_coord(col, d, WIDTH as int, true)
            == shifted_coord(col, d, WIDTH as int, false) by {
            lemma_shifted_coord(col, d, WIDTH as int, true);
        }
    }
}

/// The settings after a sequence of commands, applied in order.
pub open spec fn control_after_all(c: Control, cmds: Seq<Command>) -> Control
    decreases cmds.len(),
{
    if cmds.len() == 0 {
        c
    } else {
        control_after(control_after_all(c, cmds.drop_last()), cmds.last())
    }
}

/// Whatever commands come, `faster` and `slower` in any order and number, a
/// delay that starts on a positive multiple of the step, as the starting
/// delay does, stays one: it never reaches zero and never falls below one step.
pub proof fn lemma_delay_stays_on_steps(c: Control, cmds: Seq<Command>)
    requires
        c.delay >= DELAY_STEP_MS,
        c.delay % DELAY_STEP_MS == 0,
    ensures
        control_after_all(c, cmds).delay >= DELAY_STEP_MS,
        control_after_all(c, cmds).delay % DELAY_STEP_MS == 0,
    decreases cmds.len(),
{
    if cmds.len() > 0 {
        lemma_delay_stays_on_steps(c, cmds.drop_last());
    }
}

/// `toggle_wrap` twice in a row gives back the settings it started from, and
/// so the same next generation of any board.
pub proof fn lemma_toggle_wrap_twice(c: Control, b: Seq<bool>)
    ensures
        control_after(control_after(c, Command::ToggleWrap), Command::ToggleWrap) == c,
        next_board(b, control_after(control_after(c, Command::ToggleWrap), Command::ToggleWrap).wraparound)
            == next_board(b, c.wraparound),
{
}

} // verus!
