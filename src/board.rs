use vstd::prelude::*;

use crate::commands::same_text;
use crate::consts::{
    CELLS, CROSS_FIRST, CROSS_LAST, HEIGHT, RANDOM_ALIVE_DENOMINATOR, RANDOM_ALIVE_NUMERATOR, WIDTH,
};

verus! {

/// Row-major position of the cell at `(row, col)`.
pub open spec fn cell_index(row: int, col: int) -> int {
    row * WIDTH as int + col
}

/// State of the cell at `(row, col)` of a board.
pub open spec fn cell_at(b: Seq<bool>, row: int, col: int) -> bool {
    b[cell_index(row, col)]
}

/// A board holds exactly one state per cell of the grid.
pub open spec fn well_sized(b: Seq<bool>) -> bool {
    b.len() == CELLS
}

/// Calculates the 1D index from a 2D (row, column) pair.
pub fn idx(row: usize, col: usize) -> (r: usize)
    requires
        cell_index(row as int, col as int) <= usize::MAX,
    ensures
        r == cell_index(row as int, col as int),
{
    row * WIDTH + col
}

/// Row-major position of `(row, col)` on a grid `width` columns wide.
pub open spec fn grid_index(width: int, row: int, col: int) -> int {
    row * width + col
}

/// A cell of a `width` by `height` grid has a position on it.
proof fn lemma_grid_index_on_grid(width: int, height: int, row: int, col: int)
    requires
        0 <= row < height,
        0 <= col < width,
    ensures
        0 <= grid_index(width, row, col) < width * height,
{
    assert(0 <= row * width + col < width * height) by (nonlinear_arith)
        requires
            0 <= row < height,
            0 <= col < width,
    ;
}

/// The position of `(row, col)` on a grid `width` columns wide.
fn grid_idx(width: usize, row: usize, col: usize) -> (r: usize)
    requires
        grid_index(width as int, row as int, col as int) <= usize::MAX,
    ensures
        r == grid_index(width as int, row as int, col as int),
{
    row * width + col
}

/// Whether some entry of `rows` together with `column` addresses position `i`.
pub open spec fn hit_in_column(width: int, rows: Seq<usize>, column: int, i: int) -> bool {
    exists|k: int| 0 <= k < rows.len() && i == grid_index(width, #[trigger] rows[k] as int, column)
}

/// Whether some entry of `columns` together with `row` addresses position `i`.
pub open spec fn hit_in_row(width: int, row: int, columns: Seq<usize>, i: int) -> bool {
    exists|k: int| 0 <= k < columns.len() && i == grid_index(width, row, #[trigger] columns[k] as int)
}

/// Sets specified columns in a particular row of a grid `width` columns wide to true.
fn set_row(row: usize, columns: Vec<usize>, width: usize, board: &mut Vec<bool>)
    requires
        forall|k: int|
            0 <= k < columns@.len() ==> grid_index(width as int, row as int, #[trigger] columns@[k] as int)
                < old(board)@.len(),
    ensures
        final(board)@.len() == old(board)@.len(),
        forall|i: int|
            0 <= i < old(board)@.len() ==> #[trigger] final(board)@[i] == (old(board)@[i]
                || hit_in_row(width as int, row as int, columns@, i)),
{
    let ghost start = board@;
    let len = board.len();
    let mut j: usize = 0;
    while j < columns.len()
        invariant
            j <= columns@.len(),
            board@.len() == start.len(),
            len == start.len(),
            forall|k: int|
                0 <= k < columns@.len() ==> grid_index(width as int, row as int, #[trigger] columns@[k] as int)
                    < start.len(),
            forall|i: int|
                0 <= i < start.len() ==> #[trigger] board@[i] == (start[i] || hit_in_row(
                    width as int,
                    row as int,
                    columns@.take(j as int),
                    i,
                )),
        decreases columns@.len() - j,
    {
        let column = columns[j];
        let target = grid_idx(width, row, column);
        board.set(target, true);
        proof {
            assert forall|i: int| 0 <= i < start.len() implies #[trigger] board@[i] == (start[i]
                || hit_in_row(width as int, row as int, columns@.take(j + 1), i)) by {
                if i == target {
                    assert(columns@.take(j + 1)[j as int] == column);
                } else if hit_in_row(width as int, row as int, columns@.take(j + 1), i) {
                    let k = choose|k: int|
                        0 <= k < j + 1 && i == grid_index(
                            width as int,
                            row as int,
                            #[trigger] columns@.take(j + 1)[k] as int,
                        );
                    assert(columns@.take(j as int)[k] == columns@[k]);
                } else if hit_in_row(width as int, row as int, columns@.take(j as int), i) {
                    let k = choose|k: int|
                        0 <= k < j && i == grid_index(
                            width as int,
                            row as int,
                            #[trigger] columns@.take(j as int)[k] as int,
                        );
                    assert(columns@.take(j + 1)[k] == columns@[k]);
                }
            }
        }
        j += 1;
    }
    assert(columns@.take(columns@.len() as int) =~= columns@);
}

/// Sets specified rows in a particular column of a grid `width` columns wide to true.
fn set_column(column: usize, rows: Vec<usize>, width: usize, board: &mut Vec<bool>)
    requires
        forall|k: int|
            0 <= k < rows@.len() ==> grid_index(width as int, #[trigger] rows@[k] as int, column as int)
                < old(board)@.len(),
    ensures
        final(board)@.len() == old(board)@.len(),
        forall|i: int|
            0 <= i < old(board)@.len() ==> #[trigger] final(board)@[i] == (old(board)@[i]
                || hit_in_column(width as int, rows@, column as int, i)),
{
    let ghost start = board@;
    let len = board.len();
    let mut j: usize = 0;
    while j < rows.len()
        invariant
            j <= rows@.len(),
            board@.len() == start.len(),
            len == start.len(),
            forall|k: int|
                0 <= k < rows@.len() ==> grid_index(width as int, #[trigger] rows@[k] as int, column as int)
                    < start.len(),
            forall|i: int|
                0 <= i < start.len() ==> #[trigger] board@[i] == (start[i] || hit_in_column(
                    width as int,
                    rows@.take(j as int),
                    column as int,
                    i,
                )),
        decreases rows@.len() - j,
    {
        let row = rows[j];
        let target = grid_idx(width, row, column);
        board.set(target, true);
        proof {
            assert forall|i: int| 0 <= i < start.len() implies #[trigger] board@[i] == (start[i]
                || hit_in_column(width as int, rows@.take(j + 1), column as int, i)) by {
                if i == target {
                    assert(rows@.take(j + 1)[j as int] == row);
                } else if hit_in_column(width as int, rows@.take(j + 1), column as int, i) {
                    let k = choose|k: int|
                        0 <= k < j + 1 && i == grid_index(
                            width as int,
                            #[trigger] rows@.take(j + 1)[k] as int,
                            column as int,
                        );
                    assert(rows@.take(j as int)[k] == rows@[k]);
                } else if hit_in_column(width as int, rows@.take(j as int), column as int, i) {
                    let k = choose|k: int|
                        0 <= k < j && i == grid_index(
                            width as int,
                            #[trigger] rows@.take(j as int)[k] as int,
                            column as int,
                        );
                    assert(rows@.take(j + 1)[k] == rows@[k]);
                }
            }
        }
        j += 1;
    }
    assert(rows@.take(rows@.len() as int) =~= rows@);
}

/// Whether position `i` lies on the cross of a `width` by `height` board: the
/// column `width / 2` on the rows from `CROSS_FIRST` to `CROSS_LAST`, and the row
/// `height / 2` on the columns of the same range, as far as they lie on the grid.
pub open spec fn in_cross(width: int, height: int, i: int) -> bool {
    &&& 0 < width
    &&& 0 < height
    &&& {
        ||| exists|r: int|
            CROSS_FIRST <= r <= CROSS_LAST && r < height && i == #[trigger] grid_index(
                width,
                r,
                width / 2,
            )
        ||| exists|c: int|
            CROSS_FIRST <= c <= CROSS_LAST && c < width && i == #[trigger] grid_index(
                width,
                height / 2,
                c,
            )
    }
}

/// The cross pattern on a `width` by `height` board.
pub open spec fn cross_board(width: nat, height: nat) -> Seq<bool> {
    Seq::new(width * height, |i: int| in_cross(width as int, height as int, i))
}

/// Whether position `i` of a grid `width` columns wide is one of the five
/// cells of the glider in the top-left corner.
pub open spec fn glider_cell(width: int, i: int) -> bool {
    ||| i == grid_index(width, 0, 1)
    ||| i == grid_index(width, 1, 2)
    ||| i == grid_index(width, 2, 0)
    ||| i == grid_index(width, 2, 1)
    ||| i == grid_index(width, 2, 2)
}

/// The glider pattern on a `width` by `height` board; empty when the board
/// is not larger than 2 by 2.
pub open spec fn glider_board(width: nat, height: nat) -> Seq<bool> {
    Seq::new(width * height, |i: int| width > 2 && height > 2 && glider_cell(width as int, i))
}

/// The numbers from `first` up to but not including `end`, in order; none
/// when `end` is not above `first`.
fn span(first: usize, end: usize) -> (r: Vec<usize>)
    ensures
        r@.len() == if first < end {
            end - first
        } else {
            0
        },
        forall|k: int| 0 <= k < r@.len() ==> #[trigger] r@[k] == first + k,
{
    let mut r: Vec<usize> = Vec::new();
    let mut v: usize = first;
    while v < end
        invariant
            first <= v,
            first < end ==> v <= end,
            first >= end ==> v == first,
            r@.len() == v - first,
            forall|k: int| 0 <= k < r@.len() ==> #[trigger] r@[k] == first + k,
        decreases end - v,
    {
        r.push(v);
        v += 1;
    }
    r
}

/// Initialize the board with the cross pattern: a vertical and a horizontal
/// line of live cells through the middle.
pub fn initialize_cross(width: usize, height: usize) -> (r: Vec<bool>)
    requires
        width * height <= usize::MAX,
    ensures
        r@ == cross_board(width as nat, height as nat),
{
    let mut board = vec![false; width * height];
    let ghost blank = board@;
    if width > 0 && height > 0 {
        let mid_col = width / 2;
        let mid_row = height / 2;
        let rows = span(CROSS_FIRST, if height <= CROSS_LAST { height } else { CROSS_LAST + 1 });
        let columns = span(CROSS_FIRST, if width <= CROSS_LAST { width } else { CROSS_LAST + 1 });
        let ghost rows_view = rows@;
        let ghost columns_view = columns@;
        assert forall|k: int| 0 <= k < rows_view.len() implies grid_index(
            width as int,
            #[trigger] rows_view[k] as int,
            mid_col as int,
        ) < blank.len() by {
            lemma_grid_index_on_grid(width as int, height as int, rows_view[k] as int, mid_col as int);
        }
        assert forall|k: int| 0 <= k < columns_view.len() implies grid_index(
            width as int,
            mid_row as int,
            #[trigger] columns_view[k] as int,
        ) < blank.len() by {
            lemma_grid_index_on_grid(width as int, height as int, mid_row as int, columns_view[k] as int);
        }
        set_column(mid_col, rows, width, &mut board);
        set_row(mid_row, columns, width, &mut board);
        proof {
            let w = width as int;
            let h = height as int;
            assert forall|i: int| 0 <= i < board@.len() implies board@[i] == in_cross(w, h, i) by {
                assert(!blank[i]);
                if hit_in_column(w, rows_view, mid_col as int, i) {
                    let k = choose|k: int|
                        0 <= k < rows_view.len() && i == grid_index(
                            w,
                            #[trigger] rows_view[k] as int,
                            mid_col as int,
                        );
                    assert(i == grid_index(w, rows_view[k] as int, w / 2));
                }
                if hit_in_row(w, mid_row as int, columns_view, i) {
                    let k = choose|k: int|
                        0 <= k < columns_view.len() && i == grid_index(
                            w,
                            mid_row as int,
                            #[trigger] columns_view[k] as int,
                        );
                    assert(i == grid_index(w, h / 2, columns_view[k] as int));
                }
                if exists|r: int|
                    CROSS_FIRST <= r <= CROSS_LAST && r < h && i == #[trigger] grid_index(w, r, w / 2) {
                    let r = choose|r: int|
                        CROSS_FIRST <= r <= CROSS_LAST && r < h && i == #[trigger] grid_index(w, r, w / 2);
                    assert(rows_view[r - CROSS_FIRST] == r);
                }
                if exists|c: int|
                    CROSS_FIRST <= c <= CROSS_LAST && c < w && i == #[trigger] grid_index(w, h / 2, c) {
                    let c = choose|c: int|
                        CROSS_FIRST <= c <= CROSS_LAST && c < w && i == #[trigger] grid_index(w, h / 2, c);
                    assert(columns_view[c - CROSS_FIRST] == c);
                }
            }
        }
    }
    assert(board@ =~= cross_board(width as nat, height as nat));
    board
}

/// Initialize the board with a glider pattern in the top-left corner.
pub fn initialize_glider(width: usize, height: usize) -> (r: Vec<bool>)
    requires
        width * height <= usize::MAX,
    ensures
        r@ == glider_board(width as nat, height as nat),
{
    let mut board = vec![false; width * height];
    if width > 2 && height > 2 {
        proof {
            lemma_grid_index_on_grid(width as int, height as int, 2, 2);
        }
        board.set(grid_idx(width, 0, 1), true);
        board.set(grid_idx(width, 1, 2), true);
        board.set(grid_idx(width, 2, 0), true);
        board.set(grid_idx(width, 2, 1), true);
        board.set(grid_idx(width, 2, 2), true);
    }
    assert(board@ =~= glider_board(width as nat, height as nat));
    board
}

/// The character that marks a live cell in a saved board.
pub open spec fn saved_char(alive: bool) -> char {
    if alive {
        '1'
    } else {
        '0'
    }
}

/// The lines of a saved board: one per row, one character per column.
pub open spec fn saved_rows(b: Seq<bool>) -> Seq<Seq<char>> {
    Seq::new(
        HEIGHT as nat,
        |row: int| Seq::new(WIDTH as nat, |col: int| saved_char(cell_at(b, row, col))),
    )
}

/// The board that lines read back describe: a cell is alive when its line and
/// its column exist and hold `'1'`; lines and columns beyond the grid are ignored.
pub open spec fn loaded_board(rows: Seq<Seq<char>>) -> Seq<bool> {
    Seq::new(
        CELLS as nat,
        |i: int|
            {
                let row = i / WIDTH as int;
                let col = i % WIDTH as int;
                row < rows.len() && col < rows[row].len() && rows[row][col] == '1'
            },
    )
}

/// The characters of each line of `rows`.
pub open spec fn lines_of(rows: Seq<Vec<char>>) -> Seq<Seq<char>> {
    rows.map_values(|line: Vec<char>| line@)
}

/// Reading back the lines in which a board is saved gives the same board.
pub proof fn lemma_save_load_round_trip(b: Seq<bool>)
    requires
        well_sized(b),
    ensures
        loaded_board(saved_rows(b)) == b,
{
    assert forall|i: int| 0 <= i < CELLS implies #[trigger] loaded_board(saved_rows(b))[i] == b[i] by {
        let row = i / WIDTH as int;
        let col = i % WIDTH as int;
        assert(cell_index(row, col) == i);
    }
    assert(loaded_board(saved_rows(b)) =~= b);
}

/// Saving the board read from lines of exactly `'0'` and `'1'`, one line per
/// row and one character per column, gives the same lines back.
pub proof fn lemma_load_save_round_trip(rows: Seq<Seq<char>>)
    requires
        rows.len() == HEIGHT,
        forall|r: int| 0 <= r < HEIGHT ==> (#[trigger] rows[r]).len() == WIDTH,
        forall|r: int, c: int|
            0 <= r < HEIGHT && 0 <= c < WIDTH ==> #[trigger] rows[r][c] == '0' || rows[r][c] == '1',
    ensures
        saved_rows(loaded_board(rows)) == rows,
{
    let b = loaded_board(rows);
    assert forall|r: int| 0 <= r < HEIGHT implies #[trigger] saved_rows(b)[r] == rows[r] by {
        assert forall|c: int| 0 <= c < WIDTH implies #[trigger] saved_rows(b)[r][c] == rows[r][c] by {
            let i = cell_index(r, c);
            assert(i / WIDTH as int == r);
            assert(i % WIDTH as int == c);
        }
        assert(saved_rows(b)[r] =~= rows[r]);
    }
    assert(saved_rows(b) =~= rows);
}

/// The lines in which the board is saved.
pub fn save_board(board: &[bool]) -> (r: Vec<Vec<char>>)
    requires
        well_sized(board@),
    ensures
        lines_of(r@) == saved_rows(board@),
{
    let mut rows: Vec<Vec<char>> = Vec::new();
    let mut row: usize = 0;
    while row < HEIGHT
        invariant
            row <= HEIGHT,
            well_sized(board@),
            rows@.len() == row,
            forall|r: int| 0 <= r < row ==> #[trigger] rows@[r]@ == saved_rows(board@)[r],
        decreases HEIGHT - row,
    {
        let mut line: Vec<char> = Vec::new();
        let mut col: usize = 0;
        while col < WIDTH
            invariant
                row < HEIGHT,
                col <= WIDTH,
                well_sized(board@),
                line@.len() == col,
                forall|c: int|
                    0 <= c < col ==> #[trigger] line@[c] == saved_char(
                        cell_at(board@, row as int, c),
                    ),
            decreases WIDTH - col,
        {
            let cell = if board[idx(row, col)] {
                '1'
            } else {
                '0'
            };
            line.push(cell);
            col += 1;
        }
        assert(line@ =~= saved_rows(board@)[row as int]);
        rows.push(line);
        row += 1;
    }
    assert(lines_of(rows@) =~= saved_rows(board@));
    rows
}

/// The board that the lines of a saved board describe.
pub fn load_board(rows: &Vec<Vec<char>>) -> (r: Vec<bool>)
    ensures
        r@ == loaded_board(lines_of(rows@)),
{
    let ghost lines = lines_of(rows@);
    let mut board = vec![false; CELLS];
    let mut row: usize = 0;
    while row < HEIGHT
        invariant
            row <= HEIGHT,
            lines == lines_of(rows@),
            well_sized(board@),
            forall|i: int|
                0 <= i < CELLS ==> #[trigger] board@[i] == (i < row * WIDTH && loaded_board(lines)[i]),
        decreases HEIGHT - row,
    {
        let mut col: usize = 0;
        while col < WIDTH
            invariant
                row < HEIGHT,
                col <= WIDTH,
                lines == lines_of(rows@),
                well_sized(board@),
                forall|i: int|
                    0 <= i < CELLS ==> #[trigger] board@[i] == (i < row * WIDTH + col
                        && loaded_board(lines)[i]),
            decreases WIDTH - col,
        {
            let ghost i = cell_index(row as int, col as int);
            assert(i / WIDTH as int == row as int);
            assert(i % WIDTH as int == col as int);
            if row < rows.len() && col < rows[row].len() {
                board.set(idx(row, col), rows[row][col] == '1');
            }
            col += 1;
        }
        row += 1;
    }
    assert(board@ =~= loaded_board(lines));
    board
}

/// Relies on `rand::thread_rng` and `rand::Rng::gen_range`: a number drawn
/// uniformly from `0..bound`. `gen_range` panics on an empty range.
#[verifier::external_body]
fn random_below(bound: u32) -> (r: u32)
    requires
        0 < bound,
    ensures
        r < bound,
{
    rand::Rng::gen_range(&mut rand::thread_rng(), 0..bound)
}

/// The cells that draws from `0..RANDOM_ALIVE_DENOMINATOR` give, one per draw:
/// alive where the draw is below `RANDOM_ALIVE_NUMERATOR`, so one cell in five.
pub open spec fn cells_of_draws(draws: Seq<u32>) -> Seq<bool> {
    draws.map_values(|d: u32| d < RANDOM_ALIVE_NUMERATOR)
}

/// The cells that the given draws give.
pub fn cells_from_draws(draws: &Vec<u32>) -> (r: Vec<bool>)
    ensures
        r@ == cells_of_draws(draws@),
{
    let mut cells: Vec<bool> = Vec::new();
    let mut i: usize = 0;
    while i < draws.len()
        invariant
            i <= draws@.len(),
            cells@ == cells_of_draws(draws@.take(i as int)),
        decreases draws@.len() - i,
    {
        cells.push(draws[i] < RANDOM_ALIVE_NUMERATOR);
        proof {
            assert(draws@.take(i + 1) =~= draws@.take(i as int).push(draws@[i as int]));
            assert(cells@ =~= cells_of_draws(draws@.take(i + 1)));
        }
        i += 1;
    }
    assert(draws@.take(draws@.len() as int) =~= draws@);
    cells
}

/// Initialize the board with random live and dead cells, each alive on its own
/// with a fixed probability: each cell comes from one draw from
/// `0..RANDOM_ALIVE_DENOMINATOR`.
pub fn initialize_random(width: usize, height: usize) -> (r: Vec<bool>)
    requires
        width * height <= usize::MAX,
    ensures
        r@.len() == width * height,
        exists|draws: Seq<u32>|
            #![trigger cells_of_draws(draws)]
            draws.len() == width * height && (forall|i: int|
                0 <= i < draws.len() ==> draws[i] < RANDOM_ALIVE_DENOMINATOR) && r@
                == cells_of_draws(draws),
{
    let n = width * height;
    let mut draws: Vec<u32> = Vec::new();
    let mut i: usize = 0;
    while i < n
        invariant
            i <= n,
            draws@.len() == i,
            forall|k: int| 0 <= k < draws@.len() ==> draws@[k] < RANDOM_ALIVE_DENOMINATOR,
        decreases n - i,
    {
        draws.push(random_below(RANDOM_ALIVE_DENOMINATOR));
        i += 1;
    }
    let board = cells_from_draws(&draws);
    assert(draws@.len() == width * height && (forall|i: int|
        0 <= i < draws@.len() ==> draws@[i] < RANDOM_ALIVE_DENOMINATOR) && board@ == cells_of_draws(
        draws@,
    ));
    board
}

/// The starting patterns.
#[derive(Clone, Copy, Debug, PartialEq, Eq, Structural)]
pub enum Pattern {
    Cross,
    Glider,
    Random,
}

/// The pattern a name selects: `glider`, `random`, and the cross for any other name.
pub open spec fn pattern_of(name: Seq<char>) -> Pattern {
    if name == "glider"@ {
        Pattern::Glider
    } else if name == "random"@ {
        Pattern::Random
    } else {
        Pattern::Cross
    }
}

/// The pattern a name selects.
pub fn pattern_named(name: &str) -> (r: Pattern)
    ensures
        r == pattern_of(name@),
{
    if same_text(name, "glider") {
        Pattern::Glider
    } else if same_text(name, "random") {
        Pattern::Random
    } else {
        Pattern::Cross
    }
}

/// What became of a request to start from a saved board.
pub enum SavedBoard {
    /// No saved board was asked for.
    NotRequested,
    /// A saved board was asked for and could not be read.
    Unreadable,
    /// The lines of the saved board that was read.
    Lines(Vec<Vec<char>>),
}

/// Initialize the board from the saved board if one was read, from the cross
/// pattern if it could not be read, and from the named pattern if none was asked for.
pub fn initialize_board(pattern: &str, saved: SavedBoard) -> (r: Vec<bool>)
    ensures
        well_sized(r@),
        match saved {
            SavedBoard::Lines(rows) => r@ == loaded_board(lines_of(rows@)),
            SavedBoard::Unreadable => r@ == cross_board(WIDTH as nat, HEIGHT as nat),
            SavedBoard::NotRequested => match pattern_of(pattern@) {
                Pattern::Cross => r@ == cross_board(WIDTH as nat, HEIGHT as nat),
                Pattern::Glider => r@ == glider_board(WIDTH as nat, HEIGHT as nat),
                Pattern::Random => true,
            },
        },
{
    match saved {
        SavedBoard::Lines(rows) => load_board(&rows),
        SavedBoard::Unreadable => initialize_cross(WIDTH, HEIGHT),
        SavedBoard::NotRequested => match pattern_named(pattern) {
            Pattern::Glider => initialize_glider(WIDTH, HEIGHT),
            Pattern::Random => initialize_random(WIDTH, HEIGHT),
            Pattern::Cross => initialize_cross(WIDTH, HEIGHT),
        },
    }
}

} // verus!
