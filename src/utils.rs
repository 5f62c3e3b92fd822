use vstd::prelude::*;

use vstd::string::*;

use crate::board::{cell_at, idx, well_sized};
use crate::consts::{HEIGHT, VIEW_MODE, WIDTH};

verus! {

/// The text that draws a cell in a display mode.
pub open spec fn glyph(mode: usize, alive: bool) -> Seq<char> {
    if mode == 1 {
        if alive {
            "@"@
        } else {
            "."@
        }
    } else if mode == 2 {
        if alive {
            "\x1b[32mO\x1b[0m"@
        } else {
            "\x1b[90m.\x1b[0m"@
        }
    } else if alive {
        "O"@
    } else {
        " "@
    }
}

/// Returns the text representing the cell in the configured display mode.
pub fn cell_representation(cell_alive: bool) -> (r: String)
    ensures
        r@ == glyph(VIEW_MODE, cell_alive),
{
    match VIEW_MODE {
        0 => {
            if cell_alive {
                "O".to_string()
            } else {
                " ".to_string()
            }
        },
        1 => {
            if cell_alive {
                "@".to_string()
            } else {
                ".".to_string()
            }
        },
        2 => {
            if cell_alive {
                "\x1b[32mO\x1b[0m".to_string()
            } else {
                "\x1b[90m.\x1b[0m".to_string()
            }
        },
        _ => {
            if cell_alive {
                "O".to_string()
            } else {
                " ".to_string()
            }
        },
    }
}

/// The glyphs of the first `cols` cells of row `row`.
pub open spec fn row_text(b: Seq<bool>, row: int, cols: nat) -> Seq<char>
    decreases cols,
{
    if cols == 0 {
        Seq::empty()
    } else {
        row_text(b, row, (cols - 1) as nat) + glyph(VIEW_MODE, cell_at(b, row, cols - 1))
    }
}

/// The text of the first `rows` rows of a board, each row ended by a newline.
pub open spec fn board_text(b: Seq<bool>, rows: nat) -> Seq<char>
    decreases rows,
{
    if rows == 0 {
        Seq::empty()
    } else {
        board_text(b, (rows - 1) as nat) + row_text(b, rows - 1, WIDTH as nat) + "\n"@
    }
}

/// The text that draws the board on the terminal: one line per row, one glyph per cell.
pub fn render_board(board: &[bool]) -> (r: String)
    requires
        well_sized(board@),
    ensures
        r@ == board_text(board@, HEIGHT as nat),
{
    let mut text = String::new();
    let mut row: usize = 0;
    while row < HEIGHT
        invariant
            row <= HEIGHT,
            well_sized(board@),
            text@ == board_text(board@, row as nat),
        decreases HEIGHT - row,
    {
        let ghost before = text@;
        let mut col: usize = 0;
        while col < WIDTH
            invariant
                row < HEIGHT,
                col <= WIDTH,
                well_sized(board@),
                text@ == before + row_text(board@, row as int, col as nat),
            decreases WIDTH - col,
        {
            let glyph_text = cell_representation(board[idx(row, col)]);
            text.append(glyph_text.as_str());
            proof {
                assert(row_text(board@, row as int, (col + 1) as nat) == row_text(
                    board@,
                    row as int,
                    col as nat,
                ) + glyph(VIEW_MODE, cell_at(board@, row as int, col as int)));
                assert(text@ =~= before + row_text(board@, row as int, (col + 1) as nat));
            }
            col += 1;
        }
        text.append("\n");
        proof {
            assert(text@ =~= board_text(board@, (row + 1) as nat));
        }
        row += 1;
    }
    text
}

} // verus!
