//! The board: a fixed grid of display symbols, rebuilt from scratch every tick.

use vstd::prelude::*;

verus! {

/// Width of the board in cells.
pub const COLS: usize = 25;

/// Height of the board in cells.
pub const ROWS: usize = 25;

/// Number of cells of the board, `ROWS` rows of `COLS` cells each.
pub const CELLS: usize = 625;

/// Symbol of a cell that holds nothing.
pub const EMPTY: char = ' ';

/// Symbol of the wall that rings the board.
pub const WALL: char = '#';

/// Symbol of a snake segment behind the head.
pub const BODY: char = '*';

/// Symbol of the snake's head.
pub const HEAD: char = '@';

/// Symbol of a food item that has not been eaten.
pub const FOOD: char = 'o';

/// `(x, y)` names a cell of the board.
pub open spec fn in_bounds(x: int, y: int) -> bool {
    0 <= x < COLS && 0 <= y < ROWS
}

/// `(x, y)` lies on the first or last column, or on the first or last row.
pub open spec fn on_border(x: int, y: int) -> bool {
    x == 0 || x == COLS - 1 || y == 0 || y == ROWS - 1
}

/// `(x, y)` is a cell strictly inside the ring of walls.
pub open spec fn is_interior(x: int, y: int) -> bool {
    1 <= x <= COLS - 2 && 1 <= y <= ROWS - 2
}

/// Place of the cell `(x, y)` in the row-major sequence of cells.
pub open spec fn cell_index(x: int, y: int) -> int {
    y * COLS + x
}

/// What an untouched board shows at `(x, y)`: wall on the border, nothing inside.
pub open spec fn background(x: int, y: int) -> char {
    if on_border(x, y) {
        WALL
    } else {
        EMPTY
    }
}

/// The cells of a board with nothing on it but its walls.
pub open spec fn blank_cells() -> Seq<char> {
    Seq::new(CELLS as nat, |k: int| background(k % (COLS as int), k / (COLS as int)))
}

/// On a board with nothing on it, each cell shows its background.
pub proof fn lemma_blank_cell(x: int, y: int)
    requires
        in_bounds(x, y),
    ensures
        0 <= cell_index(x, y) < CELLS,
        blank_cells()[cell_index(x, y)] == background(x, y),
{
}

/// The playing surface. It holds no state of its own: every tick it is wiped
/// and the food and the snake are stamped onto it again.
#[derive(Debug)]
pub struct Board {
    cells: [char; CELLS],
}

impl View for Board {
    type V = Seq<char>;

    /// The cells in row-major order, always `CELLS` of them.
    closed spec fn view(&self) -> Seq<char> {
        self.cells@
    }
}

impl Board {
    /// The symbol shown at `(x, y)`.
    pub open spec fn at(&self, x: int, y: int) -> char {
        self@[cell_index(x, y)]
    }

    /// Every board has exactly `CELLS` cells.
    pub proof fn lemma_len(&self)
        ensures
            self@.len() == CELLS,
    {
    }

    /// A board with every cell empty, walls not yet drawn.
    pub fn new() -> (board: Board)
        ensures
            board@ == Seq::new(CELLS as nat, |k: int| EMPTY),
    {
        Board { cells: [EMPTY; CELLS] }
    }

    /// Reads the symbol at column `x` of row `y`.
    pub fn get(&self, x: usize, y: usize) -> (symbol: char)
        requires
            in_bounds(x as int, y as int),
        ensures
            symbol == self.at(x as int, y as int),
    {
        self.cells[y * COLS + x]
    }

    /// Overwrites the cell `(x, y)` with `symbol`, whatever it held, and
    /// leaves every other cell alone.
    pub fn stamp(&mut self, x: i32, y: i32, symbol: char)
        requires
            in_bounds(x as int, y as int),
        ensures
            final(self)@ == old(self)@.update(cell_index(x as int, y as int), symbol),
    {
        let index: usize = (y as usize) * COLS + (x as usize);
        self.cells[index] = symbol;
    }
}

/// Wipes the board: walls on every border cell, nothing anywhere else.
pub fn fill_board(board: &mut Board)
    ensures
        final(board)@ == blank_cells(),
        forall|x: int, y: int|
            in_bounds(x, y) ==> #[trigger] final(board).at(x, y) == background(x, y),
{
    let mut y: usize = 0;
    while y < ROWS
        invariant
            y <= ROWS,
            forall|k: int| 0 <= k < y * COLS ==> board@[k] == blank_cells()[k],
        decreases ROWS - y,
    {
        let mut x: usize = 0;
        while x < COLS
            invariant
                y < ROWS,
                x <= COLS,
                forall|k: int| 0 <= k < y * COLS + x ==> board@[k] == blank_cells()[k],
            decreases COLS - x,
        {
            let index: usize = y * COLS + x;
            let symbol: char = if x == 0 || x == COLS - 1 || y == 0 || y == ROWS - 1 {
                WALL
            } else {
                EMPTY
            };
            board.cells[index] = symbol;
            x += 1;
        }
        y += 1;
    }
    assert forall|x: int, y: int| in_bounds(x, y) implies #[trigger] board.at(x, y) == background(
        x,
        y,
    ) by {
        lemma_blank_cell(x, y);
    }
}

} // verus!
