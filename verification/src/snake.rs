//! The snake: a chain of segments that follows its head.

use crate::board::{cell_index, in_bounds, is_interior, Board, BODY, CELLS, COLS, HEAD, ROWS};
use crate::random::gen_range;
use vstd::prelude::*;

verus! {

/// The most segments a snake can ever have.
pub const SNAKE_MAX_LEN: usize = 256;

/// One segment of the snake: the cell it occupies.
#[derive(Debug, Clone, Copy, PartialEq, Eq, Structural)]
pub struct SnakePart {
    pub x: i32,
    pub y: i32,
}

/// The snake. Segment 0 is the head. Storage for all `SNAKE_MAX_LEN`
/// segments exists from the start; only the first `len()` of them belong to
/// the body, the rest is slack that growth takes into use.
#[derive(Debug)]
pub struct Snake {
    length: usize,
    parts: [SnakePart; SNAKE_MAX_LEN],
}

/// Where the segments stand after one move by `(dx, dy)`: the head is
/// offset, each further body segment takes the place of the one ahead of it,
/// and the slack behind the body stays as it was.
pub open spec fn advanced(parts: Seq<SnakePart>, len: nat, dx: int, dy: int) -> Seq<SnakePart> {
    Seq::new(
        parts.len(),
        |i: int|
            if i == 0 {
                SnakePart { x: (parts[0].x + dx) as i32, y: (parts[0].y + dy) as i32 }
            } else if i < len {
                parts[i - 1]
            } else {
                parts[i]
            },
    )
}

/// One of the segments `from..to` of `parts` occupies the cell with index `k`.
pub open spec fn covers(parts: Seq<SnakePart>, from: int, to: int, k: int) -> bool {
    exists|i: int|
        from <= i < to && cell_index(#[trigger] parts[i].x as int, parts[i].y as int) == k
}

/// The cells after a snake of `len` segments has been stamped over `cells`:
/// the head symbol on the head's cell, the body symbol on every other cell
/// that a segment occupies, all else untouched.
pub open spec fn with_snake(cells: Seq<char>, parts: Seq<SnakePart>, len: nat) -> Seq<char> {
    Seq::new(
        cells.len(),
        |k: int|
            if cell_index(parts[0].x as int, parts[0].y as int) == k {
                HEAD
            } else if covers(parts, 1, len as int, k) {
                BODY
            } else {
                cells[k]
            },
    )
}

impl View for Snake {
    type V = Seq<SnakePart>;

    /// The body: the segments in use, head first.
    open spec fn view(&self) -> Seq<SnakePart> {
        self.parts().take(self.len() as int)
    }
}

impl Snake {
    /// Number of segments of the body.
    pub closed spec fn spec_len(&self) -> usize {
        self.length
    }

    /// All stored segments, the body first and the slack behind it.
    pub closed spec fn parts(&self) -> Seq<SnakePart> {
        self.parts@
    }

    /// The head.
    pub open spec fn head(&self) -> SnakePart {
        self.parts()[0]
    }

    /// The body has at least the head and fits the storage.
    pub open spec fn wf(&self) -> bool {
        &&& 1 <= self.len() <= SNAKE_MAX_LEN
        &&& self.parts().len() == SNAKE_MAX_LEN
    }

    /// Every segment of the body stands on a cell of the board.
    pub open spec fn on_board(&self) -> bool {
        forall|i: int| 0 <= i < self.len() ==> in_bounds(
            #[trigger] self.parts()[i].x as int,
            self.parts()[i].y as int,
        )
    }

    /// A snake of one segment, with every stored segment at `(0, 0)`.
    pub fn new() -> (snake: Snake)
        ensures
            snake.wf(),
            snake.len() == 1,
            snake.parts() == Seq::new(SNAKE_MAX_LEN as nat, |i: int| SnakePart { x: 0, y: 0 }),
    {
        Snake { length: 1, parts: [SnakePart { x: 0, y: 0 }; SNAKE_MAX_LEN] }
    }

    /// Number of segments of the body.
    #[verifier::when_used_as_spec(spec_len)]
    pub fn len(&self) -> (n: usize)
        ensures
            n == self.len(),
    {
        self.length
    }

    /// The stored segment `i`, body or slack.
    pub fn part(&self, i: usize) -> (part: SnakePart)
        requires
            i < SNAKE_MAX_LEN,
        ensures
            part == self.parts()[i as int],
    {
        self.parts[i]
    }

    /// Cuts the snake back to its head and puts the head on `(x, y)`.
    /// The slack keeps what it held.
    pub fn place(&mut self, x: i32, y: i32)
        ensures
            final(self).wf(),
            final(self).len() == 1,
            final(self).parts() == old(self).parts().update(0, SnakePart { x, y }),
            final(self)@ == seq![SnakePart { x, y }],
    {
        self.length = 1;
        self.parts[0] = SnakePart { x, y };
    }

    /// Takes one more stored segment into the body. The segments themselves
    /// do not change: the new tail is whatever the slack held there.
    pub fn grow(&mut self)
        requires
            old(self).wf(),
            old(self).len() < SNAKE_MAX_LEN,
        ensures
            final(self).wf(),
            final(self).len() == old(self).len() + 1,
            final(self).parts() == old(self).parts(),
            final(self)@ == old(self)@.push(old(self).parts()[old(self).len() as int]),
    {
        self.length += 1;
    }
}

/// Puts a snake of one segment on a cell drawn at random from the interior
/// of the board.
pub fn setup_snake(snake: &mut Snake)
    ensures
        final(snake).wf(),
        final(snake).len() == 1,
        is_interior(final(snake).head().x as int, final(snake).head().y as int),
        final(snake).parts() == old(snake).parts().update(0, final(snake).head()),
{
    let mut rng = rand::thread_rng();
    let x: i32 = gen_range(&mut rng, 1, COLS as i32 - 1);
    let y: i32 = gen_range(&mut rng, 1, ROWS as i32 - 1);
    snake.place(x, y);
}

/// Moves the snake one step: every body segment behind the head takes the
/// place of the segment ahead of it, then the head is offset by `(dx, dy)`.
/// Nothing is checked against walls or the body here.
pub fn move_snake(dx: i32, dy: i32, snake: &mut Snake)
    requires
        old(snake).wf(),
        i32::MIN <= old(snake).head().x + dx <= i32::MAX,
        i32::MIN <= old(snake).head().y + dy <= i32::MAX,
    ensures
        final(snake).wf(),
        final(snake).len() == old(snake).len(),
        final(snake).parts() == advanced(
            old(snake).parts(),
            old(snake).len() as nat,
            dx as int,
            dy as int,
        ),
        final(snake).head().x == old(snake).head().x + dx,
        final(snake).head().y == old(snake).head().y + dy,
        forall|i: int|
            1 <= i < old(snake).len() ==> final(snake).parts()[i] == old(snake).parts()[i - 1],
        final(snake)@ == seq![final(snake).head()] + old(snake)@.drop_last(),
{
    let mut i: usize = snake.length - 1;
    while i > 0
        invariant
            snake.length == old(snake).length,
            i < snake.length <= SNAKE_MAX_LEN,
            forall|j: int| 0 <= j <= i ==> snake.parts@[j] == old(snake).parts@[j],
            forall|j: int| i < j < snake.length ==> snake.parts@[j] == old(snake).parts@[j - 1],
            forall|j: int|
                snake.length <= j < SNAKE_MAX_LEN ==> snake.parts@[j] == old(snake).parts@[j],
        decreases i,
    {
        snake.parts[i] = snake.parts[i - 1];
        i -= 1;
    }
    snake.parts[0] = SnakePart { x: snake.parts[0].x + dx, y: snake.parts[0].y + dy };
}

/// Stamps the snake onto the board: the body symbol for every segment behind
/// the head, then the head symbol, which wins where the two share a cell.
pub fn draw_snake(snake: &Snake, board: &mut Board)
    requires
        snake.wf(),
        snake.on_board(),
    ensures
        final(board)@ == with_snake(old(board)@, snake.parts(), snake.len() as nat),
{
    proof {
        board.lemma_len();
    }
    let mut i: usize = snake.length - 1;
    while i > 0
        invariant
            snake.wf(),
            snake.on_board(),
            i < snake.length,
            board@.len() == CELLS,
            old(board)@.len() == CELLS,
            forall|k: int|
                0 <= k < CELLS ==> board@[k] == if covers(
                    snake.parts(),
                    i + 1,
                    snake.length as int,
                    k,
                ) {
                    BODY
                } else {
                    old(board)@[k]
                },
        decreases i,
    {
        let part = snake.parts[i];
        board.stamp(part.x, part.y, BODY);
        proof {
            assert forall|k: int| 0 <= k < CELLS implies board@[k] == if covers(
                snake.parts(),
                i as int,
                snake.length as int,
                k,
            ) {
                BODY
            } else {
                old(board)@[k]
            } by {
                if covers(snake.parts(), i + 1, snake.length as int, k) {
                    let j = choose|j: int|
                        i + 1 <= j < snake.length && cell_index(
                            #[trigger] snake.parts()[j].x as int,
                            snake.parts()[j].y as int,
                        ) == k;
                    assert(i <= j < snake.length);
                }
            }
        }
        i -= 1;
    }
    let head = snake.parts[0];
    board.stamp(head.x, head.y, HEAD);
}

} // verus!
