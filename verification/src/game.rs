//! A round of the game: the snake, the food, the board and whether the round
//! has ended, moved forward one key at a time.

use crate::board::{
    blank_cells, cell_index, fill_board, in_bounds, is_interior, lemma_blank_cell, on_border,
    Board, CELLS, COLS, HEAD, ROWS, WALL,
};
use crate::food::{
    after_visit, draw_food, first_food_at, food_inside, has_food_at, lemma_all_remain,
    lemma_first_food_at, lemma_remaining_after_eating, lemma_remaining_bound, remaining,
    setup_food, with_food, Food, Foods, FOODS,
};
use crate::input::{command_of, read_keyboard, Command, Key};
use crate::rules::{collides, fed_len, game_rules};
use crate::snake::{
    advanced, draw_snake, setup_snake, with_snake, Snake, SnakePart, SNAKE_MAX_LEN,
};
use vstd::prelude::*;

verus! {

/// Points scored per segment of the snake.
pub const POINTS_PER_SEGMENT: usize = 100;

/// The state of a round as plain values.
pub struct Round {
    /// All stored segments of the snake, head first.
    pub parts: Seq<SnakePart>,
    /// How many of them form the body.
    pub len: nat,
    /// The food items in storage order.
    pub food: Seq<Food>,
    /// The board as it was last painted, row by row.
    pub cells: Seq<char>,
    /// Whether the round has ended.
    pub over: bool,
}

/// What the board shows for given food and a given snake: walls and empty
/// cells, the uneaten food over them, the snake over both.
pub open spec fn frame(food: Seq<Food>, parts: Seq<SnakePart>, len: nat) -> Seq<char> {
    with_snake(with_food(blank_cells(), food), parts, len)
}

/// One tick: the board is painted with the snake and the food as they stand,
/// then the rules are applied. The painted board is the one from before the
/// meal; the length, the food and the verdict are those after it.
pub open spec fn ticked(parts: Seq<SnakePart>, len: nat, food: Seq<Food>) -> Round {
    Round {
        parts,
        len: fed_len(parts, len, food),
        food: after_visit(food, parts[0].x as int, parts[0].y as int),
        cells: frame(food, parts, len),
        over: collides(parts, fed_len(parts, len, food)),
    }
}

/// The segments of a snake that has just been put on `(x, y)`.
pub open spec fn spawned(x: int, y: int) -> Seq<SnakePart> {
    Seq::new(
        SNAKE_MAX_LEN as nat,
        |i: int|
            if i == 0 {
                SnakePart { x: x as i32, y: y as i32 }
            } else {
                SnakePart { x: 0, y: 0 }
            },
    )
}

/// The state in which a round starts, with the snake put on `(x, y)` and the
/// given food laid out: the first tick has already run.
pub open spec fn started(x: int, y: int, food: Seq<Food>) -> Round {
    ticked(spawned(x, y), 1, food)
}

/// The state after a key. Once the round is over nothing changes any more.
/// A key that is ignored changes nothing, and quitting only ends the round.
/// A steering key moves the snake one step, and one tick runs on the result.
pub open spec fn pressed(s: Round, key: Key) -> Round {
    if s.over {
        s
    } else {
        match command_of(key).step() {
            Some((dx, dy)) => ticked(advanced(s.parts, s.len, dx, dy), s.len, s.food),
            None => Round { over: s.over || command_of(key) == Command::Quit, ..s },
        }
    }
}

/// Every cell of the border shows the wall, but for the one cell on which the
/// head ran into it.
pub open spec fn walled(cells: Seq<char>, parts: Seq<SnakePart>) -> bool {
    forall|x: int, y: int|
        in_bounds(x, y) && on_border(x, y) ==> #[trigger] cells[cell_index(x, y)] == if parts[0].x
            == x && parts[0].y == y {
            HEAD
        } else {
            WALL
        }
}

/// What holds of a round between two keys.
pub open spec fn valid(s: Round) -> bool {
    &&& s.parts.len() == SNAKE_MAX_LEN
    &&& s.food.len() == FOODS
    &&& s.cells.len() == CELLS
    &&& 1 <= s.len
    &&& s.len + remaining(s.food) <= FOODS + 1
    &&& food_inside(s.food)
    &&& in_bounds(s.parts[0].x as int, s.parts[0].y as int)
    &&& walled(s.cells, s.parts)
    &&& !s.over ==> is_interior(s.parts[0].x as int, s.parts[0].y as int)
    &&& !s.over ==> forall|i: int|
        0 <= i < s.len - 1 ==> is_interior(#[trigger] s.parts[i].x as int, s.parts[i].y as int)
    &&& forall|i: int|
        s.len <= i < SNAKE_MAX_LEN ==> #[trigger] s.parts[i] == (SnakePart { x: 0, y: 0 })
}

/// A snake that can be painted and put to the rules: the head is on the
/// board, the rest of the body strictly inside the walls, the food too, and
/// there is room left to grow by every item not yet eaten.
pub open spec fn playable(parts: Seq<SnakePart>, len: nat, food: Seq<Food>) -> bool {
    &&& parts.len() == SNAKE_MAX_LEN
    &&& food.len() == FOODS
    &&& 1 <= len
    &&& len + remaining(food) <= FOODS + 1
    &&& food_inside(food)
    &&& in_bounds(parts[0].x as int, parts[0].y as int)
    &&& forall|i: int|
        1 <= i < len ==> is_interior(#[trigger] parts[i].x as int, parts[i].y as int)
    &&& forall|i: int|
        len <= i < SNAKE_MAX_LEN ==> #[trigger] parts[i] == (SnakePart { x: 0, y: 0 })
}

/// The painted board keeps its walls: with the head on the board, and the
/// rest of the body and the uneaten food strictly inside the walls, every
/// border cell shows the wall, unless the head stands on it.
pub proof fn lemma_frame_walled(parts: Seq<SnakePart>, len: nat, food: Seq<Food>)
    requires
        in_bounds(parts[0].x as int, parts[0].y as int),
        forall|i: int|
            1 <= i < len ==> is_interior(#[trigger] parts[i].x as int, parts[i].y as int),
        food_inside(food),
    ensures
        frame(food, parts, len).len() == CELLS,
        walled(frame(food, parts, len), parts),
{
    assert forall|x: int, y: int| in_bounds(x, y) && on_border(x, y) implies #[trigger] frame(
        food,
        parts,
        len,
    )[cell_index(x, y)] == if parts[0].x == x && parts[0].y == y {
        HEAD
    } else {
        WALL
    } by {
        lemma_blank_cell(x, y);
    }
}

/// A tick on a playable snake leaves a valid round.
pub proof fn lemma_ticked_valid(parts: Seq<SnakePart>, len: nat, food: Seq<Food>)
    requires
        playable(parts, len, food),
    ensures
        valid(ticked(parts, len, food)),
{
    let x = parts[0].x as int;
    let y = parts[0].y as int;
    lemma_frame_walled(parts, len, food);
    if has_food_at(food, x, y) {
        let i = first_food_at(food, x, y);
        lemma_first_food_at(food, x, y);
        lemma_remaining_after_eating(food, i);
    }
}

/// A round that starts with the snake and the food strictly inside the walls
/// is valid, and it is not over: the snake survives its first tick.
pub proof fn lemma_started_valid(x: int, y: int, food: Seq<Food>)
    requires
        is_interior(x, y),
        food.len() == FOODS,
        food_inside(food),
    ensures
        valid(started(x, y, food)),
        !started(x, y, food).over,
{
    lemma_remaining_bound(food);
    lemma_ticked_valid(spawned(x, y), 1, food);
}

/// Whatever key is pressed, a valid round stays valid. In particular the
/// walls stand on every board that is ever painted.
pub proof fn lemma_pressed_valid(s: Round, key: Key)
    requires
        valid(s),
    ensures
        valid(pressed(s, key)),
{
    if !s.over {
        match command_of(key).step() {
            Some((dx, dy)) => {
                lemma_ticked_valid(advanced(s.parts, s.len, dx, dy), s.len, s.food);
            },
            None => {},
        }
    }
}

/// Once the round is over, no key changes anything.
pub proof fn lemma_over_is_final(s: Round, key: Key)
    requires
        s.over,
    ensures
        pressed(s, key) == s,
{
}

/// A round in progress. It owns the snake, the food and the board; nothing
/// else holds game state.
#[derive(Debug)]
pub struct Game {
    snake: Snake,
    food: Foods,
    board: Board,
    over: bool,
}

impl View for Game {
    type V = Round;

    /// The round as plain values.
    closed spec fn view(&self) -> Round {
        Round {
            parts: self.snake.parts(),
            len: self.snake.len() as nat,
            food: self.food@,
            cells: self.board@,
            over: self.over,
        }
    }
}

impl Game {
    /// The round is in a state that play can reach.
    pub open spec fn wf(&self) -> bool {
        valid(self@)
    }

    /// Paints the board with the food and the snake as they stand, then
    /// applies the rules and records their verdict.
    fn tick(&mut self)
        requires
            !old(self)@.over,
            playable(old(self)@.parts, old(self)@.len, old(self)@.food),
        ensures
            final(self)@ == ticked(old(self)@.parts, old(self)@.len, old(self)@.food),
    {
        proof {
            let x = self.snake.head().x as int;
            let y = self.snake.head().y as int;
            if has_food_at(self.food@, x, y) {
                lemma_first_food_at(self.food@, x, y);
                lemma_remaining_after_eating(self.food@, first_food_at(self.food@, x, y));
            }
        }
        fill_board(&mut self.board);
        draw_food(&self.food, &mut self.board);
        draw_snake(&self.snake, &mut self.board);
        if game_rules(&mut self.snake, &mut self.food) {
            self.over = true;
        }
    }

    /// Starts a round at random: the snake of one segment and every food
    /// item are put on cells drawn from the interior of the board, and the
    /// first tick runs. The round is then not over.
    pub fn new() -> (game: Game)
        ensures
            game.wf(),
            !game@.over,
            exists|x: int, y: int, food: Seq<Food>|
                is_interior(x, y) && food.len() == FOODS && food_inside(food) && remaining(food)
                    == FOODS && game@ == #[trigger] started(x, y, food),
    {
        let mut snake = Snake::new();
        setup_snake(&mut snake);
        let mut food = Foods::new();
        setup_food(&mut food);
        let mut game = Game { snake, food, board: Board::new(), over: false };
        let ghost x = game.snake.head().x as int;
        let ghost y = game.snake.head().y as int;
        let ghost items = game.food@;
        proof {
            game.food.lemma_len();
            lemma_all_remain(items);
            assert(game.snake.parts() == spawned(x, y));
            lemma_started_valid(x, y, items);
        }
        game.tick();
        assert(game@ == started(x, y, items));
        game
    }

    /// Starts a round with the snake on `(x, y)` and the given food, and runs
    /// the first tick. The layout is turned down unless the snake and every
    /// uneaten item lie strictly inside the walls.
    pub fn with_layout(x: i32, y: i32, food: Foods) -> (game: Option<Game>)
        ensures
            game.is_some() == (is_interior(x as int, y as int) && food_inside(food@)),
            game matches Some(g) ==> g.wf() && g@ == started(x as int, y as int, food@),
    {
        if !(1 <= x && x <= COLS as i32 - 2 && 1 <= y && y <= ROWS as i32 - 2) {
            return None;
        }
        if !food.all_inside() {
            return None;
        }
        let mut snake = Snake::new();
        snake.place(x, y);
        let mut game = Game { snake, food, board: Board::new(), over: false };
        proof {
            game.food.lemma_len();
            lemma_remaining_bound(game.food@);
            assert(game.snake.parts() == spawned(x as int, y as int));
            lemma_started_valid(x as int, y as int, game.food@);
        }
        game.tick();
        Some(game)
    }

    /// Takes one key event. While the round is on, a steering key moves the
    /// snake one step and runs the next tick, `q` ends the round, and any
    /// other key changes nothing. Once the round is over no key does
    /// anything. Returns the command that was carried out, `Ignore` where
    /// nothing was done: the caller goes on handing in keys until another
    /// command comes back.
    pub fn press(&mut self, key: Key) -> (command: Command)
        requires
            old(self).wf(),
        ensures
            final(self).wf(),
            final(self)@ == pressed(old(self)@, key),
            command == if old(self)@.over {
                Command::Ignore
            } else {
                command_of(key)
            },
    {
        if self.over {
            return Command::Ignore;
        }
        proof {
            lemma_pressed_valid(self@, key);
        }
        let command = read_keyboard(key, &mut self.snake);
        match command {
            Command::Quit => {
                self.over = true;
            },
            Command::Ignore => {},
            _ => {
                self.tick();
            },
        }
        command
    }

    /// Whether the round has ended.
    pub fn is_over(&self) -> (over: bool)
        ensures
            over == self@.over,
    {
        self.over
    }

    /// The score: a hundred points for every segment of the snake.
    pub fn score(&self) -> (points: usize)
        requires
            self.wf(),
        ensures
            points == self@.len * POINTS_PER_SEGMENT,
    {
        self.snake.len() * POINTS_PER_SEGMENT
    }

    /// The snake.
    pub fn snake(&self) -> (snake: &Snake)
        ensures
            snake.parts() == self@.parts,
            snake.len() == self@.len,
    {
        &self.snake
    }

    /// The food.
    pub fn food(&self) -> (food: &Foods)
        ensures
            food@ == self@.food,
    {
        &self.food
    }

    /// The board as the last tick painted it.
    pub fn board(&self) -> (board: &Board)
        ensures
            board@ == self@.cells,
    {
        &self.board
    }
}

} // verus!
