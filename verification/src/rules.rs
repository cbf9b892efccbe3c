//! The rules applied after every move: eating, then the two ways to die.

use crate::board::{is_interior, on_border, COLS, ROWS};
use crate::food::{after_visit, has_food_at, Food, Foods};
use crate::snake::{Snake, SnakePart, SNAKE_MAX_LEN};
use vstd::prelude::*;

verus! {

/// The head stands on the first or last column, or on the first or last row.
pub open spec fn hits_wall(parts: Seq<SnakePart>) -> bool {
    on_border(parts[0].x as int, parts[0].y as int)
}

/// The head shares its cell with one of the body segments `1..len`.
pub open spec fn hits_self(parts: Seq<SnakePart>, len: nat) -> bool {
    exists|i: int| 1 <= i < len && #[trigger] parts[i] == parts[0]
}

/// A snake of `len` segments has run into the wall or into itself.
pub open spec fn collides(parts: Seq<SnakePart>, len: nat) -> bool {
    hits_wall(parts) || hits_self(parts, len)
}

/// Length of the body once the head has had its meal: one more where an
/// uneaten item lies under the head.
pub open spec fn fed_len(parts: Seq<SnakePart>, len: nat, items: Seq<Food>) -> nat {
    if has_food_at(items, parts[0].x as int, parts[0].y as int) {
        len + 1
    } else {
        len
    }
}

/// Applies the rules to the snake where it stands, in this order. First the
/// head eats: the first uneaten item under it, if any, is eaten and the snake
/// grows by one segment. Then the result tells whether the round is lost:
/// whether the head stands on the wall, or on a segment of the grown body.
pub fn game_rules(snake: &mut Snake, food: &mut Foods) -> (over: bool)
    requires
        old(snake).wf(),
        has_food_at(old(food)@, old(snake).head().x as int, old(snake).head().y as int)
            ==> old(snake).len() < SNAKE_MAX_LEN,
    ensures
        final(snake).wf(),
        final(snake).parts() == old(snake).parts(),
        final(snake).len() == fed_len(old(snake).parts(), old(snake).len() as nat, old(food)@),
        final(food)@ == after_visit(
            old(food)@,
            old(snake).head().x as int,
            old(snake).head().y as int,
        ),
        over == collides(final(snake).parts(), final(snake).len() as nat),
{
    let head = snake.part(0);
    if food.consume_at(head.x, head.y) {
        snake.grow();
    }
    let last_col: i32 = (COLS - 1) as i32;
    let last_row: i32 = (ROWS - 1) as i32;
    let mut over = head.x == 0 || head.x == last_col || head.y == 0 || head.y == last_row;
    let mut i: usize = 1;
    while i < snake.len()
        invariant
            snake.wf(),
            1 <= i <= snake.len(),
            head == snake.parts()[0],
            over == (hits_wall(snake.parts()) || hits_self(snake.parts(), i as nat)),
        decreases snake.len() - i,
    {
        let part = snake.part(i);
        if head.x == part.x && head.y == part.y {
            over = true;
        }
        i += 1;
    }
    over
}

/// A snake of one segment that stands strictly inside the walls survives the
/// rules where it stands. Should it find food there and grow, this holds as
/// long as the stored segment that becomes its tail is not the head's cell.
pub proof fn lemma_spawn_survives(parts: Seq<SnakePart>, items: Seq<Food>)
    requires
        is_interior(parts[0].x as int, parts[0].y as int),
        has_food_at(items, parts[0].x as int, parts[0].y as int) ==> parts[1] != parts[0],
    ensures
        !collides(parts, fed_len(parts, 1, items)),
{
}

} // verus!
