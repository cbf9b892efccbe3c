//! The food: a fixed set of items laid out once per round and eaten one by one.

use crate::board::{cell_index, in_bounds, is_interior, Board, CELLS, COLS, FOOD, ROWS};
use crate::random::gen_range;
use vstd::prelude::*;

verus! {

/// Number of food items of a round.
pub const FOODS: usize = 50;

/// One food item: the cell it lies on, and whether it has been eaten.
#[derive(Debug, Clone, Copy, PartialEq, Eq, Structural)]
pub struct Food {
    pub x: i32,
    pub y: i32,
    pub consumed: bool,
}

/// The food items of a round, in storage order. Two items may share a cell.
#[derive(Debug)]
pub struct Foods {
    items: [Food; FOODS],
}

/// `item` lies on `(x, y)` and has not been eaten.
pub open spec fn is_available(item: Food, x: int, y: int) -> bool {
    !item.consumed && item.x == x && item.y == y
}

/// Some item that has not been eaten lies on `(x, y)`.
pub open spec fn has_food_at(items: Seq<Food>, x: int, y: int) -> bool {
    exists|i: int| 0 <= i < items.len() && is_available(#[trigger] items[i], x, y)
}

/// Item `i` is the first in storage order that lies uneaten on `(x, y)`.
pub open spec fn is_first_at(items: Seq<Food>, x: int, y: int, i: int) -> bool {
    &&& 0 <= i < items.len()
    &&& is_available(items[i], x, y)
    &&& forall|j: int| 0 <= j < i ==> !is_available(#[trigger] items[j], x, y)
}

/// Index of the first item in storage order that lies uneaten on `(x, y)`.
/// Meaningful where `has_food_at` holds.
pub open spec fn first_food_at(items: Seq<Food>, x: int, y: int) -> int {
    choose|i: int| is_first_at(items, x, y, i)
}

/// `item` once it has been eaten.
pub open spec fn eaten(item: Food) -> Food {
    Food { x: item.x, y: item.y, consumed: true }
}

/// The items after one visit to `(x, y)`: the first uneaten item there is
/// eaten, and only that one. Without such an item nothing changes.
pub open spec fn after_visit(items: Seq<Food>, x: int, y: int) -> Seq<Food> {
    if has_food_at(items, x, y) {
        let i = first_food_at(items, x, y);
        items.update(i, eaten(items[i]))
    } else {
        items
    }
}

/// Number of items that have not been eaten.
pub open spec fn remaining(items: Seq<Food>) -> nat
    decreases items.len(),
{
    if items.len() == 0 {
        0
    } else {
        remaining(items.drop_last()) + if items.last().consumed {
            0nat
        } else {
            1nat
        }
    }
}

/// One of the first `n` items lies uneaten on the cell with index `k`.
pub open spec fn shows_food_among(items: Seq<Food>, n: int, k: int) -> bool {
    exists|i: int|
        0 <= i < n && !(#[trigger] items[i]).consumed && cell_index(
            items[i].x as int,
            items[i].y as int,
        ) == k
}

/// Some uneaten item lies on the cell with index `k`.
pub open spec fn shows_food(items: Seq<Food>, k: int) -> bool {
    shows_food_among(items, items.len() as int, k)
}

/// The cells after the uneaten items have been stamped over `cells`.
pub open spec fn with_food(cells: Seq<char>, items: Seq<Food>) -> Seq<char> {
    Seq::new(
        cells.len(),
        |k: int|
            if shows_food(items, k) {
                FOOD
            } else {
                cells[k]
            },
    )
}

/// Every uneaten item lies on a cell of the board.
pub open spec fn food_on_board(items: Seq<Food>) -> bool {
    forall|i: int|
        0 <= i < items.len() && !(#[trigger] items[i]).consumed ==> in_bounds(
            items[i].x as int,
            items[i].y as int,
        )
}

/// Every uneaten item lies strictly inside the walls.
pub open spec fn food_inside(items: Seq<Food>) -> bool {
    forall|i: int|
        0 <= i < items.len() && !(#[trigger] items[i]).consumed ==> is_interior(
            items[i].x as int,
            items[i].y as int,
        )
}

/// No more items are left than there are items.
pub proof fn lemma_remaining_bound(items: Seq<Food>)
    ensures
        remaining(items) <= items.len(),
    decreases items.len(),
{
    if items.len() > 0 {
        lemma_remaining_bound(items.drop_last());
    }
}

/// Where no item has been eaten, all of them remain.
pub proof fn lemma_all_remain(items: Seq<Food>)
    requires
        forall|i: int| 0 <= i < items.len() ==> !(#[trigger] items[i]).consumed,
    ensures
        remaining(items) == items.len(),
    decreases items.len(),
{
    if items.len() > 0 {
        lemma_all_remain(items.drop_last());
    }
}

/// Eating an uneaten item leaves exactly one item less.
pub proof fn lemma_remaining_after_eating(items: Seq<Food>, i: int)
    requires
        0 <= i < items.len(),
        !items[i].consumed,
    ensures
        remaining(items.update(i, eaten(items[i]))) + 1 == remaining(items),
    decreases items.len(),
{
    let after = items.update(i, eaten(items[i]));
    if i == items.len() - 1 {
        assert(after.drop_last() == items.drop_last());
    } else {
        lemma_remaining_after_eating(items.drop_last(), i);
        assert(after.drop_last() == items.drop_last().update(i, eaten(items[i])));
    }
}

/// Behind an uneaten item on `(x, y)` stands a first one.
proof fn lemma_first_exists(items: Seq<Food>, x: int, y: int, i: int)
    requires
        0 <= i < items.len(),
        is_available(items[i], x, y),
    ensures
        exists|j: int| is_first_at(items, x, y, j),
    decreases i,
{
    if exists|j: int| 0 <= j < i && is_available(#[trigger] items[j], x, y) {
        let j = choose|j: int| 0 <= j < i && is_available(#[trigger] items[j], x, y);
        lemma_first_exists(items, x, y, j);
    } else {
        assert(is_first_at(items, x, y, i));
    }
}

/// Where food lies on `(x, y)`, `first_food_at` names the first such item.
pub proof fn lemma_first_food_at(items: Seq<Food>, x: int, y: int)
    requires
        has_food_at(items, x, y),
    ensures
        is_first_at(items, x, y, first_food_at(items, x, y)),
{
    let i = choose|i: int| 0 <= i < items.len() && is_available(#[trigger] items[i], x, y);
    lemma_first_exists(items, x, y, i);
}

/// An item is eaten once. The item that a visit to `(x, y)` eats is no
/// longer there for any later visit, whatever cell that visit goes to; one
/// item less is left; and a second visit to `(x, y)` finds food only if
/// another uneaten item lay on the same cell, further back in storage order.
pub proof fn lemma_eaten_once(items: Seq<Food>, x: int, y: int)
    requires
        has_food_at(items, x, y),
    ensures
        ({
            let i = first_food_at(items, x, y);
            let after = after_visit(items, x, y);
            &&& after[i].consumed
            &&& forall|x2: int, y2: int| !is_available(after[i], x2, y2)
            &&& remaining(after) + 1 == remaining(items)
            &&& has_food_at(after, x, y) <==> exists|j: int|
                i < j < items.len() && is_available(#[trigger] items[j], x, y)
            &&& has_food_at(after, x, y) ==> first_food_at(after, x, y) > i
        }),
{
    let i = first_food_at(items, x, y);
    let after = after_visit(items, x, y);
    lemma_first_food_at(items, x, y);
    lemma_remaining_after_eating(items, i);
    if has_food_at(after, x, y) {
        lemma_first_food_at(after, x, y);
        let j = choose|j: int| 0 <= j < after.len() && is_available(#[trigger] after[j], x, y);
        assert(is_available(items[j], x, y));
    }
    if exists|j: int| i < j < items.len() && is_available(#[trigger] items[j], x, y) {
        let j = choose|j: int| i < j < items.len() && is_available(#[trigger] items[j], x, y);
        assert(is_available(after[j], x, y));
    }
}

impl View for Foods {
    type V = Seq<Food>;

    /// The items in storage order, always `FOODS` of them.
    closed spec fn view(&self) -> Seq<Food> {
        self.items@
    }
}

impl Foods {
    /// There are always exactly `FOODS` items.
    pub proof fn lemma_len(&self)
        ensures
            self@.len() == FOODS,
    {
    }

    /// `FOODS` uneaten items, all of them on `(0, 0)`.
    pub fn new() -> (foods: Foods)
        ensures
            foods@ == Seq::new(FOODS as nat, |i: int| Food { x: 0, y: 0, consumed: false }),
    {
        Self { items: [Food { x: 0, y: 0, consumed: false }; FOODS] }
    }

    /// The item in slot `i`.
    pub fn item(&self, i: usize) -> (item: Food)
        requires
            i < FOODS,
        ensures
            item == self@[i as int],
    {
        self.items[i]
    }

    /// Tells whether every uneaten item lies strictly inside the walls.
    pub fn all_inside(&self) -> (inside: bool)
        ensures
            inside == food_inside(self@),
    {
        let mut i: usize = 0;
        while i < FOODS
            invariant
                i <= FOODS,
                forall|j: int|
                    0 <= j < i && !(#[trigger] self@[j]).consumed ==> is_interior(
                        self@[j].x as int,
                        self@[j].y as int,
                    ),
            decreases FOODS - i,
        {
            let item = self.items[i];
            if !item.consumed && !(1 <= item.x && item.x <= COLS as i32 - 2 && 1 <= item.y && item.y
                <= ROWS as i32 - 2) {
                return false;
            }
            i += 1;
        }
        true
    }

    /// Lays a fresh, uneaten item on `(x, y)` in slot `i`.
    pub fn place(&mut self, i: usize, x: i32, y: i32)
        requires
            i < FOODS,
        ensures
            final(self)@ == old(self)@.update(i as int, Food { x, y, consumed: false }),
    {
        self.items[i] = Food { x, y, consumed: false };
    }

    /// Visits `(x, y)`: the first uneaten item lying there, in storage order,
    /// is marked as eaten. Returns whether there was one.
    pub fn consume_at(&mut self, x: i32, y: i32) -> (found: bool)
        ensures
            found == has_food_at(old(self)@, x as int, y as int),
            final(self)@ == after_visit(old(self)@, x as int, y as int),
    {
        let mut i: usize = 0;
        while i < FOODS
            invariant
                i <= FOODS,
                self.items@ == old(self).items@,
                forall|j: int|
                    0 <= j < i ==> !is_available(#[trigger] self.items@[j], x as int, y as int),
            decreases FOODS - i,
        {
            if !self.items[i].consumed && self.items[i].x == x && self.items[i].y == y {
                assert(is_first_at(old(self)@, x as int, y as int, i as int));
                self.items[i].consumed = true;
                return true;
            }
            i += 1;
        }
        false
    }
}

/// Lays out a round: every slot gets an uneaten item on a cell drawn at
/// random from the interior of the board. Cells may repeat.
pub fn setup_food(foods: &mut Foods)
    ensures
        final(foods)@.len() == FOODS,
        forall|i: int| 0 <= i < FOODS ==> !(#[trigger] final(foods)@[i]).consumed,
        food_inside(final(foods)@),
{
    let mut rng = rand::thread_rng();
    let mut i: usize = 0;
    while i < FOODS
        invariant
            i <= FOODS,
            forall|j: int|
                0 <= j < i ==> !(#[trigger] foods@[j]).consumed && is_interior(
                    foods@[j].x as int,
                    foods@[j].y as int,
                ),
        decreases FOODS - i,
    {
        let x: i32 = gen_range(&mut rng, 1, COLS as i32 - 1);
        let y: i32 = gen_range(&mut rng, 1, ROWS as i32 - 1);
        foods.place(i, x, y);
        i += 1;
    }
}

/// Stamps the food symbol onto the cell of every item that has not been eaten.
pub fn draw_food(food: &Foods, board: &mut Board)
    requires
        food_on_board(food@),
    ensures
        final(board)@ == with_food(old(board)@, food@),
{
    proof {
        board.lemma_len();
    }
    let mut i: usize = 0;
    while i < FOODS
        invariant
            i <= FOODS,
            food@.len() == FOODS,
            food_on_board(food@),
            board@.len() == CELLS,
            old(board)@.len() == CELLS,
            forall|k: int|
                0 <= k < CELLS ==> board@[k] == if shows_food_among(food@, i as int, k) {
                    FOOD
                } else {
                    old(board)@[k]
                },
        decreases FOODS - i,
    {
        let item = food.items[i];
        if !item.consumed {
            board.stamp(item.x, item.y, FOOD);
        }
        proof {
            assert forall|k: int| 0 <= k < CELLS implies board@[k] == if shows_food_among(
                food@,
                i + 1,
                k,
            ) {
                FOOD
            } else {
                old(board)@[k]
            } by {
                if shows_food_among(food@, i as int, k) {
                    let j = choose|j: int|
                        0 <= j < i && !(#[trigger] food@[j]).consumed && cell_index(
                            food@[j].x as int,
                            food@[j].y as int,
                        ) == k;
                    assert(0 <= j < i + 1);
                }
            }
        }
        i += 1;
    }
}

} // verus!
