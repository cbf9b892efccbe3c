use snake_game::food::{Food, Foods, FOODS};
use snake_game::rules::game_rules;
use snake_game::snake::{move_snake, setup_snake, Snake, SnakePart};

fn all_on(x: i32, y: i32) -> Foods {
    let mut foods = Foods::new();
    for i in 0..FOODS {
        foods.place(i, x, y);
    }
    foods
}

#[test]
fn head_on_food_eats_it_and_grows() {
    let mut snake = Snake::new();
    snake.place(5, 4);
    let mut foods = all_on(20, 20);
    foods.place(0, 7, 4);
    move_snake(1, 0, &mut snake);
    assert!(!game_rules(&mut snake, &mut foods));
    assert_eq!(snake.len(), 1);
    assert!(!foods.item(0).consumed);
    move_snake(1, 0, &mut snake);
    assert!(!game_rules(&mut snake, &mut foods));
    assert_eq!(foods.item(0), Food { x: 7, y: 4, consumed: true });
    assert_eq!(snake.len(), 2);
    assert_eq!(snake.len() * 100, 200);
}

#[test]
fn rules_do_not_move_the_snake() {
    let mut snake = Snake::new();
    snake.place(7, 4);
    let mut foods = all_on(7, 4);
    assert!(!game_rules(&mut snake, &mut foods));
    assert_eq!(snake.part(0), SnakePart { x: 7, y: 4 });
    assert_eq!(snake.part(1), SnakePart { x: 0, y: 0 });
}

#[test]
fn standing_on_an_eaten_item_does_not_grow_again() {
    let mut snake = Snake::new();
    snake.place(7, 4);
    let mut foods = all_on(20, 20);
    foods.place(0, 7, 4);
    assert!(!game_rules(&mut snake, &mut foods));
    assert_eq!(snake.len(), 2);
    move_snake(0, 0, &mut snake);
    move_snake(1, 0, &mut snake);
    move_snake(-1, 0, &mut snake);
    assert_eq!(snake.part(0), SnakePart { x: 7, y: 4 });
    game_rules(&mut snake, &mut foods);
    assert_eq!(snake.len(), 2);
}

#[test]
fn one_duplicate_is_eaten_per_pass() {
    let mut snake = Snake::new();
    snake.place(7, 4);
    let mut foods = all_on(20, 20);
    foods.place(2, 7, 4);
    foods.place(5, 7, 4);
    assert!(!game_rules(&mut snake, &mut foods));
    assert_eq!(snake.len(), 2);
    assert!(foods.item(2).consumed);
    assert!(!foods.item(5).consumed);
    assert!(!game_rules(&mut snake, &mut foods));
    assert_eq!(snake.len(), 3);
    assert!(foods.item(5).consumed);
    assert!(!game_rules(&mut snake, &mut foods));
    assert_eq!(snake.len(), 3);
}

#[test]
fn head_on_column_zero_ends_the_round() {
    let mut snake = Snake::new();
    snake.place(1, 5);
    let mut foods = all_on(20, 20);
    assert!(!game_rules(&mut snake, &mut foods));
    move_snake(-1, 0, &mut snake);
    assert_eq!(snake.part(0).x, 0);
    assert!(game_rules(&mut snake, &mut foods));
    assert_eq!(snake.len() * 100, 100);
}

#[test]
fn each_wall_ends_the_round() {
    let mut foods = all_on(20, 20);
    for (x, y) in [(0, 12), (24, 12), (12, 0), (12, 24), (0, 0), (24, 24)] {
        let mut snake = Snake::new();
        snake.place(x, y);
        assert!(game_rules(&mut snake, &mut foods), "({}, {})", x, y);
    }
}

#[test]
fn cells_next_to_the_wall_are_safe() {
    let mut foods = all_on(20, 20);
    for (x, y) in [(1, 12), (23, 12), (12, 1), (12, 23), (1, 1), (23, 23)] {
        let mut snake = Snake::new();
        snake.place(x, y);
        assert!(!game_rules(&mut snake, &mut foods), "({}, {})", x, y);
    }
}

#[test]
fn food_on_the_wall_is_eaten_as_the_round_ends() {
    let mut snake = Snake::new();
    snake.place(0, 5);
    let mut foods = all_on(0, 5);
    assert!(game_rules(&mut snake, &mut foods));
    assert_eq!(snake.len(), 2);
    assert!(foods.item(0).consumed);
}

#[test]
fn moving_into_segment_two_ends_the_round() {
    let mut snake = Snake::new();
    snake.place(5, 5);
    snake.grow();
    snake.grow();
    let mut foods = all_on(20, 20);
    move_snake(1, 0, &mut snake);
    move_snake(1, 0, &mut snake);
    assert_eq!(snake.len(), 3);
    assert!(!game_rules(&mut snake, &mut foods));
    let old_tail = snake.part(2);
    move_snake(-1, 0, &mut snake);
    assert_eq!(snake.part(0), SnakePart { x: 6, y: 5 });
    assert_eq!(snake.part(2), SnakePart { x: 6, y: 5 });
    assert_ne!(old_tail, snake.part(0));
    assert!(game_rules(&mut snake, &mut foods));
}

#[test]
fn the_cell_the_tail_just_left_is_free() {
    let mut snake = Snake::new();
    snake.place(5, 5);
    for _ in 0..3 {
        snake.grow();
    }
    let mut foods = all_on(20, 20);
    move_snake(1, 0, &mut snake);
    move_snake(0, 1, &mut snake);
    move_snake(-1, 0, &mut snake);
    assert_eq!(snake.part(3), SnakePart { x: 5, y: 5 });
    move_snake(0, -1, &mut snake);
    assert_eq!(snake.part(0), SnakePart { x: 5, y: 5 });
    assert!(!game_rules(&mut snake, &mut foods));
}

#[test]
fn slack_behind_the_body_does_not_collide() {
    let mut snake = Snake::new();
    snake.place(5, 5);
    snake.grow();
    move_snake(1, 0, &mut snake);
    snake.place(5, 5);
    assert_eq!(snake.part(1), SnakePart { x: 5, y: 5 });
    let mut foods = all_on(20, 20);
    assert!(!game_rules(&mut snake, &mut foods));
}

#[test]
fn the_segment_grown_this_pass_counts_for_the_collision() {
    let mut snake = Snake::new();
    snake.place(5, 5);
    snake.grow();
    move_snake(1, 0, &mut snake);
    snake.place(5, 5);
    let mut foods = all_on(5, 5);
    assert!(game_rules(&mut snake, &mut foods));
    assert_eq!(snake.len(), 2);
}

#[test]
fn a_fresh_spawn_survives_the_rules() {
    for _ in 0..200 {
        let mut snake = Snake::new();
        setup_snake(&mut snake);
        let head = snake.part(0);
        let mut foods = all_on(head.x, head.y);
        assert!(!game_rules(&mut snake, &mut foods));
        assert_eq!(snake.len(), 2);
        let mut elsewhere = all_on(20, 20);
        let mut other = Snake::new();
        setup_snake(&mut other);
        assert!(!game_rules(&mut other, &mut elsewhere));
    }
}
