use boardgame::games::greedy_snake::{Direction, Position, Snake};

fn p(x: i32, y: i32) -> Position {
    Position { x, y }
}

#[test]
fn the_snake_waits_for_the_first_key() {
    let mut s = Snake::new();
    assert_eq!(s.body, vec![p(3, 3), p(3, 2)]);
    s.step();
    assert_eq!(s.body, vec![p(3, 3), p(3, 2)]);
    assert_eq!(s.last_tail, None);
}

#[test]
fn the_body_follows_the_head() {
    let mut s = Snake::new();
    s.steer(Direction::Up);
    s.step();
    assert_eq!(s.body, vec![p(3, 4), p(3, 3)]);
    assert_eq!(s.last_tail, Some(p(3, 2)));
    s.steer(Direction::Down);
    assert_eq!(s.direction, Some(Direction::Up));
    s.steer(Direction::Left);
    s.step();
    assert_eq!(s.body, vec![p(2, 4), p(3, 4)]);
    assert_eq!(Direction::Left.opposite(), Direction::Right);
    assert_eq!(Direction::Up.opposite(), Direction::Down);
}

#[test]
fn food_makes_the_snake_grow() {
    let mut s = Snake::new();
    s.steer(Direction::Right);
    s.step();
    assert!(s.eats(p(4, 3)));
    assert!(!s.eats(p(3, 3)));
    s.grow();
    assert_eq!(s.body, vec![p(4, 3), p(3, 3), p(3, 2)]);
    s.step();
    assert_eq!(s.body, vec![p(5, 3), p(4, 3), p(3, 3)]);
}
