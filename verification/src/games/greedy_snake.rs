//! The snake game: a snake of segments on a grid steered by the arrow
//! keys, one step at a time, that grows by one segment for each piece of
//! food its head reaches.
use vstd::prelude::*;

verus! {

/// The arena is ten cells wide.
pub const ARENA_WIDTH: u32 = 10;

/// The arena is ten cells high.
pub const ARENA_HEIGHT: u32 = 10;

/// A cell of the arena.
#[derive(Clone, Copy, PartialEq, Eq, Debug, Structural)]
pub struct Position {
    pub x: i32,
    pub y: i32,
}

/// Where the snake heads.
#[derive(Clone, Copy, PartialEq, Eq, Debug, Structural)]
pub enum Direction {
    Left,
    Up,
    Right,
    Down,
}

/// The direction back.
pub open spec fn reverse(d: Direction) -> Direction {
    match d {
        Direction::Left => Direction::Right,
        Direction::Right => Direction::Left,
        Direction::Up => Direction::Down,
        Direction::Down => Direction::Up,
    }
}

impl Direction {
    /// The direction back.
    pub fn opposite(self) -> (d: Self)
        ensures
            d == reverse(self),
    {
        match self {
            Direction::Left => Direction::Right,
            Direction::Right => Direction::Left,
            Direction::Up => Direction::Down,
            Direction::Down => Direction::Up,
        }
    }
}

/// The cell one step from `p` towards `d`.
pub open spec fn next_cell(p: Position, d: Direction) -> Position {
    match d {
        Direction::Left => Position { x: (p.x - 1) as i32, y: p.y },
        Direction::Right => Position { x: (p.x + 1) as i32, y: p.y },
        Direction::Down => Position { x: p.x, y: (p.y - 1) as i32 },
        Direction::Up => Position { x: p.x, y: (p.y + 1) as i32 },
    }
}

/// A step from `p` towards `d` stays within the integers the cells hold.
pub open spec fn step_fits(p: Position, d: Direction) -> bool {
    match d {
        Direction::Left => p.x > i32::MIN,
        Direction::Right => p.x < i32::MAX,
        Direction::Down => p.y > i32::MIN,
        Direction::Up => p.y < i32::MAX,
    }
}

/// The body after a step: the head moves on, every other segment moves to
/// where the one before it was.
pub open spec fn stepped(body: Seq<Position>, d: Direction) -> Seq<Position> {
    Seq::new(body.len(), |i: int| if i == 0 { next_cell(body[0], d) } else { body[i - 1] })
}

/// The snake: its segments, head first, the direction it heads in (none
/// before the first key), and where its tail was before the last step.
pub struct Snake {
    pub body: Vec<Position>,
    pub direction: Option<Direction>,
    pub last_tail: Option<Position>,
}

impl Snake {
    /// The snake at the start: its head at (3, 3), one segment below it,
    /// standing still.
    pub fn new() -> (s: Self)
        ensures
            s.body@ == seq![Position { x: 3, y: 3 }, Position { x: 3, y: 2 }],
            s.direction is None,
            s.last_tail is None,
    {
        let s = Snake { body: vec![Position { x: 3, y: 3 }, Position { x: 3, y: 2 }], direction: None, last_tail: None };
        assert(s.body@ =~= seq![Position { x: 3, y: 3 }, Position { x: 3, y: 2 }]);
        s
    }

    /// An arrow key towards `d`: the snake turns there, unless that is
    /// straight back.
    pub fn steer(&mut self, d: Direction)
        ensures
            final(self).direction == (if old(self).direction == Some(reverse(d)) {
                old(self).direction
            } else {
                Some(d)
            }),
            final(self).body@ == old(self).body@,
            final(self).last_tail == old(self).last_tail,
    {
        match self.direction {
            Some(cur) => {
                if cur == d.opposite() {
                    return;
                }
                self.direction = Some(d);
            },
            None => {
                self.direction = Some(d);
            },
        }
    }

    /// One step: a snake that heads somewhere moves (see `stepped`) and
    /// remembers where its tail was; a snake standing still stays and
    /// remembers no tail.
    pub fn step(&mut self)
        requires
            old(self).body@.len() >= 1,
            old(self).direction matches Some(d) ==> step_fits(old(self).body@[0], d),
        ensures
            final(self).direction == old(self).direction,
            match old(self).direction {
                Some(d) => {
                    &&& final(self).body@ == stepped(old(self).body@, d)
                    &&& final(self).last_tail == Some(old(self).body@.last())
                },
                None => final(self).body@ == old(self).body@ && final(self).last_tail is None,
            },
    {
        let dir = self.direction;
        match dir {
            None => {
                assert(dir == old(self).direction);
                self.last_tail = None;
            },
            Some(d) => {
                let ghost b0 = self.body@;
                let head = self.body[0];
                let moved = match d {
                    Direction::Left => Position { x: head.x - 1, y: head.y },
                    Direction::Right => Position { x: head.x + 1, y: head.y },
                    Direction::Down => Position { x: head.x, y: head.y - 1 },
                    Direction::Up => Position { x: head.x, y: head.y + 1 },
                };
                self.body.set(0, moved);
                let mut carried = head;
                let mut i: usize = 1;
                while i < self.body.len()
                    invariant
                        self.direction == dir,
                        1 <= i <= self.body@.len(),
                        self.body@.len() == b0.len(),
                        carried == b0[i - 1],
                        forall|k: int| 0 <= k < i ==> #[trigger] self.body@[k] == stepped(b0, d)[k],
                        forall|k: int| i <= k < b0.len() ==> #[trigger] self.body@[k] == b0[k],
                    decreases b0.len() - i,
                {
                    let here = self.body[i];
                    self.body.set(i, carried);
                    carried = here;
                    i += 1;
                }
                self.last_tail = Some(carried);
                assert(self.body@ =~= stepped(b0, d));
            },
        }
    }

    /// Whether the head has reached the food at `food`.
    pub fn eats(&self, food: Position) -> (b: bool)
        requires
            self.body@.len() >= 1,
        ensures
            b == (self.body@[0] == food),
    {
        self.body[0] == food
    }

    /// The snake grows by a segment where its tail was before the last
    /// step.
    pub fn grow(&mut self)
        requires
            old(self).last_tail is Some,
        ensures
            final(self).body@ == old(self).body@.push(old(self).last_tail->0),
            final(self).direction == old(self).direction,
            final(self).last_tail == old(self).last_tail,
    {
        match self.last_tail {
            Some(t) => self.body.push(t),
            None => {},
        }
    }
}

} // verus!
