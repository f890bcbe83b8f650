//! Headings and the per-player snake record.

use vstd::prelude::*;

verus! {

/// A position on the grid, as mathematical integers.
pub type Pos = (int, int);

/// A heading. `Stop` means the snake stays where it is.
#[derive(Debug, Clone, Copy, PartialEq, Eq, Structural)]
pub enum Direction {
    Up,
    Left,
    Down,
    Right,
    Stop,
}

impl Direction {
    /// The heading that undoes this one; `Stop` undoes itself.
    pub open spec fn opposite(self) -> Direction {
        match self {
            Direction::Up => Direction::Down,
            Direction::Left => Direction::Right,
            Direction::Down => Direction::Up,
            Direction::Right => Direction::Left,
            Direction::Stop => Direction::Stop,
        }
    }

    /// The displacement of one move: `y` grows downwards.
    pub open spec fn offset(self) -> Pos {
        match self {
            Direction::Up => (0, -1),
            Direction::Left => (-1, 0),
            Direction::Down => (0, 1),
            Direction::Right => (1, 0),
            Direction::Stop => (0, 0),
        }
    }

    /// Computes [`Direction::opposite`].
    pub fn reversed(self) -> (r: Direction)
        ensures
            r == self.opposite(),
    {
        match self {
            Direction::Up => Direction::Down,
            Direction::Left => Direction::Right,
            Direction::Down => Direction::Up,
            Direction::Right => Direction::Left,
            Direction::Stop => Direction::Stop,
        }
    }
}

/// The mathematical position that a stored coordinate pair stands for.
pub open spec fn pos_of(p: (isize, isize)) -> Pos {
    (p.0 as int, p.1 as int)
}

/// A stored path as a sequence of mathematical positions.
pub open spec fn path_of(s: Seq<(isize, isize)>) -> Seq<Pos> {
    s.map_values(|p: (isize, isize)| pos_of(p))
}

/// One player's snake.
#[derive(Debug)]
pub struct Snake {
    pub name: String,
    pub id: usize,
    pub body: Vec<(isize, isize)>,
    pub head: (isize, isize),
    pub direction: Direction,
    pub moved_from: Direction,
    pub alive: bool,
}

/// What a [`Snake`] holds, as plain mathematical values.
#[verifier::ext_equal]
pub struct SnakeModel {
    /// The player's name, the key by which events find the snake.
    pub name: Seq<char>,
    pub id: usize,
    /// The occupied positions from head to tail.
    pub body: Seq<Pos>,
    pub head: Pos,
    pub direction: Direction,
    /// The reverse of the last move made; steering into it is refused.
    pub moved_from: Direction,
    pub alive: bool,
}

impl SnakeModel {
    /// A newly connected snake: one segment, standing still.
    pub open spec fn fresh(name: Seq<char>, id: usize, p: Pos) -> SnakeModel {
        SnakeModel {
            name,
            id,
            body: seq![p],
            head: p,
            direction: Direction::Stop,
            moved_from: Direction::Stop,
            alive: true,
        }
    }

    /// The body is not empty and starts at the head.
    pub open spec fn shaped(self) -> bool {
        self.body.len() > 0 && self.head == self.body[0]
    }

    /// The heading after a request to move in direction `d`: the request is
    /// refused when it would turn the snake back onto its own neck.
    pub open spec fn steered(self, d: Direction) -> SnakeModel {
        if d != Direction::Stop && d == self.moved_from {
            self
        } else {
            SnakeModel { direction: d, ..self }
        }
    }

    /// The snake after its head has entered `p`: the body follows, keeping
    /// its tail only when `grows`.
    pub open spec fn moved(self, p: Pos, grows: bool) -> SnakeModel {
        SnakeModel {
            body: if grows {
                seq![p] + self.body
            } else {
                seq![p] + self.body.drop_last()
            },
            head: p,
            moved_from: self.direction.opposite(),
            ..self
        }
    }

    /// The snake marked as dead.
    pub open spec fn dead(self) -> SnakeModel {
        SnakeModel { alive: false, ..self }
    }
}

impl View for Snake {
    type V = SnakeModel;

    open spec fn view(&self) -> SnakeModel {
        SnakeModel {
            name: self.name@,
            id: self.id,
            body: path_of(self.body@),
            head: pos_of(self.head),
            direction: self.direction,
            moved_from: self.moved_from,
            alive: self.alive,
        }
    }
}

impl Snake {
    /// A snake of one segment at `(x, y)` that stands still.
    pub fn new(x: isize, y: isize, name: String, id: usize) -> (s: Self)
        ensures
            s@ == SnakeModel::fresh(name@, id, (x as int, y as int)),
    {
        let mut body: Vec<(isize, isize)> = Vec::new();
        body.push((x, y));
        let s = Self {
            name: name,
            id: id,
            body: body,
            head: (x, y),
            direction: Direction::Stop,
            moved_from: Direction::Stop,
            alive: true,
        };
        assert(s@.body =~= seq![(x as int, y as int)]);
        s
    }

    /// The positions of the body, from head to tail.
    pub fn get_body(&self) -> (r: &Vec<(isize, isize)>)
        ensures
            r == &self.body,
    {
        &self.body
    }
}

impl Clone for Snake {
    fn clone(&self) -> (r: Self)
        ensures
            r@ == self@,
    {
        let mut body: Vec<(isize, isize)> = Vec::new();
        let mut k: usize = 0;
        while k < self.body.len()
            invariant
                k <= self.body.len(),
                body@ == self.body@.take(k as int),
            decreases self.body.len() - k,
        {
            let part = self.body[k];
            body.push((part.0, part.1));
            assert(self.body@.take(k as int + 1) =~= self.body@.take(k as int).push(self.body[k as int]));
            k += 1;
        }
        assert(body@ =~= self.body@);
        Self {
            name: self.name.clone(),
            id: self.id,
            body: body,
            head: (self.head.0, self.head.1),
            direction: self.direction,
            moved_from: self.moved_from,
            alive: self.alive,
        }
    }
}

} // verus!
