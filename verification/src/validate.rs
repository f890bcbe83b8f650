//! A run-time test of well-formedness, for a game that comes from
//! elsewhere, such as a snapshot received from a server.

use vstd::prelude::*;
use crate::game::Game;
use crate::grid::{in_grid, Cell};
use crate::snake::{pos_of, Direction, Pos};

verus! {

impl Game {
    /// Tests whether the game is well-formed.
    pub fn is_wf(&self) -> (r: bool)
        ensures
            r == self.wf(),
    {
        let count = self.snakes.len();
        proof {
            self.cells.lemma_domain();
            assert(self@.snakes.len() == count);
            assert(self@.countable());
        }
        self.is_sized() && self.snakes_sound() && self.names_differ() && self.ids_differ()
            && self.segments_kept()
            && self.segments_differ() && self.food_kept() && self.food_differs()
            && self.table_backed() && self.bodies_linked()
    }

    /// Tests [`Game::sized`].
    fn is_sized(&self) -> (r: bool)
        ensures
            r == self.sized(),
    {
        let (width, height) = self.cells.size();
        width == self.size.0 && height == self.size.1 && self.size.0 <= isize::MAX as usize
            && self.size.1 <= isize::MAX as usize
    }

    /// Tests that every snake is alive and has a body that starts at its
    /// head.
    fn snakes_sound(&self) -> (r: bool)
        ensures
            r == (self@.snakes_shaped() && self@.all_alive()),
    {
        let mut i: usize = 0;
        while i < self.snakes.len()
            invariant
                i <= self.snakes.len(),
                forall|j: int|
                    0 <= j < i ==> (#[trigger] self@.snakes[j]).shaped() && self@.snakes[j].alive,
            decreases self.snakes.len() - i,
        {
            let snake = &self.snakes[i];
            if !snake.alive || snake.body.len() == 0 || snake.head.0 != snake.body[0].0
                || snake.head.1 != snake.body[0].1 {
                assert(!(self@.snakes[i as int].shaped() && self@.snakes[i as int].alive));
                return false;
            }
            i += 1;
        }
        true
    }

    /// Tests that no two snakes bear the same name.
    fn names_differ(&self) -> (r: bool)
        ensures
            r == self@.names_unique(),
    {
        let mut i: usize = 0;
        while i < self.snakes.len()
            invariant
                i <= self.snakes.len(),
                forall|a: int, b: int|
                    0 <= a < i && 0 <= b < self.snakes.len() && (#[trigger] self@.snakes[a]).name
                        == (#[trigger] self@.snakes[b]).name ==> a == b,
            decreases self.snakes.len() - i,
        {
            let mut j: usize = 0;
            while j < self.snakes.len()
                invariant
                    i < self.snakes.len(),
                    j <= self.snakes.len(),
                    forall|b: int|
                        0 <= b < j && self@.snakes[i as int].name == (#[trigger] self@.snakes[b]).name
                            ==> i == b,
                decreases self.snakes.len() - j,
            {
                if i != j && self.snakes[i].name == self.snakes[j].name {
                    assert(self@.snakes[i as int].name == self@.snakes[j as int].name);
                    return false;
                }
                j += 1;
            }
            i += 1;
        }
        assert forall|a: int, b: int|
            0 <= a < self@.snakes.len() && 0 <= b < self@.snakes.len() && (
            #[trigger] self@.snakes[a]).name == (#[trigger] self@.snakes[b]).name implies a
            == b by {}
        true
    }

    /// Tests that no two snakes bear the same id.
    fn ids_differ(&self) -> (r: bool)
        ensures
            r == self@.ids_unique(),
    {
        let mut i: usize = 0;
        while i < self.snakes.len()
            invariant
                i <= self.snakes.len(),
                forall|a: int, b: int|
                    0 <= a < i && 0 <= b < self.snakes.len() && (#[trigger] self@.snakes[a]).id
                        == (#[trigger] self@.snakes[b]).id ==> a == b,
            decreases self.snakes.len() - i,
        {
            let mut j: usize = 0;
            while j < self.snakes.len()
                invariant
                    i < self.snakes.len(),
                    j <= self.snakes.len(),
                    forall|b: int|
                        0 <= b < j && self@.snakes[i as int].id == (#[trigger] self@.snakes[b]).id
                            ==> i == b,
                decreases self.snakes.len() - j,
            {
                if i != j && self.snakes[i].id == self.snakes[j].id {
                    assert(self@.snakes[i as int].id == self@.snakes[j as int].id);
                    return false;
                }
                j += 1;
            }
            i += 1;
        }
        assert forall|a: int, b: int|
            0 <= a < self@.snakes.len() && 0 <= b < self@.snakes.len() && (
            #[trigger] self@.snakes[a]).id == (#[trigger] self@.snakes[b]).id implies a == b by {}
        true
    }

    /// Tests that every segment has its cell in the table.
    fn segments_kept(&self) -> (r: bool)
        requires
            self@.all_alive(),
        ensures
            r == self@.segments_recorded(),
    {
        let mut i: usize = 0;
        while i < self.snakes.len()
            invariant
                self@.all_alive(),
                i <= self.snakes.len(),
                forall|j: int, k: int|
                    #[trigger] self@.is_segment(j, k) && j < i ==> self@.cells.dom().contains(
                        self@.snakes[j].body[k],
                    ) && self@.cells[self@.snakes[j].body[k]] == Cell::Player(self@.snakes[j].id),
            decreases self.snakes.len() - i,
        {
            let snake = &self.snakes[i];
            let mut k: usize = 0;
            while k < snake.body.len()
                invariant
                    self@.all_alive(),
                    i < self.snakes.len(),
                    snake == &self.snakes[i as int],
                    k <= snake.body.len(),
                    forall|l: int|
                        0 <= l < k ==> self@.cells.dom().contains(
                            #[trigger] self@.snakes[i as int].body[l],
                        ) && self@.cells[self@.snakes[i as int].body[l]] == Cell::Player(
                            self@.snakes[i as int].id,
                        ),
                decreases snake.body.len() - k,
            {
                let part = snake.body[k];
                assert(self@.snakes[i as int].body[k as int] == pos_of(part));
                assert(self@.snakes[i as int].alive);
                match self.cells.get_cell(part.0, part.1) {
                    Cell::Player(id) => {
                        if id != snake.id {
                            assert(self@.is_segment(i as int, k as int));
                            return false;
                        }
                    },
                    _ => {
                        assert(self@.is_segment(i as int, k as int));
                        return false;
                    },
                }
                k += 1;
            }
            i += 1;
        }
        true
    }

    /// Tests whether a segment other than segment `k` of snake `i` lies on
    /// the same position.
    fn meets_another(&self, i: usize, k: usize) -> (r: bool)
        requires
            self@.all_alive(),
            i < self.snakes.len(),
            k < self.snakes[i as int].body.len(),
        ensures
            r == exists|j: int, l: int|
                #[trigger] self@.is_segment(j, l) && !(j == i && l == k)
                    && self@.snakes[j].body[l] == self@.snakes[i as int].body[k as int],
    {
        let target = self.snakes[i].body[k];
        let mut j: usize = 0;
        while j < self.snakes.len()
            invariant
                self@.all_alive(),
                i < self.snakes.len(),
                k < self.snakes[i as int].body.len(),
                target == self.snakes[i as int].body[k as int],
                j <= self.snakes.len(),
                forall|a: int, b: int|
                    #[trigger] self@.is_segment(a, b) && a < j && !(a == i && b == k)
                        ==> self@.snakes[a].body[b] != pos_of(target),
            decreases self.snakes.len() - j,
        {
            let other = &self.snakes[j];
            let mut l: usize = 0;
            while l < other.body.len()
                invariant
                    self@.all_alive(),
                    i < self.snakes.len(),
                    k < self.snakes[i as int].body.len(),
                    target == self.snakes[i as int].body[k as int],
                    j < self.snakes.len(),
                    other == &self.snakes[j as int],
                    l <= other.body.len(),
                    forall|b: int|
                        0 <= b < l && !(j == i && b == k) ==> #[trigger] self@.snakes[j as int].body[b]
                            != pos_of(target),
                decreases other.body.len() - l,
            {
                let part = other.body[l];
                assert(self@.snakes[j as int].body[l as int] == pos_of(part));
                if !(j == i && l == k) && part.0 == target.0 && part.1 == target.1 {
                    assert(self@.snakes[j as int].alive);
                    assert(self@.snakes[i as int].body[k as int] == pos_of(target));
                    assert(self@.is_segment(j as int, l as int));
                    return true;
                }
                l += 1;
            }
            j += 1;
        }
        assert(self@.snakes[i as int].body[k as int] == pos_of(target));
        false
    }

    /// Tests that no two segments share a position.
    fn segments_differ(&self) -> (r: bool)
        requires
            self@.all_alive(),
        ensures
            r == self@.segments_apart(),
    {
        let mut i: usize = 0;
        while i < self.snakes.len()
            invariant
                self@.all_alive(),
                i <= self.snakes.len(),
                forall|a: int, b: int, j: int, l: int|
                    #[trigger] self@.is_segment(a, b) && #[trigger] self@.is_segment(j, l) && a < i
                        && self@.snakes[a].body[b] == self@.snakes[j].body[l] ==> a == j && b == l,
            decreases self.snakes.len() - i,
        {
            let mut k: usize = 0;
            while k < self.snakes[i as usize].body.len()
                invariant
                    self@.all_alive(),
                    i < self.snakes.len(),
                    k <= self.snakes[i as int].body.len(),
                    forall|a: int, b: int, j: int, l: int|
                        #[trigger] self@.is_segment(a, b) && #[trigger] self@.is_segment(j, l) && (a
                            < i || (a == i && b < k)) && self@.snakes[a].body[b]
                            == self@.snakes[j].body[l] ==> a == j && b == l,
                decreases self.snakes[i as int].body.len() - k,
            {
                if self.meets_another(i, k) {
                    proof {
                        let (j, l) = choose|j: int, l: int|
                            #[trigger] self@.is_segment(j, l) && !(j == i && l == k)
                                && self@.snakes[j].body[l] == self@.snakes[i as int].body[k as int];
                        assert(self@.is_segment(i as int, k as int));
                        assert(self@.is_segment(j, l));
                    }
                    return false;
                }
                proof {
                    assert forall|a: int, b: int, j: int, l: int|
                        #[trigger] self@.is_segment(a, b) && #[trigger] self@.is_segment(j, l) && (a
                            < i || (a == i && b < k + 1)) && self@.snakes[a].body[b]
                            == self@.snakes[j].body[l] implies a == j && b == l by {
                        if a == i && b == k {
                            assert(self@.is_segment(j, l));
                        }
                    }
                }
                k += 1;
            }
            i += 1;
        }
        true
    }

    /// Tests that every piece of food has its cell in the table.
    fn food_kept(&self) -> (r: bool)
        ensures
            r == self@.food_recorded(),
    {
        let mut f: usize = 0;
        while f < self.food.len()
            invariant
                f <= self.food.len(),
                forall|g: int|
                    0 <= g < f ==> self@.cells.dom().contains(#[trigger] self@.food[g])
                        && self@.cells[self@.food[g]] == Cell::Food,
            decreases self.food.len() - f,
        {
            let piece = self.food[f];
            assert(self@.food[f as int] == pos_of(piece));
            match self.cells.get_cell(piece.0, piece.1) {
                Cell::Food => {},
                _ => {
                    return false;
                },
            }
            f += 1;
        }
        true
    }

    /// Tests that no position is twice in the food list.
    fn food_differs(&self) -> (r: bool)
        ensures
            r == self@.food.no_duplicates(),
    {
        let mut f: usize = 0;
        while f < self.food.len()
            invariant
                f <= self.food.len(),
                forall|a: int, b: int|
                    0 <= a < f && a < b < self.food.len() ==> self@.food[a] != self@.food[b],
            decreases self.food.len() - f,
        {
            let piece = self.food[f];
            let mut g: usize = f + 1;
            while g < self.food.len()
                invariant
                    f < self.food.len(),
                    f < g <= self.food.len(),
                    piece == self.food[f as int],
                    forall|b: int| f < b < g ==> self@.food[f as int] != self@.food[b],
                decreases self.food.len() - g,
            {
                let other = self.food[g];
                assert(self@.food[g as int] == pos_of(other));
                assert(self@.food[f as int] == pos_of(piece));
                if piece.0 == other.0 && piece.1 == other.1 {
                    return false;
                }
                g += 1;
            }
            f += 1;
        }
        assert forall|a: int, b: int|
            0 <= a < self@.food.len() && 0 <= b < self@.food.len() && a != b implies self@.food[a]
            != self@.food[b] by {
            if a < b {
                assert(self@.food[a] != self@.food[b]);
            } else {
                assert(self@.food[b] != self@.food[a]);
            }
        }
        true
    }

    /// Tests whether a segment of a snake with the id that the table gives
    /// for `(x, y)` lies there.
    fn has_owner(&self, x: isize, y: isize) -> (r: bool)
        requires
            self@.all_alive(),
            self@.cells.dom().contains((x as int, y as int)),
        ensures
            r == exists|i: int, k: int| #[trigger] self@.occupies(i, k, (x as int, y as int)),
    {
        let ghost p = (x as int, y as int);
        let id = match self.cells.get_cell(x, y) {
            Cell::Player(id) => id,
            _ => {
                return false;
            },
        };
        let mut i: usize = 0;
        while i < self.snakes.len()
            invariant
                self@.all_alive(),
                p == (x as int, y as int),
                self@.cells[p] == Cell::Player(id),
                i <= self.snakes.len(),
                forall|a: int, b: int| a < i ==> !#[trigger] self@.occupies(a, b, p),
            decreases self.snakes.len() - i,
        {
            let snake = &self.snakes[i];
            if snake.id == id {
                let mut k: usize = 0;
                while k < snake.body.len()
                    invariant
                        self@.all_alive(),
                        i < self.snakes.len(),
                        snake == &self.snakes[i as int],
                        p == (x as int, y as int),
                        self@.cells[p] == Cell::Player(id),
                        snake.id == id,
                        k <= snake.body.len(),
                        forall|b: int| b < k ==> !#[trigger] self@.occupies(i as int, b, p),
                    decreases snake.body.len() - k,
                {
                    let part = snake.body[k];
                    assert(self@.snakes[i as int].body[k as int] == pos_of(part));
                    if part.0 == x && part.1 == y {
                        assert(self@.snakes[i as int].alive);
                        assert(self@.is_segment(i as int, k as int));
                        assert(self@.occupies(i as int, k as int, p));
                        return true;
                    }
                    k += 1;
                }
            }
            i += 1;
        }
        false
    }

    /// Tests whether `(x, y)` is in the food list.
    fn has_food(&self, x: isize, y: isize) -> (r: bool)
        ensures
            r == self@.food.contains((x as int, y as int)),
    {
        let mut f: usize = 0;
        while f < self.food.len()
            invariant
                f <= self.food.len(),
                forall|g: int| 0 <= g < f ==> self@.food[g] != (x as int, y as int),
            decreases self.food.len() - f,
        {
            let piece = self.food[f];
            assert(self@.food[f as int] == pos_of(piece));
            if piece.0 == x && piece.1 == y {
                return true;
            }
            f += 1;
        }
        false
    }

    /// Tests that an entity stands behind every cell of the table.
    fn table_backed(&self) -> (r: bool)
        requires
            self.sized(),
            self@.all_alive(),
        ensures
            r == self@.table_justified(),
    {
        proof {
            self.cells.lemma_domain();
        }
        let mut x: usize = 0;
        while x < self.size.0
            invariant
                self.sized(),
                self@.all_alive(),
                x <= self.size.0,
                forall|p: Pos| #[trigger]
                    self@.cells.dom().contains(p) <==> in_grid(self@.width, self@.height, p),
                forall|p: Pos|
                    self@.cells.dom().contains(p) && p.0 < x ==> #[trigger] self@.justified(p),
            decreases self.size.0 - x,
        {
            let mut y: usize = 0;
            while y < self.size.1
                invariant
                    self.sized(),
                    self@.all_alive(),
                    x < self.size.0,
                    y <= self.size.1,
                    forall|p: Pos| #[trigger]
                        self@.cells.dom().contains(p) <==> in_grid(self@.width, self@.height, p),
                    forall|p: Pos|
                        self@.cells.dom().contains(p) && (p.0 < x || (p.0 == x && p.1 < y))
                            ==> #[trigger] self@.justified(p),
                decreases self.size.1 - y,
            {
                let ghost p = (x as int, y as int);
                assert(self@.cells.dom().contains(p));
                let backed = match self.cells.get_cell(x as isize, y as isize) {
                    Cell::Void => false,
                    Cell::Player(_) => self.has_owner(x as isize, y as isize),
                    Cell::Food => self.has_food(x as isize, y as isize),
                    Cell::Wall => true,
                    Cell::Empty => true,
                };
                if !backed {
                    assert(!self@.justified(p));
                    return false;
                }
                assert(self@.justified(p));
                y += 1;
            }
            x += 1;
        }
        true
    }

    /// Tests whether `a` is one move away from `b`.
    fn is_adjacent(&self, a: (isize, isize), b: (isize, isize)) -> (r: bool)
        requires
            self.sized(),
            in_grid(self@.width, self@.height, pos_of(b)),
        ensures
            r == self@.adjacent(pos_of(a), pos_of(b)),
    {
        self.leads_to(b, Direction::Up, a) || self.leads_to(b, Direction::Left, a)
            || self.leads_to(b, Direction::Down, a) || self.leads_to(b, Direction::Right, a)
    }

    /// Tests whether one move in direction `d` leads from `b` to `a`.
    fn leads_to(&self, b: (isize, isize), d: Direction, a: (isize, isize)) -> (r: bool)
        requires
            self.sized(),
            in_grid(self@.width, self@.height, pos_of(b)),
        ensures
            r == (self@.neighbor(pos_of(b), d) == Some(pos_of(a))),
    {
        match self.neighbor(b, d) {
            Some(q) => q.0 == a.0 && q.1 == a.1,
            None => false,
        }
    }

    /// Tests that every body is a chain.
    fn bodies_linked(&self) -> (r: bool)
        requires
            self.sized(),
            self@.all_alive(),
            self@.segments_recorded(),
        ensures
            r == self@.bodies_chained(),
    {
        proof {
            self.cells.lemma_domain();
        }
        let mut i: usize = 0;
        while i < self.snakes.len()
            invariant
                self.sized(),
                self@.all_alive(),
                self@.segments_recorded(),
                forall|p: Pos| #[trigger]
                    self@.cells.dom().contains(p) <==> in_grid(self@.width, self@.height, p),
                i <= self.snakes.len(),
                forall|j: int, k: int|
                    0 <= j < i && 0 <= k < self@.snakes[j].body.len() - 1 ==> #[trigger] self@.linked(
                        j,
                        k,
                    ),
            decreases self.snakes.len() - i,
        {
            let snake = &self.snakes[i];
            let mut k: usize = 1;
            while k < snake.body.len()
                invariant
                    self.sized(),
                    self@.all_alive(),
                    self@.segments_recorded(),
                    forall|p: Pos| #[trigger]
                        self@.cells.dom().contains(p) <==> in_grid(self@.width, self@.height, p),
                    i < self.snakes.len(),
                    snake == &self.snakes[i as int],
                    1 <= k,
                    forall|l: int| 0 <= l < k - 1 ==> #[trigger] self@.linked(i as int, l),
                decreases snake.body.len() - k,
            {
                let front = snake.body[k - 1];
                let behind = snake.body[k];
                proof {
                    assert(self@.snakes[i as int].body[k as int - 1] == pos_of(front));
                    assert(self@.snakes[i as int].body[k as int] == pos_of(behind));
                    assert(self@.snakes[i as int].alive);
                    assert(self@.is_segment(i as int, k as int));
                    assert(self@.cells.dom().contains(pos_of(behind)));
                }
                if !self.is_adjacent(front, behind) {
                    assert(!self@.linked(i as int, k as int - 1));
                    return false;
                }
                k += 1;
            }
            i += 1;
        }
        true
    }
}

} // verus!
