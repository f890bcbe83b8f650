//! The simulation engine: the game state, the events that change it, and
//! the tick.

use vstd::prelude::*;
use crate::grid::{in_grid, Cell, CellManager};
use crate::invariants::{
    lemma_empty_wf, lemma_enter_coherent, lemma_first_draw_places, lemma_fresh_id,
    lemma_index_of, lemma_join_wf,
    lemma_kill_coherent,
    lemma_leave_wf, lemma_neighbor_on_grid, lemma_steer_wf, lemma_survivors_wf,
    lemma_with_food_wf,
};
use crate::model::{cleared, is_alive, other_than, GameModel, Restock};
use crate::net::{EventModel, Signal, SnakeEvent, SnakeEventType};
use crate::random::{pick_below, thread_generator};
use crate::snake::{path_of, pos_of, Direction, Pos, Snake, SnakeModel};

verus! {

/// How often a random cell is tried for one missing piece of food.
pub const FOOD_ATTEMPTS: usize = 50;

/// The authoritative state of one game.
#[derive(Debug)]
pub struct Game {
    // Settings
    pub size: (usize, usize),
    pub food_amount: usize,
    pub max_players: usize,
    pub teleport: bool,
    // Data
    pub snakes: Vec<Snake>,
    pub food: Vec<(isize, isize)>,
    pub cells: CellManager,
}

/// The order in which the grid is walked: column by column, and from the
/// top down within a column.
pub open spec fn comes_before(p: Pos, q: Pos) -> bool {
    p.0 < q.0 || (p.0 == q.0 && p.1 < q.1)
}

/// A roster as a sequence of mathematical snakes.
pub open spec fn roster_of(s: Seq<Snake>) -> Seq<SnakeModel> {
    s.map_values(|s: Snake| s@)
}

impl View for Game {
    type V = GameModel;

    open spec fn view(&self) -> GameModel {
        GameModel {
            width: self.size.0 as nat,
            height: self.size.1 as nat,
            food_amount: self.food_amount as nat,
            max_players: self.max_players as nat,
            teleport: self.teleport,
            snakes: roster_of(self.snakes@),
            food: path_of(self.food@),
            cells: self.cells@,
        }
    }
}

impl Game {
    /// The table has the size of the game, and every coordinate of the grid
    /// can be stored.
    pub open spec fn sized(&self) -> bool {
        &&& self.cells.width() == self.size.0
        &&& self.cells.height() == self.size.1
        &&& self.size.0 <= isize::MAX
        &&& self.size.1 <= isize::MAX
    }

    /// The state in the middle of a tick: see [`GameModel::coherent`].
    pub open spec fn coherent(&self) -> bool {
        self.sized() && self@.coherent()
    }

    /// The state between ticks: see [`GameModel::wf`].
    pub open spec fn wf(&self) -> bool {
        self.sized() && self@.wf()
    }

    /// A game on a grid of `width` by `height` empty cells, without players
    /// and without food.
    pub fn new(
        width: usize,
        height: usize,
        food_amount: usize,
        players: usize,
        teleport: bool,
    ) -> (g: Self)
        requires
            width <= isize::MAX,
            height <= isize::MAX,
        ensures
            g.wf(),
            g@ == GameModel::empty(
                width as nat,
                height as nat,
                food_amount as nat,
                players as nat,
                teleport,
            ),
    {
        let g = Self {
            size: (width, height),
            food_amount: food_amount,
            max_players: players,
            teleport: teleport,
            snakes: Vec::new(),
            food: Vec::new(),
            cells: CellManager::new(width, height),
        };
        proof {
            g.cells.lemma_domain();
            lemma_empty_wf(
                width as nat,
                height as nat,
                food_amount as nat,
                players as nat,
                teleport,
            );
            assert(g@.cells =~= Map::new(
                |p: Pos| in_grid(width as nat, height as nat, p),
                |p: Pos| Cell::Empty,
            ));
            assert(g@.food =~= Seq::empty());
            assert(g@.snakes =~= Seq::empty());
        }
        g
    }

    /// Puts a piece of food at `(x, y)` if that cell is on the grid and
    /// empty, and says whether it did.
    pub fn place_food(&mut self, x: isize, y: isize) -> (placed: bool)
        requires
            old(self).wf(),
        ensures
            final(self).wf(),
            placed == old(self)@.is_empty_cell((x as int, y as int)),
            final(self)@ == if placed {
                old(self)@.with_food((x as int, y as int))
            } else {
                old(self)@
            },
    {
        match self.cells.get_cell(x, y) {
            Cell::Empty => {
                self.cells.set_cell(x, y, Cell::Food);
                self.food.push((x, y));
                proof {
                    let p = (x as int, y as int);
                    lemma_with_food_wf(old(self)@, p);
                    assert(self@.food =~= old(self)@.food.push(p));
                }
                true
            },
            _ => false,
        }
    }

    /// The last place in the roster of a snake called `name`.
    fn find_last(&self, name: &String) -> (r: Option<usize>)
        ensures
            match r {
                Some(i) => self@.names_last(i as int, name@),
                None => !self@.has_player(name@),
            },
    {
        let mut found: Option<usize> = None;
        let mut i: usize = 0;
        while i < self.snakes.len()
            invariant
                i <= self.snakes.len(),
                match found {
                    Some(k) => k < i && self@.names(k as int, name@) && forall|j: int|
                        k < j < i ==> !self@.names(j, name@),
                    None => forall|j: int| 0 <= j < i ==> !self@.names(j, name@),
                },
            decreases self.snakes.len() - i,
        {
            if self.snakes[i].name == *name {
                found = Some(i);
            }
            i += 1;
        }
        found
    }

    /// The first place in the roster of a snake called `name`.
    fn position(&self, name: &String) -> (r: Option<usize>)
        ensures
            match r {
                Some(i) => self@.names_first(i as int, name@),
                None => !self@.has_player(name@),
            },
    {
        let mut i: usize = 0;
        while i < self.snakes.len()
            invariant
                i <= self.snakes.len(),
                forall|j: int| 0 <= j < i ==> !self@.names(j, name@),
            decreases self.snakes.len() - i,
        {
            if self.snakes[i].name == *name {
                return Some(i);
            }
            i += 1;
        }
        None
    }

    /// The snake of the player called `name`, to be changed in place: the
    /// last of that name in the roster, if there is any.
    fn get_snake_mut(&mut self, name: String) -> (r: Option<&mut Snake>)
        ensures
            match r {
                Some(s) => exists|i: int|
                    {
                        &&& old(self)@.names_last(i, name@)
                        &&& *s == old(self).snakes[i]
                        &&& final(self).snakes@ == old(self).snakes@.update(i, *final(s))
                    },
                None => !old(self)@.has_player(name@) && final(self).snakes == old(self).snakes,
            },
            final(self).size == old(self).size,
            final(self).food_amount == old(self).food_amount,
            final(self).max_players == old(self).max_players,
            final(self).teleport == old(self).teleport,
            final(self).food == old(self).food,
            final(self).cells == old(self).cells,
    {
        match self.find_last(&name) {
            Some(i) => Some(&mut self.snakes[i]),
            None => None,
        }
    }

    /// The snake of the player called `name`: the last of that name in the
    /// roster, if there is any.
    pub fn get_snake(&self, name: String) -> (r: Option<&Snake>)
        ensures
            match r {
                Some(s) => exists|i: int| self@.names_last(i, name@) && *s == self.snakes[i],
                None => !self@.has_player(name@),
            },
    {
        match self.find_last(&name) {
            Some(i) => Some(&self.snakes[i]),
            None => None,
        }
    }

    /// The empty cells of the grid, each listed once, column by column and
    /// from the top down within a column.
    pub fn empty_cells(&self) -> (r: Vec<(isize, isize)>)
        requires
            self.sized(),
        ensures
            forall|p: Pos| #[trigger] path_of(r@).contains(p) <==> self@.is_empty_cell(p),
            forall|a: int, b: int|
                0 <= a < b < r.len() ==> comes_before(
                    #[trigger] path_of(r@)[a],
                    #[trigger] path_of(r@)[b],
                ),
            path_of(r@).no_duplicates(),
    {
        let mut out: Vec<(isize, isize)> = Vec::new();
        let mut x: usize = 0;
        proof {
            self.cells.lemma_domain();
        }
        while x < self.size.0
            invariant
                self.sized(),
                x <= self.size.0,
                forall|p: Pos| #[trigger]
                    self@.cells.dom().contains(p) <==> in_grid(self@.width, self@.height, p),
                forall|a: int, b: int|
                    0 <= a < b < out.len() ==> comes_before(
                        #[trigger] path_of(out@)[a],
                        #[trigger] path_of(out@)[b],
                    ),
                forall|p: Pos| #[trigger]
                    path_of(out@).contains(p) <==> self@.is_empty_cell(p) && p.0 < x,
            decreases self.size.0 - x,
        {
            let mut y: usize = 0;
            while y < self.size.1
                invariant
                    self.sized(),
                    x < self.size.0,
                    y <= self.size.1,
                    forall|p: Pos| #[trigger]
                        self@.cells.dom().contains(p) <==> in_grid(self@.width, self@.height, p),
                    forall|a: int, b: int|
                        0 <= a < b < out.len() ==> comes_before(
                            #[trigger] path_of(out@)[a],
                            #[trigger] path_of(out@)[b],
                        ),
                    forall|p: Pos| #[trigger]
                        path_of(out@).contains(p) <==> self@.is_empty_cell(p) && comes_before(
                            p,
                            (x as int, y as int),
                        ),
                decreases self.size.1 - y,
            {
                match self.cells.get_cell(x as isize, y as isize) {
                    Cell::Empty => {
                        let ghost before = path_of(out@);
                        out.push((x as isize, y as isize));
                        proof {
                            let q = (x as int, y as int);
                            let after = path_of(out@);
                            assert(after =~= before.push(q));
                            assert forall|a: int, b: int| 0 <= a < b < after.len() implies comes_before(
                                #[trigger] after[a],
                                #[trigger] after[b],
                            ) by {
                                if b == before.len() {
                                    assert(before.contains(before[a]));
                                } else {
                                    assert(comes_before(before[a], before[b]));
                                }
                            }
                            assert forall|p: Pos| #[trigger]
                                after.contains(p) <==> self@.is_empty_cell(p) && comes_before(
                                    p,
                                    (x as int, y + 1),
                                ) by {
                                assert(before.contains(p) <==> self@.is_empty_cell(p)
                                    && comes_before(p, q));
                                if after.contains(p) {
                                    let k = choose|k: int| 0 <= k < after.len() && after[k] == p;
                                    if k < before.len() {
                                        assert(before[k] == p);
                                    }
                                }
                                if before.contains(p) {
                                    let k = choose|k: int| 0 <= k < before.len() && before[k] == p;
                                    assert(after[k] == p);
                                }
                                if p == q {
                                    assert(after[before.len() as int] == p);
                                }
                            }
                        }
                    },
                    _ => {},
                }
                y += 1;
            }
            proof {
                assert forall|p: Pos| #[trigger]
                    path_of(out@).contains(p) <==> self@.is_empty_cell(p) && p.0 < x + 1 by {
                    assert(self@.cells.dom().contains(p) <==> in_grid(self@.width, self@.height, p));
                }
            }
            x += 1;
        }
        proof {
            assert forall|p: Pos| #[trigger]
                path_of(out@).contains(p) <==> self@.is_empty_cell(p) by {
                assert(self@.cells.dom().contains(p) <==> in_grid(self@.width, self@.height, p));
            }
        }
        out
    }

    /// Takes one drawn position into the restocking that has `pieces` still
    /// to settle and `tries` left for the piece in hand, and gives the two
    /// numbers as they then stand.
    fn take_draw(&mut self, x: isize, y: isize, pieces: usize, tries: usize) -> (r: (usize, usize))
        requires
            old(self).wf(),
            tries <= FOOD_ATTEMPTS,
        ensures
            final(self).wf(),
            (Restock { game: final(self)@, pieces: r.0 as nat, tries: r.1 as nat }) == (Restock {
                game: old(self)@,
                pieces: pieces as nat,
                tries: tries as nat,
            }).drawn((x as int, y as int)),
    {
        if pieces == 0 {
            (pieces, tries)
        } else if self.place_food(x, y) {
            (pieces - 1, FOOD_ATTEMPTS)
        } else if tries <= 1 {
            (pieces - 1, FOOD_ATTEMPTS)
        } else {
            (pieces, tries - 1)
        }
    }

    /// How many pieces of food are missing.
    fn missing(&self) -> (r: usize)
        ensures
            r == self@.missing_food(),
    {
        if self.food.len() < self.food_amount {
            self.food_amount - self.food.len()
        } else {
            0
        }
    }

    /// Restocks the food from positions that have been drawn: each missing
    /// piece takes the first of its draws that hits an empty cell, and is
    /// given up when [`FOOD_ATTEMPTS`] draws have missed. Says how many
    /// pieces the draws have left unsettled.
    pub fn restock_with(&mut self, draws: &Vec<(isize, isize)>) -> (pieces: usize)
        requires
            old(self).wf(),
        ensures
            final(self).wf(),
            final(self)@ == old(self)@.restock_after(path_of(draws@)).game,
            pieces == old(self)@.restock_after(path_of(draws@)).pieces,
    {
        let mut pieces = self.missing();
        let mut tries = FOOD_ATTEMPTS;
        let mut k: usize = 0;
        assert(path_of(draws@.take(0)) =~= Seq::<Pos>::empty());
        while k < draws.len()
            invariant
                k <= draws.len(),
                self.wf(),
                tries <= FOOD_ATTEMPTS,
                old(self)@.restock_after(path_of(draws@.take(k as int))) == (Restock {
                    game: self@,
                    pieces: pieces as nat,
                    tries: tries as nat,
                }),
            decreases draws.len() - k,
        {
            let d = draws[k];
            proof {
                let seen = path_of(draws@.take(k as int + 1));
                assert(seen.drop_last() =~= path_of(draws@.take(k as int)));
                assert(seen.last() == pos_of(d));
            }
            let next = self.take_draw(d.0, d.1, pieces, tries);
            pieces = next.0;
            tries = next.1;
            k += 1;
        }
        assert(draws@.take(draws.len() as int) =~= draws@);
        pieces
    }

    /// Restocks the food: for every missing piece, random cells are drawn
    /// until one is empty, at most [`FOOD_ATTEMPTS`] times; a piece that
    /// finds no cell is given up. On a grid whose cells are all empty the
    /// first draw places food.
    pub fn add_missing_food(&mut self)
        requires
            old(self).wf(),
        ensures
            final(self).wf(),
            old(self)@.restocks(final(self)@),
            old(self)@.missing_food() > 0 && old(self)@.width > 0 && old(self)@.height > 0 && (
            forall|p: Pos| old(self)@.cells.dom().contains(p) ==> old(self)@.is_empty_cell(p))
                ==> final(self)@.food.len() > old(self)@.food.len(),
    {
        if self.size.0 == 0 || self.size.1 == 0 {
            return ;
        }
        let ghost mut draws: Seq<Pos> = Seq::empty();
        let mut pieces = self.missing();
        let mut tries = FOOD_ATTEMPTS;
        let mut rng = thread_generator();
        proof {
            self.cells.lemma_domain();
        }
        while pieces > 0
            invariant
                self.wf(),
                self.size == old(self).size,
                self.size.0 > 0,
                self.size.1 > 0,
                1 <= tries <= FOOD_ATTEMPTS,
                forall|p: Pos|
                    old(self)@.cells.dom().contains(p) <==> in_grid(
                        old(self)@.width,
                        old(self)@.height,
                        p,
                    ),
                old(self)@.on_grid(draws),
                old(self)@.restock_after(draws) == (Restock {
                    game: self@,
                    pieces: pieces as nat,
                    tries: tries as nat,
                }),
            decreases pieces, tries,
        {
            let x = pick_below(&mut rng, self.size.0) as isize;
            let y = pick_below(&mut rng, self.size.1) as isize;
            proof {
                let longer = draws.push((x as int, y as int));
                assert(longer.drop_last() =~= draws);
                draws = longer;
            }
            let next = self.take_draw(x, y, pieces, tries);
            pieces = next.0;
            tries = next.1;
        }
        proof {
            assert(old(self)@.restocked_by(draws, self@));
            if old(self)@.missing_food() > 0 && (forall|p: Pos|
                old(self)@.cells.dom().contains(p) ==> old(self)@.is_empty_cell(p)) {
                assert(draws.len() > 0);
                assert(old(self)@.cells.dom().contains(draws[0]));
                lemma_first_draw_places(old(self)@, draws);
            }
        }
    }

    /// One round of the simulation: applies the queued events in order,
    /// advances the game by one tick and restocks the food.
    pub fn round(&mut self, events: &Vec<SnakeEvent>)
        requires
            old(self).wf(),
        ensures
            final(self).wf(),
            old(self)@.rounds(events@.map_values(|e: SnakeEvent| e@), final(self)@),
    {
        let ghost queue = events@.map_values(|e: SnakeEvent| e@);
        let mut k: usize = 0;
        assert(queue.take(0) =~= Seq::<EventModel>::empty());
        while k < events.len()
            invariant
                k <= events.len(),
                self.wf(),
                queue == events@.map_values(|e: SnakeEvent| e@),
                old(self)@.handles_all(queue.take(k as int), self@),
            decreases events.len() - k,
        {
            let ghost mid = self@;
            let event = events[k].clone();
            self.handle_events(event.event_type, event.event_owner);
            proof {
                let done = queue.take(k as int + 1);
                assert(done.drop_last() =~= queue.take(k as int));
                assert(done.last() == event@);
                assert(old(self)@.handles_all(done.drop_last(), mid) && mid.handles(
                    done.last(),
                    self@,
                ));
            }
            k += 1;
        }
        assert(queue.take(events.len() as int) =~= queue);
        let ghost mid = self@;
        self.step();
        self.add_missing_food();
        assert(old(self)@.handles_all(queue, mid) && mid.step().restocks(self@));
    }

    /// Whether a snake of the roster bears the id `id`.
    fn bears(&self, id: usize) -> (r: bool)
        ensures
            r == self@.bears(id),
    {
        let mut i: usize = 0;
        while i < self.snakes.len()
            invariant
                i <= self.snakes.len(),
                forall|j: int| 0 <= j < i ==> !#[trigger] self@.has_id(j, id),
            decreases self.snakes.len() - i,
        {
            if self.snakes[i].id == id {
                assert(self@.has_id(i as int, id));
                return true;
            }
            i += 1;
        }
        false
    }

    /// The id for the next snake to join: the least that no snake of the
    /// roster bears.
    pub fn fresh_id(&self) -> (id: usize)
        ensures
            id == self@.fresh_id(),
            self@.is_fresh(id),
            id <= self.snakes.len(),
    {
        let count = self.snakes.len();
        proof {
            assert(self@.snakes.len() == count);
            lemma_fresh_id(self@);
        }
        let mut id: usize = 0;
        while self.bears(id)
            invariant
                self@.is_fresh(self@.fresh_id()),
                self@.fresh_id() <= self.snakes.len(),
                id <= self@.fresh_id(),
                forall|lower: usize| lower < id ==> #[trigger] self@.bears(lower),
            decreases self@.fresh_id() - id,
        {
            id += 1;
        }
        proof {
            if id < self@.fresh_id() {
                assert(self@.bears(id));
            }
        }
        id
    }

    /// Adds a one-segment snake for player `name` at `(x, y)`, if the
    /// roster has room, no snake bears the name, and the cell is on the grid
    /// and empty. The snake takes the least id that no snake of the roster
    /// bears. Says whether it did.
    pub fn add_player_at(&mut self, name: String, x: isize, y: isize) -> (joined: bool)
        requires
            old(self).wf(),
        ensures
            final(self).wf(),
            joined == (old(self)@.can_join(name@) && old(self)@.is_empty_cell((x as int, y as int))),
            final(self)@ == if joined {
                old(self)@.join(name@, (x as int, y as int))
            } else {
                old(self)@
            },
    {
        if self.snakes.len() >= self.max_players {
            return false;
        }
        if let Some(_) = self.position(&name) {
            return false;
        }
        match self.cells.get_cell(x, y) {
            Cell::Empty => {},
            _ => {
                return false;
            },
        }
        let id = self.fresh_id();
        self.snakes.push(Snake::new(x, y, name, id));
        self.cells.set_cell(x, y, Cell::Player(id));
        proof {
            let p = (x as int, y as int);
            lemma_join_wf(old(self)@, name@, p);
            assert(self@.snakes =~= old(self)@.snakes.push(SnakeModel::fresh(name@, id, p)));
        }
        true
    }

    /// Adds a snake for player `name` on an empty cell drawn at random, each
    /// with the same chance. Nothing happens if the roster is full, the name
    /// is taken, or no cell is empty.
    pub fn add_player(&mut self, name: String) -> (joined: bool)
        requires
            old(self).wf(),
        ensures
            final(self).wf(),
            joined == (old(self)@.can_join(name@) && old(self)@.has_empty_cell()),
            old(self)@.connects(name@, final(self)@),
    {
        if self.snakes.len() >= self.max_players {
            return false;
        }
        if let Some(_) = self.position(&name) {
            return false;
        }
        let free = self.empty_cells();
        if free.len() == 0 {
            proof {
                assert forall|p: Pos| !self@.is_empty_cell(p) by {
                    assert(!path_of(free@).contains(p));
                }
            }
            return false;
        }
        let mut rng = thread_generator();
        let k = pick_below(&mut rng, free.len());
        let pos = free[k];
        proof {
            assert(path_of(free@)[k as int] == pos_of(pos));
            assert(path_of(free@).contains(pos_of(pos)));
        }
        self.add_player_at(name, pos.0, pos.1)
    }

    /// Removes the snake of player `name`, if there is one, and empties its
    /// cells.
    pub fn remove_player(&mut self, name: String)
        requires
            old(self).wf(),
        ensures
            final(self).wf(),
            final(self)@ == old(self)@.leave(name@),
    {
        let snake_index = match self.position(&name) {
            Some(index) => index,
            None => return ,
        };
        let current_snake = self.snakes.remove(snake_index);
        erase(&mut self.cells, &current_snake.body);
        proof {
            lemma_index_of(old(self)@, name@, snake_index as int);
            lemma_leave_wf(old(self)@, name@);
            assert(self@.snakes =~= old(self)@.snakes.remove(snake_index as int));
        }
    }

    /// Applies one request of player `name`. A movement sets the heading of
    /// the player's snake, unless it would turn the snake back onto its own
    /// neck. A disconnect removes the snake. A connect adds a snake on a
    /// random empty cell, if the player may join.
    pub fn handle_events(&mut self, event: SnakeEventType, name: String)
        requires
            old(self).wf(),
        ensures
            final(self).wf(),
            old(self)@.handles((EventModel { event_type: event, owner: name@ }), final(self)@),
    {
        match event {
            SnakeEventType::Movement(dir) => {
                let current_snake = match self.get_snake_mut(name) {
                    Some(snake) => snake,
                    None => return ,
                };
                match dir {
                    Direction::Stop => current_snake.direction = dir,
                    _ => {
                        if dir != current_snake.moved_from {
                            current_snake.direction = dir
                        }
                    },
                }
                proof {
                    lemma_steer_wf(old(self)@, name@, dir);
                    let i = choose|i: int| old(self)@.names_last(i, name@);
                    lemma_index_of(old(self)@, name@, i);
                    assert(self@.snakes =~= old(self)@.steer(name@, dir).snakes);
                }
            },
            SnakeEventType::Signal(signal) => match signal {
                Signal::Disconnect => {
                    self.remove_player(name);
                },
                Signal::Connect => {
                    self.add_player(name);
                },
            },
        }
    }

    /// Where one move in direction `d` leads from `head`.
    pub(crate) fn neighbor(&self, head: (isize, isize), d: Direction) -> (r: Option<(isize, isize)>)
        requires
            self.sized(),
            in_grid(self@.width, self@.height, pos_of(head)),
        ensures
            match r {
                Some(q) => self@.neighbor(pos_of(head), d) == Some(pos_of(q)),
                None => self@.neighbor(pos_of(head), d) is None,
            },
    {
        let next: (isize, isize) = match d {
            Direction::Up => (head.0, head.1 - 1),
            Direction::Left => (head.0 - 1, head.1),
            Direction::Down => (head.0, head.1 + 1),
            Direction::Right => (head.0 + 1, head.1),
            Direction::Stop => (head.0, head.1),
        };
        let width = self.size.0 as isize;
        let height = self.size.1 as isize;
        if 0 <= next.0 && next.0 < width && 0 <= next.1 && next.1 < height {
            Some(next)
        } else if self.teleport {
            Some((wrap(next.0, width), wrap(next.1, height)))
        } else {
            None
        }
    }

    /// Snake `i` dies on its turn.
    fn kill(&mut self, i: usize)
        requires
            old(self).coherent(),
            i < old(self).snakes.len(),
            old(self).snakes[i as int].alive,
        ensures
            final(self).coherent(),
            final(self).snakes.len() == old(self).snakes.len(),
            final(self)@ == old(self)@.kill(i as int),
    {
        self.snakes[i].alive = false;
        erase(&mut self.cells, &self.snakes[i].body);
        proof {
            lemma_kill_coherent(old(self)@, i as int);
            assert(self@.snakes =~= old(self)@.snakes.update(
                i as int,
                old(self)@.snakes[i as int].dead(),
            ));
        }
    }

    /// Snake `i` moves its head into `p` on its turn, and grows if it finds
    /// food there.
    fn enter(&mut self, i: usize, p: (isize, isize), grows: bool)
        requires
            old(self).coherent(),
            i < old(self).snakes.len(),
            old(self).snakes[i as int].alive,
            old(self).snakes[i as int].direction != Direction::Stop,
            old(self)@.neighbor(
                pos_of(old(self).snakes[i as int].head),
                old(self).snakes[i as int].direction,
            ) == Some(pos_of(p)),
            old(self)@.cells[pos_of(p)] == (if grows {
                Cell::Food
            } else {
                Cell::Empty
            }),
        ensures
            final(self).coherent(),
            final(self).snakes.len() == old(self).snakes.len(),
            final(self)@ == old(self)@.enter(i as int, pos_of(p), grows),
    {
        proof {
            lemma_enter_coherent(old(self)@, i as int, pos_of(p), grows);
            assert(old(self)@.snakes[i as int].shaped());
            assert(old(self)@.is_segment(i as int, old(self).snakes[i as int].body.len() - 1));
        }
        let id = self.snakes[i].id;
        let direction = self.snakes[i].direction;
        self.snakes[i].head = p;
        self.cells.set_cell(p.0, p.1, Cell::Player(id));
        let tail = shift_in(&mut self.snakes[i].body, p);
        if grows {
            self.snakes[i].body.push(tail);
            drop_food(&mut self.food, p);
        } else {
            self.cells.set_cell(tail.0, tail.1, Cell::Empty);
        }
        self.snakes[i].moved_from = direction.reversed();
        proof {
            let before = old(self)@;
            let after = before.enter(i as int, pos_of(p), grows);
            let body = old(self).snakes[i as int].body@;
            assert(path_of(body).last() == pos_of(tail));
            assert(before.cells[pos_of(tail)] is Player);
            assert(self@.snakes[i as int].body =~= after.snakes[i as int].body);
            assert(self@.snakes =~= after.snakes);
            assert(self@.cells =~= after.cells);
        }
    }

    /// The turn of snake `i` within a tick.
    fn advance(&mut self, i: usize)
        requires
            old(self).coherent(),
            i < old(self).snakes.len(),
        ensures
            final(self).coherent(),
            final(self).snakes.len() == old(self).snakes.len(),
            final(self)@ == old(self)@.advance(i as int),
    {
        if !self.snakes[i].alive {
            return ;
        }
        let direction = self.snakes[i].direction;
        if direction == Direction::Stop {
            return ;
        }
        let head = self.snakes[i].head;
        proof {
            assert(self@.snakes[i as int].shaped());
            assert(self@.is_segment(i as int, 0));
            assert(self@.cells.dom().contains(pos_of(head)));
        }
        match self.neighbor(head, direction) {
            None => {
                self.kill(i);
            },
            Some(next_pos) => {
                let next_cell = self.cells.get_cell(next_pos.0, next_pos.1);
                proof {
                    lemma_neighbor_on_grid(self@, pos_of(head), direction);
                }
                match next_cell {
                    Cell::Empty => {
                        self.enter(i, next_pos, false);
                    },
                    Cell::Food => {
                        self.enter(i, next_pos, true);
                    },
                    _ => {
                        self.kill(i);
                    },
                }
            },
        }
    }

    /// Strikes the dead from the roster.
    fn drop_dead(&mut self)
        requires
            old(self).coherent(),
        ensures
            final(self).wf(),
            final(self)@ == old(self)@.survivors(),
    {
        let ghost all = old(self)@.snakes;
        let ghost mut j: int = 0;
        let mut i: usize = 0;
        proof {
            reveal(Seq::filter);
            assert(all.take(0).filter(is_alive()) =~= Seq::<SnakeModel>::empty());
            assert(self@.snakes.take(0) =~= Seq::<SnakeModel>::empty());
            assert(self@.snakes.skip(0) =~= all.skip(0));
        }
        while i < self.snakes.len()
            invariant
                0 <= j <= all.len(),
                i <= self.snakes.len(),
                self.snakes.len() - i == all.len() - j,
                self@.snakes.take(i as int) == all.take(j).filter(is_alive()),
                self@.snakes.skip(i as int) == all.skip(j),
                self.size == old(self).size,
                self.food_amount == old(self).food_amount,
                self.max_players == old(self).max_players,
                self.teleport == old(self).teleport,
                self.food == old(self).food,
                self.cells == old(self).cells,
            decreases self.snakes.len() - i,
        {
            let ghost current = self@.snakes;
            proof {
                assert(current[i as int] == current.skip(i as int)[0]);
                assert(all[j] == all.skip(j)[0]);
                assert(all.take(j + 1) =~= all.take(j).push(all[j]));
                all.take(j).lemma_filter_push(all[j], is_alive());
            }
            if self.snakes[i].alive {
                proof {
                    assert(current.take(i as int + 1) =~= current.take(i as int).push(
                        current[i as int],
                    ));
                    assert(current.skip(i as int + 1) =~= current.skip(i as int).skip(1));
                    assert(all.skip(j + 1) =~= all.skip(j).skip(1));
                }
                i += 1;
            } else {
                self.snakes.remove(i);
                proof {
                    assert(self@.snakes =~= current.remove(i as int));
                    assert(self@.snakes.take(i as int) =~= current.take(i as int));
                    assert(self@.snakes.skip(i as int) =~= current.skip(i as int).skip(1));
                    assert(all.skip(j + 1) =~= all.skip(j).skip(1));
                }
            }
            proof {
                j = j + 1;
            }
        }
        proof {
            assert(self@.snakes.take(i as int) =~= self@.snakes);
            assert(all.take(j) =~= all);
            lemma_survivors_wf(old(self)@);
        }
    }

    /// Advances the game by one tick: every snake has its turn in roster
    /// order, then the dead are struck from the roster.
    pub fn step(&mut self)
        requires
            old(self).wf(),
        ensures
            final(self).wf(),
            final(self)@ == old(self)@.step(),
    {
        let count = self.snakes.len();
        let mut i: usize = 0;
        while i < count
            invariant
                i <= count,
                count == self.snakes.len(),
                count == old(self).snakes.len(),
                self.coherent(),
                self@ == old(self)@.advance_all(i as nat),
            decreases count - i,
        {
            self.advance(i);
            i += 1;
        }
        self.drop_dead();
    }

    /// The positions of the food.
    pub fn get_food(&self) -> (r: &Vec<(isize, isize)>)
        ensures
            r == &self.food,
    {
        &self.food
    }

    /// The ownership table.
    pub fn get_owners_tables(&self) -> (r: &CellManager)
        ensures
            r == &self.cells,
    {
        &self.cells
    }
}

/// Empties every cell of `body` in the table.
fn erase(cells: &mut CellManager, body: &Vec<(isize, isize)>)
    ensures
        final(cells)@ == cleared(old(cells)@, path_of(body@)),
        final(cells).width() == old(cells).width(),
        final(cells).height() == old(cells).height(),
{
    let mut k: usize = 0;
    assert(cells@ =~= cleared(old(cells)@, path_of(body@.take(0))));
    while k < body.len()
        invariant
            k <= body.len(),
            cells@ == cleared(old(cells)@, path_of(body@.take(k as int))),
            cells.width() == old(cells).width(),
            cells.height() == old(cells).height(),
        decreases body.len() - k,
    {
        let part = body[k];
        cells.set_cell(part.0, part.1, Cell::Empty);
        proof {
            let done = path_of(body@.take(k as int));
            let more = path_of(body@.take(k as int + 1));
            assert(more =~= done.push(pos_of(part)));
            assert forall|p: Pos| more.contains(p) <==> done.contains(p) || p == pos_of(part) by {
                if more.contains(p) {
                    let j = choose|j: int| 0 <= j < more.len() && more[j] == p;
                    if j < done.len() {
                        assert(done[j] == p);
                    }
                }
                if done.contains(p) {
                    let j = choose|j: int| 0 <= j < done.len() && done[j] == p;
                    assert(more[j] == p);
                }
                if p == pos_of(part) {
                    assert(more[done.len() as int] == p);
                }
            }
            assert(cells@ =~= cleared(old(cells)@, more));
        }
        k += 1;
    }
    assert(body@.take(body.len() as int) =~= body@);
}

/// A coordinate one step outside `0..n`, brought back in from the other side.
fn wrap(v: isize, n: isize) -> (r: isize)
    requires
        n > 0 ==> -1 <= v <= n,
    ensures
        n > 0 ==> r == (v as int) % (n as int),
{
    if n <= 0 {
        v
    } else if v < 0 {
        assert((v as int) % (n as int) == v + n) by (nonlinear_arith)
            requires
                n > 0,
                v == -1,
        ;
        v + n
    } else if v >= n {
        assert((v as int) % (n as int) == 0) by (nonlinear_arith)
            requires
                n > 0,
                v == n,
        ;
        v - n
    } else {
        assert((v as int) % (n as int) == v) by (nonlinear_arith)
            requires
                0 <= v < n,
        ;
        v
    }
}

/// Puts `p` at the front of the path and moves every segment one place
/// back. The last position falls off and is returned.
fn shift_in(body: &mut Vec<(isize, isize)>, p: (isize, isize)) -> (tail: (isize, isize))
    requires
        old(body).len() > 0,
    ensures
        final(body)@ == seq![p] + old(body)@.drop_last(),
        tail == old(body)@.last(),
{
    let mut next_pos = p;
    let mut k: usize = 0;
    while k < body.len()
        invariant
            k <= body.len(),
            body.len() == old(body).len(),
            forall|j: int| 0 <= j < k ==> body[j] == (seq![p] + old(body)@)[j],
            forall|j: int| k <= j < body.len() ==> body[j] == old(body)[j],
            next_pos == (seq![p] + old(body)@)[k as int],
        decreases body.len() - k,
    {
        let tmp = body[k];
        body[k] = next_pos;
        next_pos = tmp;
        k += 1;
    }
    assert(body@ =~= seq![p] + old(body)@.drop_last());
    next_pos
}

/// Removes every entry equal to `p` from the food list.
fn drop_food(food: &mut Vec<(isize, isize)>, p: (isize, isize))
    ensures
        path_of(final(food)@) == path_of(old(food)@).filter(other_than(pos_of(p))),
{
    let mut kept: Vec<(isize, isize)> = Vec::new();
    let mut k: usize = 0;
    proof {
        reveal(Seq::filter);
        assert(path_of(food@.take(0)) =~= Seq::<Pos>::empty());
        assert(path_of(kept@) =~= Seq::<Pos>::empty());
    }
    while k < food.len()
        invariant
            k <= food.len(),
            food == old(food),
            path_of(kept@) == path_of(food@.take(k as int)).filter(other_than(pos_of(p))),
        decreases food.len() - k,
    {
        let f = food[k];
        proof {
            let seen = path_of(food@.take(k as int));
            assert(path_of(food@.take(k as int + 1)) =~= seen.push(pos_of(f)));
            seen.lemma_filter_push(pos_of(f), other_than(pos_of(p)));
        }
        if f.0 != p.0 || f.1 != p.1 {
            let ghost before = path_of(kept@);
            kept.push(f);
            assert(path_of(kept@) =~= before.push(pos_of(f)));
        }
        k += 1;
    }
    assert(food@.take(food.len() as int) =~= food@);
    *food = kept;
}

impl Clone for Game {
    /// A snapshot of the game.
    fn clone(&self) -> (r: Self)
        ensures
            r@ == self@,
            r.sized() == self.sized(),
    {
        let mut snakes: Vec<Snake> = Vec::new();
        let mut i: usize = 0;
        while i < self.snakes.len()
            invariant
                i <= self.snakes.len(),
                roster_of(snakes@) == roster_of(self.snakes@.take(i as int)),
            decreases self.snakes.len() - i,
        {
            let ghost before = roster_of(snakes@);
            snakes.push(self.snakes[i].clone());
            proof {
                assert(roster_of(snakes@) =~= before.push(self.snakes[i as int]@));
                assert(roster_of(self.snakes@.take(i as int + 1)) =~= before.push(
                    self.snakes[i as int]@,
                ));
            }
            i += 1;
        }
        let mut food: Vec<(isize, isize)> = Vec::new();
        let mut k: usize = 0;
        while k < self.food.len()
            invariant
                k <= self.food.len(),
                food@ == self.food@.take(k as int),
            decreases self.food.len() - k,
        {
            let piece = self.food[k];
            food.push((piece.0, piece.1));
            assert(self.food@.take(k as int + 1) =~= self.food@.take(k as int).push(
                self.food[k as int],
            ));
            k += 1;
        }
        assert(self.snakes@.take(self.snakes.len() as int) =~= self.snakes@);
        assert(self.food@.take(self.food.len() as int) =~= self.food@);
        Self {
            size: (self.size.0, self.size.1),
            food_amount: self.food_amount,
            max_players: self.max_players,
            teleport: self.teleport,
            snakes: snakes,
            food: food,
            cells: self.cells.clone(),
        }
    }
}

} // verus!
