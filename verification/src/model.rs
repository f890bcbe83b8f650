//! The game as a mathematical value: what a tick and each event do to it,
//! and the invariants that tie the grid to the snakes and the food.

use vstd::prelude::*;
use crate::game::FOOD_ATTEMPTS;
use crate::grid::{in_grid, Cell};
use crate::net::{EventModel, Signal, SnakeEventType};
use crate::snake::{Direction, Pos, SnakeModel};

verus! {

/// The whole state of a game: configuration, roster, food and ownership table.
#[verifier::ext_equal]
pub struct GameModel {
    pub width: nat,
    pub height: nat,
    /// How many pieces of food the game tries to keep on the grid.
    pub food_amount: nat,
    /// The largest roster that a connect request may join.
    pub max_players: nat,
    /// Whether a move across an edge re-enters on the opposite side.
    pub teleport: bool,
    /// The roster, in the order in which a tick processes it.
    pub snakes: Seq<SnakeModel>,
    pub food: Seq<Pos>,
    /// The ownership table, defined on the positions of the grid.
    pub cells: Map<Pos, Cell>,
}

/// The predicate that holds of every position but `p`.
pub open spec fn other_than(p: Pos) -> spec_fn(Pos) -> bool {
    |f: Pos| f != p
}

/// The predicate that holds of the snakes that are alive.
pub open spec fn is_alive() -> spec_fn(SnakeModel) -> bool {
    |s: SnakeModel| s.alive
}

/// The table `cells` with every position of `body` emptied.
pub open spec fn cleared(cells: Map<Pos, Cell>, body: Seq<Pos>) -> Map<Pos, Cell> {
    Map::new(
        |p: Pos| cells.dom().contains(p),
        |p: Pos|
            if body.contains(p) {
                Cell::Empty
            } else {
                cells[p]
            },
    )
}

/// How far restocking has come.
#[verifier::ext_equal]
pub struct Restock {
    /// The game as the draws so far have left it.
    pub game: GameModel,
    /// How many pieces are still to be settled.
    pub pieces: nat,
    /// How many draws the piece in hand may still take.
    pub tries: nat,
}

impl Restock {
    /// The draw `d` misses, and it was the last try of the piece in hand.
    pub open spec fn gives_up(self, d: Pos) -> bool {
        self.pieces > 0 && !self.game.is_empty_cell(d) && self.tries <= 1
    }

    /// Restocking after one more draw. When no piece is left, nothing
    /// happens. A draw that hits an empty cell puts the piece in hand
    /// there. A draw that misses costs the piece a try, and the piece is
    /// given up with its last try. The next piece starts with all its
    /// tries.
    pub open spec fn drawn(self, d: Pos) -> Restock {
        if self.pieces == 0 {
            self
        } else if self.game.is_empty_cell(d) {
            Restock {
                game: self.game.with_food(d),
                pieces: (self.pieces - 1) as nat,
                tries: FOOD_ATTEMPTS as nat,
            }
        } else if self.tries <= 1 {
            Restock { pieces: (self.pieces - 1) as nat, tries: FOOD_ATTEMPTS as nat, ..self }
        } else {
            Restock { tries: (self.tries - 1) as nat, ..self }
        }
    }
}

impl GameModel {
    /// A game without players or food, every cell empty.
    pub open spec fn empty(
        width: nat,
        height: nat,
        food_amount: nat,
        max_players: nat,
        teleport: bool,
    ) -> GameModel {
        GameModel {
            width,
            height,
            food_amount,
            max_players,
            teleport,
            snakes: Seq::empty(),
            food: Seq::empty(),
            cells: Map::new(|p: Pos| in_grid(width, height, p), |p: Pos| Cell::Empty),
        }
    }

    // ----- the roster -----

    /// `i` is the place in the roster of a snake called `name`.
    pub open spec fn names(self, i: int, name: Seq<char>) -> bool {
        0 <= i < self.snakes.len() && self.snakes[i].name == name
    }

    /// `i` is the last place in the roster of a snake called `name`.
    pub open spec fn names_last(self, i: int, name: Seq<char>) -> bool {
        self.names(i, name) && forall|j: int| i < j < self.snakes.len() ==> !self.names(j, name)
    }

    /// `i` is the first place in the roster of a snake called `name`.
    pub open spec fn names_first(self, i: int, name: Seq<char>) -> bool {
        self.names(i, name) && forall|j: int| 0 <= j < i ==> !self.names(j, name)
    }

    /// A snake called `name` is in the roster.
    pub open spec fn has_player(self, name: Seq<char>) -> bool {
        exists|i: int| self.names(i, name)
    }

    /// The place in the roster of a snake called `name`, if there is one.
    pub open spec fn index_of(self, name: Seq<char>) -> int {
        choose|i: int| self.names(i, name)
    }

    // ----- geometry -----

    /// Where one move in direction `d` leads from `p`: the next position if
    /// it is on the grid, its wrap-around if the game teleports at the edges,
    /// and nothing otherwise.
    pub open spec fn neighbor(self, p: Pos, d: Direction) -> Option<Pos> {
        let q = (p.0 + d.offset().0, p.1 + d.offset().1);
        if in_grid(self.width, self.height, q) {
            Some(q)
        } else if self.teleport {
            Some((q.0 % (self.width as int), q.1 % (self.height as int)))
        } else {
            None
        }
    }

    /// `a` is one move away from `b`.
    pub open spec fn adjacent(self, a: Pos, b: Pos) -> bool {
        ||| self.neighbor(b, Direction::Up) == Some(a)
        ||| self.neighbor(b, Direction::Left) == Some(a)
        ||| self.neighbor(b, Direction::Down) == Some(a)
        ||| self.neighbor(b, Direction::Right) == Some(a)
    }

    // ----- events -----

    /// A request of player `name` to head in direction `d`.
    pub open spec fn steer(self, name: Seq<char>, d: Direction) -> GameModel {
        if self.has_player(name) {
            let i = self.index_of(name);
            GameModel { snakes: self.snakes.update(i, self.snakes[i].steered(d)), ..self }
        } else {
            self
        }
    }

    /// Player `name` leaves: the snake is struck from the roster and its
    /// cells are emptied.
    pub open spec fn leave(self, name: Seq<char>) -> GameModel {
        if self.has_player(name) {
            let i = self.index_of(name);
            GameModel {
                snakes: self.snakes.remove(i),
                cells: cleared(self.cells, self.snakes[i].body),
                ..self
            }
        } else {
            self
        }
    }

    /// Whether a player called `name` may still join.
    pub open spec fn can_join(self, name: Seq<char>) -> bool {
        self.snakes.len() < self.max_players && !self.has_player(name)
    }

    /// `p` is on the grid, and its cell is empty.
    pub open spec fn is_empty_cell(self, p: Pos) -> bool {
        self.cells.dom().contains(p) && self.cells[p] == Cell::Empty
    }

    /// Some cell of the grid is empty.
    pub open spec fn has_empty_cell(self) -> bool {
        exists|p: Pos| self.is_empty_cell(p)
    }

    /// Snake `i` bears the id `id`.
    pub open spec fn has_id(self, i: int, id: usize) -> bool {
        0 <= i < self.snakes.len() && self.snakes[i].id == id
    }

    /// Some snake of the roster bears the id `id`.
    pub open spec fn bears(self, id: usize) -> bool {
        exists|i: int| #[trigger] self.has_id(i, id)
    }

    /// `id` is the least id that no snake of the roster bears.
    pub open spec fn is_fresh(self, id: usize) -> bool {
        !self.bears(id) && forall|lower: usize| lower < id ==> #[trigger] self.bears(lower)
    }

    /// The id of the next snake to join: the least that no snake of the
    /// roster bears.
    pub open spec fn fresh_id(self) -> usize {
        choose|id: usize| self.is_fresh(id)
    }

    /// Player `name` joins with a one-segment snake at `p`, under an id
    /// that no snake of the roster bears: see [`GameModel::fresh_id`].
    pub open spec fn join(self, name: Seq<char>, p: Pos) -> GameModel {
        let id = self.fresh_id();
        GameModel {
            snakes: self.snakes.push(SnakeModel::fresh(name, id, p)),
            cells: self.cells.insert(p, Cell::Player(id)),
            ..self
        }
    }

    /// What a connect request of player `name` may lead to: the player joins
    /// on some empty cell if joining is allowed and there is such a cell,
    /// and nothing changes otherwise.
    pub open spec fn connects(self, name: Seq<char>, next: GameModel) -> bool {
        if self.can_join(name) && self.has_empty_cell() {
            exists|p: Pos| self.is_empty_cell(p) && next == #[trigger] self.join(name, p)
        } else {
            next == self
        }
    }

    /// A piece of food is put at `p`.
    pub open spec fn with_food(self, p: Pos) -> GameModel {
        GameModel { food: self.food.push(p), cells: self.cells.insert(p, Cell::Food), ..self }
    }

    /// How many pieces of food are missing.
    pub open spec fn missing_food(self) -> nat {
        if self.food.len() < self.food_amount {
            (self.food_amount - self.food.len()) as nat
        } else {
            0
        }
    }

    /// Restocking before the first draw: every missing piece is still to
    /// be placed.
    pub open spec fn restock_start(self) -> Restock {
        Restock { game: self, pieces: self.missing_food(), tries: FOOD_ATTEMPTS as nat }
    }

    /// Restocking after the positions of `draws` have been drawn, one after
    /// the other.
    pub open spec fn restock_after(self, draws: Seq<Pos>) -> Restock
        decreases draws.len(),
    {
        if draws.len() == 0 {
            self.restock_start()
        } else {
            self.restock_after(draws.drop_last()).drawn(draws.last())
        }
    }

    /// How many pieces were given up while the positions of `draws` were
    /// drawn: those whose tries all hit a cell that was not empty.
    pub open spec fn given_up(self, draws: Seq<Pos>) -> nat
        decreases draws.len(),
    {
        if draws.len() == 0 {
            0
        } else {
            self.given_up(draws.drop_last()) + if self.restock_after(draws.drop_last()).gives_up(
                draws.last(),
            ) {
                1nat
            } else {
                0nat
            }
        }
    }

    /// Every position of `draws` is on the grid.
    pub open spec fn on_grid(self, draws: Seq<Pos>) -> bool {
        forall|k: int| 0 <= k < draws.len() ==> self.cells.dom().contains(#[trigger] draws[k])
    }

    /// The positions of `draws`, all on the grid, settle every missing
    /// piece and leave the game `next`.
    pub open spec fn restocked_by(self, draws: Seq<Pos>, next: GameModel) -> bool {
        &&& self.on_grid(draws)
        &&& self.restock_after(draws).pieces == 0
        &&& self.restock_after(draws).game == next
    }

    /// What restocking may lead to. On a grid without cells nothing
    /// changes. Otherwise positions of the grid are drawn until every
    /// missing piece is settled: each piece takes the first of its draws
    /// that hits an empty cell, and is given up when [`FOOD_ATTEMPTS`]
    /// draws have missed.
    pub open spec fn restocks(self, next: GameModel) -> bool {
        if self.width == 0 || self.height == 0 {
            next == self
        } else {
            exists|draws: Seq<Pos>| #[trigger] self.restocked_by(draws, next)
        }
    }

    /// What one event may lead to. A movement steers the owner's snake, a
    /// disconnect removes it, and a connect lets the owner join on some
    /// empty cell.
    pub open spec fn handles(self, event: EventModel, next: GameModel) -> bool {
        match event.event_type {
            SnakeEventType::Movement(d) => next == self.steer(event.owner, d),
            SnakeEventType::Signal(Signal::Disconnect) => next == self.leave(event.owner),
            SnakeEventType::Signal(Signal::Connect) => self.connects(event.owner, next),
        }
    }

    /// What a queue of events may lead to, each applied to what the one
    /// before it left.
    pub open spec fn handles_all(self, events: Seq<EventModel>, next: GameModel) -> bool
        decreases events.len(),
    {
        if events.len() == 0 {
            next == self
        } else {
            exists|mid: GameModel|
                #![trigger mid.handles(events.last(), next)]
                self.handles_all(events.drop_last(), mid) && mid.handles(events.last(), next)
        }
    }

    /// What one round of the simulation may lead to: the queued events are
    /// applied in order, the game advances by one tick, and missing food is
    /// restocked.
    pub open spec fn rounds(self, events: Seq<EventModel>, next: GameModel) -> bool {
        exists|mid: GameModel|
            #![trigger mid.step()]
            self.handles_all(events, mid) && mid.step().restocks(next)
    }

    // ----- the tick -----

    /// Snake `i` dies: it is marked, and its cells are emptied.
    pub open spec fn kill(self, i: int) -> GameModel {
        GameModel {
            snakes: self.snakes.update(i, self.snakes[i].dead()),
            cells: cleared(self.cells, self.snakes[i].body),
            ..self
        }
    }

    /// Snake `i` is struck from the roster; the table is left as it is.
    pub open spec fn strike(self, i: int) -> GameModel {
        GameModel { snakes: self.snakes.remove(i), ..self }
    }

    /// Snake `i` moves its head into `p`. When it `grows`, the food at `p` is
    /// eaten and the tail stays; otherwise the tail's cell is vacated.
    pub open spec fn enter(self, i: int, p: Pos, grows: bool) -> GameModel {
        let s = self.snakes[i];
        GameModel {
            snakes: self.snakes.update(i, s.moved(p, grows)),
            food: if grows {
                self.food.filter(other_than(p))
            } else {
                self.food
            },
            cells: if grows {
                self.cells.insert(p, Cell::Player(s.id))
            } else {
                self.cells.insert(s.body.last(), Cell::Empty).insert(p, Cell::Player(s.id))
            },
            ..self
        }
    }

    /// The turn of snake `i` within a tick. A snake that stands still or is
    /// dead is passed over. One that heads off the grid, or into a cell that
    /// a wall or any snake occupies, dies. Otherwise it moves, and grows if
    /// it finds food.
    pub open spec fn advance(self, i: int) -> GameModel {
        let s = self.snakes[i];
        if !s.alive || s.direction == Direction::Stop {
            self
        } else {
            match self.neighbor(s.head, s.direction) {
                None => self.kill(i),
                Some(p) => match self.cells[p] {
                    Cell::Empty => self.enter(i, p, false),
                    Cell::Food => self.enter(i, p, true),
                    _ => self.kill(i),
                },
            }
        }
    }

    /// The state after the first `n` snakes of the roster have had their
    /// turn, one after the other.
    pub open spec fn advance_all(self, n: nat) -> GameModel
        decreases n,
    {
        if n == 0 {
            self
        } else {
            self.advance_all((n - 1) as nat).advance(n - 1)
        }
    }

    /// The game with the dead struck from the roster.
    pub open spec fn survivors(self) -> GameModel {
        GameModel { snakes: self.snakes.filter(is_alive()), ..self }
    }

    /// One tick: every snake has its turn in roster order, then the dead are
    /// struck from the roster.
    pub open spec fn step(self) -> GameModel {
        self.advance_all(self.snakes.len()).survivors()
    }

    // ----- invariants -----

    /// Segment `k` of live snake `i`.
    pub open spec fn is_segment(self, i: int, k: int) -> bool {
        0 <= i < self.snakes.len() && self.snakes[i].alive && 0 <= k < self.snakes[i].body.len()
    }

    /// Segment `k` of live snake `i` lies at `p`, and the table records it.
    pub open spec fn occupies(self, i: int, k: int, p: Pos) -> bool {
        &&& self.is_segment(i, k)
        &&& self.snakes[i].body[k] == p
        &&& self.cells[p] == Cell::Player(self.snakes[i].id)
    }

    /// What the table says of `p` is borne out by an entity: a player's cell
    /// by a segment of a live snake with that id, a food cell by an entry of
    /// the food list. No cell of the grid is `Void`.
    pub open spec fn justified(self, p: Pos) -> bool {
        match self.cells[p] {
            Cell::Void => false,
            Cell::Player(_) => exists|i: int, k: int| #[trigger] self.occupies(i, k, p),
            Cell::Food => self.food.contains(p),
            Cell::Wall => true,
            Cell::Empty => true,
        }
    }

    /// Segment `k` of snake `i` is one move away from the segment behind it.
    pub open spec fn linked(self, i: int, k: int) -> bool {
        self.adjacent(self.snakes[i].body[k], self.snakes[i].body[k + 1])
    }

    /// The table covers exactly the grid.
    pub open spec fn table_fits(self) -> bool {
        forall|p: Pos| self.cells.dom().contains(p) <==> in_grid(self.width, self.height, p)
    }

    /// The roster and its cap can be counted in machine integers, as the
    /// ids are.
    pub open spec fn countable(self) -> bool {
        self.snakes.len() <= usize::MAX && self.max_players <= usize::MAX
    }

    /// Every snake has a body that starts at its head.
    pub open spec fn snakes_shaped(self) -> bool {
        forall|i: int| 0 <= i < self.snakes.len() ==> (#[trigger] self.snakes[i]).shaped()
    }

    /// Every segment of a live snake is on the grid, in a cell that the
    /// table gives to that snake.
    pub open spec fn segments_recorded(self) -> bool {
        forall|i: int, k: int| #[trigger]
            self.is_segment(i, k) ==> self.cells.dom().contains(self.snakes[i].body[k])
                && self.cells[self.snakes[i].body[k]] == Cell::Player(self.snakes[i].id)
    }

    /// No two segments of live snakes share a position.
    pub open spec fn segments_apart(self) -> bool {
        forall|i: int, k: int, j: int, l: int|
            #[trigger] self.is_segment(i, k) && #[trigger] self.is_segment(j, l)
                && self.snakes[i].body[k] == self.snakes[j].body[l] ==> i == j && k == l
    }

    /// Every piece of food is on the grid, in a cell marked as food.
    pub open spec fn food_recorded(self) -> bool {
        forall|f: int|
            0 <= f < self.food.len() ==> self.cells.dom().contains(#[trigger] self.food[f])
                && self.cells[self.food[f]] == Cell::Food
    }

    /// An entity stands behind what the table says of every cell.
    pub open spec fn table_justified(self) -> bool {
        forall|p: Pos| self.cells.dom().contains(p) ==> #[trigger] self.justified(p)
    }

    /// No two snakes of the roster bear the same id, so that a cell of a
    /// player names one snake.
    pub open spec fn ids_unique(self) -> bool {
        forall|i: int, j: int|
            0 <= i < self.snakes.len() && 0 <= j < self.snakes.len() && (
            #[trigger] self.snakes[i]).id == (#[trigger] self.snakes[j]).id ==> i == j
    }

    /// No two snakes of the roster bear the same name.
    pub open spec fn names_unique(self) -> bool {
        forall|i: int, j: int|
            0 <= i < self.snakes.len() && 0 <= j < self.snakes.len() && (
            #[trigger] self.snakes[i]).name == (#[trigger] self.snakes[j]).name ==> i == j
    }

    /// Every body is a chain of positions, each one move away from the next.
    pub open spec fn bodies_chained(self) -> bool {
        forall|i: int, k: int|
            0 <= i < self.snakes.len() && 0 <= k < self.snakes[i].body.len() - 1
                ==> #[trigger] self.linked(i, k)
    }

    /// What holds at every moment of a tick: the table and the entities
    /// agree, where a dead snake counts for nothing.
    pub open spec fn coherent(self) -> bool {
        &&& self.table_fits()
        &&& self.countable()
        &&& self.snakes_shaped()
        &&& self.segments_recorded()
        &&& self.segments_apart()
        &&& self.food_recorded()
        &&& self.food.no_duplicates()
        &&& self.table_justified()
        &&& self.names_unique()
        &&& self.ids_unique()
        &&& self.bodies_chained()
    }

    /// No snake of the roster is dead.
    pub open spec fn all_alive(self) -> bool {
        forall|i: int| 0 <= i < self.snakes.len() ==> (#[trigger] self.snakes[i]).alive
    }

    /// What holds between ticks: the state is coherent and no snake of the
    /// roster is dead.
    pub open spec fn wf(self) -> bool {
        self.coherent() && self.all_alive()
    }
}

} // verus!
