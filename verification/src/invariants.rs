//! Proofs that every event and every turn of a tick keeps the game coherent.

use vstd::prelude::*;
use crate::grid::{in_grid, Cell};
use crate::game::FOOD_ATTEMPTS;
use crate::model::{is_alive, other_than, GameModel};
use crate::net::{EventModel, Signal, SnakeEventType};
use crate::snake::{Direction, Pos, SnakeModel};

verus! {

/// A move from a position of a non-degenerate grid ends on the grid, if it
/// ends anywhere.
pub proof fn lemma_neighbor_on_grid(g: GameModel, p: Pos, d: Direction)
    requires
        in_grid(g.width, g.height, p),
        g.neighbor(p, d) is Some,
    ensures
        in_grid(g.width, g.height, g.neighbor(p, d).unwrap()),
{
    let q = (p.0 + d.offset().0, p.1 + d.offset().1);
    if !in_grid(g.width, g.height, q) {
        let w = g.width as int;
        let h = g.height as int;
        assert(0 <= q.0 % w < w) by (nonlinear_arith)
            requires
                w > 0,
        ;
        assert(0 <= q.1 % h < h) by (nonlinear_arith)
            requires
                h > 0,
        ;
    }
}

/// A live snake's cells belong to it alone: no other live snake and no food
/// lies on them.
pub proof fn lemma_kill_coherent(g: GameModel, i: int)
    requires
        g.coherent(),
        0 <= i < g.snakes.len(),
        g.snakes[i].alive,
    ensures
        g.kill(i).coherent(),
        g.kill(i).snakes.len() == g.snakes.len(),
{
    let n = g.kill(i);
    let body = g.snakes[i].body;
    assert(n.table_fits());
    assert(n.snakes_shaped()) by {
        assert forall|j: int| 0 <= j < n.snakes.len() implies (#[trigger] n.snakes[j]).shaped() by {
            assert(g.snakes[j].shaped());
        }
    }
    assert forall|j: int, k: int| #[trigger] n.is_segment(j, k) implies !body.contains(
        n.snakes[j].body[k],
    ) && g.is_segment(j, k) && j != i by {
        assert(g.is_segment(j, k));
        if body.contains(n.snakes[j].body[k]) {
            let m = choose|m: int| 0 <= m < body.len() && body[m] == n.snakes[j].body[k];
            assert(g.is_segment(i, m));
        }
    }
    assert(n.segments_recorded());
    assert(n.segments_apart());
    assert(n.food_recorded()) by {
        assert forall|f: int| 0 <= f < n.food.len() implies n.cells.dom().contains(
            #[trigger] n.food[f],
        ) && n.cells[n.food[f]] == Cell::Food by {
            if body.contains(g.food[f]) {
                let m = choose|m: int| 0 <= m < body.len() && body[m] == g.food[f];
                assert(g.is_segment(i, m));
            }
        }
    }
    assert(n.table_justified()) by {
        assert forall|p: Pos| n.cells.dom().contains(p) implies #[trigger] n.justified(p) by {
            assert(g.justified(p));
            if !body.contains(p) {
                if g.cells[p] is Player {
                    let (j, k) = choose|j: int, k: int| #[trigger] g.occupies(j, k, p);
                    assert(j != i) by {
                        if j == i {
                            assert(body[k] == p);
                        }
                    }
                    assert(n.occupies(j, k, p));
                }
            }
        }
    }
    assert(n.names_unique()) by {
        assert forall|a: int, b: int|
            0 <= a < n.snakes.len() && 0 <= b < n.snakes.len() && (#[trigger] n.snakes[a]).name == (
            #[trigger] n.snakes[b]).name implies a == b by {
            assert(g.snakes[a].name == g.snakes[b].name);
        }
    }
    assert(n.ids_unique()) by {
        assert forall|a: int, b: int|
            0 <= a < n.snakes.len() && 0 <= b < n.snakes.len() && (#[trigger] n.snakes[a]).id == (
            #[trigger] n.snakes[b]).id implies a == b by {
            assert(g.snakes[a].id == g.snakes[b].id);
        }
    }
    assert(n.bodies_chained()) by {
        assert forall|j: int, k: int|
            0 <= j < n.snakes.len() && 0 <= k < n.snakes[j].body.len() - 1 implies #[trigger] n.linked(
            j,
            k,
        ) by {
            assert(g.linked(j, k));
        }
    }
}

/// Filtering a sequence without repetitions leaves one without repetitions.
pub proof fn lemma_filter_no_duplicates<A>(s: Seq<A>, pred: spec_fn(A) -> bool)
    requires
        s.no_duplicates(),
    ensures
        s.filter(pred).no_duplicates(),
    decreases s.len(),
{
    reveal(Seq::filter);
    if s.len() > 0 {
        let rest = s.drop_last();
        lemma_filter_no_duplicates(rest, pred);
        let kept = rest.filter(pred);
        if pred(s.last()) {
            assert forall|a: int| 0 <= a < kept.len() implies kept[a] != s.last() by {
                rest.lemma_filter_contains_rev(pred, kept[a]);
                let b = choose|b: int| 0 <= b < rest.len() && rest[b] == kept[a];
                assert(s[b] == kept[a]);
            }
        }
    }
}

/// A snake that moves into an empty cell, or into one with food, keeps the
/// game coherent.
pub proof fn lemma_enter_coherent(g: GameModel, i: int, p: Pos, grows: bool)
    requires
        g.coherent(),
        0 <= i < g.snakes.len(),
        g.snakes[i].alive,
        g.snakes[i].direction != Direction::Stop,
        g.neighbor(g.snakes[i].head, g.snakes[i].direction) == Some(p),
        g.cells[p] == (if grows {
            Cell::Food
        } else {
            Cell::Empty
        }),
    ensures
        g.enter(i, p, grows).coherent(),
        g.enter(i, p, grows).snakes.len() == g.snakes.len(),
        g.cells.dom().contains(p),
{
    let n = g.enter(i, p, grows);
    let s = g.snakes[i];
    let body = s.body;
    let len = body.len() as int;
    let tail = body.last();
    let nb = n.snakes[i].body;
    assert(g.snakes[i].shaped());
    assert(g.is_segment(i, 0));
    assert(g.is_segment(i, len - 1));
    lemma_neighbor_on_grid(g, s.head, s.direction);
    assert(g.cells.dom().contains(p));
    assert(nb[0] == p);
    assert(forall|k: int| 1 <= k < nb.len() ==> nb[k] == body[k - 1]);
    assert(n.table_fits());
    assert(n.snakes_shaped()) by {
        assert forall|j: int| 0 <= j < n.snakes.len() implies (#[trigger] n.snakes[j]).shaped() by {
            assert(g.snakes[j].shaped());
        }
    }
    // Every segment of the new state but the new head is a segment of the old one.
    assert forall|j: int, k: int| #[trigger] n.is_segment(j, k) && !(j == i && k == 0) implies {
        let k0 = if j == i {
            k - 1
        } else {
            k
        };
        &&& g.is_segment(j, k0)
        &&& n.snakes[j].body[k] == g.snakes[j].body[k0]
        &&& n.snakes[j].body[k] != p
        &&& n.cells[n.snakes[j].body[k]] == g.cells[n.snakes[j].body[k]]
    } by {
        let k0 = if j == i {
            k - 1
        } else {
            k
        };
        assert(g.is_segment(j, k0));
        if !grows && g.snakes[j].body[k0] == tail {
            assert(g.is_segment(i, len - 1));
        }
    }
    assert(n.segments_recorded());
    assert(n.segments_apart()) by {
        assert forall|j: int, k: int, a: int, b: int|
            #[trigger] n.is_segment(j, k) && #[trigger] n.is_segment(a, b) && n.snakes[j].body[k]
                == n.snakes[a].body[b] implies j == a && k == b by {
            let k0 = if j == i {
                k - 1
            } else {
                k
            };
            let b0 = if a == i {
                b - 1
            } else {
                b
            };
            if !(j == i && k == 0) && !(a == i && b == 0) {
                assert(g.is_segment(j, k0) && g.is_segment(a, b0));
            }
        }
    }
    if grows {
        lemma_filter_no_duplicates(g.food, other_than(p));
    }
    assert(n.food_recorded()) by {
        assert forall|f: int| 0 <= f < n.food.len() implies n.cells.dom().contains(
            #[trigger] n.food[f],
        ) && n.cells[n.food[f]] == Cell::Food by {
            let x = n.food[f];
            if grows {
                g.food.lemma_filter_pred(other_than(p), f);
                g.food.lemma_filter_contains_rev(other_than(p), x);
                let f0 = choose|f0: int| 0 <= f0 < g.food.len() && g.food[f0] == x;
                assert(g.cells[g.food[f0]] == Cell::Food);
            } else {
                assert(g.cells[g.food[f]] == Cell::Food);
            }
        }
    }
    assert(n.table_justified()) by {
        assert forall|q: Pos| n.cells.dom().contains(q) implies #[trigger] n.justified(q) by {
            assert(g.justified(q));
            if q == p {
                assert(n.occupies(i, 0, q));
            } else if !grows && q == tail {
            } else {
                assert(n.cells[q] == g.cells[q]);
                if g.cells[q] is Player {
                    let (j, k) = choose|j: int, k: int| #[trigger] g.occupies(j, k, q);
                    if j == i {
                        assert(n.occupies(i, k + 1, q));
                    } else {
                        assert(n.occupies(j, k, q));
                    }
                } else if g.cells[q] == Cell::Food {
                    if grows {
                        let f0 = choose|f0: int| 0 <= f0 < g.food.len() && g.food[f0] == q;
                        g.food.lemma_filter_contains(other_than(p), f0);
                    }
                }
            }
        }
    }
    assert(n.names_unique()) by {
        assert forall|a: int, b: int|
            0 <= a < n.snakes.len() && 0 <= b < n.snakes.len() && (#[trigger] n.snakes[a]).name == (
            #[trigger] n.snakes[b]).name implies a == b by {
            assert(g.snakes[a].name == g.snakes[b].name);
        }
    }
    assert(n.ids_unique()) by {
        assert forall|a: int, b: int|
            0 <= a < n.snakes.len() && 0 <= b < n.snakes.len() && (#[trigger] n.snakes[a]).id == (
            #[trigger] n.snakes[b]).id implies a == b by {
            assert(g.snakes[a].id == g.snakes[b].id);
        }
    }
    assert(n.bodies_chained()) by {
        assert forall|j: int, k: int|
            0 <= j < n.snakes.len() && 0 <= k < n.snakes[j].body.len() - 1 implies #[trigger] n.linked(
            j,
            k,
        ) by {
            if j != i {
                assert(g.linked(j, k));
            } else if k > 0 {
                assert(g.linked(i, k - 1));
            }
        }
    }
}

/// Whatever a snake meets on its turn, the game stays coherent and the
/// roster keeps its length.
pub proof fn lemma_advance_coherent(g: GameModel, i: int)
    requires
        g.coherent(),
        0 <= i < g.snakes.len(),
    ensures
        g.advance(i).coherent(),
        g.advance(i).snakes.len() == g.snakes.len(),
{
    let s = g.snakes[i];
    if s.alive && s.direction != Direction::Stop {
        match g.neighbor(s.head, s.direction) {
            None => {
                lemma_kill_coherent(g, i);
            },
            Some(p) => {
                match g.cells[p] {
                    Cell::Empty => {
                        lemma_enter_coherent(g, i, p, false);
                    },
                    Cell::Food => {
                        lemma_enter_coherent(g, i, p, true);
                    },
                    _ => {
                        lemma_kill_coherent(g, i);
                    },
                }
            },
        }
    }
}

/// The turns of the first `n` snakes keep the game coherent.
pub proof fn lemma_advance_all_coherent(g: GameModel, n: nat)
    requires
        g.coherent(),
        n <= g.snakes.len(),
    ensures
        g.advance_all(n).coherent(),
        g.advance_all(n).snakes.len() == g.snakes.len(),
    decreases n,
{
    if n > 0 {
        lemma_advance_all_coherent(g, (n - 1) as nat);
        lemma_advance_coherent(g.advance_all((n - 1) as nat), n - 1);
    }
}

/// A dead snake can be struck from the roster: nothing in the table rests
/// on it.
pub proof fn lemma_strike_coherent(g: GameModel, i: int)
    requires
        g.coherent(),
        0 <= i < g.snakes.len(),
        !g.snakes[i].alive,
    ensures
        g.strike(i).coherent(),
{
    let n = g.strike(i);
    assert forall|j: int| 0 <= j < n.snakes.len() implies #[trigger] n.snakes[j] == g.snakes[if j
        < i {
        j
    } else {
        j + 1
    }] by {}
    assert(n.snakes_shaped()) by {
        assert forall|j: int| 0 <= j < n.snakes.len() implies (#[trigger] n.snakes[j]).shaped() by {
            assert(g.snakes[if j < i {
                j
            } else {
                j + 1
            }].shaped());
        }
    }
    assert forall|j: int, k: int| #[trigger] n.is_segment(j, k) implies g.is_segment(
        if j < i {
            j
        } else {
            j + 1
        },
        k,
    ) by {}
    assert(n.segments_recorded());
    assert(n.segments_apart()) by {
        assert forall|j: int, k: int, a: int, b: int|
            #[trigger] n.is_segment(j, k) && #[trigger] n.is_segment(a, b) && n.snakes[j].body[k]
                == n.snakes[a].body[b] implies j == a && k == b by {
            let j0 = if j < i {
                j
            } else {
                j + 1
            };
            let a0 = if a < i {
                a
            } else {
                a + 1
            };
            assert(g.is_segment(j0, k) && g.is_segment(a0, b));
        }
    }
    assert(n.table_justified()) by {
        assert forall|q: Pos| n.cells.dom().contains(q) implies #[trigger] n.justified(q) by {
            assert(g.justified(q));
            if g.cells[q] is Player {
                let (j, k) = choose|j: int, k: int| #[trigger] g.occupies(j, k, q);
                let j1 = if j < i {
                    j
                } else {
                    j - 1
                };
                assert(n.snakes[j1] == g.snakes[j]);
                assert(n.occupies(j1, k, q));
            }
        }
    }
    assert(n.names_unique()) by {
        assert forall|a: int, b: int|
            0 <= a < n.snakes.len() && 0 <= b < n.snakes.len() && (#[trigger] n.snakes[a]).name == (
            #[trigger] n.snakes[b]).name implies a == b by {
            let a0 = if a < i {
                a
            } else {
                a + 1
            };
            let b0 = if b < i {
                b
            } else {
                b + 1
            };
            assert(g.snakes[a0].name == g.snakes[b0].name);
        }
    }
    assert(n.ids_unique()) by {
        assert forall|a: int, b: int|
            0 <= a < n.snakes.len() && 0 <= b < n.snakes.len() && (#[trigger] n.snakes[a]).id == (
            #[trigger] n.snakes[b]).id implies a == b by {
            let a0 = if a < i {
                a
            } else {
                a + 1
            };
            let b0 = if b < i {
                b
            } else {
                b + 1
            };
            assert(g.snakes[a0].id == g.snakes[b0].id);
        }
    }
    assert(n.bodies_chained()) by {
        assert forall|j: int, k: int|
            0 <= j < n.snakes.len() && 0 <= k < n.snakes[j].body.len() - 1 implies #[trigger] n.linked(
            j,
            k,
        ) by {
            let j0 = if j < i {
                j
            } else {
                j + 1
            };
            assert(g.linked(j0, k));
        }
    }
}

/// A filter that every element passes changes nothing.
pub proof fn lemma_filter_all<A>(s: Seq<A>, pred: spec_fn(A) -> bool)
    requires
        forall|i: int| 0 <= i < s.len() ==> pred(#[trigger] s[i]),
    ensures
        s.filter(pred) == s,
    decreases s.len(),
{
    reveal(Seq::filter);
    if s.len() > 0 {
        lemma_filter_all(s.drop_last(), pred);
        assert(s.drop_last().push(s.last()) =~= s);
    }
}

/// An element that fails the filter can be removed beforehand.
pub proof fn lemma_filter_remove<A>(s: Seq<A>, pred: spec_fn(A) -> bool, i: int)
    requires
        0 <= i < s.len(),
        !pred(s[i]),
    ensures
        s.filter(pred) == s.remove(i).filter(pred),
{
    let front = s.take(i);
    let back = s.skip(i + 1);
    assert(s =~= front.push(s[i]) + back);
    assert(s.remove(i) =~= front + back);
    front.lemma_filter_push(s[i], pred);
    Seq::filter_distributes_over_add(front.push(s[i]), back, pred);
    Seq::filter_distributes_over_add(front, back, pred);
}

/// Striking the dead from a coherent game leaves a well-formed one.
pub proof fn lemma_survivors_wf(g: GameModel)
    requires
        g.coherent(),
    ensures
        g.survivors().wf(),
    decreases g.snakes.len(),
{
    if g.all_alive() {
        lemma_filter_all(g.snakes, is_alive());
        assert(g.survivors() =~= g);
    } else {
        let i = choose|i: int| 0 <= i < g.snakes.len() && !(#[trigger] g.snakes[i]).alive;
        lemma_strike_coherent(g, i);
        lemma_survivors_wf(g.strike(i));
        lemma_filter_remove(g.snakes, is_alive(), i);
        assert(g.survivors() =~= g.strike(i).survivors());
    }
}

/// A tick takes a well-formed game to a well-formed game.
pub proof fn lemma_step_wf(g: GameModel)
    requires
        g.wf(),
    ensures
        g.step().wf(),
{
    lemma_advance_all_coherent(g, g.snakes.len());
    lemma_survivors_wf(g.advance_all(g.snakes.len()));
}

/// A game without players or food is well-formed.
pub proof fn lemma_empty_wf(
    width: nat,
    height: nat,
    food_amount: nat,
    max_players: nat,
    teleport: bool,
)
    requires
        max_players <= usize::MAX,
    ensures
        GameModel::empty(width, height, food_amount, max_players, teleport).wf(),
{
}

/// Where names are unique, a name has one place in the roster.
pub proof fn lemma_index_of(g: GameModel, name: Seq<char>, i: int)
    requires
        g.names_unique(),
        g.names(i, name),
    ensures
        g.has_player(name),
        g.index_of(name) == i,
{
    let j = g.index_of(name);
    assert(g.names(j, name));
    assert(g.snakes[i].name == g.snakes[j].name);
}

/// Steering changes a heading and nothing that the invariants speak of.
pub proof fn lemma_steer_wf(g: GameModel, name: Seq<char>, d: Direction)
    requires
        g.wf(),
    ensures
        g.steer(name, d).wf(),
{
    let n = g.steer(name, d);
    if g.has_player(name) {
        let i = g.index_of(name);
        assert(g.names(i, name));
        assert forall|j: int| 0 <= j < n.snakes.len() implies {
            &&& (#[trigger] n.snakes[j]).body == g.snakes[j].body
            &&& n.snakes[j].head == g.snakes[j].head
            &&& n.snakes[j].name == g.snakes[j].name
            &&& n.snakes[j].id == g.snakes[j].id
            &&& n.snakes[j].alive == g.snakes[j].alive
        } by {}
        assert(n.snakes_shaped()) by {
            assert forall|j: int| 0 <= j < n.snakes.len() implies (#[trigger] n.snakes[j]).shaped() by {
                assert(g.snakes[j].shaped());
            }
        }
        assert forall|j: int, k: int| #[trigger] n.is_segment(j, k) implies g.is_segment(j, k) by {}
        assert(n.segments_recorded());
        assert(n.segments_apart());
        assert(n.table_justified()) by {
            assert forall|q: Pos| n.cells.dom().contains(q) implies #[trigger] n.justified(q) by {
                assert(g.justified(q));
                if g.cells[q] is Player {
                    let (j, k) = choose|j: int, k: int| #[trigger] g.occupies(j, k, q);
                    assert(n.occupies(j, k, q));
                }
            }
        }
        assert(n.names_unique()) by {
            assert forall|a: int, b: int|
                0 <= a < n.snakes.len() && 0 <= b < n.snakes.len() && (#[trigger] n.snakes[a]).name
                    == (#[trigger] n.snakes[b]).name implies a == b by {
                assert(g.snakes[a].name == g.snakes[b].name);
            }
        }
        assert(n.ids_unique()) by {
            assert forall|a: int, b: int|
                0 <= a < n.snakes.len() && 0 <= b < n.snakes.len() && (#[trigger] n.snakes[a]).id
                    == (#[trigger] n.snakes[b]).id implies a == b by {
                assert(g.snakes[a].id == g.snakes[b].id);
            }
        }
        assert(n.bodies_chained()) by {
            assert forall|j: int, k: int|
                0 <= j < n.snakes.len() && 0 <= k < n.snakes[j].body.len() - 1 implies #[trigger] n.linked(
                j,
                k,
            ) by {
                assert(g.linked(j, k));
            }
        }
        assert(n.all_alive()) by {
            assert forall|j: int| 0 <= j < n.snakes.len() implies (#[trigger] n.snakes[j]).alive by {
                assert(g.snakes[j].alive);
            }
        }
    }
}

/// A player who leaves takes every trace of the snake along.
pub proof fn lemma_leave_wf(g: GameModel, name: Seq<char>)
    requires
        g.wf(),
    ensures
        g.leave(name).wf(),
        g.has_player(name) ==> g.leave(name) == g.kill(g.index_of(name)).strike(g.index_of(name)),
{
    if g.has_player(name) {
        let i = g.index_of(name);
        assert(g.names(i, name));
        assert(g.snakes[i].alive);
        lemma_kill_coherent(g, i);
        lemma_strike_coherent(g.kill(i), i);
        let n = g.kill(i).strike(i);
        assert(n.snakes =~= g.snakes.remove(i));
        assert(n =~= g.leave(name));
        assert(n.all_alive()) by {
            assert forall|j: int| 0 <= j < n.snakes.len() implies (#[trigger] n.snakes[j]).alive by {
                assert(g.snakes[if j < i {
                    j
                } else {
                    j + 1
                }].alive);
            }
        }
    }
}

/// Among the ids up to the length of a sequence, the sequence misses one.
pub proof fn lemma_some_id_is_free(ids: Seq<usize>) -> (c: int)
    ensures
        0 <= c <= ids.len(),
        forall|i: int| 0 <= i < ids.len() ==> ids[i] != c,
    decreases ids.len(),
{
    let n = ids.len();
    if exists|i: int| 0 <= i < n && ids[i] == n {
        let j = choose|i: int| 0 <= i < n && ids[i] == n;
        let rest = ids.remove(j);
        let c = lemma_some_id_is_free(rest);
        assert forall|i: int| 0 <= i < n implies ids[i] != c by {
            if i < j {
                assert(rest[i] == ids[i]);
            } else if i > j {
                assert(rest[i - 1] == ids[i]);
            }
        }
        c
    } else {
        n as int
    }
}

/// Below an id that no snake bears lies the least such id.
pub proof fn lemma_least_free_id(g: GameModel, c: usize) -> (id: usize)
    requires
        !g.bears(c),
    ensures
        id <= c,
        g.is_fresh(id),
    decreases c,
{
    if forall|lower: usize| lower < c ==> #[trigger] g.bears(lower) {
        c
    } else {
        let lower = choose|lower: usize| lower < c && !g.bears(lower);
        lemma_least_free_id(g, lower)
    }
}

/// There is a fresh id, there is only one, and it is at most the length of
/// the roster.
pub proof fn lemma_fresh_id(g: GameModel)
    requires
        g.snakes.len() <= usize::MAX,
    ensures
        g.is_fresh(g.fresh_id()),
        g.fresh_id() <= g.snakes.len(),
        forall|id: usize| g.is_fresh(id) ==> id == g.fresh_id(),
{
    let ids = g.snakes.map_values(|s: SnakeModel| s.id);
    let c = lemma_some_id_is_free(ids) as usize;
    assert(!g.bears(c)) by {
        if g.bears(c) {
            let i = choose|i: int| #[trigger] g.has_id(i, c);
            assert(ids[i] == c);
        }
    }
    let id = lemma_least_free_id(g, c);
    let f = g.fresh_id();
    assert forall|other: usize| g.is_fresh(other) implies other == f by {
        if other < f {
            assert(g.bears(other));
        } else if f < other {
            assert(g.bears(f));
        }
    }
}

/// A new snake on an empty cell, under a name that no one bears, fits in.
pub proof fn lemma_join_wf(g: GameModel, name: Seq<char>, p: Pos)
    requires
        g.wf(),
        g.snakes.len() < usize::MAX,
        !g.has_player(name),
        g.is_empty_cell(p),
    ensures
        g.join(name, p).wf(),
{
    let n = g.join(name, p);
    let last = g.snakes.len() as int;
    assert forall|j: int| 0 <= j < last implies #[trigger] n.snakes[j] == g.snakes[j] by {}
    assert(n.snakes[last].body =~= seq![p]);
    assert(n.snakes_shaped()) by {
        assert forall|j: int| 0 <= j < n.snakes.len() implies (#[trigger] n.snakes[j]).shaped() by {
            if j < last {
                assert(g.snakes[j].shaped());
            }
        }
    }
    assert forall|j: int, k: int| #[trigger] n.is_segment(j, k) && j != last implies g.is_segment(
        j,
        k,
    ) && n.snakes[j].body[k] != p by {
        assert(g.is_segment(j, k));
    }
    assert(n.segments_recorded());
    assert(n.segments_apart()) by {
        assert forall|j: int, k: int, a: int, b: int|
            #[trigger] n.is_segment(j, k) && #[trigger] n.is_segment(a, b) && n.snakes[j].body[k]
                == n.snakes[a].body[b] implies j == a && k == b by {
            if j != last && a != last {
                assert(g.is_segment(j, k) && g.is_segment(a, b));
            }
        }
    }
    assert(n.food_recorded()) by {
        assert forall|f: int| 0 <= f < n.food.len() implies n.cells.dom().contains(
            #[trigger] n.food[f],
        ) && n.cells[n.food[f]] == Cell::Food by {
            assert(g.cells[g.food[f]] == Cell::Food);
        }
    }
    assert(n.table_justified()) by {
        assert forall|q: Pos| n.cells.dom().contains(q) implies #[trigger] n.justified(q) by {
            assert(g.justified(q));
            if q == p {
                assert(n.occupies(last, 0, q));
            } else if g.cells[q] is Player {
                let (j, k) = choose|j: int, k: int| #[trigger] g.occupies(j, k, q);
                assert(n.occupies(j, k, q));
            }
        }
    }
    assert(n.names_unique()) by {
        assert forall|a: int, b: int|
            0 <= a < n.snakes.len() && 0 <= b < n.snakes.len() && (#[trigger] n.snakes[a]).name == (
            #[trigger] n.snakes[b]).name implies a == b by {
            if a < last && b < last {
                assert(g.snakes[a].name == g.snakes[b].name);
            } else if a < last {
                assert(g.names(a, name));
            } else if b < last {
                assert(g.names(b, name));
            }
        }
    }
    assert(n.ids_unique()) by {
        lemma_fresh_id(g);
        assert forall|a: int, b: int|
            0 <= a < n.snakes.len() && 0 <= b < n.snakes.len() && (#[trigger] n.snakes[a]).id == (
            #[trigger] n.snakes[b]).id implies a == b by {
            if a < last && b < last {
                assert(g.snakes[a].id == g.snakes[b].id);
            } else if a < last {
                assert(g.has_id(a, g.fresh_id()));
            } else if b < last {
                assert(g.has_id(b, g.fresh_id()));
            }
        }
    }
    assert(n.bodies_chained()) by {
        assert forall|j: int, k: int|
            0 <= j < n.snakes.len() && 0 <= k < n.snakes[j].body.len() - 1 implies #[trigger] n.linked(
            j,
            k,
        ) by {
            assert(g.linked(j, k));
        }
    }
    assert(n.all_alive()) by {
        assert forall|j: int| 0 <= j < n.snakes.len() implies (#[trigger] n.snakes[j]).alive by {
            if j < last {
                assert(g.snakes[j].alive);
            }
        }
    }
}

/// Food put on an empty cell fits in.
pub proof fn lemma_with_food_wf(g: GameModel, p: Pos)
    requires
        g.wf(),
        g.is_empty_cell(p),
    ensures
        g.with_food(p).wf(),
{
    let n = g.with_food(p);
    let last = g.food.len() as int;
    assert forall|j: int, k: int| #[trigger] n.is_segment(j, k) implies g.is_segment(j, k)
        && n.snakes[j].body[k] != p by {
        assert(g.is_segment(j, k));
    }
    assert(n.segments_recorded());
    assert(n.segments_apart());
    assert(n.food_recorded()) by {
        assert forall|f: int| 0 <= f < n.food.len() implies n.cells.dom().contains(
            #[trigger] n.food[f],
        ) && n.cells[n.food[f]] == Cell::Food by {
            if f < last {
                assert(g.cells[g.food[f]] == Cell::Food);
            }
        }
    }
    assert(n.food.no_duplicates()) by {
        assert forall|a: int, b: int|
            0 <= a < n.food.len() && 0 <= b < n.food.len() && a != b implies n.food[a]
            != n.food[b] by {
            if a < last {
                assert(g.cells[g.food[a]] == Cell::Food);
            }
            if b < last {
                assert(g.cells[g.food[b]] == Cell::Food);
            }
        }
    }
    assert(n.table_justified()) by {
        assert forall|q: Pos| n.cells.dom().contains(q) implies #[trigger] n.justified(q) by {
            assert(g.justified(q));
            if q == p {
                assert(n.food[last] == p);
            } else if g.cells[q] is Player {
                let (j, k) = choose|j: int, k: int| #[trigger] g.occupies(j, k, q);
                assert(n.occupies(j, k, q));
            } else if g.cells[q] == Cell::Food {
                let f0 = choose|f0: int| 0 <= f0 < g.food.len() && g.food[f0] == q;
                assert(n.food[f0] == q);
            }
        }
    }
    assert(n.bodies_chained()) by {
        assert forall|j: int, k: int|
            0 <= j < n.snakes.len() && 0 <= k < n.snakes[j].body.len() - 1 implies #[trigger] n.linked(
            j,
            k,
        ) by {
            assert(g.linked(j, k));
        }
    }
}

/// Whatever is drawn, restocking keeps the game well-formed, changes no
/// snake and no setting, and adds to the end of the food list one piece
/// for every piece that it settles without giving it up.
pub proof fn lemma_restock_after(g: GameModel, draws: Seq<Pos>)
    requires
        g.wf(),
    ensures
        g.restock_after(draws).game.wf(),
        g.restock_after(draws).game.snakes == g.snakes,
        g.restock_after(draws).game.width == g.width,
        g.restock_after(draws).game.height == g.height,
        g.restock_after(draws).game.food_amount == g.food_amount,
        g.restock_after(draws).game.max_players == g.max_players,
        g.restock_after(draws).game.teleport == g.teleport,
        g.food.is_prefix_of(g.restock_after(draws).game.food),
        g.restock_after(draws).pieces + g.given_up(draws) <= g.missing_food(),
        g.restock_after(draws).game.food.len() == g.food.len() + g.missing_food()
            - g.restock_after(draws).pieces - g.given_up(draws),
        1 <= g.restock_after(draws).tries <= FOOD_ATTEMPTS,
    decreases draws.len(),
{
    if draws.len() > 0 {
        lemma_restock_after(g, draws.drop_last());
        let before = g.restock_after(draws.drop_last());
        let d = draws.last();
        if before.pieces > 0 && before.game.is_empty_cell(d) {
            lemma_with_food_wf(before.game, d);
        }
    }
}

/// A first draw that hits an empty cell places a piece, if one is missing,
/// and no later draw takes it away.
pub proof fn lemma_first_draw_places(g: GameModel, draws: Seq<Pos>)
    requires
        g.wf(),
        g.missing_food() > 0,
        draws.len() > 0,
        g.is_empty_cell(draws[0]),
    ensures
        g.restock_after(draws).game.food.len() > g.food.len(),
    decreases draws.len(),
{
    let front = draws.drop_last();
    lemma_restock_after(g, front);
    if draws.len() > 1 {
        lemma_first_draw_places(g, front);
        let before = g.restock_after(front);
        let d = draws.last();
        if before.pieces > 0 && before.game.is_empty_cell(d) {
            lemma_with_food_wf(before.game, d);
        }
    } else {
        assert(front =~= Seq::<Pos>::empty());
    }
}

/// Every event takes a well-formed game to a well-formed game.
pub proof fn lemma_handles_wf(g: GameModel, event: EventModel, next: GameModel)
    requires
        g.wf(),
        g.handles(event, next),
    ensures
        next.wf(),
{
    match event.event_type {
        SnakeEventType::Movement(d) => {
            lemma_steer_wf(g, event.owner, d);
        },
        SnakeEventType::Signal(Signal::Disconnect) => {
            lemma_leave_wf(g, event.owner);
        },
        SnakeEventType::Signal(Signal::Connect) => {
            if g.can_join(event.owner) && g.has_empty_cell() {
                assert(g.countable());
                let p = choose|p: Pos|
                    g.is_empty_cell(p) && next == #[trigger] g.join(event.owner, p);
                lemma_join_wf(g, event.owner, p);
            }
        },
    }
}

/// A queue of events takes a well-formed game to a well-formed game.
pub proof fn lemma_handles_all_wf(g: GameModel, events: Seq<EventModel>, next: GameModel)
    requires
        g.wf(),
        g.handles_all(events, next),
    ensures
        next.wf(),
    decreases events.len(),
{
    if events.len() > 0 {
        let mid = choose|mid: GameModel|
            #![trigger mid.handles(events.last(), next)]
            g.handles_all(events.drop_last(), mid) && mid.handles(events.last(), next);
        lemma_handles_all_wf(g, events.drop_last(), mid);
        lemma_handles_wf(mid, events.last(), next);
    }
}

} // verus!
