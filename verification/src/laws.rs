//! What holds of every game: the properties that players and clients may
//! rely on, stated over the model and proved from the invariants.

use vstd::prelude::*;
use crate::grid::Cell;
use crate::invariants::{
    lemma_advance_all_coherent, lemma_enter_coherent, lemma_filter_all, lemma_fresh_id,
    lemma_first_draw_places, lemma_handles_all_wf, lemma_handles_wf, lemma_index_of,
    lemma_restock_after, lemma_step_wf,
};
use crate::model::{is_alive, other_than, GameModel};
use crate::net::EventModel;
use crate::snake::{Direction, Pos};

verus! {

/// The head of every snake is the first position of its body, before a
/// tick and after it.
pub proof fn law_head_leads_body(g: GameModel)
    requires
        g.wf(),
    ensures
        forall|i: int|
            0 <= i < g.snakes.len() ==> (#[trigger] g.snakes[i]).head == g.snakes[i].body[0],
        forall|i: int|
            0 <= i < g.step().snakes.len() ==> (#[trigger] g.step().snakes[i]).head
                == g.step().snakes[i].body[0],
{
    lemma_step_wf(g);
    let n = g.step();
    assert forall|i: int| 0 <= i < g.snakes.len() implies (#[trigger] g.snakes[i]).head
        == g.snakes[i].body[0] by {
        assert(g.snakes[i].shaped());
    }
    assert forall|i: int| 0 <= i < n.snakes.len() implies (#[trigger] n.snakes[i]).head
        == n.snakes[i].body[0] by {
        assert(n.snakes[i].shaped());
    }
}

/// A cell that the table gives to a player holds a segment of a live snake
/// with that id, and of no other snake, for no other snake bears that id.
/// Every cell marked as food is in the food list. So the table keeps no
/// owner that is gone, and each of its cells names one player.
pub proof fn law_no_orphaned_cells(g: GameModel, p: Pos)
    requires
        g.wf(),
        g.cells.dom().contains(p),
    ensures
        g.cells[p] != Cell::Void,
        g.cells[p] matches Cell::Player(id) ==> exists|i: int|
            0 <= i < g.snakes.len() && (#[trigger] g.snakes[i]).alive && g.snakes[i].id == id
                && g.snakes[i].body.contains(p),
        g.cells[p] matches Cell::Player(id) ==> forall|i: int, j: int|
            0 <= i < g.snakes.len() && 0 <= j < g.snakes.len() && (#[trigger] g.snakes[i]).id == id
                && (#[trigger] g.snakes[j]).id == id ==> i == j,
        g.cells[p] == Cell::Food ==> g.food.contains(p),
{
    assert(g.justified(p));
    if g.cells[p] is Player {
        let (i, k) = choose|i: int, k: int| #[trigger] g.occupies(i, k, p);
        assert(g.snakes[i].body[k] == p);
        assert(g.snakes[i].alive);
    }
}

/// A snake that joins takes the least id that no snake of the roster
/// bears, which is at most the length of the roster. So its id differs from
/// every id in the roster, and the ids stay pairwise distinct.
pub proof fn law_new_id_is_new(g: GameModel, name: Seq<char>, p: Pos)
    requires
        g.wf(),
    ensures
        g.join(name, p).snakes.len() == g.snakes.len() + 1,
        g.join(name, p).snakes.last().id == g.fresh_id(),
        g.fresh_id() <= g.snakes.len(),
        forall|i: int|
            0 <= i < g.snakes.len() ==> (#[trigger] g.join(name, p).snakes[i]).id != g.join(
                name,
                p,
            ).snakes.last().id,
        forall|i: int| 0 <= i < g.snakes.len() ==> #[trigger] g.join(name, p).snakes[i] == g.snakes[i],
        forall|lower: usize| lower < g.fresh_id() ==> #[trigger] g.bears(lower),
{
    lemma_fresh_id(g);
    assert forall|i: int| 0 <= i < g.snakes.len() implies (#[trigger] g.join(name, p).snakes[i]).id
        != g.fresh_id() by {
        assert(g.has_id(i, g.snakes[i].id));
    }
}

/// Conversely, every segment of a snake and every piece of food has its
/// cell, and no two of them share a position: neither two segments of one
/// snake or of two, nor two pieces of food, nor a segment and a piece of
/// food.
pub proof fn law_entities_recorded(g: GameModel)
    requires
        g.wf(),
    ensures
        forall|i: int, k: int|
            0 <= i < g.snakes.len() && 0 <= k < g.snakes[i].body.len() ==> g.cells.dom().contains(
                #[trigger] g.snakes[i].body[k],
            ) && g.cells[g.snakes[i].body[k]] == Cell::Player(g.snakes[i].id),
        forall|f: int|
            0 <= f < g.food.len() ==> g.cells.dom().contains(#[trigger] g.food[f])
                && g.cells[g.food[f]] == Cell::Food,
        forall|i: int| 0 <= i < g.snakes.len() ==> (#[trigger] g.snakes[i]).body.no_duplicates(),
        g.food.no_duplicates(),
        forall|i: int, k: int, j: int, l: int|
            0 <= i < g.snakes.len() && 0 <= k < g.snakes[i].body.len() && 0 <= j < g.snakes.len()
                && 0 <= l < g.snakes[j].body.len() && i != j ==> #[trigger] g.snakes[i].body[k]
                != #[trigger] g.snakes[j].body[l],
        forall|i: int, k: int, f: int|
            0 <= i < g.snakes.len() && 0 <= k < g.snakes[i].body.len() && 0 <= f < g.food.len()
                ==> #[trigger] g.snakes[i].body[k] != #[trigger] g.food[f],
{
    assert forall|i: int, k: int, j: int, l: int|
        0 <= i < g.snakes.len() && 0 <= k < g.snakes[i].body.len() && 0 <= j < g.snakes.len()
            && 0 <= l < g.snakes[j].body.len() && i != j implies #[trigger] g.snakes[i].body[k]
        != #[trigger] g.snakes[j].body[l] by {
        assert(g.snakes[i].alive && g.snakes[j].alive);
        assert(g.is_segment(i, k) && g.is_segment(j, l));
    }
    assert forall|i: int, k: int, f: int|
        0 <= i < g.snakes.len() && 0 <= k < g.snakes[i].body.len() && 0 <= f < g.food.len() implies #[trigger] g.snakes[i].body[k]
        != #[trigger] g.food[f] by {
        assert(g.snakes[i].alive);
        assert(g.is_segment(i, k));
        assert(g.cells[g.food[f]] == Cell::Food);
    }
    assert forall|i: int, k: int|
        0 <= i < g.snakes.len() && 0 <= k < g.snakes[i].body.len() implies g.cells.dom().contains(
        #[trigger] g.snakes[i].body[k],
    ) && g.cells[g.snakes[i].body[k]] == Cell::Player(g.snakes[i].id) by {
        assert(g.snakes[i].alive);
        assert(g.is_segment(i, k));
    }
    assert forall|i: int| 0 <= i < g.snakes.len() implies (#[trigger] g.snakes[i]).body.no_duplicates() by {
        assert(g.snakes[i].alive);
        assert forall|a: int, b: int|
            0 <= a < g.snakes[i].body.len() && 0 <= b < g.snakes[i].body.len() && a != b implies g.snakes[i].body[a]
            != g.snakes[i].body[b] by {
            assert(g.is_segment(i, a) && g.is_segment(i, b));
        }
    }
}

/// Every body is a chain: each segment is one move away from the one
/// behind it, across an edge only where the game teleports.
pub proof fn law_bodies_are_chains(g: GameModel, i: int, k: int)
    requires
        g.wf(),
        0 <= i < g.snakes.len(),
        0 <= k < g.snakes[i].body.len() - 1,
    ensures
        g.adjacent(g.snakes[i].body[k], g.snakes[i].body[k + 1]),
        !g.teleport ==> {
            let a = g.snakes[i].body[k];
            let b = g.snakes[i].body[k + 1];
            (a.0 - b.0 == 0 && (a.1 - b.1 == 1 || a.1 - b.1 == -1)) || (a.1 - b.1 == 0 && (a.0
                - b.0 == 1 || a.0 - b.0 == -1))
        },
{
    assert(g.linked(i, k));
}

/// Whatever happens, the game stays well-formed: after an event, after a
/// queue of events, after a tick, after restocking, and after a whole
/// round. So the two laws above hold at every moment between two calls.
pub proof fn law_wf_is_kept(
    g: GameModel,
    event: EventModel,
    events: Seq<EventModel>,
    next: GameModel,
)
    requires
        g.wf(),
    ensures
        g.handles(event, next) ==> next.wf(),
        g.handles_all(events, next) ==> next.wf(),
        g.step().wf(),
        g.restocks(next) ==> next.wf(),
        g.rounds(events, next) ==> next.wf(),
{
    lemma_step_wf(g);
    if g.handles(event, next) {
        lemma_handles_wf(g, event, next);
    }
    if g.handles_all(events, next) {
        lemma_handles_all_wf(g, events, next);
    }
    if g.restocks(next) {
        lemma_restocks(g, next);
    }
    if g.rounds(events, next) {
        let mid = choose|mid: GameModel|
            #![trigger mid.step()]
            g.handles_all(events, mid) && mid.step().restocks(next);
        lemma_handles_all_wf(g, events, mid);
        lemma_step_wf(mid);
        lemma_restocks(mid.step(), next);
    }
}

/// A request to head in the direction that the snake has just come from is
/// refused: the heading stays as it was. Every other request is granted.
pub proof fn law_no_reversal(g: GameModel, i: int, d: Direction)
    requires
        g.names_unique(),
        0 <= i < g.snakes.len(),
    ensures
        g.steer(g.snakes[i].name, d).snakes.len() == g.snakes.len(),
        d != Direction::Stop && d == g.snakes[i].moved_from ==> g.steer(g.snakes[i].name, d)
            == g,
        d == Direction::Stop || d != g.snakes[i].moved_from ==> g.steer(
            g.snakes[i].name,
            d,
        ).snakes[i].direction == d,
        g.steer(g.snakes[i].name, d).snakes[i].moved_from == g.snakes[i].moved_from,
{
    let name = g.snakes[i].name;
    assert(g.names(i, name));
    lemma_index_of(g, name, i);
    if d != Direction::Stop && d == g.snakes[i].moved_from {
        assert(g.steer(name, d).snakes =~= g.snakes);
    }
}

/// After a snake has moved, a request to turn it straight back is refused.
pub proof fn law_no_turning_back(g: GameModel, i: int, p: Pos, grows: bool)
    requires
        g.names_unique(),
        0 <= i < g.snakes.len(),
        g.snakes[i].direction != Direction::Stop,
    ensures
        ({
            let moved = g.enter(i, p, grows);
            let back = g.snakes[i].direction.opposite();
            moved.steer(g.snakes[i].name, back) == moved
        }),
{
    let moved = g.enter(i, p, grows);
    let back = g.snakes[i].direction.opposite();
    assert(moved.names_unique()) by {
        assert forall|a: int, b: int|
            0 <= a < moved.snakes.len() && 0 <= b < moved.snakes.len() && (
            #[trigger] moved.snakes[a]).name == (#[trigger] moved.snakes[b]).name implies a
            == b by {
            assert(g.snakes[a].name == g.snakes[b].name);
        }
    }
    law_no_reversal(moved, i, back);
}

/// A snake that finds food grows by one segment, and that piece of food,
/// and no other, leaves the food list in the same turn.
pub proof fn law_eating_grows(g: GameModel, i: int, p: Pos)
    requires
        g.coherent(),
        0 <= i < g.snakes.len(),
        g.snakes[i].alive,
        g.snakes[i].direction != Direction::Stop,
        g.neighbor(g.snakes[i].head, g.snakes[i].direction) == Some(p),
        g.cells[p] == Cell::Food,
    ensures
        g.advance(i).snakes[i].body.len() == g.snakes[i].body.len() + 1,
        g.advance(i).snakes[i].body == seq![p] + g.snakes[i].body,
        g.advance(i).snakes[i].head == p,
        g.advance(i).snakes[i].alive,
        g.advance(i).food.len() == g.food.len() - 1,
        forall|q: Pos| g.advance(i).food.contains(q) <==> g.food.contains(q) && q != p,
{
    let n = g.advance(i);
    assert(n == g.enter(i, p, true));
    lemma_enter_coherent(g, i, p, true);
    assert(g.justified(p));
    let pred = other_than(p);
    assert forall|q: Pos| n.food.contains(q) <==> g.food.contains(q) && q != p by {
        if n.food.contains(q) {
            let f = choose|f: int| 0 <= f < n.food.len() && n.food[f] == q;
            g.food.lemma_filter_pred(pred, f);
            g.food.lemma_filter_contains_rev(pred, q);
        }
        if g.food.contains(q) && q != p {
            let f = choose|f: int| 0 <= f < g.food.len() && g.food[f] == q;
            g.food.lemma_filter_contains(pred, f);
        }
    }
    lemma_filter_drops_one(g.food, p);
}

/// Filtering one value out of a sequence without repetitions that holds it
/// shortens the sequence by one.
proof fn lemma_filter_drops_one(s: Seq<Pos>, p: Pos)
    requires
        s.no_duplicates(),
        s.contains(p),
    ensures
        s.filter(other_than(p)).len() == s.len() - 1,
    decreases s.len(),
{
    reveal(Seq::filter);
    let pred = other_than(p);
    let rest = s.drop_last();
    if s.last() == p {
        assert forall|k: int| 0 <= k < rest.len() implies pred(#[trigger] rest[k]) by {
            assert(s[k] != s[s.len() - 1]);
        }
        lemma_filter_all(rest, pred);
    } else {
        let k = choose|k: int| 0 <= k < s.len() && s[k] == p;
        assert(rest[k] == p);
        lemma_filter_drops_one(rest, p);
    }
}

/// Restocking leaves a well-formed game.
proof fn lemma_restocks(g: GameModel, next: GameModel)
    requires
        g.wf(),
        g.restocks(next),
    ensures
        next.wf(),
{
    if g.width != 0 && g.height != 0 {
        let draws = choose|draws: Seq<Pos>| #[trigger] g.restocked_by(draws, next);
        lemma_restock_after(g, draws);
    }
}

/// Restocking adds food at the end of the list, never beyond the target,
/// and changes no snake.
pub proof fn law_restock_bounds(g: GameModel, next: GameModel)
    requires
        g.wf(),
        g.restocks(next),
    ensures
        next.snakes == g.snakes,
        g.food.is_prefix_of(next.food),
        next.food.len() <= g.food.len() + g.missing_food(),
        g.food.len() >= g.food_amount ==> next == g,
        g.food.len() < g.food_amount ==> next.food.len() <= g.food_amount,
{
    if g.width != 0 && g.height != 0 {
        let draws = choose|draws: Seq<Pos>| #[trigger] g.restocked_by(draws, next);
        lemma_restock_after(g, draws);
        if g.food.len() >= g.food_amount {
            lemma_nothing_missing(g, draws);
        }
    }
}

/// Where nothing is missing, no draw changes anything.
proof fn lemma_nothing_missing(g: GameModel, draws: Seq<Pos>)
    requires
        g.missing_food() == 0,
    ensures
        g.restock_after(draws).game == g,
        g.restock_after(draws).pieces == 0,
    decreases draws.len(),
{
    if draws.len() > 0 {
        lemma_nothing_missing(g, draws.drop_last());
    }
}

/// Restocking restores the food to its target size when no piece is given
/// up, that is, when every missing piece finds an empty cell among its
/// [`FOOD_ATTEMPTS`] draws.
pub proof fn law_restock_restores(g: GameModel, draws: Seq<Pos>, next: GameModel)
    requires
        g.wf(),
        g.restocked_by(draws, next),
        g.given_up(draws) == 0,
    ensures
        next.food.len() == g.food.len() + g.missing_food(),
        g.food.len() <= g.food_amount ==> next.food.len() == g.food_amount,
{
    lemma_restock_after(g, draws);
}

/// On a grid whose cells are all empty no draw can miss: restocking places
/// food as soon as a piece is missing.
pub proof fn law_restock_on_free_grid(g: GameModel, next: GameModel)
    requires
        g.wf(),
        g.restocks(next),
        g.missing_food() > 0,
        g.width > 0,
        g.height > 0,
        forall|p: Pos| g.cells.dom().contains(p) ==> g.is_empty_cell(p),
    ensures
        next.food.len() > g.food.len(),
{
    let draws = choose|draws: Seq<Pos>| #[trigger] g.restocked_by(draws, next);
    if draws.len() == 0 {
        assert(g.restock_after(draws).pieces == g.missing_food());
    } else {
        assert(g.cells.dom().contains(draws[0]));
        lemma_first_draw_places(g, draws);
    }
}

/// A snake whose next cell holds a segment of any snake dies on its turn:
/// it is marked dead, and every cell of its body is emptied.
pub proof fn law_collision_kills(g: GameModel, i: int, p: Pos)
    requires
        g.coherent(),
        0 <= i < g.snakes.len(),
        g.snakes[i].alive,
        g.snakes[i].direction != Direction::Stop,
        g.neighbor(g.snakes[i].head, g.snakes[i].direction) == Some(p),
        g.cells[p] is Player,
    ensures
        !g.advance(i).snakes[i].alive,
        forall|k: int|
            0 <= k < g.snakes[i].body.len() ==> g.advance(i).cells[#[trigger] g.snakes[i].body[k]]
                == Cell::Empty,
        forall|q: Pos|
            g.cells.dom().contains(q) && !g.snakes[i].body.contains(q) ==> g.advance(i).cells[q]
                == g.cells[q],
{
    let n = g.advance(i);
    assert(n == g.kill(i));
    assert forall|k: int| 0 <= k < g.snakes[i].body.len() implies n.cells[#[trigger] g.snakes[i].body[k]]
        == Cell::Empty by {
        assert(g.is_segment(i, k));
        assert(g.snakes[i].body.contains(g.snakes[i].body[k]));
    }
}

/// A turn changes no snake but the one whose turn it is, and no name.
pub proof fn lemma_advance_touches_one(g: GameModel, i: int)
    requires
        0 <= i < g.snakes.len(),
    ensures
        g.advance(i).snakes.len() == g.snakes.len(),
        forall|j: int| 0 <= j < g.snakes.len() && j != i ==> g.advance(i).snakes[j] == g.snakes[j],
        g.advance(i).snakes[i].name == g.snakes[i].name,
        !g.snakes[i].alive ==> g.advance(i) == g,
{
}

/// After the first `n` turns, the snakes further down the roster are as
/// they were, the dead among the first `n` stay dead, and no name has
/// changed.
pub proof fn lemma_advance_all_roster(g: GameModel, n: nat, m: nat)
    requires
        n <= m <= g.snakes.len(),
    ensures
        g.advance_all(m).snakes.len() == g.snakes.len(),
        forall|j: int| m <= j < g.snakes.len() ==> g.advance_all(m).snakes[j] == g.snakes[j],
        forall|j: int|
            0 <= j < g.snakes.len() ==> (#[trigger] g.advance_all(m).snakes[j]).name
                == g.snakes[j].name,
        forall|j: int| 0 <= j < n ==> g.advance_all(m).snakes[j] == g.advance_all(n).snakes[j],
    decreases m,
{
    if m > 0 {
        let before = g.advance_all((m - 1) as nat);
        if n < m {
            lemma_advance_all_roster(g, n, (m - 1) as nat);
        } else {
            lemma_advance_all_roster(g, (m - 1) as nat, (m - 1) as nat);
        }
        lemma_advance_touches_one(before, m - 1);
    }
}

/// A snake that dies on its turn is absent from the roster when the tick
/// is over.
pub proof fn law_dead_leave_roster(g: GameModel, i: int)
    requires
        g.wf(),
        0 <= i < g.snakes.len(),
        !g.advance_all((i + 1) as nat).snakes[i].alive,
    ensures
        !g.step().has_player(g.snakes[i].name),
{
    let count = g.snakes.len();
    let end = g.advance_all(count);
    let name = g.snakes[i].name;
    lemma_advance_all_roster(g, (i + 1) as nat, count);
    lemma_advance_all_coherent(g, count);
    assert(!end.snakes[i].alive);
    if g.step().has_player(name) {
        let j = g.step().index_of(name);
        assert(g.step().names(j, name));
        let survivor = g.step().snakes[j];
        end.snakes.lemma_filter_pred(is_alive(), j);
        end.snakes.lemma_filter_contains_rev(is_alive(), survivor);
        let k = choose|k: int| 0 <= k < end.snakes.len() && end.snakes[k] == survivor;
        assert(end.snakes[k].name == end.snakes[i].name);
    }
}

} // verus!
