//! The picture of a game: how a snapshot is drawn on a buffer, one cell of
//! border around the grid.

use vstd::prelude::*;
use crate::game::Game;
use crate::grid::Cell;
use crate::model::GameModel;
use crate::render::{
    in_reach, outline_at, BufferModel, Color, Colors, RectangleShape, RenderBuffer, RenderChar,
};
use crate::snake::{path_of, pos_of, Pos, Snake, SnakeModel};

verus! {

/// How the picture is to look.
#[derive(Debug, Clone, Copy, PartialEq, Eq, Structural)]
pub struct RenderOptions {
    /// Line-drawing characters for the border and the bodies.
    pub fancy: bool,
    /// A character beyond ASCII for the food.
    pub unicode: bool,
    /// Tint every cell by what the ownership table says of it.
    pub debug: bool,
    /// Tints as exact colours instead of named ones.
    pub rgb: bool,
}

/// The place in the buffer of a position of the grid: the border takes the
/// first row and the first column.
pub open spec fn shifted(p: Pos) -> Pos {
    (p.0 + 1, p.1 + 1)
}

/// A character in the given foreground colour.
pub open spec fn inked(c: char, color: Color) -> RenderChar {
    RenderChar { char: c, colors: Colors { foreground: Some(color), background: None } }
}

/// The buffer with the border of a grid of `gw` by `gh` cells: corners and
/// lines if `fancy`, else a plain frame.
pub open spec fn framed(b: BufferModel, gw: int, gh: int, fancy: bool) -> BufferModel {
    if fancy {
        b.painted(outline_at((0, 0), 1, 1), inked('╔', Color::Blue)).painted(
            outline_at((gw + 1, 0), 1, 1),
            inked('╗', Color::Blue),
        ).painted(outline_at((0, gh + 1), 1, 1), inked('╚', Color::Blue)).painted(
            outline_at((gw + 1, gh + 1), 1, 1),
            inked('╝', Color::Blue),
        ).painted(outline_at((1, 0), gw, 1), inked('═', Color::Blue)).painted(
            outline_at((1, gh + 1), gw, 1),
            inked('═', Color::Blue),
        ).painted(outline_at((0, 1), 1, gh), inked('║', Color::Blue)).painted(
            outline_at((gw + 1, 1), 1, gh),
            inked('║', Color::Blue),
        )
    } else {
        b.painted(outline_at((0, 0), gw + 2, gh + 2), inked('#', Color::Blue))
    }
}

/// The character for a piece of food.
pub open spec fn food_char(options: RenderOptions) -> RenderChar {
    inked(
        if options.unicode && options.fancy {
            '※'
        } else {
            '*'
        },
        Color::Red,
    )
}

/// The buffer with the first `k` pieces of food drawn.
pub open spec fn with_food(b: BufferModel, food: Seq<Pos>, k: int, c: RenderChar) -> BufferModel
    decreases k,
{
    if k <= 0 {
        b
    } else {
        with_food(b, food, k - 1, c).put(shifted(food[k - 1]), c)
    }
}

/// Where a segment lies, seen from the one next to it: 1 below, 2 to the
/// left, 3 above, 4 to the right, and 5 for anything else.
pub open spec fn side(part: Pos, other: Pos) -> int {
    if part.0 - other.0 == 1 {
        4
    } else if part.0 - other.0 == -1 {
        2
    } else if part.1 - other.1 == 1 {
        1
    } else if part.1 - other.1 == -1 {
        3
    } else {
        5
    }
}

/// The character for the end of a tail that hangs on the side `next`.
pub open spec fn end_char(next: int) -> char {
    if next == 1 || next == 3 {
        '│'
    } else if next == 2 || next == 4 {
        '─'
    } else {
        '.'
    }
}

/// The character for a segment between a neighbour on the side `next` and
/// one on the side `prev`: a corner, a straight line, or a dot where the
/// two do not fit.
pub open spec fn bend_char(next: int, prev: int) -> char {
    if next == 1 && prev == 2 || next == 2 && prev == 1 {
        '└'
    } else if next == 3 && prev == 4 || next == 4 && prev == 3 {
        '┐'
    } else if next == 1 && prev == 4 || next == 4 && prev == 1 {
        '┘'
    } else if next == 3 && prev == 2 || next == 2 && prev == 3 {
        '┌'
    } else if next == 1 && prev == 3 || next == 3 && prev == 1 {
        '│'
    } else if next == 2 && prev == 4 || next == 4 && prev == 2 {
        '─'
    } else {
        '.'
    }
}

/// The character for segment `idx` of a body, which is not the head.
pub open spec fn part_char(body: Seq<Pos>, idx: int, fancy: bool) -> char {
    if !fancy {
        '0'
    } else if idx == body.len() - 1 {
        end_char(side(body[idx], body[idx - 1]))
    } else {
        bend_char(side(body[idx], body[idx - 1]), side(body[idx], body[idx + 1]))
    }
}

/// The buffer with the last `n` segments of a body drawn, the tail first.
pub open spec fn with_parts(
    b: BufferModel,
    body: Seq<Pos>,
    n: int,
    fancy: bool,
    color: Color,
) -> BufferModel
    decreases n,
{
    if n <= 0 {
        b
    } else {
        let idx = body.len() - n;
        with_parts(b, body, n - 1, fancy, color).put(
            shifted(body[idx]),
            inked(part_char(body, idx, fancy), color),
        )
    }
}

/// The buffer with a snake drawn: the body from the tail on, then the
/// head. The viewer's own snake is yellow with a green head, every other
/// one red with a blue head.
pub open spec fn with_snake(b: BufferModel, s: SnakeModel, mine: bool, fancy: bool) -> BufferModel {
    with_parts(
        b,
        s.body,
        s.body.len() - 1,
        fancy,
        if mine {
            Color::Yellow
        } else {
            Color::Red
        },
    ).put(
        shifted(s.body[0]),
        inked(
            '@',
            if mine {
                Color::Green
            } else {
                Color::Blue
            },
        ),
    )
}

/// The buffer with the first `k` snakes of the roster drawn, for the
/// viewer called `user`.
pub open spec fn with_snakes(
    b: BufferModel,
    snakes: Seq<SnakeModel>,
    k: int,
    user: Seq<char>,
    fancy: bool,
) -> BufferModel
    decreases k,
{
    if k <= 0 {
        b
    } else {
        with_snake(
            with_snakes(b, snakes, k - 1, user, fancy),
            snakes[k - 1],
            snakes[k - 1].name == user,
            fancy,
        )
    }
}

/// The background that shows what the ownership table holds.
pub open spec fn tint(cell: Cell, rgb: bool) -> Option<Color> {
    match cell {
        Cell::Player(_) => Some(
            if rgb {
                Color::Rgb { r: 127, g: 0, b: 0 }
            } else {
                Color::Red
            },
        ),
        Cell::Food => Some(
            if rgb {
                Color::Rgb { r: 127, g: 0, b: 127 }
            } else {
                Color::Magenta
            },
        ),
        Cell::Wall | Cell::Void => Some(
            if rgb {
                Color::Rgb { r: 0, g: 0, b: 0 }
            } else {
                Color::Black
            },
        ),
        Cell::Empty => Some(
            if rgb {
                Color::Rgb { r: 0, g: 127, b: 0 }
            } else {
                Color::DarkGreen
            },
        ),
    }
}

/// What the ownership table of `g` holds for the position of the buffer
/// `p`: the border stands for positions outside the grid.
pub open spec fn cell_behind(g: GameModel, p: Pos) -> Cell {
    let q = (p.0 - 1, p.1 - 1);
    if g.cells.dom().contains(q) {
        g.cells[q]
    } else {
        Cell::Void
    }
}

/// The character `c` on the background that shows `cell`.
pub open spec fn tinted_char(c: RenderChar, cell: Cell, rgb: bool) -> RenderChar {
    RenderChar {
        char: c.char,
        colors: Colors { foreground: c.colors.foreground, background: tint(cell, rgb) },
    }
}

/// The buffer with every position of the picture tinted.
pub open spec fn tinted(b: BufferModel, g: GameModel, rgb: bool) -> BufferModel {
    BufferModel {
        cells: Map::new(
            |p: Pos| b.covers(p),
            |p: Pos|
                if p.0 < g.width + 2 && p.1 < g.height + 2 {
                    tinted_char(b.cells[p], cell_behind(g, p), rgb)
                } else {
                    b.cells[p]
                },
        ),
        ..b
    }
}

/// The picture of the game `g` for the viewer called `user`, on a buffer
/// of the size of `b`: a blank buffer, the border, the food, the snakes in
/// roster order, and the tints if asked for.
pub open spec fn scene(b: BufferModel, g: GameModel, user: Seq<char>, options: RenderOptions) ->
    BufferModel {
    let blank = BufferModel::filled(b.width, b.height, RenderChar::blank());
    let bordered = framed(blank, g.width as int, g.height as int, options.fancy);
    let fed = with_food(bordered, g.food, g.food.len() as int, food_char(options));
    let crawled = with_snakes(fed, g.snakes, g.snakes.len() as int, user, options.fancy);
    if options.debug {
        tinted(crawled, g, options.rgb)
    } else {
        crawled
    }
}

/// The coordinates of a stored path are not negative and leave room for
/// the border.
pub open spec fn drawable(path: Seq<(isize, isize)>) -> bool {
    forall|k: int|
        0 <= k < path.len() ==> 0 <= (#[trigger] path[k]).0 < isize::MAX && 0 <= path[k].1
            < isize::MAX
}

/// Computes [`inked`].
fn ink(c: char, color: Color) -> (r: RenderChar)
    ensures
        r == inked(c, color),
{
    RenderChar::new(c, Colors { foreground: Some(color), background: None })
}

/// Draws the outline of a rectangle.
fn draw_outline(buffer: &mut RenderBuffer, x: isize, y: isize, w: isize, h: isize, c: RenderChar)
    requires
        in_reach(x as int, y as int, w as int, h as int),
    ensures
        final(buffer)@ == old(buffer)@.painted(outline_at((x as int, y as int), w as int, h as int), c),
{
    let r = RectangleShape::new(x, y, w, h, c, false);
    buffer.draw(&r);
}

/// Draws the border of a grid of `gw` by `gh` cells.
fn draw_border(buffer: &mut RenderBuffer, gw: usize, gh: usize, fancy: bool)
    requires
        gw + 2 <= isize::MAX,
        gh + 2 <= isize::MAX,
    ensures
        final(buffer)@ == framed(old(buffer)@, gw as int, gh as int, fancy),
{
    let w = gw as isize;
    let h = gh as isize;
    if fancy {
        draw_outline(buffer, 0, 0, 1, 1, ink('╔', Color::Blue));
        draw_outline(buffer, w + 1, 0, 1, 1, ink('╗', Color::Blue));
        draw_outline(buffer, 0, h + 1, 1, 1, ink('╚', Color::Blue));
        draw_outline(buffer, w + 1, h + 1, 1, 1, ink('╝', Color::Blue));
        draw_outline(buffer, 1, 0, w, 1, ink('═', Color::Blue));
        draw_outline(buffer, 1, h + 1, w, 1, ink('═', Color::Blue));
        draw_outline(buffer, 0, 1, 1, h, ink('║', Color::Blue));
        draw_outline(buffer, w + 1, 1, 1, h, ink('║', Color::Blue));
    } else {
        draw_outline(buffer, 0, 0, w + 2, h + 2, ink('#', Color::Blue));
    }
}

/// Draws the food.
fn draw_food(buffer: &mut RenderBuffer, food: &Vec<(isize, isize)>, c: RenderChar)
    requires
        drawable(food@),
    ensures
        final(buffer)@ == with_food(old(buffer)@, path_of(food@), food.len() as int, c),
{
    let mut k: usize = 0;
    while k < food.len()
        invariant
            drawable(food@),
            k <= food.len(),
            buffer@ == with_food(old(buffer)@, path_of(food@), k as int, c),
        decreases food.len() - k,
    {
        let piece = food[k];
        assert(path_of(food@)[k as int] == pos_of(piece));
        buffer.put(piece.0 + 1, piece.1 + 1, c);
        k += 1;
    }
}

/// Computes [`side`].
fn side_of(part: (isize, isize), other: (isize, isize)) -> (r: u8)
    requires
        0 <= part.0 && 0 <= part.1 && 0 <= other.0 && 0 <= other.1,
    ensures
        r == side(pos_of(part), pos_of(other)),
{
    if part.0 - other.0 == 1 {
        4
    } else if part.0 - other.0 == -1 {
        2
    } else if part.1 - other.1 == 1 {
        1
    } else if part.1 - other.1 == -1 {
        3
    } else {
        5
    }
}

/// Computes [`part_char`].
fn part_glyph(body: &Vec<(isize, isize)>, idx: usize, fancy: bool) -> (c: char)
    requires
        drawable(body@),
        0 < idx < body.len(),
    ensures
        c == part_char(path_of(body@), idx as int, fancy),
{
    if !fancy {
        return '0';
    }
    let part = body[idx];
    let diff_next = side_of(part, body[idx - 1]);
    if idx == body.len() - 1 {
        if diff_next == 1 || diff_next == 3 {
            '│'
        } else if diff_next == 2 || diff_next == 4 {
            '─'
        } else {
            '.'
        }
    } else {
        let diff_prev = side_of(part, body[idx + 1]);
        if diff_next == 1 && diff_prev == 2 || diff_next == 2 && diff_prev == 1 {
            '└'
        } else if diff_next == 3 && diff_prev == 4 || diff_next == 4 && diff_prev == 3 {
            '┐'
        } else if diff_next == 1 && diff_prev == 4 || diff_next == 4 && diff_prev == 1 {
            '┘'
        } else if diff_next == 3 && diff_prev == 2 || diff_next == 2 && diff_prev == 3 {
            '┌'
        } else if diff_next == 1 && diff_prev == 3 || diff_next == 3 && diff_prev == 1 {
            '│'
        } else if diff_next == 2 && diff_prev == 4 || diff_next == 4 && diff_prev == 2 {
            '─'
        } else {
            '.'
        }
    }
}

/// Draws one snake.
fn draw_snake(buffer: &mut RenderBuffer, snake: &Snake, mine: bool, fancy: bool)
    requires
        drawable(snake.body@),
        snake.body.len() > 0,
    ensures
        final(buffer)@ == with_snake(old(buffer)@, snake@, mine, fancy),
{
    let tail_color = if mine {
        Color::Yellow
    } else {
        Color::Red
    };
    let head_color = if mine {
        Color::Green
    } else {
        Color::Blue
    };
    let len = snake.body.len();
    let mut part_index: usize = len - 1;
    while part_index > 0
        invariant
            drawable(snake.body@),
            len == snake.body.len(),
            part_index < len,
            buffer@ == with_parts(
                old(buffer)@,
                snake@.body,
                len - 1 - part_index,
                fancy,
                tail_color,
            ),
        decreases part_index,
    {
        let part = snake.body[part_index];
        assert(snake@.body[part_index as int] == pos_of(part));
        let cur_char = part_glyph(&snake.body, part_index, fancy);
        buffer.put(part.0 + 1, part.1 + 1, ink(cur_char, tail_color));
        part_index -= 1;
    }
    let head = snake.body[0];
    assert(snake@.body[0] == pos_of(head));
    buffer.put(head.0 + 1, head.1 + 1, ink('@', head_color));
}

/// Computes [`tint`].
fn tint_of(cell: Cell, rgb: bool) -> (r: Option<Color>)
    ensures
        r == tint(cell, rgb),
{
    match cell {
        Cell::Player(_) => Some(
            if rgb {
                Color::Rgb { r: 127, g: 0, b: 0 }
            } else {
                Color::Red
            },
        ),
        Cell::Food => Some(
            if rgb {
                Color::Rgb { r: 127, g: 0, b: 127 }
            } else {
                Color::Magenta
            },
        ),
        Cell::Wall | Cell::Void => Some(
            if rgb {
                Color::Rgb { r: 0, g: 0, b: 0 }
            } else {
                Color::Black
            },
        ),
        Cell::Empty => Some(
            if rgb {
                Color::Rgb { r: 0, g: 127, b: 0 }
            } else {
                Color::DarkGreen
            },
        ),
    }
}

/// Tints every position of the picture by what the ownership table holds.
fn draw_tints(buffer: &mut RenderBuffer, game: &Game, rgb: bool)
    requires
        game.size.0 + 2 <= isize::MAX,
        game.size.1 + 2 <= isize::MAX,
    ensures
        final(buffer)@ == tinted(old(buffer)@, game@, rgb),
{
    let ghost start = buffer@;
    let columns = game.size.0 + 2;
    let rows = game.size.1 + 2;
    proof {
        buffer.lemma_view_wf();
    }
    let mut x: usize = 0;
    while x < columns
        invariant
            columns == game.size.0 + 2,
            rows == game.size.1 + 2,
            columns <= isize::MAX,
            rows <= isize::MAX,
            x <= columns,
            start == old(buffer)@,
            buffer@.wf(),
            buffer@.width == start.width,
            buffer@.height == start.height,
            forall|p: Pos|
                start.covers(p) ==> #[trigger] buffer@.cells[p] == if p.0 < x && p.1 < rows {
                    tinted_char(start.cells[p], cell_behind(game@, p), rgb)
                } else {
                    start.cells[p]
                },
        decreases columns - x,
    {
        let mut y: usize = 0;
        while y < rows
            invariant
                columns == game.size.0 + 2,
                rows == game.size.1 + 2,
                columns <= isize::MAX,
                rows <= isize::MAX,
                x < columns,
                y <= rows,
                start == old(buffer)@,
                buffer@.wf(),
                buffer@.width == start.width,
                buffer@.height == start.height,
                forall|p: Pos|
                    start.covers(p) ==> #[trigger] buffer@.cells[p] == if (p.0 < x && p.1 < rows)
                        || (p.0 == x && p.1 < y) {
                        tinted_char(start.cells[p], cell_behind(game@, p), rgb)
                    } else {
                        start.cells[p]
                    },
            decreases rows - y,
        {
            let cc = buffer.get(x as isize, y as isize);
            let o = game.get_owners_tables().get_cell(x as isize - 1, y as isize - 1);
            let nc = RenderChar::new(
                cc.char,
                Colors { foreground: cc.colors.foreground, background: tint_of(o, rgb) },
            );
            buffer.put(x as isize, y as isize, nc);
            proof {
                buffer.lemma_view_wf();
            }
            y += 1;
        }
        x += 1;
    }
    proof {
        let goal = tinted(start, game@, rgb);
        assert forall|p: Pos| start.covers(p) implies #[trigger] buffer@.cells[p]
            == goal.cells[p] by {
            assert(p.0 < x && p.1 < rows <==> p.0 < game@.width + 2 && p.1 < game@.height + 2);
        }
        assert forall|p: Pos| buffer@.cells.dom().contains(p) <==> goal.cells.dom().contains(
            p,
        ) by {
            assert(buffer@.cells.dom().contains(p) <==> buffer@.covers(p));
        }
        assert(buffer@.cells =~= goal.cells);
    }
}

/// The picture of the game can be drawn: the border fits into the range of
/// the coordinates, no body is empty, and no coordinate of a segment or of
/// a piece of food is negative or too large to make room for the border.
pub open spec fn fits_picture(game: &Game) -> bool {
    &&& game.size.0 + 2 <= isize::MAX
    &&& game.size.1 + 2 <= isize::MAX
    &&& drawable(game.food@)
    &&& forall|i: int|
        0 <= i < game.snakes.len() ==> (#[trigger] game.snakes[i]).body.len() > 0 && drawable(
            game.snakes[i].body@,
        )
}

/// Tests [`drawable`].
fn is_drawable(path: &Vec<(isize, isize)>) -> (r: bool)
    ensures
        r == drawable(path@),
{
    let mut k: usize = 0;
    while k < path.len()
        invariant
            k <= path.len(),
            forall|j: int|
                0 <= j < k ==> 0 <= (#[trigger] path@[j]).0 < isize::MAX && 0 <= path@[j].1
                    < isize::MAX,
        decreases path.len() - k,
    {
        let p = path[k];
        if p.0 < 0 || p.0 == isize::MAX || p.1 < 0 || p.1 == isize::MAX {
            return false;
        }
        k += 1;
    }
    true
}

/// Tests whether the picture of `game` can be drawn.
pub fn can_draw(game: &Game) -> (r: bool)
    ensures
        r == fits_picture(game),
{
    let limit = isize::MAX as usize - 2;
    if game.size.0 > limit || game.size.1 > limit || !is_drawable(&game.food) {
        return false;
    }
    let mut i: usize = 0;
    while i < game.snakes.len()
        invariant
            i <= game.snakes.len(),
            forall|j: int|
                0 <= j < i ==> (#[trigger] game.snakes[j]).body.len() > 0 && drawable(
                    game.snakes[j].body@,
                ),
        decreases game.snakes.len() - i,
    {
        if game.snakes[i].body.len() == 0 || !is_drawable(&game.snakes[i].body) {
            return false;
        }
        i += 1;
    }
    true
}

/// Draws the picture of `game` for the viewer called `username`, and says
/// whether the viewer has a snake in the game.
pub fn draw_game(
    buffer: &mut RenderBuffer,
    game: &Game,
    username: &String,
    options: RenderOptions,
) -> (found: bool)
    requires
        fits_picture(game),
    ensures
        final(buffer)@ == scene(old(buffer)@, game@, username@, options),
        found == game@.has_player(username@),
{
    buffer.clear(RenderChar::empty());
    draw_border(buffer, game.size.0, game.size.1, options.fancy);
    let food_glyph = ink(
        if options.unicode && options.fancy {
            '※'
        } else {
            '*'
        },
        Color::Red,
    );
    draw_food(buffer, game.get_food(), food_glyph);
    let mut my_snake_found: bool = false;
    let ghost fed = buffer@;
    let mut i: usize = 0;
    while i < game.snakes.len()
        invariant
            fits_picture(game),
            i <= game.snakes.len(),
            buffer@ == with_snakes(fed, game@.snakes, i as int, username@, options.fancy),
            my_snake_found == exists|j: int| 0 <= j < i && #[trigger] game@.names(j, username@),
        decreases game.snakes.len() - i,
    {
        let snake = &game.snakes[i];
        let mine = snake.name == *username;
        proof {
            assert(game@.snakes[i as int] == snake@);
            if mine {
                assert(game@.names(i as int, username@));
            }
        }
        if mine {
            my_snake_found = true;
        }
        draw_snake(buffer, snake, mine, options.fancy);
        i += 1;
    }
    if options.debug {
        draw_tints(buffer, game, options.rgb);
    }
    my_snake_found
}

} // verus!
