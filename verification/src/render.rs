//! A buffer of coloured characters and the shapes that can be drawn on it.

use vstd::prelude::*;
use crate::grid::in_grid;
use crate::snake::Pos;

verus! {

/// A terminal colour.
#[derive(Debug, Clone, Copy, PartialEq, Eq, Structural)]
pub enum Color {
    Reset,
    Black,
    DarkGrey,
    Red,
    DarkRed,
    Green,
    DarkGreen,
    Yellow,
    DarkYellow,
    Blue,
    DarkBlue,
    Magenta,
    DarkMagenta,
    Cyan,
    DarkCyan,
    White,
    Grey,
    Rgb { r: u8, g: u8, b: u8 },
    AnsiValue(u8),
}

/// The colours of one character; `None` leaves the terminal's own.
#[derive(Debug, Clone, Copy, PartialEq, Eq, Structural)]
pub struct Colors {
    pub foreground: Option<Color>,
    pub background: Option<Color>,
}

/// One character of the buffer with its colours.
#[derive(Debug, Clone, Copy, PartialEq, Eq, Structural)]
pub struct RenderChar {
    pub char: char,
    pub colors: Colors,
}

impl Colors {
    /// No colour of its own, neither in front nor behind.
    pub open spec fn plain() -> Colors {
        Colors { foreground: None, background: None }
    }
}

impl RenderChar {
    /// A space without colours.
    pub open spec fn blank() -> RenderChar {
        RenderChar { char: ' ', colors: Colors::plain() }
    }

    /// The character `char` in the given colours.
    pub fn new(char: char, colors: Colors) -> (r: RenderChar)
        ensures
            r == (RenderChar { char, colors }),
    {
        RenderChar { char: char, colors: colors }
    }

    /// A space without colours.
    pub fn empty() -> (r: RenderChar)
        ensures
            r == RenderChar::blank(),
    {
        RenderChar { char: ' ', colors: Colors { foreground: None, background: None } }
    }
}

/// A buffer as a mathematical value: its size and the character at each of
/// its positions.
#[verifier::ext_equal]
pub struct BufferModel {
    pub width: nat,
    pub height: nat,
    pub cells: Map<Pos, RenderChar>,
}

impl BufferModel {
    /// `p` is a position of the buffer.
    pub open spec fn covers(self, p: Pos) -> bool {
        in_grid(self.width, self.height, p)
    }

    /// A buffer of the given size in which every position holds `v`.
    pub open spec fn filled(width: nat, height: nat, v: RenderChar) -> BufferModel {
        BufferModel {
            width,
            height,
            cells: Map::new(|p: Pos| in_grid(width, height, p), |p: Pos| v),
        }
    }

    /// The character at `p`, and a blank outside the buffer.
    pub open spec fn get(self, p: Pos) -> RenderChar {
        if self.covers(p) {
            self.cells[p]
        } else {
            RenderChar::blank()
        }
    }

    /// The buffer with `v` at `p`; a position outside the buffer is
    /// ignored.
    pub open spec fn put(self, p: Pos, v: RenderChar) -> BufferModel {
        if self.covers(p) {
            BufferModel { cells: self.cells.insert(p, v), ..self }
        } else {
            self
        }
    }

    /// The buffer with `v` at every position inside `area`.
    pub open spec fn painted(self, area: spec_fn(Pos) -> bool, v: RenderChar) -> BufferModel {
        BufferModel {
            cells: Map::new(
                |p: Pos| self.covers(p),
                |p: Pos|
                    if area(p) {
                        v
                    } else {
                        self.cells[p]
                    },
            ),
            ..self
        }
    }

    /// Row `y` from left to right.
    pub open spec fn row(self, y: int) -> Seq<RenderChar> {
        Seq::new(self.width, |x: int| self.cells[(x, y)])
    }

    /// The first `n` rows, one after the other.
    pub open spec fn rows_upto(self, n: int) -> Seq<RenderChar>
        decreases n,
    {
        if n <= 0 {
            Seq::empty()
        } else {
            self.rows_upto(n - 1) + self.row(n - 1)
        }
    }

    /// All characters of the buffer, row after row.
    pub open spec fn flat(self) -> Seq<RenderChar> {
        self.rows_upto(self.height as int)
    }

    /// The cells are defined on the positions of the buffer and on no
    /// others.
    pub open spec fn wf(self) -> bool {
        forall|p: Pos| self.cells.dom().contains(p) <==> self.covers(p)
    }
}

/// A stretch of characters that share their colours, as the bytes to write.
#[derive(Debug)]
pub struct Run {
    pub colors: Colors,
    pub bytes: Vec<u8>,
}

/// A [`Run`] as a plain mathematical value.
pub struct RunModel {
    pub colors: Colors,
    pub bytes: Seq<u8>,
}

impl View for Run {
    type V = RunModel;

    open spec fn view(&self) -> RunModel {
        RunModel { colors: self.colors, bytes: self.bytes@ }
    }
}

/// Runs as plain mathematical values.
pub open spec fn run_models(runs: Seq<Run>) -> Seq<RunModel> {
    runs.map_values(|r: Run| r@)
}

/// The byte that stands for a character on the terminal: the lowest eight
/// bits of its code point.
pub open spec fn low_byte_of(c: char) -> u8 {
    ((c as u32) % 256) as u8
}

/// The runs of a sequence of characters. The first run has no colours and
/// may be empty. A character whose colours differ from those of the run
/// before it starts a new run; every other character joins the last run.
pub open spec fn runs_of(chars: Seq<RenderChar>) -> Seq<RunModel>
    decreases chars.len(),
{
    if chars.len() == 0 {
        seq![RunModel { colors: Colors::plain(), bytes: Seq::empty() }]
    } else {
        let runs = runs_of(chars.drop_last());
        let c = chars.last();
        if c.colors != runs.last().colors {
            runs.push(RunModel { colors: c.colors, bytes: seq![low_byte_of(c.char)] })
        } else {
            runs.drop_last().push(
                RunModel {
                    colors: runs.last().colors,
                    bytes: runs.last().bytes.push(low_byte_of(c.char)),
                },
            )
        }
    }
}

/// There is always a first run.
pub proof fn lemma_runs_not_empty(chars: Seq<RenderChar>)
    ensures
        runs_of(chars).len() > 0,
    decreases chars.len(),
{
    if chars.len() > 0 {
        lemma_runs_not_empty(chars.drop_last());
    }
}

/// Calls `String::push`, which appends the character to the end of the
/// string.
#[verifier::external_body]
fn push_char(s: &mut String, c: char)
    ensures
        final(s)@ == old(s)@.push(c),
{
    s.push(c)
}

/// The characters of a sequence without their colours.
pub open spec fn chars_of(cells: Seq<RenderChar>) -> Seq<char> {
    cells.map_values(|c: RenderChar| c.char)
}

/// Computes [`low_byte_of`].
fn low_byte(c: char) -> (b: u8)
    ensures
        b == low_byte_of(c),
{
    ((c as u32) % 256) as u8
}

/// Something that can draw itself on a buffer.
pub trait Drawable {
    /// The buffer after this object has been drawn on `before`.
    spec fn drawn(&self, before: BufferModel) -> BufferModel;

    fn draw(&self, render: &mut RenderBuffer)
        ensures
            final(render)@ == self.drawn(old(render)@),
    ;
}

/// A rectangular buffer of characters, stored row by row.
pub struct RenderBuffer {
    width: usize,
    height: usize,
    rows: Vec<Vec<RenderChar>>,
}

impl View for RenderBuffer {
    type V = BufferModel;

    closed spec fn view(&self) -> BufferModel {
        BufferModel {
            width: self.width as nat,
            height: self.height as nat,
            cells: Map::new(
                |p: Pos| in_grid(self.width as nat, self.height as nat, p),
                |p: Pos| self.rows[p.1][p.0],
            ),
        }
    }
}

/// A row of `width` copies of `v`.
fn row_of(width: usize, v: RenderChar) -> (row: Vec<RenderChar>)
    ensures
        row.len() == width,
        forall|x: int| 0 <= x < width ==> row[x] == v,
{
    let mut row: Vec<RenderChar> = Vec::new();
    let mut x: usize = 0;
    while x < width
        invariant
            x <= width,
            row.len() == x,
            forall|i: int| 0 <= i < x ==> row[i] == v,
        decreases width - x,
    {
        row.push(v);
        x += 1;
    }
    row
}

/// `height` rows of `width` copies of `v`.
fn rows_of(width: usize, height: usize, v: RenderChar) -> (rows: Vec<Vec<RenderChar>>)
    ensures
        rows.len() == height,
        forall|y: int| 0 <= y < height ==> (#[trigger] rows[y]).len() == width,
        forall|x: int, y: int| 0 <= x < width && 0 <= y < height ==> rows[y][x] == v,
{
    let mut rows: Vec<Vec<RenderChar>> = Vec::new();
    let mut y: usize = 0;
    while y < height
        invariant
            y <= height,
            rows.len() == y,
            forall|j: int| 0 <= j < y ==> (#[trigger] rows[j]).len() == width,
            forall|i: int, j: int| 0 <= i < width && 0 <= j < y ==> rows[j][i] == v,
        decreases height - y,
    {
        rows.push(row_of(width, v));
        y += 1;
    }
    rows
}

/// Overwrites one character of a table of rows, leaving every length and
/// every other character as it was.
fn store(rows: &mut Vec<Vec<RenderChar>>, x: usize, y: usize, v: RenderChar)
    requires
        y < old(rows).len(),
        x < old(rows)[y as int].len(),
    ensures
        final(rows).len() == old(rows).len(),
        final(rows)[y as int]@ == old(rows)[y as int]@.update(x as int, v),
        forall|j: int| 0 <= j < old(rows).len() && j != y ==> final(rows)[j] == old(rows)[j],
    no_unwind
{
    rows[y][x] = v;
}

impl RenderBuffer {
    /// There is one row for each `y`, and one character in it for each `x`.
    #[verifier::type_invariant]
    spec fn well_formed(&self) -> bool {
        &&& self.rows.len() == self.height
        &&& forall|y: int| 0 <= y < self.rows.len() ==> (#[trigger] self.rows[y]).len() == self.width
    }

    /// The view of a buffer is well-formed.
    pub proof fn lemma_view_wf(&self)
        ensures
            self@.wf(),
    {
    }

    /// Build new RenderBuffer from sizes.
    pub fn new(width: usize, height: usize) -> (r: RenderBuffer)
        ensures
            r@ == BufferModel::filled(width as nat, height as nat, RenderChar::blank()),
    {
        let r = RenderBuffer {
            width: width,
            height: height,
            rows: rows_of(width, height, RenderChar::empty()),
        };
        assert(r@.cells =~= BufferModel::filled(
            width as nat,
            height as nat,
            RenderChar::blank(),
        ).cells);
        r
    }

    /// Build new RenderBuffer from copying another.
    pub fn from(from: &RenderBuffer) -> (r: RenderBuffer)
        ensures
            r@ == from@,
    {
        proof {
            use_type_invariant(from);
        }
        let mut rows: Vec<Vec<RenderChar>> = Vec::new();
        let mut y: usize = 0;
        while y < from.height
            invariant
                from.well_formed(),
                y <= from.height,
                rows.len() == y,
                forall|j: int| 0 <= j < y ==> (#[trigger] rows[j])@ == from.rows[j]@,
            decreases from.height - y,
        {
            let mut row: Vec<RenderChar> = Vec::new();
            let mut x: usize = 0;
            while x < from.width
                invariant
                    from.well_formed(),
                    y < from.height,
                    x <= from.width,
                    row.len() == x,
                    forall|i: int| 0 <= i < x ==> row[i] == from.rows[y as int][i],
                decreases from.width - x,
            {
                row.push(from.rows[y][x]);
                x += 1;
            }
            assert(row@ =~= from.rows[y as int]@);
            rows.push(row);
            y += 1;
        }
        let r = RenderBuffer { width: from.width, height: from.height, rows: rows };
        assert(r@.cells =~= from@.cells);
        r
    }

    /// Put char at specified position.
    pub fn put(&mut self, x: isize, y: isize, v: RenderChar)
        ensures
            final(self)@ == old(self)@.put((x as int, y as int), v),
    {
        proof {
            use_type_invariant(&*self);
        }
        if x >= 0 && y >= 0 {
            let x = x as usize;
            let y = y as usize;
            if x < self.width && y < self.height {
                store(&mut self.rows, x, y, v);
                assert(self@.cells =~= old(self)@.cells.insert((x as int, y as int), v));
            } else {
            }
        }
    }

    /// Get char at specified position. Return ' ' if outside of buffer
    pub fn get(&self, x: isize, y: isize) -> (r: RenderChar)
        ensures
            r == self@.get((x as int, y as int)),
    {
        proof {
            use_type_invariant(self);
        }
        if x >= 0 && y >= 0 {
            let x = x as usize;
            let y = y as usize;
            if x < self.width && y < self.height {
                self.rows[y][x]
            } else {
                RenderChar::empty()
            }
        } else {
            RenderChar::empty()
        }
    }

    /// The number of columns.
    pub fn width(&self) -> (w: usize)
        ensures
            w == self@.width,
    {
        self.width
    }

    /// The number of rows.
    pub fn height(&self) -> (h: usize)
        ensures
            h == self@.height,
    {
        self.height
    }

    /// Fill every position with specified char
    pub fn clear(&mut self, char_to_fill: RenderChar)
        ensures
            final(self)@ == BufferModel::filled(
                old(self)@.width,
                old(self)@.height,
                char_to_fill,
            ),
    {
        let filled = RenderBuffer {
            width: self.width,
            height: self.height,
            rows: rows_of(self.width, self.height, char_to_fill),
        };
        assert(filled@.cells =~= BufferModel::filled(
            old(self)@.width,
            old(self)@.height,
            char_to_fill,
        ).cells);
        *self = filled;
    }

    /// Draw Drawable object at this buffer
    pub fn draw<T: Drawable>(&mut self, object: &T)
        ensures
            final(self)@ == object.drawn(old(self)@),
    {
        object.draw(self);
    }

    /// The characters of the buffer as one string, row after row, without
    /// colours and without line breaks.
    pub fn get_printable_string(&self) -> (r: String)
        ensures
            r@ == chars_of(self@.flat()),
    {
        proof {
            use_type_invariant(self);
        }
        let mut out = String::new();
        assert(out@ =~= chars_of(self@.rows_upto(0)));
        let mut y: usize = 0;
        while y < self.height
            invariant
                self.well_formed(),
                y <= self.height,
                out@ == chars_of(self@.rows_upto(y as int)),
            decreases self.height - y,
        {
            let mut x: usize = 0;
            assert(self@.rows_upto(y as int) + self@.row(y as int).take(0) =~= self@.rows_upto(
                y as int,
            ));
            while x < self.width
                invariant
                    self.well_formed(),
                    y < self.height,
                    x <= self.width,
                    out@ == chars_of(self@.rows_upto(y as int) + self@.row(y as int).take(x as int)),
                decreases self.width - x,
            {
                let c = self.rows[y][x];
                proof {
                    let seen = self@.rows_upto(y as int) + self@.row(y as int).take(x as int);
                    assert(self@.row(y as int)[x as int] == c);
                    assert(self@.rows_upto(y as int) + self@.row(y as int).take(x as int + 1)
                        =~= seen.push(c));
                    assert(chars_of(seen.push(c)) =~= chars_of(seen).push(c.char));
                }
                push_char(&mut out, c.char);
                x += 1;
            }
            assert(self@.row(y as int).take(self.width as int) =~= self@.row(y as int));
            y += 1;
        }
        out
    }

    /// A buffer has no text form of its own: the answer is always `no`.
    pub fn to_string(&self) -> (r: String)
        ensures
            r@ == "no"@,
    {
        "no".to_owned()
    }

    /// The buffer as what a terminal has to be told: row after row, the
    /// characters gathered into runs of one colouring each. See
    /// [`runs_of`].
    pub fn render_runs(&self) -> (runs: Vec<Run>)
        ensures
            run_models(runs@) == runs_of(self@.flat()),
    {
        proof {
            use_type_invariant(self);
        }
        let mut runs: Vec<Run> = Vec::new();
        runs.push(Run { colors: Colors { foreground: None, background: None }, bytes: Vec::new() });
        assert(run_models(runs@) =~= seq![RunModel { colors: Colors::plain(), bytes: Seq::empty() }]);
        let mut y: usize = 0;
        while y < self.height
            invariant
                self.well_formed(),
                y <= self.height,
                run_models(runs@) == runs_of(self@.rows_upto(y as int)),
            decreases self.height - y,
        {
            let mut x: usize = 0;
            assert(self@.rows_upto(y as int) + self@.row(y as int).take(0) =~= self@.rows_upto(
                y as int,
            ));
            while x < self.width
                invariant
                    self.well_formed(),
                    y < self.height,
                    x <= self.width,
                    run_models(runs@) == runs_of(
                        self@.rows_upto(y as int) + self@.row(y as int).take(x as int),
                    ),
                decreases self.width - x,
            {
                let ghost seen = self@.rows_upto(y as int) + self@.row(y as int).take(x as int);
                let ghost before = run_models(runs@);
                let c = self.rows[y][x];
                proof {
                    lemma_runs_not_empty(seen);
                    assert(self@.row(y as int)[x as int] == c);
                    assert(self@.rows_upto(y as int) + self@.row(y as int).take(x as int + 1)
                        =~= seen.push(c));
                    assert(seen.push(c).drop_last() =~= seen);
                }
                let last = runs.len() - 1;
                if c.colors != runs[last].colors {
                    let mut bytes: Vec<u8> = Vec::new();
                    bytes.push(low_byte(c.char));
                    runs.push(Run { colors: c.colors, bytes: bytes });
                    assert(run_models(runs@) =~= before.push(
                        RunModel { colors: c.colors, bytes: seq![low_byte_of(c.char)] },
                    ));
                } else {
                    runs[last].bytes.push(low_byte(c.char));
                    assert(run_models(runs@) =~= before.drop_last().push(
                        RunModel {
                            colors: before.last().colors,
                            bytes: before.last().bytes.push(low_byte_of(c.char)),
                        },
                    ));
                }
                x += 1;
            }
            assert(self@.row(y as int).take(self.width as int) =~= self@.row(y as int));
            y += 1;
        }
        runs
    }

    /// Change buffer sizes and recreate char array
    pub fn resize(&mut self, width: usize, height: usize)
        ensures
            final(self)@ == BufferModel::filled(width as nat, height as nat, RenderChar::blank()),
    {
        *self = RenderBuffer::new(width, height);
    }
}

/// just pixel struct
pub struct Point {
    x: isize,
    y: isize,
    c: RenderChar,
}

impl Point {
    /// Where the point lies.
    pub closed spec fn at(&self) -> Pos {
        (self.x as int, self.y as int)
    }

    /// The character of the point.
    pub closed spec fn fill(&self) -> RenderChar {
        self.c
    }

    /// The character `c` at `(x, y)`.
    pub fn new(x: isize, y: isize, c: RenderChar) -> (p: Point)
        ensures
            p.at() == (x as int, y as int),
            p.fill() == c,
    {
        Point { x, y, c }
    }
}

impl Drawable for Point {
    /// One character at one position.
    open spec fn drawn(&self, before: BufferModel) -> BufferModel {
        before.put(self.at(), self.fill())
    }

    fn draw(&self, render: &mut RenderBuffer) {
        render.put(self.x, self.y, self.c);
    }
}

/// Text Struct
pub struct Text {
    x: isize,
    y: isize,
    text: String,
}

/// Where the character after the first `k` of `text` goes, when the text
/// starts at `start`: a line feed leads to the start column of the next
/// row, every other character one column on.
pub open spec fn cursor(text: Seq<char>, start: Pos, k: int) -> Pos
    decreases k,
{
    if k <= 0 {
        start
    } else {
        let before = cursor(text, start, k - 1);
        if text[k - 1] == '\n' {
            (start.0, before.1 + 1)
        } else {
            (before.0 + 1, before.1)
        }
    }
}

/// The buffer after the first `k` characters of `text` have been written
/// from `start` on, without colours. A line feed writes nothing.
pub open spec fn typed(before: BufferModel, text: Seq<char>, start: Pos, k: int) -> BufferModel
    decreases k,
{
    if k <= 0 {
        before
    } else {
        let sofar = typed(before, text, start, k - 1);
        if text[k - 1] == '\n' {
            sofar
        } else {
            sofar.put(
                cursor(text, start, k - 1),
                RenderChar { char: text[k - 1], colors: Colors::plain() },
            )
        }
    }
}

/// The cursor moves at most one column and one row per character.
pub proof fn lemma_cursor_bounds(text: Seq<char>, start: Pos, k: int)
    requires
        0 <= k,
    ensures
        start.0 <= cursor(text, start, k).0 <= start.0 + k,
        start.1 <= cursor(text, start, k).1 <= start.1 + k,
    decreases k,
{
    if k > 0 {
        lemma_cursor_bounds(text, start, k - 1);
    }
}

impl Text {
    /// However the text runs, the cursor stays in the range of the
    /// coordinates.
    #[verifier::type_invariant]
    spec fn well_formed(&self) -> bool {
        self.x + self.text@.len() <= isize::MAX && self.y + self.text@.len() <= isize::MAX
    }

    /// Where the text begins.
    pub closed spec fn start(&self) -> Pos {
        (self.x as int, self.y as int)
    }

    /// The characters of the text.
    pub closed spec fn content(&self) -> Seq<char> {
        self.text@
    }

    /// A text that begins at `(x, y)`. There must be room in the range of the
    /// coordinates for every character.
    pub fn new(x: isize, y: isize, s: String) -> (t: Text)
        requires
            x + s@.len() <= isize::MAX,
            y + s@.len() <= isize::MAX,
        ensures
            t.start() == (x as int, y as int),
            t.content() == s@,
    {
        Text { x: x, y: y, text: s }
    }

    /// Replaces the characters of the text.
    pub fn set_text(&mut self, s: String)
        requires
            old(self).start().0 + s@.len() <= isize::MAX,
            old(self).start().1 + s@.len() <= isize::MAX,
        ensures
            final(self).start() == old(self).start(),
            final(self).content() == s@,
    {
        *self = Text { x: self.x, y: self.y, text: s };
    }
}

impl Drawable for Text {
    /// The characters of the text, row by row from the start position on.
    open spec fn drawn(&self, before: BufferModel) -> BufferModel {
        typed(before, self.content(), self.start(), self.content().len() as int)
    }

    fn draw(&self, render: &mut RenderBuffer) {
        proof {
            use_type_invariant(self);
        }
        let mut cx = self.x;
        let mut cy = self.y;
        let ghost start = (self.x as int, self.y as int);
        for char in it: self.text.as_str().chars()
            invariant
                self.well_formed(),
                start == (self.x as int, self.y as int),
                it.seq() == self.text@,
                (cx as int, cy as int) == cursor(self.text@, start, it.index() as int),
                render@ == typed(old(render)@, self.text@, start, it.index() as int),
        {
            proof {
                lemma_cursor_bounds(self.text@, start, it.index() as int);
            }
            if char == '\n' {
                cy += 1;
                cx = self.x;
            } else {
                render.put(
                    cx,
                    cy,
                    RenderChar::new(char, Colors { foreground: None, background: None }),
                );
                cx += 1;
            }
        }
    }
}

/// Rectangle shape
pub struct RectangleShape {
    x: isize,
    y: isize,
    width: isize,
    height: isize,
    fill_char: RenderChar,
    do_fill: bool,
}

/// The positions of the rectangle of the given size whose upper left
/// corner is `origin`.
pub open spec fn inside(origin: Pos, width: int, height: int, p: Pos) -> bool {
    origin.0 <= p.0 < origin.0 + width && origin.1 <= p.1 < origin.1 + height
}

/// The positions that the outline of such a rectangle takes: its first and
/// last row over its whole width, and its first and last column over its
/// whole height.
pub open spec fn on_outline(origin: Pos, width: int, height: int, p: Pos) -> bool {
    ||| origin.0 <= p.0 < origin.0 + width && (p.1 == origin.1 || p.1 == origin.1 + height - 1)
    ||| origin.1 <= p.1 < origin.1 + height && (p.0 == origin.0 || p.0 == origin.0 + width - 1)
}

/// [`inside`] as a set of positions.
pub open spec fn block_at(origin: Pos, width: int, height: int) -> spec_fn(Pos) -> bool {
    |p: Pos| inside(origin, width, height, p)
}

/// [`on_outline`] as a set of positions.
pub open spec fn outline_at(origin: Pos, width: int, height: int) -> spec_fn(Pos) -> bool {
    |p: Pos| on_outline(origin, width, height, p)
}

/// The size can be added to the corner without leaving the range of the
/// coordinates.
pub open spec fn in_reach(x: int, y: int, w: int, h: int) -> bool {
    &&& isize::MIN < x + w <= isize::MAX
    &&& isize::MIN < y + h <= isize::MAX
}

impl RectangleShape {
    /// Every position of the shape is in the range of the coordinates.
    #[verifier::type_invariant]
    spec fn well_formed(&self) -> bool {
        in_reach(self.x as int, self.y as int, self.width as int, self.height as int)
    }

    /// The upper left corner.
    pub closed spec fn origin(&self) -> Pos {
        (self.x as int, self.y as int)
    }

    /// The width and the height.
    pub closed spec fn extent(&self) -> (int, int) {
        (self.width as int, self.height as int)
    }

    /// The character that the shape is drawn with.
    pub closed spec fn fill(&self) -> RenderChar {
        self.fill_char
    }

    /// Whether the inside is drawn too.
    pub closed spec fn filled(&self) -> bool {
        self.do_fill
    }

    /// The positions that drawing the shape overwrites.
    pub open spec fn area(&self) -> spec_fn(Pos) -> bool {
        if self.filled() {
            block_at(self.origin(), self.extent().0, self.extent().1)
        } else {
            outline_at(self.origin(), self.extent().0, self.extent().1)
        }
    }

    /// A rectangle of `w` by `h` positions with its upper left corner at
    /// `(x, y)`, drawn with `c`: filled if `f`, else as an outline.
    pub fn new(x: isize, y: isize, w: isize, h: isize, c: RenderChar, f: bool) -> (r: RectangleShape)
        requires
            in_reach(x as int, y as int, w as int, h as int),
        ensures
            r.origin() == (x as int, y as int),
            r.extent() == (w as int, h as int),
            r.fill() == c,
            r.filled() == f,
    {
        RectangleShape { x: x, y: y, width: w, height: h, fill_char: c, do_fill: f }
    }
}

impl Drawable for RectangleShape {
    /// The whole rectangle if the shape is filled, else its outline.
    open spec fn drawn(&self, before: BufferModel) -> BufferModel {
        before.painted(self.area(), self.fill())
    }

    fn draw(&self, render: &mut RenderBuffer) {
        proof {
            use_type_invariant(self);
            render.lemma_view_wf();
        }
        let ghost origin = (self.x as int, self.y as int);
        let ghost w = self.width as int;
        let ghost h = self.height as int;
        let ghost start = render@;
        let c = self.fill_char;
        if self.do_fill {
            let mut i: isize = 0;
            while i < self.width
                invariant
                    self.well_formed(),
                    0 <= i,
                    self.width > 0 ==> i <= self.width,
                    self.width <= 0 ==> i == 0,
                    origin == (self.x as int, self.y as int),
                    w == self.width as int,
                    h == self.height as int,
                    c == self.fill_char,
                    start == old(render)@,
                    render@.wf(),
                    render@.width == start.width,
                    render@.height == start.height,
                    forall|p: Pos|
                        start.covers(p) ==> #[trigger] render@.cells[p] == if inside(
                            origin,
                            i as int,
                            h,
                            p,
                        ) {
                            c
                        } else {
                            start.cells[p]
                        },
                decreases self.width - i,
            {
                let mut j: isize = 0;
                while j < self.height
                    invariant
                        self.well_formed(),
                        0 <= i < self.width,
                        0 <= j,
                        self.height > 0 ==> j <= self.height,
                        self.height <= 0 ==> j == 0,
                        origin == (self.x as int, self.y as int),
                        w == self.width as int,
                        h == self.height as int,
                        c == self.fill_char,
                        start == old(render)@,
                        render@.wf(),
                        render@.width == start.width,
                        render@.height == start.height,
                        forall|p: Pos|
                            start.covers(p) ==> #[trigger] render@.cells[p] == if inside(
                                origin,
                                i as int,
                                h,
                                p,
                            ) || (p.0 == origin.0 + i && origin.1 <= p.1 < origin.1 + j) {
                                c
                            } else {
                                start.cells[p]
                            },
                    decreases self.height - j,
                {
                    render.put(self.x + i, self.y + j, c);
                    proof {
                        render.lemma_view_wf();
                    }
                    j += 1;
                }
                proof {
                    assert forall|p: Pos| start.covers(p) implies #[trigger] render@.cells[p]
                        == if inside(origin, i + 1, h, p) {
                        c
                    } else {
                        start.cells[p]
                    } by {
                        assert(inside(origin, i + 1, h, p) <==> inside(origin, i as int, h, p) || (
                        p.0 == origin.0 + i && origin.1 <= p.1 < origin.1 + j));
                    }
                }
                i += 1;
            }
            proof {
                assert forall|p: Pos| start.covers(p) implies #[trigger] render@.cells[p]
                    == start.painted(self.area(), c).cells[p] by {
                    assert(inside(origin, i as int, h, p) <==> inside(origin, w, h, p));
                    assert(self.area()(p) == inside(origin, w, h, p));
                }
            }
            assert(render@.cells =~= start.painted(self.area(), c).cells);
        } else {
            let mut i: isize = 0;
            while i < self.width
                invariant
                    self.well_formed(),
                    0 <= i,
                    self.width > 0 ==> i <= self.width,
                    self.width <= 0 ==> i == 0,
                    origin == (self.x as int, self.y as int),
                    w == self.width as int,
                    h == self.height as int,
                    c == self.fill_char,
                    start == old(render)@,
                    render@.wf(),
                    render@.width == start.width,
                    render@.height == start.height,
                    forall|p: Pos|
                        start.covers(p) ==> #[trigger] render@.cells[p] == if origin.0 <= p.0
                            < origin.0 + i && (p.1 == origin.1 || p.1 == origin.1 + h - 1) {
                            c
                        } else {
                            start.cells[p]
                        },
                decreases self.width - i,
            {
                render.put(self.x + i, self.y + 0, c);
                render.put(self.x + i, self.y + self.height - 1, c);
                proof {
                    render.lemma_view_wf();
                }
                i += 1;
            }
            let mut j: isize = 0;
            while j < self.height
                invariant
                    self.well_formed(),
                    0 <= j,
                    self.height > 0 ==> j <= self.height,
                        self.height <= 0 ==> j == 0,
                    origin == (self.x as int, self.y as int),
                    w == self.width as int,
                    h == self.height as int,
                    c == self.fill_char,
                    start == old(render)@,
                    render@.wf(),
                    render@.width == start.width,
                    render@.height == start.height,
                    forall|p: Pos|
                        start.covers(p) ==> #[trigger] render@.cells[p] == if (origin.0 <= p.0
                            < origin.0 + w && (p.1 == origin.1 || p.1 == origin.1 + h - 1)) || (
                        origin.1 <= p.1 < origin.1 + j && (p.0 == origin.0 || p.0 == origin.0 + w
                            - 1)) {
                            c
                        } else {
                            start.cells[p]
                        },
                decreases self.height - j,
            {
                render.put(self.x + 0, self.y + j, c);
                render.put(self.x + self.width - 1, self.y + j, c);
                proof {
                    render.lemma_view_wf();
                }
                j += 1;
            }
            proof {
                assert forall|p: Pos| start.covers(p) implies #[trigger] render@.cells[p]
                    == start.painted(self.area(), c).cells[p] by {
                    assert(self.area()(p) == on_outline(origin, w, h, p));
                }
            }
            assert(render@.cells =~= start.painted(self.area(), c).cells);
        }
    }
}

/// A buffer under a title.
pub struct RenderScreen {
    buffer: RenderBuffer,
    title: String,
}

impl RenderScreen {
    /// The buffer of the screen.
    pub closed spec fn buffer(&self) -> RenderBuffer {
        self.buffer
    }

    /// The title of the screen.
    pub closed spec fn title(&self) -> Seq<char> {
        self.title@
    }

    /// A blank screen of `w` by `h` characters under the title `t`.
    pub fn new(w: usize, h: usize, t: String) -> (r: RenderScreen)
        ensures
            r.buffer()@ == BufferModel::filled(w as nat, h as nat, RenderChar::blank()),
            r.title() == t@,
    {
        RenderScreen { buffer: RenderBuffer::new(w, h), title: t }
    }

    /// Draws `object` on the buffer of the screen.
    pub fn draw<T: Drawable>(&mut self, object: &T)
        ensures
            final(self).buffer()@ == object.drawn(old(self).buffer()@),
            final(self).title() == old(self).title(),
    {
        object.draw(&mut self.buffer);
    }

    /// The characters of the screen as one string, row after row.
    pub fn as_string(&self) -> (r: String)
        ensures
            r@ == chars_of(self.buffer()@.flat()),
    {
        self.buffer.get_printable_string()
    }

    /// Fills every position with `value`, without colours.
    pub fn clear_buffer(&mut self, value: char)
        ensures
            final(self).buffer()@ == BufferModel::filled(
                old(self).buffer()@.width,
                old(self).buffer()@.height,
                (RenderChar { char: value, colors: Colors::plain() }),
            ),
            final(self).title() == old(self).title(),
    {
        self.buffer.clear(
            RenderChar::new(value, Colors { foreground: None, background: None }),
        );
    }

    /// The buffer, to be read.
    pub fn get_buffer(&self) -> (r: &RenderBuffer)
        ensures
            *r == self.buffer(),
    {
        &self.buffer
    }

    /// The buffer, to be drawn on.
    pub fn get_buffer_mut(&mut self) -> (r: &mut RenderBuffer)
        ensures
            *r == old(self).buffer(),
            final(self).buffer() == *final(r),
            final(self).title() == old(self).title(),
    {
        &mut self.buffer
    }
}

} // verus!
