//! The ownership table: which entity occupies each cell of the grid.

use vstd::prelude::*;

verus! {

/// What occupies a position. `Void` is the answer for positions outside the
/// table; the other variants describe cells inside it.
#[derive(Debug, Clone, Copy, PartialEq, Eq, Structural)]
pub enum Cell {
    Void,
    Wall,
    Player(usize),
    Food,
    Empty,
}

/// A `width × height` table of cells, stored column by column.
#[derive(Debug)]
pub struct CellManager {
    size: (usize, usize),
    data: Vec<Vec<Cell>>,
}

/// The positions of a `width × height` grid.
pub open spec fn in_grid(width: nat, height: nat, p: (int, int)) -> bool {
    0 <= p.0 < width && 0 <= p.1 < height
}

impl View for CellManager {
    type V = Map<(int, int), Cell>;

    /// The table as a map from the positions inside the grid to their cells.
    closed spec fn view(&self) -> Map<(int, int), Cell> {
        Map::new(
            |p: (int, int)| in_grid(self.size.0 as nat, self.size.1 as nat, p),
            |p: (int, int)| self.data[p.0][p.1],
        )
    }
}

impl CellManager {
    /// There is one column for each `x`, and one cell in it for each `y`.
    #[verifier::type_invariant]
    spec fn well_formed(&self) -> bool {
        &&& self.data.len() == self.size.0
        &&& forall|x: int| 0 <= x < self.data.len() ==> (#[trigger] self.data[x]).len() == self.size.1
    }

    /// The number of columns.
    pub closed spec fn width(&self) -> nat {
        self.size.0 as nat
    }

    /// The number of rows.
    pub closed spec fn height(&self) -> nat {
        self.size.1 as nat
    }

    /// The cell at a position: the stored value inside the grid, `Void` outside.
    pub open spec fn cell(&self, p: (int, int)) -> Cell {
        if self@.dom().contains(p) {
            self@[p]
        } else {
            Cell::Void
        }
    }

    /// The view is defined on the positions of the grid and on no others.
    pub proof fn lemma_domain(&self)
        ensures
            forall|p: (int, int)|
                self@.dom().contains(p) <==> in_grid(self.width(), self.height(), p),
    {
    }

    /// A table of empty cells.
    pub fn new(width: usize, height: usize) -> (r: Self)
        ensures
            r.width() == width,
            r.height() == height,
            forall|p: (int, int)| r@.dom().contains(p) ==> r@[p] == Cell::Empty,
    {
        let mut data: Vec<Vec<Cell>> = Vec::new();
        let mut x: usize = 0;
        while x < width
            invariant
                x <= width,
                data.len() == x,
                forall|i: int| 0 <= i < x ==> (#[trigger] data[i]).len() == height,
                forall|i: int, j: int| 0 <= i < x && 0 <= j < height ==> data[i][j] == Cell::Empty,
            decreases width - x,
        {
            let mut column: Vec<Cell> = Vec::new();
            let mut y: usize = 0;
            while y < height
                invariant
                    y <= height,
                    column.len() == y,
                    forall|j: int| 0 <= j < y ==> column[j] == Cell::Empty,
                decreases height - y,
            {
                column.push(Cell::Empty);
                y += 1;
            }
            data.push(column);
            x += 1;
        }
        Self { size: (width, height), data }
    }

    /// The width and the height of the table.
    pub fn size(&self) -> (r: (usize, usize))
        ensures
            r.0 == self.width(),
            r.1 == self.height(),
    {
        (self.size.0, self.size.1)
    }

    /// The cell at `(x, y)`, and `Void` for a position outside the table.
    pub fn get_cell(&self, x: isize, y: isize) -> (c: Cell)
        ensures
            c == self.cell((x as int, y as int)),
    {
        proof {
            use_type_invariant(self);
        }
        if x >= 0 && y >= 0 {
            let x = x as usize;
            let y = y as usize;
            if x < self.size.0 && y < self.size.1 {
                self.data[x][y]
            } else {
                Cell::Void
            }
        } else {
            Cell::Void
        }
    }

    /// Stores `c` at `(x, y)`. A position outside the table is ignored.
    pub fn set_cell(&mut self, x: isize, y: isize, c: Cell)
        ensures
            final(self).width() == old(self).width(),
            final(self).height() == old(self).height(),
            final(self)@ == if old(self)@.dom().contains((x as int, y as int)) {
                old(self)@.insert((x as int, y as int), c)
            } else {
                old(self)@
            },
    {
        proof {
            use_type_invariant(&*self);
        }
        if x >= 0 && y >= 0 {
            let x = x as usize;
            let y = y as usize;
            if x < self.size.0 && y < self.size.1 {
                store(&mut self.data, x, y, c);
                assert(self@ =~= old(self)@.insert((x as int, y as int), c));
            }
        }
    }
}

/// Overwrites one entry of a table of columns, leaving every length and
/// every other entry as it was.
fn store(data: &mut Vec<Vec<Cell>>, x: usize, y: usize, c: Cell)
    requires
        x < old(data).len(),
        y < old(data)[x as int].len(),
    ensures
        final(data).len() == old(data).len(),
        final(data)[x as int]@ == old(data)[x as int]@.update(y as int, c),
        forall|i: int| 0 <= i < old(data).len() && i != x ==> final(data)[i] == old(data)[i],
    no_unwind
{
    data[x][y] = c;
}

impl Clone for CellManager {
    fn clone(&self) -> (r: Self)
        ensures
            r.width() == self.width(),
            r.height() == self.height(),
            r@ == self@,
    {
        proof {
            use_type_invariant(self);
        }
        let mut data: Vec<Vec<Cell>> = Vec::new();
        let mut x: usize = 0;
        while x < self.size.0
            invariant
                self.well_formed(),
                x <= self.size.0,
                data.len() == x,
                forall|i: int| 0 <= i < x ==> (#[trigger] data[i])@ == self.data[i]@,
            decreases self.size.0 - x,
        {
            let mut column: Vec<Cell> = Vec::new();
            let mut y: usize = 0;
            while y < self.size.1
                invariant
                    self.well_formed(),
                    x < self.size.0,
                    y <= self.size.1,
                    column.len() == y,
                    forall|j: int| 0 <= j < y ==> column[j] == self.data[x as int][j],
                decreases self.size.1 - y,
            {
                column.push(self.data[x][y]);
                y += 1;
            }
            assert(column@ =~= self.data[x as int]@);
            data.push(column);
            x += 1;
        }
        let r = Self { size: (self.size.0, self.size.1), data };
        assert(r@ =~= self@);
        r
    }
}

} // verus!
