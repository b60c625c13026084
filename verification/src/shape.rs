//! The shape catalog: the seven tetromino variants, their bounding boxes,
//! and the four absolute cells each one occupies at a given anchor.

use vstd::prelude::*;

verus! {

/// The errors the library reports.
#[derive(Clone, Copy, Debug, PartialEq, Eq, Structural)]
pub enum Error {
    /// A shape's bounding box at the requested anchor would leave the grid.
    OutOfBounds,
    /// A placement token with no shape letter at all.
    MissingTetromino,
    /// A placement token whose column character is missing or not a digit.
    BadColumn,
    /// A placement token whose first character is not a known shape letter.
    BadTetromino,
}

impl Error {
    /// A short human-readable description of the error.
    pub fn message(&self) -> (r: &'static str)
        ensures
            *self == Error::OutOfBounds ==> r@ == "out of bound"@,
            *self == Error::MissingTetromino ==> r@ == "missing tetromino"@,
            *self == Error::BadColumn ==> r@ == "bad column"@,
            *self == Error::BadTetromino ==> r@ == "bad tetromino"@,
    {
        match self {
            Error::OutOfBounds => "out of bound",
            Error::MissingTetromino => "missing tetromino",
            Error::BadColumn => "bad column",
            Error::BadTetromino => "bad tetromino",
        }
    }
}

/// One of the seven fixed tetromino shapes. There is no rotation: each
/// variant has a single orientation, given by `spec_cells`.
#[derive(Clone, Copy, Debug, PartialEq, Eq, Structural)]
pub enum Shape {
    Q,
    Z,
    S,
    T,
    I,
    L,
    J,
}

/// A placement of a shape on the grid: exactly four `(column, row)` cells.
/// By construction the last cell always has the maximum row of the four.
#[derive(Clone, Copy, Debug)]
pub struct Placement(pub [(usize, usize); 4]);

impl View for Placement {
    type V = Seq<(int, int)>;

    open spec fn view(&self) -> Seq<(int, int)> {
        seq![
            (self.0[0].0 as int, self.0[0].1 as int),
            (self.0[1].0 as int, self.0[1].1 as int),
            (self.0[2].0 as int, self.0[2].1 as int),
            (self.0[3].0 as int, self.0[3].1 as int),
        ]
    }
}

/// Every cell of `cells` lies on the 10 x 100 grid.
pub open spec fn cells_in_bounds(cells: Seq<(int, int)>) -> bool {
    forall|i: int|
        0 <= i < cells.len() ==> 0 <= (#[trigger] cells[i]).0 < 10 && 0 <= cells[i].1 < 100
}

/// A shape anchored at `(x, y)` fits on the grid: its bounding box does not
/// cross the right edge or the top edge.
pub open spec fn fits(s: Shape, x: int, y: int) -> bool {
    &&& 0 <= x
    &&& 0 <= y
    &&& x + s.spec_width() <= 10
    &&& y + s.spec_height() <= 100
}

impl Shape {
    /// Bounding-box width of the shape.
    pub open spec fn spec_width(self) -> int {
        match self {
            Shape::Q => 2,
            Shape::Z => 3,
            Shape::S => 3,
            Shape::T => 3,
            Shape::I => 4,
            Shape::L => 2,
            Shape::J => 2,
        }
    }

    /// Bounding-box height of the shape.
    pub open spec fn spec_height(self) -> int {
        match self {
            Shape::Q => 2,
            Shape::Z => 2,
            Shape::S => 2,
            Shape::T => 2,
            Shape::I => 1,
            Shape::L => 3,
            Shape::J => 3,
        }
    }

    /// The four cells the shape occupies when its bounding box has its
    /// bottom-left corner at `(x, y)`, in the shape's fixed order. The last
    /// cell always carries the maximum row, `y + spec_height - 1`.
    pub open spec fn spec_cells(self, x: int, y: int) -> Seq<(int, int)> {
        match self {
            Shape::Q => seq![(x, y), (x + 1, y), (x, y + 1), (x + 1, y + 1)],
            Shape::Z => seq![(x + 1, y), (x + 2, y), (x, y + 1), (x + 1, y + 1)],
            Shape::S => seq![(x, y), (x + 1, y), (x + 1, y + 1), (x + 2, y + 1)],
            Shape::T => seq![(x + 1, y), (x, y + 1), (x + 1, y + 1), (x + 2, y + 1)],
            Shape::I => seq![(x, y), (x + 1, y), (x + 2, y), (x + 3, y)],
            Shape::L => seq![(x, y), (x + 1, y), (x, y + 1), (x, y + 2)],
            Shape::J => seq![(x, y), (x + 1, y), (x + 1, y + 1), (x + 1, y + 2)],
        }
    }

    /// Bounding-box width of the shape.
    pub fn width(self) -> (r: usize)
        ensures
            r == self.spec_width(),
    {
        match self {
            Shape::Q => 2,
            Shape::Z => 3,
            Shape::S => 3,
            Shape::T => 3,
            Shape::I => 4,
            Shape::L => 2,
            Shape::J => 2,
        }
    }

    /// Bounding-box height of the shape.
    pub fn height(self) -> (r: usize)
        ensures
            r == self.spec_height(),
    {
        match self {
            Shape::Q => 2,
            Shape::Z => 2,
            Shape::S => 2,
            Shape::T => 2,
            Shape::I => 1,
            Shape::L => 3,
            Shape::J => 3,
        }
    }

    /// The placement of the shape anchored at `(x, y)`: the four absolute
    /// cells of `spec_cells`, or `OutOfBounds` when the bounding box would
    /// leave the grid.
    pub fn placement_at(self, x: usize, y: usize) -> (r: Result<Placement, Error>)
        ensures
            (r is Ok) == fits(self, x as int, y as int),
            r matches Ok(p) ==> p@ == self.spec_cells(x as int, y as int),
            r matches Err(e) ==> e == Error::OutOfBounds,
    {
        if x > 10 - self.width() || y > 100 - self.height() {
            Err(Error::OutOfBounds)
        } else {
            let p = match self {
                Shape::Q => Placement([(x, y), (x + 1, y), (x, y + 1), (x + 1, y + 1)]),
                Shape::Z => Placement([(x + 1, y), (x + 2, y), (x, y + 1), (x + 1, y + 1)]),
                Shape::S => Placement([(x, y), (x + 1, y), (x + 1, y + 1), (x + 2, y + 1)]),
                Shape::T => Placement([(x + 1, y), (x, y + 1), (x + 1, y + 1), (x + 2, y + 1)]),
                Shape::I => Placement([(x, y), (x + 1, y), (x + 2, y), (x + 3, y)]),
                Shape::L => Placement([(x, y), (x + 1, y), (x, y + 1), (x, y + 2)]),
                Shape::J => Placement([(x, y), (x + 1, y), (x + 1, y + 1), (x + 1, y + 2)]),
            };
            assert(p@ =~= self.spec_cells(x as int, y as int));
            Ok(p)
        }
    }

    /// The anchor-ordering contract of the catalog: at any anchor the four
    /// cells stay inside the shape's bounding box, and the last cell is the
    /// topmost one, at row `y + spec_height - 1`.
    pub proof fn lemma_cells_bounds(self, x: int, y: int)
        ensures
            self.spec_cells(x, y).len() == 4,
            forall|i: int|
                0 <= i < 4 ==> {
                    let c = #[trigger] self.spec_cells(x, y)[i];
                    &&& x <= c.0 < x + self.spec_width()
                    &&& y <= c.1 < y + self.spec_height()
                },
            self.spec_cells(x, y)[3].1 == y + self.spec_height() - 1,
    {
    }
}

} // verus!
