//! The board: a 10 x 100 occupancy matrix plus the index of the first
//! guaranteed-blank row, with the drop resolver and the row clearer.
//!
//! The whole behaviour of [`Grid::place`] is pinned down by the spec-level
//! model [`spec_place`]: scan for the resting row ([`rest_row`]), mark the
//! four cells ([`mark_cells`]), raise the blank index, then clear every full
//! row in the shape's vertical span ([`clear_iter`]).

use crate::shape::cells_in_bounds;
use crate::shape::fits;
use crate::shape::Error;
use crate::shape::Placement;
use crate::shape::Shape;
use vstd::prelude::*;

verus! {

/// Every cell of the row is occupied.
pub open spec fn row_full(row: Seq<bool>) -> bool {
    forall|x: int| 0 <= x < row.len() ==> row[x]
}

/// Every cell of the row is empty.
pub open spec fn row_empty(row: Seq<bool>) -> bool {
    forall|x: int| 0 <= x < row.len() ==> !row[x]
}

/// The board is a 100-row matrix of 10-cell rows.
pub open spec fn grid_dims(g: Seq<Seq<bool>>) -> bool {
    &&& g.len() == 100
    &&& forall|y: int| 0 <= y < 100 ==> (#[trigger] g[y]).len() == 10
}

/// Well-formedness of a board state: correct dimensions, every row at or
/// above `blank` entirely empty, and no fully occupied row anywhere (full
/// rows are always cleared before a placement returns).
pub open spec fn grid_wf(g: Seq<Seq<bool>>, blank: int) -> bool {
    &&& grid_dims(g)
    &&& 0 <= blank <= 100
    &&& forall|y: int| blank <= y < 100 ==> row_empty(#[trigger] g[y])
    &&& forall|y: int| 0 <= y < 100 ==> !row_full(#[trigger] g[y])
}

/// All the given cells are currently empty on the board.
pub open spec fn cells_free(g: Seq<Seq<bool>>, cells: Seq<(int, int)>) -> bool {
    forall|i: int| 0 <= i < cells.len() ==> !g[(#[trigger] cells[i]).1][cells[i].0]
}

/// The anchor row where a shape dropped into `col` comes to rest, scanning
/// candidate rows strictly downward from `from - 1`: keep descending while
/// the shape's cells are all free, and stop at the first blocked row.
pub open spec fn rest_row(g: Seq<Seq<bool>>, s: Shape, col: int, from: nat) -> nat
    decreases from,
{
    if from == 0 {
        0
    } else if cells_free(g, s.spec_cells(col, from - 1)) {
        rest_row(g, s, col, (from - 1) as nat)
    } else {
        from
    }
}

/// The board with one cell `(column, row)` marked occupied.
pub open spec fn mark_cell(g: Seq<Seq<bool>>, c: (int, int)) -> Seq<Seq<bool>> {
    g.update(c.1, g[c.1].update(c.0, true))
}

/// The board with all the given cells marked occupied, in order.
pub open spec fn mark_cells(g: Seq<Seq<bool>>, cells: Seq<(int, int)>) -> Seq<Seq<bool>>
    decreases cells.len(),
{
    if cells.len() == 0 {
        g
    } else {
        mark_cells(mark_cell(g, cells.first()), cells.drop_first())
    }
}

/// A fully blank row.
pub open spec fn empty_row() -> Seq<bool> {
    Seq::new(10, |x: int| false)
}

/// The fully empty board.
pub open spec fn empty_grid() -> Seq<Seq<bool>> {
    Seq::new(100, |y: int| empty_row())
}

/// Remove row `y` and append a blank row at the top, shifting every row
/// above `y` down by one while the matrix keeps its size.
pub open spec fn clear_step(g: Seq<Seq<bool>>, y: int) -> Seq<Seq<bool>> {
    g.remove(y).push(empty_row())
}

/// The board and blank index after the first `n` iterations of the
/// row-clear scan, which inspects rows `top`, `top - 1`, ... in turn and
/// clears each one found fully occupied.
pub open spec fn clear_iter(g: Seq<Seq<bool>>, blank: int, top: int, n: nat) -> (
    Seq<Seq<bool>>,
    int,
)
    decreases n,
{
    if n == 0 {
        (g, blank)
    } else {
        let prev = clear_iter(g, blank, top, (n - 1) as nat);
        let y = top - (n - 1);
        if row_full(prev.0[y]) {
            (clear_step(prev.0, y), prev.1 - 1)
        } else {
            prev
        }
    }
}

/// The resting anchor row of one placement.
pub open spec fn place_rest(g: Seq<Seq<bool>>, blank: int, s: Shape, col: int) -> int {
    rest_row(g, s, col, blank as nat) as int
}

/// The board after the resting placement's cells are marked, before clearing.
pub open spec fn place_marked(g: Seq<Seq<bool>>, blank: int, s: Shape, col: int) -> Seq<
    Seq<bool>,
> {
    mark_cells(g, s.spec_cells(col, place_rest(g, blank, s, col)))
}

/// The row of the placement's topmost cell.
pub open spec fn place_top(g: Seq<Seq<bool>>, blank: int, s: Shape, col: int) -> int {
    place_rest(g, blank, s, col) + s.spec_height() - 1
}

/// The blank index raised to sit just above the placement's topmost cell.
pub open spec fn place_raised_blank(g: Seq<Seq<bool>>, blank: int, s: Shape, col: int) -> int {
    let t = place_top(g, blank, s, col) + 1;
    if blank >= t {
        blank
    } else {
        t
    }
}

/// The full model of one successful placement: resolve the resting row,
/// mark the four cells, raise the blank index, then run the row-clear scan
/// over the shape's whole vertical span.
pub open spec fn spec_place(g: Seq<Seq<bool>>, blank: int, s: Shape, col: int) -> (
    Seq<Seq<bool>>,
    int,
) {
    clear_iter(
        place_marked(g, blank, s, col),
        place_raised_blank(g, blank, s, col),
        place_top(g, blank, s, col),
        s.spec_height() as nat,
    )
}

/// Membership in a non-empty sequence splits into its head and its tail.
proof fn lemma_contains_unfold<A>(s: Seq<A>, c: A)
    requires
        s.len() > 0,
    ensures
        s.contains(c) <==> (c == s.first() || s.drop_first().contains(c)),
{
    if s.contains(c) {
        let i = choose|i: int| 0 <= i < s.len() && s[i] == c;
        if i > 0 {
            assert(s.drop_first()[i - 1] == c);
        }
    }
    if s.drop_first().contains(c) {
        let i = choose|i: int| 0 <= i < s.drop_first().len() && s.drop_first()[i] == c;
        assert(s[i + 1] == c);
    }
}

/// Marking cells sets exactly those cells and leaves every other cell as it
/// was: the marked board reads `g[y][x] || cells.contains((x, y))`.
pub proof fn lemma_mark_cells_pointwise(g: Seq<Seq<bool>>, cells: Seq<(int, int)>)
    requires
        grid_dims(g),
        cells_in_bounds(cells),
    ensures
        grid_dims(mark_cells(g, cells)),
        forall|x: int, y: int|
            0 <= x < 10 && 0 <= y < 100 ==> #[trigger] mark_cells(g, cells)[y][x] == (g[y][x]
                || cells.contains((x, y))),
    decreases cells.len(),
{
    if cells.len() == 0 {
    } else {
        let c0 = cells.first();
        let rest = cells.drop_first();
        let g1 = mark_cell(g, c0);
        assert(cells[0] == c0);
        assert(grid_dims(g1)) by {
            assert forall|y: int| 0 <= y < 100 implies (#[trigger] g1[y]).len() == 10 by {
                if y == c0.1 {
                    assert(g1[y] == g[c0.1].update(c0.0, true));
                } else {
                    assert(g1[y] == g[y]);
                }
            }
        }
        assert(cells_in_bounds(rest)) by {
            assert forall|i: int| 0 <= i < rest.len() implies 0 <= (#[trigger] rest[i]).0 < 10 && 0
                <= rest[i].1 < 100 by {
                assert(rest[i] == cells[i + 1]);
            }
        }
        lemma_mark_cells_pointwise(g1, rest);
        assert forall|x: int, y: int| 0 <= x < 10 && 0 <= y < 100 implies #[trigger] mark_cells(
            g,
            cells,
        )[y][x] == (g[y][x] || cells.contains((x, y))) by {
            lemma_contains_unfold(cells, (x, y));
            if y == c0.1 {
                assert(g1[y] == g[c0.1].update(c0.0, true));
            } else {
                assert(g1[y] == g[y]);
            }
            assert(g1[y][x] == (g[y][x] || (x, y) == c0));
            assert(mark_cells(g, cells)[y][x] == (g1[y][x] || rest.contains((x, y))));
        }
    }
}

/// What the row-clear scan preserves after its first `n` iterations: the
/// dimensions, the blank index dropping once per cleared row while staying
/// above the still-unscanned span, emptiness at and above the blank index,
/// no full row above the scan point, and the rows below the scan point
/// untouched.
pub proof fn lemma_clear_iter_props(g: Seq<Seq<bool>>, blank: int, top: int, n: nat)
    requires
        grid_dims(g),
        0 <= top < 100,
        n <= top + 1,
        top < blank <= 100,
        forall|y: int| blank <= y < 100 ==> row_empty(#[trigger] g[y]),
        forall|y: int| top < y < 100 ==> !row_full(#[trigger] g[y]),
    ensures
        ({
            let r = clear_iter(g, blank, top, n);
            &&& grid_dims(r.0)
            &&& blank - n <= r.1 <= blank
            &&& top - n < r.1
            &&& forall|y: int| r.1 <= y < 100 ==> row_empty(#[trigger] r.0[y])
            &&& forall|y: int| top - n < y < 100 ==> !row_full(#[trigger] r.0[y])
            &&& forall|j: int| 0 <= j <= top - n ==> #[trigger] r.0[j] == g[j]
        }),
    decreases n,
{
    if n == 0 {
    } else {
        lemma_clear_iter_props(g, blank, top, (n - 1) as nat);
        let prev = clear_iter(g, blank, top, (n - 1) as nat);
        let y = top - (n - 1);
        let r = clear_iter(g, blank, top, n);
        if row_full(prev.0[y]) {
            // the full row must lie below the current blank index
            assert(!row_empty(prev.0[y])) by {
                assert(prev.0[y].len() == 10);
                assert(prev.0[y][0]);
            }
            assert(y < prev.1);
            prev.0.remove_ensures(y);
            assert(r.0 == prev.0.remove(y).push(empty_row()));
            assert(r.0.len() == 100);
            assert(!row_full(empty_row())) by {
                assert(!empty_row()[0]);
            }
            assert(row_empty(empty_row()));
            assert forall|j: int| 0 <= j < 100 implies (#[trigger] r.0[j]) == (if j < y {
                prev.0[j]
            } else if j < 99 {
                prev.0[j + 1]
            } else {
                empty_row()
            }) by {
                if j < 99 {
                    assert(r.0[j] == prev.0.remove(y)[j]);
                }
            }
            assert(grid_dims(r.0)) by {
                assert forall|j: int| 0 <= j < 100 implies (#[trigger] r.0[j]).len() == 10 by {}
            }
            assert forall|j: int| r.1 <= j < 100 implies row_empty(#[trigger] r.0[j]) by {
                if j < 99 {
                    assert(r.0[j] == prev.0[j + 1]);
                }
            }
            assert forall|j: int| top - n < j < 100 implies !row_full(#[trigger] r.0[j]) by {
                if j < 99 {
                    assert(r.0[j] == prev.0[j + 1]);
                }
            }
        } else {
            assert(r == prev);
        }
    }
}

/// The grid: the occupancy matrix and the index of the first blank row,
/// which is also the reported stack height.
pub struct Grid {
    squares: Vec<Vec<bool>>,
    first_blank: usize,
}

impl Grid {
    /// The occupancy matrix as a sequence of rows of cells.
    pub closed spec fn rows(&self) -> Seq<Seq<bool>> {
        self.squares@.map_values(|r: Vec<bool>| r@)
    }

    /// The index of the first guaranteed-blank row.
    pub closed spec fn blank(&self) -> int {
        self.first_blank as int
    }

    /// The grid invariant; holds after construction and after every
    /// successful placement.
    pub open spec fn wf(&self) -> bool {
        grid_wf(self.rows(), self.blank())
    }

    /// An empty 10 x 100 board with the blank index at the floor.
    pub fn new() -> (r: Grid)
        ensures
            r.wf(),
            r.blank() == 0,
            r.rows() == empty_grid(),
    {
        let mut squares: Vec<Vec<bool>> = Vec::new();
        while squares.len() < 100
            invariant
                squares@.len() <= 100,
                forall|y: int|
                    0 <= y < squares@.len() ==> (#[trigger] squares@[y])@.len() == 10 && row_empty(
                        squares@[y]@,
                    ),
            decreases 100 - squares@.len(),
        {
            let row = empty_row_vec();
            squares.push(row);
        }
        let g = Grid { squares, first_blank: 0 };
        proof {
            assert forall|y: int| 0 <= y < 100 implies (#[trigger] g.rows()[y]).len() == 10
                && row_empty(g.rows()[y]) by {
                assert(g.rows()[y] == g.squares@[y]@);
            }
            assert forall|y: int| 0 <= y < 100 implies !row_full(#[trigger] g.rows()[y]) by {
                assert(!g.rows()[y][0]);
            }
            assert(g.rows() =~~= empty_grid());
        }
        g
    }

    /// Whether row `y` is completely occupied.
    pub fn is_row_filled(&self, y: usize) -> (r: bool)
        requires
            grid_dims(self.rows()),
            y < 100,
        ensures
            r == row_full(self.rows()[y as int]),
    {
        let mut x: usize = 0;
        let mut filled = true;
        while x < 10
            invariant
                grid_dims(self.rows()),
                y < 100,
                x <= 10,
                filled == (forall|j: int| 0 <= j < x ==> self.rows()[y as int][j]),
            decreases 10 - x,
        {
            proof {
                assert(self.rows().len() == self.squares@.len());
                assert(self.rows()[y as int] == self.squares@[y as int]@);
            }
            if !self.squares[y][x] {
                filled = false;
            }
            x += 1;
        }
        filled
    }

    /// Whether all four cells of the placement are currently empty.
    pub fn can_place(&self, p: &Placement) -> (r: bool)
        requires
            grid_dims(self.rows()),
            cells_in_bounds(p@),
        ensures
            r == cells_free(self.rows(), p@),
    {
        let mut i: usize = 0;
        let mut ok = true;
        while i < 4
            invariant
                grid_dims(self.rows()),
                cells_in_bounds(p@),
                i <= 4,
                ok == (forall|j: int|
                    0 <= j < i ==> !self.rows()[(#[trigger] p@[j]).1][p@[j].0]),
            decreases 4 - i,
        {
            let (x, y) = p.0[i];
            proof {
                assert(p@[i as int] == (x as int, y as int));
                assert((x as int) < 10 && (y as int) < 100);
                assert(self.rows().len() == self.squares@.len());
                assert(self.rows()[y as int] == self.squares@[y as int]@);
            }
            if self.squares[y][x] {
                ok = false;
            }
            i += 1;
        }
        ok
    }

    /// Mark one cell occupied.
    fn set_cell(&mut self, x: usize, y: usize)
        requires
            grid_dims(old(self).rows()),
            x < 10,
            y < 100,
        ensures
            final(self).rows() == mark_cell(old(self).rows(), (x as int, y as int)),
            final(self).first_blank == old(self).first_blank,
    {
        let ghost r0 = self.rows();
        proof {
            assert(r0.len() == self.squares@.len());
            assert(r0[y as int] == self.squares@[y as int]@);
        }
        self.squares[y][x] = true;
        proof {
            assert(self.rows() =~= mark_cell(r0, (x as int, y as int))) by {
                assert forall|j: int| 0 <= j < 100 implies self.rows()[j] == mark_cell(
                    r0,
                    (x as int, y as int),
                )[j] by {
                    if j == y {
                        assert(self.squares@[j]@ == r0[j].update(x as int, true));
                    } else {
                        assert(self.squares@[j] == old(self).squares@[j]);
                    }
                }
            }
        }
    }

    /// Remove row `y` and append a blank row at the top.
    fn clear_row(&mut self, y: usize)
        requires
            grid_dims(old(self).rows()),
            y < 100,
        ensures
            final(self).rows() == clear_step(old(self).rows(), y as int),
            final(self).first_blank == old(self).first_blank,
    {
        let ghost r0 = self.rows();
        let ghost sq0 = self.squares@;
        self.squares.remove(y);
        let ev = empty_row_vec();
        self.squares.push(ev);
        proof {
            sq0.remove_ensures(y as int);
            r0.remove_ensures(y as int);
            assert(self.rows() =~= clear_step(r0, y as int)) by {
                assert forall|j: int| 0 <= j < 100 implies self.rows()[j] == clear_step(
                    r0,
                    y as int,
                )[j] by {
                    if j < y {
                        assert(self.squares@[j] == sq0[j]);
                        assert(clear_step(r0, y as int)[j] == r0[j]);
                    } else if j < 99 {
                        assert(self.squares@[j] == sq0[j + 1]);
                        assert(clear_step(r0, y as int)[j] == r0[j + 1]);
                    } else {
                        assert(self.squares@[j]@ == empty_row());
                        assert(clear_step(r0, y as int)[j] == empty_row());
                    }
                }
            }
        }
    }

    /// Drop `shape` straight down into `column`: resolve the resting row
    /// without tunneling past any obstruction, mark the four cells, then
    /// clear every row of the shape's span that became full. Fails with
    /// `OutOfBounds`, mutating nothing, exactly when the shape's bounding
    /// box does not fit at the current blank row.
    pub fn place(&mut self, shape: Shape, column: usize) -> (r: Result<(), Error>)
        requires
            old(self).wf(),
        ensures
            final(self).wf(),
            (r is Ok) == fits(shape, column as int, old(self).blank()),
            r matches Err(e) ==> e == Error::OutOfBounds && *final(self) == *old(self),
            r is Ok ==> final(self).rows() == spec_place(
                old(self).rows(),
                old(self).blank(),
                shape,
                column as int,
            ).0,
            r is Ok ==> final(self).blank() == spec_place(
                old(self).rows(),
                old(self).blank(),
                shape,
                column as int,
            ).1,
    {
        let ghost g0 = self.rows();
        let ghost b0 = self.blank();
        let fb0 = self.first_blank;

        // baseline placement at the first blank row; by the grid invariant it
        // is always free, so it only checks the bounding box
        let mut placement = match shape.placement_at(column, fb0) {
            Ok(p) => p,
            Err(e) => {
                return Err(e);
            },
        };

        // scan candidate anchor rows strictly downward; stop at the first
        // row where the shape no longer fits over the existing stack
        let mut rest: usize = fb0;
        let mut blocked = false;
        while rest > 0 && !blocked
            invariant
                self == old(self),
                self.rows() == g0,
                b0 == fb0 as int,
                grid_wf(g0, b0),
                fits(shape, column as int, b0),
                rest <= fb0,
                placement@ == shape.spec_cells(column as int, rest as int),
                cells_in_bounds(placement@),
                rest_row(g0, shape, column as int, b0 as nat) == rest_row(
                    g0,
                    shape,
                    column as int,
                    rest as nat,
                ),
                blocked ==> rest > 0 && !cells_free(
                    g0,
                    shape.spec_cells(column as int, rest - 1),
                ),
            decreases rest, (if blocked { 0int } else { 1int }),
        {
            let p = match shape.placement_at(column, rest - 1) {
                Ok(p) => p,
                Err(_) => {
                    proof {
                        assert(fits(shape, column as int, rest - 1));
                    }
                    vstd::pervasive::unreached()
                },
            };
            if self.can_place(&p) {
                placement = p;
                rest -= 1;
            } else {
                blocked = true;
            }
        }
        proof {
            assert(rest as int == place_rest(g0, b0, shape, column as int));
        }

        // mark the four cells of the chosen placement
        let ghost cells = shape.spec_cells(column as int, rest as int);
        proof {
            shape.lemma_cells_bounds(column as int, rest as int);
        }
        let mut i: usize = 0;
        while i < 4
            invariant
                i <= 4,
                grid_dims(g0),
                cells == shape.spec_cells(column as int, rest as int),
                placement@ == cells,
                cells_in_bounds(cells),
                self.rows() == mark_cells(g0, cells.take(i as int)),
                self.first_blank == fb0,
            decreases 4 - i,
        {
            let (x, y) = placement.0[i];
            proof {
                assert(cells[i as int] == (x as int, y as int));
                assert(cells_in_bounds(cells.take(i as int))) by {
                    assert forall|j: int|
                        0 <= j < i implies 0 <= (#[trigger] cells.take(i as int)[j]).0 < 10 && 0
                        <= cells.take(i as int)[j].1 < 100 by {
                        assert(cells.take(i as int)[j] == cells[j]);
                    }
                }
                lemma_mark_cells_pointwise(g0, cells.take(i as int));
                lemma_mark_cells_snoc(g0, cells.take(i as int), cells[i as int]);
                assert(cells.take(i as int).push(cells[i as int]) =~= cells.take(i as int + 1));
            }
            self.set_cell(x, y);
            i += 1;
        }
        proof {
            assert(cells.take(4) =~= cells);
        }
        let ghost marked = self.rows();
        proof {
            assert(marked == place_marked(g0, b0, shape, column as int));
            lemma_mark_cells_pointwise(g0, cells);
        }

        // the placement's last cell is its topmost; raise the blank index
        // to sit just above it
        let top = placement.0[3].1;
        proof {
            assert(cells[3] == (placement.0[3].0 as int, top as int));
            assert(top as int == place_top(g0, b0, shape, column as int));
        }
        if self.first_blank < top + 1 {
            self.first_blank = top + 1;
        }
        let ghost nb = place_raised_blank(g0, b0, shape, column as int);
        proof {
            assert(self.first_blank as int == nb);
            // the marked board satisfies the row-clear scan's preconditions
            assert forall|y: int| nb <= y < 100 implies row_empty(#[trigger] marked[y]) by {
                assert forall|x: int| 0 <= x < 10 implies !marked[y][x] by {
                    lemma_cells_rows_in_span(cells, shape, column as int, rest as int, x, y);
                }
            }
            assert forall|y: int| top < y < 100 implies !row_full(#[trigger] marked[y]) by {
                lemma_row_outside_span_unchanged(g0, cells, shape, column as int, rest as int, y);
            }
        }

        // clear every full row in the shape's vertical span, scanning from
        // the top cell downward
        let hh = shape.height();
        let mut k: usize = 0;
        while k < hh
            invariant
                k <= hh,
                hh == shape.spec_height(),
                grid_dims(marked),
                0 <= top < 100,
                hh <= top + 1,
                (top as int) < nb <= 100,
                forall|y: int| nb <= y < 100 ==> row_empty(#[trigger] marked[y]),
                forall|y: int| (top as int) < y < 100 ==> !row_full(#[trigger] marked[y]),
                self.rows() == clear_iter(marked, nb, top as int, k as nat).0,
                self.first_blank as int == clear_iter(marked, nb, top as int, k as nat).1,
            decreases hh - k,
        {
            proof {
                lemma_clear_iter_props(marked, nb, top as int, k as nat);
            }
            let y = top - k;
            if self.is_row_filled(y) {
                proof {
                    assert(!row_empty(self.rows()[y as int])) by {
                        assert(self.rows()[y as int][0]);
                    }
                    assert((y as int) < self.first_blank as int);
                }
                self.clear_row(y);
                self.first_blank -= 1;
            }
            k += 1;
        }
        proof {
            lemma_clear_iter_props(marked, nb, top as int, hh as nat);
            let r = clear_iter(marked, nb, top as int, hh as nat);
            assert(self.rows() == spec_place(g0, b0, shape, column as int).0);
            assert(self.blank() == spec_place(g0, b0, shape, column as int).1);
            // no full row survives: above the span by the scan, below it
            // because those rows were never touched and were not full before
            assert forall|y: int| 0 <= y < 100 implies !row_full(#[trigger] self.rows()[y]) by {
                if y <= top - hh {
                    assert(self.rows()[y] == marked[y]);
                    lemma_row_outside_span_unchanged(
                        g0,
                        cells,
                        shape,
                        column as int,
                        rest as int,
                        y,
                    );
                }
            }
        }
        Ok(())
    }

    /// The current stack height: the index of the first blank row.
    pub fn height(&self) -> (r: usize)
        requires
            self.wf(),
        ensures
            r as int == self.blank(),
            r <= 100,
    {
        self.first_blank
    }
}

/// A freshly allocated fully blank row.
fn empty_row_vec() -> (v: Vec<bool>)
    ensures
        v@ == empty_row(),
{
    let mut v: Vec<bool> = Vec::new();
    while v.len() < 10
        invariant
            v@.len() <= 10,
            forall|x: int| 0 <= x < v@.len() ==> !(#[trigger] v@[x]),
        decreases 10 - v@.len(),
    {
        v.push(false);
    }
    proof {
        assert(v@ =~= empty_row());
    }
    v
}

/// Marking one more cell after a batch equals marking the extended batch.
proof fn lemma_mark_cells_snoc(g: Seq<Seq<bool>>, cells: Seq<(int, int)>, c: (int, int))
    ensures
        mark_cells(g, cells.push(c)) == mark_cell(mark_cells(g, cells), c),
    decreases cells.len(),
{
    let pc = cells.push(c);
    if cells.len() == 0 {
        assert(pc.first() == c);
        assert(pc.drop_first().len() == 0);
        assert(mark_cells(g, pc) == mark_cells(mark_cell(g, c), pc.drop_first()));
        assert(mark_cells(mark_cell(g, c), pc.drop_first()) == mark_cell(g, c));
        assert(mark_cells(g, cells) == g);
    } else {
        assert(pc.first() == cells.first());
        assert(pc.drop_first() =~= cells.drop_first().push(c));
        lemma_mark_cells_snoc(mark_cell(g, cells.first()), cells.drop_first(), c);
        assert(mark_cells(g, pc) == mark_cells(mark_cell(g, cells.first()), pc.drop_first()));
        assert(mark_cells(g, cells) == mark_cells(mark_cell(g, cells.first()), cells.drop_first()));
    }
}

/// Every cell of a shape placement lies in the placement's own span of
/// rows, so cells with a row outside it are untouched by the marking.
proof fn lemma_cells_rows_in_span(
    cells: Seq<(int, int)>,
    s: Shape,
    col: int,
    rest: int,
    x: int,
    y: int,
)
    requires
        cells == s.spec_cells(col, rest),
        y < rest || y > rest + s.spec_height() - 1,
    ensures
        !cells.contains((x, y)),
{
    s.lemma_cells_bounds(col, rest);
    if cells.contains((x, y)) {
        let i = choose|i: int| 0 <= i < cells.len() && cells[i] == (x, y);
        assert(rest <= cells[i].1 < rest + s.spec_height());
    }
}

/// A row outside the placement's span keeps its exact contents, so in
/// particular it is full after marking only if it was full before.
proof fn lemma_row_outside_span_unchanged(
    g: Seq<Seq<bool>>,
    cells: Seq<(int, int)>,
    s: Shape,
    col: int,
    rest: int,
    y: int,
)
    requires
        grid_dims(g),
        cells == s.spec_cells(col, rest),
        cells_in_bounds(cells),
        0 <= y < 100,
        y < rest || y > rest + s.spec_height() - 1,
    ensures
        row_full(mark_cells(g, cells)[y]) == row_full(g[y]),
        row_empty(mark_cells(g, cells)[y]) == row_empty(g[y]),
{
    lemma_mark_cells_pointwise(g, cells);
    assert forall|x: int| 0 <= x < 10 implies mark_cells(g, cells)[y][x] == g[y][x] by {
        lemma_cells_rows_in_span(cells, s, col, rest, x, y);
    }
    assert(mark_cells(g, cells)[y].len() == 10);
    assert(g[y].len() == 10);
}

/// The no-tunneling law: the resting row found by the downward scan is the
/// lowest row from which every row up to the starting point is free, and it
/// sits directly above the first obstruction met while scanning down — a
/// piece never comes to rest below a row where it would collide.
pub proof fn lemma_rest_row_no_tunneling(g: Seq<Seq<bool>>, s: Shape, col: int, from: nat)
    ensures
        rest_row(g, s, col, from) <= from,
        forall|j: int|
            rest_row(g, s, col, from) <= j < from ==> cells_free(
                g,
                #[trigger] s.spec_cells(col, j),
            ),
        rest_row(g, s, col, from) > 0 ==> !cells_free(
            g,
            s.spec_cells(col, rest_row(g, s, col, from) - 1),
        ),
    decreases from,
{
    if from > 0 && cells_free(g, s.spec_cells(col, from - 1)) {
        lemma_rest_row_no_tunneling(g, s, col, (from - 1) as nat);
    }
}

/// The drop-correctness law: a piece dropped where every candidate row is
/// free — in particular into an empty board — rests with its bottom edge on
/// the floor, at anchor row 0.
pub proof fn lemma_rest_row_empty_column(g: Seq<Seq<bool>>, s: Shape, col: int, from: nat)
    requires
        forall|j: int| 0 <= j < from ==> cells_free(g, #[trigger] s.spec_cells(col, j)),
    ensures
        rest_row(g, s, col, from) == 0,
{
    lemma_rest_row_no_tunneling(g, s, col, from);
}

/// The drop-correctness law at board level: when the columns a shape spans
/// hold nothing below the blank index, the shape dropped there rests with
/// its bottom edge on the floor, at anchor row 0.
pub proof fn lemma_drop_rests_on_floor(g: Seq<Seq<bool>>, blank: int, s: Shape, col: int)
    requires
        grid_wf(g, blank),
        fits(s, col, blank),
        forall|y: int, x: int|
            0 <= y < blank && col <= x < col + s.spec_width() ==> !(#[trigger] g[y][x]),
    ensures
        place_rest(g, blank, s, col) == 0,
{
    assert forall|j: int| 0 <= j < blank implies cells_free(
        g,
        #[trigger] s.spec_cells(col, j),
    ) by {
        s.lemma_cells_bounds(col, j);
        let cells = s.spec_cells(col, j);
        assert forall|i: int| 0 <= i < cells.len() implies !g[(#[trigger] cells[i]).1][
            cells[i].0
        ] by {
            let c = cells[i];
            if c.1 >= blank {
                assert(row_empty(g[c.1]));
            }
        }
    }
    lemma_rest_row_empty_column(g, s, col, blank as nat);
}

/// The full-clear law: when a placement leaves every row below the raised
/// blank index fully occupied, the clear scan removes them all, the board
/// comes out entirely empty, and the height returns to zero.
pub proof fn lemma_place_full_clear(g: Seq<Seq<bool>>, blank: int, s: Shape, col: int)
    requires
        grid_wf(g, blank),
        fits(s, col, blank),
        forall|y: int|
            0 <= y < place_raised_blank(g, blank, s, col) ==> row_full(
                #[trigger] place_marked(g, blank, s, col)[y],
            ),
    ensures
        spec_place(g, blank, s, col).1 == 0,
        forall|y: int|
            0 <= y < 100 ==> row_empty(#[trigger] spec_place(g, blank, s, col).0[y]),
{
    let rest = place_rest(g, blank, s, col);
    let cells = s.spec_cells(col, rest);
    let marked = place_marked(g, blank, s, col);
    let top = place_top(g, blank, s, col);
    let nb = place_raised_blank(g, blank, s, col);
    let h = s.spec_height();
    lemma_rest_row_no_tunneling(g, s, col, blank as nat);
    s.lemma_cells_bounds(col, rest);
    assert(cells_in_bounds(cells)) by {
        assert forall|i: int| 0 <= i < cells.len() implies 0 <= (#[trigger] cells[i]).0 < 10 && 0
            <= cells[i].1 < 100 by {}
    }
    lemma_mark_cells_pointwise(g, cells);
    // row 0 is full after marking, but no row was full before, so the
    // placement itself reaches row 0: the resting row is the floor
    assert(rest == 0) by {
        if rest > 0 {
            lemma_row_outside_span_unchanged(g, cells, s, col, rest, 0);
        }
    }
    // ... and the raised blank sits exactly at the top of the span
    assert(nb == top + 1) by {
        if nb > top + 1 {
            lemma_row_outside_span_unchanged(g, cells, s, col, rest, nb - 1);
        }
    }
    assert forall|y: int| nb <= y < 100 implies row_empty(#[trigger] marked[y]) by {
        assert forall|x: int| 0 <= x < 10 implies !marked[y][x] by {
            lemma_cells_rows_in_span(cells, s, col, rest, x, y);
        }
    }
    assert forall|y: int| top < y < 100 implies !row_full(#[trigger] marked[y]) by {
        lemma_row_outside_span_unchanged(g, cells, s, col, rest, y);
    }
    lemma_full_clear_iter(marked, nb, top, h as nat);
    lemma_clear_iter_props(marked, nb, top, h as nat);
}

/// When every row of the scanned span is full, each scan iteration clears
/// one row, so the blank index drops by exactly one per iteration.
proof fn lemma_full_clear_iter(g: Seq<Seq<bool>>, blank: int, top: int, n: nat)
    requires
        grid_dims(g),
        0 <= top < 100,
        blank == top + 1,
        n <= blank,
        forall|y: int| 0 <= y < blank ==> row_full(#[trigger] g[y]),
        forall|y: int| blank <= y < 100 ==> row_empty(#[trigger] g[y]),
        forall|y: int| top < y < 100 ==> !row_full(#[trigger] g[y]),
    ensures
        clear_iter(g, blank, top, n).1 == blank - n,
    decreases n,
{
    if n > 0 {
        lemma_full_clear_iter(g, blank, top, (n - 1) as nat);
        lemma_clear_iter_props(g, blank, top, (n - 1) as nat);
        let prev = clear_iter(g, blank, top, (n - 1) as nat);
        let y = top - (n - 1);
        assert(prev.0[y] == g[y]);
        assert(row_full(prev.0[y]));
    }
}

} // verus!
