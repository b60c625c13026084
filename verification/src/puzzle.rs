//! Running a whole puzzle line: parse comma-separated placement tokens
//! (one shape letter followed by one decimal column digit) and apply each
//! placement in order to a single grid, reporting the final height.

use crate::grid::empty_grid;
use crate::grid::spec_place;
use crate::grid::Grid;
use crate::shape::fits;
use crate::shape::Error;
use crate::shape::Shape;
use vstd::prelude::*;
use vstd::string::StrSliceExecFns;

verus! {

/// ASCII whitespace, ignored in front of a token's shape letter.
pub open spec fn is_space(c: char) -> bool {
    c == ' ' || c == '\t' || c == '\n' || c == '\r' || c == '\u{b}' || c == '\u{c}'
}

/// A decimal digit.
pub open spec fn is_digit(c: char) -> bool {
    48 <= c as u32 && c as u32 <= 57
}

/// The numeric value of a decimal digit character.
pub open spec fn digit_val(c: char) -> int {
    c as u32 - 48
}

/// The shape named by a token's first character, if any.
pub open spec fn shape_of_char(c: char) -> Option<Shape> {
    if c == 'Q' {
        Some(Shape::Q)
    } else if c == 'Z' {
        Some(Shape::Z)
    } else if c == 'S' {
        Some(Shape::S)
    } else if c == 'T' {
        Some(Shape::T)
    } else if c == 'I' {
        Some(Shape::I)
    } else if c == 'L' {
        Some(Shape::L)
    } else if c == 'J' {
        Some(Shape::J)
    } else {
        None
    }
}

/// The token with its leading whitespace removed.
pub open spec fn skip_spaces(t: Seq<char>) -> Seq<char>
    decreases t.len(),
{
    if t.len() > 0 && is_space(t[0]) {
        skip_spaces(t.drop_first())
    } else {
        t
    }
}

/// Parsing one placement token: the shape letter and the column digit, read
/// from the first two characters after leading whitespace; anything after
/// them is ignored. A missing letter, then a missing or non-digit column,
/// then an unknown letter are reported in that order.
pub open spec fn spec_parse_token(t: Seq<char>) -> Result<(Shape, int), Error> {
    let u = skip_spaces(t);
    if u.len() == 0 {
        Err(Error::MissingTetromino)
    } else if u.len() < 2 || !is_digit(u[1]) {
        Err(Error::BadColumn)
    } else {
        match shape_of_char(u[0]) {
            Some(s) => Ok((s, digit_val(u[1]))),
            None => Err(Error::BadTetromino),
        }
    }
}

/// Applying one token to a board: parse it, then place the shape, failing
/// with `OutOfBounds` exactly when the shape does not fit in the column.
pub open spec fn spec_apply(g: Seq<Seq<bool>>, b: int, tok: Seq<char>) -> Result<
    (Seq<Seq<bool>>, int),
    Error,
> {
    match spec_parse_token(tok) {
        Ok((s, col)) => if fits(s, col, b) {
            Ok(spec_place(g, b, s, col))
        } else {
            Err(Error::OutOfBounds)
        },
        Err(e) => Err(e),
    }
}

/// Running the rest of an input line on a board, with `tok` the characters
/// of the current token read so far: a comma or the end of the input closes
/// the token and applies it; the first failing token aborts the run.
pub open spec fn spec_solve_from(
    g: Seq<Seq<bool>>,
    b: int,
    s: Seq<char>,
    tok: Seq<char>,
) -> Result<int, Error>
    decreases s.len(),
{
    if s.len() == 0 {
        match spec_apply(g, b, tok) {
            Ok(gb) => Ok(gb.1),
            Err(e) => Err(e),
        }
    } else if s[0] == ',' {
        match spec_apply(g, b, tok) {
            Ok(gb) => spec_solve_from(gb.0, gb.1, s.drop_first(), Seq::empty()),
            Err(e) => Err(e),
        }
    } else {
        spec_solve_from(g, b, s.drop_first(), tok.push(s[0]))
    }
}

/// The height reported for a whole input line run on a fresh board, or the
/// first error met.
pub open spec fn spec_solve(s: Seq<char>) -> Result<int, Error> {
    spec_solve_from(empty_grid(), 0, s, Seq::empty())
}

/// Exec mirror of `is_space`.
fn is_space_char(c: char) -> (r: bool)
    ensures
        r == is_space(c),
{
    c == ' ' || c == '\t' || c == '\n' || c == '\r' || c == '\u{b}' || c == '\u{c}'
}

/// Parse one placement token, as `spec_parse_token` describes.
fn parse_token(tok: &Vec<char>) -> (r: Result<(Shape, usize), Error>)
    ensures
        (match (r, spec_parse_token(tok@)) {
            (Ok((s, col)), Ok(sc)) => s == sc.0 && col as int == sc.1 && col < 10,
            (Err(e), Err(ee)) => e == ee,
            _ => false,
        }),
{
    let mut j: usize = 0;
    proof {
        assert(tok@.skip(0) =~= tok@);
    }
    while j < tok.len() && is_space_char(tok[j])
        invariant
            j <= tok@.len(),
            skip_spaces(tok@) == skip_spaces(tok@.skip(j as int)),
        decreases tok@.len() - j,
    {
        proof {
            assert(tok@.skip(j as int)[0] == tok@[j as int]);
            assert(tok@.skip(j as int).drop_first() =~= tok@.skip(j as int + 1));
        }
        j += 1;
    }
    proof {
        if j < tok@.len() {
            assert(tok@.skip(j as int)[0] == tok@[j as int]);
        }
        assert(skip_spaces(tok@) == tok@.skip(j as int));
    }
    if j >= tok.len() {
        return Err(Error::MissingTetromino);
    }
    let c0 = tok[j];
    if j + 1 >= tok.len() {
        return Err(Error::BadColumn);
    }
    let c1 = tok[j + 1];
    proof {
        assert(skip_spaces(tok@)[0] == tok@[j as int]);
        assert(skip_spaces(tok@)[1] == tok@[j as int + 1]);
    }
    let u1: u32 = c1 as u32;
    if u1 < 48 || u1 > 57 {
        return Err(Error::BadColumn);
    }
    let col: usize = (u1 - 48) as usize;
    if c0 == 'Q' {
        Ok((Shape::Q, col))
    } else if c0 == 'Z' {
        Ok((Shape::Z, col))
    } else if c0 == 'S' {
        Ok((Shape::S, col))
    } else if c0 == 'T' {
        Ok((Shape::T, col))
    } else if c0 == 'I' {
        Ok((Shape::I, col))
    } else if c0 == 'L' {
        Ok((Shape::L, col))
    } else if c0 == 'J' {
        Ok((Shape::J, col))
    } else {
        Err(Error::BadTetromino)
    }
}

/// Parse one token and apply its placement to the grid.
fn apply_token(grid: &mut Grid, tok: &Vec<char>) -> (r: Result<(), Error>)
    requires
        old(grid).wf(),
    ensures
        final(grid).wf(),
        (match (r, spec_apply(old(grid).rows(), old(grid).blank(), tok@)) {
            (Ok(_), Ok(gb)) => final(grid).rows() == gb.0 && final(grid).blank() == gb.1,
            (Err(e), Err(ee)) => e == ee,
            _ => false,
        }),
{
    match parse_token(tok) {
        Ok((s, col)) => grid.place(s, col),
        Err(e) => Err(e),
    }
}

/// Run one comma-separated line of placement tokens on a fresh board and
/// report the resulting stack height, or the first error met; later tokens
/// are not applied after a failure.
pub fn solve(input: &str) -> (r: Result<usize, Error>)
    ensures
        (match (r, spec_solve(input@)) {
            (Ok(h), Ok(hh)) => h as int == hh && h <= 100,
            (Err(e), Err(ee)) => e == ee,
            _ => false,
        }),
{
    let mut grid = Grid::new();
    proof {
        assert(grid.rows() =~~= empty_grid());
    }
    let n: usize = input.unicode_len();
    let mut tok: Vec<char> = Vec::new();
    let mut i: usize = 0;
    proof {
        assert(input@.skip(0) =~= input@);
    }
    while i < n
        invariant
            grid.wf(),
            n == input@.len(),
            i <= n,
            spec_solve(input@) == spec_solve_from(
                grid.rows(),
                grid.blank(),
                input@.skip(i as int),
                tok@,
            ),
        decreases n - i,
    {
        let c = input.get_char(i);
        proof {
            assert(input@.skip(i as int)[0] == input@[i as int]);
            assert(input@.skip(i as int).drop_first() =~= input@.skip(i as int + 1));
        }
        if c == ',' {
            match apply_token(&mut grid, &tok) {
                Ok(_) => {},
                Err(e) => {
                    return Err(e);
                },
            }
            tok.clear();
        } else {
            tok.push(c);
        }
        i += 1;
    }
    proof {
        assert(input@.skip(n as int).len() == 0);
    }
    match apply_token(&mut grid, &tok) {
        Ok(_) => Ok(grid.height()),
        Err(e) => Err(e),
    }
}

} // verus!
