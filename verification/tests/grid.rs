use tetris_stack::solve;
use tetris_stack::Error;
use tetris_stack::Grid;
use tetris_stack::Placement;
use tetris_stack::Shape;

/// One cell probe: a degenerate placement of four copies of the same cell,
/// so `can_place` answers whether that single cell is empty.
fn probe(x: usize, y: usize) -> Placement {
    Placement([(x, y), (x, y), (x, y), (x, y)])
}

#[test]
fn catalog_dimensions() {
    assert_eq!((2, 2), (Shape::Q.width(), Shape::Q.height()));
    assert_eq!((3, 2), (Shape::Z.width(), Shape::Z.height()));
    assert_eq!((3, 2), (Shape::S.width(), Shape::S.height()));
    assert_eq!((3, 2), (Shape::T.width(), Shape::T.height()));
    assert_eq!((4, 1), (Shape::I.width(), Shape::I.height()));
    assert_eq!((2, 3), (Shape::L.width(), Shape::L.height()));
    assert_eq!((2, 3), (Shape::J.width(), Shape::J.height()));
}

#[test]
fn catalog_topmost_cell_is_last() {
    // the fourth cell of every placement carries the maximum row
    let shapes = [Shape::Q, Shape::Z, Shape::S, Shape::T, Shape::I, Shape::L, Shape::J];
    for s in shapes {
        let p = s.placement_at(0, 5).unwrap();
        let top = p.0[3].1;
        for c in p.0 {
            assert!(c.1 <= top);
        }
        assert_eq!(top, 5 + s.height() - 1);
    }
}

#[test]
fn new_grid_is_empty() {
    let g = Grid::new();
    assert_eq!(0, g.height());
    for y in 0..100 {
        assert!(!g.is_row_filled(y));
    }
    assert!(g.can_place(&probe(0, 0)));
    assert!(g.can_place(&probe(9, 99)));
}

#[test]
fn single_block_rests_on_floor() {
    // drop correctness: on an empty board the bottom edge lands at row 0
    let mut g = Grid::new();
    assert_eq!(Ok(()), g.place(Shape::Q, 0));
    assert_eq!(2, g.height());
    assert!(!g.can_place(&probe(0, 0)));
    assert!(!g.can_place(&probe(1, 1)));
    assert!(g.can_place(&probe(2, 0)));
    assert!(g.can_place(&probe(0, 2)));
}

#[test]
fn t_block_bottom_cell() {
    let mut g = Grid::new();
    assert_eq!(Ok(()), g.place(Shape::T, 4));
    assert_eq!(2, g.height());
    // only the middle column of a T touches the floor
    assert!(g.can_place(&probe(4, 0)));
    assert!(!g.can_place(&probe(5, 0)));
    assert!(g.can_place(&probe(6, 0)));
    assert!(!g.can_place(&probe(4, 1)));
    assert!(!g.can_place(&probe(5, 1)));
    assert!(!g.can_place(&probe(6, 1)));
}

#[test]
fn place_out_of_bounds_leaves_grid_unchanged() {
    let mut g = Grid::new();
    assert_eq!(Err(Error::OutOfBounds), g.place(Shape::Q, 9));
    assert_eq!(Err(Error::OutOfBounds), g.place(Shape::I, 7));
    assert_eq!(Err(Error::OutOfBounds), g.place(Shape::T, 8));
    assert_eq!(0, g.height());
    assert!(g.can_place(&probe(9, 0)));
}

#[test]
fn full_rows_are_always_cleared() {
    // invariant: no fully occupied row survives a place call, and every row
    // at or above the reported height is empty
    let mut g = Grid::new();
    for (s, col) in [(Shape::I, 0), (Shape::I, 4), (Shape::Q, 8)] {
        assert_eq!(Ok(()), g.place(s, col));
        for y in 0..100 {
            assert!(!g.is_row_filled(y));
        }
        for y in g.height()..100 {
            for x in 0..10 {
                assert!(g.can_place(&probe(x, y)));
            }
        }
    }
    // row 0 was completed and cleared; the Q block's top half remains
    assert_eq!(1, g.height());
    assert!(!g.can_place(&probe(8, 0)));
    assert!(!g.can_place(&probe(9, 0)));
    assert!(g.can_place(&probe(0, 0)));
}

#[test]
fn exact_tiling_clears_to_zero() {
    let mut g = Grid::new();
    for col in [0, 2, 4, 6, 8] {
        assert_eq!(Ok(()), g.place(Shape::Q, col));
    }
    assert_eq!(0, g.height());
    for y in 0..3 {
        for x in 0..10 {
            assert!(g.can_place(&probe(x, y)));
        }
    }
}

#[test]
fn pieces_stack_without_tunneling() {
    // a bar dropped on a bar rests on top of it, not inside or below it
    assert_eq!(Ok(2), solve("I0,I0"));
    assert_eq!(Ok(4), solve("Q0,Q0"));
    assert_eq!(Ok(6), solve("L0,L0"));
}

#[test]
fn height_never_exceeds_grid_top() {
    // 50 stacked blocks of height 2 reach exactly the top of the grid;
    // one more does not fit
    let full = vec!["Q0"; 50].join(",");
    assert_eq!(Ok(100), solve(&full));
    let over = vec!["Q0"; 51].join(",");
    assert_eq!(Err(Error::OutOfBounds), solve(&over));
}

#[test]
fn malformed_tokens() {
    assert_eq!(Err(Error::MissingTetromino), solve(""));
    assert_eq!(Err(Error::MissingTetromino), solve("Q0,,Q1"));
    assert_eq!(Err(Error::BadColumn), solve("Q"));
    assert_eq!(Err(Error::BadColumn), solve("QX"));
    // the column is checked before the shape letter
    assert_eq!(Err(Error::BadColumn), solve("Xa"));
    assert_eq!(Err(Error::BadTetromino), solve("X0"));
    assert_eq!(Err(Error::BadTetromino), solve("Q0,q1"));
}

#[test]
fn token_whitespace_and_extra_characters() {
    // leading whitespace is skipped; characters after the column digit are
    // ignored
    assert_eq!(Ok(2), solve(" Q0"));
    assert_eq!(Ok(4), solve("Q0, Q1"));
    assert_eq!(Ok(2), solve("Q0\n"));
    assert_eq!(Ok(2), solve("Q07"));
}

#[test]
fn error_messages() {
    assert_eq!("out of bound", Error::OutOfBounds.message());
    assert_eq!("missing tetromino", Error::MissingTetromino.message());
    assert_eq!("bad column", Error::BadColumn.message());
    assert_eq!("bad tetromino", Error::BadTetromino.message());
}

#[test]
fn failed_placement_aborts_sequence() {
    // fail-fast: the out-of-bounds token aborts before Q1 is applied
    assert_eq!(Err(Error::OutOfBounds), solve("Q0,Q9,Q1"));
}
