use tetris_stack::solve;
use tetris_stack::Error;

#[test]
fn examples() -> Result<(), Error> {
    assert_eq!(2, solve("Q0")?);
    assert_eq!(4, solve("Q0,Q1")?);
    assert_eq!(0, solve("Q0,Q2,Q4,Q6,Q8")?);
    assert_eq!(2, solve("Q0,Q2,Q4,Q6,Q8,Q1")?);
    assert_eq!(4, solve("Q0,Q2,Q4,Q6,Q8,Q1,Q1")?);
    assert_eq!(1, solve("I0,I4,Q8")?);
    assert_eq!(0, solve("I0,I4,Q8,I0,I4")?);
    assert_eq!(2, solve("L0,J2,L4,J6,Q8")?);
    assert_eq!(2, solve("L0,Z1,Z3,Z5,Z7")?);
    assert_eq!(2, solve("T0,T3")?);
    assert_eq!(1, solve("T0,T3,I6,I6")?);
    assert_eq!(1, solve("I0,I6,S4")?);
    assert_eq!(4, solve("T1,Z3,I4")?);
    assert_eq!(3, solve("L0,J3,L5,J8,T1")?);
    assert_eq!(1, solve("L0,J3,L5,J8,T1,T6")?);
    assert_eq!(2, solve("L0,J3,L5,J8,T1,T6,J2,L6,T0,T7")?);
    assert_eq!(1, solve("L0,J3,L5,J8,T1,T6,J2,L6,T0,T7,Q4")?);
    assert_eq!(8, solve("S0,S2,S4,S6")?);
    assert_eq!(8, solve("S0,S2,S4,S5,Q8,Q8,Q8,Q8,T1,Q1,I0,Q4")?);
    assert_eq!(0, solve("L0,J3,L5,J8,T1,T6,S2,Z5,T0,T7")?);
    assert_eq!(3, solve("Q0,I2,I6,I0,I6,I6,Q2,Q4")?);

    Ok(())
}

// check to make sure once a row is cleared, the next tetromino can fill
// in the previously unreachable hole.
//
// after I0, I6, T4, J8, T6, the grid layout is
//
//                   x
//             x x x x
//         x x x x x x
// x x x x   x x x x x
//
// I0 clears out row 1, allowing T3 to fit in the hole in row 0.
#[test]
fn extras() -> Result<(), Error> {
    assert_eq!(2, solve("I0,I6,T4,J8,T6,I0,T3")?);

    Ok(())
}
