use vstd::prelude::*;

verus! {

/// The solver's code for a satisfiable instance.
pub const SAT_CODE: i32 = 10;

/// The solver's code for an unsatisfiable instance.
pub const UNSAT_CODE: i32 = 20;

/// Reads a solver status code: `Some(true)` for satisfiable, `Some(false)` for
/// unsatisfiable, `None` when the solver gave no answer.
pub fn solve_answer(code: i32) -> (r: Option<bool>)
    ensures
        r == (if code == SAT_CODE {
            Some(true)
        } else if code == UNSAT_CODE {
            Some(false)
        } else {
            None::<bool>
        }),
{
    if code == SAT_CODE {
        Some(true)
    } else if code == UNSAT_CODE {
        Some(false)
    } else {
        None
    }
}

/// Reads the solver's value of the signed literal `lit` in a model, which the
/// solver reports as `res`: the literal itself when true, its negation when
/// false, anything else when unassigned.
pub fn model_value(lit: i32, res: i32) -> (r: Option<bool>)
    requires
        lit != i32::MIN,
    ensures
        r == (if res == lit {
            Some(true)
        } else if res as int == -(lit as int) {
            Some(false)
        } else {
            None::<bool>
        }),
{
    if res == lit {
        Some(true)
    } else if res == -lit {
        Some(false)
    } else {
        None
    }
}

} // verus!
