use cadical::answer::{model_value, solve_answer};
use cadical::craig::{ClauseLabel, VarLabel};
use cadical::lit::{cadical_lit_to_lit, lit_to_cadical_lit, Lit};

#[test]
fn labels_have_solver_codes() {
    assert_eq!(u8::from(VarLabel::A), 0);
    assert_eq!(u8::from(VarLabel::B), 1);
    assert_eq!(u8::from(VarLabel::Global), 2);
    assert_eq!(u8::from(ClauseLabel::A), 0);
    assert_eq!(u8::from(ClauseLabel::B), 1);
}

#[test]
fn literals_encode_as_signed_variables_plus_one() {
    assert_eq!(lit_to_cadical_lit(&Lit::new(0, true)), 1);
    assert_eq!(lit_to_cadical_lit(&Lit::new(0, false)), -1);
    assert_eq!(lit_to_cadical_lit(&Lit::new(41, false)), -42);
    assert_eq!(cadical_lit_to_lit(7), Lit::new(6, true));
    assert_eq!(cadical_lit_to_lit(-1), Lit::new(0, false));
    assert_eq!(cadical_lit_to_lit(i32::MIN + 1), Lit::new(i32::MAX as u32 - 1, false));
    for x in [-5, -1, 1, 2, 100] {
        assert_eq!(lit_to_cadical_lit(&cadical_lit_to_lit(x)), x);
    }
}

#[test]
fn literal_codes_and_negation() {
    let l = Lit::new(5, true);
    assert_eq!(l.lit_code(), 10);
    assert_eq!(l.not().lit_code(), 11);
    assert_eq!(l.not(), Lit::new(5, false));
    assert_eq!(l.not().not(), l);
    assert_eq!(l.var(), 5);
    assert!(l.polarity());
}

#[test]
fn solver_status_codes() {
    assert_eq!(solve_answer(10), Some(true));
    assert_eq!(solve_answer(20), Some(false));
    assert_eq!(solve_answer(0), None);
    assert_eq!(solve_answer(-10), None);
}

#[test]
fn model_values_read_signed_literals() {
    assert_eq!(model_value(3, 3), Some(true));
    assert_eq!(model_value(3, -3), Some(false));
    assert_eq!(model_value(-3, 3), Some(false));
    assert_eq!(model_value(-3, -3), Some(true));
    assert_eq!(model_value(3, 0), None);
    assert_eq!(model_value(i32::MAX, -i32::MAX), Some(false));
}
