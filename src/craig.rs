use vstd::prelude::*;

verus! {

/// The partition a variable belongs to, for the solver's built-in interpolation.
#[derive(Clone, Copy, Debug, PartialEq, Eq, Structural)]
pub enum VarLabel {
    A,
    B,
    Global,
}

/// The partition a clause belongs to, for the solver's built-in interpolation.
#[derive(Clone, Copy, Debug, PartialEq, Eq, Structural)]
pub enum ClauseLabel {
    A,
    B,
}

pub open spec fn var_label_code(l: VarLabel) -> u8 {
    match l {
        VarLabel::A => 0,
        VarLabel::B => 1,
        VarLabel::Global => 2,
    }
}

pub open spec fn clause_label_code(l: ClauseLabel) -> u8 {
    match l {
        ClauseLabel::A => 0,
        ClauseLabel::B => 1,
    }
}

impl From<VarLabel> for u8 {
    fn from(val: VarLabel) -> (r: u8)
        ensures
            r == var_label_code(val),
    {
        match val {
            VarLabel::A => 0,
            VarLabel::B => 1,
            VarLabel::Global => 2,
        }
    }
}

impl vstd::std_specs::convert::FromSpecImpl<VarLabel> for u8 {
    open spec fn obeys_from_spec() -> bool {
        true
    }

    open spec fn from_spec(v: VarLabel) -> u8 {
        var_label_code(v)
    }
}

impl From<ClauseLabel> for u8 {
    fn from(val: ClauseLabel) -> (r: u8)
        ensures
            r == clause_label_code(val),
    {
        match val {
            ClauseLabel::A => 0,
            ClauseLabel::B => 1,
        }
    }
}

impl vstd::std_specs::convert::FromSpecImpl<ClauseLabel> for u8 {
    open spec fn obeys_from_spec() -> bool {
        true
    }

    open spec fn from_spec(v: ClauseLabel) -> u8 {
        clause_label_code(v)
    }
}

} // verus!
