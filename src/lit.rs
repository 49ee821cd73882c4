use vstd::prelude::*;

verus! {

/// A literal: a propositional variable together with a polarity.
#[derive(Clone, Copy, Debug, PartialEq, Eq, Hash, Structural)]
pub struct Lit {
    pub var: u32,
    pub polarity: bool,
}

impl Lit {
    pub fn new(var: u32, polarity: bool) -> (r: Lit)
        ensures
            r.var == var,
            r.polarity == polarity,
    {
        Lit { var, polarity }
    }

    pub fn var(&self) -> (r: u32)
        ensures
            r == self.var,
    {
        self.var
    }

    pub fn polarity(&self) -> (r: bool)
        ensures
            r == self.polarity,
    {
        self.polarity
    }

    /// A number that tells literals apart: twice the variable, plus one when negative.
    pub open spec fn code(self) -> u64 {
        (2 * (self.var as u64) + if self.polarity {
            0u64
        } else {
            1u64
        }) as u64
    }

    pub fn lit_code(&self) -> (r: u64)
        ensures
            r == self.code(),
    {
        2 * (self.var as u64) + if self.polarity {
            0
        } else {
            1
        }
    }

    pub open spec fn negated(self) -> Lit {
        Lit { var: self.var, polarity: !self.polarity }
    }

    /// The literal of the same variable with the other polarity.
    pub fn not(&self) -> (r: Lit)
        ensures
            r == self.negated(),
    {
        Lit { var: self.var, polarity: !self.polarity }
    }
}

/// The solver's signed encoding of a literal: the variable plus one, negated when
/// the literal is negative.
pub open spec fn dimacs_of(l: Lit) -> int {
    if l.polarity {
        l.var as int + 1
    } else {
        -(l.var as int + 1)
    }
}

pub fn lit_to_cadical_lit(lit: &Lit) -> (r: i32)
    requires
        lit.var < i32::MAX,
    ensures
        r as int == dimacs_of(*lit),
{
    let res: i32 = lit.var as i32 + 1;
    if !lit.polarity {
        -res
    } else {
        res
    }
}

pub fn cadical_lit_to_lit(lit: i32) -> (r: Lit)
    requires
        lit != 0,
    ensures
        dimacs_of(r) == lit as int,
{
    let p = lit > 0;
    let v: u32 = if lit > 0 {
        (lit - 1) as u32
    } else {
        (-(lit + 1)) as u32
    };
    Lit::new(v, p)
}

} // verus!
