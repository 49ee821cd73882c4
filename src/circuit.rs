use vstd::prelude::*;

verus! {

/// A signed reference into a circuit: a node and whether it is complemented.
#[derive(Clone, Copy, Debug, PartialEq, Eq, Structural)]
pub struct Edge {
    pub node: usize,
    pub compl: bool,
}

/// The edge of the constant `b`: node 0 is the constant false node.
pub open spec fn const_edge(b: bool) -> Edge {
    Edge { node: 0, compl: b }
}

impl Edge {
    pub fn new(node: usize, compl: bool) -> (r: Edge)
        ensures
            r == (Edge { node, compl }),
    {
        Edge { node, compl }
    }

    pub fn constant(b: bool) -> (r: Edge)
        ensures
            r == const_edge(b),
    {
        Edge { node: 0, compl: b }
    }
}

/// The edge `e`, complemented once more when `c` holds.
pub open spec fn negate_if(e: Edge, c: bool) -> Edge {
    Edge { node: e.node, compl: e.compl != c }
}

/// An argument of a gate: an edge that exists already, or the edge that a
/// preceding gate of the same program produced (complemented when the flag is set).
#[derive(Clone, Copy, Debug, PartialEq, Eq, Structural)]
pub enum Operand {
    Fixed(Edge),
    Step(usize, bool),
}

/// One circuit operation that the engine asks its circuit to perform.
#[derive(Clone, Copy, Debug, PartialEq, Eq, Structural)]
pub enum Gate {
    /// A fresh input node.
    Input,
    /// The conjunction of two edges.
    And(Operand, Operand),
    /// The disjunction of two edges.
    Or(Operand, Operand),
}

/// An operand refers to no step at or after `i`.
pub open spec fn operand_before(o: Operand, i: int) -> bool {
    match o {
        Operand::Fixed(_) => true,
        Operand::Step(k, _) => k < i,
    }
}

/// The arguments of `g`, standing at index `i`, only read steps before `i`.
pub open spec fn gate_before(g: Gate, i: int) -> bool {
    match g {
        Gate::Input => true,
        Gate::And(a, b) => operand_before(a, i) && operand_before(b, i),
        Gate::Or(a, b) => operand_before(a, i) && operand_before(b, i),
    }
}

/// A program whose gates refer only to preceding gates.
pub open spec fn program_ordered(gates: Seq<Gate>) -> bool {
    forall|i: int| 0 <= i < gates.len() ==> gate_before(#[trigger] gates[i], i)
}

/// The edge an operand stands for, given the edges the program's gates produced.
pub open spec fn resolve(o: Operand, results: Seq<Edge>) -> Edge {
    match o {
        Operand::Fixed(e) => e,
        Operand::Step(k, c) => negate_if(results[k as int], c),
    }
}

/// The edge an operand stands for, given the edges the preceding gates produced.
pub fn resolve_operand(o: Operand, results: &[Edge]) -> (r: Edge)
    requires
        operand_before(o, results@.len() as int),
    ensures
        r == resolve(o, results@),
{
    match o {
        Operand::Fixed(e) => e,
        Operand::Step(k, c) => {
            let e = results[k];
            Edge { node: e.node, compl: e.compl != c }
        },
    }
}

} // verus!
