use crate::circuit::{const_edge, negate_if, resolve, Edge, Gate, Operand};
use crate::lit::Lit;
use vstd::prelude::*;

verus! {

/// Why the engine refused an event.
#[derive(Clone, Copy, Debug, PartialEq, Eq, Structural)]
pub enum ItpError {
    /// A label was staged while another one was still pending.
    LabelAlreadyStaged,
    /// A fresh original clause arrived with no label staged for it.
    MissingLabel,
    /// A clause was restored while a label was staged for a fresh one.
    LabelStagedOnRestore,
    /// The clause id is live already.
    ClauseLive,
    /// The clause id is not live (or, for a restore, was never labelled).
    UnknownClause,
    /// A B-clause arrived after an A-clause had been processed.
    BAfterA,
    /// A derived clause arrived without antecedents.
    EmptyChain,
    /// Circuit work handed out before has not been answered yet.
    Busy,
    /// Circuit results arrived while no circuit work was pending.
    NothingPending,
    /// The number of circuit results differs from the number of gates handed out.
    ResultCount,
    /// The conclusion has a shape that the engine does not handle.
    Unsupported,
    /// The refutation has not been concluded yet.
    NotConcluded,
}

/// The Boolean function that a partial interpolant stands for, over the input
/// nodes of variables.
pub enum Formula {
    Const(bool),
    /// The input node of a variable, read positively or negatively.
    Input(usize, bool),
    And(Box<Formula>, Box<Formula>),
    Or(Box<Formula>, Box<Formula>),
}

/// The formula reads the input nodes of variables in `vars` only.
pub open spec fn reads_only(f: Formula, vars: Set<u64>) -> bool
    decreases f,
{
    match f {
        Formula::Const(_) => true,
        Formula::Input(v, _) => vars.contains(v as u64),
        Formula::And(a, b) => reads_only(*a, vars) && reads_only(*b, vars),
        Formula::Or(a, b) => reads_only(*a, vars) && reads_only(*b, vars),
    }
}

/// A live proof clause: its literals, its partial interpolant, and the formula
/// that the interpolant stands for.
pub struct LiveClause {
    pub lits: Seq<Lit>,
    pub itp: Edge,
    pub formula: Formula,
}

/// Circuit work handed out for a clause and not answered yet.
pub struct PendingView {
    /// The clause that waits for its interpolant.
    pub id: usize,
    pub lits: Seq<Lit>,
    /// The variables that get a fresh input node, with the step that makes it.
    pub fresh: Map<usize, usize>,
    /// The number of gates handed out.
    pub n_gates: nat,
    /// Where the clause's interpolant comes from.
    pub result: Operand,
    /// What the clause's interpolant stands for.
    pub formula: Formula,
}

/// The state of the interpolation engine.
pub struct ItpView {
    /// The variables (as `u64`) that occur in some B-clause seen so far.
    pub b_vars: Set<u64>,
    /// The input node of each B-variable that an A-clause has used.
    pub inputs: Map<usize, usize>,
    /// The partition of every clause id ever introduced (`true` for B).
    pub labels: Map<usize, bool>,
    /// The label staged for the next fresh clause.
    pub staged: Option<bool>,
    pub live: Map<usize, LiveClause>,
    /// Whether an A-clause has been processed.
    pub handled_a: bool,
    pub pending: Option<PendingView>,
    /// The interpolant of the empty clause, once concluded.
    pub output: Option<Edge>,
}

/// The state before any event.
pub open spec fn initial_view() -> ItpView {
    ItpView {
        b_vars: Set::empty(),
        inputs: Map::empty(),
        labels: Map::empty(),
        staged: None,
        live: Map::empty(),
        handled_a: false,
        pending: None,
        output: None,
    }
}

/// What the engine keeps true between events.
pub open spec fn view_inv(s: ItpView) -> bool {
    &&& forall|id: usize| #[trigger]
        s.live.contains_key(id) ==> reads_only(s.live[id].formula, s.b_vars)
    &&& pending_inv(s)
}

pub open spec fn pending_inv(s: ItpView) -> bool {
    match s.pending {
        Some(p) => {
            &&& p.n_gates > 0
            &&& crate::circuit::operand_before(p.result, p.n_gates as int)
            &&& reads_only(p.formula, s.b_vars)
            &&& forall|v: usize| #[trigger]
                p.fresh.contains_key(v) ==> !s.inputs.contains_key(v) && p.fresh[v] < p.n_gates
        },
        None => true,
    }
}

/// The variables of a clause, as `u64`.
pub open spec fn clause_vars(c: Seq<Lit>) -> Set<u64>
    decreases c.len(),
{
    if c.len() == 0 {
        Set::empty()
    } else {
        clause_vars(c.drop_last()).insert(c.last().var as u64)
    }
}

/// The codes of the literals of a clause.
pub open spec fn codes(c: Seq<Lit>) -> Set<u64>
    decreases c.len(),
{
    if c.len() == 0 {
        Set::empty()
    } else {
        codes(c.drop_last()).insert(c.last().code())
    }
}

pub open spec fn stage_step(s: ItpView, is_b: bool) -> (Result<(), ItpError>, ItpView) {
    if s.staged is Some {
        (Err(ItpError::LabelAlreadyStaged), s)
    } else {
        (Ok(()), ItpView { staged: Some(is_b), ..s })
    }
}

/// The label an original clause gets: the staged one, or on a restore the recorded one.
pub open spec fn original_label(s: ItpView, id: usize, restore: bool) -> bool {
    if restore {
        s.labels[id]
    } else {
        match s.staged {
            Some(b) => b,
            None => false,
        }
    }
}

pub open spec fn original_error(s: ItpView, id: usize, restore: bool) -> Option<ItpError> {
    if s.pending is Some {
        Some(ItpError::Busy)
    } else if s.live.contains_key(id) {
        Some(ItpError::ClauseLive)
    } else if !restore && s.staged is None {
        Some(ItpError::MissingLabel)
    } else if restore && s.staged is Some {
        Some(ItpError::LabelStagedOnRestore)
    } else if restore && !s.labels.contains_key(id) {
        Some(ItpError::UnknownClause)
    } else if original_label(s, id, restore) && s.handled_a {
        Some(ItpError::BAfterA)
    } else {
        None
    }
}

/// The circuit program of an A-clause, built literal by literal.
pub struct AProgram {
    pub gates: Seq<Gate>,
    /// The step that creates the input node of each variable that had none.
    pub fresh: Map<usize, usize>,
    /// The disjunction so far.
    pub acc: Operand,
    /// What the disjunction so far stands for.
    pub formula: Formula,
}

/// The operand that stands for literal `l`, whose variable is a B-variable:
/// its input node, taken from `inputs` or from a step of this program.
pub open spec fn a_literal(st: AProgram, l: Lit, inputs: Map<usize, usize>) -> (
    Seq<Gate>,
    Map<usize, usize>,
    Operand,
) {
    let v = l.var as usize;
    if inputs.contains_key(v) {
        (st.gates, st.fresh, Operand::Fixed(Edge { node: inputs[v], compl: !l.polarity }))
    } else if st.fresh.contains_key(v) {
        (st.gates, st.fresh, Operand::Step(st.fresh[v], !l.polarity))
    } else {
        (
            st.gates.push(Gate::Input),
            st.fresh.insert(v, st.gates.len() as usize),
            Operand::Step(st.gates.len() as usize, !l.polarity),
        )
    }
}

/// The program after one more literal: a literal over a B-variable is
/// disjoined to the accumulator, any other literal is skipped.
pub open spec fn a_step(st: AProgram, l: Lit, b_vars: Set<u64>, inputs: Map<usize, usize>) -> AProgram {
    if !b_vars.contains(l.var as u64) {
        st
    } else {
        let (gates, fresh, o) = a_literal(st, l, inputs);
        AProgram {
            gates: gates.push(Gate::Or(st.acc, o)),
            fresh,
            acc: Operand::Step(gates.len() as usize, false),
            formula: Formula::Or(
                Box::new(st.formula),
                Box::new(Formula::Input(l.var as usize, l.polarity)),
            ),
        }
    }
}

/// The program that builds an A-clause's interpolant: the disjunction, starting
/// from `false`, of the clause's literals over B-variables, each variable read
/// through its input node.
pub open spec fn a_program(c: Seq<Lit>, b_vars: Set<u64>, inputs: Map<usize, usize>) -> AProgram
    decreases c.len(),
{
    if c.len() == 0 {
        AProgram {
            gates: Seq::empty(),
            fresh: Map::empty(),
            acc: Operand::Fixed(const_edge(false)),
            formula: Formula::Const(false),
        }
    } else {
        a_step(a_program(c.drop_last(), b_vars, inputs), c.last(), b_vars, inputs)
    }
}

pub open spec fn original_step(s: ItpView, id: usize, c: Seq<Lit>, restore: bool) -> (
    Result<Seq<Gate>, ItpError>,
    ItpView,
) {
    match original_error(s, id, restore) {
        Some(e) => (Err(e), s),
        None => {
            let b = original_label(s, id, restore);
            let s1 = ItpView { labels: s.labels.insert(id, b), staged: None, ..s };
            if b {
                (
                    Ok(Seq::empty()),
                    ItpView {
                        b_vars: s.b_vars.union(clause_vars(c)),
                        live: s.live.insert(
                            id,
                            LiveClause { lits: c, itp: const_edge(true), formula: Formula::Const(true) },
                        ),
                        ..s1
                    },
                )
            } else {
                let prog = a_program(c, s.b_vars, s.inputs);
                if prog.gates.len() == 0 {
                    (
                        Ok(prog.gates),
                        ItpView {
                            handled_a: true,
                            live: s.live.insert(
                                id,
                                LiveClause { lits: c, itp: const_edge(false), formula: prog.formula },
                            ),
                            ..s1
                        },
                    )
                } else {
                    (
                        Ok(prog.gates),
                        ItpView {
                            handled_a: true,
                            pending: Some(
                                PendingView {
                                    id,
                                    lits: c,
                                    fresh: prog.fresh,
                                    n_gates: prog.gates.len(),
                                    result: prog.acc,
                                    formula: prog.formula,
                                },
                            ),
                            ..s1
                        },
                    )
                }
            }
        },
    }
}

/// The resolution steps found in antecedent `a` with literals `lits`, given the
/// literals marked before it: each literal whose negation is marked (by an
/// preceding clause or a preceding literal of this one) is a pivot, and gives a
/// conjunction when its variable is a B-variable, a disjunction otherwise.
pub open spec fn lits_ops(lits: Seq<Lit>, marks: Set<u64>, b_vars: Set<u64>, a: usize) -> Seq<
    (bool, usize),
>
    decreases lits.len(),
{
    if lits.len() == 0 {
        Seq::empty()
    } else {
        let pre = lits.drop_last();
        let l = lits.last();
        let found = marks.union(codes(pre)).contains(l.negated().code());
        lits_ops(pre, marks, b_vars, a) + if found {
            seq![(b_vars.contains(l.var as u64), a)]
        } else {
            Seq::empty()
        }
    }
}

/// The resolution steps of a chain of antecedents, read from the last one back.
pub open spec fn chain_ops(
    live: Map<usize, LiveClause>,
    b_vars: Set<u64>,
    ants: Seq<usize>,
    marks: Set<u64>,
) -> Seq<(bool, usize)>
    decreases ants.len(),
{
    if ants.len() == 0 {
        Seq::empty()
    } else {
        let a = ants.last();
        let lits = live[a].lits;
        lits_ops(lits, marks, b_vars, a) + chain_ops(
            live,
            b_vars,
            ants.drop_last(),
            marks.union(codes(lits)),
        )
    }
}

/// The steps of a derived clause with antecedents `p`; the last one is the conflict.
pub open spec fn derived_ops(s: ItpView, p: Seq<usize>) -> Seq<(bool, usize)> {
    chain_ops(s.live, s.b_vars, p.drop_last(), codes(s.live[p.last()].lits))
}

/// The gates that fold the steps into the conflict's interpolant `seed`.
pub open spec fn chain_gates(live: Map<usize, LiveClause>, seed: Edge, ops: Seq<(bool, usize)>) -> Seq<
    Gate,
> {
    Seq::new(
        ops.len(),
        |k: int|
            {
                let a = if k == 0 {
                    Operand::Fixed(seed)
                } else {
                    Operand::Step((k - 1) as usize, false)
                };
                let b = Operand::Fixed(live[ops[k].1].itp);
                if ops[k].0 {
                    Gate::And(a, b)
                } else {
                    Gate::Or(a, b)
                }
            },
    )
}

/// What the fold of the steps into the conflict's formula `seed` stands for.
pub open spec fn chain_formula(live: Map<usize, LiveClause>, seed: Formula, ops: Seq<(bool, usize)>) -> Formula
    decreases ops.len(),
{
    if ops.len() == 0 {
        seed
    } else {
        let f = Box::new(chain_formula(live, seed, ops.drop_last()));
        let g = Box::new(live[ops.last().1].formula);
        if ops.last().0 {
            Formula::And(f, g)
        } else {
            Formula::Or(f, g)
        }
    }
}

pub open spec fn derived_error(s: ItpView, id: usize, p: Seq<usize>) -> Option<ItpError> {
    if s.pending is Some {
        Some(ItpError::Busy)
    } else if s.live.contains_key(id) {
        Some(ItpError::ClauseLive)
    } else if p.len() == 0 {
        Some(ItpError::EmptyChain)
    } else if exists|i: int| 0 <= i < p.len() && !s.live.contains_key(#[trigger] p[i]) {
        Some(ItpError::UnknownClause)
    } else {
        None
    }
}

pub open spec fn derived_step(s: ItpView, id: usize, c: Seq<Lit>, p: Seq<usize>) -> (
    Result<Seq<Gate>, ItpError>,
    ItpView,
) {
    match derived_error(s, id, p) {
        Some(e) => (Err(e), s),
        None => {
            let seed = s.live[p.last()].itp;
            let ops = derived_ops(s, p);
            let gates = chain_gates(s.live, seed, ops);
            let formula = chain_formula(s.live, s.live[p.last()].formula, ops);
            if ops.len() == 0 {
                (
                    Ok(gates),
                    ItpView { live: s.live.insert(id, LiveClause { lits: c, itp: seed, formula }), ..s },
                )
            } else {
                (
                    Ok(gates),
                    ItpView {
                        pending: Some(
                            PendingView {
                                id,
                                lits: c,
                                fresh: Map::empty(),
                                n_gates: ops.len(),
                                result: Operand::Step((ops.len() - 1) as usize, false),
                                formula,
                            },
                        ),
                        ..s
                    },
                )
            }
        },
    }
}

pub open spec fn delete_step(s: ItpView, id: usize) -> (Result<(), ItpError>, ItpView) {
    if s.pending is Some {
        (Err(ItpError::Busy), s)
    } else if !s.live.contains_key(id) {
        (Err(ItpError::UnknownClause), s)
    } else {
        (Ok(()), ItpView { live: s.live.remove(id), ..s })
    }
}

/// The input map after the pending work's fresh inputs were made.
pub open spec fn merged_inputs(inputs: Map<usize, usize>, fresh: Map<usize, usize>, results: Seq<Edge>) -> Map<
    usize,
    usize,
> {
    Map::new(
        |v: usize| inputs.contains_key(v) || fresh.contains_key(v),
        |v: usize|
            if fresh.contains_key(v) {
                results[fresh[v] as int].node
            } else {
                inputs[v]
            },
    )
}

pub open spec fn finish_step(s: ItpView, results: Seq<Edge>) -> (Result<(), ItpError>, ItpView) {
    match s.pending {
        None => (Err(ItpError::NothingPending), s),
        Some(p) => if results.len() != p.n_gates {
            (Err(ItpError::ResultCount), s)
        } else {
            (
                Ok(()),
                ItpView {
                    inputs: merged_inputs(s.inputs, p.fresh, results),
                    live: s.live.insert(
                        p.id,
                        LiveClause {
                            lits: p.lits,
                            itp: resolve(p.result, results),
                            formula: p.formula,
                        },
                    ),
                    pending: None,
                    ..s
                },
            )
        },
    }
}

pub open spec fn conclude_step(s: ItpView, conclusion: i32, p: Seq<usize>) -> (
    Result<Edge, ItpError>,
    ItpView,
) {
    if s.pending is Some {
        (Err(ItpError::Busy), s)
    } else if conclusion != 1 || p.len() != 1 {
        (Err(ItpError::Unsupported), s)
    } else if !s.live.contains_key(p[0]) {
        (Err(ItpError::UnknownClause), s)
    } else {
        let e = s.live[p[0]].itp;
        (Ok(e), ItpView { output: Some(e), ..s })
    }
}

/// The input map rewritten through a refinement's map from old nodes to new
/// ones: a variable whose node did not survive is dropped.
pub open spec fn refined_inputs(inputs: Map<usize, usize>, map: Map<usize, usize>) -> Map<
    usize,
    usize,
> {
    Map::new(
        |v: usize| inputs.contains_key(v) && map.contains_key(inputs[v]),
        |v: usize| map[inputs[v]],
    )
}

pub open spec fn refine_step(s: ItpView, map: Map<usize, usize>) -> (Result<(), ItpError>, ItpView) {
    if s.output is None {
        (Err(ItpError::NotConcluded), s)
    } else {
        (Ok(()), ItpView { inputs: refined_inputs(s.inputs, map), ..s })
    }
}

} // verus!
