use crate::circuit::{const_edge, Edge, Gate, Operand};
use crate::itp::Interpolant;
use crate::lit::Lit;
use crate::model::{
    reads_only, Formula,
    a_literal, a_program, delete_step, finish_step, original_label, original_step,
    refine_step, stage_step, view_inv, ItpError, ItpView,
};
use vstd::prelude::*;

verus! {

/// An operand of an A-clause program: the constant `false`, an edge out of the
/// input node of a B-variable, or an preceding step.
pub open spec fn b_input_operand(o: Operand, b_vars: Set<u64>, inputs: Map<usize, usize>) -> bool {
    match o {
        Operand::Fixed(e) => e == const_edge(false) || exists|v: usize|
            #![trigger inputs[v]]
            inputs.contains_key(v) && b_vars.contains(v as u64) && e.node == inputs[v],
        Operand::Step(_, _) => true,
    }
}

pub open spec fn b_input_gate(g: Gate, b_vars: Set<u64>, inputs: Map<usize, usize>) -> bool {
    match g {
        Gate::Input => true,
        Gate::And(a, b) => b_input_operand(a, b_vars, inputs) && b_input_operand(b, b_vars, inputs),
        Gate::Or(a, b) => b_input_operand(a, b_vars, inputs) && b_input_operand(b, b_vars, inputs),
    }
}

proof fn lemma_a_program_b_inputs(c: Seq<Lit>, b_vars: Set<u64>, inputs: Map<usize, usize>)
    ensures
        b_input_operand(a_program(c, b_vars, inputs).acc, b_vars, inputs),
        forall|i: int|
            0 <= i < a_program(c, b_vars, inputs).gates.len() ==> b_input_gate(
                #[trigger] a_program(c, b_vars, inputs).gates[i],
                b_vars,
                inputs,
            ),
        forall|v: usize| #[trigger]
            a_program(c, b_vars, inputs).fresh.contains_key(v) ==> b_vars.contains(v as u64),
    decreases c.len(),
{
    if c.len() > 0 {
        lemma_a_program_b_inputs(c.drop_last(), b_vars, inputs);
        let st = a_program(c.drop_last(), b_vars, inputs);
        let p = a_program(c, b_vars, inputs);
        let l = c.last();
        if b_vars.contains(l.var as u64) {
            let v = l.var as usize;
            let (gates, fresh, o) = a_literal(st, l, inputs);
            if inputs.contains_key(v) {
                assert(inputs.contains_key(v) && b_vars.contains(v as u64) && Edge {
                    node: inputs[v],
                    compl: !l.polarity,
                }.node == inputs[v]);
            }
            assert(b_input_operand(o, b_vars, inputs));
            assert forall|i: int| 0 <= i < p.gates.len() implies b_input_gate(
                #[trigger] p.gates[i],
                b_vars,
                inputs,
            ) by {
                if i < st.gates.len() {
                    assert(p.gates[i] == st.gates[i]);
                }
            }
        }
    }
}

/// A B-clause's partial interpolant is the constant `true`.
pub proof fn law_b_clause_is_true(s: ItpView, id: usize, c: Seq<Lit>, restore: bool)
    requires
        original_step(s, id, c, restore).0 is Ok,
        original_label(s, id, restore),
    ensures
        original_step(s, id, c, restore).1.live[id].itp == const_edge(true),
        original_step(s, id, c, restore).0 == Ok::<Seq<Gate>, ItpError>(Seq::empty()),
{
}

/// An A-clause's interpolant refers to no variable outside the B-variables: every
/// existing node its gates read is the input node of a B-variable (or the
/// constant), and every input node they make is for a B-variable.
pub proof fn law_a_clause_reads_b_inputs(s: ItpView, id: usize, c: Seq<Lit>, restore: bool)
    requires
        original_step(s, id, c, restore).0 is Ok,
        !original_label(s, id, restore),
    ensures
        forall|i: int|
            0 <= i < a_program(c, s.b_vars, s.inputs).gates.len() ==> b_input_gate(
                #[trigger] a_program(c, s.b_vars, s.inputs).gates[i],
                s.b_vars,
                s.inputs,
            ),
        original_step(s, id, c, restore).0 == Ok::<Seq<Gate>, ItpError>(
            a_program(c, s.b_vars, s.inputs).gates,
        ),
        forall|v: usize| #[trigger]
            a_program(c, s.b_vars, s.inputs).fresh.contains_key(v) ==> s.b_vars.contains(v as u64),
        a_program(c, s.b_vars, s.inputs).gates.len() == 0 ==> original_step(s, id, c, restore).1.live[id].itp
            == const_edge(false),
{
    lemma_a_program_b_inputs(c, s.b_vars, s.inputs);
}

proof fn lemma_a_program_fresh(c: Seq<Lit>, b_vars: Set<u64>, inputs: Map<usize, usize>)
    requires
        2 * c.len() <= usize::MAX,
    ensures
        a_program(c, b_vars, inputs).gates.len() <= 2 * c.len(),
        forall|v: usize| #[trigger]
            a_program(c, b_vars, inputs).fresh.contains_key(v) ==> !inputs.contains_key(v)
                && a_program(c, b_vars, inputs).fresh[v] < a_program(c, b_vars, inputs).gates.len()
                && a_program(c, b_vars, inputs).gates[a_program(c, b_vars, inputs).fresh[v] as int]
                == Gate::Input,
        forall|v: usize, w: usize|
            #![trigger a_program(c, b_vars, inputs).fresh[v], a_program(c, b_vars, inputs).fresh[w]]
            a_program(c, b_vars, inputs).fresh.contains_key(v) && a_program(c, b_vars, inputs).fresh.contains_key(w)
                && v != w ==> a_program(c, b_vars, inputs).fresh[v] != a_program(c, b_vars, inputs).fresh[w],
    decreases c.len(),
{
    if c.len() > 0 {
        lemma_a_program_fresh(c.drop_last(), b_vars, inputs);
        let st = a_program(c.drop_last(), b_vars, inputs);
        let p = a_program(c, b_vars, inputs);
        let l = c.last();
        if b_vars.contains(l.var as u64) {
            let lv = l.var as usize;
            let (gates, fresh, o) = a_literal(st, l, inputs);
            let n = st.gates.len();
            if !inputs.contains_key(lv) && !st.fresh.contains_key(lv) {
                assert(p.fresh == st.fresh.insert(lv, n as usize));
                assert(p.gates == st.gates.push(Gate::Input).push(Gate::Or(st.acc, o)));
                assert(p.gates[n as int] == Gate::Input);
            } else {
                assert(p.fresh == st.fresh);
                assert(p.gates == st.gates.push(Gate::Or(st.acc, o)));
            }
            assert forall|v: usize| #[trigger] p.fresh.contains_key(v) implies !inputs.contains_key(v)
                && p.fresh[v] < p.gates.len() && p.gates[p.fresh[v] as int] == Gate::Input by {
                if st.fresh.contains_key(v) {
                    assert(p.fresh[v] == st.fresh[v]);
                    assert(p.gates[p.fresh[v] as int] == st.gates[st.fresh[v] as int]);
                }
            }
            assert forall|v: usize, w: usize|
                #![trigger p.fresh[v], p.fresh[w]]
                p.fresh.contains_key(v) && p.fresh.contains_key(w) && v != w implies p.fresh[v] != p.fresh[w] by {
                if st.fresh.contains_key(v) && st.fresh.contains_key(w) {
                    assert(st.fresh[v] != st.fresh[w]);
                }
            }
        }
    }
}

/// Input nodes are made once per variable: an A-clause's program makes one only
/// for a variable that has none, a distinct one for each such variable; and
/// once made, a variable's input node stays what it was.
pub proof fn law_input_made_once(s: ItpView, c: Seq<Lit>, results: Seq<Edge>)
    requires
        view_inv(s),
        2 * c.len() <= usize::MAX,
    ensures
        forall|v: usize| #[trigger]
            a_program(c, s.b_vars, s.inputs).fresh.contains_key(v) ==> !s.inputs.contains_key(v)
                && a_program(c, s.b_vars, s.inputs).gates[a_program(c, s.b_vars, s.inputs).fresh[v] as int]
                == Gate::Input,
        forall|v: usize, w: usize|
            #![trigger a_program(c, s.b_vars, s.inputs).fresh[v], a_program(c, s.b_vars, s.inputs).fresh[w]]
            a_program(c, s.b_vars, s.inputs).fresh.contains_key(v) && a_program(
                c,
                s.b_vars,
                s.inputs,
            ).fresh.contains_key(w) && v != w ==> a_program(c, s.b_vars, s.inputs).fresh[v] != a_program(
                c,
                s.b_vars,
                s.inputs,
            ).fresh[w],
        finish_step(s, results).0 is Ok ==> forall|v: usize| #[trigger]
            s.inputs.contains_key(v) ==> finish_step(s, results).1.inputs.contains_key(v)
                && finish_step(s, results).1.inputs[v] == s.inputs[v],
{
    lemma_a_program_fresh(c, s.b_vars, s.inputs);
}

/// After a refinement, a variable keeps an input node exactly when its node
/// survived, and then has the node's new id.
pub proof fn law_refinement_keeps_surviving(s: ItpView, map: Map<usize, usize>)
    requires
        refine_step(s, map).0 is Ok,
    ensures
        forall|v: usize| #[trigger]
            refine_step(s, map).1.inputs.contains_key(v) <==> s.inputs.contains_key(v) && map.contains_key(
                s.inputs[v],
            ),
        forall|v: usize| #[trigger]
            refine_step(s, map).1.inputs.contains_key(v) ==> refine_step(s, map).1.inputs[v]
                == map[s.inputs[v]],
{
}

/// Deleting an original clause and restoring it with the same literals gives it
/// its label back without a new staged label; with a label staged in between,
/// the restore is refused.
pub proof fn law_restore_keeps_label(s: ItpView, k: usize, c: Seq<Lit>, b: bool)
    requires
        s.pending is None,
        s.staged is None,
        s.live.contains_key(k),
        s.labels.contains_key(k),
        !(s.labels[k] && s.handled_a),
    ensures
        delete_step(s, k).0 is Ok,
        original_step(delete_step(s, k).1, k, c, true).0 is Ok,
        original_step(delete_step(s, k).1, k, c, true).1.labels[k] == s.labels[k],
        original_step(stage_step(delete_step(s, k).1, b).1, k, c, true).0 == Err::<Seq<Gate>, ItpError>(
            ItpError::LabelStagedOnRestore,
        ),
{
    let s1 = delete_step(s, k).1;
    assert(!s1.live.contains_key(k));
}

/// Every partial interpolant the engine holds reads only the input nodes of
/// B-variables, in every state the engine reaches.
pub proof fn law_interpolants_read_b_vars(itp: &Interpolant)
    requires
        itp.wf(),
    ensures
        forall|id: usize| #[trigger]
            itp@.live.contains_key(id) ==> reads_only(itp@.live[id].formula, itp@.b_vars),
{
    itp.lemma_wf();
}

/// The value of a formula when each variable's input node has the value `val`
/// gives it.
pub open spec fn eval(f: Formula, val: spec_fn(usize) -> bool) -> bool
    decreases f,
{
    match f {
        Formula::Const(b) => b,
        Formula::Input(v, p) => val(v) == p,
        Formula::And(a, b) => eval(*a, val) && eval(*b, val),
        Formula::Or(a, b) => eval(*a, val) || eval(*b, val),
    }
}

/// An A-clause's interpolant is the clause restricted to the B-variables: it
/// holds exactly when one of the clause's literals over a B-variable holds.
pub proof fn law_a_clause_is_restriction(
    c: Seq<Lit>,
    b_vars: Set<u64>,
    inputs: Map<usize, usize>,
    val: spec_fn(usize) -> bool,
)
    ensures
        eval(a_program(c, b_vars, inputs).formula, val) <==> exists|i: int|
            0 <= i < c.len() && b_vars.contains(#[trigger] c[i].var as u64) && val(c[i].var as usize)
                == c[i].polarity,
    decreases c.len(),
{
    if c.len() > 0 {
        let pre = c.drop_last();
        let l = c.last();
        law_a_clause_is_restriction(pre, b_vars, inputs, val);
        let holds = |s: Seq<Lit>|
            exists|i: int|
                0 <= i < s.len() && b_vars.contains(#[trigger] s[i].var as u64) && val(s[i].var as usize)
                    == s[i].polarity;
        if holds(pre) {
            let i = choose|i: int|
                0 <= i < pre.len() && b_vars.contains(#[trigger] pre[i].var as u64) && val(
                    pre[i].var as usize,
                ) == pre[i].polarity;
            assert(c[i] == pre[i]);
        }
        if holds(c) {
            let i = choose|i: int|
                0 <= i < c.len() && b_vars.contains(#[trigger] c[i].var as u64) && val(c[i].var as usize)
                    == c[i].polarity;
            if i < pre.len() {
                assert(c[i] == pre[i]);
            }
        }
        if b_vars.contains(l.var as u64) {
            let last = c.len() - 1;
            assert(c[last] == l);
            assert(eval(Formula::Input(l.var as usize, l.polarity), val) == (val(l.var as usize) == l.polarity));
        }
    }
}

} // verus!
