use crate::circuit::{
    const_edge, gate_before, operand_before, program_ordered, resolve_operand, Edge, Gate, Operand,
};
use crate::ghash::{
    clause_map_get, clause_map_insert, clause_map_new, clause_map_remove, clause_map_view,
    code_set_clear, code_set_contains, code_set_insert, code_set_new, code_set_view, flag_map_get,
    flag_map_insert, flag_map_new, flag_map_view, index_map_entries, index_map_get,
    index_map_insert, index_map_new, index_map_view, ClauseMap, ClauseRec, CodeSet, FlagMap,
    IndexMap,
};
use crate::lit::Lit;
use crate::model::{
    a_literal, a_program, a_step, chain_gates, chain_ops, clause_vars, codes, conclude_step,
    delete_step, derived_error, derived_ops, derived_step, finish_step, initial_view, lits_ops,
    merged_inputs, original_step, refine_step, refined_inputs, stage_step, view_inv,
    ItpError, ItpView, LiveClause, PendingView, Formula, reads_only, chain_formula,
};
use vstd::prelude::*;

verus! {

/// Circuit work handed out for a clause and not answered yet.
struct Pending {
    id: usize,
    lits: Vec<Lit>,
    fresh: IndexMap,
    n_gates: usize,
    result: Operand,
    formula: Ghost<Formula>,
}

/// The proof-based interpolation engine: it follows a resolution refutation
/// event by event and says which circuit gates build each clause's partial
/// interpolant.
pub struct Interpolant {
    b_vars: CodeSet,
    var_edge: IndexMap,
    cls_labels: FlagMap,
    next_cls_label: Option<bool>,
    live: ClauseMap,
    mark: CodeSet,
    handle_a: bool,
    pending: Option<Pending>,
    output: Option<Edge>,
}

pub open spec fn live_of(m: Map<usize, ClauseRec>) -> Map<usize, LiveClause> {
    m.map_values(|r: ClauseRec| LiveClause { lits: r.lits@, itp: r.itp, formula: r.formula@ })
}

spec fn pending_of(p: Option<Pending>) -> Option<PendingView> {
    match p {
        Some(p) => Some(
            PendingView {
                id: p.id,
                lits: p.lits@,
                fresh: index_map_view(p.fresh),
                n_gates: p.n_gates as nat,
                result: p.result,
                formula: p.formula@,
            },
        ),
        None => None,
    }
}

/// A result of the engine, with the gates it hands out as a sequence.
pub open spec fn gates_of(r: Result<Vec<Gate>, ItpError>) -> Result<Seq<Gate>, ItpError> {
    match r {
        Ok(g) => Ok(g@),
        Err(e) => Err(e),
    }
}

/// What holds of every A-clause program: its gates refer only to preceding gates,
/// and only the variables without an input node get one, each once.
proof fn lemma_a_program(c: Seq<Lit>, b_vars: Set<u64>, inputs: Map<usize, usize>)
    ensures
        program_ordered(a_program(c, b_vars, inputs).gates),
        operand_before(a_program(c, b_vars, inputs).acc, a_program(c, b_vars, inputs).gates.len() as int),
        a_program(c, b_vars, inputs).gates.len() == 0 ==> a_program(c, b_vars, inputs).acc
            == Operand::Fixed(const_edge(false)),
        reads_only(a_program(c, b_vars, inputs).formula, b_vars),
        forall|v: usize| #[trigger]
            a_program(c, b_vars, inputs).fresh.contains_key(v) ==> !inputs.contains_key(v)
                && b_vars.contains(v as u64)
                && a_program(c, b_vars, inputs).fresh[v] < a_program(c, b_vars, inputs).gates.len(),
    decreases c.len(),
{
    if c.len() > 0 {
        lemma_a_program(c.drop_last(), b_vars, inputs);
        let st = a_program(c.drop_last(), b_vars, inputs);
        let p = a_program(c, b_vars, inputs);
        let l = c.last();
        if b_vars.contains(l.var as u64) {
            let (gates, fresh, o) = a_literal(st, l, inputs);
            assert(operand_before(o, gates.len() as int));
            assert(((l.var as usize) as u64) == l.var as u64);
            assert(reads_only(Formula::Input(l.var as usize, l.polarity), b_vars));
            assert forall|i: int| 0 <= i < p.gates.len() implies gate_before(#[trigger] p.gates[i], i) by {
                if i < st.gates.len() {
                    assert(p.gates[i] == st.gates[i]);
                }
            }
        }
    }
}

impl View for Interpolant {
    type V = ItpView;

    closed spec fn view(&self) -> ItpView {
        ItpView {
            b_vars: code_set_view(self.b_vars),
            inputs: index_map_view(self.var_edge),
            labels: flag_map_view(self.cls_labels),
            staged: self.next_cls_label,
            live: live_of(clause_map_view(self.live)),
            handled_a: self.handle_a,
            pending: pending_of(self.pending),
            output: self.output,
        }
    }
}

/// A copy of the literals.
fn copy_lits(c: &[Lit]) -> (r: Vec<Lit>)
    ensures
        r@ == c@,
{
    let mut r: Vec<Lit> = Vec::new();
    let mut i: usize = 0;
    while i < c.len()
        invariant
            0 <= i <= c.len(),
            r@ == c@.take(i as int),
        decreases c.len() - i,
    {
        r.push(c[i]);
        i += 1;
        assert(r@ =~= c@.take(i as int));
    }
    assert(c@.take(c.len() as int) =~= c@);
    r
}

/// Adds the variable of every literal of `c` to the set.
fn add_vars(set: &mut CodeSet, c: &[Lit])
    ensures
        code_set_view(*final(set)) == code_set_view(*old(set)).union(clause_vars(c@)),
{
    let ghost s0 = code_set_view(*set);
    let mut i: usize = 0;
    while i < c.len()
        invariant
            0 <= i <= c.len(),
            code_set_view(*set) == s0.union(clause_vars(c@.take(i as int))),
        decreases c.len() - i,
    {
        proof {
            assert(c@.take(i + 1).drop_last() =~= c@.take(i as int));
        }
        code_set_insert(set, c[i].var as u64);
        i += 1;
        proof {
            assert(code_set_view(*set) =~= s0.union(clause_vars(c@.take(i as int))));
        }
    }
    assert(c@.take(c.len() as int) =~= c@);
}

/// Builds the program of an A-clause (see `a_program`).
fn build_a_program(b_vars: &CodeSet, var_edge: &IndexMap, c: &[Lit]) -> (r: (Vec<Gate>, IndexMap, Operand))
    ensures
        r.0@ == a_program(c@, code_set_view(*b_vars), index_map_view(*var_edge)).gates,
        index_map_view(r.1) == a_program(c@, code_set_view(*b_vars), index_map_view(*var_edge)).fresh,
        r.2 == a_program(c@, code_set_view(*b_vars), index_map_view(*var_edge)).acc,
{
    let ghost bv = code_set_view(*b_vars);
    let ghost ve = index_map_view(*var_edge);
    let mut gates: Vec<Gate> = Vec::new();
    let mut fresh = index_map_new();
    let mut acc = Operand::Fixed(Edge::constant(false));
    let mut i: usize = 0;
    assert(c@.take(0) =~= Seq::<Lit>::empty());
    while i < c.len()
        invariant
            0 <= i <= c.len(),
            bv == code_set_view(*b_vars),
            ve == index_map_view(*var_edge),
            a_program(c@.take(i as int), bv, ve).gates == gates@,
            a_program(c@.take(i as int), bv, ve).fresh == index_map_view(fresh),
            a_program(c@.take(i as int), bv, ve).acc == acc,
        decreases c.len() - i,
    {
        proof {
            assert(c@.take(i + 1).drop_last() =~= c@.take(i as int));
        }
        let l = c[i];
        let ghost st = a_program(c@.take(i as int), bv, ve);
        assert(c@.take(i + 1).last() == l);
        assert(a_program(c@.take(i + 1), bv, ve) == a_step(st, l, bv, ve));
        if code_set_contains(b_vars, l.var as u64) {
            let v = l.var as usize;
            let o = match index_map_get(var_edge, v) {
                Some(n) => {
                    assert(ve.contains_key(v) && ve[v] == n);
                    Operand::Fixed(Edge::new(n, !l.polarity))
                },
                None => match index_map_get(&fresh, v) {
                    Some(k) => {
                        assert(!ve.contains_key(v));
                        assert(st.fresh.contains_key(v) && st.fresh[v] == k);
                        Operand::Step(k, !l.polarity)
                    },
                    None => {
                        assert(!ve.contains_key(v));
                        assert(!st.fresh.contains_key(v));
                        let k = gates.len();
                        gates.push(Gate::Input);
                        index_map_insert(&mut fresh, v, k);
                        Operand::Step(k, !l.polarity)
                    },
                },
            };
            assert(o == a_literal(st, l, ve).2);
            assert(gates@ == a_literal(st, l, ve).0);
            assert(index_map_view(fresh) == a_literal(st, l, ve).1);
            let k = gates.len();
            gates.push(Gate::Or(acc, o));
            acc = Operand::Step(k, false);
        }
        i += 1;
    }
    assert(c@.take(c.len() as int) =~= c@);
    (gates, fresh, acc)
}

/// A formula that reads only `vars` reads only any larger set.
proof fn lemma_reads_only_mono(f: Formula, vars: Set<u64>, more: Set<u64>)
    requires
        reads_only(f, vars),
        vars.subset_of(more),
    ensures
        reads_only(f, more),
    decreases f,
{
    match f {
        Formula::And(a, b) => {
            lemma_reads_only_mono(*a, vars, more);
            lemma_reads_only_mono(*b, vars, more);
        },
        Formula::Or(a, b) => {
            lemma_reads_only_mono(*a, vars, more);
            lemma_reads_only_mono(*b, vars, more);
        },
        _ => {},
    }
}

/// The fold of clauses whose formulas read only `vars` reads only `vars`.
proof fn lemma_chain_formula(live: Map<usize, LiveClause>, seed: Formula, ops: Seq<(bool, usize)>, vars: Set<u64>)
    requires
        reads_only(seed, vars),
        forall|j: int| 0 <= j < ops.len() ==> reads_only(live[#[trigger] ops[j].1].formula, vars),
    ensures
        reads_only(chain_formula(live, seed, ops), vars),
    decreases ops.len(),
{
    if ops.len() > 0 {
        lemma_chain_formula(live, seed, ops.drop_last(), vars);
        assert(reads_only(live[ops[ops.len() - 1].1].formula, vars));
    }
}

/// Every step of an antecedent names it.
proof fn lemma_lits_ops_ids(lits: Seq<Lit>, marks: Set<u64>, b_vars: Set<u64>, a: usize)
    ensures
        forall|j: int| 0 <= j < lits_ops(lits, marks, b_vars, a).len() ==> #[trigger] lits_ops(lits, marks, b_vars, a)[j].1 == a,
    decreases lits.len(),
{
    if lits.len() > 0 {
        let pre = lits.drop_last();
        lemma_lits_ops_ids(pre, marks, b_vars, a);
        let x = lits_ops(pre, marks, b_vars, a);
        let l = lits.last();
        let found = marks.union(codes(pre)).contains(l.negated().code());
        let y: Seq<(bool, usize)> = if found {
            seq![(b_vars.contains(l.var as u64), a)]
        } else {
            Seq::empty()
        };
        assert(lits_ops(lits, marks, b_vars, a) == x + y);
        assert forall|j: int| 0 <= j < lits_ops(lits, marks, b_vars, a).len() implies #[trigger] lits_ops(lits, marks, b_vars, a)[j].1 == a by {
            if j < x.len() {
                assert((x + y)[j] == x[j]);
            } else {
                assert((x + y)[j] == y[j - x.len()]);
            }
        }
    }
}

/// Every step of a chain names one of its antecedents.
proof fn lemma_chain_ops_ids(live: Map<usize, LiveClause>, b_vars: Set<u64>, ants: Seq<usize>, marks: Set<u64>)
    ensures
        forall|j: int| 0 <= j < chain_ops(live, b_vars, ants, marks).len() ==> exists|t: int|
            0 <= t < ants.len() && ants[t] == #[trigger] chain_ops(live, b_vars, ants, marks)[j].1,
    decreases ants.len(),
{
    if ants.len() > 0 {
        let a = ants.last();
        let lits = live[a].lits;
        let rest = ants.drop_last();
        let m1 = marks.union(codes(lits));
        lemma_lits_ops_ids(lits, marks, b_vars, a);
        lemma_chain_ops_ids(live, b_vars, rest, m1);
        let x = lits_ops(lits, marks, b_vars, a);
        let y = chain_ops(live, b_vars, rest, m1);
        assert forall|j: int| 0 <= j < chain_ops(live, b_vars, ants, marks).len() implies exists|t: int|
            0 <= t < ants.len() && ants[t] == #[trigger] chain_ops(live, b_vars, ants, marks)[j].1 by {
            if j < x.len() {
                assert(chain_ops(live, b_vars, ants, marks)[j] == x[j]);
                assert(ants[ants.len() - 1] == a);
            } else {
                assert(chain_ops(live, b_vars, ants, marks)[j] == y[j - x.len()]);
                let t = choose|t: int| 0 <= t < rest.len() && rest[t] == y[j - x.len()].1;
                assert(ants[t] == rest[t]);
            }
        }
    }
}

/// Marks the codes of the literals of `lits`.
fn mark_lits(mark: &mut CodeSet, lits: &Vec<Lit>)
    ensures
        code_set_view(*final(mark)) == code_set_view(*old(mark)).union(codes(lits@)),
{
    let ghost m0 = code_set_view(*mark);
    let mut j: usize = 0;
    while j < lits.len()
        invariant
            0 <= j <= lits.len(),
            code_set_view(*mark) == m0.union(codes(lits@.take(j as int))),
        decreases lits.len() - j,
    {
        proof {
            assert(lits@.take(j + 1).drop_last() =~= lits@.take(j as int));
        }
        code_set_insert(mark, lits[j].lit_code());
        j += 1;
        proof {
            assert(code_set_view(*mark) =~= m0.union(codes(lits@.take(j as int))));
        }
    }
    assert(lits@.take(lits.len() as int) =~= lits@);
}

/// The resolution steps that antecedent `a` contributes (see `lits_ops`); its
/// literals are marked afterwards.
fn scan_antecedent(
    b_vars: &CodeSet,
    mark: &mut CodeSet,
    lits: &Vec<Lit>,
    a: usize,
    ops: &mut Vec<(bool, usize)>,
)
    ensures
        final(ops)@ == old(ops)@ + lits_ops(lits@, code_set_view(*old(mark)), code_set_view(*b_vars), a),
        code_set_view(*final(mark)) == code_set_view(*old(mark)).union(codes(lits@)),
{
    let ghost m0 = code_set_view(*mark);
    let ghost ops0 = ops@;
    let ghost bv = code_set_view(*b_vars);
    let mut j: usize = 0;
    assert(ops0 + lits_ops(lits@.take(0), m0, bv, a) =~= ops0);
    assert(codes(lits@.take(0)) =~= Set::<u64>::empty());
    while j < lits.len()
        invariant
            0 <= j <= lits.len(),
            bv == code_set_view(*b_vars),
            ops@ == ops0 + lits_ops(lits@.take(j as int), m0, bv, a),
            code_set_view(*mark) == m0.union(codes(lits@.take(j as int))),
        decreases lits.len() - j,
    {
        let ghost pre = lits@.take(j as int);
        proof {
            assert(lits@.take(j + 1).drop_last() =~= pre);
        }
        let l = lits[j];
        assert(lits@.take(j + 1).last() == l);
        if code_set_contains(mark, l.not().lit_code()) {
            let is_b = code_set_contains(b_vars, l.var as u64);
            ops.push((is_b, a));
            proof {
                assert(ops@ =~= ops0 + lits_ops(lits@.take(j + 1), m0, bv, a));
            }
        } else {
            proof {
                assert(ops@ =~= ops0 + lits_ops(lits@.take(j + 1), m0, bv, a));
            }
        }
        code_set_insert(mark, l.lit_code());
        j += 1;
        proof {
            assert(code_set_view(*mark) =~= m0.union(codes(lits@.take(j as int))));
        }
    }
    assert(lits@.take(lits.len() as int) =~= lits@);
}

/// The resolution steps of the chain `p` (see `chain_ops`), found with the mark
/// set, which is empty again afterwards.
fn scan_chain(live: &ClauseMap, b_vars: &CodeSet, mark: &mut CodeSet, p: &[usize]) -> (ops: Vec<
    (bool, usize),
>)
    requires
        code_set_view(*old(mark)) == Set::<u64>::empty(),
        p@.len() > 0,
        forall|i: int| 0 <= i < p@.len() ==> clause_map_view(*live).contains_key(#[trigger] p@[i]),
    ensures
        code_set_view(*final(mark)) == Set::<u64>::empty(),
        ops@ == chain_ops(
            live_of(clause_map_view(*live)),
            code_set_view(*b_vars),
            p@.drop_last(),
            codes(live_of(clause_map_view(*live))[p@.last()].lits),
        ),
{
    let ghost lv = live_of(clause_map_view(*live));
    let ghost bv = code_set_view(*b_vars);
    let last = p[p.len() - 1];
    let conf = clause_map_get(live, last).unwrap();
    mark_lits(mark, &conf.lits);
    let ghost m_start = code_set_view(*mark);
    assert(m_start =~= codes(lv[p@.last()].lits));
    let mut ops: Vec<(bool, usize)> = Vec::new();
    let mut pi: usize = p.len() - 1;
    assert(p@.take(pi as int) =~= p@.drop_last());
    assert(ops@ + chain_ops(lv, bv, p@.take(pi as int), code_set_view(*mark)) =~= chain_ops(lv, bv, p@.drop_last(), m_start));
    while pi > 0
        invariant
            0 <= pi < p@.len(),
            lv == live_of(clause_map_view(*live)),
            bv == code_set_view(*b_vars),
            forall|i: int| 0 <= i < p@.len() ==> clause_map_view(*live).contains_key(#[trigger] p@[i]),
            ops@ + chain_ops(lv, bv, p@.take(pi as int), code_set_view(*mark)) == chain_ops(
                lv,
                bv,
                p@.drop_last(),
                m_start,
            ),
        decreases pi,
    {
        pi -= 1;
        let a = p[pi];
        let ghost m0 = code_set_view(*mark);
        let ghost ops0 = ops@;
        let ant = clause_map_get(live, a).unwrap();
        assert(lv[a].lits == ant.lits@);
        proof {
            assert(p@.take(pi + 1).drop_last() =~= p@.take(pi as int));
            assert(p@.take(pi + 1).last() == a);
        }
        scan_antecedent(b_vars, mark, &ant.lits, a, &mut ops);
        proof {
            let x = lits_ops(lv[a].lits, m0, bv, a);
            let y = chain_ops(lv, bv, p@.take(pi as int), m0.union(codes(lv[a].lits)));
            assert(chain_ops(lv, bv, p@.take(pi + 1), m0) == x + y);
            assert(ops0 + (x + y) =~= (ops0 + x) + y);
        }
    }
    assert(p@.take(0) =~= Seq::<usize>::empty());
    assert(ops@ + chain_ops(lv, bv, p@.take(0), code_set_view(*mark)) =~= ops@);
    code_set_clear(mark);
    ops
}

impl Interpolant {
    /// The engine's own invariant: the view's invariant, and no literal marked
    /// between events.
    pub closed spec fn wf(&self) -> bool {
        &&& view_inv(self@)
        &&& code_set_view(self.mark) == Set::<u64>::empty()
    }

    /// The literals marked during a derivation: none between events.
    pub closed spec fn marks(&self) -> Set<u64> {
        code_set_view(self.mark)
    }

    pub proof fn lemma_wf(&self)
        requires
            self.wf(),
        ensures
            view_inv(self@),
            self.marks() == Set::<u64>::empty(),
    {
    }

    pub fn new() -> (r: Interpolant)
        ensures
            r.wf(),
            r@ == initial_view(),
    {
        let r = Interpolant {
            b_vars: code_set_new(),
            var_edge: index_map_new(),
            cls_labels: flag_map_new(),
            next_cls_label: None,
            live: clause_map_new(),
            mark: code_set_new(),
            handle_a: false,
            pending: None,
            output: None,
        };
        assert(r@.b_vars =~= Set::empty());
        assert(r@.inputs =~= Map::empty());
        assert(r@.labels =~= Map::empty());
        assert(r@.live =~= Map::empty());
        r
    }

    /// Stages the label of the next fresh original clause (`true` for B).
    pub fn label_clause(&mut self, k: bool) -> (r: Result<(), ItpError>)
        requires
            old(self).wf(),
        ensures
            final(self).wf(),
            (r, final(self)@) == stage_step(old(self)@, k),
    {
        if self.next_cls_label.is_some() {
            return Err(ItpError::LabelAlreadyStaged);
        }
        self.next_cls_label = Some(k);
        Ok(())
    }

    /// An original clause was added, or restored after a deletion. A B-clause's
    /// interpolant is `true`; an A-clause's is the disjunction of its literals over
    /// B-variables, whose gates are handed out (see `finish_gates`).
    pub fn add_original_clause(&mut self, id: usize, _redundant: bool, c: &[Lit], restore: bool) -> (r:
        Result<Vec<Gate>, ItpError>)
        requires
            old(self).wf(),
        ensures
            final(self).wf(),
            (gates_of(r), final(self)@) == original_step(old(self)@, id, c@, restore),
    {
        if self.pending.is_some() {
            return Err(ItpError::Busy);
        }
        if clause_map_get(&self.live, id).is_some() {
            return Err(ItpError::ClauseLive);
        }
        let label: bool;
        if restore {
            if self.next_cls_label.is_some() {
                return Err(ItpError::LabelStagedOnRestore);
            }
            match flag_map_get(&self.cls_labels, id) {
                Some(b) => label = b,
                None => return Err(ItpError::UnknownClause),
            }
        } else {
            match self.next_cls_label {
                Some(b) => label = b,
                None => return Err(ItpError::MissingLabel),
            }
        }
        if label && self.handle_a {
            return Err(ItpError::BAfterA);
        }
        flag_map_insert(&mut self.cls_labels, id, label);
        self.next_cls_label = None;
        let ghost s0 = old(self)@;
        let ghost s1 = ItpView { labels: s0.labels.insert(id, label), staged: None, ..s0 };
        assert(self@ == s1);
        if label {
            add_vars(&mut self.b_vars, c);
            clause_map_insert(
                &mut self.live,
                id,
                ClauseRec { lits: copy_lits(c), itp: Edge::constant(true), formula: Ghost(Formula::Const(true)) },
            );
            proof {
                assert(self@.live =~= s0.live.insert(
                    id,
                    LiveClause { lits: c@, itp: const_edge(true), formula: Formula::Const(true) },
                ));
                assert forall|k: usize| #[trigger] self@.live.contains_key(k) implies reads_only(
                    self@.live[k].formula,
                    self@.b_vars,
                ) by {
                    if k != id {
                        lemma_reads_only_mono(s0.live[k].formula, s0.b_vars, self@.b_vars);
                    }
                }
            }
            return Ok(Vec::new());
        }
        self.handle_a = true;
        let (gates, fresh, acc) = build_a_program(&self.b_vars, &self.var_edge, c);
        proof {
            lemma_a_program(c@, s0.b_vars, s0.inputs);
        }
        let ghost formula = a_program(c@, s0.b_vars, s0.inputs).formula;
        if gates.len() == 0 {
            clause_map_insert(
                &mut self.live,
                id,
                ClauseRec { lits: copy_lits(c), itp: Edge::constant(false), formula: Ghost(formula) },
            );
            proof {
                assert(self@.live =~= s0.live.insert(
                    id,
                    LiveClause { lits: c@, itp: const_edge(false), formula },
                ));
            }
        } else {
            self.pending = Some(
                Pending {
                    id,
                    lits: copy_lits(c),
                    fresh,
                    n_gates: gates.len(),
                    result: acc,
                    formula: Ghost(formula),
                },
            );
        }
        Ok(gates)
    }

    /// A clause was derived by resolution from the antecedents `p` (the last one
    /// is the conflict clause, the others are read from the end back). Its
    /// interpolant folds the antecedents' interpolants into the conflict's, by
    /// conjunction at B-variable pivots and disjunction at the others; the gates
    /// of that fold are handed out (see `finish_gates`).
    pub fn add_derived_clause(&mut self, id: usize, _redundant: bool, c: &[Lit], p: &[usize]) -> (r:
        Result<Vec<Gate>, ItpError>)
        requires
            old(self).wf(),
        ensures
            final(self).wf(),
            final(self).marks() == Set::<u64>::empty(),
            (gates_of(r), final(self)@) == derived_step(old(self)@, id, c@, p@),
    {
        if self.pending.is_some() {
            return Err(ItpError::Busy);
        }
        if clause_map_get(&self.live, id).is_some() {
            return Err(ItpError::ClauseLive);
        }
        if p.len() == 0 {
            return Err(ItpError::EmptyChain);
        }
        let ghost s0 = self@;
        let mut i: usize = 0;
        while i < p.len()
            invariant
                0 <= i <= p.len(),
                s0 == self@,
                self.wf(),
                s0.pending is None,
                !s0.live.contains_key(id),
                p@.len() > 0,
                forall|j: int| 0 <= j < i ==> s0.live.contains_key(#[trigger] p@[j]),
            decreases p.len() - i,
        {
            if clause_map_get(&self.live, p[i]).is_none() {
                assert(!s0.live.contains_key(p@[i as int]));
                assert(derived_error(s0, id, p@) == Some(ItpError::UnknownClause));
                return Err(ItpError::UnknownClause);
            }
            i += 1;
        }
        assert(derived_error(s0, id, p@) is None);
        let ops = scan_chain(&self.live, &self.b_vars, &mut self.mark, p);
        assert(self@ == s0);
        let seed = clause_map_get(&self.live, p[p.len() - 1]).unwrap().itp;
        proof {
            lemma_chain_ops_ids(s0.live, s0.b_vars, p@.drop_last(), codes(s0.live[p@.last()].lits));
            assert forall|j: int| 0 <= j < ops@.len() implies s0.live.contains_key(#[trigger] ops@[j].1) by {
                let a = ops@[j].1;
                let q = p@.drop_last();
                let t = choose|t: int| 0 <= t < q.len() && q[t] == a;
                assert(p@[t] == a);
            }
        }
        let ghost formula = chain_formula(s0.live, s0.live[p@.last()].formula, ops@);
        proof {
            lemma_chain_formula(s0.live, s0.live[p@.last()].formula, ops@, s0.b_vars);
        }
        if ops.len() == 0 {
            clause_map_insert(&mut self.live, id, ClauseRec { lits: copy_lits(c), itp: seed, formula: Ghost(formula) });
            proof {
                assert(self@.live =~= s0.live.insert(id, LiveClause { lits: c@, itp: seed, formula }));
                assert(chain_gates(s0.live, seed, ops@) =~= Seq::<Gate>::empty());
            }
            return Ok(Vec::new());
        }
        let mut gates: Vec<Gate> = Vec::new();
        let mut k: usize = 0;
        while k < ops.len()
            invariant
                0 <= k <= ops.len(),
                s0 == self@,
                forall|j: int| 0 <= j < p@.len() ==> s0.live.contains_key(#[trigger] p@[j]),
                ops@ == derived_ops(s0, p@),
                forall|j: int| 0 <= j < ops@.len() ==> s0.live.contains_key(#[trigger] ops@[j].1),
                gates@ == chain_gates(s0.live, seed, ops@).take(k as int),
            decreases ops.len() - k,
        {
            let x = if k == 0 {
                Operand::Fixed(seed)
            } else {
                Operand::Step(k - 1, false)
            };
            let y = Operand::Fixed(clause_map_get(&self.live, ops[k].1).unwrap().itp);
            let g = if ops[k].0 {
                Gate::And(x, y)
            } else {
                Gate::Or(x, y)
            };
            gates.push(g);
            k += 1;
            proof {
                assert(gates@ =~= chain_gates(s0.live, seed, ops@).take(k as int));
            }
        }
        assert(gates@ =~= chain_gates(s0.live, seed, ops@));
        let fresh = index_map_new();
        assert(index_map_view(fresh) =~= Map::<usize, usize>::empty());
        self.pending = Some(
            Pending {
                id,
                lits: copy_lits(c),
                fresh,
                n_gates: ops.len(),
                result: Operand::Step(ops.len() - 1, false),
                formula: Ghost(formula),
            },
        );
        proof {
            assert(self@.pending == Some(
                PendingView {
                    id,
                    lits: c@,
                    fresh: Map::<usize, usize>::empty(),
                    n_gates: ops@.len(),
                    result: Operand::Step((ops@.len() - 1) as usize, false),
                    formula,
                },
            ));
        }
        Ok(gates)
    }

    /// Hands in the edges that the circuit produced for the gates handed out last,
    /// one per gate and in order. The waiting clause gets its interpolant, and
    /// each of its fresh input nodes is recorded for its variable.
    pub fn finish_gates(&mut self, results: &[Edge]) -> (r: Result<(), ItpError>)
        requires
            old(self).wf(),
        ensures
            final(self).wf(),
            (r, final(self)@) == finish_step(old(self)@, results@),
    {
        match &self.pending {
            None => return Err(ItpError::NothingPending),
            Some(p) => {
                if results.len() != p.n_gates {
                    return Err(ItpError::ResultCount);
                }
            },
        }
        let ghost s0 = self@;
        let pend = self.pending.take().unwrap();
        let ghost fresh = index_map_view(pend.fresh);
        let ghost inputs0 = s0.inputs;
        let entries = index_map_entries(&pend.fresh);
        let mut i: usize = 0;
        while i < entries.len()
            invariant
                0 <= i <= entries.len(),
                fresh == index_map_view(pend.fresh),
                inputs0 == s0.inputs,
                self@ == (ItpView { inputs: index_map_view(self.var_edge), pending: None, ..s0 }),
                self.marks() == Set::<u64>::empty(),
                results@.len() == pend.n_gates,
                view_inv(s0),
                s0.pending == Some(
                    PendingView {
                        id: pend.id,
                        lits: pend.lits@,
                        fresh,
                        n_gates: pend.n_gates as nat,
                        result: pend.result,
                        formula: pend.formula@,
                    },
                ),
                forall|j: int|
                    0 <= j < entries@.len() ==> #[trigger] fresh.contains_key(entries@[j].0)
                        && fresh[entries@[j].0] == entries@[j].1,
                forall|v: usize| #[trigger]
                    index_map_view(self.var_edge).contains_key(v) && !inputs0.contains_key(v)
                        ==> fresh.contains_key(v) && index_map_view(self.var_edge)[v]
                        == results@[fresh[v] as int].node,
                forall|v: usize| #[trigger]
                    inputs0.contains_key(v) ==> index_map_view(self.var_edge).contains_key(v)
                        && index_map_view(self.var_edge)[v] == inputs0[v],
                forall|j: int|
                    0 <= j < i ==> index_map_view(self.var_edge).contains_key(#[trigger] entries@[j].0),
            decreases entries.len() - i,
        {
            let (v, k) = entries[i];
            assert(fresh.contains_key(v));
            proof {
                let pv = s0.pending->Some_0;
                assert(pv.fresh == fresh);
                assert(pv.fresh.contains_key(v));
                assert(!inputs0.contains_key(v));
            }
            assert(fresh[v] < pend.n_gates);
            let e = results[k];
            index_map_insert(&mut self.var_edge, v, e.node);
            i += 1;
        }
        proof {
            let merged = merged_inputs(inputs0, fresh, results@);
            assert forall|v: usize| merged.contains_key(v) implies index_map_view(self.var_edge).contains_key(v) by {
                if fresh.contains_key(v) {
                    let j = choose|j: int| 0 <= j < entries@.len() && entries@[j].0 == v;
                    assert(index_map_view(self.var_edge).contains_key(entries@[j].0));
                }
            }
            assert(index_map_view(self.var_edge) =~= merged);
        }
        let itp = resolve_operand(pend.result, results);
        let ghost formula = pend.formula@;
        let ghost lits = pend.lits@;
        clause_map_insert(&mut self.live, pend.id, ClauseRec { lits: pend.lits, itp, formula: pend.formula });
        proof {
            assert(self@.live =~= s0.live.insert(pend.id, LiveClause { lits, itp, formula }));
        }
        Ok(())
    }

    /// The refutation concluded; with the one handled shape (conclusion code 1
    /// and a single antecedent) the antecedent's interpolant becomes the output,
    /// which is returned.
    pub fn conclude_unsat(&mut self, conclusion: i32, p: &[usize]) -> (r: Result<Edge, ItpError>)
        requires
            old(self).wf(),
        ensures
            final(self).wf(),
            (r, final(self)@) == conclude_step(old(self)@, conclusion, p@),
    {
        if self.pending.is_some() {
            return Err(ItpError::Busy);
        }
        if conclusion != 1 || p.len() != 1 {
            return Err(ItpError::Unsupported);
        }
        match clause_map_get(&self.live, p[0]) {
            None => Err(ItpError::UnknownClause),
            Some(c) => {
                let e = c.itp;
                self.output = Some(e);
                Ok(e)
            },
        }
    }

    /// Rewrites the input map through a refinement's map from the old node ids
    /// that survived to their new ids; a variable whose node did not survive is
    /// dropped.
    pub fn apply_refinement(&mut self, map: &IndexMap) -> (r: Result<(), ItpError>)
        requires
            old(self).wf(),
        ensures
            final(self).wf(),
            (r, final(self)@) == refine_step(old(self)@, index_map_view(*map)),
    {
        if self.output.is_none() {
            return Err(ItpError::NotConcluded);
        }
        let ghost ve0 = index_map_view(self.var_edge);
        let ghost mv = index_map_view(*map);
        let entries = index_map_entries(&self.var_edge);
        let mut nv = index_map_new();
        let mut i: usize = 0;
        while i < entries.len()
            invariant
                0 <= i <= entries.len(),
                mv == index_map_view(*map),
                forall|j: int|
                    0 <= j < entries@.len() ==> #[trigger] ve0.contains_key(entries@[j].0)
                        && ve0[entries@[j].0] == entries@[j].1,
                forall|v: usize| #[trigger]
                    index_map_view(nv).contains_key(v) ==> ve0.contains_key(v) && mv.contains_key(ve0[v])
                        && index_map_view(nv)[v] == mv[ve0[v]],
                forall|j: int|
                    0 <= j < i && mv.contains_key(entries@[j].1) ==> index_map_view(nv).contains_key(
                        #[trigger] entries@[j].0,
                    ),
            decreases entries.len() - i,
        {
            let (v, n) = entries[i];
            match index_map_get(map, n) {
                Some(m) => index_map_insert(&mut nv, v, m),
                None => {},
            }
            i += 1;
        }
        proof {
            let refined = refined_inputs(ve0, mv);
            assert forall|v: usize| refined.contains_key(v) implies index_map_view(nv).contains_key(v) by {
                let j = choose|j: int| 0 <= j < entries@.len() && entries@[j].0 == v;
                assert(ve0.contains_key(entries@[j].0));
            }
            assert(index_map_view(nv) =~= refined);
        }
        self.var_edge = nv;
        Ok(())
    }

    /// The input node recorded for a variable, if any.
    pub fn input_node(&self, var: usize) -> (r: Option<usize>)
        ensures
            r == (if self@.inputs.contains_key(var) {
                Some(self@.inputs[var])
            } else {
                None::<usize>
            }),
    {
        index_map_get(&self.var_edge, var)
    }

    /// The interpolant of the clause `id`, if it is live.
    pub fn clause_interpolant(&self, id: usize) -> (r: Option<Edge>)
        ensures
            r == (if self@.live.contains_key(id) {
                Some(self@.live[id].itp)
            } else {
                None::<Edge>
            }),
    {
        match clause_map_get(&self.live, id) {
            Some(c) => Some(c.itp),
            None => None,
        }
    }

    /// The map from each shared variable to its input node, which the engine
    /// gives up.
    pub fn interpolant(self) -> (r: IndexMap)
        ensures
            index_map_view(r) == self@.inputs,
    {
        self.var_edge
    }

    /// A clause was deleted: its literals and interpolant are dropped, its label kept.
    pub fn delete_clause(&mut self, id: usize, _redundant: bool, _c: &[Lit]) -> (r: Result<
        (),
        ItpError,
    >)
        requires
            old(self).wf(),
        ensures
            final(self).wf(),
            (r, final(self)@) == delete_step(old(self)@, id),
    {
        if self.pending.is_some() {
            return Err(ItpError::Busy);
        }
        if clause_map_get(&self.live, id).is_none() {
            return Err(ItpError::UnknownClause);
        }
        clause_map_remove(&mut self.live, id);
        assert(self@.live =~= old(self)@.live.remove(id));
        Ok(())
    }
}

impl Default for Interpolant {
    fn default() -> (r: Interpolant)
        ensures
            r.wf(),
            r@ == initial_view(),
    {
        Interpolant::new()
    }
}

} // verus!
