use cadical::circuit::{resolve_operand, Edge, Gate, Operand};
use cadical::ghash::IndexMap;
use cadical::itp::Interpolant;
use cadical::lit::Lit;
use cadical::model::ItpError;

/// A plain circuit for the tests: node 0 is `false`, the others are inputs or
/// conjunctions of lower nodes.
#[derive(Clone)]
enum Node {
    False,
    Input,
    And(Edge, Edge),
}

struct TestCircuit {
    nodes: Vec<Node>,
    outputs: Vec<Edge>,
}

impl TestCircuit {
    fn new() -> Self {
        TestCircuit { nodes: vec![Node::False], outputs: Vec::new() }
    }

    fn and(&mut self, a: Edge, b: Edge) -> Edge {
        self.nodes.push(Node::And(a, b));
        Edge::new(self.nodes.len() - 1, false)
    }

    fn neg(e: Edge) -> Edge {
        Edge::new(e.node, !e.compl)
    }

    fn run(&mut self, gates: &[Gate]) -> Vec<Edge> {
        let mut out: Vec<Edge> = Vec::new();
        for g in gates {
            let e = match *g {
                Gate::Input => {
                    self.nodes.push(Node::Input);
                    Edge::new(self.nodes.len() - 1, false)
                }
                Gate::And(a, b) => {
                    let a = resolve_operand(a, &out);
                    let b = resolve_operand(b, &out);
                    self.and(a, b)
                }
                Gate::Or(a, b) => {
                    let a = resolve_operand(a, &out);
                    let b = resolve_operand(b, &out);
                    let n = self.and(Self::neg(a), Self::neg(b));
                    Self::neg(n)
                }
            };
            out.push(e);
        }
        out
    }

    fn eval(&self, e: Edge, value: &dyn Fn(usize) -> bool) -> bool {
        let v = match &self.nodes[e.node] {
            Node::False => false,
            Node::Input => value(e.node),
            Node::And(a, b) => self.eval(*a, value) && self.eval(*b, value),
        };
        v != e.compl
    }

    /// The nodes reachable from the outputs (and node 0), renumbered in order.
    fn refine(&self) -> IndexMap {
        let mut keep = vec![false; self.nodes.len()];
        keep[0] = true;
        for o in &self.outputs {
            keep[o.node] = true;
        }
        for i in (0..self.nodes.len()).rev() {
            if keep[i] {
                if let Node::And(a, b) = &self.nodes[i] {
                    keep[a.node] = true;
                    keep[b.node] = true;
                }
            }
        }
        let mut map = IndexMap::new();
        let mut next = 0;
        for (i, k) in keep.iter().enumerate() {
            if *k {
                map.insert(i, next);
                next += 1;
            }
        }
        map
    }
}

fn lit(v: u32, p: bool) -> Lit {
    Lit::new(v, p)
}

fn original(itp: &mut Interpolant, circuit: &mut TestCircuit, id: usize, is_b: bool, c: &[Lit]) {
    itp.label_clause(is_b).unwrap();
    let gates = itp.add_original_clause(id, false, c, false).unwrap();
    if !gates.is_empty() {
        let results = circuit.run(&gates);
        itp.finish_gates(&results).unwrap();
    }
}

fn derived(itp: &mut Interpolant, circuit: &mut TestCircuit, id: usize, c: &[Lit], p: &[usize]) {
    let gates = itp.add_derived_clause(id, false, c, p).unwrap();
    if !gates.is_empty() {
        let results = circuit.run(&gates);
        itp.finish_gates(&results).unwrap();
    }
}

#[test]
fn two_clauses_per_side_give_y() {
    // x = 1, y = 2, z = 3; A: (!x | y), (x); B: (!y | z), (!z)
    let mut itp = Interpolant::new();
    let mut circuit = TestCircuit::new();
    original(&mut itp, &mut circuit, 1, true, &[lit(2, false), lit(3, true)]);
    original(&mut itp, &mut circuit, 2, true, &[lit(3, false)]);
    original(&mut itp, &mut circuit, 3, false, &[lit(1, false), lit(2, true)]);
    original(&mut itp, &mut circuit, 4, false, &[lit(1, true)]);
    derived(&mut itp, &mut circuit, 5, &[lit(2, true)], &[4, 3]);
    derived(&mut itp, &mut circuit, 6, &[lit(3, true)], &[5, 1]);
    derived(&mut itp, &mut circuit, 7, &[], &[6, 2]);
    let out = itp.conclude_unsat(1, &[7]).unwrap();
    circuit.outputs.push(out);
    let y_input = itp.input_node(2).unwrap();
    assert!(itp.input_node(1).is_none());
    assert!(itp.input_node(3).is_none());
    // the interpolant is y itself: true exactly when y is
    for y in [false, true] {
        let value = move |n: usize| if n == y_input { y } else { false };
        assert_eq!(circuit.eval(out, &value), y);
    }
    let map = circuit.refine();
    itp.apply_refinement(&map).unwrap();
    let inputs = itp.interpolant();
    let entries = inputs.entries();
    assert_eq!(entries.len(), 1);
    assert_eq!(entries[0].0, 2);
    assert_eq!(entries[0].1, map.get(y_input).unwrap());
}

#[test]
fn six_clause_refutation_end_to_end() {
    // B: (!v1 | v2), (v1 | v3), (!v3); A: (v0 | !v1), (!v0 | !v2), (v1)
    let mut itp = Interpolant::new();
    let mut circuit = TestCircuit::new();
    let b_clauses = [vec![lit(1, false), lit(2, true)], vec![lit(1, true), lit(3, true)], vec![lit(3, false)]];
    let a_clauses = [vec![lit(0, true), lit(1, false)], vec![lit(0, false), lit(2, false)], vec![lit(1, true)]];
    for (i, c) in b_clauses.iter().enumerate() {
        original(&mut itp, &mut circuit, i + 1, true, c);
    }
    for (i, c) in a_clauses.iter().enumerate() {
        original(&mut itp, &mut circuit, i + 4, false, c);
    }
    derived(&mut itp, &mut circuit, 7, &[lit(0, true)], &[6, 4]);
    derived(&mut itp, &mut circuit, 8, &[lit(2, false)], &[7, 5]);
    derived(&mut itp, &mut circuit, 9, &[lit(1, false)], &[8, 1]);
    derived(&mut itp, &mut circuit, 10, &[], &[6, 9]);
    let out = itp.conclude_unsat(1, &[10]).unwrap();
    circuit.outputs.push(out);
    assert!(circuit.nodes.len() > 1);
    assert_eq!(circuit.outputs.len(), 1);
    let i1 = itp.input_node(1).unwrap();
    let i2 = itp.input_node(2).unwrap();
    // over every assignment of v0..v3: A implies the interpolant, and the
    // interpolant contradicts B
    for bits in 0..16u32 {
        let v = |k: u32| bits & (1 << k) != 0;
        let value = |n: usize| if n == i1 { v(1) } else if n == i2 { v(2) } else { false };
        let i = circuit.eval(out, &value);
        let sat = |c: &Vec<Lit>| c.iter().any(|l| v(l.var) == l.polarity);
        if a_clauses.iter().all(sat) {
            assert!(i);
        }
        if b_clauses.iter().all(sat) {
            assert!(!i);
        }
    }
    let map = circuit.refine();
    itp.apply_refinement(&map).unwrap();
    let inputs = itp.interpolant();
    let entries = inputs.entries();
    assert!(!entries.is_empty());
    for (var, node) in entries {
        // only variables shared by the A and B clauses
        assert!(var == 1 || var == 2);
        assert!(node < circuit.nodes.len());
    }
}

#[test]
fn b_clause_interpolant_is_true() {
    let mut itp = Interpolant::new();
    itp.label_clause(true).unwrap();
    let gates = itp.add_original_clause(1, false, &[lit(0, true), lit(1, false)], false).unwrap();
    assert!(gates.is_empty());
    assert_eq!(itp.clause_interpolant(1), Some(Edge::constant(true)));
    assert_eq!(Edge::constant(true), Edge::new(0, true));
}

#[test]
fn a_clause_without_shared_variables_is_false() {
    let mut itp = Interpolant::new();
    itp.label_clause(true).unwrap();
    itp.add_original_clause(1, false, &[lit(5, true)], false).unwrap();
    itp.label_clause(false).unwrap();
    let gates = itp.add_original_clause(2, false, &[lit(0, true), lit(1, false)], false).unwrap();
    assert!(gates.is_empty());
    assert_eq!(itp.clause_interpolant(2), Some(Edge::constant(false)));
}

#[test]
fn a_clause_program_reuses_inputs() {
    let mut itp = Interpolant::new();
    itp.label_clause(true).unwrap();
    itp.add_original_clause(1, false, &[lit(3, true), lit(4, true)], false).unwrap();
    itp.label_clause(false).unwrap();
    // variable 3 twice, variable 9 not shared, variable 4 once
    let c = [lit(3, true), lit(9, true), lit(3, false), lit(4, false)];
    let gates = itp.add_original_clause(2, false, &c, false).unwrap();
    let f = Operand::Fixed(Edge::constant(false));
    assert_eq!(
        gates,
        vec![
            Gate::Input,
            Gate::Or(f, Operand::Step(0, false)),
            Gate::Or(Operand::Step(1, false), Operand::Step(0, true)),
            Gate::Input,
            Gate::Or(Operand::Step(2, false), Operand::Step(3, true)),
        ]
    );
    let results = vec![
        Edge::new(7, false),
        Edge::new(8, false),
        Edge::new(9, false),
        Edge::new(10, false),
        Edge::new(11, true),
    ];
    itp.finish_gates(&results).unwrap();
    assert_eq!(itp.input_node(3), Some(7));
    assert_eq!(itp.input_node(4), Some(10));
    assert_eq!(itp.input_node(9), None);
    assert_eq!(itp.clause_interpolant(2), Some(Edge::new(11, true)));
    // a later A-clause reads the recorded input node and makes no new one
    itp.label_clause(false).unwrap();
    let gates = itp.add_original_clause(3, false, &[lit(3, false)], false).unwrap();
    assert_eq!(gates, vec![Gate::Or(f, Operand::Fixed(Edge::new(7, true)))]);
    itp.finish_gates(&[Edge::new(7, true)]).unwrap();
    assert_eq!(itp.input_node(3), Some(7));
}

#[test]
fn derived_clause_pivots_choose_and_or() {
    let mut itp = Interpolant::new();
    let mut circuit = TestCircuit::new();
    original(&mut itp, &mut circuit, 1, true, &[lit(1, true)]);
    original(&mut itp, &mut circuit, 2, false, &[lit(0, true), lit(1, false)]);
    original(&mut itp, &mut circuit, 3, false, &[lit(0, false)]);
    let e1 = itp.clause_interpolant(1).unwrap();
    let e2 = itp.clause_interpolant(2).unwrap();
    let e3 = itp.clause_interpolant(3).unwrap();
    // conflict 2 = (v0 | !v1); then 3 = (!v0) resolves on v0 (A-local: or),
    // then 1 = (v1) resolves on v1 (a B-variable: and)
    let gates = itp.add_derived_clause(4, false, &[], &[1, 3, 2]).unwrap();
    assert_eq!(
        gates,
        vec![
            Gate::Or(Operand::Fixed(e2), Operand::Fixed(e3)),
            Gate::And(Operand::Step(0, false), Operand::Fixed(e1)),
        ]
    );
    let err = itp.add_derived_clause(5, false, &[], &[1]);
    assert_eq!(err, Err(ItpError::Busy));
    itp.finish_gates(&[Edge::new(20, false), Edge::new(21, true)]).unwrap();
    assert_eq!(itp.clause_interpolant(4), Some(Edge::new(21, true)));
}

#[test]
fn derived_clause_without_pivot_keeps_conflict_interpolant() {
    let mut itp = Interpolant::new();
    let mut circuit = TestCircuit::new();
    original(&mut itp, &mut circuit, 1, true, &[lit(1, true)]);
    original(&mut itp, &mut circuit, 2, false, &[lit(1, true)]);
    let e2 = itp.clause_interpolant(2).unwrap();
    let gates = itp.add_derived_clause(3, false, &[lit(1, true)], &[2]).unwrap();
    assert!(gates.is_empty());
    assert_eq!(itp.clause_interpolant(3), Some(e2));
}

#[test]
fn restore_reuses_label() {
    let mut itp = Interpolant::new();
    itp.label_clause(true).unwrap();
    itp.add_original_clause(1, false, &[lit(1, true)], false).unwrap();
    itp.delete_clause(1, false, &[lit(1, true)]).unwrap();
    assert_eq!(itp.clause_interpolant(1), None);
    let gates = itp.add_original_clause(1, false, &[lit(1, true)], true).unwrap();
    assert!(gates.is_empty());
    assert_eq!(itp.clause_interpolant(1), Some(Edge::constant(true)));
}

#[test]
fn restore_with_staged_label_fails() {
    let mut itp = Interpolant::new();
    itp.label_clause(true).unwrap();
    itp.add_original_clause(1, false, &[lit(1, true)], false).unwrap();
    itp.delete_clause(1, false, &[lit(1, true)]).unwrap();
    itp.label_clause(true).unwrap();
    assert_eq!(
        itp.add_original_clause(1, false, &[lit(1, true)], true),
        Err(ItpError::LabelStagedOnRestore)
    );
}

#[test]
fn protocol_violations_are_refused() {
    let mut itp = Interpolant::new();
    assert_eq!(itp.add_original_clause(1, false, &[lit(0, true)], false), Err(ItpError::MissingLabel));
    assert_eq!(itp.add_original_clause(1, false, &[lit(0, true)], true), Err(ItpError::UnknownClause));
    itp.label_clause(true).unwrap();
    assert_eq!(itp.label_clause(false), Err(ItpError::LabelAlreadyStaged));
    itp.add_original_clause(1, false, &[lit(0, true)], false).unwrap();
    itp.label_clause(true).unwrap();
    assert_eq!(itp.add_original_clause(1, false, &[lit(0, true)], false), Err(ItpError::ClauseLive));
    assert_eq!(itp.delete_clause(9, false, &[]), Err(ItpError::UnknownClause));
    assert_eq!(itp.add_derived_clause(2, false, &[], &[]), Err(ItpError::EmptyChain));
    assert_eq!(itp.add_derived_clause(2, false, &[], &[1, 9]), Err(ItpError::UnknownClause));
    assert_eq!(itp.add_derived_clause(1, false, &[], &[1]), Err(ItpError::ClauseLive));
    assert_eq!(itp.finish_gates(&[]), Err(ItpError::NothingPending));
    assert_eq!(itp.conclude_unsat(20, &[1]), Err(ItpError::Unsupported));
    assert_eq!(itp.conclude_unsat(1, &[1, 1]), Err(ItpError::Unsupported));
    assert_eq!(itp.conclude_unsat(1, &[9]), Err(ItpError::UnknownClause));
    assert_eq!(itp.apply_refinement(&IndexMap::new()), Err(ItpError::NotConcluded));
}

#[test]
fn b_clause_after_a_clause_is_refused() {
    let mut itp = Interpolant::new();
    itp.label_clause(false).unwrap();
    itp.add_original_clause(1, false, &[lit(0, true)], false).unwrap();
    itp.label_clause(true).unwrap();
    assert_eq!(itp.add_original_clause(2, false, &[lit(0, false)], false), Err(ItpError::BAfterA));
}

#[test]
fn wrong_number_of_results_is_refused() {
    let mut itp = Interpolant::new();
    itp.label_clause(true).unwrap();
    itp.add_original_clause(1, false, &[lit(0, true)], false).unwrap();
    itp.label_clause(false).unwrap();
    let gates = itp.add_original_clause(2, false, &[lit(0, false)], false).unwrap();
    assert_eq!(gates.len(), 2);
    assert_eq!(itp.finish_gates(&[Edge::new(1, false)]), Err(ItpError::ResultCount));
    assert_eq!(itp.delete_clause(1, false, &[]), Err(ItpError::Busy));
}

#[test]
fn refinement_drops_inputs_that_did_not_survive() {
    let mut itp = Interpolant::new();
    itp.label_clause(true).unwrap();
    itp.add_original_clause(1, false, &[lit(0, true), lit(1, true)], false).unwrap();
    itp.label_clause(false).unwrap();
    itp.add_original_clause(2, false, &[lit(0, true)], false).unwrap();
    itp.finish_gates(&[Edge::new(1, false), Edge::new(1, false)]).unwrap();
    itp.label_clause(false).unwrap();
    itp.add_original_clause(3, false, &[lit(1, true)], false).unwrap();
    itp.finish_gates(&[Edge::new(2, false), Edge::new(2, false)]).unwrap();
    assert_eq!(itp.conclude_unsat(1, &[2]), Ok(Edge::new(1, false)));
    let mut map = IndexMap::new();
    map.insert(0, 0);
    map.insert(1, 1);
    itp.apply_refinement(&map).unwrap();
    assert_eq!(itp.input_node(0), Some(1));
    assert_eq!(itp.input_node(1), None);
}

#[test]
fn index_map_keeps_entries() {
    let mut m = IndexMap::new();
    assert_eq!(m.get(3), None);
    m.insert(3, 30);
    m.insert(4, 40);
    m.insert(3, 31);
    assert_eq!(m.get(3), Some(31));
    assert_eq!(m.get(4), Some(40));
    let mut e = m.entries();
    e.sort();
    assert_eq!(e, vec![(3, 31), (4, 40)]);
}

#[test]
fn default_engine_starts_empty() {
    let mut itp = Interpolant::default();
    assert_eq!(itp.input_node(0), None);
    assert_eq!(itp.clause_interpolant(0), None);
    assert_eq!(itp.add_original_clause(0, false, &[], false), Err(ItpError::MissingLabel));
}
