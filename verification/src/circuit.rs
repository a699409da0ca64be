//! The circuit model: columns, gates, copy constraints, and per-instance
//! assignments.
//!
//! A gate is a per-row polynomial identity, written as a sum of
//! selector-times-wire-monomial terms, that must vanish on every row. A
//! copy constraint asserts that two wire cells hold the same value. A
//! circuit description is created once by a configuration pass; an
//! assignment gives concrete values to every cell of one instance and is
//! valid when every gate vanishes on every row and every copy constraint
//! holds.
use vstd::prelude::*;
use crate::field::{Fr, fval, fr_ok, fp, fr_mul, fr_add, fr_eq, fr_is_zero};
use crate::Error;

verus! {

/// One monomial term of a gate: the selector (fixed) column times the
/// product of the listed wire columns, all taken at the current row.
#[derive(Clone, Debug)]
pub struct Term {
    pub selector: usize,
    pub wires: Vec<usize>,
}

/// A gate: a sum of terms that must evaluate to zero on every row.
#[derive(Clone, Debug)]
pub struct Gate {
    pub terms: Vec<Term>,
}

/// Asserts that two wire cells hold equal values.
#[derive(Clone, Copy, Debug, PartialEq, Eq, Structural)]
pub struct CopyConstraint {
    pub col_a: usize,
    pub row_a: usize,
    pub col_b: usize,
    pub row_b: usize,
}

/// The shape of a circuit: columns, gates and copy constraints,
/// independent of any particular witness.
#[derive(Clone, Debug)]
pub struct CircuitDescription {
    pub num_wire_cols: usize,
    pub num_fixed_cols: usize,
    pub gates: Vec<Gate>,
    pub copies: Vec<CopyConstraint>,
    /// Which wire columns take part in the permutation argument; every
    /// column referenced by a copy constraint must be enabled here.
    pub perm_enabled: Vec<bool>,
}

/// Concrete values for every cell of one circuit instance; column-major,
/// each column one value per row.
#[derive(Clone, Debug)]
pub struct Assignment {
    pub rows: usize,
    pub wires: Vec<Vec<Fr>>,
    pub fixed: Vec<Vec<Fr>>,
}

/// A term only references columns the description has.
pub open spec fn term_wf(d: CircuitDescription, t: Term) -> bool {
    &&& t.selector < d.num_fixed_cols
    &&& forall|k: int| 0 <= k < t.wires@.len() ==> t.wires@[k] < d.num_wire_cols
}

/// Every term of a gate is well formed.
pub open spec fn gate_wf(d: CircuitDescription, g: Gate) -> bool {
    forall|j: int| 0 <= j < g.terms@.len() ==> term_wf(d, #[trigger] g.terms@[j])
}

/// A description is well formed: gates reference existing columns and
/// every column a copy constraint touches is permutation-enabled.
pub open spec fn desc_wf(d: CircuitDescription) -> bool {
    &&& d.perm_enabled@.len() == d.num_wire_cols
    &&& forall|i: int| 0 <= i < d.gates@.len() ==> gate_wf(d, #[trigger] d.gates@[i])
    &&& forall|c: int| 0 <= c < d.copies@.len() ==> {
        let cc = #[trigger] d.copies@[c];
        &&& cc.col_a < d.num_wire_cols
        &&& cc.col_b < d.num_wire_cols
        &&& d.perm_enabled@[cc.col_a as int]
        &&& d.perm_enabled@[cc.col_b as int]
    }
}

/// A column of the right length whose entries are all reduced.
pub open spec fn col_wf(c: Seq<Fr>, rows: nat) -> bool {
    &&& c.len() == rows
    &&& forall|r: int| 0 <= r < c.len() ==> fr_ok(#[trigger] c[r])
}

/// An assignment matches the description's shape and is fully reduced.
pub open spec fn assign_wf(d: CircuitDescription, a: Assignment) -> bool {
    &&& a.wires@.len() == d.num_wire_cols
    &&& a.fixed@.len() == d.num_fixed_cols
    &&& forall|c: int| 0 <= c < a.wires@.len() ==> col_wf(#[trigger] a.wires@[c]@, a.rows as nat)
    &&& forall|c: int| 0 <= c < a.fixed@.len() ==> col_wf(#[trigger] a.fixed@[c]@, a.rows as nat)
}

/// Every copy constraint's rows exist in the assignment.
pub open spec fn copies_in_range(d: CircuitDescription, a: Assignment) -> bool {
    forall|c: int| 0 <= c < d.copies@.len() ==> {
        let cc = #[trigger] d.copies@[c];
        cc.row_a < a.rows && cc.row_b < a.rows
    }
}

/// The product of the wire columns `ws[i..]` at `row`, reduced after each
/// factor.
pub open spec fn monomial_from(a: Assignment, ws: Seq<usize>, i: int, row: int) -> nat
    decreases ws.len() - i,
{
    if i < 0 || i >= ws.len() {
        1nat
    } else {
        (fval(a.wires@[ws[i] as int]@[row]) * monomial_from(a, ws, i + 1, row)) % fp()
    }
}

/// The value of one gate term at `row`.
pub open spec fn term_eval(a: Assignment, t: Term, row: int) -> nat {
    (fval(a.fixed@[t.selector as int]@[row]) * monomial_from(a, t.wires@, 0, row)) % fp()
}

/// The sum of a gate's terms `ts[i..]` at `row`, reduced after each term.
pub open spec fn gate_sum_from(a: Assignment, ts: Seq<Term>, i: int, row: int) -> nat
    decreases ts.len() - i,
{
    if i < 0 || i >= ts.len() {
        0nat
    } else {
        (term_eval(a, ts[i], row) + gate_sum_from(a, ts, i + 1, row)) % fp()
    }
}

/// The value of a gate's identity at `row`.
pub open spec fn gate_eval(a: Assignment, g: Gate, row: int) -> nat {
    gate_sum_from(a, g.terms@, 0, row)
}

/// Every gate of the description vanishes on every row.
pub open spec fn gates_satisfied(d: CircuitDescription, a: Assignment) -> bool {
    forall|gi: int, row: int|
        0 <= gi < d.gates@.len() && 0 <= row < a.rows ==> #[trigger] gate_eval(a, d.gates@[gi], row) == 0
}

/// One copy constraint holds of the assignment.
pub open spec fn copy_holds(a: Assignment, cc: CopyConstraint) -> bool {
    fval(a.wires@[cc.col_a as int]@[cc.row_a as int]) == fval(a.wires@[cc.col_b as int]@[cc.row_b as int])
}

/// Every copy constraint holds of the assignment.
pub open spec fn copies_satisfied(d: CircuitDescription, a: Assignment) -> bool {
    forall|c: int| 0 <= c < d.copies@.len() ==> copy_holds(a, #[trigger] d.copies@[c])
}

/// A valid assignment: well shaped, every gate vanishes everywhere, and
/// every copy constraint holds.
pub open spec fn valid_assignment(d: CircuitDescription, a: Assignment) -> bool {
    &&& assign_wf(d, a)
    &&& copies_in_range(d, a)
    &&& gates_satisfied(d, a)
    &&& copies_satisfied(d, a)
}

/// On a valid assignment every gate evaluates to zero on every row.
pub proof fn lemma_valid_gates_vanish(d: CircuitDescription, a: Assignment, gi: int, row: int)
    requires
        valid_assignment(d, a),
        0 <= gi < d.gates@.len(),
        0 <= row < a.rows,
    ensures
        gate_eval(a, d.gates@[gi], row) == 0,
{
}

/// Evaluates the wire monomial `ws` at `row`.
pub fn eval_monomial(a: &Assignment, ws: &Vec<usize>, row: usize) -> (r: Fr)
    requires
        forall|k: int| 0 <= k < ws@.len() ==> ws@[k] < a.wires@.len(),
        forall|c: int| 0 <= c < a.wires@.len() ==> col_wf(#[trigger] a.wires@[c]@, a.rows as nat),
        row < a.rows,
    ensures
        fval(r) == monomial_from(*a, ws@, 0, row as int),
        fr_ok(r),
{
    let mut i: usize = ws.len();
    let mut acc = Fr::one();
    while i > 0
        invariant
            i <= ws@.len(),
            fr_ok(acc),
            fval(acc) == monomial_from(*a, ws@, i as int, row as int),
            forall|k: int| 0 <= k < ws@.len() ==> ws@[k] < a.wires@.len(),
            forall|c: int| 0 <= c < a.wires@.len() ==> col_wf(#[trigger] a.wires@[c]@, a.rows as nat),
            row < a.rows,
        decreases i,
    {
        i = i - 1;
        acc = fr_mul(a.wires[ws[i]][row], acc);
    }
    acc
}

/// Evaluates one gate term at `row`.
pub fn eval_term(a: &Assignment, t: &Term, row: usize) -> (r: Fr)
    requires
        t.selector < a.fixed@.len(),
        forall|k: int| 0 <= k < t.wires@.len() ==> t.wires@[k] < a.wires@.len(),
        forall|c: int| 0 <= c < a.wires@.len() ==> col_wf(#[trigger] a.wires@[c]@, a.rows as nat),
        forall|c: int| 0 <= c < a.fixed@.len() ==> col_wf(#[trigger] a.fixed@[c]@, a.rows as nat),
        row < a.rows,
    ensures
        fval(r) == term_eval(*a, *t, row as int),
        fr_ok(r),
{
    let m = eval_monomial(a, &t.wires, row);
    fr_mul(a.fixed[t.selector][row], m)
}

/// Evaluates a gate's identity at `row`.
pub fn eval_gate(a: &Assignment, g: &Gate, row: usize) -> (r: Fr)
    requires
        forall|j: int| 0 <= j < g.terms@.len() ==> (#[trigger] g.terms@[j]).selector < a.fixed@.len(),
        forall|j: int, k: int|
            0 <= j < g.terms@.len() && 0 <= k < g.terms@[j].wires@.len()
                ==> #[trigger] g.terms@[j].wires@[k] < a.wires@.len(),
        forall|c: int| 0 <= c < a.wires@.len() ==> col_wf(#[trigger] a.wires@[c]@, a.rows as nat),
        forall|c: int| 0 <= c < a.fixed@.len() ==> col_wf(#[trigger] a.fixed@[c]@, a.rows as nat),
        row < a.rows,
    ensures
        fval(r) == gate_eval(*a, *g, row as int),
        fr_ok(r),
{
    let mut i: usize = g.terms.len();
    let mut acc = Fr::zero();
    while i > 0
        invariant
            i <= g.terms@.len(),
            fr_ok(acc),
            fval(acc) == gate_sum_from(*a, g.terms@, i as int, row as int),
            forall|j: int| 0 <= j < g.terms@.len() ==> (#[trigger] g.terms@[j]).selector < a.fixed@.len(),
            forall|j: int, k: int|
                0 <= j < g.terms@.len() && 0 <= k < g.terms@[j].wires@.len()
                    ==> #[trigger] g.terms@[j].wires@[k] < a.wires@.len(),
            forall|c: int| 0 <= c < a.wires@.len() ==> col_wf(#[trigger] a.wires@[c]@, a.rows as nat),
            forall|c: int| 0 <= c < a.fixed@.len() ==> col_wf(#[trigger] a.fixed@[c]@, a.rows as nat),
            row < a.rows,
        decreases i,
    {
        i = i - 1;
        let t = eval_term(a, &g.terms[i], row);
        acc = fr_add(t, acc);
    }
    acc
}

/// Checks every gate on every row; returns the first violation as
/// (gate index, row), or `None` when all gates are satisfied.
pub fn check_gates(d: &CircuitDescription, a: &Assignment) -> (r: Option<(usize, usize)>)
    requires
        desc_wf(*d),
        assign_wf(*d, *a),
    ensures
        r is None <==> gates_satisfied(*d, *a),
        r is Some ==> {
            let (gi, row) = r->Some_0;
            gi < d.gates@.len() && row < a.rows && gate_eval(*a, d.gates@[gi as int], row as int) != 0
        },
{
    let mut gi: usize = 0;
    while gi < d.gates.len()
        invariant
            gi <= d.gates@.len(),
            desc_wf(*d),
            assign_wf(*d, *a),
            forall|g2: int, r2: int|
                0 <= g2 < gi && 0 <= r2 < a.rows ==> #[trigger] gate_eval(*a, d.gates@[g2], r2) == 0,
        decreases d.gates@.len() - gi,
    {
        let mut row: usize = 0;
        while row < a.rows
            invariant
                gi < d.gates@.len(),
                row <= a.rows,
                desc_wf(*d),
                assign_wf(*d, *a),
                forall|g2: int, r2: int|
                    0 <= g2 < gi && 0 <= r2 < a.rows ==> #[trigger] gate_eval(*a, d.gates@[g2], r2) == 0,
                forall|r2: int| 0 <= r2 < row ==> #[trigger] gate_eval(*a, d.gates@[gi as int], r2) == 0,
            decreases a.rows - row,
        {
            let v = eval_gate(a, &d.gates[gi], row);
            if !fr_is_zero(v) {
                return Some((gi, row));
            }
            row = row + 1;
        }
        gi = gi + 1;
    }
    None
}

/// Checks every copy constraint; returns the first violated one's index,
/// or `None` when all hold.
pub fn check_copies(d: &CircuitDescription, a: &Assignment) -> (r: Option<usize>)
    requires
        desc_wf(*d),
        assign_wf(*d, *a),
        copies_in_range(*d, *a),
    ensures
        r is None <==> copies_satisfied(*d, *a),
        r is Some ==> r->Some_0 < d.copies@.len() && !copy_holds(*a, d.copies@[r->Some_0 as int]),
{
    let mut c: usize = 0;
    while c < d.copies.len()
        invariant
            c <= d.copies@.len(),
            desc_wf(*d),
            assign_wf(*d, *a),
            copies_in_range(*d, *a),
            forall|c2: int| 0 <= c2 < c ==> copy_holds(*a, #[trigger] d.copies@[c2]),
        decreases d.copies@.len() - c,
    {
        let cc = d.copies[c];
        if !fr_eq(a.wires[cc.col_a][cc.row_a], a.wires[cc.col_b][cc.row_b]) {
            return Some(c);
        }
        c = c + 1;
    }
    None
}

/// Checks a whole assignment against a description, reporting the first
/// unsatisfied gate or copy constraint.
pub fn check_assignment(d: &CircuitDescription, a: &Assignment) -> (r: Result<(), Error>)
    requires
        desc_wf(*d),
        assign_wf(*d, *a),
        copies_in_range(*d, *a),
    ensures
        r is Ok <==> valid_assignment(*d, *a),
        r is Err ==> r->Err_0 is UnsatisfiedConstraint,
{
    match check_gates(d, a) {
        Some((gi, row)) => Err(Error::UnsatisfiedConstraint { copy: false, index: gi, row }),
        None => match check_copies(d, a) {
            Some(c) => Err(Error::UnsatisfiedConstraint { copy: true, index: c, row: 0 }),
            None => Ok(()),
        },
    }
}

} // verus!
