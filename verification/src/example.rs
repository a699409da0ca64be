//! The example circuit: one standard PLONK gate
//! `S_L*a + S_R*b + S_O*c + S_M*a*b`, instantiated on one row to compute
//! `c = a*b` and on the next to compute `c = a+b`, with a copy constraint
//! asserting the two outputs are equal. A witness `(a, b)` therefore
//! satisfies the circuit exactly when `a*b == a+b` in the field.
use vstd::prelude::*;
use vstd::arithmetic::div_mod::{
    lemma_add_mod_noop, lemma_fundamental_div_mod, lemma_mod_bound, lemma_mod_multiples_vanish,
    lemma_small_mod,
};
use crate::field::{Fr, fval, fr_ok, fp, fr_mul, fr_add, fr_neg};
use crate::circuit::{
    Term, Gate, CopyConstraint, CircuitDescription, Assignment, desc_wf, assign_wf,
    copies_in_range, monomial_from, term_eval, gate_sum_from, gate_eval, gates_satisfied,
    copy_holds, copies_satisfied, valid_assignment, check_assignment, col_wf,
};
use crate::Error;

verus! {

/// The shape `configure` produces: wire columns a, b, c; selector columns
/// S_L, S_R, S_O, S_M; the standard gate; one copy constraint c[0] = c[1].
pub open spec fn example_desc_ok(d: CircuitDescription) -> bool {
    &&& d.num_wire_cols == 3
    &&& d.num_fixed_cols == 4
    &&& d.gates@.len() == 1
    &&& d.gates@[0].terms@.len() == 4
    &&& d.gates@[0].terms@[0].selector == 0 && d.gates@[0].terms@[0].wires@ == seq![0usize]
    &&& d.gates@[0].terms@[1].selector == 1 && d.gates@[0].terms@[1].wires@ == seq![1usize]
    &&& d.gates@[0].terms@[2].selector == 2 && d.gates@[0].terms@[2].wires@ == seq![2usize]
    &&& d.gates@[0].terms@[3].selector == 3 && d.gates@[0].terms@[3].wires@ == seq![0usize, 1usize]
    &&& d.copies@.len() == 1
    &&& d.copies@[0] == (CopyConstraint { col_a: 2, row_a: 0, col_b: 2, row_b: 1 })
    &&& d.perm_enabled@.len() == 3
    &&& !d.perm_enabled@[0] && !d.perm_enabled@[1] && d.perm_enabled@[2]
}

/// The configuration pass: allocates the columns, registers the standard
/// gate, declares the copy constraint and permutation-enables its column.
pub fn configure() -> (d: CircuitDescription)
    ensures
        example_desc_ok(d),
        desc_wf(d),
{
    let gate = Gate {
        terms: vec![
            Term { selector: 0, wires: vec![0] },
            Term { selector: 1, wires: vec![1] },
            Term { selector: 2, wires: vec![2] },
            Term { selector: 3, wires: vec![0, 1] },
        ],
    };
    let d = CircuitDescription {
        num_wire_cols: 3,
        num_fixed_cols: 4,
        gates: vec![gate],
        copies: vec![CopyConstraint { col_a: 2, row_a: 0, col_b: 2, row_b: 1 }],
        perm_enabled: vec![false, false, true],
    };
    proof {
        assert(d.gates@[0].terms@[0].wires@ =~= seq![0usize]);
        assert(d.gates@[0].terms@[1].wires@ =~= seq![1usize]);
        assert(d.gates@[0].terms@[2].wires@ =~= seq![2usize]);
        assert(d.gates@[0].terms@[3].wires@ =~= seq![0usize, 1usize]);
        assert forall|i: int| 0 <= i < d.gates@.len() implies crate::circuit::gate_wf(d, #[trigger] d.gates@[i]) by {
            assert forall|j: int| 0 <= j < d.gates@[i].terms@.len()
                implies crate::circuit::term_wf(d, #[trigger] d.gates@[i].terms@[j]) by {
            }
        }
    }
    d
}

/// Builds one column holding `x` on the first row, `y` on the second, and
/// zero on every padding row.
fn column_pair(x: Fr, y: Fr, rows: usize) -> (c: Vec<Fr>)
    requires
        rows >= 2,
        fr_ok(x),
        fr_ok(y),
    ensures
        col_wf(c@, rows as nat),
        c@[0] == x,
        c@[1] == y,
        forall|r: int| 2 <= r < rows ==> fval(#[trigger] c@[r]) == 0,
{
    let mut c: Vec<Fr> = Vec::new();
    c.push(x);
    c.push(y);
    while c.len() < rows
        invariant
            2 <= c@.len() <= rows,
            c@[0] == x,
            c@[1] == y,
            fr_ok(x),
            fr_ok(y),
            forall|r: int| 2 <= r < c@.len() ==> fval(#[trigger] c@[r]) == 0 && fr_ok(c@[r]),
        decreases rows - c@.len(),
    {
        c.push(Fr::zero());
    }
    c
}

/// The synthesis pass for the example circuit: fills every cell from the
/// two secrets and checks the result. Succeeds exactly when
/// `a*b == a+b` in the field; otherwise the copy constraint is the
/// violated one and is reported. The contract pins every cell, so the
/// recorded assignment is a deterministic function of the secrets: the
/// multiplication row carries selectors (0, 0, -1, 1), the addition row
/// (1, 1, -1, 0), and every padding cell is zero.
pub fn synthesize(d: &CircuitDescription, secret_a: Fr, secret_b: Fr, rows: usize) -> (r: Result<
    Assignment,
    Error,
>)
    requires
        example_desc_ok(*d),
        desc_wf(*d),
        fr_ok(secret_a),
        fr_ok(secret_b),
        rows >= 2,
    ensures
        r is Ok <==> fval(secret_a) * fval(secret_b) % fp() == (fval(secret_a) + fval(secret_b))
            % fp(),
        r is Ok ==> {
            let asg = r->Ok_0;
            &&& valid_assignment(*d, asg)
            &&& asg.rows == rows
            &&& fval(asg.wires@[0]@[0]) == fval(secret_a)
            &&& fval(asg.wires@[1]@[0]) == fval(secret_b)
            &&& fval(asg.wires@[2]@[0]) == fval(secret_a) * fval(secret_b) % fp()
            &&& fval(asg.wires@[2]@[1]) == (fval(secret_a) + fval(secret_b)) % fp()
            &&& fval(asg.wires@[0]@[1]) == fval(secret_a)
            &&& fval(asg.wires@[1]@[1]) == fval(secret_b)
            &&& asg.wires@.len() == 3 && asg.fixed@.len() == 4
            &&& (forall|c: int| 0 <= c < 3 ==> (#[trigger] asg.wires@[c])@.len() == rows)
            &&& (forall|c: int| 0 <= c < 4 ==> (#[trigger] asg.fixed@[c])@.len() == rows)
            &&& fval(asg.fixed@[0]@[0]) == 0 && fval(asg.fixed@[0]@[1]) == 1
            &&& fval(asg.fixed@[1]@[0]) == 0 && fval(asg.fixed@[1]@[1]) == 1
            &&& fval(asg.fixed@[2]@[0]) == fp() - 1 && fval(asg.fixed@[2]@[1]) == fp() - 1
            &&& fval(asg.fixed@[3]@[0]) == 1 && fval(asg.fixed@[3]@[1]) == 0
            &&& (forall|c: int, r2: int|
                0 <= c < 3 && 2 <= r2 < rows ==> fval(#[trigger] asg.wires@[c]@[r2]) == 0)
            &&& (forall|c: int, r2: int|
                0 <= c < 4 && 2 <= r2 < rows ==> fval(#[trigger] asg.fixed@[c]@[r2]) == 0)
        },
        r is Err ==> r->Err_0 == (Error::UnsatisfiedConstraint { copy: true, index: 0, row: 0 }),
{
    let m = fr_mul(secret_a, secret_b);
    let s = fr_add(secret_a, secret_b);
    let one = Fr::one();
    let zero = Fr::zero();
    let neg_one = fr_neg(one);
    let asg = Assignment {
        rows,
        wires: vec![
            column_pair(secret_a, secret_a, rows),
            column_pair(secret_b, secret_b, rows),
            column_pair(m, s, rows),
        ],
        fixed: vec![
            column_pair(zero, one, rows),
            column_pair(zero, one, rows),
            column_pair(neg_one, neg_one, rows),
            column_pair(one, zero, rows),
        ],
    };
    proof {
        lemma_small_mod((fp() - 1) as nat, fp());
        lemma_example_gates(*d, asg, fval(secret_a), fval(secret_b));
    }
    match check_assignment(d, &asg) {
        Ok(()) => Ok(asg),
        Err(e) => {
            proof {
                assert(!copies_satisfied(*d, asg));
                assert(!copy_holds(asg, d.copies@[0]));
            }
            Err(Error::UnsatisfiedConstraint { copy: true, index: 0, row: 0 })
        }
    }
}

/// The example circuit's one gate vanishes on every row of the
/// synthesized assignment, whatever the secrets: the multiplication row
/// and the addition row each satisfy the standard gate by construction,
/// and padding rows have every selector zero.
pub proof fn lemma_example_gates(d: CircuitDescription, asg: Assignment, av: nat, bv: nat)
    requires
        example_desc_ok(d),
        assign_wf(d, asg),
        asg.rows >= 2,
        av < fp(),
        bv < fp(),
        fval(asg.wires@[0]@[0]) == av && fval(asg.wires@[0]@[1]) == av,
        fval(asg.wires@[1]@[0]) == bv && fval(asg.wires@[1]@[1]) == bv,
        fval(asg.wires@[2]@[0]) == av * bv % fp(),
        fval(asg.wires@[2]@[1]) == (av + bv) % fp(),
        fval(asg.fixed@[0]@[0]) == 0 && fval(asg.fixed@[0]@[1]) == 1,
        fval(asg.fixed@[1]@[0]) == 0 && fval(asg.fixed@[1]@[1]) == 1,
        fval(asg.fixed@[2]@[0]) == fp() - 1 && fval(asg.fixed@[2]@[1]) == fp() - 1,
        fval(asg.fixed@[3]@[0]) == 1 && fval(asg.fixed@[3]@[1]) == 0,
        forall|c: int, r: int|
            0 <= c < 4 && 2 <= r < asg.rows ==> fval(#[trigger] asg.fixed@[c]@[r]) == 0,
    ensures
        gates_satisfied(d, asg),
{
    let p = fp();
    let g = d.gates@[0];
    let ts = g.terms@;
    assert forall|row: int| 0 <= row < asg.rows implies #[trigger] gate_eval(asg, g, row) == 0 by {
        lemma_example_gate_row(d, asg, av, bv, row);
    }
    assert forall|gi: int, row: int|
        0 <= gi < d.gates@.len() && 0 <= row < asg.rows
        implies #[trigger] gate_eval(asg, d.gates@[gi], row) == 0 by {
        assert(d.gates@[gi] == g);
    }
}

/// The standard gate vanishes on one row of the example assignment.
#[verifier::rlimit(100)]
#[verifier::spinoff_prover]
proof fn lemma_example_gate_row(d: CircuitDescription, asg: Assignment, av: nat, bv: nat, row: int)
    requires
        example_desc_ok(d),
        assign_wf(d, asg),
        asg.rows >= 2,
        av < fp(),
        bv < fp(),
        0 <= row < asg.rows,
        fval(asg.wires@[0]@[0]) == av && fval(asg.wires@[0]@[1]) == av,
        fval(asg.wires@[1]@[0]) == bv && fval(asg.wires@[1]@[1]) == bv,
        fval(asg.wires@[2]@[0]) == av * bv % fp(),
        fval(asg.wires@[2]@[1]) == (av + bv) % fp(),
        fval(asg.fixed@[0]@[0]) == 0 && fval(asg.fixed@[0]@[1]) == 1,
        fval(asg.fixed@[1]@[0]) == 0 && fval(asg.fixed@[1]@[1]) == 1,
        fval(asg.fixed@[2]@[0]) == fp() - 1 && fval(asg.fixed@[2]@[1]) == fp() - 1,
        fval(asg.fixed@[3]@[0]) == 1 && fval(asg.fixed@[3]@[1]) == 0,
        forall|c: int, r: int|
            0 <= c < 4 && 2 <= r < asg.rows ==> fval(#[trigger] asg.fixed@[c]@[r]) == 0,
    ensures
        gate_eval(asg, d.gates@[0], row) == 0,
{
    let p = fp();
    let g = d.gates@[0];
    let ts = g.terms@;
    let wa = fval(asg.wires@[0]@[row]);
    let wb = fval(asg.wires@[1]@[row]);
    let wc = fval(asg.wires@[2]@[row]);
    let s0 = fval(asg.fixed@[0]@[row]);
    let s1 = fval(asg.fixed@[1]@[row]);
    let s2 = fval(asg.fixed@[2]@[row]);
    let s3 = fval(asg.fixed@[3]@[row]);
    // The three wire monomials that appear in its terms.
    lemma_small_mod(wa, p);
    lemma_small_mod(wb, p);
    lemma_small_mod(wc, p);
    assert(monomial_from(asg, seq![0usize], 1, row) == 1);
    assert(monomial_from(asg, seq![0usize], 0, row) == wa);
    assert(monomial_from(asg, seq![1usize], 1, row) == 1);
    assert(monomial_from(asg, seq![1usize], 0, row) == wb);
    assert(monomial_from(asg, seq![2usize], 1, row) == 1);
    assert(monomial_from(asg, seq![2usize], 0, row) == wc);
    assert(monomial_from(asg, seq![0usize, 1usize], 2, row) == 1);
    assert(monomial_from(asg, seq![0usize, 1usize], 1, row) == wb);
    assert(monomial_from(asg, seq![0usize, 1usize], 0, row) == wa * wb % p);
    let t0 = term_eval(asg, ts[0], row);
    let t1 = term_eval(asg, ts[1], row);
    let t2 = term_eval(asg, ts[2], row);
    let t3 = term_eval(asg, ts[3], row);
    assert(t0 == s0 * wa % p);
    assert(t1 == s1 * wb % p);
    assert(t2 == s2 * wc % p);
    assert(t3 == s3 * (wa * wb % p) % p);
    lemma_mod_bound((wa * wb) as int, p as int);
    lemma_small_mod((wa * wb % p) as nat, p);
    lemma_small_mod(0nat, p);
    assert(gate_sum_from(asg, ts, 4, row) == 0);
    assert(gate_sum_from(asg, ts, 3, row) == (t3 + 0) % p);
    assert(gate_sum_from(asg, ts, 2, row) == (t2 + gate_sum_from(asg, ts, 3, row)) % p);
    assert(gate_sum_from(asg, ts, 1, row) == (t1 + gate_sum_from(asg, ts, 2, row)) % p);
    assert(gate_sum_from(asg, ts, 0, row) == (t0 + gate_sum_from(asg, ts, 1, row)) % p);
    if row == 0 {
        let x = av * bv % p;
        assert(wa == av && wb == bv && wc == x);
        assert(s0 == 0 && s1 == 0 && s2 == p - 1 && s3 == 1);
        assert(t0 == 0);
        assert(t1 == 0);
        assert(t3 == x) by {
            lemma_small_mod(x, p);
        }
        // t2 == (-x) % p, so t2 + t3 is a multiple of p.
        assert((p - 1) * x == p * x - x) by (nonlinear_arith);
        lemma_mod_multiples_vanish(x as int, -(x as int), p as int);
        assert(t2 as int == (-(x as int)) % (p as int));
        lemma_mod_bound(-(x as int), p as int);
        lemma_small_mod(t2, p);
        lemma_add_mod_noop(-(x as int), x as int, p as int);
        assert((t3 + 0) % p == x);
        assert((t2 + x) % p == 0) by {
            assert(t2 as int % (p as int) == (-(x as int)) % (p as int));
            assert(x % p == x);
            assert((t2 + x) as int % (p as int) == (-(x as int) + x as int) % (p as int)) by {
                lemma_add_mod_noop(t2 as int, x as int, p as int);
            }
        }
        assert(gate_sum_from(asg, ts, 2, row) == 0);
        assert(gate_sum_from(asg, ts, 1, row) == 0);
        assert(gate_sum_from(asg, ts, 0, row) == 0);
    } else if row == 1 {
        let s = (av + bv) % p;
        assert(wa == av && wb == bv && wc == s);
        assert(s0 == 1 && s1 == 1 && s2 == p - 1 && s3 == 0);
        lemma_small_mod(av, p);
        lemma_small_mod(bv, p);
        assert(t0 == av);
        assert(t1 == bv);
        assert(t3 == 0);
        assert((p - 1) * s == p * s - s) by (nonlinear_arith);
        lemma_mod_multiples_vanish(s as int, -(s as int), p as int);
        assert(t2 as int == (-(s as int)) % (p as int));
        lemma_mod_bound(-(s as int), p as int);
        lemma_small_mod(t2, p);
        assert(gate_sum_from(asg, ts, 3, row) == 0);
        assert(gate_sum_from(asg, ts, 2, row) == t2) by {
            lemma_small_mod(t2, p);
        }
        assert((bv + t2) as int % (p as int) == (bv as int - s as int) % (p as int)) by {
            lemma_add_mod_noop(bv as int, -(s as int), p as int);
        }
        assert(gate_sum_from(asg, ts, 1, row) as int == (bv as int - s as int) % (p as int));
        lemma_mod_bound(bv as int - s as int, p as int);
        assert((av + gate_sum_from(asg, ts, 1, row)) as int % (p as int) == (av as int + bv - s)
            % (p as int)) by {
            lemma_add_mod_noop(av as int, bv as int - s as int, p as int);
            lemma_small_mod(av, p);
            lemma_mod_bound(bv as int - s as int, p as int);
            lemma_small_mod(((bv as int - s as int) % (p as int)) as nat, p);
        }
        // av + bv - s is a multiple of p by the definition of s.
        lemma_fundamental_div_mod((av + bv) as int, p as int);
        let q = (av + bv) as int / (p as int);
        assert(av as int + bv - s == (p as int) * q);
        lemma_mod_multiples_vanish(q, 0, p as int);
        assert(((p as int) * q) % (p as int) == 0);
        assert(gate_sum_from(asg, ts, 0, row) == 0);
    } else {
        assert(s0 == 0 && s1 == 0 && s2 == 0 && s3 == 0);
        assert(t0 == 0 && t1 == 0 && t2 == 0 && t3 == 0);
        assert(gate_sum_from(asg, ts, 0, row) == 0);
    }
}

/// For any valid assignment of the example shape, the two outputs agree:
/// the witness satisfies `a*b == a+b` in the field.
pub proof fn lemma_example_valid_implies_root(d: CircuitDescription, asg: Assignment)
    requires
        example_desc_ok(d),
        valid_assignment(d, asg),
        asg.rows >= 2,
    ensures
        fval(asg.wires@[2]@[0]) == fval(asg.wires@[2]@[1]),
{
    assert(copy_holds(asg, d.copies@[0]));
}

} // verus!
