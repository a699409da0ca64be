//! The round-trip theorem of the domain engine: transforming a
//! polynomial to evaluation form and back returns the original
//! coefficients, for every polynomial of degree below the domain size.
use vstd::prelude::*;
use vstd::arithmetic::power::{
    pow, lemma_pow_mod_noop, lemma_pow_multiplies, lemma_pow_distributes, lemma_pow_adds,
    lemma1_pow,
};
use vstd::arithmetic::div_mod::{
    lemma_small_mod, lemma_mul_mod_noop, lemma_mul_mod_noop_left, lemma_mul_mod_noop_right,
};
use vstd::arithmetic::mul::{lemma_mul_is_commutative, lemma_mul_is_associative};
use crate::field::{Fr, fval, fr_ok, fp, pow_mod, lemma_fval_injective};
use crate::poly::{
    vals, poly_eval_v, psum, geo, lemma_psum_as_wsum, lemma_geo_as_wsum, lemma_geo_one,
};
use crate::sums::{
    wsum, lemma_wsum_congruent, lemma_wsum_scale, lemma_wsum_single, lemma_grid_rows_as_wsum,
    lemma_grid_col_as_wsum, lemma_grid_cols_as_wsum, lemma_grid_swap, grid_col,
};
use crate::domain::{Domain, domain_ok};

verus! {

/// A power of a product of inverses is one modulo the characteristic.
proof fn lemma_unit_power(w: nat, wi: nat, e: nat)
    requires
        w * wi % fp() == 1,
    ensures
        pow((w * wi) as int, e) % (fp() as int) == 1,
{
    let p = fp() as int;
    lemma_pow_mod_noop((w * wi) as int, e, p);
    lemma1_pow(e);
    lemma_small_mod(1nat, fp());
}

/// The k-th powers of an element and of its inverse cancel.
proof fn lemma_y_unit(w: nat, wi: nat, e: nat)
    requires
        w * wi % fp() == 1,
    ensures
        (pow_mod(w, e) * pow_mod(wi, e)) % fp() == 1,
{
    let p = fp() as int;
    lemma_mul_mod_noop(pow(w as int, e), pow(wi as int, e), p);
    lemma_pow_distributes(w as int, wi as int, e);
    lemma_unit_power(w, wi, e);
}

/// Mixed powers of an element and its inverse reduce to a power of the
/// element alone when the element's exponent is the larger one.
proof fn lemma_y_shift(w: nat, wi: nat, i: nat, e: nat)
    requires
        w * wi % fp() == 1,
        i > e,
    ensures
        (pow_mod(w, i) * pow_mod(wi, e)) % fp() == pow_mod(w, (i - e) as nat),
{
    let p = fp() as int;
    let dd = (i - e) as nat;
    lemma_pow_adds(w as int, dd, e);
    lemma_mul_mod_noop(pow(w as int, i), pow(wi as int, e), p);
    lemma_mul_is_associative(pow(w as int, dd), pow(w as int, e), pow(wi as int, e));
    lemma_pow_distributes(w as int, wi as int, e);
    lemma_mul_mod_noop_right(pow(w as int, dd), pow((w * wi) as int, e), p);
    lemma_unit_power(w, wi, e);
}

/// Rearranges a power of a reduced power: the inner and outer exponents
/// commute, and a shared power of two bases is a power of their product.
proof fn lemma_power_product(w: nat, y: nat, i: nat, j: nat)
    ensures
        (pow(pow_mod(w, j) as int, i) * pow(y as int, j)) % (fp() as int) == pow(
            ((pow_mod(w, i) * y) % fp()) as int,
            j,
        ) % (fp() as int),
{
    let p = fp() as int;
    lemma_pow_mod_noop(pow(w as int, j), i, p);
    lemma_pow_multiplies(w as int, j, i);
    lemma_pow_mod_noop(pow(w as int, i), j, p);
    lemma_pow_multiplies(w as int, i, j);
    lemma_mul_is_commutative(i as int, j as int);
    let b1 = pow(pow_mod(w, j) as int, i);
    let b2 = pow(pow_mod(w, i) as int, j);
    let cc = pow(y as int, j);
    lemma_mul_mod_noop_left(b1, cc, p);
    lemma_mul_mod_noop_left(b2, cc, p);
    assert(b1 % p == b2 % p);
    lemma_pow_distributes(pow_mod(w, i) as int, y as int, j);
    lemma_pow_mod_noop((pow_mod(w, i) * y) as int, j, p);
}

/// Interpolation inverts evaluation, coefficient by coefficient: for a
/// well-built domain, 1/n times the evaluation vector read as a
/// polynomial at omega^(-k) is the k-th original coefficient.
#[verifier::rlimit(100)]
#[verifier::spinoff_prover]
pub proof fn lemma_round_trip(dom: Domain, c: Seq<Fr>, evs: Seq<Fr>, k: int)
    requires
        domain_ok(dom),
        c.len() == dom.n,
        evs.len() == dom.n,
        forall|i: int| 0 <= i < dom.n ==> fr_ok(#[trigger] c[i]),
        forall|j: int|
            0 <= j < dom.n ==> fval(#[trigger] evs[j]) == poly_eval_v(
                vals(c),
                pow_mod(fval(dom.omega), j as nat),
            ),
        0 <= k < dom.n,
    ensures
        fval(dom.n_inv) * poly_eval_v(vals(evs), pow_mod(fval(dom.omega_inv), k as nat)) % fp()
            == fval(c[k]),
{
    let p = fp() as int;
    let n = dom.n as int;
    let wv = fval(dom.omega);
    let wiv = fval(dom.omega_inv);
    let nin = fval(dom.n_inv);
    let v = vals(c);
    let ev = vals(evs);
    let xk = pow_mod(wiv, k as nat);
    assert(v.len() == n && ev.len() == n);
    let mat = Seq::new(
        n as nat,
        |j: int|
            Seq::new(
                n as nat,
                |i: int|
                    v[i] as int * pow(pow_mod(wv, j as nat) as int, i as nat) * pow(
                        xk as int,
                        j as nat,
                    ),
            ),
    );
    // The outer sum, with each evaluation replaced by its defining sum.
    let aseq = Seq::new(n as nat, |j: int| ev[j] as int * pow(xk as int, j as nat));
    lemma_psum_as_wsum(ev, xk, aseq, n);
    let bseq = Seq::new(
        n as nat,
        |j: int| psum(v, pow_mod(wv, j as nat), n) * pow(xk as int, j as nat),
    );
    assert forall|j: int| 0 <= j < n implies aseq[j] % p == bseq[j] % p by {
        let xj = pow_mod(wv, j as nat);
        assert(ev[j] as int == psum(v, xj, n) % p);
        lemma_mul_mod_noop_left(psum(v, xj, n), pow(xk as int, j as nat), p);
    }
    lemma_wsum_congruent(aseq, bseq, n, p);
    assert forall|j: int| 0 <= j < n implies bseq[j] == wsum(mat[j], n) by {
        let xj = pow_mod(wv, j as nat);
        let cj = Seq::new(n as nat, |i: int| v[i] as int * pow(xj as int, i as nat));
        lemma_psum_as_wsum(v, xj, cj, n);
        assert(forall|i: int|
            0 <= i < n ==> mat[j][i] == #[trigger] cj[i] * pow(xk as int, j as nat));
        lemma_wsum_scale(cj, mat[j], pow(xk as int, j as nat), n);
    }
    lemma_grid_rows_as_wsum(mat, bseq, n, n);
    // Interchange the double sum.
    lemma_grid_swap(mat, n, n);
    // Column i collapses to a geometric sum that the domain controls.
    let fseq = Seq::new(n as nat, |i: int| grid_col(mat, n, i));
    lemma_grid_cols_as_wsum(mat, fseq, n, n);
    let gseq = Seq::new(n as nat, |i: int| if i == k { v[k] as int * n } else { 0int });
    assert forall|i: int| 0 <= i < n implies fseq[i] % p == gseq[i] % p by {
        let wi_ = pow_mod(wv, i as nat);
        let y = (wi_ * xk) % fp();
        let dseq = Seq::new(n as nat, |j: int| mat[j][i]);
        assert(forall|j: int| 0 <= j < n ==> dseq[j] == #[trigger] mat[j][i]);
        lemma_grid_col_as_wsum(mat, dseq, n, i);
        let eseq = Seq::new(n as nat, |j: int| v[i] as int * pow(y as int, j as nat));
        assert forall|j: int| 0 <= j < n implies dseq[j] % p == eseq[j] % p by {
            lemma_power_product(wv, xk, i as nat, j as nat);
            let b = pow(pow_mod(wv, j as nat) as int, i as nat);
            let cc = pow(xk as int, j as nat);
            lemma_mul_is_associative(v[i] as int, b, cc);
            lemma_mul_mod_noop_right(v[i] as int, b * cc, p);
            lemma_mul_mod_noop_right(v[i] as int, pow(y as int, j as nat), p);
        }
        lemma_wsum_congruent(dseq, eseq, n, p);
        let gpow = Seq::new(n as nat, |j: int| pow(y as int, j as nat));
        lemma_geo_as_wsum(y, gpow, n);
        assert forall|j: int| 0 <= j < n implies eseq[j] == #[trigger] gpow[j] * (v[i] as int) by {
            lemma_mul_is_commutative(v[i] as int, gpow[j]);
        }
        lemma_wsum_scale(gpow, eseq, v[i] as int, n);
        if i == k {
            lemma_y_unit(wv, wiv, k as nat);
            assert(y == 1);
            lemma_geo_one(n);
            lemma_mul_is_commutative(n, v[k] as int);
        } else if i > k {
            lemma_y_shift(wv, wiv, i as nat, k as nat);
            assert(geo(y, n) % p == 0);
            lemma_mul_mod_noop_right(v[i] as int, geo(y, n), p);
            lemma_mul_is_commutative(geo(y, n), v[i] as int);
        } else {
            lemma_mul_is_commutative(wv as int, wiv as int);
            lemma_mul_is_commutative(wi_ as int, xk as int);
            lemma_y_shift(wiv, wv, k as nat, i as nat);
            assert(y == pow_mod(wiv, (k - i) as nat));
            assert(geo(y, n) % p == 0);
            lemma_mul_mod_noop_right(v[i] as int, geo(y, n), p);
            lemma_mul_is_commutative(geo(y, n), v[i] as int);
        }
    }
    lemma_wsum_congruent(fseq, gseq, n, p);
    lemma_wsum_single(gseq, k, n);
    // Assemble: the outer sum is congruent to v[k] * n; divide by n.
    let z = poly_eval_v(ev, xk);
    assert(z as int == psum(ev, xk, n) % p);
    assert(psum(ev, xk, n) % p == (v[k] as int * n) % p);
    lemma_mul_mod_noop_right(nin as int, v[k] as int * n, p);
    assert(nin as int * (v[k] as int * n) == v[k] as int * (n * nin as int)) by (nonlinear_arith);
    lemma_mul_mod_noop_right(v[k] as int, n * nin as int, p);
    assert((dom.n as nat) * nin % fp() == 1);
    lemma_small_mod(fval(c[k]), fp());
}

/// The round trip on whole vectors: the coefficient form recovered from
/// the evaluation form of a polynomial is that polynomial.
pub proof fn lemma_transforms_invert(dom: Domain, c: Seq<Fr>, evs: Seq<Fr>, back: Seq<Fr>)
    requires
        domain_ok(dom),
        c.len() == dom.n,
        evs.len() == dom.n,
        back.len() == dom.n,
        forall|i: int| 0 <= i < dom.n ==> fr_ok(#[trigger] c[i]),
        forall|j: int|
            0 <= j < dom.n ==> fval(#[trigger] evs[j]) == poly_eval_v(
                vals(c),
                pow_mod(fval(dom.omega), j as nat),
            ),
        forall|k2: int|
            0 <= k2 < dom.n ==> fval(#[trigger] back[k2]) == fval(dom.n_inv) * poly_eval_v(
                vals(evs),
                pow_mod(fval(dom.omega_inv), k2 as nat),
            ) % fp(),
    ensures
        back == c,
{
    assert forall|k2: int| 0 <= k2 < dom.n implies back[k2] == c[k2] by {
        lemma_round_trip(dom, c, evs, k2);
        lemma_fval_injective(back[k2], c[k2]);
    }
    assert(back =~= c);
}

} // verus!
