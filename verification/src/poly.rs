//! Polynomials in coefficient form, as vectors of field elements, and
//! their evaluation.
use vstd::prelude::*;
use vstd::arithmetic::power::pow;
use vstd::arithmetic::div_mod::{lemma_add_mod_noop, lemma_mul_mod_noop_right, lemma_small_mod};
use crate::field::{Fr, fval, fr_ok, fp, fr_add, fr_mul, pow_mod, lemma_pow_mod_step};
use crate::sums::wsum;

verus! {

/// The mathematical values of a coefficient vector.
pub open spec fn vals(c: Seq<Fr>) -> Seq<nat> {
    Seq::new(c.len(), |i: int| fval(c[i]))
}

/// The integer v[0] + v[1]*x + ... + v[m-1]*x^(m-1).
pub open spec fn psum(v: Seq<nat>, x: nat, m: int) -> int
    decreases m,
{
    if m <= 0 {
        0
    } else {
        psum(v, x, m - 1) + v[m - 1] * pow(x as int, (m - 1) as nat)
    }
}

/// Evaluation of the polynomial with coefficient values `v` at `x`,
/// reduced modulo the field characteristic.
pub open spec fn poly_eval_v(v: Seq<nat>, x: nat) -> nat {
    (psum(v, x, v.len() as int) % (fp() as int)) as nat
}

/// The integer 1 + x + x^2 + ... + x^(m-1).
pub open spec fn geo(x: nat, m: int) -> int
    decreases m,
{
    if m <= 0 {
        0
    } else {
        geo(x, m - 1) + pow(x as int, (m - 1) as nat)
    }
}

/// A polynomial sum is the plain sum of its term sequence.
pub proof fn lemma_psum_as_wsum(v: Seq<nat>, x: nat, t: Seq<int>, m: int)
    requires
        forall|i: int| 0 <= i < m ==> t[i] == v[i] * pow(x as int, i as nat),
    ensures
        psum(v, x, m) == wsum(t, m),
    decreases m,
{
    if m > 0 {
        lemma_psum_as_wsum(v, x, t, m - 1);
    }
}

/// A geometric sum is the plain sum of its power sequence.
pub proof fn lemma_geo_as_wsum(x: nat, t: Seq<int>, m: int)
    requires
        forall|i: int| 0 <= i < m ==> t[i] == pow(x as int, i as nat),
    ensures
        geo(x, m) == wsum(t, m),
    decreases m,
{
    if m > 0 {
        lemma_geo_as_wsum(x, t, m - 1);
    }
}

/// The geometric sum of one is the number of terms.
pub proof fn lemma_geo_one(m: int)
    requires
        m >= 0,
    ensures
        geo(1, m) == m,
    decreases m,
{
    if m > 0 {
        lemma_geo_one(m - 1);
        vstd::arithmetic::power::lemma1_pow((m - 1) as nat);
    }
}

/// All coefficients are reduced.
pub open spec fn poly_ok(c: Seq<Fr>) -> bool {
    forall|i: int| 0 <= i < c.len() ==> fr_ok(#[trigger] c[i])
}

/// A coefficient's value, with zero beyond the vector's end.
pub open spec fn at_or0(c: Seq<Fr>, i: int) -> nat {
    if 0 <= i < c.len() {
        fval(c[i])
    } else {
        0nat
    }
}

/// The convolution sum of the first m terms of coefficient k of a product:
/// a[0]*b[k] + a[1]*b[k-1] + ... , missing factors counting as zero.
pub open spec fn conv_to(a: Seq<Fr>, b: Seq<Fr>, k: int, m: int) -> int
    decreases m,
{
    if m <= 0 {
        0
    } else {
        conv_to(a, b, k, m - 1) + (
        if 0 <= k - (m - 1) < b.len() {
            fval(a[m - 1]) * fval(b[k - (m - 1)])
        } else {
            0
        })
    }
}

/// The sum of every n-th coefficient from index i on: v[i] + v[i+n] + ...
pub open spec fn skip_sum(v: Seq<Fr>, n: int, i: int) -> int
    decreases v.len() + n - i,
{
    if n < 1 || i < 0 || i >= v.len() {
        0
    } else {
        fval(v[i]) + skip_sum(v, n, i + n)
    }
}

/// Pointwise sum of two polynomials; the shorter is padded with zero.
pub fn poly_add(a: &Vec<Fr>, b: &Vec<Fr>) -> (r: Vec<Fr>)
    requires
        poly_ok(a@),
        poly_ok(b@),
    ensures
        r@.len() == if a@.len() >= b@.len() { a@.len() } else { b@.len() },
        poly_ok(r@),
        forall|i: int|
            0 <= i < r@.len() ==> fval(#[trigger] r@[i]) == (at_or0(a@, i) + at_or0(b@, i)) % fp(),
{
    let n: usize = if a.len() >= b.len() { a.len() } else { b.len() };
    let mut r: Vec<Fr> = Vec::new();
    let mut i: usize = 0;
    while i < n
        invariant
            i <= n,
            r@.len() == i,
            poly_ok(a@),
            poly_ok(b@),
            poly_ok(r@),
            forall|j: int|
                0 <= j < i ==> fval(#[trigger] r@[j]) == (at_or0(a@, j) + at_or0(b@, j)) % fp(),
        decreases n - i,
    {
        let x = if i < a.len() { a[i] } else { Fr::zero() };
        let y = if i < b.len() { b[i] } else { Fr::zero() };
        r.push(fr_add(x, y));
        i = i + 1;
    }
    r
}

/// Every coefficient scaled by a constant.
pub fn poly_scale(c: Fr, a: &Vec<Fr>) -> (r: Vec<Fr>)
    requires
        poly_ok(a@),
    ensures
        r@.len() == a@.len(),
        poly_ok(r@),
        forall|i: int|
            0 <= i < r@.len() ==> fval(#[trigger] r@[i]) == fval(c) * fval(a@[i]) % fp(),
{
    let mut r: Vec<Fr> = Vec::new();
    let mut i: usize = 0;
    while i < a.len()
        invariant
            i <= a@.len(),
            r@.len() == i,
            poly_ok(r@),
            forall|j: int|
                0 <= j < i ==> fval(#[trigger] r@[j]) == fval(c) * fval(a@[j]) % fp(),
        decreases a@.len() - i,
    {
        r.push(fr_mul(c, a[i]));
        i = i + 1;
    }
    r
}

/// The product of two polynomials, by direct convolution.
pub fn poly_mul(a: &Vec<Fr>, b: &Vec<Fr>) -> (r: Vec<Fr>)
    requires
        poly_ok(a@),
        poly_ok(b@),
        a@.len() >= 1,
        b@.len() >= 1,
        a@.len() + b@.len() < usize::MAX,
    ensures
        r@.len() == a@.len() + b@.len() - 1,
        poly_ok(r@),
        forall|k: int|
            0 <= k < r@.len() ==> fval(#[trigger] r@[k]) as int == conv_to(a@, b@, k, a@.len() as int)
                % (fp() as int),
{
    let m = a.len() + b.len() - 1;
    let mut r: Vec<Fr> = Vec::new();
    let mut k: usize = 0;
    while k < m
        invariant
            k <= m,
            m == a@.len() + b@.len() - 1,
            r@.len() == k,
            poly_ok(r@),
            poly_ok(a@),
            poly_ok(b@),
            forall|k2: int|
                0 <= k2 < k ==> fval(#[trigger] r@[k2]) as int == conv_to(
                    a@,
                    b@,
                    k2,
                    a@.len() as int,
                ) % (fp() as int),
        decreases m - k,
    {
        let mut acc = Fr::zero();
        let mut i: usize = 0;
        proof {
            lemma_small_mod(0nat, fp());
        }
        while i < a.len()
            invariant
                i <= a@.len(),
                k < m,
                m == a@.len() + b@.len() - 1,
                fr_ok(acc),
                poly_ok(a@),
                poly_ok(b@),
                fval(acc) as int == conv_to(a@, b@, k as int, i as int) % (fp() as int),
            decreases a@.len() - i,
        {
            if i <= k && k - i < b.len() {
                proof {
                    lemma_add_mod_noop(
                        conv_to(a@, b@, k as int, i as int),
                        fval(a@[i as int]) as int * fval(b@[k as int - i]) as int,
                        fp() as int,
                    );
                }
                acc = fr_add(acc, fr_mul(a[i], b[k - i]));
            }
            i = i + 1;
        }
        r.push(acc);
        k = k + 1;
    }
    r
}

/// Divides by the vanishing polynomial x^n - 1. Coefficient i of the
/// quotient is the reduced sum of the dividend's coefficients i+n,
/// i+2n, ...; the division is exact (and succeeds) exactly when, for
/// every i below n, the sum of coefficients i, i+n, i+2n, ... vanishes
/// in the field; otherwise the first index whose sum does not vanish is
/// reported.
pub fn divide_by_vanishing(num: &Vec<Fr>, n: usize) -> (r: Result<Vec<Fr>, usize>)
    requires
        poly_ok(num@),
        n >= 1,
        num@.len() + n < usize::MAX,
    ensures
        r is Ok <==> (forall|i: int|
            0 <= i < n ==> #[trigger] skip_sum(num@, n as int, i) % (fp() as int) == 0),
        r is Ok ==> {
            let q = r->Ok_0;
            &&& q@.len() == (if num@.len() > n { num@.len() - n } else { 0int })
            &&& poly_ok(q@)
            &&& forall|i: int|
                0 <= i < q@.len() ==> fval(#[trigger] q@[i]) as int == skip_sum(
                    num@,
                    n as int,
                    i + n,
                ) % (fp() as int)
        },
        r is Err ==> r->Err_0 < n && skip_sum(num@, n as int, r->Err_0 as int) % (fp() as int) != 0,
{
    let qlen: usize = if num.len() > n { num.len() - n } else { 0 };
    let mut q: Vec<Fr> = Vec::new();
    let mut i: usize = 0;
    while i < qlen
        invariant
            i <= qlen,
            qlen <= num@.len(),
            qlen == 0 || qlen + n == num@.len(),
            qlen == 0 ==> num@.len() <= n,
            num@.len() + n < usize::MAX,
            q@.len() == i,
            poly_ok(q@),
            poly_ok(num@),
            n >= 1,
            forall|j: int|
                0 <= j < i ==> fval(#[trigger] q@[j]) as int == skip_sum(num@, n as int, j + n) % (
                fp() as int),
        decreases qlen - i,
    {
        let mut acc = Fr::zero();
        let mut j: usize = i + n;
        proof {
            vstd::arithmetic::div_mod::lemma_mod_bound(
                skip_sum(num@, n as int, i as int + n),
                fp() as int,
            );
        }
        while j < num.len()
            invariant
                fr_ok(acc),
                poly_ok(num@),
                n >= 1,
                i + n <= j,
                num@.len() + n < usize::MAX,
                j <= num@.len() + n,
                (fval(acc) + skip_sum(num@, n as int, j as int)) % (fp() as int) == skip_sum(
                    num@,
                    n as int,
                    i as int + n,
                ) % (fp() as int),
            decreases num@.len() + n - j,
        {
            proof {
                vstd::arithmetic::div_mod::lemma_add_mod_noop_right(
                    skip_sum(num@, n as int, j as int + n),
                    fval(acc) as int + fval(num@[j as int]) as int,
                    fp() as int,
                );
            }
            acc = fr_add(acc, num[j]);
            j = j + n;
        }
        proof {
            vstd::arithmetic::div_mod::lemma_small_mod(fval(acc), fp());
        }
        q.push(acc);
        i = i + 1;
    }
    // The remainder must vanish identically: position i of the remainder
    // is the reduced sum of the dividend's coefficients i, i+n, i+2n, ...
    let mut i2: usize = 0;
    while i2 < n
        invariant
            i2 <= n,
            qlen <= num@.len(),
            qlen == 0 || qlen + n == num@.len(),
            qlen == 0 ==> num@.len() <= n,
            q@.len() == qlen,
            poly_ok(q@),
            poly_ok(num@),
            n >= 1,
            forall|j: int|
                0 <= j < q@.len() ==> fval(#[trigger] q@[j]) as int == skip_sum(num@, n as int, j + n)
                    % (fp() as int),
            forall|j: int|
                0 <= j < i2 ==> #[trigger] skip_sum(num@, n as int, j) % (fp() as int) == 0,
        decreases n - i2,
    {
        let base = if i2 < num.len() { num[i2] } else { Fr::zero() };
        let extra = if i2 < q.len() { q[i2] } else { Fr::zero() };
        proof {
            let p = fp() as int;
            let nn = n as int;
            let ii = i2 as int;
            if ii < num@.len() {
                assert(skip_sum(num@, nn, ii) == fval(num@[ii]) + skip_sum(num@, nn, ii + nn));
                if ii < q@.len() {
                    vstd::arithmetic::div_mod::lemma_add_mod_noop_right(
                        fval(num@[ii]) as int,
                        skip_sum(num@, nn, ii + nn),
                        p,
                    );
                } else {
                    assert(skip_sum(num@, nn, ii + nn) == 0);
                }
            } else {
                assert(skip_sum(num@, nn, ii) == 0);
            }
            vstd::arithmetic::div_mod::lemma_small_mod(0nat, fp());
            assert((fval(base) + fval(extra)) as int % p == skip_sum(num@, nn, ii) % p);
        }
        if !crate::field::fr_is_zero(fr_add(base, extra)) {
            return Err(i2);
        }
        i2 = i2 + 1;
    }
    Ok(q)
}

/// Evaluates the polynomial with coefficients `c` at `x`, term by term.
pub fn poly_eval(c: &Vec<Fr>, x: Fr) -> (r: Fr)
    ensures
        fval(r) == poly_eval_v(vals(c@), fval(x)),
        fr_ok(r),
{
    let mut acc = Fr::zero();
    let mut xp = Fr::one();
    let mut i: usize = 0;
    proof {
        vstd::arithmetic::power::lemma_pow0(fval(x) as int);
        lemma_small_mod(1nat, fp());
        lemma_small_mod(0nat, fp());
    }
    while i < c.len()
        invariant
            i <= c@.len(),
            fr_ok(acc),
            fr_ok(xp),
            fval(xp) == pow_mod(fval(x), i as nat),
            fval(acc) as int == psum(vals(c@), fval(x), i as int) % (fp() as int),
        decreases c@.len() - i,
    {
        let t = fr_mul(c[i], xp);
        proof {
            let pp = fp() as int;
            let ci = fval(c@[i as int]) as int;
            let pw = pow(fval(x) as int, i as nat);
            lemma_mul_mod_noop_right(ci, pw, pp);
            assert(fval(t) as int == (ci * pw) % pp);
            lemma_add_mod_noop(psum(vals(c@), fval(x), i as int), ci * pw, pp);
            lemma_pow_mod_step(fval(x), i as nat);
        }
        acc = fr_add(acc, t);
        xp = fr_mul(xp, x);
        i = i + 1;
    }
    acc
}

} // verus!
