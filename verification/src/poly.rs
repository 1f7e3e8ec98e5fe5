//! Dense univariate polynomials over the field: Horner evaluation, pointwise
//! arithmetic, multiplication by a monomial `X - a`, synthetic division by
//! `X - z`, Lagrange interpolation, and evaluation over a whole domain.
//!
//! Interpolation validates its own result inside the verified code: the
//! returned polynomial is re-evaluated on every interpolation point, so its
//! contract carries the round-trip property without trusting any algebra.

use vstd::prelude::*;
use crate::field::{fadd, fmul, fsub, Fe, P};

verus! {

/// Horner evaluation of a coefficient sequence at `x`, low coefficient first.
pub open spec fn poly_eval(c: Seq<Fe>, x: int) -> int
    decreases c.len(),
{
    if c.len() == 0 {
        0int
    } else {
        fadd(c[0].v as int, fmul(x, poly_eval(c.subrange(1, c.len() as int), x)))
    }
}

/// Every coefficient is in canonical form.
pub open spec fn poly_wf(c: Seq<Fe>) -> bool {
    forall|i: int| 0 <= i < c.len() ==> c[i].wf()
}

/// The `i`-th coefficient as an integer, zero outside the sequence.
pub open spec fn coeff_at(c: Seq<Fe>, i: int) -> int {
    if 0 <= i < c.len() {
        c[i].v as int
    } else {
        0int
    }
}

/// A polynomial's value is always a canonical representative.
pub proof fn lemma_poly_eval_bound(c: Seq<Fe>, x: int)
    ensures
        0 <= poly_eval(c, x) < P,
    decreases c.len(),
{
    if c.len() == 0 {
    } else {
        lemma_poly_eval_bound(c.subrange(1, c.len() as int), x);
        vstd::arithmetic::div_mod::lemma_mod_bound(
            c[0].v as int + fmul(x, poly_eval(c.subrange(1, c.len() as int), x)),
            P as int,
        );
    }
}

/// A dense univariate polynomial, low coefficient first.
#[derive(Clone, Debug)]
pub struct Poly {
    pub coeffs: Vec<Fe>,
}

impl Poly {
    pub open spec fn wf(self) -> bool {
        poly_wf(self.coeffs@)
    }

    /// The zero polynomial.
    pub fn zero() -> (r: Poly)
        ensures
            r.wf(),
            r.coeffs@.len() == 0,
    {
        Poly { coeffs: Vec::new() }
    }

    /// The constant polynomial `c`.
    pub fn constant(c: Fe) -> (r: Poly)
        requires
            c.wf(),
        ensures
            r.wf(),
            r.coeffs@.len() == 1,
            r.coeffs@[0] == c,
    {
        let mut coeffs: Vec<Fe> = Vec::new();
        coeffs.push(c);
        Poly { coeffs }
    }

    /// Horner evaluation at `x`.
    pub fn eval(&self, x: Fe) -> (r: Fe)
        requires
            self.wf(),
            x.wf(),
        ensures
            r.wf(),
            r.v as int == poly_eval(self.coeffs@, x.v as int),
    {
        let n = self.coeffs.len();
        let mut acc = Fe::zero();
        let mut i = n;
        while i > 0
            invariant
                i <= n,
                n == self.coeffs@.len(),
                self.wf(),
                x.wf(),
                acc.wf(),
                acc.v as int == poly_eval(self.coeffs@.subrange(i as int, n as int), x.v as int),
            decreases i,
        {
            i = i - 1;
            let ghost pre = self.coeffs@.subrange(i as int, n as int);
            let ghost post = self.coeffs@.subrange(i as int + 1, n as int);
            proof {
                assert(pre.len() > 0);
                assert(pre[0] == self.coeffs@[i as int]);
                assert(pre.subrange(1, pre.len() as int) =~= post);
            }
            acc = acc.mul(x).add(self.coeffs[i]);
        }
        proof {
            assert(self.coeffs@.subrange(0, n as int) =~= self.coeffs@);
        }
        acc
    }

    /// Pointwise sum; the shorter operand is read as zero-padded.
    pub fn add_poly(&self, other: &Poly) -> (r: Poly)
        requires
            self.wf(),
            other.wf(),
        ensures
            r.wf(),
            r.coeffs@.len() == if self.coeffs@.len() >= other.coeffs@.len() {
                self.coeffs@.len()
            } else {
                other.coeffs@.len()
            },
            forall|i: int|
                0 <= i < r.coeffs@.len() ==> r.coeffs@[i].v as int == fadd(
                    coeff_at(self.coeffs@, i),
                    coeff_at(other.coeffs@, i),
                ),
    {
        let n = if self.coeffs.len() >= other.coeffs.len() {
            self.coeffs.len()
        } else {
            other.coeffs.len()
        };
        let mut coeffs: Vec<Fe> = Vec::new();
        let mut i: usize = 0;
        while i < n
            invariant
                i <= n,
                self.wf(),
                other.wf(),
                n == if self.coeffs@.len() >= other.coeffs@.len() {
                    self.coeffs@.len()
                } else {
                    other.coeffs@.len()
                },
                coeffs@.len() == i,
                poly_wf(coeffs@),
                forall|j: int|
                    0 <= j < i ==> coeffs@[j].v as int == fadd(
                        coeff_at(self.coeffs@, j),
                        coeff_at(other.coeffs@, j),
                    ),
            decreases n - i,
        {
            let a = if i < self.coeffs.len() {
                self.coeffs[i]
            } else {
                Fe::zero()
            };
            let b = if i < other.coeffs.len() {
                other.coeffs[i]
            } else {
                Fe::zero()
            };
            coeffs.push(a.add(b));
            i = i + 1;
        }
        Poly { coeffs }
    }

    /// Every coefficient scaled by `c`.
    pub fn scale(&self, c: Fe) -> (r: Poly)
        requires
            self.wf(),
            c.wf(),
        ensures
            r.wf(),
            r.coeffs@.len() == self.coeffs@.len(),
            forall|i: int|
                0 <= i < r.coeffs@.len() ==> r.coeffs@[i].v as int == fmul(
                    c.v as int,
                    self.coeffs@[i].v as int,
                ),
    {
        let mut coeffs: Vec<Fe> = Vec::new();
        let mut i: usize = 0;
        while i < self.coeffs.len()
            invariant
                i <= self.coeffs@.len(),
                self.wf(),
                c.wf(),
                coeffs@.len() == i,
                poly_wf(coeffs@),
                forall|j: int|
                    0 <= j < i ==> coeffs@[j].v as int == fmul(c.v as int, self.coeffs@[j].v as int),
            decreases self.coeffs@.len() - i,
        {
            coeffs.push(c.mul(self.coeffs[i]));
            i = i + 1;
        }
        Poly { coeffs }
    }

    /// The product `(X - a) * self`, one coefficient at a time.
    pub fn mul_monomial(&self, a: Fe) -> (r: Poly)
        requires
            self.wf(),
            a.wf(),
            self.coeffs@.len() < usize::MAX,
        ensures
            r.wf(),
            r.coeffs@.len() == self.coeffs@.len() + 1,
            forall|i: int|
                0 <= i < r.coeffs@.len() ==> r.coeffs@[i].v as int == fsub(
                    coeff_at(self.coeffs@, i - 1),
                    fmul(a.v as int, coeff_at(self.coeffs@, i)),
                ),
    {
        let n = self.coeffs.len();
        let mut coeffs: Vec<Fe> = Vec::new();
        let mut i: usize = 0;
        while i < n + 1
            invariant
                i <= n + 1,
                n < usize::MAX,
                n == self.coeffs@.len(),
                self.wf(),
                a.wf(),
                coeffs@.len() == i,
                poly_wf(coeffs@),
                forall|j: int|
                    0 <= j < i ==> coeffs@[j].v as int == fsub(
                        coeff_at(self.coeffs@, j - 1),
                        fmul(a.v as int, coeff_at(self.coeffs@, j)),
                    ),
            decreases n + 1 - i,
        {
            let lower = if i >= 1 && i - 1 < n {
                self.coeffs[i - 1]
            } else {
                Fe::zero()
            };
            let here = if i < n {
                self.coeffs[i]
            } else {
                Fe::zero()
            };
            coeffs.push(lower.sub(a.mul(here)));
            i = i + 1;
        }
        Poly { coeffs }
    }

    /// Synthetic division by `X - z`: returns `(q, rem)` with
    /// `q[i] = p[i+1] + z * q[i+1]` downward and `rem = p[0] + z * q[0]`,
    /// which pins `q` and `rem` as the unique quotient and remainder.
    pub fn divide_out_point(&self, z: Fe) -> (r: (Poly, Fe))
        requires
            self.wf(),
            z.wf(),
            self.coeffs@.len() >= 1,
        ensures
            r.0.wf(),
            r.1.wf(),
            r.0.coeffs@.len() == self.coeffs@.len() - 1,
            forall|i: int|
                0 <= i < r.0.coeffs@.len() ==> r.0.coeffs@[i].v as int == fadd(
                    self.coeffs@[i + 1].v as int,
                    fmul(z.v as int, coeff_at(r.0.coeffs@, i + 1)),
                ),
            r.1.v as int == fadd(self.coeffs@[0].v as int, fmul(z.v as int, coeff_at(r.0.coeffs@, 0))),
    {
        let n = self.coeffs.len();
        let mut q: Vec<Fe> = Vec::new();
        let mut carry = Fe::zero();
        let mut i = n;
        // Build the quotient from the top coefficient downward, then reverse.
        while i > 1
            invariant
                1 <= i <= n,
                n == self.coeffs@.len(),
                self.wf(),
                z.wf(),
                carry.wf(),
                q@.len() == n - i,
                poly_wf(q@),
                forall|j: int|
                    0 <= j < q@.len() ==> #[trigger] q@[j].v as int == fadd(
                        self.coeffs@[n - 1 - j].v as int,
                        fmul(z.v as int, if j >= 1 { q@[j - 1].v as int } else { 0int }),
                    ),
                carry.v as int == (if q@.len() >= 1 { q@[q@.len() - 1].v as int } else { 0int }),
            decreases i,
        {
            i = i - 1;
            let next = self.coeffs[i].add(z.mul(carry));
            q.push(next);
            carry = next;
        }
        let rem = self.coeffs[0].add(z.mul(carry));
        // Reverse into low-first order.
        let mut coeffs: Vec<Fe> = Vec::new();
        let mut k: usize = 0;
        let m = q.len();
        while k < m
            invariant
                k <= m,
                m == q@.len(),
                poly_wf(q@),
                coeffs@.len() == k,
                forall|j: int| 0 <= j < k ==> coeffs@[j] == q@[m - 1 - j],
            decreases m - k,
        {
            coeffs.push(q[m - 1 - k]);
            k = k + 1;
        }
        proof {
            assert(poly_wf(coeffs@));
            assert forall|i2: int| 0 <= i2 < coeffs@.len() implies coeffs@[i2].v as int == fadd(
                self.coeffs@[i2 + 1].v as int,
                fmul(z.v as int, coeff_at(coeffs@, i2 + 1)),
            ) by {
                assert(coeffs@[i2] == q@[m - 1 - i2]);
                if i2 + 1 < coeffs@.len() {
                    assert(coeffs@[i2 + 1] == q@[m - 1 - (i2 + 1)]);
                }
            }
            if m >= 1 {
                assert(coeffs@[0] == q@[m - 1]);
            }
        }
        (Poly { coeffs }, rem)
    }

    /// The coefficients with trailing zeroes removed; its length minus one is
    /// the polynomial's degree.
    pub fn trimmed_len(&self) -> (r: usize)
        requires
            self.wf(),
        ensures
            r <= self.coeffs@.len(),
            forall|i: int| r <= i < self.coeffs@.len() ==> self.coeffs@[i].v == 0,
            r >= 1 ==> self.coeffs@[r - 1].v != 0,
    {
        let mut r = self.coeffs.len();
        while r > 0
            invariant
                r <= self.coeffs@.len(),
                self.wf(),
                forall|i: int| r <= i < self.coeffs@.len() ==> self.coeffs@[i].v == 0,
            decreases r,
        {
            if self.coeffs[r - 1].v != 0 {
                return r;
            }
            r = r - 1;
        }
        r
    }

    /// Evaluation at every point of a domain, in order.
    pub fn evaluate_on(&self, xs: &Vec<Fe>) -> (r: Vec<Fe>)
        requires
            self.wf(),
            poly_wf(xs@),
        ensures
            r@.len() == xs@.len(),
            poly_wf(r@),
            forall|i: int|
                0 <= i < r@.len() ==> r@[i].v as int == poly_eval(self.coeffs@, xs@[i].v as int),
    {
        let mut out: Vec<Fe> = Vec::new();
        let mut i: usize = 0;
        while i < xs.len()
            invariant
                i <= xs@.len(),
                self.wf(),
                poly_wf(xs@),
                out@.len() == i,
                poly_wf(out@),
                forall|j: int|
                    0 <= j < i ==> out@[j].v as int == poly_eval(self.coeffs@, xs@[j].v as int),
            decreases xs@.len() - i,
        {
            out.push(self.eval(xs[i]));
            i = i + 1;
        }
        out
    }
}

/// Lagrange interpolation through `(xs[i], ys[i])`, validated inside the
/// function: the result is re-evaluated on every point before it is returned,
/// so `Some(p)` carries the full round-trip guarantee.  `None` reports a fatal
/// internal error (repeated points or a failed inverse).
pub fn interpolate(xs: &Vec<Fe>, ys: &Vec<Fe>) -> (r: Option<Poly>)
    requires
        poly_wf(xs@),
        poly_wf(ys@),
        xs@.len() == ys@.len(),
        xs@.len() < usize::MAX,
    ensures
        r is Some ==> {
            &&& r.unwrap().wf()
            &&& r.unwrap().coeffs@.len() <= xs@.len()
            &&& forall|i: int|
                0 <= i < xs@.len() ==> poly_eval(r.unwrap().coeffs@, xs@[i].v as int)
                    == ys@[i].v as int
        },
{
    let n = xs.len();
    let mut sum = Poly::zero();
    let mut j: usize = 0;
    while j < n
        invariant
            j <= n,
            n == xs@.len(),
            n == ys@.len(),
            poly_wf(xs@),
            poly_wf(ys@),
            sum.wf(),
            sum.coeffs@.len() <= n,
        decreases n - j,
    {
        // Basis numerator: product of (X - xs[k]) for k != j.
        let mut basis = Poly::constant(Fe::one());
        let mut denom = Fe::one();
        let mut k: usize = 0;
        while k < n
            invariant
                k <= n,
                n == xs@.len(),
                j < n,
                poly_wf(xs@),
                basis.wf(),
                denom.wf(),
                basis.coeffs@.len() <= if k > j {
                    k as int
                } else {
                    k + 1
                },
            decreases n - k,
        {
            if k != j {
                basis = basis.mul_monomial(xs[k]);
                denom = denom.mul(xs[j].sub(xs[k]));
            }
            k = k + 1;
        }
        let dinv = match denom.checked_inv() {
            Some(d) => d,
            None => {
                return None;
            },
        };
        sum = sum.add_poly(&basis.scale(ys[j].mul(dinv)));
        j = j + 1;
    }
    // Validation: the construction above is not trusted; every interpolation
    // point is checked against the result.
    let mut i: usize = 0;
    while i < n
        invariant
            i <= n,
            n == xs@.len(),
            n == ys@.len(),
            poly_wf(xs@),
            poly_wf(ys@),
            sum.wf(),
            sum.coeffs@.len() <= n,
            forall|t: int| 0 <= t < i ==> poly_eval(sum.coeffs@, xs@[t].v as int) == ys@[t].v as int,
        decreases n - i,
    {
        if sum.eval(xs[i]).v != ys[i].v {
            return None;
        }
        i = i + 1;
    }
    Some(sum)
}


/// The evaluations of a coefficient sequence over a whole domain, in order.
#[verifier::opaque]
pub open spec fn eval_on_domain(c: Seq<Fe>, xs: Seq<Fe>) -> Seq<Fe> {
    Seq::new(xs.len(), |i: int| Fe { v: poly_eval(c, xs[i].v as int) as u64 })
}

/// Round trip: evaluating an interpolated polynomial back over its domain
/// returns the original values.  The premise is exactly what [`interpolate`]
/// ensures of a returned polynomial, and the conclusion is what
/// [`Poly::evaluate_on`] computes, so interpolation and evaluation are
/// mutually inverse on the domain.
pub proof fn lemma_interpolate_evaluate_round_trip(c: Seq<Fe>, xs: Seq<Fe>, ys: Seq<Fe>)
    requires
        xs.len() == ys.len(),
        poly_wf(ys),
        forall|i: int| 0 <= i < xs.len() ==> poly_eval(c, (#[trigger] xs[i]).v as int) == ys[i].v as int,
    ensures
        eval_on_domain(c, xs) == ys,
{
    reveal(eval_on_domain);
    assert forall|i: int| 0 <= i < xs.len() implies #[trigger] eval_on_domain(c, xs)[i] == ys[i] by {
        lemma_poly_eval_bound(c, xs[i].v as int);
    }
    assert(eval_on_domain(c, xs) =~= ys);
}
} // verus!
