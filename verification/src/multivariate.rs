//! Multivariate constraint polynomials: sums of terms, each a coefficient
//! times a monomial in the trace columns.  AIR constraints are built
//! symbolically from variables and constants with sum, difference and
//! product, and every operation carries its meaning under evaluation as a
//! contract, so that what a constraint computes on a row is pinned exactly.

use vstd::prelude::*;
use crate::field::{
    fadd, fmul, fsub, lemma_fadd_assoc, lemma_fmul_assoc, lemma_fmul_dist, lemma_fmul_one,
    lemma_fsub_via_scale, lemma_pow_mod_add, lemma_pow_mod_bound, pow_mod, Fe, P,
};
use crate::poly::poly_wf;

verus! {

/// One term: a coefficient and one exponent per variable.
pub struct Term {
    pub coeff: Fe,
    pub exps: Vec<u64>,
}

/// The monomial part of a term evaluated at `a`, variables `k` onward.
pub open spec fn mono_eval(e: Seq<u64>, a: Seq<Fe>, k: int) -> int
    decreases e.len() - k,
{
    if k < 0 || k >= e.len() || e.len() > a.len() {
        1int
    } else {
        fmul(pow_mod(a[k].v as int, e[k] as nat), mono_eval(e, a, k + 1))
    }
}

/// A term's value at `a`.
pub open spec fn term_eval(t: Term, a: Seq<Fe>) -> int {
    fmul(t.coeff.v as int, mono_eval(t.exps@, a, 0))
}

/// The value of a sum of terms at `a`.
pub open spec fn mv_eval(ts: Seq<Term>, a: Seq<Fe>) -> int
    decreases ts.len(),
{
    if ts.len() == 0 {
        0int
    } else {
        fadd(term_eval(ts[0], a), mv_eval(ts.subrange(1, ts.len() as int), a))
    }
}

/// A term with canonical coefficient and one exponent per variable.
pub open spec fn term_wf(t: Term, vars: nat) -> bool {
    t.coeff.wf() && t.exps@.len() == vars
}

/// An assignment giving every variable a canonical value.
pub open spec fn assignment_wf(a: Seq<Fe>, vars: nat) -> bool {
    a.len() >= vars && poly_wf(a)
}

/// Every exponent of every term is at most `b`.
pub open spec fn exps_le(ts: Seq<Term>, b: int) -> bool {
    forall|i: int, k: int|
        #![trigger ts[i].exps@[k]]
        0 <= i < ts.len() && 0 <= k < ts[i].exps@.len() ==> ts[i].exps@[k] <= b
}

/// An exponent bound carries over a concatenation.
pub proof fn lemma_exps_le_concat(t1: Seq<Term>, t2: Seq<Term>, b: int)
    requires
        exps_le(t1, b),
        exps_le(t2, b),
    ensures
        exps_le(t1 + t2, b),
{
    assert forall|i: int, k: int|
        0 <= i < (t1 + t2).len() && 0 <= k < (t1 + t2)[i].exps@.len() implies #[trigger] (t1
        + t2)[i].exps@[k] <= b by {
        if i < t1.len() {
            assert((t1 + t2)[i] == t1[i]);
        } else {
            assert((t1 + t2)[i] == t2[i - t1.len()]);
        }
    }
}

/// An exponent bound carries over to a term list with the same exponent rows.
pub proof fn lemma_exps_le_pointwise(t1: Seq<Term>, t2: Seq<Term>, b: int)
    requires
        exps_le(t1, b),
        t2.len() == t1.len(),
        forall|i: int| 0 <= i < t2.len() ==> (#[trigger] t2[i]).exps@ == t1[i].exps@,
    ensures
        exps_le(t2, b),
{
}

/// An exponent bound may be relaxed.
pub proof fn lemma_exps_le_mono(ts: Seq<Term>, b1: int, b2: int)
    requires
        exps_le(ts, b1),
        b1 <= b2,
    ensures
        exps_le(ts, b2),
{
}

/// A multivariate polynomial over a fixed number of formal variables.
pub struct Multivariate {
    pub vars: usize,
    pub terms: Vec<Term>,
}

/// Evaluation results are canonical representatives.
pub proof fn lemma_mono_eval_bound(e: Seq<u64>, a: Seq<Fe>, k: int)
    ensures
        0 <= mono_eval(e, a, k) < P,
    decreases e.len() - k,
{
    if k < 0 || k >= e.len() || e.len() > a.len() {
    } else {
        lemma_mono_eval_bound(e, a, k + 1);
        vstd::arithmetic::div_mod::lemma_mod_bound(
            pow_mod(a[k].v as int, e[k] as nat) * mono_eval(e, a, k + 1),
            P as int,
        );
    }
}

/// The value of a sum of terms is a canonical representative.
pub proof fn lemma_mv_eval_bound(ts: Seq<Term>, a: Seq<Fe>)
    ensures
        0 <= mv_eval(ts, a) < P,
    decreases ts.len(),
{
    if ts.len() == 0 {
    } else {
        lemma_mv_eval_bound(ts.subrange(1, ts.len() as int), a);
        vstd::arithmetic::div_mod::lemma_mod_bound(
            term_eval(ts[0], a) + mv_eval(ts.subrange(1, ts.len() as int), a),
            P as int,
        );
    }
}

/// Appending a term adds its value.
pub proof fn lemma_mv_eval_push(ts: Seq<Term>, t: Term, a: Seq<Fe>)
    ensures
        mv_eval(ts.push(t), a) == fadd(mv_eval(ts, a), term_eval(t, a)),
    decreases ts.len(),
{
    if ts.len() == 0 {
        assert(ts.push(t)[0] == t);
        assert(ts.push(t).subrange(1, 1) =~= Seq::<Term>::empty());
        lemma_mv_eval_bound(ts.push(t), a);
        lemma_mv_eval_bound(Seq::<Term>::empty(), a);
        vstd::arithmetic::div_mod::lemma_mod_bound(term_eval(t, a) + 0, P as int);
    } else {
        let rest = ts.subrange(1, ts.len() as int);
        assert(ts.push(t).subrange(1, ts.push(t).len() as int) =~= rest.push(t));
        lemma_mv_eval_push(rest, t, a);
        // fadd(h, fadd(r, e)) == fadd(fadd(h, r), e)
        lemma_fadd_assoc(term_eval(ts[0], a), mv_eval(rest, a), term_eval(t, a));
        assert(ts.push(t)[0] == ts[0]);
    }
}

/// A monomial of all-zero exponents evaluates to one.
pub proof fn lemma_mono_eval_zeros(e: Seq<u64>, a: Seq<Fe>, k: int)
    requires
        forall|j: int| 0 <= j < e.len() ==> e[j] == 0,
    ensures
        mono_eval(e, a, k) == 1,
    decreases e.len() - k,
{
    if k < 0 || k >= e.len() || e.len() > a.len() {
    } else {
        lemma_mono_eval_zeros(e, a, k + 1);
        lemma_fmul_one(1);
    }
}

/// A monomial whose only non-zero exponent is a one at `i` evaluates to the
/// `i`-th variable.
pub proof fn lemma_mono_eval_unit(e: Seq<u64>, a: Seq<Fe>, k: int, i: int)
    requires
        forall|j: int| 0 <= j < e.len() ==> e[j] == (if j == i {
            1u64
        } else {
            0u64
        }),
        e.len() <= a.len(),
        0 <= i < e.len(),
        0 <= k,
        poly_wf(a),
    ensures
        k <= i ==> mono_eval(e, a, k) == a[i].v,
        k > i ==> mono_eval(e, a, k) == 1,
    decreases e.len() - k,
{
    if k < 0 || k >= e.len() {
    } else {
        lemma_mono_eval_unit(e, a, k + 1, i);
        if k == i {
            // pow_mod(x, 1) == x for canonical x.
            assert(pow_mod(a[i].v as int, 1nat) == (a[i].v as int * pow_mod(a[i].v as int, 0nat))
                % (P as int));
            lemma_fmul_one(a[i].v as int);
            vstd::arithmetic::div_mod::lemma_small_mod(a[i].v as nat, P as nat);
        } else {
            lemma_fmul_one(mono_eval(e, a, k + 1));
            lemma_mono_eval_bound(e, a, k + 1);
        }
    }
}

/// The monomial of the sum of two exponent rows is the product of their
/// monomials.
pub proof fn lemma_mono_eval_add(e1: Seq<u64>, e2: Seq<u64>, e: Seq<u64>, a: Seq<Fe>, k: int)
    requires
        e1.len() == e2.len() == e.len(),
        e.len() <= a.len(),
        forall|j: int| 0 <= j < e.len() ==> e[j] == e1[j] + e2[j],
    ensures
        mono_eval(e, a, k) == fmul(mono_eval(e1, a, k), mono_eval(e2, a, k)),
    decreases e.len() - k,
{
    if k < 0 || k >= e.len() {
        lemma_fmul_one(1);
    } else {
        lemma_mono_eval_add(e1, e2, e, a, k + 1);
        let x = a[k].v as int;
        let p1 = pow_mod(x, e1[k] as nat);
        let p2 = pow_mod(x, e2[k] as nat);
        let m1 = mono_eval(e1, a, k + 1);
        let m2 = mono_eval(e2, a, k + 1);
        lemma_pow_mod_add(x, e1[k] as nat, e2[k] as nat);
        assert(e[k] as nat == e1[k] as nat + e2[k] as nat);
        // fmul(fmul(p1,p2), fmul(m1,m2)) == fmul(fmul(p1,m1), fmul(p2,m2))
        lemma_fmul_assoc(fmul(p1, p2), m1, m2);
        lemma_fmul_assoc(p1, p2, m1);
        lemma_fmul_assoc(p1, m1, p2);
        assert(fmul(p2, m1) == fmul(m1, p2));
        lemma_fmul_assoc(fmul(p1, m1), p2, m2);
    }
}

impl Multivariate {
    /// Every term has one exponent per variable and a canonical coefficient.
    pub open spec fn wf(self) -> bool {
        forall|i: int| 0 <= i < self.terms@.len() ==> term_wf(#[trigger] self.terms@[i], self.vars as nat)
    }

    /// The polynomial's value at `a`.
    pub open spec fn value_at(self, a: Seq<Fe>) -> int {
        mv_eval(self.terms@, a)
    }

    /// The zero polynomial over `vars` variables.
    pub fn zero(vars: usize) -> (r: Multivariate)
        ensures
            r.wf(),
            r.vars == vars,
            forall|a: Seq<Fe>| #[trigger] r.value_at(a) == 0,
    {
        Multivariate { vars, terms: Vec::new() }
    }

    /// The constant polynomial `c` over `vars` variables.
    pub fn constant_over(c: Fe, vars: usize) -> (r: Multivariate)
        requires
            c.wf(),
        ensures
            r.wf(),
            r.vars == vars,
            exps_le(r.terms@, 0),
            forall|a: Seq<Fe>|
                assignment_wf(a, vars as nat) ==> #[trigger] r.value_at(a) == c.v,
    {
        let mut exps: Vec<u64> = Vec::new();
        let mut i: usize = 0;
        while i < vars
            invariant
                i <= vars,
                exps@.len() == i,
                forall|j: int| 0 <= j < i ==> exps@[j] == 0,
            decreases vars - i,
        {
            exps.push(0);
            i = i + 1;
        }
        let mut terms: Vec<Term> = Vec::new();
        terms.push(Term { coeff: c, exps });
        let r = Multivariate { vars, terms };
        proof {
            assert forall|a: Seq<Fe>| assignment_wf(a, vars as nat) implies #[trigger] r.value_at(
                a,
            ) == c.v by {
                lemma_mono_eval_zeros(r.terms@[0].exps@, a, 0);
                lemma_fmul_one(c.v as int);
                assert(r.terms@.subrange(1, 1) =~= Seq::<Term>::empty());
                assert(mv_eval(Seq::<Term>::empty(), a) == 0);
                vstd::arithmetic::div_mod::lemma_small_mod(c.v as nat, P as nat);
            }
        }
        r
    }

    /// The polynomial reading variable `i` among `vars` variables.
    pub fn variable(i: usize, vars: usize) -> (r: Multivariate)
        requires
            i < vars,
        ensures
            r.wf(),
            r.vars == vars,
            exps_le(r.terms@, 1),
            forall|a: Seq<Fe>|
                assignment_wf(a, vars as nat) ==> #[trigger] r.value_at(a) == a[i as int].v,
    {
        let mut exps: Vec<u64> = Vec::new();
        let mut k: usize = 0;
        while k < vars
            invariant
                k <= vars,
                i < vars,
                exps@.len() == k,
                forall|j: int| 0 <= j < k ==> exps@[j] == (if j == i { 1u64 } else { 0u64 }),
            decreases vars - k,
        {
            if k == i {
                exps.push(1);
            } else {
                exps.push(0);
            }
            k = k + 1;
        }
        let mut terms: Vec<Term> = Vec::new();
        terms.push(Term { coeff: Fe { v: 1 }, exps });
        let r = Multivariate { vars, terms };
        proof {
            assert forall|a: Seq<Fe>| assignment_wf(a, vars as nat) implies #[trigger] r.value_at(
                a,
            ) == a[i as int].v by {
                lemma_mono_eval_unit(r.terms@[0].exps@, a, 0, i as int);
                lemma_fmul_one(a[i as int].v as int);
                assert(r.terms@.subrange(1, 1) =~= Seq::<Term>::empty());
                assert(mv_eval(Seq::<Term>::empty(), a) == 0);
                vstd::arithmetic::div_mod::lemma_small_mod(a[i as int].v as nat, P as nat);
            }
        }
        r
    }

    /// The sum of two constraint polynomials over the same variables.
    pub fn add_mv(self, other: Multivariate) -> (r: Multivariate)
        requires
            self.wf(),
            other.wf(),
            self.vars == other.vars,
        ensures
            r.wf(),
            r.vars == self.vars,
            r.terms@ == self.terms@ + other.terms@,
            forall|b: int|
                #![trigger exps_le(self.terms@, b)]
                exps_le(self.terms@, b) && exps_le(other.terms@, b) ==> exps_le(r.terms@, b),
            forall|a: Seq<Fe>| #[trigger] r.value_at(a) == fadd(self.value_at(a), other.value_at(a)),
    {
        let ghost left = self.terms@;
        let ghost right = other.terms@;
        let mut terms = self.terms;
        let mut rest = other.terms;
        let ghost mut i: int = 0;
        proof {
            assert(left + right.subrange(0, 0) =~= left);
        }
        while rest.len() > 0
            invariant
                0 <= i <= right.len(),
                rest@ =~= right.subrange(i, right.len() as int),
                terms@ == left + right.subrange(0, i),
                forall|j: int| 0 <= j < terms@.len() ==> term_wf(#[trigger] terms@[j], self.vars as nat),
                forall|j: int| 0 <= j < right.len() ==> term_wf(#[trigger] right[j], self.vars as nat),
                forall|a: Seq<Fe>|
                    #[trigger] mv_eval(terms@, a) == fadd(
                        mv_eval(left, a),
                        mv_eval(right.subrange(0, i), a),
                    ),
            decreases right.len() - i,
        {
            let t = rest.remove(0);
            proof {
                assert(right.subrange(i, right.len() as int)[0] == right[i]);
                assert(rest@ =~= right.subrange(i + 1, right.len() as int));
            }
            let ghost before = terms@;
            terms.push(t);
            proof {
                assert(right.subrange(0, i + 1) =~= right.subrange(0, i).push(right[i]));
                assert(terms@ =~= left + right.subrange(0, i + 1));
                assert forall|a: Seq<Fe>| #[trigger] mv_eval(terms@, a) == fadd(
                    mv_eval(left, a),
                    mv_eval(right.subrange(0, i + 1), a),
                ) by {
                    lemma_mv_eval_push(before, right[i], a);
                    assert(right.subrange(0, i + 1) =~= right.subrange(0, i).push(right[i]));
                    lemma_mv_eval_push(right.subrange(0, i), right[i], a);
                    lemma_fadd_assoc(
                        mv_eval(left, a),
                        mv_eval(right.subrange(0, i), a),
                        term_eval(right[i], a),
                    );
                }
                i = i + 1;
            }
        }
        proof {
            assert(right.subrange(0, right.len() as int) =~= right);
            assert(terms@ =~= left + right);
            assert forall|b: int| exps_le(left, b) && exps_le(right, b) implies #[trigger] exps_le(
                terms@,
                b,
            ) by {
                lemma_exps_le_concat(left, right, b);
            }
        }
        Multivariate { vars: self.vars, terms }
    }

    /// Every coefficient scaled by `c`.
    pub fn scale_mv(self, c: Fe) -> (r: Multivariate)
        requires
            self.wf(),
            c.wf(),
        ensures
            r.wf(),
            r.vars == self.vars,
            r.terms@.len() == self.terms@.len(),
            forall|i: int|
                0 <= i < r.terms@.len() ==> (#[trigger] r.terms@[i]).exps@ == self.terms@[i].exps@,
            forall|a: Seq<Fe>| #[trigger] r.value_at(a) == fmul(c.v as int, self.value_at(a)),
    {
        let ghost src = self.terms@;
        let mut rest = self.terms;
        let mut terms: Vec<Term> = Vec::new();
        let ghost mut i: int = 0;
        while rest.len() > 0
            invariant
                0 <= i <= src.len(),
                c.wf(),
                rest@ =~= src.subrange(i, src.len() as int),
                forall|j: int| 0 <= j < src.len() ==> term_wf(#[trigger] src[j], self.vars as nat),
                forall|j: int| 0 <= j < terms@.len() ==> term_wf(#[trigger] terms@[j], self.vars as nat),
                terms@.len() == i,
                forall|j: int| 0 <= j < i ==> (#[trigger] terms@[j]).exps@ == src[j].exps@,
                forall|a: Seq<Fe>|
                    #[trigger] mv_eval(terms@, a) == fmul(
                        c.v as int,
                        mv_eval(src.subrange(0, i), a),
                    ),
            decreases src.len() - i,
        {
            let t = rest.remove(0);
            proof {
                assert(src.subrange(i, src.len() as int)[0] == src[i]);
                assert(rest@ =~= src.subrange(i + 1, src.len() as int));
            }
            let coeff = c.mul(t.coeff);
            let ghost before = terms@;
            let ghost old_t = src[i];
            let nt = Term { coeff, exps: t.exps };
            proof {
                assert(nt.exps@ == old_t.exps@);
            }
            terms.push(nt);
            proof {
                assert forall|a: Seq<Fe>| #[trigger] mv_eval(terms@, a) == fmul(
                    c.v as int,
                    mv_eval(src.subrange(0, i + 1), a),
                ) by {
                    lemma_mv_eval_push(before, nt, a);
                    assert(src.subrange(0, i + 1) =~= src.subrange(0, i).push(old_t));
                    lemma_mv_eval_push(src.subrange(0, i), old_t, a);
                    // term_eval(nt) == fmul(c, term_eval(old_t))
                    lemma_fmul_assoc(c.v as int, old_t.coeff.v as int, mono_eval(nt.exps@, a, 0));
                    // distribute c over the sum
                    lemma_fmul_dist_left(
                        c.v as int,
                        mv_eval(src.subrange(0, i), a),
                        term_eval(old_t, a),
                    );
                }
                i = i + 1;
            }
        }
        proof {
            assert(src.subrange(0, src.len() as int) =~= src);
        }
        Multivariate { vars: self.vars, terms }
    }

    /// The difference of two constraint polynomials: the subtrahend scaled by
    /// `P - 1` and added.
    pub fn sub_mv(self, other: Multivariate) -> (r: Multivariate)
        requires
            self.wf(),
            other.wf(),
            self.vars == other.vars,
        ensures
            r.wf(),
            r.vars == self.vars,
            r.terms@.len() == self.terms@.len() + other.terms@.len(),
            forall|i: int|
                0 <= i < self.terms@.len() ==> (#[trigger] r.terms@[i]).exps@
                    == self.terms@[i].exps@,
            forall|i: int|
                self.terms@.len() <= i < r.terms@.len() ==> (#[trigger] r.terms@[i]).exps@
                    == other.terms@[i - self.terms@.len()].exps@,
            forall|b: int|
                #![trigger exps_le(self.terms@, b)]
                exps_le(self.terms@, b) && exps_le(other.terms@, b) ==> exps_le(r.terms@, b),
            forall|a: Seq<Fe>| #[trigger] r.value_at(a) == fsub(self.value_at(a), other.value_at(a)),
    {
        let ghost lhs = self;
        let ghost rhs = other;
        let neg = other.scale_mv(Fe { v: P - 1 });
        let r = self.add_mv(neg);
        proof {
            assert forall|b: int| exps_le(lhs.terms@, b) && exps_le(rhs.terms@, b) implies
                #[trigger] exps_le(r.terms@, b) by {
                lemma_exps_le_pointwise(rhs.terms@, neg.terms@, b);
            }
            assert forall|a: Seq<Fe>| #[trigger] r.value_at(a) == fsub(
                lhs.value_at(a),
                rhs.value_at(a),
            ) by {
                lemma_mv_eval_bound(lhs.terms@, a);
                lemma_mv_eval_bound(rhs.terms@, a);
                lemma_fsub_via_scale(lhs.value_at(a), rhs.value_at(a));
            }
        }
        r
    }

    /// The product of two constraint polynomials over the same variables:
    /// every pair of terms multiplied, coefficients in the field, exponents
    /// added per variable.
    pub fn mul_mv(self, other: &Multivariate) -> (r: Multivariate)
        requires
            self.wf(),
            other.wf(),
            self.vars == other.vars,
            exps_le(self.terms@, 0x100000000),
            exps_le(other.terms@, 0x100000000),
        ensures
            r.wf(),
            r.vars == self.vars,
            forall|b1: int, b2: int|
                #![trigger exps_le(self.terms@, b1), exps_le(other.terms@, b2)]
                exps_le(self.terms@, b1) && exps_le(other.terms@, b2) ==> exps_le(
                    r.terms@,
                    b1 + b2,
                ),
            forall|a: Seq<Fe>|
                assignment_wf(a, self.vars as nat) ==> #[trigger] r.value_at(a) == fmul(
                    self.value_at(a),
                    other.value_at(a),
                ),
    {
        let ghost lt = self.terms@;
        let ghost rt = other.terms@;
        let vars = self.vars;
        let mut terms: Vec<Term> = Vec::new();
        let mut i: usize = 0;
        while i < self.terms.len()
            invariant
                i <= lt.len(),
                vars == self.vars,
                vars == other.vars,
                self.terms@ == lt,
                other.terms@ == rt,
                self.wf(),
                other.wf(),
                exps_le(lt, 0x100000000),
                exps_le(rt, 0x100000000),
                forall|j: int| 0 <= j < terms@.len() ==> term_wf(#[trigger] terms@[j], vars as nat),
                forall|b1: int, b2: int|
                    #![trigger exps_le(lt, b1), exps_le(rt, b2)]
                    exps_le(lt, b1) && exps_le(rt, b2) ==> exps_le(terms@, b1 + b2),
                forall|a: Seq<Fe>|
                    assignment_wf(a, vars as nat) ==> #[trigger] mv_eval(terms@, a) == fmul(
                        mv_eval(lt.subrange(0, i as int), a),
                        mv_eval(rt, a),
                    ),
            decreases lt.len() - i,
        {
            proof {
                assert forall|a: Seq<Fe>| assignment_wf(a, vars as nat) implies
                    #[trigger] mv_eval(terms@, a) == fadd(
                    fmul(mv_eval(lt.subrange(0, i as int), a), mv_eval(rt, a)),
                    fmul(term_eval(lt[i as int], a), mv_eval(rt.subrange(0, 0), a)),
                ) by {
                    assert(rt.subrange(0, 0) =~= Seq::<Term>::empty());
                    assert(fmul(term_eval(lt[i as int], a), 0) == 0) by {
                        vstd::arithmetic::div_mod::lemma_small_mod(0nat, P as nat);
                    }
                    let x = fmul(mv_eval(lt.subrange(0, i as int), a), mv_eval(rt, a));
                    assert(0 <= x < P) by {
                        vstd::arithmetic::div_mod::lemma_mod_bound(
                            mv_eval(lt.subrange(0, i as int), a) * mv_eval(rt, a),
                            P as int,
                        );
                    }
                    assert(fadd(x, 0) == x) by {
                        vstd::arithmetic::div_mod::lemma_small_mod(x as nat, P as nat);
                    }
                }
            }
            let mut j: usize = 0;
            while j < other.terms.len()
                invariant
                    i < lt.len(),
                    j <= rt.len(),
                    vars == self.vars,
                    vars == other.vars,
                    self.terms@ == lt,
                    other.terms@ == rt,
                    self.wf(),
                    other.wf(),
                    exps_le(lt, 0x100000000),
                    exps_le(rt, 0x100000000),
                    forall|j2: int| 0 <= j2 < terms@.len() ==> term_wf(#[trigger] terms@[j2], vars as nat),
                    forall|b1: int, b2: int|
                        #![trigger exps_le(lt, b1), exps_le(rt, b2)]
                        exps_le(lt, b1) && exps_le(rt, b2) ==> exps_le(terms@, b1 + b2),
                    forall|a: Seq<Fe>|
                        assignment_wf(a, vars as nat) ==> #[trigger] mv_eval(terms@, a) == fadd(
                            fmul(mv_eval(lt.subrange(0, i as int), a), mv_eval(rt, a)),
                            fmul(
                                term_eval(lt[i as int], a),
                                mv_eval(rt.subrange(0, j as int), a),
                            ),
                        ),
                decreases rt.len() - j,
            {
                proof {
                    assert(term_wf(self.terms@[i as int], vars as nat));
                    assert(term_wf(other.terms@[j as int], vars as nat));
                }
                let coeff = self.terms[i].coeff.mul(other.terms[j].coeff);
                let mut exps: Vec<u64> = Vec::new();
                let mut k: usize = 0;
                while k < vars
                    invariant
                        k <= vars,
                        i < lt.len(),
                        j < rt.len(),
                        vars == self.vars,
                        self.terms@ == lt,
                        other.terms@ == rt,
                        lt[i as int].exps@.len() == vars,
                        rt[j as int].exps@.len() == vars,
                        exps_le(lt, 0x100000000),
                        exps_le(rt, 0x100000000),
                        exps@.len() == k,
                        forall|k2: int|
                            0 <= k2 < k ==> exps@[k2] == lt[i as int].exps@[k2] + rt[j
                                as int].exps@[k2],
                    decreases vars - k,
                {
                    let ea = self.terms[i].exps[k];
                    let eb = other.terms[j].exps[k];
                    exps.push(ea + eb);
                    k = k + 1;
                }
                let nt = Term { coeff, exps };
                let ghost before = terms@;
                terms.push(nt);
                proof {
                    assert forall|b1: int, b2: int|
                        #![trigger exps_le(lt, b1), exps_le(rt, b2)]
                        exps_le(lt, b1) && exps_le(rt, b2) implies exps_le(terms@, b1 + b2) by {
                        assert(exps_le(before, b1 + b2));
                        assert forall|t: int, k2: int|
                            0 <= t < terms@.len() && 0 <= k2 < terms@[t].exps@.len() implies
                            #[trigger] terms@[t].exps@[k2] <= b1 + b2 by {
                            if t < before.len() {
                                assert(terms@[t] == before[t]);
                            } else {
                                assert(terms@[t] == nt);
                                assert(nt.exps@[k2] == lt[i as int].exps@[k2] + rt[j
                                    as int].exps@[k2]);
                            }
                        }
                    }
                    assert forall|a: Seq<Fe>| assignment_wf(a, vars as nat) implies
                        #[trigger] mv_eval(terms@, a) == fadd(
                        fmul(mv_eval(lt.subrange(0, i as int), a), mv_eval(rt, a)),
                        fmul(
                            term_eval(lt[i as int], a),
                            mv_eval(rt.subrange(0, j as int + 1), a),
                        ),
                    ) by {
                        lemma_mv_eval_push(before, nt, a);
                        lemma_mono_eval_add(
                            lt[i as int].exps@,
                            rt[j as int].exps@,
                            nt.exps@,
                            a,
                            0,
                        );
                        // term_eval(nt) == fmul(term_eval(lt[i]), term_eval(rt[j]))
                        let ca = lt[i as int].coeff.v as int;
                        let cb = rt[j as int].coeff.v as int;
                        let ma = mono_eval(lt[i as int].exps@, a, 0);
                        let mb = mono_eval(rt[j as int].exps@, a, 0);
                        lemma_fmul_assoc(fmul(ca, cb), ma, mb);
                        lemma_fmul_assoc(ca, cb, ma);
                        lemma_fmul_assoc(ca, ma, cb);
                        assert(fmul(cb, ma) == fmul(ma, cb));
                        lemma_fmul_assoc(fmul(ca, ma), cb, mb);
                        assert(term_eval(nt, a) == fmul(
                            term_eval(lt[i as int], a),
                            term_eval(rt[j as int], a),
                        ));
                        assert(rt.subrange(0, j as int + 1) =~= rt.subrange(0, j as int).push(
                            rt[j as int],
                        ));
                        lemma_mv_eval_push(rt.subrange(0, j as int), rt[j as int], a);
                        lemma_fmul_dist_left(
                            term_eval(lt[i as int], a),
                            mv_eval(rt.subrange(0, j as int), a),
                            term_eval(rt[j as int], a),
                        );
                        lemma_fadd_assoc(
                            fmul(mv_eval(lt.subrange(0, i as int), a), mv_eval(rt, a)),
                            fmul(term_eval(lt[i as int], a), mv_eval(rt.subrange(0, j as int), a)),
                            fmul(term_eval(lt[i as int], a), term_eval(rt[j as int], a)),
                        );
                    }
                }
                j = j + 1;
            }
            proof {
                assert(rt.subrange(0, rt.len() as int) =~= rt);
                assert forall|a: Seq<Fe>| assignment_wf(a, vars as nat) implies
                    #[trigger] mv_eval(terms@, a) == fmul(
                    mv_eval(lt.subrange(0, i as int + 1), a),
                    mv_eval(rt, a),
                ) by {
                    assert(lt.subrange(0, i as int + 1) =~= lt.subrange(0, i as int).push(
                        lt[i as int],
                    ));
                    lemma_mv_eval_push(lt.subrange(0, i as int), lt[i as int], a);
                    lemma_fmul_dist(
                        mv_eval(lt.subrange(0, i as int), a),
                        term_eval(lt[i as int], a),
                        mv_eval(rt, a),
                    );
                }
            }
            i = i + 1;
        }
        proof {
            assert(lt.subrange(0, lt.len() as int) =~= lt);
        }
        Multivariate { vars, terms }
    }

    /// Evaluates the constraint at a row assignment by Horner-free direct
    /// summation, matching [`mv_eval`] exactly.
    pub fn evaluate(&self, a: &Vec<Fe>) -> (r: Fe)
        requires
            self.wf(),
            assignment_wf(a@, self.vars as nat),
        ensures
            r.wf(),
            r.v as int == mv_eval(self.terms@, a@),
    {
        let n = self.terms.len();
        let mut acc = Fe::zero();
        let mut i = n;
        while i > 0
            invariant
                i <= n,
                n == self.terms@.len(),
                self.wf(),
                assignment_wf(a@, self.vars as nat),
                acc.wf(),
                acc.v as int == mv_eval(self.terms@.subrange(i as int, n as int), a@),
            decreases i,
        {
            i = i - 1;
            let ghost pre = self.terms@.subrange(i as int, n as int);
            let ghost post = self.terms@.subrange(i as int + 1, n as int);
            proof {
                assert(pre[0] == self.terms@[i as int]);
                assert(pre.subrange(1, pre.len() as int) =~= post);
            }
            let t = &self.terms[i];
            let m = self.eval_mono(t, a);
            let tv = t.coeff.mul(m);
            proof {
                lemma_mv_eval_bound(post, a@);
            }
            acc = tv.add(acc);
        }
        proof {
            assert(self.terms@.subrange(0, n as int) =~= self.terms@);
        }
        acc
    }

    /// The monomial part of one term at `a`.
    fn eval_mono(&self, t: &Term, a: &Vec<Fe>) -> (r: Fe)
        requires
            self.wf(),
            term_wf(*t, self.vars as nat),
            assignment_wf(a@, self.vars as nat),
        ensures
            r.wf(),
            r.v as int == mono_eval(t.exps@, a@, 0),
    {
        let n = t.exps.len();
        let mut acc = Fe::one();
        let mut k = n;
        proof {
            assert(mono_eval(t.exps@, a@, n as int) == 1);
        }
        while k > 0
            invariant
                k <= n,
                n == t.exps@.len(),
                n <= a@.len(),
                poly_wf(a@),
                acc.wf(),
                acc.v as int == mono_eval(t.exps@, a@, k as int),
            decreases k,
        {
            k = k - 1;
            let pw = a[k].pow(t.exps[k]);
            acc = pw.mul(acc);
        }
        acc
    }
}

/// Left distribution of the field product over the field sum.
pub proof fn lemma_fmul_dist_left(c: int, x: int, y: int)
    ensures
        fmul(c, fadd(x, y)) == fadd(fmul(c, x), fmul(c, y)),
{
    lemma_fmul_dist(x, y, c);
    assert(fmul(fadd(x, y), c) == fmul(c, fadd(x, y)));
    assert(fmul(x, c) == fmul(c, x));
    assert(fmul(y, c) == fmul(c, y));
}

} // verus!
