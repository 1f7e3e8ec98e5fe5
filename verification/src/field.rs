//! Prime-field arithmetic over the STARK-friendly prime `P = 3 * 2^30 + 1`.
//!
//! Every element is kept in canonical form, a value strictly below `P`; the
//! multiplicative group has order `3 * 2^30`, so subgroups of any power-of-two
//! size up to `2^30` exist, which is what the trace and low-degree-extension
//! domains need.

use vstd::prelude::*;

verus! {

/// The field modulus, `3 * 2^30 + 1`, prime.
pub const P: u64 = 3221225473;

/// A generator of the full multiplicative group of the field.
pub const GENERATOR: u64 = 5;

/// Sum in the field, on canonical representatives.
pub open spec fn fadd(a: int, b: int) -> int {
    (a + b) % (P as int)
}

/// Difference in the field, on canonical representatives below `P`.
pub open spec fn fsub(a: int, b: int) -> int {
    (a + P - b) % (P as int)
}

/// Product in the field, on canonical representatives.
pub open spec fn fmul(a: int, b: int) -> int {
    (a * b) % (P as int)
}

/// `b^e` in the field, reduced after every multiplication.
pub open spec fn pow_mod(b: int, e: nat) -> int
    decreases e,
{
    if e == 0 {
        1int
    } else {
        (b * pow_mod(b, (e - 1) as nat)) % (P as int)
    }
}

/// A field element in canonical form: `v < P`.
#[derive(Clone, Copy, Debug, PartialEq, Eq, Structural)]
pub struct Fe {
    pub v: u64,
}

impl Fe {
    /// Canonical form: the representative is reduced.
    pub open spec fn wf(self) -> bool {
        self.v < P
    }

    /// The additive identity.
    pub fn zero() -> (r: Fe)
        ensures
            r.wf(),
            r.v == 0,
    {
        Fe { v: 0 }
    }

    /// The multiplicative identity.
    pub fn one() -> (r: Fe)
        ensures
            r.wf(),
            r.v == 1,
    {
        Fe { v: 1 }
    }

    /// The element with canonical representative `v % P`.
    pub fn new(v: u64) -> (r: Fe)
        ensures
            r.wf(),
            r.v == v % P,
    {
        Fe { v: v % P }
    }

    /// Whether this is the additive identity.
    pub fn is_zero(self) -> (r: bool)
        ensures
            r == (self.v == 0),
    {
        self.v == 0
    }

    /// Field addition.
    pub fn add(self, other: Fe) -> (r: Fe)
        requires
            self.wf(),
            other.wf(),
        ensures
            r.wf(),
            r.v == fadd(self.v as int, other.v as int),
    {
        Fe { v: (self.v + other.v) % P }
    }

    /// Field subtraction.
    pub fn sub(self, other: Fe) -> (r: Fe)
        requires
            self.wf(),
            other.wf(),
        ensures
            r.wf(),
            r.v == fsub(self.v as int, other.v as int),
    {
        Fe { v: (self.v + P - other.v) % P }
    }

    /// Field negation.
    pub fn neg(self) -> (r: Fe)
        requires
            self.wf(),
        ensures
            r.wf(),
            r.v == fsub(0, self.v as int),
    {
        Fe { v: (P - self.v) % P }
    }

    /// Field multiplication.
    pub fn mul(self, other: Fe) -> (r: Fe)
        requires
            self.wf(),
            other.wf(),
        ensures
            r.wf(),
            r.v == fmul(self.v as int, other.v as int),
    {
        proof {
            assert(self.v as int * other.v as int <= (P - 1) as int * (P - 1) as int)
                by (nonlinear_arith)
                requires
                    self.v < P,
                    other.v < P,
            ;
        }
        Fe { v: (self.v * other.v) % P }
    }

    /// Field exponentiation by square and multiply.
    pub fn pow(self, e: u64) -> (r: Fe)
        requires
            self.wf(),
        ensures
            r.wf(),
            r.v == pow_mod(self.v as int, e as nat),
    {
        let mut base = self;
        let mut exp = e;
        let mut acc = Fe::one();
        proof {
            if e > 0 {
                vstd::arithmetic::div_mod::lemma_mod_bound(
                    self.v as int * pow_mod(self.v as int, (e - 1) as nat),
                    P as int,
                );
            }
            vstd::arithmetic::div_mod::lemma_small_mod(pow_mod(self.v as int, e as nat) as nat,
                P as nat);
        }
        while exp > 0
            invariant
                base.wf(),
                acc.wf(),
                fmul(acc.v as int, pow_mod(base.v as int, exp as nat)) == pow_mod(
                    self.v as int,
                    e as nat,
                ),
            decreases exp,
        {
            let half: u64 = exp / 2;
            if exp % 2 == 1 {
                proof {
                    lemma_pow_mod_step(acc.v as int, base.v as int, exp as nat);
                }
                acc = acc.mul(base);
                proof {
                    assert((exp - 1) as nat == 2 * (half as nat));
                    lemma_pow_mod_square(base.v as int, half as nat);
                }
            } else {
                proof {
                    assert(exp as nat == 2 * (half as nat));
                    lemma_pow_mod_square(base.v as int, half as nat);
                }
            }
            base = base.mul(base);
            exp = half;
        }
        proof {
            assert(pow_mod(base.v as int, 0) == 1);
            vstd::arithmetic::div_mod::lemma_small_mod(acc.v as nat, P as nat);
        }
        acc
    }

    /// The inverse candidate `self^(P-2)`; by Fermat's little theorem this is
    /// the multiplicative inverse of any non-zero element.  Callers that rely
    /// on the inverse property confirm it with [`Fe::checked_inv`].
    pub fn inv_candidate(self) -> (r: Fe)
        requires
            self.wf(),
        ensures
            r.wf(),
            r.v == pow_mod(self.v as int, (P - 2) as nat),
    {
        self.pow(P - 2)
    }

    /// The multiplicative inverse, confirmed by multiplying back: the
    /// candidate is `self^(P-2)`, and the result is `Some` exactly when the
    /// product with it is one, which by Fermat's little theorem is every
    /// non-zero element.
    pub fn checked_inv(self) -> (r: Option<Fe>)
        requires
            self.wf(),
        ensures
            r is Some <==> fmul(self.v as int, pow_mod(self.v as int, (P - 2) as nat)) == 1,
            r is Some ==> r.unwrap().wf() && r.unwrap().v as int == pow_mod(
                self.v as int,
                (P - 2) as nat,
            ) && fmul(self.v as int, r.unwrap().v as int) == 1,
    {
        let candidate = self.inv_candidate();
        if self.mul(candidate).v == 1 {
            Some(candidate)
        } else {
            None
        }
    }
}


/// Cancellation by an inverse witness: if `a` has an inverse and `a * b` is
/// zero in the field, then `b` is zero.  (The unconditional zero-product
/// property of the field is equivalent to the primality of `P`, which this
/// development does not carry as a proved fact; an inverse witness, as
/// [`Fe::checked_inv`] produces at run time, replaces it.)
pub proof fn lemma_zero_product_with_inverse(a: int, b: int, ia: int)
    requires
        0 <= b < P,
        fmul(a, ia) == 1,
        fmul(a, b) == 0,
    ensures
        b == 0,
{
    let p = P as int;
    // b == (ia * a) * b == ia * (a * b) == ia * 0 == 0, all mod P.
    lemma_fmul_assoc(ia, a, b);
    assert(fmul(ia, a) == fmul(a, ia));
    lemma_fmul_one(b);
    vstd::arithmetic::div_mod::lemma_small_mod(0nat, P as nat);
}

/// Field addition on canonical representatives, written out by cases.
pub proof fn lemma_fadd_cases(a: int, b: int)
    requires
        0 <= a < P,
        0 <= b < P,
    ensures
        fadd(a, b) == if a + b < P {
            a + b
        } else {
            a + b - P
        },
{
    let p = P as int;
    if a + b < p {
        vstd::arithmetic::div_mod::lemma_small_mod((a + b) as nat, P as nat);
    } else {
        vstd::arithmetic::div_mod::lemma_mod_multiples_vanish(1, a + b - p, p);
        vstd::arithmetic::div_mod::lemma_small_mod((a + b - p) as nat, P as nat);
    }
}

/// Field subtraction on canonical representatives, written out by cases.
pub proof fn lemma_fsub_cases(a: int, b: int)
    requires
        0 <= a < P,
        0 <= b < P,
    ensures
        fsub(a, b) == if a >= b {
            a - b
        } else {
            a - b + P
        },
{
    let p = P as int;
    if a >= b {
        vstd::arithmetic::div_mod::lemma_mod_multiples_vanish(1, a - b, p);
        vstd::arithmetic::div_mod::lemma_small_mod((a - b) as nat, P as nat);
    } else {
        vstd::arithmetic::div_mod::lemma_small_mod((a + p - b) as nat, P as nat);
    }
}

/// A power is always a canonical representative.
pub proof fn lemma_pow_mod_bound(b: int, e: nat)
    ensures
        0 <= pow_mod(b, e) < P,
{
    if e == 0 {
    } else {
        vstd::arithmetic::div_mod::lemma_mod_bound(b * pow_mod(b, (e - 1) as nat), P as int);
    }
}

/// Exponent addition: `b^(m+n) == b^m * b^n` in the field.
pub proof fn lemma_pow_mod_add(b: int, m: nat, n: nat)
    ensures
        pow_mod(b, m + n) == fmul(pow_mod(b, m), pow_mod(b, n)),
    decreases m,
{
    let p = P as int;
    if m == 0 {
        lemma_pow_mod_bound(b, n);
        vstd::arithmetic::div_mod::lemma_small_mod(pow_mod(b, n) as nat, P as nat);
    } else {
        lemma_pow_mod_add(b, (m - 1) as nat, n);
        let pm1 = pow_mod(b, (m - 1) as nat);
        let pn = pow_mod(b, n);
        assert(pow_mod(b, m + n) == (b * ((pm1 * pn) % p)) % p);
        vstd::arithmetic::div_mod::lemma_mul_mod_noop_general(b, pm1 * pn, p);
        assert(b * (pm1 * pn) == (b * pm1) * pn) by (nonlinear_arith);
        vstd::arithmetic::div_mod::lemma_mul_mod_noop_general(b * pm1, pn, p);
    }
}

/// Right distribution of the field product over the field sum.
pub proof fn lemma_fmul_dist(x: int, y: int, z: int)
    ensures
        fmul(fadd(x, y), z) == fadd(fmul(x, z), fmul(y, z)),
{
    let p = P as int;
    vstd::arithmetic::div_mod::lemma_mul_mod_noop_general(x + y, z, p);
    assert((x + y) * z == x * z + y * z) by (nonlinear_arith);
    vstd::arithmetic::div_mod::lemma_add_mod_noop(x * z, y * z, p);
}

/// Associativity of the field product.
pub proof fn lemma_fmul_assoc(x: int, y: int, z: int)
    ensures
        fmul(fmul(x, y), z) == fmul(x, fmul(y, z)),
{
    let p = P as int;
    vstd::arithmetic::div_mod::lemma_mul_mod_noop_general(x * y, z, p);
    vstd::arithmetic::div_mod::lemma_mul_mod_noop_general(x, y * z, p);
    assert((x * y) * z == x * (y * z)) by (nonlinear_arith);
}

/// Associativity of the field sum.
pub proof fn lemma_fadd_assoc(x: int, y: int, z: int)
    ensures
        fadd(fadd(x, y), z) == fadd(x, fadd(y, z)),
{
    let p = P as int;
    vstd::arithmetic::div_mod::lemma_add_mod_noop_right(z, x + y, p);
    vstd::arithmetic::div_mod::lemma_add_mod_noop_right(x, y + z, p);
}

/// The field product with the multiplicative identity.
pub proof fn lemma_fmul_one(x: int)
    requires
        0 <= x < P,
    ensures
        fmul(1, x) == x,
        fmul(x, 1) == x,
{
    vstd::arithmetic::div_mod::lemma_small_mod(x as nat, P as nat);
}

/// Subtraction is addition of the product with `P - 1`: the scaling that the
/// symbolic constraint algebra uses for negation.
pub proof fn lemma_fsub_via_scale(x: int, y: int)
    requires
        0 <= x < P,
        0 <= y < P,
    ensures
        fadd(x, fmul((P - 1) as int, y)) == fsub(x, y),
{
    let p = P as int;
    if y == 0 {
        vstd::arithmetic::div_mod::lemma_small_mod(0nat, P as nat);
        vstd::arithmetic::div_mod::lemma_mod_multiples_vanish(1, x, p);
        vstd::arithmetic::div_mod::lemma_small_mod(x as nat, P as nat);
    } else {
        assert((p - 1) * y == p * (y - 1) + (p - y)) by (nonlinear_arith);
        vstd::arithmetic::div_mod::lemma_mod_multiples_vanish(y - 1, p - y, p);
        vstd::arithmetic::div_mod::lemma_small_mod((p - y) as nat, P as nat);
    }
}

/// One square-and-multiply step for an odd exponent: multiplying the
/// accumulator by the base absorbs one factor of the power.
proof fn lemma_pow_mod_step(acc: int, b: int, e: nat)
    requires
        e > 0,
    ensures
        fmul(fmul(acc, b), pow_mod(b, (e - 1) as nat)) == fmul(acc, pow_mod(b, e)),
{
    let p = P as int;
    let rest = pow_mod(b, (e - 1) as nat);
    assert(pow_mod(b, e) == (b * rest) % p);
    vstd::arithmetic::div_mod::lemma_mul_mod_noop_general(acc * b, rest, p);
    vstd::arithmetic::div_mod::lemma_mul_mod_noop_general(acc, b * rest, p);
    assert(acc * b * rest == acc * (b * rest)) by (nonlinear_arith);
}

/// Squaring the base halves the exponent: `b^(2k) == (b*b mod P)^k`.
proof fn lemma_pow_mod_square(b: int, k: nat)
    ensures
        pow_mod(b, 2 * k) == pow_mod(fmul(b, b), k),
        pow_mod(b, 2 * k + 1) == (b * pow_mod(fmul(b, b), k)) % (P as int),
    decreases k,
{
    let p = P as int;
    if k == 0 {
        assert(pow_mod(b, 0) == 1);
        assert(pow_mod(fmul(b, b), 0) == 1);
        vstd::arithmetic::div_mod::lemma_mul_mod_noop_general(b, 1, p);
    } else {
        lemma_pow_mod_square(b, (k - 1) as nat);
        let rest = pow_mod(fmul(b, b), (k - 1) as nat);
        // 2k = ((2k - 1) + 1) and 2k - 1 = 2(k - 1) + 1.
        assert(2 * k - 1 == 2 * ((k - 1) as nat) + 1);
        assert(pow_mod(b, (2 * k - 1) as nat) == (b * rest) % p);
        assert(pow_mod(b, 2 * k) == (b * ((b * rest) % p)) % p);
        vstd::arithmetic::div_mod::lemma_mul_mod_noop_general(b, b * rest, p);
        assert(b * (b * rest) == (b * b) * rest) by (nonlinear_arith);
        vstd::arithmetic::div_mod::lemma_mul_mod_noop_general(b * b, rest, p);
        assert(((b * b) % p * rest) % p == pow_mod(fmul(b, b), k));
        // Odd half: 2k + 1.
        assert(pow_mod(b, 2 * k + 1) == (b * pow_mod(b, 2 * k)) % p);
        vstd::arithmetic::div_mod::lemma_mul_mod_noop_general(b, pow_mod(fmul(b, b), k), p);
    }
}

} // verus!
