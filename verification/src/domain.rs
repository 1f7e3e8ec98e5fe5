//! Evaluation domains: multiplicative subgroups of power-of-two order and
//! their cosets.  The field's multiplicative group has order `3 * 2^30`, so a
//! generator of any power-of-two subgroup up to `2^30` is a power of the
//! field generator.

use vstd::prelude::*;
use crate::field::{fmul, pow_mod, Fe, GENERATOR, P};
use crate::poly::poly_wf;
use crate::utils::is_pow2;

verus! {

/// A generator of the multiplicative subgroup of order `n`: the field
/// generator raised to `(P - 1) / n`.
pub fn subgroup_generator(n: u64) -> (r: Fe)
    requires
        1 <= n <= 0x40000000,
        is_pow2(n as nat),
    ensures
        r.wf(),
        r.v as int == pow_mod(GENERATOR as int, (((P - 1) as u64 / n) as nat)),
{
    let g = Fe::new(GENERATOR);
    g.pow((P - 1) / n)
}

/// The points `offset * g^i` for `i` below `n`, in order: the trace domain
/// for `offset == 1`, a coset for any other offset.
pub fn domain_points(g: Fe, offset: Fe, n: usize) -> (r: Vec<Fe>)
    requires
        g.wf(),
        offset.wf(),
    ensures
        r@.len() == n,
        poly_wf(r@),
        forall|i: int|
            0 <= i < n ==> (#[trigger] r@[i]).v as int == fmul(
                offset.v as int,
                pow_mod(g.v as int, i as nat),
            ),
{
    let mut out: Vec<Fe> = Vec::new();
    let mut acc = offset;
    let mut i: usize = 0;
    proof {
        vstd::arithmetic::div_mod::lemma_small_mod(offset.v as nat, P as nat);
    }
    while i < n
        invariant
            i <= n,
            g.wf(),
            offset.wf(),
            acc.wf(),
            out@.len() == i,
            poly_wf(out@),
            acc.v as int == fmul(offset.v as int, pow_mod(g.v as int, i as nat)),
            forall|j: int|
                0 <= j < i ==> (#[trigger] out@[j]).v as int == fmul(
                    offset.v as int,
                    pow_mod(g.v as int, j as nat),
                ),
        decreases n - i,
    {
        out.push(acc);
        proof {
            // offset * g^i * g == offset * g^(i + 1)
            let go = g.v as int;
            let off = offset.v as int;
            let pi = pow_mod(go, i as nat);
            crate::field::lemma_fmul_assoc(off, pi, go);
            assert(pow_mod(go, (i + 1) as nat) == (go * pi) % (P as int));
            vstd::arithmetic::div_mod::lemma_mul_mod_noop_general(off, pi * go, P as int);
            assert(off * (pi * go) == off * (go * pi)) by (nonlinear_arith);
            vstd::arithmetic::div_mod::lemma_mul_mod_noop_general(off, go * pi, P as int);
        }
        acc = acc.mul(g);
        i = i + 1;
    }
    out
}

} // verus!
