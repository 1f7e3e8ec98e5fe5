//! The FRI low-degree test, prover side: starting from a polynomial and its
//! evaluation domain, each round commits the current evaluations in a Merkle
//! tree, absorbs the root, draws a folding challenge, and folds the
//! coefficients pairwise, halving the degree bound; the last short
//! polynomial is kept in coefficient form.  The query phase opens the
//! committed evaluations at derived positions with Merkle paths.

use vstd::prelude::*;
use crate::field::{fadd, fmul, Fe, P};
use crate::merkle::{level_index, sha256, sha256_of, sibling_of, MerkleTree};
use crate::poly::{coeff_at, eval_on_domain, poly_eval, poly_wf, Poly};
use crate::transcript::Transcript;
use crate::utils::{fes_bytes, fes_to_bytes, is_pow2};

verus! {

/// Folding stops when this many coefficients remain; the last polynomial is
/// sent in the clear.
pub const FRI_FINAL_LEN: usize = 4;

/// One committed FRI layer: the layer's polynomial, its evaluation domain,
/// the evaluations, and the tree over their digests.
pub struct FriLayer {
    pub coeffs: Poly,
    pub points: Vec<Fe>,
    pub evals: Vec<Fe>,
    pub tree: MerkleTree,
}

/// One coefficient of the fold: even coefficient plus challenge times odd.
pub open spec fn fold_value(c: Seq<Fe>, beta: Fe, i: int) -> int {
    fadd(coeff_at(c, 2 * i), fmul(beta.v as int, coeff_at(c, 2 * i + 1)))
}

/// Pairwise fold of a coefficient vector with challenge `beta`: the
/// degree-halving step of FRI.  The result's length is half the input's,
/// rounded up.
pub fn fold_coeffs(c: &Vec<Fe>, beta: Fe) -> (r: Vec<Fe>)
    requires
        poly_wf(c@),
        beta.wf(),
        c@.len() < usize::MAX,
    ensures
        r@.len() == (c@.len() + 1) / 2,
        poly_wf(r@),
        forall|i: int| 0 <= i < r@.len() ==> (#[trigger] r@[i]).v as int == fold_value(c@, beta, i),
{
    let n = c.len();
    let half = (n + 1) / 2;
    let mut out: Vec<Fe> = Vec::new();
    let mut i: usize = 0;
    while i < half
        invariant
            i <= half,
            half == (n + 1) / 2,
            n == c@.len(),
            n < usize::MAX,
            poly_wf(c@),
            beta.wf(),
            out@.len() == i,
            poly_wf(out@),
            forall|j: int|
                0 <= j < i ==> (#[trigger] out@[j]).v as int == fold_value(c@, beta, j),
        decreases half - i,
    {
        let even = c[2 * i];
        let odd = if 2 * i + 1 < n {
            c[2 * i + 1]
        } else {
            Fe::zero()
        };
        out.push(even.add(beta.mul(odd)));
        i = i + 1;
    }
    out
}

/// The leaf digests of an evaluation vector: each element serialized alone
/// and hashed.
pub fn hash_evals(evals: &Vec<Fe>) -> (r: Vec<Vec<u8>>)
    requires
        poly_wf(evals@),
    ensures
        r@.len() == evals@.len(),
        forall|i: int|
            0 <= i < r@.len() ==> (#[trigger] r@[i])@ == sha256_of(fes_bytes(seq![evals@[i]])),
{
    let mut out: Vec<Vec<u8>> = Vec::new();
    let mut i: usize = 0;
    while i < evals.len()
        invariant
            i <= evals@.len(),
            poly_wf(evals@),
            out@.len() == i,
            forall|j: int|
                0 <= j < i ==> (#[trigger] out@[j])@ == sha256_of(fes_bytes(seq![evals@[j]])),
        decreases evals@.len() - i,
    {
        let mut one: Vec<Fe> = Vec::new();
        one.push(evals[i]);
        proof {
            assert(one@ =~= seq![evals@[i as int]]);
        }
        let bytes = fes_to_bytes(&one);
        out.push(sha256(&bytes));
        i = i + 1;
    }
    out
}

/// A well-formed committed layer: a power-of-two number of evaluations,
/// committed leaf by leaf under the tree.
#[verifier::opaque]
pub open spec fn fri_layer_wf(layer: FriLayer) -> bool {
    &&& layer.evals@.len() >= 2
    &&& is_pow2(layer.evals@.len() as nat)
    &&& poly_wf(layer.evals@)
    &&& layer.tree.wf()
    &&& layer.tree.spec_num_leaves() == layer.evals@.len()
    &&& forall|i: int|
        0 <= i < layer.evals@.len() ==> (#[trigger] layer.tree.levels@[0]@[i])@ == sha256_of(
            fes_bytes(seq![layer.evals@[i]]),
        )
}

/// The root digest committed by a layer's tree.
pub open spec fn layer_root(layer: FriLayer) -> Seq<u8> {
    layer.tree.levels@[layer.tree.levels@.len() - 1]@[0]@
}

/// The transcript state after absorbing the roots of the first `k` layers,
/// in order, into the state the commit phase started from.
pub open spec fn fri_state_after(seed: Seq<u8>, layers: Seq<FriLayer>, k: int) -> Seq<u8>
    decreases k,
{
    if k <= 0 {
        seed
    } else {
        sha256_of(fri_state_after(seed, layers, k - 1) + layer_root(layers[k - 1]))
    }
}

/// The folding challenge drawn right after the `k`-th root was absorbed.
pub open spec fn beta_of(seed: Seq<u8>, layers: Seq<FriLayer>, k: int) -> Fe {
    Fe { v: crate::transcript::felt_draw(fri_state_after(seed, layers, k), 0) as u64 }
}

/// The pairwise fold of a coefficient sequence, as a sequence.
#[verifier::opaque]
pub open spec fn fold_of(c: Seq<Fe>, beta: Fe) -> Seq<Fe> {
    Seq::new((c.len() + 1) / 2, |i: int| Fe { v: fold_value(c, beta, i) as u64 })
}

/// The squares of the first half of a domain: the next layer's domain.
#[verifier::opaque]
pub open spec fn half_squares(pts: Seq<Fe>) -> Seq<Fe> {
    Seq::new(pts.len() / 2, |i: int| Fe { v: fmul(pts[i].v as int, pts[i].v as int) as u64 })
}

/// Appending a layer does not change the states reached before it.
proof fn lemma_fri_state_push(seed: Seq<u8>, layers: Seq<FriLayer>, layer: FriLayer, k: int)
    requires
        0 <= k <= layers.len(),
    ensures
        fri_state_after(seed, layers.push(layer), k) == fri_state_after(seed, layers, k),
    decreases k,
{
    if k > 0 {
        lemma_fri_state_push(seed, layers, layer, k - 1);
        assert(layers.push(layer)[k - 1] == layers[k - 1]);
    }
}


/// One commit-phase step preserves the whole chain: appending a layer whose
/// polynomial is the fold of the previous one keeps every recorded relation,
/// and the absorbed root extends the state chain by one link.
proof fn lemma_chain_step(
    seed: Seq<u8>,
    old_layers: Seq<FriLayer>,
    layers: Seq<FriLayer>,
    new_layer: FriLayer,
    new_coeffs: Seq<Fe>,
    new_points: Seq<Fe>,
    state_now: Seq<u8>,
)
    requires
        layers == old_layers.push(new_layer),
        forall|k: int|
            0 <= k < old_layers.len() ==> (#[trigger] old_layers[k]).evals@ == eval_on_domain(
                old_layers[k].coeffs.coeffs@,
                old_layers[k].points@,
            ),
        forall|k: int|
            0 <= k < old_layers.len() - 1 ==> (#[trigger] old_layers[k + 1]).coeffs.coeffs@
                == fold_of(
                old_layers[k].coeffs.coeffs@,
                beta_of(seed, old_layers, k + 1),
            ) && old_layers[k + 1].points@ == half_squares(old_layers[k].points@),
        old_layers.len() >= 1 ==> new_layer.coeffs.coeffs@ == fold_of(
            old_layers[old_layers.len() - 1].coeffs.coeffs@,
            beta_of(seed, old_layers, old_layers.len() as int),
        ) && new_layer.points@ == half_squares(old_layers[old_layers.len() - 1].points@),
        new_layer.evals@ == eval_on_domain(new_layer.coeffs.coeffs@, new_layer.points@),
        state_now == sha256_of(
            fri_state_after(seed, old_layers, old_layers.len() as int) + layer_root(new_layer),
        ),
        new_coeffs == fold_of(
            new_layer.coeffs.coeffs@,
            Fe { v: crate::transcript::felt_draw(state_now, 0) as u64 },
        ),
        new_points == half_squares(new_layer.points@),
    ensures
        state_now == fri_state_after(seed, layers, layers.len() as int),
        forall|k: int|
            0 <= k < layers.len() ==> (#[trigger] layers[k]).evals@ == eval_on_domain(
                layers[k].coeffs.coeffs@,
                layers[k].points@,
            ),
        forall|k: int|
            0 <= k < layers.len() - 1 ==> (#[trigger] layers[k + 1]).coeffs.coeffs@ == fold_of(
                layers[k].coeffs.coeffs@,
                beta_of(seed, layers, k + 1),
            ) && layers[k + 1].points@ == half_squares(layers[k].points@),
        new_coeffs == fold_of(
            layers[layers.len() - 1].coeffs.coeffs@,
            beta_of(seed, layers, layers.len() as int),
        ),
        new_points == half_squares(layers[layers.len() - 1].points@),
        layers.len() == old_layers.len() + 1,
        layers[0] == (if old_layers.len() == 0 {
            new_layer
        } else {
            old_layers[0]
        }),
{
    let ln = layers.len() as int;
    assert forall|k: int| 0 <= k <= old_layers.len() implies fri_state_after(seed, layers, k)
        == fri_state_after(seed, old_layers, k) by {
        lemma_fri_state_push(seed, old_layers, new_layer, k);
    }
    assert(layers[ln - 1] == new_layer);
    assert(fri_state_after(seed, layers, ln) == sha256_of(
        fri_state_after(seed, layers, ln - 1) + layer_root(layers[ln - 1]),
    ));
    assert forall|k: int| 0 <= k < layers.len() implies (#[trigger] layers[k]).evals@
        == eval_on_domain(layers[k].coeffs.coeffs@, layers[k].points@) by {
        if k < old_layers.len() {
            assert(layers[k] == old_layers[k]);
        }
    }
    assert forall|k: int| 0 <= k < layers.len() - 1 implies (#[trigger] layers[k
        + 1]).coeffs.coeffs@ == fold_of(
        layers[k].coeffs.coeffs@,
        beta_of(seed, layers, k + 1),
    ) && layers[k + 1].points@ == half_squares(layers[k].points@) by {
        assert(layers[k] == old_layers[k]);
        if k + 1 < old_layers.len() {
            assert(layers[k + 1] == old_layers[k + 1]);
        } else {
            assert(k + 1 == old_layers.len());
            assert(layers[k + 1] == new_layer);
        }
    }
}


/// Commits one layer's evaluations: leaf digests, the tree, and its root.
fn commit_layer(evals: &Vec<Fe>) -> (r: (MerkleTree, Vec<u8>))
    requires
        poly_wf(evals@),
        evals@.len() >= 1,
        is_pow2(evals@.len() as nat),
    ensures
        r.0.wf(),
        r.0.spec_num_leaves() == evals@.len(),
        forall|i: int|
            0 <= i < evals@.len() ==> (#[trigger] r.0.levels@[0]@[i])@ == sha256_of(
                fes_bytes(seq![evals@[i]]),
            ),
        r.1@ == r.0.levels@[r.0.levels@.len() - 1]@[0]@,
{
    let leaves = hash_evals(evals);
    let tree = MerkleTree::new(leaves);
    let root = tree.root();
    (tree, root)
}




/// Pointwise evaluations collapse to the domain-evaluation sequence.
proof fn lemma_into_eval_on_domain(evals: Seq<Fe>, c: Seq<Fe>, pts: Seq<Fe>)
    requires
        evals.len() == pts.len(),
        forall|i: int|
            0 <= i < evals.len() ==> (#[trigger] evals[i]).v as int == poly_eval(
                c,
                pts[i].v as int,
            ),
    ensures
        evals == eval_on_domain(c, pts),
{
    reveal(eval_on_domain);
    assert forall|i: int| 0 <= i < pts.len() implies #[trigger] eval_on_domain(c, pts)[i]
        == evals[i] by {
        crate::poly::lemma_poly_eval_bound(c, pts[i].v as int);
    }
    assert(eval_on_domain(c, pts) =~= evals);
}

/// Pointwise fold values collapse to the fold sequence.
proof fn lemma_into_fold_of(folded: Seq<Fe>, c: Seq<Fe>, beta: Fe)
    requires
        folded.len() == (c.len() + 1) / 2,
        forall|i: int|
            0 <= i < folded.len() ==> (#[trigger] folded[i]).v as int == fold_value(c, beta, i),
    ensures
        folded == fold_of(c, beta),
{
    reveal(fold_of);
    assert forall|i: int| 0 <= i < folded.len() implies #[trigger] fold_of(c, beta)[i]
        == folded[i] by {
        vstd::arithmetic::div_mod::lemma_mod_bound(
            coeff_at(c, 2 * i) + fmul(beta.v as int, coeff_at(c, 2 * i + 1)),
            P as int,
        );
    }
    assert(fold_of(c, beta) =~= folded);
}

/// Pointwise squares collapse to the halved-domain sequence.
proof fn lemma_into_half_squares(next: Seq<Fe>, pts: Seq<Fe>)
    requires
        next.len() == pts.len() / 2,
        forall|j: int|
            0 <= j < next.len() ==> (#[trigger] next[j]).v as int == fmul(
                pts[j].v as int,
                pts[j].v as int,
            ),
    ensures
        next == half_squares(pts),
{
    reveal(half_squares);
    assert forall|j: int| 0 <= j < next.len() implies #[trigger] half_squares(pts)[j]
        == next[j] by {
        vstd::arithmetic::div_mod::lemma_mod_bound(pts[j].v as int * pts[j].v as int, P as int);
    }
    assert(half_squares(pts) =~= next);
}

/// Commits the evaluations of the current polynomial, absorbs the root,
/// draws the challenge, folds the coefficients and squares the half-domain;
/// everything it returns is pinned in the chain's own terms.
#[verifier::rlimit(100)]
fn commit_and_fold(transcript: &mut Transcript, coeffs: &Poly, points: &Vec<Fe>) -> (r: (
    FriLayer,
    Poly,
    Vec<Fe>,
))
    requires
        coeffs.wf(),
        poly_wf(points@),
        is_pow2(points@.len() as nat),
        points@.len() >= 2,
        points@.len() < usize::MAX,
        coeffs.coeffs@.len() <= points@.len(),
        coeffs.coeffs@.len() >= 2,
    ensures
        r.0.coeffs.coeffs@ == coeffs.coeffs@,
        r.0.points@ == points@,
        r.0.evals@ == eval_on_domain(coeffs.coeffs@, points@),
        r.0.evals@.len() == points@.len(),
        fri_layer_wf(r.0),
        final(transcript).state@ == sha256_of(old(transcript).state@ + layer_root(r.0)),
        r.1.coeffs@ == fold_of(
            coeffs.coeffs@,
            Fe {
                v: crate::transcript::felt_draw(
                    sha256_of(old(transcript).state@ + layer_root(r.0)),
                    0,
                ) as u64,
            },
        ),
        r.1.wf(),
        r.1.coeffs@.len() < coeffs.coeffs@.len(),
        r.2@ == half_squares(points@),
        r.2@.len() == points@.len() / 2,
        poly_wf(r.2@),
        is_pow2(r.2@.len() as nat),
        r.2@.len() >= 1,
        r.1.coeffs@.len() <= r.2@.len(),
{
    let layer_coeffs = Poly { coeffs: copy_fes(&coeffs.coeffs) };
    let layer_points = copy_fes(points);
    let evals = coeffs.evaluate_on(points);
    let committed = commit_layer(&evals);
    let tree = committed.0;
    let root = committed.1;
    transcript.absorb(&root);
    let beta = transcript.draw_felt();
    let folded = fold_coeffs(&coeffs.coeffs, beta);
    let ghost prev_len = coeffs.coeffs@.len();
    proof {
        assert((prev_len + 1) / 2 < prev_len);
    }
    // Halve the domain: the first half of the squares.
    let mut next_points: Vec<Fe> = Vec::new();
    let half = points.len() / 2;
    let mut i: usize = 0;
    proof {
        assert(points@.len() % 2 == 0);
    }
    while i < half
        invariant
            i <= half,
            half == points@.len() / 2,
            poly_wf(points@),
            next_points@.len() == i,
            poly_wf(next_points@),
            forall|j: int|
                0 <= j < i ==> (#[trigger] next_points@[j]).v as int == fmul(
                    points@[j].v as int,
                    points@[j].v as int,
                ),
        decreases half - i,
    {
        next_points.push(points[i].mul(points[i]));
        i = i + 1;
    }
    let layer = FriLayer { coeffs: layer_coeffs, points: layer_points, evals, tree };
    let out = Poly { coeffs: folded };
    proof {
        assert(fri_layer_wf(layer)) by {
            reveal(fri_layer_wf);
        }
        assert(layer_root(layer) == root@);
        lemma_into_eval_on_domain(layer.evals@, layer.coeffs.coeffs@, layer.points@);
        assert(beta == (Fe { v: crate::transcript::felt_draw(transcript.state@, 0) as u64 }));
        lemma_into_fold_of(out.coeffs@, coeffs.coeffs@, beta);
        lemma_into_half_squares(next_points@, points@);
        assert(is_pow2(next_points@.len() as nat));
    }
    (layer, out, next_points)
}

/// One round of the commit phase: commits the current evaluations, absorbs
/// the root, draws the challenge, folds the coefficients and squares the
/// half-domain, recording the layer; every relation of the chain is in the
/// contract.
#[verifier::rlimit(100)]
fn fri_round(
    transcript: &mut Transcript,
    layers: &mut Vec<FriLayer>,
    coeffs: Poly,
    points: Vec<Fe>,
    Ghost(seed): Ghost<Seq<u8>>,
) -> (r: (Poly, Vec<Fe>))
    requires
        coeffs.wf(),
        poly_wf(points@),
        is_pow2(points@.len() as nat),
        points@.len() >= 2,
        points@.len() < usize::MAX,
        coeffs.coeffs@.len() <= points@.len(),
        coeffs.coeffs@.len() >= 2,
        forall|k: int| 0 <= k < old(layers)@.len() ==> fri_layer_wf(#[trigger] old(layers)@[k]),
        forall|k: int|
            0 <= k < old(layers)@.len() - 1 ==> (#[trigger] old(layers)@[k]).evals@.len() == 2 * (
            old(layers)@[k + 1]).evals@.len(),
        old(layers)@.len() >= 1 ==> old(layers)@[old(layers)@.len() - 1].evals@.len() == 2
            * points@.len(),
        old(transcript).state@ == fri_state_after(seed, old(layers)@, old(layers)@.len() as int),
        old(layers)@.len() >= 1 ==> coeffs.coeffs@ == fold_of(
            old(layers)@[old(layers)@.len() - 1].coeffs.coeffs@,
            beta_of(seed, old(layers)@, old(layers)@.len() as int),
        ) && points@ == half_squares(old(layers)@[old(layers)@.len() - 1].points@),
        forall|k: int|
            0 <= k < old(layers)@.len() ==> (#[trigger] old(layers)@[k]).evals@ == eval_on_domain(
                old(layers)@[k].coeffs.coeffs@,
                old(layers)@[k].points@,
            ),
        forall|k: int|
            0 <= k < old(layers)@.len() - 1 ==> (#[trigger] old(layers)@[k + 1]).coeffs.coeffs@
                == fold_of(
                old(layers)@[k].coeffs.coeffs@,
                beta_of(seed, old(layers)@, k + 1),
            ) && old(layers)@[k + 1].points@ == half_squares(old(layers)@[k].points@),
    ensures
        final(layers)@.len() == old(layers)@.len() + 1,
        final(layers)@ == old(layers)@.push(final(layers)@[old(layers)@.len() as int]),
        final(layers)@[old(layers)@.len() as int].coeffs.coeffs@ == coeffs.coeffs@,
        final(layers)@[old(layers)@.len() as int].points@ == points@,
        forall|k: int| 0 <= k < final(layers)@.len() ==> fri_layer_wf(#[trigger] final(layers)@[k]),
        forall|k: int|
            0 <= k < final(layers)@.len() - 1 ==> (#[trigger] final(layers)@[k]).evals@.len() == 2
                * (final(layers)@[k + 1]).evals@.len(),
        final(layers)@[final(layers)@.len() - 1].evals@.len() == 2 * r.1@.len(),
        final(transcript).state@ == fri_state_after(
            seed,
            final(layers)@,
            final(layers)@.len() as int,
        ),
        r.0.coeffs@ == fold_of(
            final(layers)@[final(layers)@.len() - 1].coeffs.coeffs@,
            beta_of(seed, final(layers)@, final(layers)@.len() as int),
        ),
        r.1@ == half_squares(final(layers)@[final(layers)@.len() - 1].points@),
        r.1@.len() <= points@.len(),
        forall|k: int|
            0 <= k < final(layers)@.len() ==> (#[trigger] final(layers)@[k]).evals@
                == eval_on_domain(final(layers)@[k].coeffs.coeffs@, final(layers)@[k].points@),
        forall|k: int|
            0 <= k < final(layers)@.len() - 1 ==> (#[trigger] final(layers)@[k + 1]).coeffs.coeffs@
                == fold_of(
                final(layers)@[k].coeffs.coeffs@,
                beta_of(seed, final(layers)@, k + 1),
            ) && final(layers)@[k + 1].points@ == half_squares(final(layers)@[k].points@),
        r.0.wf(),
        poly_wf(r.1@),
        is_pow2(r.1@.len() as nat),
        r.1@.len() >= 1,
        r.0.coeffs@.len() <= r.1@.len(),
        r.0.coeffs@.len() < coeffs.coeffs@.len(),
{
    let parts = commit_and_fold(transcript, &coeffs, &points);
    let new_layer_val = parts.0;
    let out = parts.1;
    let next_points = parts.2;
    let ghost old_layer_view = layers@;
    let ghost new_layer = new_layer_val;
    layers.push(new_layer_val);
    proof {
        lemma_chain_step(
            seed,
            old_layer_view,
            layers@,
            new_layer,
            out.coeffs@,
            next_points@,
            transcript.state@,
        );
        assert(new_layer.evals@.len() == 2 * next_points@.len()) by {
            reveal(half_squares);
        }
    }
    (out, next_points)
}

/// The FRI prover: the committed layers and the final short polynomial.
pub struct FriProver {
    pub layers: Vec<FriLayer>,
    pub final_poly: Poly,
}

/// The index of the fold partner of position `i` in a layer of `n`
/// evaluations: the position of the negated point.  On a natural-order
/// (coset of a) subgroup domain of even size, the point at `i + n/2` is the
/// negation of the point at `i`, and the pair `(f(x), f(-x))` is exactly
/// what the verifier needs to recompute one fold step.
pub open spec fn fold_partner_of(i: int, n: int) -> int {
    if i < n / 2 {
        i + n / 2
    } else {
        i - n / 2
    }
}

/// One opened position in one layer: the evaluation, its fold sibling (the
/// evaluation at the negated point), and the Merkle paths binding each of
/// the two to the layer root.
pub struct FriOpening {
    pub value: Fe,
    pub sibling: Fe,
    pub path: Vec<Vec<u8>>,
    pub sibling_path: Vec<Vec<u8>>,
}

/// All openings for one query position, layer by layer.
pub struct FriQueryProof {
    pub position: u64,
    pub openings: Vec<FriOpening>,
}

/// The FRI proof: layer roots in commit order, the final polynomial in the
/// clear, and the query openings.
pub struct FriProof {
    pub layer_roots: Vec<Vec<u8>>,
    pub final_poly: Poly,
    pub queries: Vec<FriQueryProof>,
}

/// The opening at one layer is exactly the committed data at the queried
/// position: the evaluation at the position reduced into the layer, the
/// evaluation at its fold partner (the negated point), and the Merkle path
/// of each, read out of the layer's own tree.
pub open spec fn opening_matches_layer(o: FriOpening, layer: FriLayer, position: int) -> bool {
    let n = layer.evals@.len() as int;
    let idx = position % n;
    let sib = fold_partner_of(idx, n);
    &&& o.value == layer.evals@[idx]
    &&& o.sibling == layer.evals@[sib]
    &&& o.path@.len() == layer.tree.levels@.len() - 1
    &&& (forall|j: int|
        0 <= j < o.path@.len() ==> (#[trigger] o.path@[j])@ == layer.tree.levels@[j]@[sibling_of(
            level_index(idx, j),
        )]@)
    &&& o.sibling_path@.len() == layer.tree.levels@.len() - 1
    &&& (forall|j: int|
        0 <= j < o.sibling_path@.len() ==> (#[trigger] o.sibling_path@[j])@
            == layer.tree.levels@[j]@[sibling_of(level_index(sib, j))]@)
}

impl FriProver {
    pub open spec fn wf(self) -> bool {
        &&& forall|k: int| 0 <= k < self.layers@.len() ==> fri_layer_wf(#[trigger] self.layers@[k])
        &&& forall|k: int|
            0 <= k < self.layers@.len() - 1 ==> (#[trigger] self.layers@[k]).evals@.len() == 2 * (
            self.layers@[k + 1]).evals@.len()
        &&& self.final_poly.wf()
        &&& self.final_poly.coeffs@.len() <= FRI_FINAL_LEN
    }

    /// The commit phase: evaluates the polynomial over the domain, commits
    /// the evaluations, absorbs the root, draws the folding challenge, folds,
    /// and halves the domain by squaring, until the polynomial is short.
    /// The contract pins the whole chain: the first layer carries the input
    /// polynomial on the input domain, every layer holds the evaluations of
    /// its polynomial on its domain, each next layer's polynomial is the
    /// fold of the previous one with the challenge drawn right after that
    /// root was absorbed, each next domain is the squared first half, the
    /// final polynomial is the last fold, and the transcript ends in the
    /// state after all roots were absorbed in order.
    pub fn build_layers(transcript: &mut Transcript, poly: Poly, domain: &Vec<Fe>) -> (r:
        FriProver)
        requires
            poly.wf(),
            poly_wf(domain@),
            is_pow2(domain@.len() as nat),
            domain@.len() >= 2,
            domain@.len() < usize::MAX,
            poly.coeffs@.len() <= domain@.len(),
        ensures
            r.wf(),
            final(transcript).state@ == fri_state_after(
                old(transcript).state@,
                r.layers@,
                r.layers@.len() as int,
            ),
            poly.coeffs@.len() > FRI_FINAL_LEN ==> r.layers@.len() >= 1,
            r.layers@.len() == 0 ==> r.final_poly == poly,
            r.layers@.len() >= 1 ==> r.layers@[0].coeffs.coeffs@ == poly.coeffs@
                && r.layers@[0].points@ == domain@ && r.final_poly.coeffs@ == fold_of(
                r.layers@[r.layers@.len() - 1].coeffs.coeffs@,
                beta_of(old(transcript).state@, r.layers@, r.layers@.len() as int),
            ),
            forall|k: int|
                0 <= k < r.layers@.len() ==> (#[trigger] r.layers@[k]).evals@ == eval_on_domain(
                    r.layers@[k].coeffs.coeffs@,
                    r.layers@[k].points@,
                ),
            forall|k: int|
                0 <= k < r.layers@.len() - 1 ==> (#[trigger] r.layers@[k + 1]).coeffs.coeffs@
                    == fold_of(
                    r.layers@[k].coeffs.coeffs@,
                    beta_of(old(transcript).state@, r.layers@, k + 1),
                ) && r.layers@[k + 1].points@ == half_squares(r.layers@[k].points@),
    {
        let mut layers: Vec<FriLayer> = Vec::new();
        let mut coeffs = poly;
        let mut points = copy_fes(domain);
        while coeffs.coeffs.len() > FRI_FINAL_LEN && points.len() >= 2
            invariant
                coeffs.wf(),
                poly_wf(points@),
                is_pow2(points@.len() as nat),
                points@.len() >= 1,
                points@.len() <= domain@.len(),
                domain@.len() < usize::MAX,
                coeffs.coeffs@.len() <= points@.len(),
                forall|k: int| 0 <= k < layers@.len() ==> fri_layer_wf(#[trigger] layers@[k]),
                forall|k: int|
                    0 <= k < layers@.len() - 1 ==> (#[trigger] layers@[k]).evals@.len() == 2 * (
                    layers@[k + 1]).evals@.len(),
                layers@.len() >= 1 ==> layers@[layers@.len() - 1].evals@.len() == 2
                    * points@.len(),
                transcript.state@ == fri_state_after(
                    old(transcript).state@,
                    layers@,
                    layers@.len() as int,
                ),
                layers@.len() == 0 ==> coeffs == poly && points@ == domain@,
                layers@.len() >= 1 ==> layers@[0].coeffs.coeffs@ == poly.coeffs@
                    && layers@[0].points@ == domain@,
                layers@.len() >= 1 ==> coeffs.coeffs@ == fold_of(
                    layers@[layers@.len() - 1].coeffs.coeffs@,
                    beta_of(old(transcript).state@, layers@, layers@.len() as int),
                ) && points@ == half_squares(layers@[layers@.len() - 1].points@),
                forall|k: int|
                    0 <= k < layers@.len() ==> (#[trigger] layers@[k]).evals@ == eval_on_domain(
                        layers@[k].coeffs.coeffs@,
                        layers@[k].points@,
                    ),
                forall|k: int|
                    0 <= k < layers@.len() - 1 ==> (#[trigger] layers@[k + 1]).coeffs.coeffs@
                        == fold_of(
                        layers@[k].coeffs.coeffs@,
                        beta_of(old(transcript).state@, layers@, k + 1),
                    ) && layers@[k + 1].points@ == half_squares(layers@[k].points@),
            decreases coeffs.coeffs@.len(),
        {
            let next = fri_round(
                transcript,
                &mut layers,
                coeffs,
                points,
                Ghost(old(transcript).state@),
            );
            coeffs = next.0;
            points = next.1;
        }
        proof {
            if poly.coeffs@.len() > FRI_FINAL_LEN && layers@.len() == 0 {
                assert(points@ == domain@);
                assert(false);
            }
        }
        FriProver { layers, final_poly: coeffs }
    }

    /// The query phase: for every position, at every layer, the evaluation
    /// at the position reduced into the layer and the evaluation at its fold
    /// partner (the negated point, half the layer away), each with its
    /// Merkle path, all pinned against the committed layers; the roots and
    /// the final polynomial are carried over unchanged.  The two opened
    /// evaluations are the pair from which a verifier recomputes the fold
    /// at that position.
    #[verifier::rlimit(100)]
    pub fn into_proof(&self, transcript: &mut Transcript, positions: &Vec<u64>) -> (r: FriProof)
        requires
            self.wf(),
        ensures
            r.queries@.len() == positions@.len(),
            r.layer_roots@.len() == self.layers@.len(),
            forall|k: int|
                0 <= k < r.layer_roots@.len() ==> (#[trigger] r.layer_roots@[k])@ == layer_root(
                    self.layers@[k],
                ),
            r.final_poly.coeffs@ == self.final_poly.coeffs@,
            r.final_poly.wf(),
            r.final_poly.coeffs@.len() <= FRI_FINAL_LEN,
            forall|q: int|
                0 <= q < r.queries@.len() ==> (#[trigger] r.queries@[q]).position
                    == positions@[q] && r.queries@[q].openings@.len() == self.layers@.len(),
            forall|q: int, k: int|
                #![trigger r.queries@[q].openings@[k]]
                0 <= q < positions@.len() && 0 <= k < self.layers@.len()
                    ==> opening_matches_layer(
                    r.queries@[q].openings@[k],
                    self.layers@[k],
                    positions@[q] as int,
                ),
    {
        let mut layer_roots: Vec<Vec<u8>> = Vec::new();
        let mut k: usize = 0;
        while k < self.layers.len()
            invariant
                k <= self.layers@.len(),
                self.wf(),
                layer_roots@.len() == k,
                forall|k2: int|
                    0 <= k2 < k ==> (#[trigger] layer_roots@[k2])@ == layer_root(
                        self.layers@[k2],
                    ),
            decreases self.layers@.len() - k,
        {
            proof {
                reveal(fri_layer_wf);
            }
            layer_roots.push(self.layers[k].tree.root());
            k = k + 1;
        }
        let mut queries: Vec<FriQueryProof> = Vec::new();
        let mut q: usize = 0;
        while q < positions.len()
            invariant
                q <= positions@.len(),
                self.wf(),
                queries@.len() == q,
                forall|q2: int|
                    0 <= q2 < q ==> (#[trigger] queries@[q2]).position == positions@[q2]
                        && queries@[q2].openings@.len() == self.layers@.len(),
                forall|q2: int, k2: int|
                    #![trigger queries@[q2].openings@[k2]]
                    0 <= q2 < q && 0 <= k2 < self.layers@.len() ==> opening_matches_layer(
                        queries@[q2].openings@[k2],
                        self.layers@[k2],
                        positions@[q2] as int,
                    ),
            decreases positions@.len() - q,
        {
            let position = positions[q];
            let mut openings: Vec<FriOpening> = Vec::new();
            let mut k2: usize = 0;
            while k2 < self.layers.len()
                invariant
                    k2 <= self.layers@.len(),
                    self.wf(),
                    q < positions@.len(),
                    position == positions@[q as int],
                    openings@.len() == k2,
                    forall|k3: int|
                        #![trigger openings@[k3]]
                        0 <= k3 < k2 ==> opening_matches_layer(
                            openings@[k3],
                            self.layers@[k3],
                            positions@[q as int] as int,
                        ),
                decreases self.layers@.len() - k2,
            {
                proof {
                    reveal(fri_layer_wf);
                }
                let layer = &self.layers[k2];
                let n = layer.evals.len();
                let idx = (position % (n as u64)) as usize;
                proof {
                    assert(n >= 2);
                    vstd::arithmetic::div_mod::lemma_mod_bound(position as int, n as int);
                    assert(is_pow2(layer.evals@.len() as nat));
                    assert(layer.evals@.len() % 2 == 0);
                }
                // The fold partner: the position of the negated point.
                let sib = if idx < n / 2 {
                    idx + n / 2
                } else {
                    idx - n / 2
                };
                let value = layer.evals[idx];
                let sibling = layer.evals[sib];
                let path = layer.tree.open_path(idx);
                let sibling_path = layer.tree.open_path(sib);
                openings.push(FriOpening { value, sibling, path, sibling_path });
                k2 = k2 + 1;
            }
            queries.push(FriQueryProof { position, openings });
            q = q + 1;
        }
        let final_poly = Poly { coeffs: copy_fes(&self.final_poly.coeffs) };
        FriProof { layer_roots, final_poly, queries }
    }
}

/// A fresh copy of a vector of field elements.
pub fn copy_fes(src: &Vec<Fe>) -> (r: Vec<Fe>)
    ensures
        r@ == src@,
{
    let mut out: Vec<Fe> = Vec::new();
    let mut i: usize = 0;
    while i < src.len()
        invariant
            i <= src@.len(),
            out@ == src@.subrange(0, i as int),
        decreases src@.len() - i,
    {
        out.push(src[i]);
        proof {
            assert(out@ =~= src@.subrange(0, i as int + 1));
        }
        i = i + 1;
    }
    proof {
        assert(src@.subrange(0, src@.len() as int) =~= src@);
    }
    out
}

} // verus!
