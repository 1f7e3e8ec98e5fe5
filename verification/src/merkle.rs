//! Merkle commitments over byte leaves: a tree of digest levels binding a
//! vector of leaf digests to a single root, with opening paths for arbitrary
//! leaf positions.  The hash is SHA-256, taken as a black-box primitive.

use vstd::prelude::*;
use sha2::Digest;
use crate::utils::{concat_bytes, copy_bytes, is_pow2};

verus! {

/// The SHA-256 digest of a byte string: named, not written out, a function of
/// the bytes alone.
pub uninterp spec fn sha256_of(bytes: Seq<u8>) -> Seq<u8>;

/// Relies on sha2::Sha256 through digest::Digest::digest: the SHA-256 digest
/// of the input bytes, a function of them alone, 32 bytes long.
#[verifier::external_body]
pub fn sha256(bytes: &Vec<u8>) -> (r: Vec<u8>)
    ensures
        r@ == sha256_of(bytes@),
        r@.len() == 32,
{
    sha2::Sha256::digest(bytes.as_slice()).to_vec()
}

/// The index of the ancestor of leaf `i` at level `k`.
pub open spec fn level_index(i: int, k: int) -> int
    decreases k,
{
    if k <= 0 {
        i
    } else {
        level_index(i, k - 1) / 2
    }
}

/// The pair partner of index `i` within its level.
pub open spec fn sibling_of(i: int) -> int {
    if i % 2 == 0 {
        i + 1
    } else {
        i - 1
    }
}

/// A Merkle tree: level 0 holds the leaf digests, each higher level hashes
/// adjacent pairs, the top level holds the root alone.
pub struct MerkleTree {
    pub levels: Vec<Vec<Vec<u8>>>,
}

/// Levels halve in length up to a single root, and every node is the digest
/// of its two children laid end to end.
pub open spec fn tree_wf(levels: Seq<Vec<Vec<u8>>>) -> bool {
    &&& levels.len() >= 1
    &&& levels[levels.len() - 1]@.len() == 1
    &&& forall|k: int|
        0 <= k < levels.len() - 1 ==> (#[trigger] levels[k])@.len() == 2 * levels[k + 1]@.len()
    &&& forall|k: int, i: int|
        0 <= k < levels.len() - 1 && 0 <= i < levels[k + 1]@.len() ==> (#[trigger] levels[k
            + 1]@[i])@ == sha256_of(levels[k]@[2 * i]@ + levels[k]@[2 * i + 1]@)
}

impl MerkleTree {
    pub open spec fn wf(self) -> bool {
        tree_wf(self.levels@)
    }

    /// The number of leaves committed.
    pub open spec fn spec_num_leaves(self) -> nat {
        self.levels@[0]@.len()
    }

    /// Builds the tree over the given leaf digests.
    pub fn new(leaves: Vec<Vec<u8>>) -> (r: MerkleTree)
        requires
            leaves@.len() >= 1,
            is_pow2(leaves@.len()),
        ensures
            r.wf(),
            r.levels@[0]@ == leaves@,
    {
        let ghost leaf_view = leaves@;
        let mut levels: Vec<Vec<Vec<u8>>> = Vec::new();
        let mut cur_len = leaves.len();
        levels.push(leaves);
        while cur_len > 1
            invariant
                levels@.len() >= 1,
                cur_len == levels@[levels@.len() - 1]@.len(),
                cur_len >= 1,
                is_pow2(cur_len as nat),
                levels@[0]@ == leaf_view,
                forall|k: int|
                    0 <= k < levels@.len() - 1 ==> (#[trigger] levels@[k])@.len() == 2 * levels@[k
                        + 1]@.len(),
                forall|k: int, i: int|
                    0 <= k < levels@.len() - 1 && 0 <= i < levels@[k + 1]@.len() ==> (
                    #[trigger] levels@[k + 1]@[i])@ == sha256_of(
                        levels@[k]@[2 * i]@ + levels@[k]@[2 * i + 1]@,
                    ),
            decreases cur_len,
        {
            let half = cur_len / 2;
            let mut next: Vec<Vec<u8>> = Vec::new();
            let mut i: usize = 0;
            proof {
                assert(cur_len % 2 == 0);
            }
            while i < half
                invariant
                    i <= half,
                    levels@.len() >= 1,
                    half == cur_len / 2,
                    cur_len % 2 == 0,
                    cur_len >= 2,
                    cur_len == levels@[levels@.len() - 1]@.len(),
                    next@.len() == i,
                    forall|j: int|
                        0 <= j < i ==> (#[trigger] next@[j])@ == sha256_of(
                            levels@[levels@.len() - 1]@[2 * j]@ + levels@[levels@.len() - 1]@[2 * j
                                + 1]@,
                        ),
                decreases half - i,
            {
                let last = levels.len() - 1;
                let pair = concat_bytes(&levels[last][2 * i], &levels[last][2 * i + 1]);
                next.push(sha256(&pair));
                i = i + 1;
            }
            cur_len = half;
            levels.push(next);
            proof {
                assert(levels@[levels@.len() - 1]@.len() == cur_len);
            }
        }
        MerkleTree { levels }
    }

    /// The root digest.
    pub fn root(&self) -> (r: Vec<u8>)
        requires
            self.wf(),
        ensures
            r@ == self.levels@[self.levels@.len() - 1]@[0]@,
    {
        let top = self.levels.len() - 1;
        copy_bytes(&self.levels[top][0])
    }

    /// The opening path for leaf `i`: the sibling digest at every level below
    /// the root, bottom first.
    pub fn open_path(&self, i: usize) -> (r: Vec<Vec<u8>>)
        requires
            self.wf(),
            i < self.spec_num_leaves(),
        ensures
            r@.len() == self.levels@.len() - 1,
            forall|k: int|
                0 <= k < r@.len() ==> (#[trigger] r@[k])@ == self.levels@[k]@[sibling_of(
                    level_index(i as int, k),
                )]@,
    {
        let mut path: Vec<Vec<u8>> = Vec::new();
        let mut idx = i;
        let mut k: usize = 0;
        let depth = self.levels.len() - 1;
        while k < depth
            invariant
                k <= depth,
                self.wf(),
                depth == self.levels@.len() - 1,
                idx == level_index(i as int, k as int),
                idx < self.levels@[k as int]@.len(),
                path@.len() == k,
                forall|k2: int|
                    0 <= k2 < k ==> (#[trigger] path@[k2])@ == self.levels@[k2]@[sibling_of(
                        level_index(i as int, k2),
                    )]@,
            decreases depth - k,
        {
            proof {
                assert(self.levels@[k as int]@.len() == 2 * self.levels@[k as int + 1]@.len());
            }
            let sib = if idx % 2 == 0 {
                idx + 1
            } else {
                idx - 1
            };
            path.push(copy_bytes(&self.levels[k][sib]));
            idx = idx / 2;
            k = k + 1;
        }
        path
    }
}

/// The digest reached by climbing an opening path from a leaf digest: at each
/// level the running digest is hashed with the sibling, ordered by the index
/// parity.
pub open spec fn climb(h: Seq<u8>, idx: int, path: Seq<Vec<u8>>) -> Seq<u8>
    decreases path.len(),
{
    if path.len() == 0 {
        h
    } else {
        let joined = if idx % 2 == 0 {
            sha256_of(h + path[0]@)
        } else {
            sha256_of(path[0]@ + h)
        };
        climb(joined, idx / 2, path.subrange(1, path.len() as int))
    }
}

/// Recomputes the root from a leaf digest, its position, and an opening path,
/// and compares it with the claimed root.
pub fn verify_path(root: &Vec<u8>, leaf: &Vec<u8>, i: usize, path: &Vec<Vec<u8>>) -> (r: bool)
    ensures
        r == (climb(leaf@, i as int, path@) == root@),
{
    let mut h = copy_bytes(leaf);
    let mut idx = i;
    let mut k: usize = 0;
    proof {
        assert(path@.subrange(0, path@.len() as int) =~= path@);
    }
    while k < path.len()
        invariant
            k <= path@.len(),
            climb(leaf@, i as int, path@) == climb(h@, idx as int, path@.subrange(
                k as int,
                path@.len() as int,
            )),
        decreases path@.len() - k,
    {
        let ghost pre = path@.subrange(k as int, path@.len() as int);
        proof {
            assert(pre[0] == path@[k as int]);
            assert(pre.subrange(1, pre.len() as int) =~= path@.subrange(
                k as int + 1,
                path@.len() as int,
            ));
        }
        let joined = if idx % 2 == 0 {
            sha256(&concat_bytes(&h, &path[k]))
        } else {
            sha256(&concat_bytes(&path[k], &h))
        };
        h = joined;
        idx = idx / 2;
        k = k + 1;
    }
    proof {
        assert(path@.subrange(path@.len() as int, path@.len() as int) =~= Seq::<Vec<u8>>::empty());
    }
    // Compare the digests byte for byte.
    if h.len() != root.len() {
        proof {
            assert(h@ != root@);
        }
        return false;
    }
    let mut j: usize = 0;
    while j < h.len()
        invariant
            j <= h@.len(),
            h@.len() == root@.len(),
            climb(leaf@, i as int, path@) == h@,
            forall|t: int| 0 <= t < j ==> h@[t] == root@[t],
        decreases h@.len() - j,
    {
        if h[j] != root[j] {
            proof {
                assert(h@ != root@);
            }
            return false;
        }
        j = j + 1;
    }
    proof {
        assert(h@ =~= root@);
    }
    true
}


/// Climbing from any node of a well-formed tree along the recorded siblings
/// reaches the root.
#[verifier::rlimit(100)]
proof fn lemma_climb_from_level(levels: Seq<Vec<Vec<u8>>>, i: int, path: Seq<Vec<u8>>, k: int)
    requires
        tree_wf(levels),
        0 <= i < levels[0]@.len(),
        0 <= k <= levels.len() - 1,
        path.len() == levels.len() - 1 - k,
        forall|k2: int|
            k <= k2 < levels.len() - 1 ==> (#[trigger] levels[k2]@[sibling_of(level_index(i, k2))])@
                == path[k2 - k]@,
        0 <= level_index(i, k) < levels[k]@.len(),
    ensures
        climb(levels[k]@[level_index(i, k)]@, level_index(i, k), path) == levels[levels.len()
            - 1]@[0]@,
    decreases path.len(),
{
    let idx = level_index(i, k);
    if path.len() == 0 {
        assert(k == levels.len() - 1);
        assert(levels[k]@.len() == 1);
        assert(idx == 0);
    } else {
        assert(k < levels.len() - 1);
        assert(levels[k]@.len() == 2 * levels[k + 1]@.len());
        vstd::arithmetic::div_mod::lemma_fundamental_div_mod(idx, 2);
        let half = idx / 2;
        assert(level_index(i, k + 1) == half);
        assert(half < levels[k + 1]@.len());
        let sib = sibling_of(idx);
        assert(path[0]@ == levels[k]@[sib]@);
        if idx % 2 == 0 {
            assert(2 * half == idx);
            assert(levels[k + 1]@[half]@ == sha256_of(levels[k]@[idx]@ + levels[k]@[idx + 1]@));
            assert(sib == idx + 1);
        } else {
            assert(2 * half == idx - 1);
            assert(levels[k + 1]@[half]@ == sha256_of(levels[k]@[idx - 1]@ + levels[k]@[idx]@));
            assert(sib == idx - 1);
        }
        assert(path.subrange(1, path.len() as int).len() == levels.len() - 1 - (k + 1));
        lemma_climb_from_level(levels, i, path.subrange(1, path.len() as int), k + 1);
    }
}

/// Merkle opening correctness: the path that [`MerkleTree::open_path`]
/// returns for leaf `i` of a well-formed tree recomputes exactly the root,
/// so [`verify_path`] accepts it.
pub proof fn lemma_open_path_verifies(tree: MerkleTree, i: int, path: Seq<Vec<u8>>)
    requires
        tree.wf(),
        0 <= i < tree.spec_num_leaves(),
        path.len() == tree.levels@.len() - 1,
        forall|k: int|
            0 <= k < path.len() ==> (#[trigger] path[k])@ == tree.levels@[k]@[sibling_of(
                level_index(i, k),
            )]@,
    ensures
        climb(tree.levels@[0]@[i]@, i, path) == tree.levels@[tree.levels@.len() - 1]@[0]@,
{
    lemma_climb_from_level(tree.levels@, i, path, 0);
}
} // verus!
