//! Power-of-two arithmetic shared by the padding, domain, Merkle and FRI
//! layers, and the column-major trace matrix.

use vstd::prelude::*;
use crate::field::Fe;
use crate::poly::poly_wf;

verus! {

/// Whether `n` is a power of two.
pub open spec fn is_pow2(n: nat) -> bool
    decreases n,
{
    if n == 0 {
        false
    } else if n == 1 {
        true
    } else {
        n % 2 == 0 && is_pow2(n / 2)
    }
}

/// Runtime test matching [`is_pow2`].
pub fn is_power_of_two(n: usize) -> (r: bool)
    ensures
        r == is_pow2(n as nat),
{
    if n == 0 {
        return false;
    }
    let mut m = n;
    while m % 2 == 0
        invariant
            m >= 1,
            is_pow2(n as nat) == is_pow2(m as nat),
        decreases m,
    {
        m = m / 2;
    }
    m == 1
}

/// Distinct powers of two differ by at least a factor of two.
pub proof fn lemma_pow2_le(a: nat, b: nat)
    requires
        is_pow2(a),
        is_pow2(b),
        a < b,
    ensures
        2 * a <= b,
    decreases b,
{
    let c = b / 2;
    if a > c {
        lemma_pow2_le(c, a);
    }
}

/// For every positive bound there is a power of two in `[n, 2n)`.
pub proof fn lemma_next_pow2_exists(n: nat)
    requires
        n >= 1,
    ensures
        exists|m: nat| is_pow2(m) && n <= m < 2 * n,
    decreases n,
{
    if n == 1 {
        assert(is_pow2(1nat) && n <= 1 < 2 * n);
    } else {
        let h = (n + 1) / 2;
        lemma_next_pow2_exists(h);
        let m0 = choose|m0: nat| is_pow2(m0) && h <= m0 < 2 * h;
        assert(is_pow2(2 * m0)) by {
            assert((2 * m0) % 2 == 0);
            assert((2 * m0) / 2 == m0);
        }
        assert(n <= 2 * m0);
        assert(2 * m0 < 2 * n) by {
            if m0 >= n {
                if n % 2 == 0 {
                    assert(2 * h == n);
                    assert(false);
                } else {
                    // m0 < 2h == n + 1 forces m0 == n, a power of two above 1,
                    // hence even: contradiction with n odd.
                    assert(2 * h == n + 1);
                    assert(m0 == n);
                    assert(n % 2 == 0);
                    assert(false);
                }
            }
        }
    }
}



/// A power of two in `[n, 2n)` is the smallest power of two at or above `n`:
/// every power of two at or above `n` is at least `m`.
pub proof fn lemma_smallest_pow2(n: nat, m: nat, k: nat)
    requires
        is_pow2(m),
        n <= m < 2 * n,
        is_pow2(k),
        k >= n,
    ensures
        k >= m,
{
    if k < m {
        lemma_pow2_le(k, m);
    }
}

/// The product of two powers of two is a power of two.
pub proof fn lemma_pow2_mul(a: nat, b: nat)
    requires
        is_pow2(a),
        is_pow2(b),
    ensures
        is_pow2(a * b),
    decreases b,
{
    if b == 1 {
        assert(a * 1 == a) by (nonlinear_arith);
    } else {
        let c = b / 2;
        lemma_pow2_mul(a, c);
        assert(b == 2 * c);
        assert(a * b == 2 * (a * c)) by (nonlinear_arith)
            requires
                b == 2 * c,
        ;
        assert((2 * (a * c)) % 2 == 0) by (nonlinear_arith);
        assert((2 * (a * c)) / 2 == a * c) by (nonlinear_arith);
        assert(a * c >= 1) by (nonlinear_arith)
            requires
                is_pow2(a) && is_pow2(c),
                a >= 1,
                c >= 1,
        ;
    }
}

/// A column-major matrix of field elements: every column has the same length,
/// the number of rows.
#[derive(Debug)]
pub struct Matrix {
    pub cols: Vec<Vec<Fe>>,
}

impl Matrix {
    /// Well-formed: equal column heights, canonical entries.
    pub open spec fn wf(self) -> bool {
        forall|j: int|
            0 <= j < self.cols@.len() ==> (#[trigger] self.cols@[j])@.len() == self.cols@[0]@.len()
                && poly_wf(self.cols@[j]@)
    }

    pub open spec fn spec_num_rows(self) -> nat {
        if self.cols@.len() == 0 {
            0
        } else {
            self.cols@[0]@.len()
        }
    }

    /// A matrix with no columns.
    pub fn empty() -> (r: Matrix)
        ensures
            r.wf(),
            r.cols@.len() == 0,
    {
        Matrix { cols: Vec::new() }
    }

    pub fn num_cols(&self) -> (r: usize)
        ensures
            r == self.cols@.len(),
    {
        self.cols.len()
    }

    pub fn num_rows(&self) -> (r: usize)
        ensures
            r == self.spec_num_rows(),
    {
        if self.cols.len() == 0 {
            0
        } else {
            self.cols[0].len()
        }
    }

    /// Appends the columns of `other`, which must have the same height.
    pub fn append(&mut self, other: Matrix)
        requires
            old(self).wf(),
            other.wf(),
            old(self).cols@.len() > 0 && other.cols@.len() > 0 ==> other.spec_num_rows() == old(
                self,
            ).spec_num_rows(),
        ensures
            final(self).wf(),
            final(self).cols@ == old(self).cols@ + other.cols@,
    {
        let mut rest = other;
        let ghost orig = self.cols@;
        let ghost more = rest.cols@;
        let ghost mut i: int = 0;
        while rest.cols.len() > 0
            invariant
                0 <= i <= more.len(),
                rest.cols@ == more.subrange(i as int, more.len() as int),
                self.cols@ == orig + more.subrange(0, i as int),
                forall|j: int|
                    0 <= j < more.len() ==> (#[trigger] more[j])@.len() == (if orig.len() > 0 {
                        orig[0]@.len()
                    } else if more.len() > 0 {
                        more[0]@.len()
                    } else {
                        0
                    }) && poly_wf(more[j]@),
                forall|j: int|
                    0 <= j < orig.len() ==> (#[trigger] orig[j])@.len() == orig[0]@.len()
                        && poly_wf(orig[j]@),
            decreases more.len() - i,
        {
            let col = rest.cols.remove(0);
            proof {
                assert(col == more[i as int]);
                assert(rest.cols@ =~= more.subrange(i as int + 1, more.len() as int));
            }
            self.cols.push(col);
            proof {
                assert(self.cols@ =~= orig + more.subrange(0, i as int + 1));
                i = i + 1;
            }
        }
        proof {
            assert(more.subrange(0, more.len() as int) =~= more);
            assert(self.cols@ =~= orig + more);
        }
    }
}


/// Big-endian bytes of a machine word, most significant first.
pub open spec fn u64_be_bytes(v: u64) -> Seq<u8> {
    seq![
        (v / 0x100000000000000 % 256) as u8,
        (v / 0x1000000000000 % 256) as u8,
        (v / 0x10000000000 % 256) as u8,
        (v / 0x100000000 % 256) as u8,
        (v / 0x1000000 % 256) as u8,
        (v / 0x10000 % 256) as u8,
        (v / 0x100 % 256) as u8,
        (v % 256) as u8,
    ]
}

/// Serializes a machine word, most significant byte first.
pub fn u64_to_bytes(v: u64) -> (r: Vec<u8>)
    ensures
        r@ == u64_be_bytes(v),
        r@.len() == 8,
{
    let mut out: Vec<u8> = Vec::new();
    out.push((v / 0x100000000000000 % 256) as u8);
    out.push((v / 0x1000000000000 % 256) as u8);
    out.push((v / 0x10000000000 % 256) as u8);
    out.push((v / 0x100000000 % 256) as u8);
    out.push((v / 0x1000000 % 256) as u8);
    out.push((v / 0x10000 % 256) as u8);
    out.push((v / 0x100 % 256) as u8);
    out.push((v % 256) as u8);
    proof {
        assert(out@ =~= u64_be_bytes(v));
    }
    out
}

/// The machine word read from the first eight bytes, most significant first.
pub open spec fn u64_from_be(b: Seq<u8>) -> int {
    b[0] * 0x100000000000000 + b[1] * 0x1000000000000 + b[2] * 0x10000000000 + b[3] * 0x100000000
        + b[4] * 0x1000000 + b[5] * 0x10000 + b[6] * 0x100 + b[7]
}

/// Reads a machine word from the first eight bytes of a digest.
pub fn u64_from_bytes(b: &Vec<u8>) -> (r: u64)
    requires
        b@.len() >= 8,
    ensures
        r == u64_from_be(b@),
{
    let mut acc: u64 = b[0] as u64;
    acc = acc * 256 + b[1] as u64;
    acc = acc * 256 + b[2] as u64;
    acc = acc * 256 + b[3] as u64;
    acc = acc * 256 + b[4] as u64;
    acc = acc * 256 + b[5] as u64;
    acc = acc * 256 + b[6] as u64;
    acc = acc * 256 + b[7] as u64;
    acc
}

/// A fresh copy of a byte string.
pub fn copy_bytes(b: &Vec<u8>) -> (r: Vec<u8>)
    ensures
        r@ == b@,
{
    let mut out: Vec<u8> = Vec::new();
    let mut i: usize = 0;
    while i < b.len()
        invariant
            i <= b@.len(),
            out@ == b@.subrange(0, i as int),
        decreases b@.len() - i,
    {
        out.push(b[i]);
        proof {
            assert(out@ =~= b@.subrange(0, i as int + 1));
        }
        i = i + 1;
    }
    proof {
        assert(b@.subrange(0, b@.len() as int) =~= b@);
    }
    out
}

/// The concatenation of two byte strings.
pub fn concat_bytes(a: &Vec<u8>, b: &Vec<u8>) -> (r: Vec<u8>)
    ensures
        r@ == a@ + b@,
{
    let mut out: Vec<u8> = Vec::new();
    let mut i: usize = 0;
    while i < a.len()
        invariant
            i <= a@.len(),
            out@ == a@.subrange(0, i as int),
        decreases a@.len() - i,
    {
        out.push(a[i]);
        proof {
            assert(out@ =~= a@.subrange(0, i as int + 1));
        }
        i = i + 1;
    }
    proof {
        assert(a@.subrange(0, a@.len() as int) =~= a@);
    }
    let mut j: usize = 0;
    while j < b.len()
        invariant
            j <= b@.len(),
            out@ == a@ + b@.subrange(0, j as int),
        decreases b@.len() - j,
    {
        out.push(b[j]);
        proof {
            assert(out@ =~= a@ + b@.subrange(0, j as int + 1));
        }
        j = j + 1;
    }
    proof {
        assert(b@.subrange(0, b@.len() as int) =~= b@);
        assert(out@ =~= a@ + b@);
    }
    out
}

/// Byte serialization of a row of field elements, each canonical value in
/// eight big-endian bytes.
pub open spec fn fes_bytes(r: Seq<Fe>) -> Seq<u8>
    decreases r.len(),
{
    if r.len() == 0 {
        Seq::<u8>::empty()
    } else {
        fes_bytes(r.drop_last()) + u64_be_bytes(r.last().v)
    }
}

/// The bytes of a row of field elements, laid end to end.
pub fn fes_to_bytes(elems: &Vec<Fe>) -> (r: Vec<u8>)
    ensures
        (r@ == fes_bytes(elems@)),
{
    let mut out: Vec<u8> = Vec::new();
    let mut i: usize = 0;
    proof {
        assert(elems@.subrange(0, 0) =~= Seq::<Fe>::empty());
        assert(out@ =~= fes_bytes(elems@.subrange(0, 0)));
    }
    while i < elems.len()
        invariant
            i <= elems@.len(),
            out@ == fes_bytes(elems@.subrange(0, i as int)),
        decreases elems@.len() - i,
    {
        let bytes = u64_to_bytes(elems[i].v);
        let mut k: usize = 0;
        let ghost mid = out@;
        while k < bytes.len()
            invariant
                k <= bytes@.len(),
                bytes@ == u64_be_bytes(elems@[i as int].v),
                i < elems@.len(),
                out@ == mid + bytes@.subrange(0, k as int),
            decreases bytes@.len() - k,
        {
            out.push(bytes[k]);
            proof {
                assert(out@ =~= mid + bytes@.subrange(0, k as int + 1));
            }
            k = k + 1;
        }
        proof {
            assert(bytes@.subrange(0, bytes@.len() as int) =~= bytes@);
            let pre = elems@.subrange(0, i as int);
            let post = elems@.subrange(0, i as int + 1);
            assert(post.drop_last() =~= pre);
            assert(post.last() == elems@[i as int]);
            assert(out@ =~= fes_bytes(post));
        }
        i = i + 1;
    }
    proof {
        assert(elems@.subrange(0, elems@.len() as int) =~= elems@);
    }
    out
}
} // verus!
