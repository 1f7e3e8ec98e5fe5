//! The Fiat-Shamir transcript: a public-coin channel whose state is a running
//! digest.  Commitments are absorbed by rehashing the state with their bytes;
//! challenges are squeezed by hashing the state with a draw counter, so every
//! draw is a pure function of what was absorbed before it, and prover and
//! verifier reproduce the same sequence bit for bit.

use vstd::prelude::*;
use vstd::arithmetic::power2::pow2;
use crate::field::{Fe, P};
use crate::merkle::{sha256, sha256_of};
use crate::utils::{concat_bytes, u64_be_bytes, u64_from_be, u64_from_bytes, u64_to_bytes};

verus! {

/// The state after absorbing a sequence of byte strings, in order, into a
/// seed: each absorption rehashes the state with the new bytes.
pub open spec fn state_after(seed: Seq<u8>, absorbed: Seq<Seq<u8>>) -> Seq<u8>
    decreases absorbed.len(),
{
    if absorbed.len() == 0 {
        seed
    } else {
        sha256_of(state_after(seed, absorbed.drop_last()) + absorbed.last())
    }
}

/// The field element squeezed from a state at a given draw counter.
pub open spec fn felt_draw(state: Seq<u8>, counter: u64) -> int {
    u64_from_be(sha256_of(state + u64_be_bytes(counter))) % (P as int)
}

/// The number of leading zero bits of a digest, counted over the first eight
/// bytes read as a big-endian word; 64 when they are all zero.
pub open spec fn leading_zeros_of(digest: Seq<u8>) -> int {
    leading_zeros_word(u64_from_be(digest), 64)
}

/// Leading zero bits of a word known to lie below `2^width`.
pub open spec fn leading_zeros_word(v: int, width: int) -> int
    decreases width,
{
    if width <= 0 {
        0int
    } else if v >= pow2((width - 1) as nat) {
        0int
    } else {
        1 + leading_zeros_word(v, width - 1)
    }
}

/// The Fiat-Shamir transcript.
pub struct Transcript {
    pub state: Vec<u8>,
    pub counter: u64,
}

impl Transcript {
    /// A transcript seeded with the protocol's public bytes.
    pub fn new(seed: Vec<u8>) -> (r: Transcript)
        ensures
            r.state@ == seed@,
            r.counter == 0,
    {
        Transcript { state: seed, counter: 0 }
    }

    /// Absorbs a commitment: the state becomes the digest of the old state
    /// followed by the bytes, and the draw counter restarts.
    pub fn absorb(&mut self, bytes: &Vec<u8>)
        ensures
            final(self).state@ == sha256_of(old(self).state@ + bytes@),
            final(self).counter == 0,
    {
        let joined = concat_bytes(&self.state, bytes);
        self.state = sha256(&joined);
        self.counter = 0;
    }

    /// Squeezes one field element: the digest of the state and the draw
    /// counter, read as a big-endian word, reduced into the field.
    pub fn draw_felt(&mut self) -> (r: Fe)
        requires
            old(self).counter < u64::MAX,
        ensures
            r.wf(),
            r.v as int == felt_draw(old(self).state@, old(self).counter),
            final(self).state@ == old(self).state@,
            final(self).counter == old(self).counter + 1,
    {
        let counter_bytes = u64_to_bytes(self.counter);
        let digest = sha256(&concat_bytes(&self.state, &counter_bytes));
        let word = u64_from_bytes(&digest);
        self.counter = self.counter + 1;
        proof {
            vstd::arithmetic::div_mod::lemma_mod_bound(word as int, P as int);
        }
        Fe { v: word % P }
    }

    /// Squeezes one position below `m`.
    pub fn draw_index(&mut self, m: u64) -> (r: u64)
        requires
            old(self).counter < u64::MAX,
            m > 0,
        ensures
            r < m,
            r as int == u64_from_be(
                sha256_of(old(self).state@ + u64_be_bytes(old(self).counter)),
            ) % (m as int),
            final(self).state@ == old(self).state@,
            final(self).counter == old(self).counter + 1,
    {
        let counter_bytes = u64_to_bytes(self.counter);
        let digest = sha256(&concat_bytes(&self.state, &counter_bytes));
        let word = u64_from_bytes(&digest);
        self.counter = self.counter + 1;
        proof {
            vstd::arithmetic::div_mod::lemma_mod_bound(word as int, m as int);
        }
        word % m
    }

    /// Searches for the least proof-of-work nonce whose digest with the
    /// current state clears the difficulty; `None` exactly when the whole
    /// nonce space fails.
    pub fn grind(&mut self, difficulty: u64) -> (r: Option<u64>)
        requires
            difficulty <= 64,
        ensures
            final(self).state@ == old(self).state@,
            final(self).counter == old(self).counter,
            (r is Some) <==> (exists|n: u64|
                #![trigger u64_be_bytes(n)]
                leading_zeros_of(sha256_of(old(self).state@ + u64_be_bytes(n))) >= difficulty),
            r is Some ==> leading_zeros_of(
                sha256_of(old(self).state@ + u64_be_bytes(r.unwrap())),
            ) >= difficulty && (forall|m: u64|
                #![trigger u64_be_bytes(m)]
                m < r.unwrap() ==> leading_zeros_of(
                    sha256_of(old(self).state@ + u64_be_bytes(m)),
                ) < difficulty),
    {
        let mut nonce: u64 = 0;
        loop
            invariant
                self.state@ == old(self).state@,
                self.counter == old(self).counter,
                difficulty <= 64,
                forall|m: u64|
                    #![trigger u64_be_bytes(m)]
                    m < nonce ==> leading_zeros_of(
                        sha256_of(old(self).state@ + u64_be_bytes(m)),
                    ) < difficulty,
            decreases u64::MAX - nonce,
        {
            let nonce_bytes = u64_to_bytes(nonce);
            let digest = sha256(&concat_bytes(&self.state, &nonce_bytes));
            if leading_zero_bits(&digest) >= difficulty {
                return Some(nonce);
            }
            if nonce == u64::MAX {
                proof {
                    assert forall|n: u64| #[trigger] u64_be_bytes(n) == u64_be_bytes(n) implies
                        leading_zeros_of(sha256_of(old(self).state@ + u64_be_bytes(n)))
                        < difficulty by {
                        if n < u64::MAX {
                        } else {
                            assert(n == u64::MAX);
                        }
                    }
                }
                return None;
            }
            nonce = nonce + 1;
        }
    }
}

/// Counts the leading zero bits of a digest over its first eight bytes.
pub fn leading_zero_bits(digest: &Vec<u8>) -> (r: u64)
    requires
        digest@.len() >= 8,
    ensures
        r == leading_zeros_of(digest@),
{
    let word = u64_from_bytes(digest);
    let mut count: u64 = 0;
    let mut width: u64 = 64;
    let mut threshold: u64 = 0x8000000000000000;
    proof {
        vstd::arithmetic::power2::lemma2_to64();
        vstd::arithmetic::power2::lemma2_to64_rest();
        assert(threshold as int == pow2(63));
        assert(pow2(64) == 0x10000000000000000);
    }
    while width > 0
        invariant
            width <= 64,
            count == 64 - width,
            width >= 1 ==> threshold as int == pow2((width - 1) as nat),
            (word as int) < pow2(width as nat),
            count + leading_zeros_word(word as int, width as int) == leading_zeros_of(digest@),
        decreases width,
    {
        if word >= threshold {
            return count;
        }
        count = count + 1;
        width = width - 1;
        if width > 0 {
            proof {
                vstd::arithmetic::power2::lemma_pow2_unfold(width as nat);
            }
            threshold = threshold / 2;
        }
    }
    count
}

/// Transcript determinism: the state after a sequence of absorptions, and
/// every challenge squeezed from it, are functions of the seed and the
/// absorbed bytes alone; two transcripts fed identically agree bit for bit.
pub proof fn lemma_transcript_determinism(
    seed1: Seq<u8>,
    absorbed1: Seq<Seq<u8>>,
    seed2: Seq<u8>,
    absorbed2: Seq<Seq<u8>>,
    counter: u64,
)
    requires
        seed1 == seed2,
        absorbed1 == absorbed2,
    ensures
        state_after(seed1, absorbed1) == state_after(seed2, absorbed2),
        felt_draw(state_after(seed1, absorbed1), counter) == felt_draw(
            state_after(seed2, absorbed2),
            counter,
        ),
{
}

} // verus!
