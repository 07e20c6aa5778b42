//! The Fiat-Shamir transcript: absorbs commitments and deterministically
//! emits challenges, so that prover and verifier, fed the same commitments,
//! draw the same values.
use vstd::prelude::*;

use vstd::arithmetic::power::pow;

use crate::algebra::in_field;
use crate::field::BaseField;
use crate::merkle::{blake3_digest, hash_bytes, hashes_view};
use crate::util::copy_bytes;

verus! {

/// The value used to initialize the randomness of the channel. Normally,
/// the channel is initialized with the public inputs, but we don't have
/// any.
pub const CHANNEL_SALT: u8 = 42;

/// The transcript state: a running digest, a draw counter, and the absorbed
/// commitments in order.
#[verifier::ext_equal]
pub ghost struct ChannelView {
    pub current_hash: Seq<u8>,
    pub count: nat,
    pub commitments: Seq<Seq<u8>>,
}

/// The state of a freshly opened channel.
pub open spec fn channel_init() -> ChannelView {
    ChannelView {
        current_hash: blake3_digest(seq![CHANNEL_SALT]),
        count: 0,
        commitments: Seq::empty(),
    }
}

/// Absorbing a commitment: append it, and chain it into the digest.
pub open spec fn channel_commit(c: ChannelView, m: Seq<u8>) -> ChannelView {
    ChannelView {
        current_hash: blake3_digest(c.current_hash + m),
        count: c.count,
        commitments: c.commitments.push(m),
    }
}

/// The eight little-endian bytes of a counter value.
pub open spec fn u64_le_bytes(x: nat) -> Seq<u8> {
    Seq::new(8, |i: int| ((x as int / pow(256, i as nat)) % 256) as u8)
}

/// The state change of every draw: chain the counter into the digest, then
/// advance the counter.
pub open spec fn channel_rehash(c: ChannelView) -> ChannelView {
    ChannelView {
        current_hash: blake3_digest(c.current_hash + u64_le_bytes(c.count)),
        count: c.count + 1,
        commitments: c.commitments,
    }
}

/// The field element drawn from a channel state: the first four digest
/// bytes, read as a little-endian signed 32-bit integer, reduced modulo 17.
pub open spec fn draw_element_val(c: ChannelView) -> int {
    let unsigned = c.current_hash[0] + 256 * c.current_hash[1] + 65536 * c.current_hash[2]
        + 16777216 * c.current_hash[3];
    (
    if c.current_hash[3] >= 128 {
        unsigned - 0x1_0000_0000
    } else {
        unsigned
    }) % 17
}

/// The bounded integer drawn from a channel state: the first digest byte,
/// reduced modulo the bound.
pub open spec fn draw_integer_val(c: ChannelView, upper_bound: int) -> int {
    (c.current_hash[0] as int) % upper_bound
}

/// Every drawn field element is a canonical residue.
pub proof fn lemma_draw_element_in_field(c: ChannelView)
    ensures
        in_field(draw_element_val(c)),
{
    let unsigned = c.current_hash[0] + 256 * c.current_hash[1] + 65536 * c.current_hash[2]
        + 16777216 * c.current_hash[3];
    if c.current_hash[3] >= 128 {
        vstd::arithmetic::div_mod::lemma_mod_bound(unsigned - 0x1_0000_0000, 17);
    } else {
        vstd::arithmetic::div_mod::lemma_mod_bound(unsigned, 17);
    }
}

/// A channel fed the given commitments in order, with no draws in between.
pub open spec fn channel_after_commits(cs: Seq<Seq<u8>>) -> ChannelView
    decreases cs.len(),
{
    if cs.len() == 0 {
        channel_init()
    } else {
        channel_commit(channel_after_commits(cs.drop_last()), cs.last())
    }
}

/// Law (channel determinism): two channels that have absorbed identical
/// commitment sequences are in identical states, and every draw from them
/// gives identical values.
pub proof fn lemma_channel_determinism(c1: ChannelView, c2: ChannelView, cs: Seq<Seq<u8>>)
    requires
        c1 == channel_after_commits(cs),
        c2 == channel_after_commits(cs),
    ensures
        c1 == c2,
        draw_element_val(c1) == draw_element_val(c2),
        forall|upper: int| draw_integer_val(c1, upper) == draw_integer_val(c2, upper),
{
}

/// A Channel implements the Fiat-Shamir transform. Prover and verifier
/// each run one, and feed it the same commitments in the same order.
#[derive(Debug)]
pub struct Channel {
    current_hash: Vec<u8>,
    count: u64,
    commitments: Vec<Vec<u8>>,
}

impl View for Channel {
    type V = ChannelView;

    closed spec fn view(&self) -> ChannelView {
        ChannelView {
            current_hash: self.current_hash@,
            count: self.count as nat,
            commitments: hashes_view(self.commitments@),
        }
    }
}

/// The eight little-endian bytes of a counter, computed by repeated
/// division.
fn u64_le_bytes_exec(x: u64) -> (r: Vec<u8>)
    ensures
        r@ == u64_le_bytes(x as nat),
{
    let mut r: Vec<u8> = Vec::new();
    let mut y = x;
    proof {
        vstd::arithmetic::power::lemma_pow0(256);
        assert(x as int / 1 == x as int);
    }
    for i in 0..8
        invariant
            r@.len() == i,
            y == x as int / pow(256, i as nat),
            forall|j: int|
                0 <= j < i ==> r@[j] == ((x as int / pow(256, j as nat)) % 256) as u8,
    {
        r.push((y % 256) as u8);
        proof {
            vstd::arithmetic::power::lemma_pow1(256);
            vstd::arithmetic::power::lemma_pow_adds(256, i as nat, 1);
            vstd::arithmetic::power::lemma_pow_positive(256, i as nat);
            vstd::arithmetic::div_mod::lemma_div_denominator(
                x as int,
                pow(256, i as nat),
                256,
            );
        }
        y = y / 256;
    }
    proof {
        assert(r@ =~= u64_le_bytes(x as nat));
    }
    r
}

impl Channel {
    /// The running digest always stays a 32-byte blake3 output.
    pub open spec fn wf(&self) -> bool {
        self@.current_hash.len() == 32
    }

    pub fn new() -> (r: Self)
        ensures
            r@ == channel_init(),
            r.wf(),
    {
        let mut salt: Vec<u8> = Vec::new();
        salt.push(CHANNEL_SALT);
        proof {
            assert(salt@ =~= seq![CHANNEL_SALT]);
        }
        let r = Self { current_hash: hash_bytes(&salt), count: 0, commitments: Vec::new() };
        proof {
            assert(r@ =~= channel_init());
        }
        r
    }

    /// Captures a message sent from the prover to the verifier.
    pub fn commit(&mut self, commitment: Vec<u8>)
        requires
            old(self).wf(),
        ensures
            final(self)@ == channel_commit(old(self)@, commitment@),
            final(self).wf(),
    {
        let mut chained = copy_bytes(&self.current_hash);
        let m = commitment.len();
        for b in 0..m
            invariant
                m == commitment@.len(),
                chained@ == old(self)@.current_hash + commitment@.subrange(0, b as int),
                self == old(self),
        {
            chained.push(commitment[b]);
            proof {
                assert(old(self)@.current_hash + commitment@.subrange(0, b + 1) =~= chained@);
            }
        }
        proof {
            assert(commitment@.subrange(0, m as int) =~= commitment@);
        }
        self.current_hash = hash_bytes(&chained);
        self.commitments.push(commitment);
        proof {
            assert(hashes_view(self.commitments@) =~= old(self)@.commitments.push(
                self.commitments@.last()@,
            ));
            assert(self@ =~= channel_commit(old(self)@, self.commitments@.last()@));
        }
    }

    /// Draws a random element from `BaseField` (i.e. a number between 0 and
    /// 16).
    ///
    /// Captures a message sent from the verifier to the prover.
    pub fn random_element(&mut self) -> (r: BaseField)
        requires
            old(self).wf(),
            old(self)@.count < u64::MAX,
        ensures
            r@ == draw_element_val(old(self)@),
            in_field(r@),
            final(self)@ == channel_rehash(old(self)@),
            final(self).wf(),
    {
        let b0 = self.current_hash[0] as u32;
        let b1 = self.current_hash[1] as u32;
        let b2 = self.current_hash[2] as u32;
        let b3 = self.current_hash[3] as u32;
        let unsigned: u32 = b0 + 256 * b1 + 65536 * b2 + 16777216 * b3;

        let element: u8 = if b3 >= 128 {
            proof {
                // the whole i32 range shifted down: 2^32 == 17 * 252645135 + 1
                vstd::arithmetic::div_mod::lemma_mod_multiples_vanish(
                    -252645135,
                    unsigned - 1,
                    17,
                );
                // and the executable adjustment adds 17 where the sign bit
                // subtracted one
                vstd::arithmetic::div_mod::lemma_mod_add_multiples_vanish(
                    unsigned as int - 1,
                    17,
                );
                vstd::arithmetic::div_mod::lemma_add_mod_noop(unsigned as int, 16, 17);
                crate::algebra::lemma_small_mod_17(16);
            }
            ((unsigned % 17) + 16) % 17
        } else {
            unsigned % 17
        } as u8;

        let ret_element = BaseField::new(element);
        proof {
            crate::algebra::lemma_small_mod_17(element as int);
        }
        self.rehash_after_draw();
        ret_element
    }

    /// Draws an integer in the range `[0, upper_bound - 1]` (slightly
    /// biased by the final modulo, which is acceptable here).
    ///
    /// Captures a message sent from the verifier to the prover.
    pub fn random_integer(&mut self, upper_bound: u8) -> (r: u8)
        requires
            old(self).wf(),
            old(self)@.count < u64::MAX,
            upper_bound > 0,
        ensures
            r == draw_integer_val(old(self)@, upper_bound as int),
            r < upper_bound,
            final(self)@ == channel_rehash(old(self)@),
            final(self).wf(),
    {
        let ret_element = self.current_hash[0] % upper_bound;
        self.rehash_after_draw();
        ret_element
    }

    /// This is an arbitrary way to change the current hash, so that we can
    /// draw multiple times and always get fresh values.
    fn rehash_after_draw(&mut self)
        requires
            old(self).wf(),
            old(self)@.count < u64::MAX,
        ensures
            final(self)@ == channel_rehash(old(self)@),
            final(self).wf(),
    {
        let mut chained = copy_bytes(&self.current_hash);
        let counter_bytes = u64_le_bytes_exec(self.count);
        let m = counter_bytes.len();
        proof {
            assert(counter_bytes@.len() == 8);
        }
        for b in 0..m
            invariant
                m == counter_bytes@.len(),
                chained@ == old(self)@.current_hash + counter_bytes@.subrange(0, b as int),
                counter_bytes@ == u64_le_bytes(old(self)@.count),
                self == old(self),
        {
            chained.push(counter_bytes[b]);
            proof {
                assert(old(self)@.current_hash + counter_bytes@.subrange(0, b + 1) =~= chained@);
            }
        }
        proof {
            assert(counter_bytes@.subrange(0, m as int) =~= counter_bytes@);
        }
        self.count = self.count + 1;
        self.current_hash = hash_bytes(&chained);
        proof {
            assert(self@ =~= channel_rehash(old(self)@));
        }
    }

    /// Closes the channel, returning the commitments for the final proof.
    pub fn finalize(self) -> (r: Vec<Vec<u8>>)
        ensures
            hashes_view(r@) == self@.commitments,
    {
        self.commitments
    }
}

} // verus!
