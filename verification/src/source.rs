//! A buffered source of random bytes.

use rand::rngs::StdRng;
use rand::Rng;
use rand::SeedableRng;
use vstd::arithmetic::power2::{lemma2_to64, pow2};
use vstd::prelude::*;

verus! {

/// Number of random bytes that one refill brings.
pub const BUFFER_SIZE: usize = 256;

/// The buffer's size is a power of two, and not below 64.
pub proof fn lemma_buffer_size()
    ensures
        BUFFER_SIZE == pow2(8),
        BUFFER_SIZE >= 64,
{
    lemma2_to64();
}

/// The fill that byte `k` of a source's stream lies in.
pub open spec fn fill_index(k: int) -> int {
    k / (BUFFER_SIZE as int)
}

/// The place of byte `k` of a source's stream within its fill.
pub open spec fn fill_offset(k: int) -> int {
    k % (BUFFER_SIZE as int)
}

/// `StdRng` of `rand`, the generator behind the source. It is carried along
/// as an opaque value: nothing is known of its state.
#[verifier::external_type_specification]
#[verifier::external_body]
pub struct ExStdRng(StdRng);

/// `StdRng::from_entropy` of `rand`: a generator seeded from the operating
/// system's entropy. Nothing is claimed of the generator that comes back. The
/// call aborts the process where the system cannot provide entropy.
#[verifier::external_body]
fn seeded_rng() -> StdRng {
    StdRng::from_entropy()
}

/// `Rng::fill` of `rand`, on a byte slice: overwrites every byte of `buf` with
/// output of the generator and advances the generator. For `StdRng` the call
/// cannot fail, so it does not unwind. Nothing is claimed of the bytes
/// written.
#[verifier::external_body]
fn fill_random(rng: &mut StdRng, buf: &mut [u8; BUFFER_SIZE])
    no_unwind
{
    rng.fill(&mut buf[..]);
}

/// An endless stream of random bytes, served from a buffer that is refilled
/// from a generator whenever its last byte has been handed out.
pub struct InfiniteRand {
    rng: StdRng,
    buf: [u8; BUFFER_SIZE],
    index: usize,
    used: Ghost<Seq<Seq<u8>>>,
}

impl InfiniteRand {
    /// The cursor points at a byte of the buffer, and every buffer that was
    /// used up had the size of the buffer. Verus holds every source to this.
    #[verifier::type_invariant]
    pub closed spec fn wf(&self) -> bool {
        &&& self.index < BUFFER_SIZE
        &&& forall|j: int| 0 <= j < self.used@.len() ==> (#[trigger] self.used@[j]).len() == BUFFER_SIZE
    }

    /// The generator that the next refill will draw from.
    pub closed spec fn generator(&self) -> StdRng {
        self.rng
    }

    /// Every content that the buffer has had, oldest first: the buffers that
    /// were used up, then the one that bytes are served from now.
    pub closed spec fn fills(&self) -> Seq<Seq<u8>> {
        self.used@.push(self.buf@)
    }

    /// The bytes that wait in the buffer, in the order in which they will be
    /// served; the next refill happens when the last of them is served.
    pub closed spec fn pending(&self) -> Seq<u8> {
        self.buf@.subrange(self.index as int, BUFFER_SIZE as int)
    }

    /// Every byte that the cursor has passed since construction, oldest
    /// first: the fills one after the other, up to the cursor.
    pub closed spec fn served(&self) -> Seq<u8> {
        Seq::new(
            (self.used@.len() * BUFFER_SIZE + self.index) as nat,
            |k: int| self.fills()[fill_index(k)][fill_offset(k)],
        )
    }

    /// A source that draws from `rng` and serves the bytes of `buf` first.
    pub fn from_parts(rng: StdRng, buf: [u8; BUFFER_SIZE]) -> (inf: Self)
        ensures
            inf.wf(),
            inf.generator() == rng,
            inf.fills() == seq![buf@],
            inf.pending() == buf@,
            inf.served() == Seq::<u8>::empty(),
    {
        let inf = InfiniteRand { rng, buf, index: 0, used: Ghost(Seq::empty()) };
        assert(inf.fills() =~= seq![buf@]);
        assert(inf.pending() =~= buf@);
        assert(inf.served() =~= Seq::<u8>::empty());
        inf
    }

    /// A source with a freshly seeded generator and a buffer filled from it.
    pub fn new() -> (inf: Self)
        ensures
            inf.wf(),
            inf.fills().len() == 1,
            inf.pending() == inf.fills()[0],
            inf.pending().len() == BUFFER_SIZE,
            inf.served() == Seq::<u8>::empty(),
    {
        let mut rng = seeded_rng();
        let mut buf = [0u8; BUFFER_SIZE];
        fill_random(&mut rng, &mut buf);
        Self::from_parts(rng, buf)
    }

    /// Number of bytes that wait in the buffer: at least one, whatever has
    /// been served before, and the whole buffer right after a refill.
    pub fn remaining(&self) -> (n: usize)
        ensures
            self.wf(),
            n == self.pending().len(),
            1 <= n <= BUFFER_SIZE,
    {
        proof {
            use_type_invariant(self);
        }
        BUFFER_SIZE - self.index
    }

    /// Puts `fresh` in the place of the buffer and the cursor at its first
    /// byte. The bytes that waited are passed over. The generator is left
    /// alone.
    pub fn refill_with(&mut self, fresh: [u8; BUFFER_SIZE])
        ensures
            final(self).wf(),
            final(self).generator() == old(self).generator(),
            final(self).fills() == old(self).fills().push(fresh@),
            final(self).pending() == fresh@,
            final(self).served() == old(self).served() + old(self).pending(),
    {
        proof {
            use_type_invariant(&*self);
        }
        let ghost before = *self;
        proof {
            self.used = Ghost(self.used@.push(self.buf@));
        }
        self.buf = fresh;
        self.index = 0;
        proof {
            assert(self.fills() =~= before.fills().push(fresh@));
            assert(self.pending() =~= fresh@);
            assert(self.served() =~= before.served() + before.pending());
        }
    }

    /// Serves the byte under the cursor and advances; after the last byte of
    /// the buffer, refills the buffer from the generator and starts over at
    /// its first byte. The generator is called for a refill only. Call
    /// number `k + 1` on a source serves byte `k % 256` of fill `k / 256`.
    pub fn next(&mut self) -> (byte: Option<u8>)
        ensures
            final(self).wf(),
            1 <= old(self).pending().len() <= BUFFER_SIZE,
            byte == Some(old(self).pending()[0]),
            ({
                let k = old(self).served().len() as int;
                byte == Some(old(self).fills()[fill_index(k)][fill_offset(k)])
            }),
            final(self).served() == old(self).served().push(old(self).pending()[0]),
            old(self).pending().len() > 1 ==> {
                &&& final(self).pending() == old(self).pending().skip(1)
                &&& final(self).fills() == old(self).fills()
                &&& final(self).generator() == old(self).generator()
            },
            old(self).pending().len() == 1 ==> {
                &&& final(self).pending().len() == BUFFER_SIZE
                &&& final(self).fills() == old(self).fills().push(final(self).pending())
            },
    {
        proof {
            use_type_invariant(&*self);
        }
        let ghost before = *self;
        let result = self.buf[self.index];
        if self.index + 1 == BUFFER_SIZE {
            let mut fresh = [0u8; BUFFER_SIZE];
            fill_random(&mut self.rng, &mut fresh);
            assert(before.pending() =~= seq![result]);
            self.refill_with(fresh);
            assert(before.served() + seq![result] =~= before.served().push(result));
        } else {
            self.index += 1;
            assert(self.pending() =~= before.pending().skip(1));
            assert(self.served() =~= before.served().push(result));
        }
        Some(result)
    }

    /// A byte always waits, and never more than the buffer holds.
    pub proof fn lemma_pending_len(self)
        requires
            self.wf(),
        ensures
            1 <= self.pending().len() <= BUFFER_SIZE,
    {
    }

    /// The bytes served are the fills one after the other, none left out and
    /// none twice: byte `k` of all that were served is byte `k % 256` of fill
    /// `k / 256`.
    pub proof fn lemma_served_in_fill_order(self, k: int)
        requires
            self.wf(),
            0 <= k < self.served().len(),
        ensures
            fill_index(k) < self.fills().len(),
            self.served()[k] == self.fills()[fill_index(k)][fill_offset(k)],
    {
    }

    /// Every fill has the size of the buffer; the bytes served and the bytes
    /// that wait make up the fills; and the bytes that wait are the rest of
    /// the last fill.
    pub proof fn lemma_fills(self)
        requires
            self.wf(),
        ensures
            forall|j: int|
                0 <= j < self.fills().len() ==> (#[trigger] self.fills()[j]).len() == BUFFER_SIZE,
            self.served().len() + self.pending().len() == self.fills().len() * BUFFER_SIZE,
            self.pending() == self.fills().last().skip(fill_offset(self.served().len() as int)),
    {
        assert(self.pending() =~= self.fills().last().skip(
            fill_offset(self.served().len() as int),
        ));
    }
}

} // verus!
