//! Fixed-capacity, overwrite-oldest store of audio samples.
//!
//! Samples are carried as the 32-bit patterns of single-precision samples, so
//! the store itself never inspects a sample's numeric value.  The backing
//! store is a heap ring buffer from the `ringbuf` crate; everything proved
//! about it rests on the contracts of the small trusted wrappers below.

use vstd::prelude::*;

use ringbuf::HeapRb;
use ringbuf::traits::{Consumer, Observer, RingBuffer};

verus! {

/// Rolling history of the most recent samples.  When full, pushing a new
/// sample evicts the oldest one (drop-oldest, never drop-newest).
#[verifier::external_body]
pub struct SampleRing {
    inner: HeapRb<u32>,
}

/// The samples currently held, in chronological order (oldest first).
pub uninterp spec fn ring_contents(r: SampleRing) -> Seq<u32>;

/// The fixed number of slots the ring was created with.
pub uninterp spec fn ring_capacity(r: SampleRing) -> nat;

/// One overwrite-push at the model level: append the sample, evicting the
/// oldest one first when the ring is already at capacity.
pub open spec fn ring_push(c: Seq<u32>, cap: nat, x: u32) -> Seq<u32> {
    if c.len() < cap {
        c.push(x)
    } else {
        c.skip(1).push(x)
    }
}

/// A whole block of overwrite-pushes, oldest sample of the block first.
pub open spec fn ring_push_all(c: Seq<u32>, cap: nat, s: Seq<u32>) -> Seq<u32>
    decreases s.len(),
{
    if s.len() == 0 {
        c
    } else {
        ring_push_all(ring_push(c, cap, s.first()), cap, s.drop_first())
    }
}

impl SampleRing {
    /// Relies on ringbuf's `SharedRb::<Heap<T>>::new`: an empty ring buffer
    /// with exactly `capacity` slots; it panics when `capacity` is zero.
    #[verifier::external_body]
    pub fn new(capacity: usize) -> (r: SampleRing)
        requires
            capacity >= 1,
        ensures
            ring_capacity(r) == capacity,
            ring_contents(r) == Seq::<u32>::empty(),
    {
        SampleRing { inner: HeapRb::new(capacity) }
    }

    /// Relies on ringbuf's `Observer::capacity`: the fixed slot count,
    /// constant for the whole lifetime of the buffer.
    #[verifier::external_body]
    pub fn capacity(&self) -> (c: usize)
        ensures
            c == ring_capacity(*self),
            c >= 1,
    {
        self.inner.capacity().get()
    }

    /// Relies on ringbuf's `Observer::occupied_len`: the number of items
    /// currently stored, never more than the capacity.
    #[verifier::external_body]
    pub fn len(&self) -> (n: usize)
        ensures
            n == ring_contents(*self).len(),
            n <= ring_capacity(*self),
    {
        self.inner.occupied_len()
    }

    /// Relies on ringbuf's `RingBuffer::push_overwrite`: when the buffer is
    /// full it removes the eldest item, then appends the new one.
    #[verifier::external_body]
    pub fn push(&mut self, x: u32)
        ensures
            ring_capacity(*final(self)) == ring_capacity(*old(self)),
            ring_contents(*final(self)) == ring_push(
                ring_contents(*old(self)),
                ring_capacity(*old(self)),
                x,
            ),
            ring_contents(*final(self)).len() <= ring_capacity(*final(self)),
    {
        self.inner.push_overwrite(x);
    }

    /// Relies on ringbuf's `Consumer::iter`: a front-to-back (oldest to
    /// newest) iterator that removes nothing from the buffer.
    #[verifier::external_body]
    pub fn snapshot(&self) -> (v: Vec<u32>)
        ensures
            v@ == ring_contents(*self),
    {
        self.inner.iter().copied().collect()
    }

    /// Push every sample of a block, oldest first.
    pub fn push_block(&mut self, block: &Vec<u32>)
        ensures
            ring_capacity(*final(self)) == ring_capacity(*old(self)),
            ring_contents(*final(self)) == ring_push_all(
                ring_contents(*old(self)),
                ring_capacity(*old(self)),
                block@,
            ),
    {
        let ghost c0 = ring_contents(*old(self));
        let ghost cap = ring_capacity(*old(self));
        let mut i: usize = 0;
        while i < block.len()
            invariant
                i <= block.len(),
                ring_capacity(*self) == cap,
                ring_contents(*self) == ring_push_all(c0, cap, block@.take(i as int)),
            decreases block.len() - i,
        {
            proof {
                lemma_ring_push_all_snoc(c0, cap, block@.take(i as int), block@[i as int]);
                assert(block@.take(i as int).push(block@[i as int]) =~= block@.take(
                    i as int + 1,
                ));
            }
            self.push(block[i]);
            i = i + 1;
        }
        proof {
            assert(block@.take(block@.len() as int) =~= block@);
        }
    }
}

/// Pushing a block and then one more sample is the same as pushing the block
/// extended by that sample.
proof fn lemma_ring_push_all_snoc(c: Seq<u32>, cap: nat, s: Seq<u32>, x: u32)
    ensures
        ring_push_all(c, cap, s.push(x)) == ring_push(ring_push_all(c, cap, s), cap, x),
    decreases s.len(),
{
    if s.len() == 0 {
        assert(s.push(x).drop_first() =~= s);
        assert(s.push(x).first() == x);
        assert(ring_push_all(c, cap, s.push(x)) == ring_push_all(ring_push(c, cap, x), cap, s));
        assert(ring_push_all(ring_push(c, cap, x), cap, s) == ring_push(c, cap, x));
        assert(ring_push_all(c, cap, s) == c);
    } else {
        let c1 = ring_push(c, cap, s.first());
        assert(s.push(x).first() == s.first());
        assert(s.push(x).drop_first() =~= s.drop_first().push(x));
        assert(ring_push_all(c, cap, s.push(x)) == ring_push_all(c1, cap, s.drop_first().push(x)));
        lemma_ring_push_all_snoc(c1, cap, s.drop_first(), x);
        assert(ring_push_all(c, cap, s) == ring_push_all(c1, cap, s.drop_first()));
    }
}

/// After any run of pushes starting from a buffer within its capacity, the
/// ring holds exactly the last `min(cap, initial + pushed)` samples of the
/// initial contents followed by the pushed block, in order.
pub proof fn lemma_ring_push_all_closed(c: Seq<u32>, cap: nat, s: Seq<u32>)
    requires
        cap >= 1,
        c.len() <= cap,
    ensures
        ring_push_all(c, cap, s) == (c + s).skip(
            if c.len() + s.len() <= cap {
                0
            } else {
                c.len() + s.len() - cap
            },
        ),
    decreases s.len(),
{
    if s.len() == 0 {
        assert(ring_push_all(c, cap, s) == c);
        assert((c + s).skip(0) =~= c);
    } else {
        let c1 = ring_push(c, cap, s.first());
        lemma_ring_push_all_closed(c1, cap, s.drop_first());
        if c.len() < cap {
            assert(c1 + s.drop_first() =~= c + s);
        } else {
            assert(c1 + s.drop_first() =~= (c + s).skip(1));
            let rest = s.len() - 1;
            if c1.len() + rest <= cap {
                // cap + rest <= cap forces rest == 0, so both sides are c1.
                assert((c + s).skip(1).skip(0) =~= (c + s).skip(1));
                assert((c + s).skip((c.len() + s.len() - cap) as int) =~= (c + s).skip(1));
            } else {
                assert((c + s).skip(1).skip((cap + rest - cap) as int) =~= (c + s).skip(
                    (c.len() + s.len() - cap) as int,
                ));
            }
        }
    }
}

/// No loss until full: pushing at most as many samples as there is room for
/// preserves every sample and their order exactly.
pub proof fn lemma_no_loss_until_full(c: Seq<u32>, cap: nat, s: Seq<u32>)
    requires
        cap >= 1,
        c.len() + s.len() <= cap,
    ensures
        ring_push_all(c, cap, s) == c + s,
{
    lemma_ring_push_all_closed(c, cap, s);
    assert((c + s).skip(0) =~= c + s);
}

/// Overwrite invariant: pushing at least `cap` samples always leaves exactly
/// the most recent `cap` of them, in chronological order, whatever the buffer
/// held before.
pub proof fn lemma_overwrite_keeps_newest(c: Seq<u32>, cap: nat, s: Seq<u32>)
    requires
        cap >= 1,
        c.len() <= cap,
        s.len() >= cap,
    ensures
        ring_push_all(c, cap, s) == s.skip((s.len() - cap) as int),
{
    lemma_ring_push_all_closed(c, cap, s);
    assert((c + s).skip((c.len() + s.len() - cap) as int) =~= s.skip((s.len() - cap) as int));
}

} // verus!
