//! Partitioning a converted block into detector-sized frames.
//!
//! The wakeword detector only accepts frames of one exact length, so a block
//! is cut into consecutive, non-overlapping full frames; a trailing remainder
//! shorter than a frame is discarded rather than zero-padded (a deliberate,
//! documented loss that avoids false triggers on padding).

use vstd::prelude::*;

use vstd::arithmetic::div_mod::lemma_fundamental_div_mod_converse_div;
use vstd::arithmetic::div_mod::lemma_fundamental_div_mod_converse_mod;

verus! {

/// Cut a block of integer samples into every full frame of `frame_len`
/// samples it contains, in order, dropping the partial remainder.
pub fn chunk_frames(pcm: &Vec<i16>, frame_len: usize) -> (frames: Vec<Vec<i16>>)
    requires
        frame_len >= 1,
    ensures
        frames@.len() == pcm@.len() as int / frame_len as int,
        forall|i: int|
            0 <= i < frames@.len() ==> #[trigger] frames@[i]@ == pcm@.subrange(
                i * frame_len,
                i * frame_len + frame_len,
            ),
        forall|i: int| 0 <= i < frames@.len() ==> #[trigger] frames@[i]@.len() == frame_len,
{
    let mut frames: Vec<Vec<i16>> = Vec::new();
    let mut start: usize = 0;
    proof {
        assert(frames@.len() * frame_len == 0) by (nonlinear_arith)
            requires frames@.len() == 0;
    }
    while frame_len <= pcm.len() - start
        invariant
            frame_len >= 1,
            start == frames@.len() * frame_len,
            start <= pcm@.len(),
            forall|i: int|
                0 <= i < frames@.len() ==> #[trigger] frames@[i]@ == pcm@.subrange(
                    i * frame_len,
                    i * frame_len + frame_len,
                ),
        decreases pcm@.len() - start,
    {
        let n = pcm.len();
        let mut frame: Vec<i16> = Vec::new();
        let mut j: usize = 0;
        while j < frame_len
            invariant
                j <= frame_len,
                start + frame_len <= n,
                n == pcm@.len(),
                frame@ == pcm@.subrange(start as int, start + j),
            decreases frame_len - j,
        {
            frame.push(pcm[start + j]);
            proof {
                assert(pcm@.subrange(start as int, start + j).push(pcm@[start + j]) =~= pcm@
                    .subrange(start as int, start + j + 1));
            }
            j = j + 1;
        }
        proof {
            let k = frames@.len() as int;
            assert((k + 1) * frame_len == k * frame_len + frame_len) by (nonlinear_arith);
        }
        frames.push(frame);
        start = start + frame_len;
    }
    proof {
        let k = frames@.len() as int;
        let n = pcm@.len() as int;
        let f = frame_len as int;
        lemma_fundamental_div_mod_converse_div(n, f, k, n - k * f);
        assert forall|i: int| 0 <= i < frames@.len() implies #[trigger] frames@[i]@.len()
            == frame_len by {
            assert((i + 1) * f == i * f + f) by (nonlinear_arith);
            vstd::arithmetic::mul::lemma_mul_inequality(i + 1, k, f);
            assert(frames@[i]@ == pcm@.subrange(i * frame_len, i * frame_len + frame_len));
        }
    }
    frames
}

/// Chunking correctness on exact multiples: a block of exactly `k` frames
/// worth of samples yields exactly `k` full frames and no partial one.
pub proof fn lemma_chunking_exact(n: nat, f: nat, k: nat)
    requires
        f >= 1,
        n == k * f,
    ensures
        n as int / f as int == k,
        n as int % f as int == 0,
{
    lemma_fundamental_div_mod_converse_div(n as int, f as int, k as int, 0);
    lemma_fundamental_div_mod_converse_mod(n as int, f as int, k as int, 0);
}

} // verus!
