//! Conversion of captured samples to the detector's 16-bit integer PCM.
//!
//! A sample arrives as the 32-bit pattern of a single-precision value in
//! [-1.0, 1.0].  It is scaled by the maximum positive 16-bit value (32767)
//! and truncated toward zero; a value whose scaled magnitude would leave the
//! 16-bit range is clamped at the representable boundary and flagged, a
//! deliberate lossy best-effort conversion rather than a failure.  The whole
//! conversion is done exactly, in integer arithmetic on the pattern's sign,
//! exponent and fraction fields.

use vstd::prelude::*;

use vstd::arithmetic::div_mod::lemma_basic_div;
use vstd::arithmetic::div_mod::lemma_div_denominator;
use vstd::arithmetic::div_mod::lemma_div_is_ordered;
use vstd::arithmetic::div_mod::lemma_div_multiples_vanish;
use vstd::arithmetic::power2::lemma2_to64;
use vstd::arithmetic::power2::lemma2_to64_rest;
use vstd::arithmetic::power2::lemma_pow2_adds;
use vstd::arithmetic::power2::lemma_pow2_pos;
use vstd::arithmetic::power2::lemma_pow2_strictly_increases;
use vstd::arithmetic::power2::pow2;
use vstd::bits::lemma_u64_shr_is_div;

verus! {

/// Sign bit of the sample's bit pattern.
pub open spec fn sample_negative(bits: u32) -> bool {
    bits >> 31u32 == 1u32
}

/// Biased exponent field of the sample's bit pattern.
pub open spec fn sample_exp(bits: u32) -> u32 {
    (bits >> 23u32) & 0xffu32
}

/// Fraction field of the sample's bit pattern.
pub open spec fn sample_frac(bits: u32) -> u32 {
    bits & 0x7fffffu32
}

/// The sample's magnitude, scaled by 32767 and then by 2^149, as an exact
/// integer: a finite sample's magnitude is `frac * 2^-149` when the exponent
/// field is zero and `(frac + 2^23) * 2^(exp - 150)` otherwise.
pub open spec fn scaled_num(bits: u32) -> int {
    let e = sample_exp(bits) as int;
    let m = sample_frac(bits) as int;
    if e == 0 {
        m * 32767
    } else {
        (m + 0x800000) * 32767 * (pow2((e - 1) as nat) as int)
    }
}

/// The scaled magnitude truncated toward zero.
pub open spec fn scaled_trunc(bits: u32) -> int {
    scaled_num(bits) / (pow2(149) as int)
}

/// Whether the conversion records a warning: the scaled value leaves the
/// representable 16-bit range (above 32767 or below -32768).  An infinity
/// does; a NaN compares inside the range and does not.
pub open spec fn spec_clipped(bits: u32) -> bool {
    if sample_exp(bits) == 255 {
        sample_frac(bits) == 0
    } else if !sample_negative(bits) {
        scaled_num(bits) > 32767 * (pow2(149) as int)
    } else {
        scaled_num(bits) > 32768 * (pow2(149) as int)
    }
}

/// The 16-bit PCM value of a sample: the scaled, truncated value, saturated
/// at the representable boundary instead of wrapping.  A NaN converts to 0,
/// an infinity to the saturated boundary of its sign.
pub open spec fn spec_pcm(bits: u32) -> i16 {
    if sample_exp(bits) == 255 {
        if sample_frac(bits) != 0 {
            0i16
        } else if sample_negative(bits) {
            -32768i16
        } else {
            32767i16
        }
    } else {
        let t = scaled_trunc(bits);
        let v = if sample_negative(bits) {
            -t
        } else {
            t
        };
        if v < -32768 {
            -32768i16
        } else if v > 32767 {
            32767i16
        } else {
            v as i16
        }
    }
}

/// A finite sample's scaled numerator before the exponent's power of two is
/// small: below 2^39.
proof fn lemma_sig_num_bound(bits: u32)
    ensures
        sample_frac(bits) < 0x800000,
        (sample_frac(bits) + 0x800000) * 32767 < pow2(39),
        sample_frac(bits) * 32767 < pow2(39),
{
    let m = sample_frac(bits) as int;
    assert(bits & 0x7fffffu32 < 0x800000u32) by (bit_vector);
    lemma2_to64();
    lemma2_to64_rest();
    assert((m + 0x800000) * 32767 == m * 32767 + 0x800000 * 32767) by (nonlinear_arith);
    assert(m * 32767 <= 0x7fffff * 32767) by (nonlinear_arith)
        requires 0 <= m <= 0x7fffff;
}

/// A sample with a zero exponent field (zero or subnormal) truncates to zero
/// and never clips.
proof fn lemma_subnormal(bits: u32)
    requires
        sample_exp(bits) == 0,
    ensures
        scaled_trunc(bits) == 0,
        !spec_clipped(bits),
{
    lemma_sig_num_bound(bits);
    lemma_pow2_strictly_increases(39, 149);
    lemma_pow2_pos(149);
    lemma_basic_div(scaled_num(bits), (pow2(149) as int));
    assert((pow2(149) as int) <= 32767 * (pow2(149) as int)) by (nonlinear_arith)
        requires (pow2(149) as int) > 0;
}

/// For a finite nonzero exponent, the clip test over the scaled value agrees
/// with a direct test of the exponent and fraction fields.
proof fn lemma_clip_fields(bits: u32)
    requires
        1 <= sample_exp(bits) <= 254,
    ensures
        (scaled_num(bits) > 32767 * (pow2(149) as int)) == (sample_exp(bits) > 127 || (sample_exp(
            bits,
        ) == 127 && sample_frac(bits) > 0)),
        (scaled_num(bits) > 32768 * (pow2(149) as int)) == (sample_exp(bits) > 127 || (sample_exp(
            bits,
        ) == 127 && sample_frac(bits) >= 257)),
{
    let e = sample_exp(bits) as int;
    let m = sample_frac(bits) as int;
    let sig = m + 0x800000;
    let p = (pow2((e - 1) as nat) as int);
    lemma_sig_num_bound(bits);
    lemma_pow2_pos((e - 1) as nat);
    lemma2_to64();
    lemma2_to64_rest();
    assert(scaled_num(bits) == sig * 32767 * p);
    if e <= 126 {
        // sig < 2^24, so the scaled value is under 32767 * 2^(23+e), which
        // stays at or under 32767 * 2^149 and so under both thresholds.
        lemma_pow2_adds(24, (e - 1) as nat);
        let q = pow2((23 + e) as nat) as int;
        if 23 + e < 149 {
            lemma_pow2_strictly_increases((23 + e) as nat, 149);
        }
        assert(sig * 32767 * p < 32767 * ((pow2(24) as int) * p)) by (nonlinear_arith)
            requires sig < (pow2(24) as int), p > 0;
        assert((pow2(24) as int) * p == q);
        assert(32767 * q <= 32767 * (pow2(149) as int)) by (nonlinear_arith)
            requires q <= (pow2(149) as int);
        assert(32767 * (pow2(149) as int) < 32768 * (pow2(149) as int)) by (nonlinear_arith)
            requires (pow2(149) as int) > 0;
        assert(scaled_num(bits) < 32767 * q) by (nonlinear_arith)
            requires
                scaled_num(bits) == sig * 32767 * p,
                sig * 32767 * p < 32767 * ((pow2(24) as int) * p),
                (pow2(24) as int) * p == q,
        ;
    } else if e == 127 {
        // Against 32767 * 2^149: cancel 32767 and 2^126; sig > 2^23 iff m > 0.
        lemma_pow2_adds(23, 126);
        assert(32767 * (pow2(149) as int) == 32767 * (pow2(23) as int) * p) by (nonlinear_arith)
            requires (pow2(149) as int) == (pow2(23) as int) * p;
        assert((sig * 32767 * p > 32767 * (pow2(23) as int) * p) == (sig > (pow2(23) as int)))
            by (nonlinear_arith)
            requires p > 0, sig > 0;
        // Against 32768 * 2^149 = 2^38 * 2^126: compare sig * 32767 with 2^38.
        lemma_pow2_adds(38, 126);
        lemma_pow2_adds(15, 149);
        assert((pow2(149) as int) * 32768 == (pow2(164) as int)) by (nonlinear_arith)
            requires
                pow2(164) as nat == pow2(15) as nat * pow2(149) as nat,
                pow2(15) == 0x8000nat,
        ;
        assert(32768 * (pow2(149) as int) == (pow2(38) as int) * p) by (nonlinear_arith)
            requires
                pow2(164) as nat == pow2(38) as nat * pow2(126) as nat,
                (pow2(149) as int) * 32768 == (pow2(164) as int),
                p == pow2(126) as int,
        ;
        assert((sig * 32767 * p > (pow2(38) as int) * p) == (sig * 32767 > (pow2(38) as int)))
            by (nonlinear_arith)
            requires p > 0;
        assert((sig * 32767 > 0x4000000000) == (m >= 257)) by (nonlinear_arith)
            requires sig == m + 0x800000, 0 <= m < 0x800000;
    } else {
        // e >= 128: the scaled value is at least 2^23 * 32767 * 2^127, which
        // tops both thresholds.
        lemma_pow2_adds(23, 127);
        lemma_pow2_adds(15, 149);
        lemma_pow2_adds(1, 149);
        lemma_pow2_pos(127);
        assert(p >= (pow2(127) as int)) by {
            if e - 1 > 127 {
                lemma_pow2_strictly_increases(127, (e - 1) as nat);
            }
        }
        assert(sig * 32767 * p >= (pow2(23) as int) * 32767 * (pow2(127) as int)) by (nonlinear_arith)
            requires sig >= (pow2(23) as int), p >= (pow2(127) as int), (pow2(23) as int) > 0, (pow2(127) as int) > 0;
        assert((pow2(23) as int) * 32767 * (pow2(127) as int) == 32767 * (pow2(150) as int))
            by (nonlinear_arith)
            requires pow2(150) as nat == pow2(23) as nat * pow2(127) as nat;
        lemma_pow2_adds(1, 149);
        assert(32767 * (pow2(150) as int) > 32768 * (pow2(149) as int)) by (nonlinear_arith)
            requires (pow2(150) as int) == 2 * (pow2(149) as int), (pow2(149) as int) > 0;
        assert(32768 * (pow2(149) as int) > 32767 * (pow2(149) as int)) by (nonlinear_arith)
            requires (pow2(149) as int) > 0;
    }
}

/// For a finite nonzero exponent, dividing out the exponent's power of two
/// reduces the truncation to a single small division.
proof fn lemma_trunc_shift(bits: u32)
    requires
        1 <= sample_exp(bits) <= 150,
    ensures
        scaled_trunc(bits) == ((sample_frac(bits) + 0x800000) * 32767) as int / pow2(
            (150 - sample_exp(bits)) as nat,
        ) as int,
{
    let e = sample_exp(bits) as int;
    let a = ((sample_frac(bits) + 0x800000) * 32767) as int;
    let i = (e - 1) as nat;
    let j = (150 - e) as nat;
    lemma_pow2_adds(i, j);
    lemma_pow2_pos(i);
    lemma_pow2_pos(j);
    let pi = pow2(i) as int;
    let pj = pow2(j) as int;
    assert(a * pi >= 0) by (nonlinear_arith)
        requires a >= 0, pi > 0;
    lemma_div_denominator(a * pi, pi, pj);
    assert((a * pi) / (pi * pj) == ((a * pi) / pi) / pj);
    lemma_div_multiples_vanish(a, pi);
    assert(pi * a == a * pi) by (nonlinear_arith);
    assert(scaled_num(bits) == a * pi);
    assert((pow2(149) as int) == pi * pj);
}

/// Convert one sample to 16-bit PCM, reporting whether it was clamped.
pub fn pcm_from_bits(bits: u32) -> (r: (i16, bool))
    ensures
        r.0 == spec_pcm(bits),
        r.1 == spec_clipped(bits),
{
    let neg = bits >> 31 == 1;
    let e = (bits >> 23) & 0xff;
    let m = bits & 0x7fffff;
    proof {
        assert(neg == sample_negative(bits));
        assert(e == sample_exp(bits));
        assert(m == sample_frac(bits));
        assert((bits >> 23u32) & 0xffu32 <= 0xffu32) by (bit_vector);
    }
    if e == 255 {
        // Infinity saturates with a warning; NaN converts to zero silently.
        if m != 0 {
            (0i16, false)
        } else if neg {
            (-32768i16, true)
        } else {
            (32767i16, true)
        }
    } else if e == 0 {
        proof {
            lemma_subnormal(bits);
        }
        (0i16, false)
    } else {
        let clipped = if !neg {
            e > 127 || (e == 127 && m > 0)
        } else {
            e > 127 || (e == 127 && m >= 257)
        };
        proof {
            lemma_clip_fields(bits);
        }
        if clipped {
            if neg {
                proof {
                    lemma_pow2_pos(149);
                    lemma_div_is_ordered(
                        32768 * (pow2(149) as int),
                        scaled_num(bits),
                        (pow2(149) as int),
                    );
                    lemma_div_multiples_vanish(32768, (pow2(149) as int));
                    assert((pow2(149) as int) * 32768 == 32768 * (pow2(149) as int))
                        by (nonlinear_arith);
                }
                (-32768i16, true)
            } else {
                proof {
                    lemma_pow2_pos(149);
                    lemma_div_is_ordered(
                        32767 * (pow2(149) as int),
                        scaled_num(bits),
                        (pow2(149) as int),
                    );
                    lemma_div_multiples_vanish(32767, (pow2(149) as int));
                    assert((pow2(149) as int) * 32767 == 32767 * (pow2(149) as int))
                        by (nonlinear_arith);
                }
                (32767i16, true)
            }
        } else {
            // Not clipped, so the exponent is at most 127 and the scaled
            // value stays within the saturation bounds.
            proof {
                lemma_sig_num_bound(bits);
                lemma2_to64();
                lemma2_to64_rest();
            }
            let sig: u64 = m as u64 + 0x800000;
            let num = sig * 32767;
            let shift = 150 - e;
            let t64: u64 = if shift >= 39 {
                proof {
                    lemma_pow2_pos(shift as nat);
                    if shift > 39 {
                        lemma_pow2_strictly_increases(39, shift as nat);
                    }
                    lemma_basic_div(num as int, pow2(shift as nat) as int);
                }
                0
            } else {
                proof {
                    lemma_u64_shr_is_div(num, shift as u64);
                }
                num >> (shift as u64)
            };
            proof {
                lemma_trunc_shift(bits);
                assert(t64 as int == scaled_trunc(bits));
                lemma_pow2_pos(149);
                lemma_pow2_pos(shift as nat);
                lemma_div_is_ordered(0, scaled_num(bits), (pow2(149) as int));
                lemma_basic_div(0, (pow2(149) as int));
                if neg {
                    lemma_div_is_ordered(
                        scaled_num(bits),
                        32768 * (pow2(149) as int),
                        (pow2(149) as int),
                    );
                    lemma_div_multiples_vanish(32768, (pow2(149) as int));
                    assert((pow2(149) as int) * 32768 == 32768 * (pow2(149) as int))
                        by (nonlinear_arith);
                } else {
                    lemma_div_is_ordered(
                        scaled_num(bits),
                        32767 * (pow2(149) as int),
                        (pow2(149) as int),
                    );
                    lemma_div_multiples_vanish(32767, (pow2(149) as int));
                    assert((pow2(149) as int) * 32767 == 32767 * (pow2(149) as int))
                        by (nonlinear_arith);
                }
            }
            if neg {
                if t64 >= 32768 {
                    (-32768i16, false)
                } else {
                    (-(t64 as i16), false)
                }
            } else {
                (t64 as i16, false)
            }
        }
    }
}

/// The PCM conversion of a whole block, sample by sample, order kept.
pub open spec fn spec_pcm_seq(s: Seq<u32>) -> Seq<i16> {
    s.map_values(|b: u32| spec_pcm(b))
}

/// How many samples of a block clip during conversion.
pub open spec fn spec_clip_count(s: Seq<u32>) -> nat
    decreases s.len(),
{
    if s.len() == 0 {
        0
    } else {
        spec_clip_count(s.drop_last()) + if spec_clipped(s.last()) {
            1nat
        } else {
            0nat
        }
    }
}

/// Convert a whole block to 16-bit PCM, returning the converted samples and
/// how many of them were clamped (each clamped sample records one warning).
pub fn convert_block(block: &Vec<u32>) -> (r: (Vec<i16>, usize))
    ensures
        r.0@ == spec_pcm_seq(block@),
        r.1 == spec_clip_count(block@),
{
    let mut out: Vec<i16> = Vec::new();
    let mut clipped: usize = 0;
    let mut i: usize = 0;
    proof {
        assert(block@.take(0) =~= Seq::<u32>::empty());
        assert(out@ =~= spec_pcm_seq(block@.take(0)));
    }
    while i < block.len()
        invariant
            i <= block@.len(),
            clipped <= i,
            out@ == spec_pcm_seq(block@.take(i as int)),
            clipped == spec_clip_count(block@.take(i as int)),
        decreases block@.len() - i,
    {
        let (v, c) = pcm_from_bits(block[i]);
        out.push(v);
        if c {
            clipped = clipped + 1;
        }
        proof {
            let t = block@.take(i as int);
            let t1 = block@.take(i as int + 1);
            assert(t1 =~= t.push(block@[i as int]));
            assert(t1.drop_last() =~= t);
            assert(spec_pcm_seq(t1) =~= spec_pcm_seq(t).push(spec_pcm(block@[i as int])));
        }
        i = i + 1;
    }
    proof {
        assert(block@.take(block@.len() as int) =~= block@);
    }
    (out, clipped)
}

} // verus!
