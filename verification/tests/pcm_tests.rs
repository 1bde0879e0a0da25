use capture_core::pcm::convert_block;
use capture_core::pcm::pcm_from_bits;

#[test]
fn conversion_boundary_positive_one() {
    // 1.0 scales to exactly the maximum positive 16-bit value, no warning.
    assert_eq!(pcm_from_bits(1.0f32.to_bits()), (32767, false));
}

#[test]
fn conversion_boundary_negative_one() {
    // -1.0 scales to -32767 (the negated maximum), without wraparound.
    assert_eq!(pcm_from_bits((-1.0f32).to_bits()), (-32767, false));
}

#[test]
fn conversion_out_of_range_clamps_and_warns() {
    // 2.0 would scale to 65534: clamped at the boundary, not wrapped, and
    // flagged.
    assert_eq!(pcm_from_bits(2.0f32.to_bits()), (32767, true));
    assert_eq!(pcm_from_bits((-2.0f32).to_bits()), (-32768, true));
}

#[test]
fn conversion_zero_and_halves() {
    assert_eq!(pcm_from_bits(0.0f32.to_bits()), (0, false));
    assert_eq!(pcm_from_bits((-0.0f32).to_bits()), (0, false));
    // 0.5 * 32767 == 16383.5, truncated toward zero.
    assert_eq!(pcm_from_bits(0.5f32.to_bits()), (16383, false));
    assert_eq!(pcm_from_bits((-0.5f32).to_bits()), (-16383, false));
}

#[test]
fn conversion_tiny_values_truncate_to_zero() {
    assert_eq!(pcm_from_bits(1.0e-6f32.to_bits()), (0, false));
    assert_eq!(pcm_from_bits(f32::MIN_POSITIVE.to_bits()), (0, false));
    assert_eq!(pcm_from_bits(3.2e-5f32.to_bits()), (1, false));
}

#[test]
fn conversion_non_finite_values() {
    // NaN compares inside the range, converts to zero without a warning;
    // infinities saturate with one.
    assert_eq!(pcm_from_bits(f32::NAN.to_bits()), (0, false));
    assert_eq!(pcm_from_bits(f32::INFINITY.to_bits()), (32767, true));
    assert_eq!(pcm_from_bits(f32::NEG_INFINITY.to_bits()), (-32768, true));
}

#[test]
fn conversion_negative_saturation_edge() {
    // Just below -1.0: the scaled magnitude passes -32768 and saturates.
    let low = f32::from_bits(0xBF800101); // about -1.0000307
    assert_eq!(pcm_from_bits(low.to_bits()), (-32768, true));
    // Slightly less negative: truncates to -32767 with no warning.
    let near = f32::from_bits(0xBF800100); // about -1.0000305
    assert_eq!(pcm_from_bits(near.to_bits()), (-32767, false));
}

#[test]
fn conversion_agrees_with_float_reference() {
    // Spot-check against the floating-point scale-and-truncate reference on
    // in-range values.
    for &x in &[0.1f32, 0.25, 0.75, 0.9999, -0.1, -0.25, -0.75, -0.9999, 0.003, -0.003] {
        let expected = (x * 32767.0f32) as i16;
        let (got, clipped) = pcm_from_bits(x.to_bits());
        assert_eq!(got, expected, "sample {x}");
        assert!(!clipped);
    }
}

#[test]
fn convert_block_counts_warnings() {
    let block: Vec<u32> = vec![
        0.5f32.to_bits(),
        2.0f32.to_bits(),
        (-3.0f32).to_bits(),
        1.0f32.to_bits(),
    ];
    let (pcm, clipped) = convert_block(&block);
    assert_eq!(pcm, vec![16383, 32767, -32768, 32767]);
    assert_eq!(clipped, 2);
}
