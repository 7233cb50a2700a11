use rustllm::Rng;

#[test]
fn same_seed_produces_same_sequence() {
    let mut rng_a = Rng::new(12345);
    let mut rng_b = Rng::new(12345);

    assert_eq!(rng_a.next_u64(), rng_b.next_u64());
    assert_eq!(rng_a.next_u64(), rng_b.next_u64());
    assert_eq!(rng_a.next_u64(), rng_b.next_u64());
}

#[test]
fn next_u64_matches_splitmix64_reference_values() {
    // Reference outputs of SplitMix64 seeded with 0.
    let mut rng = Rng::new(0);

    assert_eq!(rng.next_u64(), 0xE220A8397B1DCDAF);
    assert_eq!(rng.next_u64(), 0x6E789E6AA1B965F4);
    assert_eq!(rng.next_u64(), 0x06C45D188009454F);
}

#[test]
fn next_unit_bits_are_high_bits_below_two_pow_53() {
    let mut rng_a = Rng::new(12345);
    let mut rng_b = Rng::new(12345);

    for _ in 0..1000 {
        let bits = rng_a.next_unit_bits();
        let full = rng_b.next_u64();

        assert_eq!(bits, full >> 11);
        assert!(bits < 1_u64 << 53);
    }
}

#[test]
fn kth_output_depends_only_on_shifted_seed() {
    const GOLDEN_GAMMA: u64 = 0x9E3779B97F4A7C15;
    let seed: u64 = 12345;
    let mut rng = Rng::new(seed);
    let outputs: Vec<u64> = (0..4).map(|_| rng.next_u64()).collect();

    for (k, &output) in outputs.iter().enumerate() {
        let shifted = seed.wrapping_add(GOLDEN_GAMMA.wrapping_mul(k as u64));
        assert_eq!(Rng::new(shifted).next_u64(), output);
    }
}
