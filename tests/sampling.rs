use frodo_kem::sampling::{below_threshold, derive_seed, noise_of_draws};
use frodo_kem::{Frodo, L, N};

#[test]
fn expand_a_shape_and_first_entries() {
    let frodo = Frodo::default();
    let a = frodo.generate_a(&[]);
    assert_eq!(a.nrows_exec(), N);
    assert_eq!(a.ncols_exec(), N);
    // SHAKE128 of the empty input starts 7f 9c 2b a4.
    assert_eq!(a.get(0, 0), -25473);
    assert_eq!(a.get(0, 1), -23509);
}

#[test]
fn expand_a_is_deterministic() {
    let frodo = Frodo::default();
    let seed = [42u8; 32];
    let a1 = frodo.generate_a(&seed);
    let a2 = frodo.generate_a(&seed);
    assert_eq!(a1.serialize(), a2.serialize());
}

#[test]
fn expand_a_changes_with_one_bit() {
    let frodo = Frodo::default();
    let seed = [42u8; 32];
    let mut other = seed;
    other[5] ^= 1;
    assert_ne!(frodo.generate_a(&seed).serialize(), frodo.generate_a(&other).serialize());
}

#[test]
fn derive_seed_depends_on_nonce() {
    let base = [1u8; 32];
    let s0 = derive_seed(&base, 0);
    let s0b = derive_seed(&base, 0);
    let s1 = derive_seed(&base, 1);
    assert_eq!(s0.len(), 32);
    assert_eq!(s0, s0b);
    assert_ne!(s0, s1);
    assert_ne!(s0, base.to_vec());
}

#[test]
fn every_draw_is_below_threshold() {
    assert!(below_threshold(0));
    assert!(below_threshold(1 << 63));
    assert!(below_threshold(u64::MAX));
}

#[test]
fn noise_of_draws_counts_less_range() {
    assert_eq!(noise_of_draws(&vec![0, 1, 2, 3, 4]), 3);
    assert_eq!(noise_of_draws(&vec![u64::MAX; 5]), 2 * L + 1 - L);
}

#[test]
fn noise_entries_stay_in_sampler_range() {
    let frodo = Frodo::default();
    for nonce in 0..20u64 {
        let v = frodo.sample_gaussian(&[9u8; 32], nonce);
        assert!(-L <= v && v <= L + 1);
        // The threshold exceeds 1, so every draw counts.
        assert_eq!(v, L + 1);
    }
}

#[test]
fn noise_matrix_shape_and_values() {
    let frodo = Frodo::default();
    let m = frodo.generate_noise(3, 4, &[5u8; 32], 100);
    assert_eq!(m.nrows_exec(), 3);
    assert_eq!(m.ncols_exec(), 4);
    for i in 0..3 {
        for j in 0..4 {
            assert_eq!(m.get(i, j), frodo.sample_gaussian(&[5u8; 32], 100 + (i * 4 + j) as u64));
        }
    }
}
