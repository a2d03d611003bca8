use ring_arith::modular::{
    add_mod, bounded_coefficient, cpp_eltwise_mult_mod, cpp_multiply_mod, eltwise_add_mod, eltwise_sub_mod, sub_mod,
};
use ring_arith::transform::{RingOps, NTT};

#[test]
fn test_multiply_mod() {
    let a: u64 = 12345;
    let b: u64 = 67890;
    let modulus: u64 = 1000000007;
    let result = cpp_multiply_mod(a, b, modulus);
    assert_eq!(result, 838102050);
}

#[test]
fn test_eltwise_mult_mod() {
    let a: Vec<u64> = vec![1, 2, 3, 4, 5];
    let b: Vec<u64> = vec![6, 7, 8, 9, 10];
    let modulus: u64 = 100;
    let mut result: Vec<u64> = vec![0; a.len()];

    cpp_eltwise_mult_mod(&mut result, &a, &b, modulus);

    assert_eq!(result, vec![6, 14, 24, 36, 50]);
}

#[test]
fn scalar_modular_operations() {
    assert_eq!(add_mod(u64::MAX, u64::MAX, 1_000_000_007), ((u64::MAX as u128 * 2) % 1_000_000_007) as u64);
    assert_eq!(sub_mod(3, 5, 17), 15);
    assert_eq!(sub_mod(5, 3, 17), 2);
    assert_eq!(cpp_multiply_mod(u64::MAX, u64::MAX, 97), ((u64::MAX as u128 * u64::MAX as u128) % 97) as u64);
}

#[test]
fn elementwise_add_and_sub() {
    let a = vec![1u64, 16, 0];
    let b = vec![16u64, 16, 5];
    let mut r = vec![0u64; 3];
    eltwise_add_mod(&mut r, &a, &b, 17);
    assert_eq!(r, vec![0, 15, 5]);
    eltwise_sub_mod(&mut r, &a, &b, 17);
    assert_eq!(r, vec![2, 0, 12]);
}

#[test]
fn transform_engine_round_trip() {
    const Q: u64 = 65537;
    let ctx = NTT::<Q, 32>::new();
    assert!(ctx.supports_ntt());
    let original: Vec<u64> = (0..32u64).map(|i| (i * 977 + 13) % Q).collect();
    let mut v = original.clone();
    ctx.fwd(&mut v);
    assert_ne!(v, original);
    ctx.inv(&mut v);
    assert_eq!(v, original);
    let half: Vec<u64> = original[..16].to_vec();
    let mut h = half.clone();
    ctx.fwd_half(&mut h);
    assert_ne!(h, half);
    ctx.inv_half(&mut h);
    assert_eq!(h, half);
}

#[test]
fn transform_engine_availability() {
    assert!(!NTT::<17, 4>::new().supports_ntt());
    assert!(!NTT::<1, 32>::new().supports_ntt());
    assert!(!NTT::<65536, 32>::new().supports_ntt());
    let ctx = NTT::<65537, 32>::new();
    assert!(ctx.supports_incomplete_ntt());
    let twist = ctx.get_shift_factors_cached();
    assert_eq!(twist.len(), 16);
    assert_ne!(twist, &{
        let mut x = vec![0u64; 16];
        x[1] = 1;
        x
    });
}

#[test]
fn transform_engine_multiply() {
    const Q: u64 = 65537;
    let ctx = NTT::<Q, 32>::new();
    let left: Vec<u64> = (0..32u64).map(|i| i + 60000).collect();
    let right: Vec<u64> = (0..32u64).map(|i| 2 * i + 1).collect();
    let mut result = vec![0u64; 32];
    ctx.multiply(&mut result, &left, &right);
    for i in 0..32 {
        assert_eq!(result[i], left[i] * right[i] % Q);
    }
}

#[test]
fn bounded_coefficient_sign() {
    assert_eq!(bounded_coefficient(3, false, 17), 3);
    assert_eq!(bounded_coefficient(3, true, 17), 14);
    assert_eq!(bounded_coefficient(0, true, 17), 0);
    assert_eq!(bounded_coefficient(20, false, 17), 3);
    assert_eq!(bounded_coefficient(20, true, 17), 14);
}

#[test]
fn transform_engine_built_for_friendly_parameters() {
    // 65537 is prime and 65536 is a multiple of 2 * 64 and of 2 * 32
    let ctx = NTT::<65537, 64>::new();
    assert!(ctx.supports_ntt());
    assert!(ctx.supports_incomplete_ntt());
    // 97 is prime but 96 is no multiple of 64
    assert!(!NTT::<97, 32>::new().supports_ntt());
}

#[test]
fn no_plan_for_moduli_between_two_pow_50_and_two_pow_51() {
    // 1125899906842817 = 2^50 + 193 is a prime with 64 dividing q - 1
    assert!(!NTT::<1125899906842817, 32>::new().supports_ntt());
    assert!(!NTT::<1125899906842817, 32>::new().supports_incomplete_ntt());
}
