use ring_arith::cyclotomic_ring::{
    fully_splitting_ntt_multiplication, incomplete_ntt_multiplication, naive_multiply,
    CyclotomicRing, Representation,
};
use ring_arith::transform::NTT;

const Q: u64 = 65537;
const BIG_N: usize = 32;

fn element<const MOD_Q: u64, const N: usize>(values: [u64; N]) -> CyclotomicRing<MOD_Q, N> {
    let mut a = CyclotomicRing::<MOD_Q, N>::new();
    a.data = values;
    a
}

fn pattern(seed: u64) -> [u64; BIG_N] {
    let mut v = [0u64; BIG_N];
    for i in 0..BIG_N {
        v[i] = (seed * 7919 + (i as u64) * (i as u64) * 104729 + 3) % Q;
    }
    v
}

#[test]
fn test_addition_same_representation() {
    const MOD_Q: u64 = 17;
    const N: usize = 4;
    let ctx = NTT::<MOD_Q, N>::new();
    let mut a = CyclotomicRing::<MOD_Q, N>::new();
    let mut b = CyclotomicRing::<MOD_Q, N>::new();
    a.data = [1, 2, 3, 4];
    b.data = [4, 3, 2, 1];

    let c = a.add(&b, &ctx);

    assert_eq!(c.data, [5, 5, 5, 5]);
}

#[test]
fn test_subtraction_same_representation() {
    const MOD_Q: u64 = 17;
    const N: usize = 4;
    let ctx = NTT::<MOD_Q, N>::new();
    let mut a = CyclotomicRing::<MOD_Q, N>::new();
    let mut b = CyclotomicRing::<MOD_Q, N>::new();
    a.data = [5, 6, 7, 8];
    b.data = [4, 3, 2, 1];

    let c = a.sub(&b, &ctx);

    assert_eq!(c.data, [1, 3, 5, 7]);
}

#[test]
fn test_multiplication_same_representation() {
    const MOD_Q: u64 = 17;
    const N: usize = 4;
    let ctx = NTT::<MOD_Q, N>::new();
    let mut a = CyclotomicRing::<MOD_Q, N>::new();
    let mut b = CyclotomicRing::<MOD_Q, N>::new();
    a.data = [1, 2, 1, 0];
    b.data = [1, 1, 1, 0];

    let mut c = a.mul(&mut b, &ctx);
    c.to_coeff_representation(&ctx);

    assert_eq!(c.data, [0, 3, 4, 3]);
}

#[test]
fn test_multiply_poly() {
    const N: usize = 8;
    const MODULUS: u64 = 65537;
    let n = N;
    let modulus = MODULUS;
    let ctx = NTT::<MODULUS, N>::new();
    let mut operand1 = element::<MODULUS, N>([1, 2, 3, 1, 0, 0, 0, 0]);
    let mut operand2 = element::<MODULUS, N>([8, 7, 6, 1, 0, 0, 0, 0]);

    let mut expected_result = vec![0u64; n];
    for i in 0..n / 2 {
        for j in 0..n / 2 {
            expected_result[i + j] =
                (expected_result[i + j] + operand1.data[i] * operand2.data[j]) % modulus;
        }
    }

    let result = naive_multiply(&mut operand1, &mut operand2, &ctx);

    assert_eq!(result.data.to_vec(), expected_result);
}

#[test]
fn concrete_product_through_split_transform() {
    let ctx = NTT::<Q, BIG_N>::new();
    assert!(ctx.supports_incomplete_ntt());
    let mut av = [0u64; BIG_N];
    let mut bv = [0u64; BIG_N];
    av[..3].copy_from_slice(&[1, 2, 1]);
    bv[..3].copy_from_slice(&[1, 1, 1]);
    let mut a = element::<Q, BIG_N>(av);
    let mut b = element::<Q, BIG_N>(bv);
    let mut c = a.mul(&mut b, &ctx);
    assert_eq!(c.representation, Representation::IncompleteNTT);
    c.to_coeff_representation(&ctx);
    let mut expected = [0u64; BIG_N];
    expected[..5].copy_from_slice(&[1, 3, 4, 3, 1]);
    assert_eq!(c.data, expected);
}

#[test]
fn naive_equals_full_transform_product() {
    let ctx = NTT::<Q, BIG_N>::new();
    assert!(ctx.supports_ntt());
    for seed in 0..4u64 {
        let mut a = element::<Q, BIG_N>(pattern(seed));
        let mut b = element::<Q, BIG_N>(pattern(seed + 11));
        let expected = naive_multiply(&mut a, &mut b, &ctx);
        let mut c = fully_splitting_ntt_multiplication(&mut a, &mut b, &ctx);
        assert_eq!(c.representation, Representation::NTT);
        c.to_coeff_representation(&ctx);
        assert_eq!(c.data, expected.data);
    }
}

#[test]
fn naive_equals_split_transform_product() {
    let ctx = NTT::<Q, BIG_N>::new();
    for seed in 0..4u64 {
        let mut a = element::<Q, BIG_N>(pattern(seed));
        let mut b = element::<Q, BIG_N>(pattern(3 * seed + 5));
        let expected = naive_multiply(&mut a, &mut b, &ctx);
        let mut c = incomplete_ntt_multiplication(&mut a, &mut b, true, &ctx);
        c.to_coeff_representation(&ctx);
        assert_eq!(c.data, expected.data);
    }
}

#[test]
fn random_operands_agree_across_algorithms() {
    let ctx = NTT::<Q, BIG_N>::new();
    let mut a = CyclotomicRing::<Q, BIG_N>::random();
    let mut b = CyclotomicRing::<Q, BIG_N>::random();
    let expected = naive_multiply(&mut a, &mut b, &ctx);
    let mut full = fully_splitting_ntt_multiplication(&mut a, &mut b, &ctx);
    full.to_coeff_representation(&ctx);
    let mut split = incomplete_ntt_multiplication(&mut a, &mut b, true, &ctx);
    split.to_coeff_representation(&ctx);
    assert_eq!(full.data, expected.data);
    assert_eq!(split.data, expected.data);
}

#[test]
fn round_trip_restores_coefficients() {
    let ctx = NTT::<Q, BIG_N>::new();
    for r in [Representation::Coefficient, Representation::NTT, Representation::IncompleteNTT] {
        let original = pattern(9);
        let mut a = element::<Q, BIG_N>(original);
        a.adjust_representation(r, &ctx);
        assert_eq!(a.representation, r);
        if r != Representation::Coefficient {
            assert_ne!(a.data, original);
        }
        a.adjust_representation(Representation::Coefficient, &ctx);
        assert_eq!(a.data, original);
        assert_eq!(a.representation, Representation::Coefficient);
    }
}

#[test]
fn converting_twice_is_converting_once() {
    let ctx = NTT::<Q, BIG_N>::new();
    for r in [Representation::Coefficient, Representation::NTT, Representation::IncompleteNTT] {
        let mut a = element::<Q, BIG_N>(pattern(4));
        a.adjust_representation(r, &ctx);
        let once = a.data;
        a.adjust_representation(r, &ctx);
        assert_eq!(a.data, once);
        assert_eq!(a.representation, r);
    }
}

#[test]
fn split_and_full_forms_convert_through_coefficients() {
    let ctx = NTT::<Q, BIG_N>::new();
    let original = pattern(2);
    let mut a = element::<Q, BIG_N>(original);
    a.to_ntt_representation(&ctx);
    let full = a.data;
    a.to_incomplete_ntt_representation(&ctx);
    assert_eq!(a.representation, Representation::IncompleteNTT);
    a.to_ntt_representation(&ctx);
    assert_eq!(a.data, full);
    a.to_coeff_representation(&ctx);
    assert_eq!(a.data, original);
}

#[test]
fn conjugate_twice_is_identity() {
    let ctx = NTT::<Q, BIG_N>::new();
    for r in [Representation::Coefficient, Representation::NTT, Representation::IncompleteNTT] {
        let mut a = element::<Q, BIG_N>(pattern(6));
        a.data[5] = 0;
        a.adjust_representation(r, &ctx);
        let twice = a.conjugate(&ctx).conjugate(&ctx);
        assert_eq!(twice.representation, r);
        assert_eq!(twice.data, a.data);
    }
}

#[test]
fn conjugate_small_example() {
    const MOD_Q: u64 = 17;
    let ctx = NTT::<MOD_Q, 4>::new();
    let a = element::<MOD_Q, 4>([3, 0, 5, 1]);
    let c = a.conjugate(&ctx);
    assert_eq!(c.data, [3, 16, 12, 0]);
    assert_eq!(c.representation, Representation::Coefficient);
}

#[test]
fn add_and_sub_in_transform_form_match_coefficients() {
    let ctx = NTT::<Q, BIG_N>::new();
    let pa = pattern(1);
    let pb = pattern(8);
    let mut a = element::<Q, BIG_N>(pa);
    let mut b = element::<Q, BIG_N>(pb);
    b.to_ntt_representation(&ctx);
    let mut sum = a.add(&b, &ctx);
    assert_eq!(a.representation, Representation::NTT);
    assert_eq!(sum.representation, Representation::NTT);
    sum.to_coeff_representation(&ctx);
    let mut a2 = element::<Q, BIG_N>(pa);
    let mut diff = a2.sub(&b, &ctx);
    diff.to_coeff_representation(&ctx);
    for i in 0..BIG_N {
        assert_eq!(sum.data[i], (pa[i] + pb[i]) % Q);
        assert_eq!(diff.data[i], (pa[i] + Q - pb[i]) % Q);
    }
}

#[test]
fn negacyclic_wraparound_schoolbook() {
    const MOD_Q: u64 = 1_000_003;
    let ctx = NTT::<MOD_Q, 4>::new();
    let mut x3 = element::<MOD_Q, 4>([0, 0, 0, 1]);
    let mut x = element::<MOD_Q, 4>([0, 1, 0, 0]);
    let c = naive_multiply(&mut x3, &mut x, &ctx);
    assert_eq!(c.data, [MOD_Q - 1, 0, 0, 0]);
}

#[test]
fn negacyclic_wraparound_through_transforms() {
    let ctx = NTT::<Q, BIG_N>::new();
    let mut top = [0u64; BIG_N];
    top[BIG_N - 1] = 1;
    let mut x = [0u64; BIG_N];
    x[1] = 1;
    let mut expected = [0u64; BIG_N];
    expected[0] = Q - 1;
    let mut a = element::<Q, BIG_N>(top);
    let mut b = element::<Q, BIG_N>(x);
    let mut full = fully_splitting_ntt_multiplication(&mut a, &mut b, &ctx);
    full.to_coeff_representation(&ctx);
    assert_eq!(full.data, expected);
    let mut split = incomplete_ntt_multiplication(&mut a, &mut b, true, &ctx);
    split.to_coeff_representation(&ctx);
    assert_eq!(split.data, expected);
}

#[test]
fn split_product_without_twist_differs() {
    let ctx = NTT::<Q, BIG_N>::new();
    let mut top = [0u64; BIG_N];
    top[BIG_N - 1] = 1;
    let mut x = [0u64; BIG_N];
    x[1] = 1;
    let mut a = element::<Q, BIG_N>(top);
    let mut b = element::<Q, BIG_N>(x);
    let expected = naive_multiply(&mut a, &mut b, &ctx);
    let mut plain = incomplete_ntt_multiplication(&mut a, &mut b, false, &ctx);
    plain.to_coeff_representation(&ctx);
    assert_ne!(plain.data, expected.data);
}

#[test]
fn mul_falls_back_to_schoolbook_without_split_transform() {
    const MOD_Q: u64 = 17;
    let ctx = NTT::<MOD_Q, 4>::new();
    assert!(!ctx.supports_incomplete_ntt());
    let mut a = element::<MOD_Q, 4>([0, 0, 0, 1]);
    let mut b = element::<MOD_Q, 4>([0, 1, 0, 0]);
    let c = a.mul(&mut b, &ctx);
    assert_eq!(c.representation, Representation::Coefficient);
    assert_eq!(c.data, [16, 0, 0, 0]);
}

#[test]
fn constructors() {
    let z = CyclotomicRing::<17, 4>::new();
    assert_eq!(z.data, [0, 0, 0, 0]);
    assert_eq!(z.representation, Representation::Coefficient);
    assert_eq!(CyclotomicRing::<17, 4>::one().data, [1, 0, 0, 0]);
    assert_eq!(CyclotomicRing::<17, 4>::constant(9).data, [9, 0, 0, 0]);
}

#[test]
fn one_is_multiplicative_identity() {
    let ctx = NTT::<Q, BIG_N>::new();
    let original = pattern(5);
    let mut a = element::<Q, BIG_N>(original);
    let mut one = CyclotomicRing::<Q, BIG_N>::one();
    let mut c = a.mul(&mut one, &ctx);
    c.to_coeff_representation(&ctx);
    assert_eq!(c.data, original);
}

#[test]
fn random_elements_are_reduced() {
    let a = CyclotomicRing::<17, 64>::random();
    assert_eq!(a.representation, Representation::Coefficient);
    assert!(a.data.iter().all(|&v| v < 17));
    let b = CyclotomicRing::<1_000_003, 64>::random_bounded(3);
    for &v in b.data.iter() {
        assert!(v < 3 || v > 1_000_003 - 3);
    }
}

#[test]
fn random_real_is_fixed_by_conjugation() {
    let ctx = NTT::<Q, BIG_N>::new();
    let r = CyclotomicRing::<Q, BIG_N>::random_real();
    assert!(r.data.iter().all(|&v| v < Q));
    assert_eq!(r.conjugate(&ctx).data, r.data);
}
