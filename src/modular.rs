//! Modular arithmetic on single residues and on equal-length buffers.

use vstd::prelude::*;

verus! {

/// `(a + b) mod q`, element by element.
pub open spec fn seq_add_mod(a: Seq<u64>, b: Seq<u64>, q: u64) -> Seq<u64> {
    Seq::new(a.len(), |i: int| ((a[i] as int + b[i] as int) % (q as int)) as u64)
}

/// `(a - b) mod q`, element by element, always in `[0, q)`.
pub open spec fn seq_sub_mod(a: Seq<u64>, b: Seq<u64>, q: u64) -> Seq<u64> {
    Seq::new(a.len(), |i: int| ((a[i] as int - b[i] as int) % (q as int)) as u64)
}

/// `(a * b) mod q`, element by element.
pub open spec fn seq_mul_mod(a: Seq<u64>, b: Seq<u64>, q: u64) -> Seq<u64> {
    Seq::new(a.len(), |i: int| ((a[i] as int * b[i] as int) % (q as int)) as u64)
}

/// Every entry lies in `[0, q)`.
pub open spec fn reduced(s: Seq<u64>, q: u64) -> bool {
    forall|i: int| 0 <= i < s.len() ==> #[trigger] s[i] < q
}

/// The contribution of `a[i] * b[j]` to coefficient `k` of the negacyclic
/// product: the product itself where `i + j == k`, its negation where
/// `i + j == k + N` (as `X^N = -1`), and nothing otherwise.
pub open spec fn wrap_term(a: Seq<u64>, b: Seq<u64>, i: int, j: int, k: int) -> int {
    if i + j == k {
        a[i] as int * b[j] as int
    } else if i + j == k + a.len() {
        -(a[i] as int * b[j] as int)
    } else {
        0
    }
}

/// The contributions to coefficient `k` of `a[i] * b[j]` for `j < m`.
pub open spec fn row_sum(a: Seq<u64>, b: Seq<u64>, i: int, m: int, k: int) -> int
    decreases m,
{
    if m <= 0 {
        0
    } else {
        row_sum(a, b, i, m - 1, k) + wrap_term(a, b, i, m - 1, k)
    }
}

/// The contributions to coefficient `k` of `a[i] * b[j]` for `i < m` and
/// every `j`.
pub open spec fn rows_sum(a: Seq<u64>, b: Seq<u64>, m: int, k: int) -> int
    decreases m,
{
    if m <= 0 {
        0
    } else {
        rows_sum(a, b, m - 1, k) + row_sum(a, b, m - 1, b.len() as int, k)
    }
}

/// The product of the polynomials `a` and `b` in Z_q[X]/(X^N + 1), as
/// coefficients in `[0, q)`.
pub open spec fn negacyclic_product(a: Seq<u64>, b: Seq<u64>, q: u64) -> Seq<u64> {
    Seq::new(a.len(), |k: int| (rows_sum(a, b, a.len() as int, k) % (q as int)) as u64)
}

/// The product `a * b` reduced modulo `modulus`.
pub fn cpp_multiply_mod(a: u64, b: u64, modulus: u64) -> (r: u64)
    requires
        modulus > 0,
    ensures
        r as int == (a as int * b as int) % (modulus as int),
{
    proof {
        vstd::arithmetic::mul::lemma_mul_upper_bound(a as int, u64::MAX as int, b as int, u64::MAX as int);
        assert(u64::MAX as int * u64::MAX as int <= u128::MAX) by (nonlinear_arith);
    }
    let p: u128 = a as u128 * b as u128;
    (p % modulus as u128) as u64
}

/// The sum `a + b` reduced modulo `modulus`.
pub fn add_mod(a: u64, b: u64, modulus: u64) -> (r: u64)
    requires
        modulus > 0,
    ensures
        r as int == (a as int + b as int) % (modulus as int),
{
    let s: u128 = a as u128 + b as u128;
    (s % modulus as u128) as u64
}

/// The difference `a - b` taken modulo `modulus`, in `[0, modulus)`.
pub fn sub_mod(a: u64, b: u64, modulus: u64) -> (r: u64)
    requires
        modulus > 0,
    ensures
        r as int == (a as int - b as int) % (modulus as int),
{
    let x: u64 = a % modulus;
    let y: u64 = b % modulus;
    let s: u128 = x as u128 + modulus as u128 - y as u128;
    proof {
        let (ai, bi, m) = (a as int, b as int, modulus as int);
        vstd::arithmetic::div_mod::lemma_sub_mod_noop(ai, bi, m);
        vstd::arithmetic::div_mod::lemma_mod_add_multiples_vanish((ai % m) - (bi % m), m);
    }
    (s % modulus as u128) as u64
}

/// A small coefficient from a magnitude `v` and a sign: `-v` modulo `modulus`
/// where `negate` holds, `v` modulo `modulus` otherwise.
pub fn bounded_coefficient(v: u64, negate: bool, modulus: u64) -> (c: u64)
    requires
        modulus > 0,
    ensures
        c as int == if negate {
            (-(v as int)) % (modulus as int)
        } else {
            (v as int) % (modulus as int)
        },
{
    if negate {
        sub_mod(0, v, modulus)
    } else {
        v % modulus
    }
}

/// Writes `(a[i] * b[i]) mod modulus` into `result[i]` for every index.
pub fn cpp_eltwise_mult_mod(result: &mut [u64], a: &[u64], b: &[u64], modulus: u64)
    requires
        modulus > 0,
        old(result)@.len() == a@.len(),
        a@.len() == b@.len(),
    ensures
        final(result)@ == seq_mul_mod(a@, b@, modulus),
{
    let n = a.len();
    let mut i: usize = 0;
    while i < n
        invariant
            modulus > 0,
            n == a@.len(),
            a@.len() == b@.len(),
            result@.len() == n,
            0 <= i <= n,
            forall|k: int| 0 <= k < i ==> #[trigger] result@[k] == seq_mul_mod(a@, b@, modulus)[k],
        decreases n - i,
    {
        result[i] = cpp_multiply_mod(a[i], b[i], modulus);
        i += 1;
    }
    assert(result@ =~= seq_mul_mod(a@, b@, modulus));
}

/// Writes `(a[i] + b[i]) mod modulus` into `result[i]` for every index.
pub fn eltwise_add_mod(result: &mut [u64], a: &[u64], b: &[u64], modulus: u64)
    requires
        modulus > 0,
        old(result)@.len() == a@.len(),
        a@.len() == b@.len(),
    ensures
        final(result)@ == seq_add_mod(a@, b@, modulus),
{
    let n = a.len();
    let mut i: usize = 0;
    while i < n
        invariant
            modulus > 0,
            n == a@.len(),
            a@.len() == b@.len(),
            result@.len() == n,
            0 <= i <= n,
            forall|k: int| 0 <= k < i ==> #[trigger] result@[k] == seq_add_mod(a@, b@, modulus)[k],
        decreases n - i,
    {
        result[i] = add_mod(a[i], b[i], modulus);
        i += 1;
    }
    assert(result@ =~= seq_add_mod(a@, b@, modulus));
}

/// Writes `(a[i] - b[i]) mod modulus` into `result[i]` for every index.
pub fn eltwise_sub_mod(result: &mut [u64], a: &[u64], b: &[u64], modulus: u64)
    requires
        modulus > 0,
        old(result)@.len() == a@.len(),
        a@.len() == b@.len(),
    ensures
        final(result)@ == seq_sub_mod(a@, b@, modulus),
{
    let n = a.len();
    let mut i: usize = 0;
    while i < n
        invariant
            modulus > 0,
            n == a@.len(),
            a@.len() == b@.len(),
            result@.len() == n,
            0 <= i <= n,
            forall|k: int| 0 <= k < i ==> #[trigger] result@[k] == seq_sub_mod(a@, b@, modulus)[k],
        decreases n - i,
    {
        result[i] = sub_mod(a[i], b[i], modulus);
        i += 1;
    }
    assert(result@ =~= seq_sub_mod(a@, b@, modulus));
}

} // verus!
