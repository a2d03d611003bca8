//! The transform engine: negacyclic number-theoretic transforms of a fixed size
//! and modulus, built once and shared by every ring operation that needs them.

use vstd::prelude::*;
use crate::modular::{cpp_eltwise_mult_mod, negacyclic_product, reduced, seq_mul_mod};
use vstd::arithmetic::power2::pow2;
use tfhe_ntt::prime64::Plan;

verus! {

#[verifier::external_type_specification]
#[verifier::external_body]
pub struct ExPlan(tfhe_ntt::prime64::Plan);

/// The forward negacyclic transform modulo `q` of the values `s`, in the
/// order in which the transform engine lays out its output.
pub uninterp spec fn ntt_forward(q: u64, s: Seq<u64>) -> Seq<u64>;

/// `q` is a prime.
pub open spec fn is_prime(q: nat) -> bool {
    q > 1 && forall|d: nat| 1 < d < q ==> #[trigger] (q % d) != 0
}

/// `n` is a power of two.
pub open spec fn is_pow2(n: nat) -> bool {
    exists|k: nat| #[trigger] pow2(k) == n
}

/// The modulus lies outside `[2^50, 2^51)`. For a modulus in that range, on a
/// CPU with AVX-512 IFMA, tfhe-ntt may build a plan with 64-bit twiddle tables
/// while its forward and inverse transforms run the 52-bit kernel, which then
/// does not compute the transform; no plan is built for such a modulus.
pub open spec fn kernel_safe_modulus(q: u64) -> bool {
    q < 0x4_0000_0000_0000 || q >= 0x8_0000_0000_0000
}

/// A negacyclic transform of size `n` modulo `q` exists and is built: `n` is a power of
/// two of at least 16, `q` is prime, and `2n` divides `q - 1` (so that a
/// primitive `2n`-th root of unity exists).
pub open spec fn transform_friendly(q: u64, n: nat) -> bool {
    &&& n >= 16
    &&& is_pow2(n)
    &&& is_prime(q as nat)
    &&& (q - 1) % (2 * n as int) == 0
    &&& kernel_safe_modulus(q)
}

/// `x` with every entry multiplied by `n`, modulo `q`.
pub open spec fn scaled(x: Seq<u64>, n: nat, q: u64) -> Seq<u64> {
    Seq::new(x.len(), |i: int| ((x[i] as int * n) % (q as int)) as u64)
}

/// The sequence of length `m` that is zero but for a one at index 1: the
/// polynomial `X`.
pub open spec fn monomial_x(m: nat) -> Seq<u64> {
    Seq::new(m, |i: int| if i == 1 { 1u64 } else { 0u64 })
}

/// The twist factors of the split multiplication for degree `n`: the transform
/// of `X` in the ring of half the degree.
pub open spec fn twist_factors(q: u64, n: nat) -> Seq<u64> {
    ntt_forward(q, monomial_x(n / 2))
}

/// A transform plan together with the size and modulus it was built for;
/// only `plan_try_new` makes one.
struct TransformPlan {
    plan: Plan,
    size: usize,
    modulus: u64,
}

/// Relies on tfhe_ntt::prime64::Plan::try_new: it returns `None` exactly when
/// the size is below 16 or not a power of two, the modulus is not prime, or no
/// primitive `2 * size`-th root of unity exists modulo it; such a root exists
/// for a prime modulus `q` with `2 * size` dividing `q - 1`. It panics on a
/// modulus below 2 and computes `2 * size`. The plan is kept with the size and
/// modulus it was built for.
#[verifier::external_body]
fn plan_try_new(size: usize, modulus: u64) -> (r: Option<TransformPlan>)
    requires
        modulus > 1,
        size <= u64::MAX / 2,
    ensures
        r matches Some(p) ==> p.size == size && p.modulus == modulus,
        r is Some ==> size >= 16 && is_pow2(size as nat) && is_prime(modulus as nat),
        transform_friendly(modulus, size as nat) ==> r is Some,
{
    match Plan::try_new(size, modulus) {
        Some(plan) => Some(TransformPlan { plan, size, modulus }),
        None => None,
    }
}

/// Relies on tfhe_ntt::prime64::Plan::fwd: the forward transform in place,
/// determined by the modulus and the input, with every output reduced below
/// the modulus; it panics on a buffer of another length than the plan's.
#[verifier::external_body]
fn plan_fwd(p: &TransformPlan, buf: &mut Vec<u64>)
    requires
        kernel_safe_modulus(p.modulus),
        old(buf)@.len() == p.size,
        reduced(old(buf)@, p.modulus),
    ensures
        final(buf)@ == ntt_forward(p.modulus, old(buf)@),
        final(buf)@.len() == old(buf)@.len(),
        reduced(final(buf)@, p.modulus),
{
    p.plan.fwd(buf.as_mut_slice())
}

/// Relies on tfhe_ntt::prime64::Plan::inv: the inverse transform in place,
/// with every output reduced below the modulus. Applied to the forward
/// transform of `x` it yields `x` multiplied by the size, as the crate's own
/// example shows; applied to the element-wise product of the forward
/// transforms of `a` and `b` it yields their negacyclic product multiplied by
/// the size, as the crate's product test shows.
#[verifier::external_body]
fn plan_inv(p: &TransformPlan, buf: &mut Vec<u64>)
    requires
        kernel_safe_modulus(p.modulus),
        old(buf)@.len() == p.size,
        reduced(old(buf)@, p.modulus),
    ensures
        final(buf)@.len() == old(buf)@.len(),
        reduced(final(buf)@, p.modulus),
        forall|x: Seq<u64>|
            x.len() == p.size && reduced(x, p.modulus) && old(buf)@ == #[trigger] ntt_forward(
                p.modulus,
                x,
            ) ==> final(buf)@ == scaled(x, p.size as nat, p.modulus),
        forall|a: Seq<u64>, b: Seq<u64>|
            a.len() == p.size && b.len() == p.size && reduced(a, p.modulus) && reduced(b, p.modulus)
                && old(buf)@ == #[trigger] seq_mul_mod(
                ntt_forward(p.modulus, a),
                ntt_forward(p.modulus, b),
                p.modulus,
            ) ==> final(buf)@ == scaled(negacyclic_product(a, b, p.modulus), p.size as nat, p.modulus),
{
    p.plan.inv(buf.as_mut_slice())
}

/// Relies on tfhe_ntt::prime64::Plan::normalize: multiplies every value by the
/// inverse of the size modulo the (prime) modulus, reducing below it.
#[verifier::external_body]
fn plan_normalize(p: &TransformPlan, buf: &mut Vec<u64>)
    requires
        old(buf)@.len() == p.size,
    ensures
        final(buf)@.len() == old(buf)@.len(),
        reduced(final(buf)@, p.modulus),
        forall|x: Seq<u64>|
            x.len() == p.size && reduced(x, p.modulus) && old(buf)@ == #[trigger] scaled(
                x,
                p.size as nat,
                p.modulus,
            ) ==> final(buf)@ == x,
{
    p.plan.normalize(buf.as_mut_slice())
}

impl TransformPlan {
    fn try_new(size: usize, modulus: u64) -> (r: Option<TransformPlan>)
        ensures
            r matches Some(p) ==> p.size == size && p.modulus == modulus && size >= 16 && modulus
                >= 2 && kernel_safe_modulus(modulus),
            transform_friendly(modulus, size as nat) && size <= u64::MAX / 2 ==> r is Some,
    {
        if modulus < 2 || size as u64 > u64::MAX / 2 || (0x4_0000_0000_0000 <= modulus && modulus
            < 0x8_0000_0000_0000) {
            return None;
        }
        plan_try_new(size, modulus)
    }

    fn forward(&self, buf: &mut Vec<u64>)
        requires
            kernel_safe_modulus(self.modulus),
            old(buf)@.len() == self.size,
            reduced(old(buf)@, self.modulus),
        ensures
            final(buf)@ == ntt_forward(self.modulus, old(buf)@),
            final(buf)@.len() == old(buf)@.len(),
            reduced(final(buf)@, self.modulus),
    {
        plan_fwd(self, buf);
    }

    /// The inverse transform followed by the division by the size.
    fn inverse(&self, buf: &mut Vec<u64>)
        requires
            kernel_safe_modulus(self.modulus),
            old(buf)@.len() == self.size,
            reduced(old(buf)@, self.modulus),
            self.modulus >= 2,
        ensures
            forall|a: Seq<u64>, b: Seq<u64>|
                a.len() == self.size && b.len() == self.size && reduced(a, self.modulus) && reduced(
                    b,
                    self.modulus,
                ) && old(buf)@ == #[trigger] seq_mul_mod(
                    ntt_forward(self.modulus, a),
                    ntt_forward(self.modulus, b),
                    self.modulus,
                ) ==> final(buf)@ == negacyclic_product(a, b, self.modulus),
            final(buf)@.len() == old(buf)@.len(),
            reduced(final(buf)@, self.modulus),
            forall|x: Seq<u64>|
                x.len() == self.size && reduced(x, self.modulus) && old(buf)@ == #[trigger] ntt_forward(
                    self.modulus,
                    x,
                ) ==> final(buf)@ == x,
    {
        let ghost before = buf@;
        plan_inv(self, buf);
        let ghost mid = buf@;
        plan_normalize(self, buf);
        assert forall|x: Seq<u64>|
            x.len() == self.size && reduced(x, self.modulus) && before == #[trigger] ntt_forward(
                self.modulus,
                x,
            ) implies buf@ == x by {
            assert(mid == scaled(x, self.size as nat, self.modulus));
        }
        assert forall|a: Seq<u64>, b: Seq<u64>|
            a.len() == self.size && b.len() == self.size && reduced(a, self.modulus) && reduced(
                b,
                self.modulus,
            ) && before == #[trigger] seq_mul_mod(
                ntt_forward(self.modulus, a),
                ntt_forward(self.modulus, b),
                self.modulus,
            ) implies buf@ == negacyclic_product(a, b, self.modulus) by {
            let x = negacyclic_product(a, b, self.modulus);
            assert(reduced(x, self.modulus));
            assert(mid == scaled(x, self.size as nat, self.modulus));
        }
    }
}

/// The transform engine of the ring Z_q[X]/(X^N + 1) with `q = MOD_Q`: a plan
/// for the full size `N`, a plan for the half size `N / 2` used by the split
/// representation, and the twist factors of the split multiplication. Either
/// plan is absent where no transform exists for its size and the modulus.
pub struct NTT<const MOD_Q: u64, const N: usize> {
    full: Option<TransformPlan>,
    half: Option<TransformPlan>,
    shift_factors: Vec<u64>,
}

impl<const MOD_Q: u64, const N: usize> NTT<MOD_Q, N> {
    /// The plans match the ring's size and modulus, and the twist factors are
    /// those of the ring wherever the half-size plan exists.
    pub closed spec fn wf(&self) -> bool {
        &&& (self.full matches Some(p) ==> p.size == N && p.modulus == MOD_Q && MOD_Q >= 2 && kernel_safe_modulus(MOD_Q) && N
            >= 16)
        &&& (self.half matches Some(p) ==> p.size * 2 == N && p.modulus == MOD_Q && MOD_Q >= 2 && kernel_safe_modulus(MOD_Q)
            && p.size >= 16 && self.shift_factors@ == twist_factors(MOD_Q, N as nat)
            && self.shift_factors@.len() == N / 2 && reduced(self.shift_factors@, MOD_Q))
    }

    /// Full-size transforms are available.
    pub closed spec fn has_full(&self) -> bool {
        self.full is Some
    }

    /// Half-size transforms, and with them the split representation, are available.
    pub closed spec fn has_split(&self) -> bool {
        self.half is Some
    }

    /// The split representation needs an even degree of at least 32.
    pub proof fn lemma_split_degree(&self)
        requires
            self.wf(),
            self.has_split(),
        ensures
            N % 2 == 0,
            N >= 32,
            MOD_Q >= 2,
    {
    }

    /// Full-size transforms need a modulus of at least 2.
    pub proof fn lemma_full_modulus(&self)
        requires
            self.wf(),
            self.has_full(),
        ensures
            MOD_Q >= 2,
    {
    }

    /// Builds the plans for the ring's size and half its size, and the twist
    /// factors wherever the half-size plan exists.
    pub fn new() -> (r: Self)
        ensures
            r.wf(),
            r.has_full() ==> N >= 16,
            r.has_split() ==> N >= 32 && N % 2 == 0,
            transform_friendly(MOD_Q, N as nat) && N <= u64::MAX / 2 ==> r.has_full(),
            N % 2 == 0 && transform_friendly(MOD_Q, (N / 2) as nat) && N <= u64::MAX / 2
                ==> r.has_split(),
    {
        let full = TransformPlan::try_new(N, MOD_Q);
        let half = if N % 2 == 0 {
            TransformPlan::try_new(N / 2, MOD_Q)
        } else {
            None
        };
        let shift_factors = match &half {
            Some(p) => get_shift_factors(p),
            None => Vec::new(),
        };
        NTT { full, half, shift_factors }
    }

    /// Whether full-size transforms are available.
    pub fn supports_ntt(&self) -> (b: bool)
        ensures
            b == self.has_full(),
    {
        self.full.is_some()
    }

    /// Whether the split representation is available.
    pub fn supports_incomplete_ntt(&self) -> (b: bool)
        ensures
            b == self.has_split(),
    {
        self.half.is_some()
    }

    /// The twist factors of the split multiplication, computed once when the
    /// engine was built.
    pub fn get_shift_factors_cached(&self) -> (r: &Vec<u64>)
        requires
            self.wf(),
            self.has_split(),
        ensures
            r@ == twist_factors(MOD_Q, N as nat),
            r@.len() == N / 2,
            reduced(r@, MOD_Q),
    {
        &self.shift_factors
    }

    /// Forward transform of a buffer of length `N / 2`.
    pub fn fwd_half(&self, data: &mut Vec<u64>)
        requires
            self.wf(),
            self.has_split(),
            old(data)@.len() == N / 2,
            reduced(old(data)@, MOD_Q),
        ensures
            final(data)@ == ntt_forward(MOD_Q, old(data)@),
            final(data)@.len() == N / 2,
            reduced(final(data)@, MOD_Q),
    {
        match &self.half {
            Some(p) => p.forward(data),
            None => {},
        }
    }

    /// Inverse transform of a buffer of length `N / 2`: it undoes `fwd_half`.
    pub fn inv_half(&self, data: &mut Vec<u64>)
        requires
            self.wf(),
            self.has_split(),
            old(data)@.len() == N / 2,
            reduced(old(data)@, MOD_Q),
        ensures
            final(data)@.len() == N / 2,
            reduced(final(data)@, MOD_Q),
            forall|x: Seq<u64>|
                x.len() == N / 2 && reduced(x, MOD_Q) && old(data)@ == #[trigger] ntt_forward(MOD_Q, x)
                    ==> final(data)@ == x,
    {
        match &self.half {
            Some(p) => p.inverse(data),
            None => {},
        }
    }
}

/// The transform backend of the ring Z_q[X]/(X^N + 1) with `q = MOD_Q`:
/// full-size forward and inverse transforms and the element-wise product of
/// transformed buffers.
pub trait RingOps<const MOD_Q: u64, const N: usize> {
    /// Full-size transforms are available.
    spec fn full_ready(&self) -> bool;

    /// Forward transform of a buffer of length `N`.
    fn fwd(&self, data: &mut Vec<u64>)
        requires
            self.full_ready(),
            old(data)@.len() == N,
            reduced(old(data)@, MOD_Q),
        ensures
            final(data)@ == ntt_forward(MOD_Q, old(data)@),
            final(data)@.len() == N,
            reduced(final(data)@, MOD_Q),
    ;

    /// Inverse transform of a buffer of length `N`: it undoes `fwd`, and on
    /// the element-wise product of two transforms it gives the negacyclic
    /// product of the two polynomials.
    fn inv(&self, data: &mut Vec<u64>)
        requires
            self.full_ready(),
            old(data)@.len() == N,
            reduced(old(data)@, MOD_Q),
        ensures
            final(data)@.len() == N,
            reduced(final(data)@, MOD_Q),
            forall|x: Seq<u64>|
                x.len() == N && reduced(x, MOD_Q) && old(data)@ == #[trigger] ntt_forward(MOD_Q, x)
                    ==> final(data)@ == x,
            forall|a: Seq<u64>, b: Seq<u64>|
                a.len() == N && b.len() == N && reduced(a, MOD_Q) && reduced(b, MOD_Q) && old(data)@
                    == #[trigger] seq_mul_mod(ntt_forward(MOD_Q, a), ntt_forward(MOD_Q, b), MOD_Q)
                    ==> final(data)@ == negacyclic_product(a, b, MOD_Q),
    ;

    /// The element-by-element product modulo `MOD_Q` of two buffers of length
    /// `N`: the product of two ring elements in full transform form.
    fn multiply(&self, result: &mut Vec<u64>, left: &Vec<u64>, right: &Vec<u64>)
        requires
            MOD_Q > 0,
            old(result)@.len() == N,
            left@.len() == N,
            right@.len() == N,
        ensures
            final(result)@ == seq_mul_mod(left@, right@, MOD_Q),
            final(result)@.len() == N,
            reduced(final(result)@, MOD_Q),
    ;
}

impl<const MOD_Q: u64, const N: usize> RingOps<MOD_Q, N> for NTT<MOD_Q, N> {
    open spec fn full_ready(&self) -> bool {
        self.wf() && self.has_full()
    }

    fn fwd(&self, data: &mut Vec<u64>) {
        match &self.full {
            Some(p) => p.forward(data),
            None => {},
        }
    }

    fn inv(&self, data: &mut Vec<u64>) {
        match &self.full {
            Some(p) => p.inverse(data),
            None => {},
        }
    }

    fn multiply(&self, result: &mut Vec<u64>, left: &Vec<u64>, right: &Vec<u64>) {
        cpp_eltwise_mult_mod(result.as_mut_slice(), left.as_slice(), right.as_slice(), MOD_Q);
    }
}

/// The twist factors for a ring of twice the plan's size: the transform of `X`.
fn get_shift_factors(p: &TransformPlan) -> (r: Vec<u64>)
    requires
        p.size >= 16,
        p.modulus >= 2,
        kernel_safe_modulus(p.modulus),
    ensures
        r@ == ntt_forward(p.modulus, monomial_x(p.size as nat)),
        r@.len() == p.size,
        reduced(r@, p.modulus),
{
    let mut factors: Vec<u64> = Vec::new();
    let mut i: usize = 0;
    while i < p.size
        invariant
            p.size >= 16,
            p.modulus >= 2,
            kernel_safe_modulus(p.modulus),
            0 <= i <= p.size,
            factors@ == monomial_x(i as nat),
        decreases p.size - i,
    {
        if i == 1 {
            factors.push(1);
        } else {
            factors.push(0);
        }
        i += 1;
        assert(factors@ =~= monomial_x(i as nat));
    }
    p.forward(&mut factors);
    factors
}

} // verus!
