//! Laws that tie the ring operations together.

use vstd::prelude::*;
use crate::cyclotomic_ring::{conjugate_coeffs, CyclotomicRing, Representation};
use crate::modular::{negacyclic_product, reduced, seq_mul_mod};

verus! {

/// An element in coefficient form represents exactly its own coefficients.
pub proof fn lemma_coefficient_form<const MOD_Q: u64, const N: usize>(
    a: CyclotomicRing<MOD_Q, N>,
    x: Seq<u64>,
)
    requires
        a.wf(),
        a.representation == Representation::Coefficient,
    ensures
        a.represents(a.data@),
        a.represents(x) <==> x == a.data@,
{
}

/// Round trip: bringing an element in coefficient form into any
/// representation `r` and back into coefficient form restores its
/// coefficients exactly.
pub proof fn lemma_round_trip<const MOD_Q: u64, const N: usize>(
    a: CyclotomicRing<MOD_Q, N>,
    b: CyclotomicRing<MOD_Q, N>,
    c: CyclotomicRing<MOD_Q, N>,
    r: Representation,
)
    requires
        a.wf(),
        a.representation == Representation::Coefficient,
        CyclotomicRing::adjusted(a, r, b),
        CyclotomicRing::adjusted(b, Representation::Coefficient, c),
    ensures
        c.representation == Representation::Coefficient,
        c.data@ == a.data@,
{
    lemma_coefficient_form(a, a.data@);
    assert(b.represents(a.data@));
    assert(c.represents(a.data@));
}

/// Idempotence: converting into the representation an element already has
/// leaves buffer and tag as they are, so converting twice is converting once.
pub proof fn lemma_adjust_idempotent<const MOD_Q: u64, const N: usize>(
    a: CyclotomicRing<MOD_Q, N>,
    b: CyclotomicRing<MOD_Q, N>,
    c: CyclotomicRing<MOD_Q, N>,
    r: Representation,
)
    requires
        CyclotomicRing::adjusted(a, r, b),
        CyclotomicRing::adjusted(b, r, c),
    ensures
        c == b,
        c.data@ == b.data@,
        c.representation == r,
{
}

/// Conjugation is an involution on polynomials with coefficients in `[0, q)`.
pub proof fn lemma_conjugate_involution_coeffs(x: Seq<u64>, q: u64)
    requires
        reduced(x, q),
    ensures
        conjugate_coeffs(conjugate_coeffs(x, q), q) == x,
{
    let c = conjugate_coeffs(x, q);
    let n = x.len() as int;
    assert forall|i: int| 0 <= i < n implies #[trigger] conjugate_coeffs(c, q)[i] == x[i] by {
        if i > 0 {
            assert(c[n - i] == if x[i] == 0 { 0u64 } else { (q - x[i]) as u64 });
        }
    }
    assert(conjugate_coeffs(c, q) =~= x);
}

/// Conjugating an element twice gives back the same polynomial, in the same
/// representation; in coefficient form, the very same coefficients.
pub proof fn lemma_conjugate_involution<const MOD_Q: u64, const N: usize>(
    a: CyclotomicRing<MOD_Q, N>,
    b: CyclotomicRing<MOD_Q, N>,
    c: CyclotomicRing<MOD_Q, N>,
)
    requires
        a.wf(),
        CyclotomicRing::conjugated(a, b),
        CyclotomicRing::conjugated(b, c),
    ensures
        c.representation == a.representation,
        forall|x: Seq<u64>| a.represents(x) ==> #[trigger] c.represents(x),
        a.representation == Representation::Coefficient ==> c.data@ == a.data@,
{
    assert forall|x: Seq<u64>| a.represents(x) implies #[trigger] c.represents(x) by {
        assert(b.represents(conjugate_coeffs(x, MOD_Q)));
        lemma_conjugate_involution_coeffs(x, MOD_Q);
        assert(c.represents(conjugate_coeffs(conjugate_coeffs(x, MOD_Q), MOD_Q)));
    }
    if a.representation == Representation::Coefficient {
        lemma_coefficient_form(a, a.data@);
        assert(c.represents(a.data@));
    }
}

/// The product through the full transform, brought back into coefficient
/// form, is the schoolbook (negacyclic) product: if `a0` and `b0` hold the
/// polynomials `x` and `y`, `a1` and `b1` are them in full transform form,
/// `r` is the element-wise product of `a1` and `b1` in full transform form,
/// and `c` is `r` brought into coefficient form, then `c` holds
/// `negacyclic_product(x, y)`, which is what `naive_multiply` returns for
/// `a0` and `b0`.
pub proof fn lemma_full_product_matches_schoolbook<const MOD_Q: u64, const N: usize>(
    a0: CyclotomicRing<MOD_Q, N>,
    b0: CyclotomicRing<MOD_Q, N>,
    a1: CyclotomicRing<MOD_Q, N>,
    b1: CyclotomicRing<MOD_Q, N>,
    r: CyclotomicRing<MOD_Q, N>,
    c: CyclotomicRing<MOD_Q, N>,
    x: Seq<u64>,
    y: Seq<u64>,
)
    requires
        a0.represents(x),
        b0.represents(y),
        CyclotomicRing::adjusted(a0, Representation::NTT, a1),
        CyclotomicRing::adjusted(b0, Representation::NTT, b1),
        r.representation == Representation::NTT,
        r.data@ == seq_mul_mod(a1.data@, b1.data@, MOD_Q),
        CyclotomicRing::adjusted(r, Representation::Coefficient, c),
        CyclotomicRing::decodes_products(r, c),
    ensures
        c.representation == Representation::Coefficient,
        c.data@ == negacyclic_product(x, y, MOD_Q),
{
    assert(a1.represents(x));
    assert(b1.represents(y));
}

} // verus!
