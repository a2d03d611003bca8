//! Ring elements of Z_q[X]/(X^N + 1), their representations and the
//! multiplication algorithms built on them.

use vstd::prelude::*;
use crate::modular::{
    add_mod, bounded_coefficient, cpp_eltwise_mult_mod, cpp_multiply_mod, eltwise_add_mod,
    eltwise_sub_mod, negacyclic_product, reduced, row_sum, rows_sum, wrap_term,
    seq_add_mod, seq_mul_mod, seq_sub_mod, sub_mod,
};
use crate::transform::{ntt_forward, twist_factors, RingOps, NTT};

verus! {

/// The domain in which a ring element's buffer currently holds its values.
#[derive(Clone, Copy, Debug, PartialEq, Eq, Structural)]
pub enum Representation {
    /// The coefficients of the polynomial, in order.
    Coefficient,
    /// The full-size transform of the coefficients.
    NTT,
    /// The half-size transform of the even-indexed coefficients, followed by
    /// the half-size transform of the odd-indexed coefficients.
    IncompleteNTT,
}

/// An element of Z_q[X]/(X^N + 1) with `q = MOD_Q`: `N` values and the
/// representation they are held in.
#[derive(Clone, Copy, Debug, PartialEq)]
pub struct CyclotomicRing<const MOD_Q: u64, const N: usize> {
    pub data: [u64; N],
    pub representation: Representation,
}

/// The coefficients at even indices.
pub open spec fn evens(x: Seq<u64>) -> Seq<u64> {
    Seq::new(x.len() / 2, |i: int| x[2 * i])
}

/// The coefficients at odd indices.
pub open spec fn odds(x: Seq<u64>) -> Seq<u64> {
    Seq::new(x.len() / 2, |i: int| x[2 * i + 1])
}

/// Whether the transform engine can convert into and out of `r`.
pub open spec fn handles<const MOD_Q: u64, const N: usize>(
    ctx: &NTT<MOD_Q, N>,
    r: Representation,
) -> bool {
    match r {
        Representation::Coefficient => true,
        Representation::NTT => ctx.has_full(),
        Representation::IncompleteNTT => ctx.has_split(),
    }
}

/// The values `a[lo..hi]` in a new vector.
fn copy_range<const N: usize>(a: &[u64; N], lo: usize, hi: usize) -> (v: Vec<u64>)
    requires
        lo <= hi <= N,
    ensures
        v@ == a@.subrange(lo as int, hi as int),
{
    let mut v: Vec<u64> = Vec::new();
    let mut i: usize = lo;
    while i < hi
        invariant
            lo <= i <= hi <= N,
            a@.len() == N,
            v@ == a@.subrange(lo as int, i as int),
        decreases hi - i,
    {
        v.push(a[i]);
        i += 1;
        assert(v@ =~= a@.subrange(lo as int, i as int));
    }
    v
}

/// The even-indexed and the odd-indexed values of `a`, each in a new vector.
fn deinterleave<const N: usize>(a: &[u64; N]) -> (r: (Vec<u64>, Vec<u64>))
    ensures
        r.0@ == evens(a@),
        r.1@ == odds(a@),
{
    let mut e: Vec<u64> = Vec::new();
    let mut o: Vec<u64> = Vec::new();
    let half = N / 2;
    let mut i: usize = 0;
    while i < half
        invariant
            half == N / 2,
            a@.len() == N,
            0 <= i <= half,
            e@ == evens(a@).subrange(0, i as int),
            o@ == odds(a@).subrange(0, i as int),
        decreases half - i,
    {
        e.push(a[2 * i]);
        o.push(a[2 * i + 1]);
        i += 1;
        assert(e@ =~= evens(a@).subrange(0, i as int));
        assert(o@ =~= odds(a@).subrange(0, i as int));
    }
    assert(e@ =~= evens(a@));
    assert(o@ =~= odds(a@));
    (e, o)
}

/// Overwrites `a[lo..lo + v.len()]` with the values of `v`.
fn store_range<const N: usize>(a: &mut [u64; N], lo: usize, v: &Vec<u64>)
    requires
        lo + v@.len() <= N,
    ensures
        final(a)@ == old(a)@.subrange(0, lo as int) + v@ + old(a)@.subrange(
            lo + v@.len(),
            N as int,
        ),
{
    let ghost start = a@;
    let mut i: usize = 0;
    while i < v.len()
        invariant
            lo + v@.len() <= N,
            a@.len() == N,
            start.len() == N,
            0 <= i <= v@.len(),
            forall|k: int| 0 <= k < lo ==> #[trigger] a@[k] == start[k],
            forall|k: int| lo <= k < lo + i ==> #[trigger] a@[k] == v@[k - lo],
            forall|k: int| lo + i <= k < N ==> #[trigger] a@[k] == start[k],
        decreases v@.len() - i,
    {
        a[lo + i] = v[i];
        i += 1;
    }
    assert(a@ =~= start.subrange(0, lo as int) + v@ + start.subrange(lo + v@.len(), N as int));
}

/// Overwrites `a` with `e[0], o[0], e[1], o[1], ...`.
fn interleave<const N: usize>(a: &mut [u64; N], e: &Vec<u64>, o: &Vec<u64>)
    requires
        N % 2 == 0,
        e@.len() == N / 2,
        o@.len() == N / 2,
    ensures
        evens(final(a)@) == e@,
        odds(final(a)@) == o@,
        forall|k: int| 0 <= k < N ==> #[trigger] final(a)@[k] == if k % 2 == 0 {
            e@[k / 2]
        } else {
            o@[k / 2]
        },
{
    let half = N / 2;
    let mut i: usize = 0;
    while i < half
        invariant
            half == N / 2,
            N % 2 == 0,
            e@.len() == half,
            o@.len() == half,
            a@.len() == N,
            0 <= i <= half,
            forall|k: int| 0 <= k < 2 * i ==> #[trigger] a@[k] == if k % 2 == 0 {
                e@[k / 2]
            } else {
                o@[k / 2]
            },
        decreases half - i,
    {
        a[2 * i] = e[i];
        a[2 * i + 1] = o[i];
        i += 1;
    }
    assert(evens(a@) =~= e@);
    assert(odds(a@) =~= o@);
}

/// Overwrites `a` with the values of `v`.
fn store_all<const N: usize>(a: &mut [u64; N], v: &Vec<u64>)
    requires
        v@.len() == N,
    ensures
        final(a)@ == v@,
{
    store_range(a, 0, v);
    assert(a@ =~= v@);
}

impl<const MOD_Q: u64, const N: usize> CyclotomicRing<MOD_Q, N> {
    /// Every value of the buffer is a residue modulo `MOD_Q`.
    pub open spec fn wf(&self) -> bool {
        reduced(self.data@, MOD_Q)
    }

    /// The element holds, in its representation, the polynomial with
    /// coefficients `x`.
    pub open spec fn represents(&self, x: Seq<u64>) -> bool {
        &&& x.len() == N
        &&& reduced(x, MOD_Q)
        &&& match self.representation {
            Representation::Coefficient => self.data@ == x,
            Representation::NTT => self.data@ == ntt_forward(MOD_Q, x),
            Representation::IncompleteNTT => {
                &&& self.data@.subrange(0, N as int / 2) == ntt_forward(MOD_Q, evens(x))
                &&& self.data@.subrange(N as int / 2, N as int) == ntt_forward(MOD_Q, odds(x))
            },
        }
    }

    /// `after` is `before` brought into representation `target`: the same
    /// polynomial, and the very same element where `before` already was in
    /// `target`.
    pub open spec fn adjusted(before: Self, target: Representation, after: Self) -> bool {
        &&& after.representation == target
        &&& after.wf()
        &&& (before.representation == target ==> after == before)
        &&& forall|x: Seq<u64>| before.represents(x) ==> #[trigger] after.represents(x)
    }

    /// Where `before` is in full transform form and holds the element-wise
    /// product of the transforms of `a` and `b`, `after` holds the
    /// coefficients of their negacyclic product.
    pub open spec fn decodes_products(before: Self, after: Self) -> bool {
        before.representation == Representation::NTT ==> forall|a: Seq<u64>, b: Seq<u64>|
            a.len() == N && b.len() == N && reduced(a, MOD_Q) && reduced(b, MOD_Q)
                && before.data@ == #[trigger] seq_mul_mod(
                ntt_forward(MOD_Q, a),
                ntt_forward(MOD_Q, b),
                MOD_Q,
            ) ==> after.data@ == negacyclic_product(a, b, MOD_Q)
    }

    /// `after` is the conjugate of `before`, in the same representation.
    pub open spec fn conjugated(before: Self, after: Self) -> bool {
        &&& after.representation == before.representation
        &&& after.wf()
        &&& forall|x: Seq<u64>|
            before.represents(x) ==> #[trigger] after.represents(conjugate_coeffs(x, MOD_Q))
    }

    /// The all-zero element, in coefficient form.
    pub fn new() -> (r: Self)
        ensures
            r.data@ == Seq::new(N as nat, |i: int| 0u64),
            r.representation == Representation::Coefficient,
            MOD_Q > 0 ==> r.wf(),
    {
        let data = [0u64; N];
        proof {
            assert(data@ =~= Seq::new(N as nat, |i: int| 0u64));
        }
        Self { data, representation: Representation::Coefficient }
    }

    /// The constant polynomial `value`, in coefficient form.
    pub fn constant(value: u64) -> (r: Self)
        requires
            N > 0,
        ensures
            r.data@ == Seq::new(N as nat, |i: int| if i == 0 { value } else { 0u64 }),
            r.representation == Representation::Coefficient,
    {
        let mut data = [0u64; N];
        data[0] = value;
        proof {
            assert(data@ =~= Seq::new(N as nat, |i: int| if i == 0 { value } else { 0u64 }));
        }
        Self { data, representation: Representation::Coefficient }
    }

    /// The multiplicative identity, in coefficient form.
    pub fn one() -> (r: Self)
        requires
            N > 0,
        ensures
            r.data@ == Seq::new(N as nat, |i: int| if i == 0 { 1u64 } else { 0u64 }),
            r.representation == Representation::Coefficient,
            MOD_Q > 1 ==> r.wf(),
    {
        let mut data = [0u64; N];
        data[0] = 1;
        proof {
            assert(data@ =~= Seq::new(N as nat, |i: int| if i == 0 { 1u64 } else { 0u64 }));
        }
        Self { data, representation: Representation::Coefficient }
    }

    /// Brings `self` into the representation of `other` and returns the sum,
    /// element by element modulo `MOD_Q`, in that representation.
    pub fn add(&mut self, other: &Self, ctx: &NTT<MOD_Q, N>) -> (r: Self)
        requires
            MOD_Q > 0,
            old(self).wf(),
            other.wf(),
            ctx.wf(),
            handles(ctx, old(self).representation),
            handles(ctx, other.representation),
        ensures
            Self::adjusted(*old(self), other.representation, *final(self)),
            r.representation == other.representation,
            r.data@ == seq_add_mod(final(self).data@, other.data@, MOD_Q),
            r.wf(),
    {
        self.adjust_representation(other.representation, ctx);
        let mut result = Self::new();
        let a = copy_range(&self.data, 0, N);
        let b = copy_range(&other.data, 0, N);
        let mut v = copy_range(&result.data, 0, N);
        eltwise_add_mod(v.as_mut_slice(), a.as_slice(), b.as_slice(), MOD_Q);
        store_all(&mut result.data, &v);
        result.representation = other.representation;
        assert(a@ =~= self.data@);
        assert(b@ =~= other.data@);
        result
    }

    /// Brings `self` into the representation of `other` and returns the
    /// difference, element by element modulo `MOD_Q`, in that representation.
    pub fn sub(&mut self, other: &Self, ctx: &NTT<MOD_Q, N>) -> (r: Self)
        requires
            MOD_Q > 0,
            old(self).wf(),
            other.wf(),
            ctx.wf(),
            handles(ctx, old(self).representation),
            handles(ctx, other.representation),
        ensures
            Self::adjusted(*old(self), other.representation, *final(self)),
            r.representation == other.representation,
            r.data@ == seq_sub_mod(final(self).data@, other.data@, MOD_Q),
            r.wf(),
    {
        self.adjust_representation(other.representation, ctx);
        let mut result = Self::new();
        let a = copy_range(&self.data, 0, N);
        let b = copy_range(&other.data, 0, N);
        let mut v = copy_range(&result.data, 0, N);
        eltwise_sub_mod(v.as_mut_slice(), a.as_slice(), b.as_slice(), MOD_Q);
        store_all(&mut result.data, &v);
        result.representation = other.representation;
        assert(a@ =~= self.data@);
        assert(b@ =~= other.data@);
        result
    }

    /// The ring product. Where the engine has the split representation it is
    /// computed by the split multiplication with the twist factors and is in
    /// split form; otherwise the schoolbook product is taken, in coefficient
    /// form.
    pub fn mul(&mut self, other: &mut Self, ctx: &NTT<MOD_Q, N>) -> (r: Self)
        requires
            MOD_Q > 0,
            old(self).wf(),
            old(other).wf(),
            ctx.wf(),
            handles(ctx, old(self).representation),
            handles(ctx, old(other).representation),
        ensures
            ctx.has_split() ==> {
                &&& Self::adjusted(*old(self), Representation::IncompleteNTT, *final(self))
                &&& Self::adjusted(*old(other), Representation::IncompleteNTT, *final(other))
                &&& r.representation == Representation::IncompleteNTT
                &&& r.data@ == split_product(
                    final(self).data@,
                    final(other).data@,
                    twist_factors(MOD_Q, N as nat),
                    MOD_Q,
                )
            },
            !ctx.has_split() ==> {
                &&& Self::adjusted(*old(self), Representation::Coefficient, *final(self))
                &&& Self::adjusted(*old(other), Representation::Coefficient, *final(other))
                &&& r.representation == Representation::Coefficient
                &&& r.data@ == negacyclic_product(final(self).data@, final(other).data@, MOD_Q)
            },
            r.wf(),
    {
        if ctx.supports_incomplete_ntt() {
            incomplete_ntt_multiplication(self, other, true, ctx)
        } else {
            naive_multiply(self, other, ctx)
        }
    }

    /// The conjugate: coefficient `i > 0` becomes the negation of coefficient
    /// `N - i` and coefficient 0 stays; the result is in the representation
    /// of `self`.
    pub fn conjugate(&self, ctx: &NTT<MOD_Q, N>) -> (r: Self)
        requires
            self.wf(),
            ctx.wf(),
            handles(ctx, self.representation),
        ensures
            Self::conjugated(*self, r),
            self.representation == Representation::Coefficient ==> r.data@ == conjugate_coeffs(
                self.data@,
                MOD_Q,
            ),
    {
        let mut conjugated = *self;
        conjugated.to_coeff_representation(ctx);
        let ghost mid = conjugated;
        conjugated.data = conjugate_data::<MOD_Q, N>(&conjugated.data);
        let ghost flipped = conjugated;
        proof {
            lemma_conjugate_reduced(mid.data@, MOD_Q);
        }
        conjugated.adjust_representation(self.representation, ctx);
        assert forall|x: Seq<u64>| self.represents(x) implies #[trigger] conjugated.represents(
            conjugate_coeffs(x, MOD_Q),
        ) by {
            assert(mid.represents(x));
            lemma_conjugate_reduced(x, MOD_Q);
            assert(flipped.represents(conjugate_coeffs(x, MOD_Q)));
        }
        if self.representation == Representation::Coefficient {
            assert(self.represents(self.data@));
        }
        conjugated
    }

    /// Coefficients drawn uniformly from `[0, MOD_Q)`, in coefficient form.
    pub fn random() -> (r: Self)
        requires
            MOD_Q > 0,
        ensures
            r.representation == Representation::Coefficient,
            r.wf(),
    {
        let mut data = [0u64; N];
        let mut i: usize = 0;
        while i < N
            invariant
                MOD_Q > 0,
                0 <= i <= N,
                data@.len() == N,
                reduced(data@, MOD_Q),
            decreases N - i,
        {
            data[i] = random_below(MOD_Q);
            i += 1;
        }
        Self { data, representation: Representation::Coefficient }
    }

    /// A random element fixed by conjugation: `t + conjugate(t)` for a
    /// uniformly drawn `t`, in coefficient form.
    pub fn random_real() -> (r: Self)
        requires
            MOD_Q > 0,
        ensures
            r.representation == Representation::Coefficient,
            r.wf(),
            conjugate_coeffs(r.data@, MOD_Q) == r.data@,
            exists|t: Seq<u64>|
                t.len() == N && reduced(t, MOD_Q) && r.data@ == seq_add_mod(
                    t,
                    #[trigger] conjugate_coeffs(t, MOD_Q),
                    MOD_Q,
                ),
    {
        let t = Self::random();
        let c = conjugate_data::<MOD_Q, N>(&t.data);
        let mut result = Self::new();
        let a = copy_range(&t.data, 0, N);
        let b = copy_range(&c, 0, N);
        let mut v = copy_range(&result.data, 0, N);
        eltwise_add_mod(v.as_mut_slice(), a.as_slice(), b.as_slice(), MOD_Q);
        store_all(&mut result.data, &v);
        assert(a@ =~= t.data@);
        assert(b@ =~= c@);
        assert(reduced(result.data@, MOD_Q));
        proof {
            lemma_self_conjugate_sum(t.data@, MOD_Q);
        }
        result
    }

    /// Small random coefficients: each is `v` or `-v` modulo `MOD_Q` for some
    /// `v` drawn from `[0, bound)`; in coefficient form.
    pub fn random_bounded(bound: u64) -> (r: Self)
        requires
            MOD_Q > 0,
            bound > 0,
        ensures
            r.representation == Representation::Coefficient,
            r.wf(),
            forall|i: int| 0 <= i < N ==> small_residue(#[trigger] r.data@[i], bound, MOD_Q),
    {
        let mut data = [0u64; N];
        let mut i: usize = 0;
        while i < N
            invariant
                MOD_Q > 0,
                bound > 0,
                0 <= i <= N,
                data@.len() == N,
                reduced(data@, MOD_Q),
                forall|k: int| 0 <= k < i ==> small_residue(#[trigger] data@[k], bound, MOD_Q),
            decreases N - i,
        {
            let v = random_below(bound);
            let negate = random_flag();
            let c = bounded_coefficient(v, negate, MOD_Q);
            assert(c == (-(v as int)) % (MOD_Q as int) || c == (v as int) % (MOD_Q as int));
            data[i] = c;
            i += 1;
        }
        Self { data, representation: Representation::Coefficient }
    }

    /// Brings the element into coefficient form: the inverse transform of the
    /// whole buffer, or of each half followed by interleaving the halves.
    pub fn to_coeff_representation(&mut self, ctx: &NTT<MOD_Q, N>)
        requires
            old(self).wf(),
            ctx.wf(),
            handles(ctx, old(self).representation),
        ensures
            Self::adjusted(*old(self), Representation::Coefficient, *final(self)),
            Self::decodes_products(*old(self), *final(self)),
    {
        match self.representation {
            Representation::Coefficient => {},
            Representation::NTT => self.coeff_from_full(ctx),
            Representation::IncompleteNTT => self.coeff_from_split(ctx),
        }
    }

    fn coeff_from_full(&mut self, ctx: &NTT<MOD_Q, N>)
        requires
            old(self).wf(),
            ctx.wf(),
            ctx.has_full(),
            old(self).representation == Representation::NTT,
        ensures
            Self::adjusted(*old(self), Representation::Coefficient, *final(self)),
            Self::decodes_products(*old(self), *final(self)),
    {
        let ghost before = *self;
        let mut v = copy_range(&self.data, 0, N);
        assert(v@ =~= self.data@);
        ctx.inv(&mut v);
        store_all(&mut self.data, &v);
        self.representation = Representation::Coefficient;
        assert forall|x: Seq<u64>| before.represents(x) implies #[trigger] self.represents(x) by {
            assert(before.data@ == ntt_forward(MOD_Q, x));
        }
        assert(Self::decodes_products(before, *self));
    }

    #[verifier::rlimit(40)]
    fn coeff_from_split(&mut self, ctx: &NTT<MOD_Q, N>)
        requires
            old(self).wf(),
            ctx.wf(),
            ctx.has_split(),
            old(self).representation == Representation::IncompleteNTT,
        ensures
            Self::adjusted(*old(self), Representation::Coefficient, *final(self)),
    {
        proof {
            ctx.lemma_split_degree();
        }
        let ghost before = *self;
        let mut e = copy_range(&self.data, 0, N / 2);
        let mut o = copy_range(&self.data, N / 2, N);
        assert(reduced(e@, MOD_Q));
        assert(reduced(o@, MOD_Q));
        ctx.inv_half(&mut e);
        ctx.inv_half(&mut o);
        interleave(&mut self.data, &e, &o);
        self.representation = Representation::Coefficient;
        assert forall|k: int| 0 <= k < N implies #[trigger] self.data@[k] < MOD_Q by {
            if k % 2 == 0 {
                assert(e@[k / 2] < MOD_Q);
            } else {
                assert(o@[k / 2] < MOD_Q);
            }
        }
        assert forall|x: Seq<u64>| before.represents(x) implies #[trigger] self.represents(x) by {
            assert(reduced(evens(x), MOD_Q));
            assert(reduced(odds(x), MOD_Q));
            assert(e@ == evens(x));
            assert(o@ == odds(x));
            assert forall|k: int| 0 <= k < N implies self.data@[k] == x[k] by {
                if k % 2 == 0 {
                    assert(evens(x)[k / 2] == x[k]);
                } else {
                    assert(odds(x)[k / 2] == x[k]);
                }
            }
            assert(self.data@ =~= x);
        }
    }

    /// Brings the element into full transform form, through coefficient form
    /// where it is in split form.
    pub fn to_ntt_representation(&mut self, ctx: &NTT<MOD_Q, N>)
        requires
            old(self).wf(),
            ctx.wf(),
            ctx.has_full(),
            handles(ctx, old(self).representation),
        ensures
            Self::adjusted(*old(self), Representation::NTT, *final(self)),
    {
        if self.representation == Representation::NTT {
            return;
        }
        let ghost before = *self;
        self.to_coeff_representation(ctx);
        let ghost mid = *self;
        let mut v = copy_range(&self.data, 0, N);
        assert(v@ =~= self.data@);
        ctx.fwd(&mut v);
        store_all(&mut self.data, &v);
        self.representation = Representation::NTT;
        assert forall|x: Seq<u64>| before.represents(x) implies #[trigger] self.represents(x) by {
            assert(mid.represents(x));
        }
    }

    /// Brings the element into split transform form, through coefficient
    /// form where it is in full transform form: the even-indexed coefficients
    /// go to the first half and the odd-indexed ones to the second, and each
    /// half is transformed on its own.
    pub fn to_incomplete_ntt_representation(&mut self, ctx: &NTT<MOD_Q, N>)
        requires
            old(self).wf(),
            ctx.wf(),
            ctx.has_split(),
            handles(ctx, old(self).representation),
        ensures
            Self::adjusted(*old(self), Representation::IncompleteNTT, *final(self)),
    {
        if self.representation == Representation::IncompleteNTT {
            return;
        }
        proof {
            ctx.lemma_split_degree();
        }
        let ghost before = *self;
        self.to_coeff_representation(ctx);
        let ghost mid = *self;
        let (mut e, mut o) = deinterleave(&self.data);
        assert(reduced(e@, MOD_Q));
        assert(reduced(o@, MOD_Q));
        ctx.fwd_half(&mut e);
        ctx.fwd_half(&mut o);
        store_range(&mut self.data, 0, &e);
        store_range(&mut self.data, N / 2, &o);
        self.representation = Representation::IncompleteNTT;
        assert(self.data@.subrange(0, N as int / 2) =~= e@);
        assert(self.data@.subrange(N as int / 2, N as int) =~= o@);
        assert forall|k: int| 0 <= k < N implies #[trigger] self.data@[k] < MOD_Q by {
            if k < N / 2 {
                assert(self.data@[k] == e@[k]);
            } else {
                assert(self.data@[k] == o@[k - N / 2]);
            }
        }
        assert forall|x: Seq<u64>| before.represents(x) implies #[trigger] self.represents(x) by {
            assert(mid.represents(x));
            assert(e@ == ntt_forward(MOD_Q, evens(x)));
        }
    }

    /// Brings the element into representation `new_representation`; nothing
    /// changes where it already is in it.
    pub fn adjust_representation(&mut self, new_representation: Representation, ctx: &NTT<MOD_Q, N>)
        requires
            old(self).wf(),
            ctx.wf(),
            handles(ctx, old(self).representation),
            handles(ctx, new_representation),
        ensures
            Self::adjusted(*old(self), new_representation, *final(self)),
    {
        if self.representation == new_representation {
            return;
        }
        match new_representation {
            Representation::Coefficient => self.to_coeff_representation(ctx),
            Representation::NTT => self.to_ntt_representation(ctx),
            Representation::IncompleteNTT => self.to_incomplete_ntt_representation(ctx),
        }
    }
}


/// Reference schoolbook multiplication: brings both operands into coefficient
/// form and returns their negacyclic product, in coefficient form.
pub fn naive_multiply<const MOD_Q: u64, const N: usize>(
    operand1: &mut CyclotomicRing<MOD_Q, N>,
    operand2: &mut CyclotomicRing<MOD_Q, N>,
    ctx: &NTT<MOD_Q, N>,
) -> (r: CyclotomicRing<MOD_Q, N>)
    requires
        MOD_Q > 0,
        old(operand1).wf(),
        old(operand2).wf(),
        ctx.wf(),
        handles(ctx, old(operand1).representation),
        handles(ctx, old(operand2).representation),
    ensures
        CyclotomicRing::adjusted(*old(operand1), Representation::Coefficient, *final(operand1)),
        CyclotomicRing::adjusted(*old(operand2), Representation::Coefficient, *final(operand2)),
        r.representation == Representation::Coefficient,
        r.data@ == negacyclic_product(final(operand1).data@, final(operand2).data@, MOD_Q),
        r.wf(),
{
    operand1.to_coeff_representation(ctx);
    operand2.to_coeff_representation(ctx);
    let ghost a = operand1.data@;
    let ghost b = operand2.data@;
    let mut result = CyclotomicRing::<MOD_Q, N>::new();
    assert forall|k: int| 0 <= k < N implies #[trigger] result.data@[k] as int == rows_sum(
        a,
        b,
        0,
        k,
    ) % (MOD_Q as int) by {
        assert(result.data@[k] == 0);
        assert(rows_sum(a, b, 0, k) == 0);
    }
    let mut i: usize = 0;
    while i < N
        invariant
            MOD_Q > 0,
            0 <= i <= N,
            a == operand1.data@,
            b == operand2.data@,
            a.len() == N,
            b.len() == N,
            result.data@.len() == N,
            result.representation == Representation::Coefficient,
            forall|k: int|
                0 <= k < N ==> #[trigger] result.data@[k] as int == rows_sum(a, b, i as int, k) % (
                MOD_Q as int),
        decreases N - i,
    {
        let mut j: usize = 0;
        while j < N
            invariant
                MOD_Q > 0,
                0 <= i < N,
                0 <= j <= N,
                a == operand1.data@,
                b == operand2.data@,
                a.len() == N,
                b.len() == N,
                result.data@.len() == N,
                result.representation == Representation::Coefficient,
                forall|k: int|
                    0 <= k < N ==> #[trigger] result.data@[k] as int == (rows_sum(a, b, i as int, k)
                        + row_sum(a, b, i as int, j as int, k)) % (MOD_Q as int),
            decreases N - j,
        {
            let ghost prev = result.data@;
            let m = cpp_multiply_mod(operand1.data[i], operand2.data[j], MOD_Q);
            let ghost ab = a[i as int] as int * b[j as int] as int;
            if j < N - i {
                let t = i + j;
                result.data[t] = add_mod(result.data[t], m, MOD_Q);
                proof {
                    let s = rows_sum(a, b, i as int, t as int) + row_sum(a, b, i as int, j as int, t as int);
                    vstd::arithmetic::div_mod::lemma_add_mod_noop(s, ab, MOD_Q as int);
                    vstd::arithmetic::div_mod::lemma_mod_twice(s, MOD_Q as int);
                    vstd::arithmetic::div_mod::lemma_mod_twice(ab, MOD_Q as int);
                }
            } else {
                let t = j - (N - i);
                result.data[t] = sub_mod(result.data[t], m, MOD_Q);
                proof {
                    let s = rows_sum(a, b, i as int, t as int) + row_sum(a, b, i as int, j as int, t as int);
                    vstd::arithmetic::div_mod::lemma_sub_mod_noop(s, ab, MOD_Q as int);
                    vstd::arithmetic::div_mod::lemma_mod_twice(s, MOD_Q as int);
                    vstd::arithmetic::div_mod::lemma_mod_twice(ab, MOD_Q as int);
                }
            }
            j += 1;
            assert forall|k: int| 0 <= k < N implies #[trigger] result.data@[k] as int == (rows_sum(
                a,
                b,
                i as int,
                k,
            ) + row_sum(a, b, i as int, j as int, k)) % (MOD_Q as int) by {
                assert(row_sum(a, b, i as int, j as int, k) == row_sum(a, b, i as int, j - 1, k)
                    + wrap_term(a, b, i as int, j - 1, k));
            }
        }
        i += 1;
        assert forall|k: int| 0 <= k < N implies #[trigger] result.data@[k] as int == rows_sum(
            a,
            b,
            i as int,
            k,
        ) % (MOD_Q as int) by {
            assert(rows_sum(a, b, i as int, k) == rows_sum(a, b, i - 1, k) + row_sum(
                a,
                b,
                i - 1,
                N as int,
                k,
            ));
        }
    }
    assert(result.data@ =~= negacyclic_product(a, b, MOD_Q));
    result
}


/// The split multiplication on two elements in split form, with `t` as the
/// twist factors: with even halves `e1, e2` and odd halves `o1, o2`, the even
/// half of the result is `e1 * e2 + t * (o1 * o2)` and its odd half is
/// `o1 * e2 + e1 * o2`, all element by element modulo `q`.
pub open spec fn split_product(a: Seq<u64>, b: Seq<u64>, t: Seq<u64>, q: u64) -> Seq<u64> {
    let h = a.len() as int / 2;
    let e1 = a.subrange(0, h);
    let o1 = a.subrange(h, a.len() as int);
    let e2 = b.subrange(0, h);
    let o2 = b.subrange(h, b.len() as int);
    seq_add_mod(seq_mul_mod(e1, e2, q), seq_mul_mod(seq_mul_mod(o1, o2, q), t, q), q)
        + seq_add_mod(seq_mul_mod(o1, e2, q), seq_mul_mod(e1, o2, q), q)
}

/// The twist factors that the split multiplication uses: the true ones, or,
/// with `use_shift_factors` off, the first of them in every place.
pub open spec fn chosen_twist(q: u64, n: nat, use_shift_factors: bool) -> Seq<u64> {
    if use_shift_factors {
        twist_factors(q, n)
    } else {
        Seq::new(n / 2, |i: int| twist_factors(q, n)[0])
    }
}

/// Multiplication through the full transform: brings both operands into full
/// transform form and multiplies them element by element; the product is in
/// full transform form.
pub fn fully_splitting_ntt_multiplication<const MOD_Q: u64, const N: usize>(
    operand1: &mut CyclotomicRing<MOD_Q, N>,
    operand2: &mut CyclotomicRing<MOD_Q, N>,
    ctx: &NTT<MOD_Q, N>,
) -> (r: CyclotomicRing<MOD_Q, N>)
    requires
        old(operand1).wf(),
        old(operand2).wf(),
        ctx.wf(),
        ctx.has_full(),
        handles(ctx, old(operand1).representation),
        handles(ctx, old(operand2).representation),
    ensures
        CyclotomicRing::adjusted(*old(operand1), Representation::NTT, *final(operand1)),
        CyclotomicRing::adjusted(*old(operand2), Representation::NTT, *final(operand2)),
        r.representation == Representation::NTT,
        r.data@ == seq_mul_mod(final(operand1).data@, final(operand2).data@, MOD_Q),
        r.wf(),
{
    proof {
        ctx.lemma_full_modulus();
    }
    operand1.to_ntt_representation(ctx);
    operand2.to_ntt_representation(ctx);
    let mut result = CyclotomicRing::<MOD_Q, N>::new();
    let a = copy_range(&operand1.data, 0, N);
    let b = copy_range(&operand2.data, 0, N);
    let mut v = copy_range(&result.data, 0, N);
    ctx.multiply(&mut v, &a, &b);
    store_all(&mut result.data, &v);
    result.representation = Representation::NTT;
    assert(a@ =~= operand1.data@);
    assert(b@ =~= operand2.data@);
    result
}

/// Multiplication through the split transform: brings both operands into
/// split form and combines their halves with the twist factors; the product
/// is in split form. With `use_shift_factors` off the first twist factor
/// stands in for all of them, which does not give the ring product in
/// general.
pub fn incomplete_ntt_multiplication<const MOD_Q: u64, const N: usize>(
    operand1: &mut CyclotomicRing<MOD_Q, N>,
    operand2: &mut CyclotomicRing<MOD_Q, N>,
    use_shift_factors: bool,
    ctx: &NTT<MOD_Q, N>,
) -> (r: CyclotomicRing<MOD_Q, N>)
    requires
        old(operand1).wf(),
        old(operand2).wf(),
        ctx.wf(),
        ctx.has_split(),
        handles(ctx, old(operand1).representation),
        handles(ctx, old(operand2).representation),
    ensures
        CyclotomicRing::adjusted(*old(operand1), Representation::IncompleteNTT, *final(operand1)),
        CyclotomicRing::adjusted(*old(operand2), Representation::IncompleteNTT, *final(operand2)),
        r.representation == Representation::IncompleteNTT,
        r.data@ == split_product(
            final(operand1).data@,
            final(operand2).data@,
            chosen_twist(MOD_Q, N as nat, use_shift_factors),
            MOD_Q,
        ),
        r.wf(),
{
    proof {
        ctx.lemma_split_degree();
    }
    let shift = ctx.get_shift_factors_cached();
    operand1.to_incomplete_ntt_representation(ctx);
    operand2.to_incomplete_ntt_representation(ctx);
    let h = N / 2;
    let e1 = copy_range(&operand1.data, 0, h);
    let o1 = copy_range(&operand1.data, h, N);
    let e2 = copy_range(&operand2.data, 0, h);
    let o2 = copy_range(&operand2.data, h, N);
    let twist: Vec<u64> = if use_shift_factors {
        copy_vec(shift)
    } else {
        let f0 = shift[0];
        let t = vec![f0; h];
        assert(t@ =~= chosen_twist(MOD_Q, N as nat, use_shift_factors));
        t
    };
    // even half: e1 * e2 + twist * (o1 * o2)
    let mut even = vec![0u64; h];
    cpp_eltwise_mult_mod(even.as_mut_slice(), e1.as_slice(), e2.as_slice(), MOD_Q);
    let mut odd_prod = vec![0u64; h];
    cpp_eltwise_mult_mod(odd_prod.as_mut_slice(), o1.as_slice(), o2.as_slice(), MOD_Q);
    let mut twisted = vec![0u64; h];
    cpp_eltwise_mult_mod(twisted.as_mut_slice(), odd_prod.as_slice(), twist.as_slice(), MOD_Q);
    let mut even_sum = vec![0u64; h];
    eltwise_add_mod(even_sum.as_mut_slice(), even.as_slice(), twisted.as_slice(), MOD_Q);
    // odd half: o1 * e2 + e1 * o2
    let mut odd = vec![0u64; h];
    cpp_eltwise_mult_mod(odd.as_mut_slice(), o1.as_slice(), e2.as_slice(), MOD_Q);
    let mut cross = vec![0u64; h];
    cpp_eltwise_mult_mod(cross.as_mut_slice(), e1.as_slice(), o2.as_slice(), MOD_Q);
    let mut odd_sum = vec![0u64; h];
    eltwise_add_mod(odd_sum.as_mut_slice(), odd.as_slice(), cross.as_slice(), MOD_Q);
    let mut result = CyclotomicRing::<MOD_Q, N>::new();
    store_range(&mut result.data, 0, &even_sum);
    store_range(&mut result.data, h, &odd_sum);
    result.representation = Representation::IncompleteNTT;
    assert(result.data@ =~= split_product(
        operand1.data@,
        operand2.data@,
        chosen_twist(MOD_Q, N as nat, use_shift_factors),
        MOD_Q,
    ));
    result
}

/// A copy of `v`.
fn copy_vec(v: &Vec<u64>) -> (r: Vec<u64>)
    ensures
        r@ == v@,
{
    let mut r: Vec<u64> = Vec::new();
    let mut i: usize = 0;
    while i < v.len()
        invariant
            0 <= i <= v@.len(),
            r@ == v@.subrange(0, i as int),
        decreases v@.len() - i,
    {
        r.push(v[i]);
        i += 1;
        assert(r@ =~= v@.subrange(0, i as int));
    }
    assert(r@ =~= v@);
    r
}


/// The conjugate of the polynomial `x`: coefficient 0 is kept, coefficient
/// `i > 0` is `q - x[N - i]`, or 0 where `x[N - i]` is 0.
pub open spec fn conjugate_coeffs(x: Seq<u64>, q: u64) -> Seq<u64> {
    Seq::new(
        x.len(),
        |i: int|
            if i == 0 {
                x[0]
            } else if x[x.len() - i] == 0 {
                0u64
            } else {
                (q - x[x.len() - i]) as u64
            },
    )
}

/// `c` is `v` or `-v` modulo `q` for some `v` below `bound`.
pub open spec fn small_residue(c: u64, bound: u64, q: u64) -> bool {
    exists|v: int|
        #![trigger v % (q as int)]
        #![trigger (-v) % (q as int)]
        0 <= v < bound && (c == v % (q as int) || c == (-v) % (q as int))
}

/// The conjugate of a polynomial with coefficients in `[0, q)` has its
/// coefficients in `[0, q)` too.
pub proof fn lemma_conjugate_reduced(x: Seq<u64>, q: u64)
    requires
        reduced(x, q),
    ensures
        reduced(conjugate_coeffs(x, q), q),
        conjugate_coeffs(x, q).len() == x.len(),
{
}

/// `s mod q` for `0 <= s < 2q`.
proof fn lemma_mod_below_twice(s: int, q: int)
    requires
        0 < q,
        0 <= s < 2 * q,
    ensures
        s % q == if s < q { s } else { s - q },
{
    if s < q {
        vstd::arithmetic::div_mod::lemma_small_mod(s as nat, q as nat);
    } else {
        vstd::arithmetic::div_mod::lemma_mod_add_multiples_vanish(s - q, q);
        vstd::arithmetic::div_mod::lemma_small_mod((s - q) as nat, q as nat);
    }
}

/// `t + conjugate(t)` is fixed by conjugation.
pub proof fn lemma_self_conjugate_sum(t: Seq<u64>, q: u64)
    requires
        q > 0,
        reduced(t, q),
    ensures
        conjugate_coeffs(seq_add_mod(t, conjugate_coeffs(t, q), q), q) == seq_add_mod(
            t,
            conjugate_coeffs(t, q),
            q,
        ),
{
    let c = conjugate_coeffs(t, q);
    let y = seq_add_mod(t, c, q);
    let n = t.len() as int;
    assert forall|i: int| 0 <= i < n implies #[trigger] conjugate_coeffs(y, q)[i] == y[i] by {
        if i > 0 {
            let j = n - i;
            lemma_mod_below_twice(t[i] as int + c[i] as int, q as int);
            lemma_mod_below_twice(t[j] as int + c[j] as int, q as int);
        }
    }
    assert(conjugate_coeffs(y, q) =~= y);
}

/// Conjugation of the coefficients in `a`.
fn conjugate_data<const MOD_Q: u64, const N: usize>(a: &[u64; N]) -> (r: [u64; N])
    requires
        reduced(a@, MOD_Q),
    ensures
        r@ == conjugate_coeffs(a@, MOD_Q),
{
    let mut r = *a;
    let mut i: usize = 1;
    while i < N
        invariant
            1 <= i <= N || N == 0,
            a@.len() == N,
            r@.len() == N,
            reduced(a@, MOD_Q),
            N > 0 ==> r@[0] == a@[0],
            forall|k: int| 1 <= k < i ==> #[trigger] r@[k] == conjugate_coeffs(a@, MOD_Q)[k],
        decreases N - i,
    {
        let v = a[N - i];
        if v == 0 {
            r[i] = 0;
        } else {
            r[i] = MOD_Q - v;
        }
        i += 1;
    }
    assert(r@ =~= conjugate_coeffs(a@, MOD_Q));
    r
}

/// Relies on rand::random_range: a value drawn from `0..bound`; it panics on
/// an empty range.
#[verifier::external_body]
fn random_below(bound: u64) -> (r: u64)
    requires
        bound > 0,
    ensures
        r < bound,
{
    rand::random_range(0..bound)
}

/// Relies on rand::random: a random `bool`.
#[verifier::external_body]
fn random_flag() -> (r: bool) {
    rand::random::<bool>()
}

} // verus!
