//! Stable 64-bit fingerprints for model states.
//!
//! The checker never keeps an expanded state alive; its visited set and its
//! parent map hold only a 64-bit digest of each state. A fingerprint is a
//! deterministic function of the state's abstract value, so structurally
//! equal states always share a fingerprint. Two distinct states may
//! collide; the checker accepts this silently as a documented design
//! concession, trading a negligible collision risk for a large memory win.

use vstd::prelude::*;

verus! {

/// Starting value for a fingerprint computation.
pub const FP_SEED: u64 = 0xcbf2_9ce4_8422_2325;

/// Odd multiplier folded in after each absorbed word.
pub const FP_PRIME: u64 = 0x0000_0100_0000_01b3;

/// One mixing round: absorb the word `w` into the running digest `h`.
pub open spec fn fp_mix(h: u64, w: u64) -> u64 {
    vstd::wrapping::u64_specs::wrapping_mul(h ^ w, FP_PRIME)
}

/// Absorb one word into a running digest.
pub fn mix(h: u64, w: u64) -> (r: u64)
    ensures
        r == fp_mix(h, w),
{
    (h ^ w).wrapping_mul(FP_PRIME)
}

/// A digest made non-zero: a raw digest collapses to zero whenever the
/// running value equals the absorbed word, and zero is reserved, so the
/// checker substitutes a fixed odd constant for it. Every fingerprint
/// used as identity passes through this step.
pub open spec fn fp_finalize(h: u64) -> u64 {
    if h == 0 {
        FP_PRIME
    } else {
        h
    }
}

/// Make a raw digest usable as an identity: never zero.
pub fn finalize(h: u64) -> (r: u64)
    ensures
        r == fp_finalize(h),
        r != 0,
{
    if h == 0 {
        FP_PRIME
    } else {
        h
    }
}

/// A value that can take part in a model. Each such type abstracts to a
/// mathematical value `V`; duplication, comparison and fingerprinting are
/// all pinned to that abstraction, so a model's behavior is a function of
/// abstract values alone.
pub trait ModelValue: Sized {
    /// The mathematical value this type abstracts to.
    type V;

    /// The abstract value.
    spec fn value(&self) -> Self::V;

    /// The digest of an abstract value.
    spec fn fp_of(v: Self::V) -> u64;

    /// Compute the digest of this value.
    fn fingerprint(&self) -> (r: u64)
        ensures
            r == Self::fp_of(self.value()),
    ;

    /// Duplicate this value.
    fn dup(&self) -> (r: Self)
        ensures
            r.value() == self.value(),
    ;

    /// Decide equality of the abstract values.
    fn eq_val(&self, other: &Self) -> (r: bool)
        ensures
            r == (self.value() == other.value()),
    ;
}

/// The abstract value of a model value.
pub type VOf<T> = <T as ModelValue>::V;

/// The abstract values of a sequence of model values.
pub open spec fn values_of<T: ModelValue>(s: Seq<T>) -> Seq<VOf<T>> {
    s.map_values(|x: T| x.value())
}

/// Fingerprint soundness: equal abstract values have equal fingerprints.
pub proof fn lemma_fingerprint_soundness<T: ModelValue>(a: T, b: T)
    requires
        a.value() == b.value(),
    ensures
        T::fp_of(a.value()) == T::fp_of(b.value()),
{
}

/// Digest of a sequence of abstract values, absorbed left to right into
/// `h`.
pub open spec fn fp_fold<T: ModelValue>(h: u64, s: Seq<VOf<T>>) -> u64
    decreases s.len(),
{
    if s.len() <= 0 {
        h
    } else {
        fp_fold::<T>(fp_mix(h, T::fp_of(s[0])), s.drop_first())
    }
}

/// Order-independent digest of a collection of abstract values: the
/// wrapping sum of the element digests. A collection that models a set is
/// fingerprinted this way, so that the digest depends only on which
/// elements are present.
pub open spec fn fp_sum<T: ModelValue>(s: Seq<VOf<T>>) -> u64
    decreases s.len(),
{
    if s.len() <= 0 {
        0u64
    } else {
        vstd::wrapping::u64_specs::wrapping_add(T::fp_of(s[0]), fp_sum::<T>(s.drop_first()))
    }
}

/// Absorb every element of `v` in order into the running digest `h`.
pub fn fingerprint_fold<T: ModelValue>(h: u64, v: &Vec<T>) -> (r: u64)
    ensures
        r == fp_fold::<T>(h, values_of(v@)),
{
    let ghost vals = values_of(v@);
    let mut acc: u64 = h;
    let mut i: usize = 0;
    proof {
        assert(vals.skip(0) =~= vals);
    }
    while i < v.len()
        invariant
            i <= v.len(),
            vals == values_of(v@),
            vals.len() == v@.len(),
            fp_fold::<T>(acc, vals.skip(i as int)) == fp_fold::<T>(h, vals),
        decreases v.len() - i,
    {
        proof {
            assert(vals.skip(i as int).drop_first() =~= vals.skip(i as int + 1));
            assert(vals.skip(i as int)[0] == vals[i as int]);
            assert(vals[i as int] == v@[i as int].value());
        }
        acc = mix(acc, v[i].fingerprint());
        i = i + 1;
    }
    proof {
        assert(vals.skip(vals.len() as int) =~= Seq::<VOf<T>>::empty());
    }
    acc
}

/// Sum the digests of every element of `v`, ignoring order.
pub fn fingerprint_sum<T: ModelValue>(v: &Vec<T>) -> (r: u64)
    ensures
        r == fp_sum::<T>(values_of(v@)),
{
    let ghost vals = values_of(v@);
    let mut acc: u64 = 0;
    let mut i: usize = v.len();
    proof {
        assert(vals.skip(vals.len() as int) =~= Seq::<VOf<T>>::empty());
    }
    while i > 0
        invariant
            i <= v.len(),
            vals == values_of(v@),
            vals.len() == v@.len(),
            acc == fp_sum::<T>(vals.skip(i as int)),
        decreases i,
    {
        i = i - 1;
        proof {
            assert(vals.skip(i as int).drop_first() =~= vals.skip(i as int + 1));
            assert(vals.skip(i as int)[0] == vals[i as int]);
            assert(vals[i as int] == v@[i as int].value());
        }
        acc = v[i].fingerprint().wrapping_add(acc);
    }
    proof {
        assert(vals.skip(0) =~= vals);
    }
    acc
}

/// Duplicate every element of `v`.
pub fn dup_vec<T: ModelValue>(v: &Vec<T>) -> (r: Vec<T>)
    ensures
        values_of(r@) == values_of(v@),
{
    let mut r: Vec<T> = Vec::new();
    let mut i: usize = 0;
    while i < v.len()
        invariant
            i <= v.len(),
            r@.len() == i,
            forall|j: int| 0 <= j < i ==> r@[j].value() == v@[j].value(),
        decreases v.len() - i,
    {
        r.push(v[i].dup());
        i = i + 1;
    }
    proof {
        assert(values_of(r@) =~= values_of(v@));
    }
    r
}

/// Decide whether two vectors hold elementwise equal abstract values.
pub fn eq_vec<T: ModelValue>(a: &Vec<T>, b: &Vec<T>) -> (r: bool)
    ensures
        r == (values_of(a@) == values_of(b@)),
{
    if a.len() != b.len() {
        proof {
            assert(values_of(a@).len() != values_of(b@).len());
        }
        return false;
    }
    let mut i: usize = 0;
    while i < a.len()
        invariant
            i <= a.len(),
            a@.len() == b@.len(),
            forall|j: int| 0 <= j < i ==> a@[j].value() == b@[j].value(),
        decreases a.len() - i,
    {
        if !a[i].eq_val(&b[i]) {
            proof {
                assert(values_of(a@)[i as int] != values_of(b@)[i as int]);
            }
            return false;
        }
        i = i + 1;
    }
    proof {
        assert(values_of(a@) =~= values_of(b@));
    }
    true
}

impl ModelValue for u64 {
    type V = u64;

    open spec fn value(&self) -> u64 {
        *self
    }

    open spec fn fp_of(v: u64) -> u64 {
        fp_mix(FP_SEED, v)
    }

    fn fingerprint(&self) -> (r: u64) {
        mix(FP_SEED, *self)
    }

    fn dup(&self) -> (r: Self) {
        *self
    }

    fn eq_val(&self, other: &Self) -> (r: bool) {
        *self == *other
    }
}

impl ModelValue for u32 {
    type V = u32;

    open spec fn value(&self) -> u32 {
        *self
    }

    open spec fn fp_of(v: u32) -> u64 {
        fp_mix(FP_SEED, v as u64)
    }

    fn fingerprint(&self) -> (r: u64) {
        mix(FP_SEED, *self as u64)
    }

    fn dup(&self) -> (r: Self) {
        *self
    }

    fn eq_val(&self, other: &Self) -> (r: bool) {
        *self == *other
    }
}

impl ModelValue for bool {
    type V = bool;

    open spec fn value(&self) -> bool {
        *self
    }

    open spec fn fp_of(v: bool) -> u64 {
        fp_mix(FP_SEED, if v { 1u64 } else { 0u64 })
    }

    fn fingerprint(&self) -> (r: u64) {
        mix(FP_SEED, if *self { 1u64 } else { 0u64 })
    }

    fn dup(&self) -> (r: Self) {
        *self
    }

    fn eq_val(&self, other: &Self) -> (r: bool) {
        *self == *other
    }
}

impl<A: ModelValue, B: ModelValue> ModelValue for (A, B) {
    type V = (A::V, B::V);

    open spec fn value(&self) -> (A::V, B::V) {
        (self.0.value(), self.1.value())
    }

    open spec fn fp_of(v: (A::V, B::V)) -> u64 {
        fp_mix(A::fp_of(v.0), B::fp_of(v.1))
    }

    fn fingerprint(&self) -> (r: u64) {
        mix(self.0.fingerprint(), self.1.fingerprint())
    }

    fn dup(&self) -> (r: Self) {
        (self.0.dup(), self.1.dup())
    }

    fn eq_val(&self, other: &Self) -> (r: bool) {
        self.0.eq_val(&other.0) && self.1.eq_val(&other.1)
    }
}

} // verus!
