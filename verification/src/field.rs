//! Interfaces for field element types.
//!
//! A field element is modelled in specifications by a single natural number:
//! the canonical residue the element stands for (`fv`), always smaller than
//! the field's characteristic once the element is well formed (`wf`).
//! Multi-word integers (the characteristic, a modulus, a group order) are
//! exchanged as sequences of 64-bit limbs, least-significant limb first, and
//! are given meaning by `nat_of_limbs`. Bit serializations are sequences of
//! booleans, least-significant bit first, given meaning by `nat_of_bits`.

use vstd::prelude::*;

verus! {

use vstd::arithmetic::power::pow;

/// The integer denoted by a sequence of 64-bit limbs, least-significant
/// limb first.
pub open spec fn nat_of_limbs(s: Seq<u64>) -> nat
    decreases s.len(),
{
    if s.len() == 0 {
        0
    } else {
        s[0] as nat + 0x10000000000000000 * nat_of_limbs(s.subrange(1, s.len() as int))
    }
}

/// The integer denoted by a sequence of bits, least-significant bit first.
pub open spec fn nat_of_bits(s: Seq<bool>) -> nat
    decreases s.len(),
{
    if s.len() == 0 {
        0
    } else {
        (if s[0] {
            1nat
        } else {
            0nat
        }) + 2 * nat_of_bits(s.subrange(1, s.len() as int))
    }
}

/// The basic operations required of a field element: a commutative ring
/// with unity together with multiplicative inverses for nonzero elements.
///
/// Arithmetic is specified over the residue model: every operation returns
/// the canonical representative of the exact result modulo the
/// characteristic. Operator-style arithmetic of the host language is exposed
/// as the named methods `add`, `sub`, `mul` and `neg`, plus the in-place
/// forms `add_assign`, `sub_assign` and `mul_assign`.
pub trait Field: Sized + Clone + core::fmt::Debug + PartialEq {
    /// The residue this element stands for.
    spec fn fv(&self) -> nat;

    /// The element is fully reduced: `fv` is a canonical residue.
    spec fn wf(&self) -> bool;

    /// The characteristic of the field, as a single natural number.
    spec fn characteristic_spec() -> nat;

    /// The residue of the multiplicative inverse of this element, when one
    /// exists.
    spec fn inverse_val(&self) -> nat;

    /// A well-formed element is a canonical residue, and the field is not
    /// trivial.
    proof fn lemma_wf(&self)
        requires
            self.wf(),
        ensures
            self.fv() < Self::characteristic_spec(),
            Self::characteristic_spec() > 1,
    ;

    /// The characteristic of the field as limbs, least-significant first.
    fn characteristic() -> (r: Vec<u64>)
        ensures
            nat_of_limbs(r@) == Self::characteristic_spec(),
    ;

    /// The multiplicative identity.
    fn one() -> (r: Self)
        ensures
            r.wf(),
            r.fv() == 1,
    ;

    /// The additive identity.
    fn zero() -> (r: Self)
        ensures
            r.wf(),
            r.fv() == 0,
    ;

    /// Whether this element is the additive identity.
    fn is_zero(&self) -> (r: bool)
        requires
            self.wf(),
        ensures
            r == (self.fv() == 0),
    ;

    /// The multiplicative inverse. Absent exactly when the element is the
    /// additive identity, which has no inverse.
    fn inverse(&self) -> (r: Option<Self>)
        requires
            self.wf(),
        ensures
            r is Some <==> self.fv() != 0,
            r matches Some(v) ==> v.wf() && v.fv() == self.inverse_val(),
    ;

    /// This element raised to `exp`, by binary exponentiation.
    fn pow(&self, exp: u64) -> (r: Self)
        requires
            self.wf(),
        ensures
            r.wf(),
            r.fv() == pow(self.fv() as int, exp as nat) % (Self::characteristic_spec() as int),
    ;

    /// The square of this element.
    fn square(&self) -> (r: Self)
        requires
            self.wf(),
        ensures
            r.wf(),
            r.fv() == (self.fv() * self.fv()) % Self::characteristic_spec(),
    ;

    /// Field addition.
    fn add(self, other: Self) -> (r: Self)
        requires
            self.wf(),
            other.wf(),
        ensures
            r.wf(),
            r.fv() == (self.fv() + other.fv()) % Self::characteristic_spec(),
    ;

    /// Field subtraction.
    fn sub(self, other: Self) -> (r: Self)
        requires
            self.wf(),
            other.wf(),
        ensures
            r.wf(),
            r.fv() == (self.fv() + Self::characteristic_spec() - other.fv()) % (
            Self::characteristic_spec() as int),
    ;

    /// Field multiplication.
    fn mul(self, other: Self) -> (r: Self)
        requires
            self.wf(),
            other.wf(),
        ensures
            r.wf(),
            r.fv() == (self.fv() * other.fv()) % Self::characteristic_spec(),
    ;

    /// The additive opposite of this element.
    fn neg(self) -> (r: Self)
        requires
            self.wf(),
        ensures
            r.wf(),
            r.fv() == (Self::characteristic_spec() - self.fv()) % (
            Self::characteristic_spec() as int),
    ;

    /// In-place field addition.
    fn add_assign(&mut self, other: Self)
        requires
            old(self).wf(),
            other.wf(),
        ensures
            final(self).wf(),
            final(self).fv() == (old(self).fv() + other.fv()) % Self::characteristic_spec(),
    ;

    /// In-place field subtraction.
    fn sub_assign(&mut self, other: Self)
        requires
            old(self).wf(),
            other.wf(),
        ensures
            final(self).wf(),
            final(self).fv() == (old(self).fv() + Self::characteristic_spec() - other.fv()) % (
            Self::characteristic_spec() as int),
    ;

    /// In-place field multiplication.
    fn mul_assign(&mut self, other: Self)
        requires
            old(self).wf(),
            other.wf(),
        ensures
            final(self).wf(),
            final(self).fv() == (old(self).fv() * other.fv()) % Self::characteristic_spec(),
    ;
}

/// A prime field: modulus-aware construction and bit serialization on top
/// of the plain field operations.
pub trait PrimeField: Field {
    /// The bit width of the serialized form of an element.
    spec fn num_bits() -> nat;

    /// The modulus of the field as limbs, least-significant first. For a
    /// prime field the modulus and the characteristic coincide.
    fn modulus() -> (r: Vec<u64>)
        ensures
            nat_of_limbs(r@) == Self::characteristic_spec(),
    ;

    /// The element standing for the residue of `n`.
    fn from_u64(n: u64) -> (r: Self)
        ensures
            r.wf(),
            r.fv() == n as nat % Self::characteristic_spec(),
    ;

    /// The value of this element as a fixed-length bit sequence,
    /// least-significant bit first.
    fn to_bits(&self) -> (r: Vec<bool>)
        requires
            self.wf(),
        ensures
            r@.len() == Self::num_bits(),
            nat_of_bits(r@) == self.fv(),
    ;

    /// The exact inverse of `to_bits`: absent when the input length is
    /// wrong or the bits decode to a value at or above the modulus.
    fn from_bits(bits: &[bool]) -> (r: Option<Self>)
        ensures
            r is Some <==> (bits@.len() == Self::num_bits() && nat_of_bits(bits@)
                < Self::characteristic_spec()),
            r matches Some(v) ==> v.wf() && v.fv() == nat_of_bits(bits@),
    ;
}

/// A field that supports square-root extraction.
pub trait SquareRootField: Field {
    /// The Legendre classification of this element: 0 for the additive
    /// identity, 1 for quadratic residues, -1 for non-residues.
    spec fn legendre_spec(&self) -> i8;

    /// A square root of this element. Any value returned squares back to
    /// the element; the result may be absent when the element is a
    /// quadratic non-residue, or when extraction is not provided.
    fn sqrt(&self) -> (r: Option<Self>)
        requires
            self.wf(),
        ensures
            r matches Some(v) ==> v.wf() && (v.fv() * v.fv()) % Self::characteristic_spec()
                == self.fv(),
    ;

    /// The Legendre symbol of this element, by Euler's criterion.
    fn legendre(&self) -> (r: i8)
        requires
            self.wf(),
        ensures
            r == self.legendre_spec(),
    ;
}

} // verus!
