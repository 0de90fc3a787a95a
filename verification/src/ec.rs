//! Interfaces for elliptic curves over a field.
//!
//! A curve point is modelled in specifications by a `PointModel`: either
//! the point at infinity or a pair of coordinate residues. Every exec-level
//! curve operation is specified by a function on models that the
//! implementing curve supplies.

use vstd::prelude::*;

verus! {

use crate::field::{Field, SquareRootField, nat_of_limbs};

/// An affine point on an elliptic curve: a coordinate pair, or the point
/// at infinity. When `infinity` is true the coordinates carry no defined
/// meaning; callers must not rely on their values.
#[derive(Clone, Copy, Debug, PartialEq)]
pub struct AffinePoint<F: Field> {
    pub x: F,
    pub y: F,
    pub infinity: bool,
}

/// The mathematical value of a curve point: the point at infinity, or a
/// finite point given by its coordinate residues.
pub enum PointModel {
    /// The point at infinity, the group identity.
    Infinity,
    /// A finite point with the given coordinate residues.
    Finite { x: nat, y: nat },
}

/// Basic operations required of an elliptic curve.
///
/// The abstract spec functions give the mathematical meaning of each
/// operation on point models; an implementation defines them and proves
/// its operations against them.
pub trait EllipticCurve: Sized + Clone + core::fmt::Debug + PartialEq {
    /// The field over which this curve is defined.
    type BaseField: Field + SquareRootField;

    /// The type representing a point on this curve.
    type Point: Clone + core::fmt::Debug + PartialEq;

    /// The point is well formed: its coordinates are canonical residues.
    spec fn pt_wf(p: &Self::Point) -> bool;

    /// The mathematical value of a point.
    spec fn pt_model(p: &Self::Point) -> PointModel;

    /// The group law on point models.
    spec fn add_model(p: PointModel, q: PointModel) -> PointModel;

    /// The meaning of scalar multiplication by a limb sequence,
    /// least-significant limb first.
    spec fn smul_model(p: PointModel, s: Seq<u64>) -> PointModel;

    /// The curve-membership predicate on point models.
    spec fn on_curve_model(p: PointModel) -> bool;

    /// The value of the agreed-upon base point.
    spec fn generator_model() -> PointModel;

    /// The order of the curve group, as a single natural number.
    spec fn order_nat() -> nat;

    /// The identity element: the point at infinity.
    fn identity() -> (r: Self::Point)
        ensures
            Self::pt_wf(&r),
            Self::pt_model(&r) == PointModel::Infinity,
    ;

    /// The fixed generator point of this curve.
    fn generator() -> (r: Self::Point)
        ensures
            Self::pt_wf(&r),
            Self::pt_model(&r) == Self::generator_model(),
    ;

    /// The order of the curve group as limbs, least-significant first.
    fn order() -> (r: Vec<u64>)
        ensures
            nat_of_limbs(r@) == Self::order_nat(),
    ;

    /// Adds two points by the group law.
    fn add_points(p1: &Self::Point, p2: &Self::Point) -> (r: Self::Point)
        requires
            Self::pt_wf(p1),
            Self::pt_wf(p2),
        ensures
            Self::pt_wf(&r),
            Self::pt_model(&r) == Self::add_model(Self::pt_model(p1), Self::pt_model(p2)),
    ;

    /// Multiplies a point by a scalar given as limbs, least-significant
    /// limb first, by always-double-and-add over every bit supplied.
    fn scalar_mul(point: &Self::Point, scalar: &[u64]) -> (r: Self::Point)
        requires
            Self::pt_wf(point),
        ensures
            Self::pt_wf(&r),
            Self::pt_model(&r) == Self::smul_model(Self::pt_model(point), scalar@),
    ;

    /// Whether a point satisfies this curve's membership equation. The
    /// point at infinity is always a member.
    fn is_on_curve(point: &Self::Point) -> (r: bool)
        requires
            Self::pt_wf(point),
        ensures
            r == Self::on_curve_model(Self::pt_model(point)),
    ;
}

/// A curve in Weierstrass form y^2 = x^3 + a*x + b, exposing its
/// coefficients.
pub trait WeierstrassCurve: EllipticCurve {
    /// The residue of the coefficient `a`.
    spec fn a_spec() -> nat;

    /// The residue of the coefficient `b`.
    spec fn b_spec() -> nat;

    /// The `a` coefficient of the curve equation.
    fn get_a() -> (r: Self::BaseField)
        ensures
            r.wf(),
            r.fv() == Self::a_spec(),
    ;

    /// The `b` coefficient of the curve equation.
    fn get_b() -> (r: Self::BaseField)
        ensures
            r.wf(),
            r.fv() == Self::b_spec(),
    ;
}

/// A curve that supports a pairing into a target field. This is an
/// interface-only extension point: no curve here implements it.
pub trait PairingCurve: EllipticCurve {
    /// The field where pairing results live.
    type TargetField: Field;

    /// The pairing of two points.
    fn pairing(p: &Self::Point, q: &Self::Point) -> Self::TargetField;
}

} // verus!
