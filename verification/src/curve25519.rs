//! A concrete short-Weierstrass-style curve over the 256-bit prime field,
//! with affine-coordinate group-law formulas.
//!
//! Every operation is specified by a function on point models: the exec
//! code is proved to compute exactly the model-level formula, composed
//! from the field's residue arithmetic.

use vstd::prelude::*;

verus! {

use crate::ec::{AffinePoint, EllipticCurve, PointModel};
use crate::field::Field;
use crate::fp25519::{
    Fp25519,
    fp_val,
    fp_wf,
    p25519,
    f_add,
    f_sub,
    f_mul,
    f_neg,
    f_inv,
    f_pow,
    limbs_val,
    lemma_fp_val_injective,
    lemma_nat_of_limbs4,
    t64,
    t128,
    t192,
};
use vstd::arithmetic::div_mod::{
    lemma_small_mod,
    lemma_mod_multiples_vanish,
    lemma_div_denominator,
    lemma_small_div_converse,
    lemma_basic_div,
};
use vstd::arithmetic::power2::{
    pow2,
    lemma_pow2_adds,
    lemma_pow2_pos,
    lemma_pow2_strictly_increases,
    lemma2_to64,
};
use vstd::bits::lemma_u64_shr_is_div;

/// The residue of the curve parameter `a` of y^2 = x^3 + a*x.
pub open spec fn curve_a() -> nat {
    486662
}

/// The group-law doubling formula on point models: the identity for the
/// point at infinity and for points of order two (zero y-coordinate);
/// otherwise the tangent-line formula with slope (3x^2 + a) / (2y).
pub open spec fn pm_double(p: PointModel) -> PointModel {
    match p {
        PointModel::Infinity => PointModel::Infinity,
        PointModel::Finite { x, y } => {
            if y == 0 {
                PointModel::Infinity
            } else {
                let s = f_mul(f_add(f_mul(f_mul(x, x), 3), curve_a()), f_inv(f_mul(y, 2)));
                let x3 = f_sub(f_sub(f_mul(s, s), x), x);
                let y3 = f_sub(f_mul(s, f_sub(x, x3)), y);
                PointModel::Finite { x: x3, y: y3 }
            }
        },
    }
}

/// The group-law addition formula on point models: the identity absorbs;
/// equal x-coordinates give doubling when the y-coordinates agree and the
/// identity otherwise (a negation pair); distinct x-coordinates use the
/// chord formula with slope (y2 - y1) / (x2 - x1).
pub open spec fn pm_add(p: PointModel, q: PointModel) -> PointModel {
    match (p, q) {
        (PointModel::Infinity, _) => q,
        (_, PointModel::Infinity) => p,
        (PointModel::Finite { x: x1, y: y1 }, PointModel::Finite { x: x2, y: y2 }) => {
            if x1 == x2 {
                if y1 == y2 {
                    pm_double(p)
                } else {
                    PointModel::Infinity
                }
            } else {
                let s = f_mul(f_sub(y2, y1), f_inv(f_sub(x2, x1)));
                let x3 = f_sub(f_sub(f_mul(s, s), x1), x2);
                let y3 = f_sub(f_mul(s, f_sub(x1, x3)), y1);
                PointModel::Finite { x: x3, y: y3 }
            }
        },
    }
}

/// One limb's worth of double-and-add steps, bits taken least significant
/// first, starting at bit `j`: the running result and the running
/// power-of-two multiple of the base point.
pub open spec fn pm_smul_bits(result: PointModel, temp: PointModel, limb: u64, j: nat) -> (
    PointModel,
    PointModel,
)
    decreases 64 - j,
{
    if j >= 64 {
        (result, temp)
    } else {
        let r2 = if (limb as nat / pow2(j)) % 2 == 1 {
            pm_add(result, temp)
        } else {
            result
        };
        let t2 = pm_double(temp);
        pm_smul_bits(r2, t2, limb, j + 1)
    }
}

/// Double-and-add over the limbs of a scalar from position `i` on,
/// least-significant limb first.
pub open spec fn pm_smul_limbs(
    result: PointModel,
    temp: PointModel,
    s: Seq<u64>,
    i: nat,
) -> PointModel
    decreases s.len() - i,
{
    if i >= s.len() {
        result
    } else {
        let st = pm_smul_bits(result, temp, s[i as int], 0);
        pm_smul_limbs(st.0, st.1, s, i + 1)
    }
}

/// Scalar multiplication on point models: always-double-and-add over all
/// 64 bits of every limb supplied, least-significant limb first.
pub open spec fn pm_smul(p: PointModel, s: Seq<u64>) -> PointModel {
    pm_smul_limbs(PointModel::Infinity, p, s, 0)
}

/// The membership equation on point models: the point at infinity is a
/// member; a finite point is a member when y^2 = x^3 + a*x.
pub open spec fn pm_on_curve(p: PointModel) -> bool {
    match p {
        PointModel::Infinity => true,
        PointModel::Finite { x, y } => f_mul(y, y) == f_add(f_pow(x, 3), f_mul(curve_a(), x)),
    }
}

/// Subtracting distinct canonical residues gives a nonzero residue.
proof fn lemma_sub_nonzero(a: nat, b: nat)
    requires
        a < p25519(),
        b < p25519(),
        a != b,
    ensures
        f_sub(a, b) != 0,
{
    if a > b {
        lemma_mod_multiples_vanish(1, (a - b) as int, p25519() as int);
        lemma_small_mod((a - b) as nat, p25519());
    } else {
        lemma_small_mod((a + p25519() - b) as nat, p25519());
    }
}

/// Doubling a nonzero canonical residue gives a nonzero residue, since
/// the modulus is odd.
proof fn lemma_double_nonzero(y: nat)
    requires
        0 < y < p25519(),
    ensures
        f_mul(y, 2) != 0,
{
    if 2 * y < p25519() {
        lemma_small_mod(2 * y, p25519());
    } else {
        lemma_mod_multiples_vanish(1, (2 * y - p25519()) as int, p25519() as int);
        lemma_small_mod((2 * y - p25519()) as nat, p25519());
    }
}

/// A short-Weierstrass-style curve y^2 = x^3 + a*x over the 256-bit prime
/// field, with a = 486662.
#[derive(Clone, Debug, PartialEq)]
pub struct Curve25519;

impl EllipticCurve for Curve25519 {
    type BaseField = Fp25519;

    type Point = AffinePoint<Fp25519>;

    /// The coordinates are canonical residues.
    open spec fn pt_wf(p: &Self::Point) -> bool {
        fp_wf(p.x) && fp_wf(p.y)
    }

    /// The value of a point: infinity, or its coordinate residues.
    open spec fn pt_model(p: &Self::Point) -> PointModel {
        if p.infinity {
            PointModel::Infinity
        } else {
            PointModel::Finite { x: fp_val(p.x), y: fp_val(p.y) }
        }
    }

    open spec fn add_model(p: PointModel, q: PointModel) -> PointModel {
        pm_add(p, q)
    }

    open spec fn smul_model(p: PointModel, s: Seq<u64>) -> PointModel {
        pm_smul(p, s)
    }

    open spec fn on_curve_model(p: PointModel) -> bool {
        pm_on_curve(p)
    }

    /// The published base point: x = 9 and a fixed y value.
    open spec fn generator_model() -> PointModel {
        PointModel::Finite {
            x: 9,
            y: 0x5F51E65E475F794B + t64() * 0x1234567890ABCDEF + t128() * 0xFEDCBA9876543210
                + t192() * 0x123456789ABCDEF0,
        }
    }

    /// The published order of the curve group.
    open spec fn order_nat() -> nat {
        0x1000000000000000 + t128() * 0x14DEF9DEA2F79CD6 + t192() * 0x5812631A5CF5D3ED
    }

    fn identity() -> (r: Self::Point) {
        AffinePoint { x: Fp25519::zero(), y: Fp25519::zero(), infinity: true }
    }

    fn generator() -> (r: Self::Point) {
        let x = Fp25519::new([9, 0, 0, 0]);
        let y = Fp25519::new(
            [0x5F51E65E475F794B, 0x1234567890ABCDEF, 0xFEDCBA9876543210, 0x123456789ABCDEF0],
        );
        proof {
            lemma_small_mod(limbs_val([9u64, 0u64, 0u64, 0u64]), p25519());
            lemma_small_mod(
                limbs_val(
                    [
                        0x5F51E65E475F794Bu64,
                        0x1234567890ABCDEFu64,
                        0xFEDCBA9876543210u64,
                        0x123456789ABCDEF0u64,
                    ],
                ),
                p25519(),
            );
        }
        AffinePoint { x, y, infinity: false }
    }

    fn order() -> (r: Vec<u64>) {
        let r: Vec<u64> = vec![0x1000000000000000, 0x0000000000000000, 0x14DEF9DEA2F79CD6, 0x5812631A5CF5D3ED];
        proof {
            lemma_nat_of_limbs4(r@);
        }
        r
    }

    fn add_points(p1: &Self::Point, p2: &Self::Point) -> (r: Self::Point) {
        if p1.infinity {
            return *p2;
        }
        if p2.infinity {
            return *p1;
        }
        if p1.x == p2.x {
            if p1.y == p2.y {
                return Self::double_point(p1);
            }
            proof {
                if fp_val(p1.y) == fp_val(p2.y) {
                    lemma_fp_val_injective(p1.y, p2.y);
                }
            }
            return Self::identity();
        }
        proof {
            if fp_val(p1.x) == fp_val(p2.x) {
                lemma_fp_val_injective(p1.x, p2.x);
            }
            lemma_sub_nonzero(fp_val(p2.x), fp_val(p1.x));
        }
        let slope = (p2.y.sub(p1.y)).mul((p2.x.sub(p1.x)).inverse().unwrap());
        let x3 = slope.square().sub(p1.x).sub(p2.x);
        let y3 = slope.mul(p1.x.sub(x3)).sub(p1.y);
        AffinePoint { x: x3, y: y3, infinity: false }
    }

    fn scalar_mul(point: &Self::Point, scalar: &[u64]) -> (r: Self::Point) {
        let mut result = Self::identity();
        let mut temp = *point;
        let ghost goal = pm_smul(Self::pt_model(point), scalar@);
        let mut i: usize = 0;
        while i < scalar.len()
            invariant
                i <= scalar@.len(),
                Self::pt_wf(&result),
                Self::pt_wf(&temp),
                goal == pm_smul_limbs(
                    Self::pt_model(&result),
                    Self::pt_model(&temp),
                    scalar@,
                    i as nat,
                ),
            decreases scalar@.len() - i,
        {
            let limb: u64 = scalar[i];
            let mut bits: u64 = limb;
            let mut j: usize = 0;
            proof {
                lemma2_to64();
            }
            while j < 64
                invariant
                    j <= 64,
                    i < scalar@.len(),
                    limb == scalar@[i as int],
                    Self::pt_wf(&result),
                    Self::pt_wf(&temp),
                    bits as nat == limb as nat / pow2(j as nat),
                    goal == pm_smul_limbs(
                        pm_smul_bits(
                            Self::pt_model(&result),
                            Self::pt_model(&temp),
                            limb,
                            j as nat,
                        ).0,
                        pm_smul_bits(
                            Self::pt_model(&result),
                            Self::pt_model(&temp),
                            limb,
                            j as nat,
                        ).1,
                        scalar@,
                        (i + 1) as nat,
                    ),
                decreases 64 - j,
            {
                proof {
                    lemma_pow2_pos(j as nat);
                    assert(bits & 1 == bits % 2) by (bit_vector);
                }
                if bits & 1 == 1 {
                    result = Self::add_points(&result, &temp);
                }
                temp = Self::double_point(&temp);
                proof {
                    lemma_u64_shr_is_div(bits, 1);
                    lemma_pow2_adds(j as nat, 1);
                    lemma2_to64();
                    lemma_div_denominator(limb as int, pow2(j as nat) as int, 2);
                }
                bits = bits >> 1u64;
                j = j + 1;
            }
            i = i + 1;
        }
        result
    }

    fn is_on_curve(point: &Self::Point) -> (r: bool) {
        if point.infinity {
            return true;
        }
        let a = Fp25519::new([486662, 0, 0, 0]);
        proof {
            lemma_small_mod(limbs_val([486662u64, 0u64, 0u64, 0u64]), p25519());
        }
        let left = point.y.square();
        let right = point.x.pow(3).add(a.mul(point.x));
        let eq = left == right;
        proof {
            if !eq && fp_val(left) == fp_val(right) {
                lemma_fp_val_injective(left, right);
            }
        }
        eq
    }
}

impl Curve25519 {
    /// Doubles a point: the identity for the point at infinity and for
    /// points with a zero y-coordinate; otherwise the tangent formula.
    pub fn double_point(p: &AffinePoint<Fp25519>) -> (r: AffinePoint<Fp25519>)
        requires
            <Curve25519 as EllipticCurve>::pt_wf(p),
        ensures
            <Curve25519 as EllipticCurve>::pt_wf(&r),
            <Curve25519 as EllipticCurve>::pt_model(&r) == pm_double(
                <Curve25519 as EllipticCurve>::pt_model(p),
            ),
    {
        if p.infinity || p.y.is_zero() {
            return Self::identity();
        }
        let a = Fp25519::new([486662, 0, 0, 0]);
        let two = Fp25519::new([2, 0, 0, 0]);
        let three = Fp25519::new([3, 0, 0, 0]);
        proof {
            lemma_small_mod(limbs_val([486662u64, 0u64, 0u64, 0u64]), p25519());
            lemma_small_mod(limbs_val([2u64, 0u64, 0u64, 0u64]), p25519());
            lemma_small_mod(limbs_val([3u64, 0u64, 0u64, 0u64]), p25519());
            lemma_double_nonzero(fp_val(p.y));
        }
        let slope = (p.x.square().mul(three).add(a)).mul((p.y.mul(two)).inverse().unwrap());
        let x3 = slope.square().sub(p.x).sub(p.x);
        let y3 = slope.mul(p.x.sub(x3)).sub(p.y);
        AffinePoint { x: x3, y: y3, infinity: false }
    }
}

/// The point at infinity is neutral on both sides of the group law.
pub proof fn lemma_pm_add_identity(q: PointModel)
    ensures
        pm_add(PointModel::Infinity, q) == q,
        pm_add(q, PointModel::Infinity) == q,
{
}

/// The group law is consistent with doubling: adding a point to itself
/// gives its double.
pub proof fn lemma_pm_add_self(p: PointModel)
    ensures
        pm_add(p, p) == pm_double(p),
{
}

/// Adding a finite point to its negation (same x, opposite y) gives the
/// point at infinity.
pub proof fn lemma_pm_add_negation(x: nat, y: nat)
    requires
        x < p25519(),
        0 < y < p25519(),
    ensures
        pm_add(
            (PointModel::Finite { x: x, y: y }),
            (PointModel::Finite { x: x, y: f_neg(y) }),
        ) == PointModel::Infinity,
{
    lemma_small_mod((p25519() - y) as nat, p25519());
    assert(f_neg(y) == p25519() - y);
    assert(y + y != p25519());
}

/// The group law is symmetric whenever either point is the identity or
/// the two points share an x-coordinate. For the remaining case, the
/// chord formula, symmetry rests on Fermat's little theorem and is not
/// proved here.
pub proof fn lemma_pm_add_comm_shared_x(p: PointModel, q: PointModel)
    requires
        match (p, q) {
            (PointModel::Finite { x: x1, y: y1 }, PointModel::Finite { x: x2, y: y2 }) => x1
                == x2,
            _ => true,
        },
    ensures
        pm_add(p, q) == pm_add(q, p),
{
}

proof fn lemma_smul_bits_rest_zero(result: PointModel, temp: PointModel, limb: u64, j: nat)
    requires
        j <= 64,
        limb as nat / pow2(j) == 0,
    ensures
        pm_smul_bits(result, temp, limb, j).0 == result,
    decreases 64 - j,
{
    if j < 64 {
        lemma_pow2_pos(j);
        lemma_pow2_pos(j + 1);
        lemma_small_div_converse(limb as int, pow2(j) as int);
        lemma_pow2_strictly_increases(j, j + 1);
        lemma_basic_div(limb as int, pow2(j + 1) as int);
        lemma_smul_bits_rest_zero(result, pm_double(temp), limb, j + 1);
    }
}

/// Scalar multiplication by the one-limb scalar zero gives the identity.
pub proof fn lemma_pm_smul_zero(p: PointModel)
    ensures
        pm_smul(p, seq![0u64]) == PointModel::Infinity,
{
    let s = seq![0u64];
    lemma2_to64();
    assert(0u64 as nat / pow2(0) == 0);
    lemma_smul_bits_rest_zero(PointModel::Infinity, p, 0u64, 0);
    let st = pm_smul_bits(PointModel::Infinity, p, 0u64, 0);
    assert(pm_smul_limbs(st.0, st.1, s, 1) == st.0);
    assert(pm_smul(p, s) == st.0);
}

/// Scalar multiplication by the one-limb scalar two gives the double of
/// the point.
pub proof fn lemma_pm_smul_two(p: PointModel)
    ensures
        pm_smul(p, seq![2u64]) == pm_double(p),
{
    let s = seq![2u64];
    lemma2_to64();
    assert(2u64 as nat / pow2(0) == 2);
    assert(pm_smul_bits(PointModel::Infinity, p, 2u64, 0) == pm_smul_bits(
        PointModel::Infinity,
        pm_double(p),
        2u64,
        1,
    ));
    assert(2u64 as nat / pow2(1) == 1);
    assert(pm_add(PointModel::Infinity, pm_double(p)) == pm_double(p));
    assert(pm_smul_bits(PointModel::Infinity, pm_double(p), 2u64, 1) == pm_smul_bits(
        pm_double(p),
        pm_double(pm_double(p)),
        2u64,
        2,
    ));
    assert(2u64 as nat / pow2(2) == 0);
    lemma_smul_bits_rest_zero(pm_double(p), pm_double(pm_double(p)), 2u64, 2);
    let st = pm_smul_bits(PointModel::Infinity, p, 2u64, 0);
    assert(st.0 == pm_double(p));
    assert(pm_smul_limbs(st.0, st.1, s, 1) == st.0);
}

} // verus!
