use algebra::field::{Field, SquareRootField};
use algebra::fp25519::Fp25519;

fn fp(n: u64) -> Fp25519 {
    Fp25519::new([n, 0, 0, 0])
}

// Limbs of p - 1, the largest canonical residue.
const TOP: [u64; 4] = [
    0xFFFF_FFFF_FFFF_FFEC,
    0xFFFF_FFFF_FFFF_FFFF,
    0xFFFF_FFFF_FFFF_FFFF,
    0x7FFF_FFFF_FFFF_FFFF,
];

#[test]
fn add_small_values() {
    assert_eq!(fp(5).add(fp(7)), fp(12));
}

#[test]
fn add_commutes() {
    let a = Fp25519::new([1, 2, 3, 4]);
    let b = Fp25519::new([0xDEADBEEF, 7, 0, 9]);
    assert_eq!(a.clone().add(b.clone()), b.add(a));
}

#[test]
fn add_associates() {
    let a = Fp25519::new(TOP);
    let b = fp(123456789);
    let c = Fp25519::new([0, 0, 0, 0x1000]);
    let left = a.clone().add(b.clone()).add(c.clone());
    let right = a.add(b.add(c));
    assert_eq!(left, right);
}

#[test]
fn add_wraps_at_modulus() {
    // (p - 1) + (p - 1) = p - 2 modulo p.
    let a = Fp25519::new(TOP);
    let expected = Fp25519::new([
        0xFFFF_FFFF_FFFF_FFEB,
        0xFFFF_FFFF_FFFF_FFFF,
        0xFFFF_FFFF_FFFF_FFFF,
        0x7FFF_FFFF_FFFF_FFFF,
    ]);
    assert_eq!(a.clone().add(a), expected);
}

#[test]
fn construction_reduces_modulus_to_zero() {
    // The limbs of p itself denote the zero residue.
    let p_limbs = Fp25519::new([
        0xFFFF_FFFF_FFFF_FFED,
        0xFFFF_FFFF_FFFF_FFFF,
        0xFFFF_FFFF_FFFF_FFFF,
        0x7FFF_FFFF_FFFF_FFFF,
    ]);
    assert_eq!(p_limbs, Fp25519::zero());
    assert!(p_limbs.is_zero());
    // A value already below the modulus is left unchanged.
    assert_ne!(Fp25519::new(TOP), Fp25519::zero());
    assert_eq!(fp(2).add(fp(3)), fp(5));
}

#[test]
fn sub_small_values() {
    assert_eq!(fp(7).sub(fp(5)), fp(2));
    assert_eq!(fp(5).sub(fp(7)), fp(2).neg());
}

#[test]
fn mul_small_values() {
    assert_eq!(fp(6).mul(fp(7)), fp(42));
}

#[test]
fn mul_carries_across_limbs() {
    // 2^63 * 4 = 2^65, which lands in the second limb.
    let a = Fp25519::new([0x8000_0000_0000_0000, 0, 0, 0]);
    assert_eq!(a.mul(fp(4)), Fp25519::new([0, 2, 0, 0]));
}

#[test]
fn mul_distributes_over_add() {
    let a = fp(987654321);
    let b = Fp25519::new(TOP);
    let c = Fp25519::new([5, 6, 7, 8]);
    let left = a.clone().mul(b.clone().add(c.clone()));
    let right = a.clone().mul(b).add(a.mul(c));
    assert_eq!(left, right);
}

#[test]
fn mul_reduces_across_modulus() {
    // 2^200 * 2^100 = 2^300 = 2^45 * 2^255, and 2^255 is 19 modulo p,
    // so the product is 19 * 2^45.
    let a = Fp25519::new([0, 0, 0, 1 << 8]);
    let b = Fp25519::new([0, 1 << 36, 0, 0]);
    assert_eq!(a.mul(b), fp(19 << 45));
}

#[test]
fn inverse_cancels_for_large_element() {
    let a = Fp25519::new([0, 1, 0, 0]);
    let inv = a.clone().inverse().unwrap();
    assert_eq!(a.mul(inv), Fp25519::one());
}

#[test]
fn add_identity_is_neutral() {
    let a = Fp25519::new([9, 8, 7, 6]);
    assert_eq!(a.clone().add(Fp25519::zero()), a);
}

#[test]
fn mul_identity_is_neutral() {
    let a = Fp25519::new([9, 8, 7, 6]);
    assert_eq!(a.clone().mul(Fp25519::one()), a);
}

#[test]
fn neg_cancels() {
    let a = fp(123456789);
    assert_eq!(a.clone().add(a.neg()), Fp25519::zero());
    assert_eq!(Fp25519::zero().neg(), Fp25519::zero());
    assert_eq!(fp(1).neg(), Fp25519::new(TOP));
}

#[test]
fn pow_zero_gives_one() {
    assert_eq!(fp(12345).pow(0), Fp25519::one());
}

#[test]
fn pow_one_gives_base() {
    let a = Fp25519::new([3, 1, 4, 1]);
    assert_eq!(a.pow(1), Fp25519::new([3, 1, 4, 1]));
}

#[test]
fn pow_small_exponents() {
    assert_eq!(fp(2).pow(10), fp(1024));
    assert_eq!(fp(3).pow(5), fp(243));
}

#[test]
fn pow_adds_exponents() {
    let a = fp(3);
    assert_eq!(a.pow(5), a.pow(2).mul(a.pow(3)));
}

#[test]
fn square_matches_mul() {
    assert_eq!(fp(9).square(), fp(81));
    let a = Fp25519::new(TOP);
    assert_eq!(a.square(), a.clone().mul(a));
}

#[test]
fn inverse_of_zero_is_absent() {
    assert_eq!(Fp25519::zero().inverse(), None);
}

#[test]
fn inverse_of_one_is_one() {
    assert_eq!(fp(1).inverse(), Some(fp(1)));
}

#[test]
fn inverse_cancels() {
    let a = fp(2);
    let inv = a.inverse().unwrap();
    assert_eq!(a.mul(inv), Fp25519::one());
}

#[test]
fn assign_forms_match() {
    let mut x = fp(5);
    x.add_assign(fp(7));
    assert_eq!(x, fp(12));
    x.sub_assign(fp(2));
    assert_eq!(x, fp(10));
    x.mul_assign(fp(3));
    assert_eq!(x, fp(30));
}

#[test]
fn characteristic_limbs() {
    assert_eq!(
        Fp25519::characteristic(),
        vec![
            0xFFFF_FFFF_FFFF_FFED,
            0xFFFF_FFFF_FFFF_FFFF,
            0xFFFF_FFFF_FFFF_FFFF,
            0x7FFF_FFFF_FFFF_FFFF,
        ]
    );
}

#[test]
fn is_zero_classifies() {
    assert!(Fp25519::zero().is_zero());
    assert!(!Fp25519::one().is_zero());
}

#[test]
fn sqrt_is_reported_absent() {
    assert_eq!(fp(4).sqrt(), None);
}

#[test]
fn legendre_of_zero() {
    assert_eq!(Fp25519::zero().legendre(), 0);
}

#[test]
fn legendre_of_residues() {
    assert_eq!(fp(1).legendre(), 1);
    assert_eq!(fp(4).legendre(), 1);
}

#[test]
fn legendre_of_non_residue() {
    // 2 is a quadratic non-residue modulo 2^255 - 19, which is 5 mod 8.
    assert_eq!(fp(2).legendre(), -1);
}
