use algebra::curve25519::Curve25519;
use algebra::ec::{AffinePoint, EllipticCurve};
use algebra::field::Field;
use algebra::fp25519::Fp25519;

fn fp(n: u64) -> Fp25519 {
    Fp25519::new([n, 0, 0, 0])
}

fn point(x: u64, y: u64) -> AffinePoint<Fp25519> {
    AffinePoint { x: fp(x), y: fp(y), infinity: false }
}

#[test]
fn identity_is_infinite() {
    let id = Curve25519::identity();
    assert!(id.infinity);
}

#[test]
fn identity_is_on_curve() {
    assert!(Curve25519::is_on_curve(&Curve25519::identity()));
}

#[test]
fn generator_coordinates() {
    let g = Curve25519::generator();
    assert!(!g.infinity);
    assert_eq!(g.x, fp(9));
    assert_eq!(
        g.y,
        Fp25519::new([
            0x5F51E65E475F794B,
            0x1234567890ABCDEF,
            0xFEDCBA9876543210,
            0x123456789ABCDEF0,
        ])
    );
}

#[test]
fn order_limbs() {
    assert_eq!(
        Curve25519::order(),
        vec![
            0x1000000000000000,
            0x0000000000000000,
            0x14DEF9DEA2F79CD6,
            0x5812631A5CF5D3ED,
        ]
    );
}

#[test]
fn add_identity_on_left() {
    let g = Curve25519::generator();
    assert_eq!(Curve25519::add_points(&Curve25519::identity(), &g), g);
}

#[test]
fn add_identity_on_right() {
    let g = Curve25519::generator();
    assert_eq!(Curve25519::add_points(&g, &Curve25519::identity()), g);
}

#[test]
fn add_commutes_on_points() {
    let p = point(2, 3);
    let q = point(5, 7);
    assert_eq!(
        Curve25519::add_points(&p, &q),
        Curve25519::add_points(&q, &p)
    );
}

#[test]
fn add_of_equal_points_is_double() {
    let p = point(2, 3);
    assert_eq!(
        Curve25519::add_points(&p, &p),
        Curve25519::double_point(&p)
    );
}

#[test]
fn double_of_order_two_point_is_identity() {
    // A zero y-coordinate marks a point of order two.
    let p = point(5, 0);
    let d = Curve25519::double_point(&p);
    assert!(d.infinity);
}

#[test]
fn add_negation_pair_gives_identity() {
    let p = point(2, 3);
    let q = AffinePoint { x: fp(2), y: fp(3).neg(), infinity: false };
    let sum = Curve25519::add_points(&p, &q);
    assert!(sum.infinity);
}

#[test]
fn scalar_zero_gives_identity() {
    let p = point(2, 3);
    let r = Curve25519::scalar_mul(&p, &[0]);
    assert!(r.infinity);
}

#[test]
fn scalar_empty_gives_identity() {
    let p = point(2, 3);
    let r = Curve25519::scalar_mul(&p, &[]);
    assert!(r.infinity);
}

#[test]
fn scalar_one_gives_point() {
    let p = point(2, 3);
    assert_eq!(Curve25519::scalar_mul(&p, &[1]), p);
}

#[test]
fn scalar_two_matches_double() {
    let p = point(2, 3);
    assert_eq!(
        Curve25519::scalar_mul(&p, &[2]),
        Curve25519::add_points(&p, &p)
    );
}

#[test]
fn origin_satisfies_curve_equation() {
    // (0, 0) satisfies y^2 = x^3 + a*x.
    assert!(Curve25519::is_on_curve(&point(0, 0)));
}

#[test]
fn off_curve_point_is_rejected() {
    assert!(!Curve25519::is_on_curve(&point(1, 1)));
}
