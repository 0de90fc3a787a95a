//! A concrete 256-bit prime-field element: a residue modulo
//! p = 2^255 - 19, held as four 64-bit limbs, least-significant first.
//!
//! Every publicly observable element is fully reduced: its value is in
//! [0, p). Arithmetic is exact modular arithmetic over that range.

use vstd::prelude::*;

verus! {

use crate::field::{Field, SquareRootField, nat_of_limbs};
use vstd::arithmetic::div_mod::{
    lemma_small_mod,
    lemma_mod_multiples_vanish,
    lemma_add_mod_noop,
    lemma_mul_mod_noop_general,
    lemma_fundamental_div_mod,
    lemma_fundamental_div_mod_converse,
    lemma_div_denominator,
    lemma_basic_div,
    lemma_mod_self_0,
    lemma_hoist_over_denominator,
};
use vstd::arithmetic::div_mod::{lemma_mul_mod_noop_right, lemma_add_mod_noop_right};
use vstd::arithmetic::mul::lemma_mul_is_distributive_add;
use vstd::arithmetic::power::{pow, lemma_pow0, lemma_pow1, lemma_pow_adds, lemma_pow_positive, lemma0_pow};
use vstd::arithmetic::power2::{pow2, lemma_pow2_adds, lemma_pow2_pos, lemma2_to64, lemma2_to64_rest};
use vstd::bits::lemma_u64_shr_is_div;

/// The low limb of the prime modulus.
pub const P0: u64 = 0xFFFF_FFFF_FFFF_FFED;

/// The second limb of the prime modulus.
pub const P1: u64 = 0xFFFF_FFFF_FFFF_FFFF;

/// The third limb of the prime modulus.
pub const P2: u64 = 0xFFFF_FFFF_FFFF_FFFF;

/// The top limb of the prime modulus.
pub const P3: u64 = 0x7FFF_FFFF_FFFF_FFFF;

/// 2^64, the weight of the second limb.
pub open spec fn t64() -> nat {
    0x10000000000000000nat
}

/// 2^128, the weight of the third limb.
pub open spec fn t128() -> nat {
    0x100000000000000000000000000000000nat
}

/// 2^192, the weight of the top limb.
pub open spec fn t192() -> nat {
    0x1000000000000000000000000000000000000000000000000nat
}

/// 2^256, one past the largest value four limbs can hold.
pub open spec fn t256() -> nat {
    0x10000000000000000000000000000000000000000000000000000000000000000nat
}

/// The prime modulus p = 2^255 - 19.
pub open spec fn p25519() -> nat {
    P0 as nat + t64() * P1 as nat + t128() * P2 as nat + t192() * P3 as nat
}

/// The integer denoted by four limbs, least-significant first.
pub open spec fn limbs_val(l: [u64; 4]) -> nat {
    l[0] as nat + t64() * l[1] as nat + t128() * l[2] as nat + t192() * l[3] as nat
}

/// A residue class modulo p = 2^255 - 19, as four 64-bit limbs,
/// least-significant first.
#[derive(Clone, Copy, PartialEq, Eq, Structural, Debug)]
pub struct Fp25519 {
    v0: u64,
    v1: u64,
    v2: u64,
    v3: u64,
}

/// The integer held in the limbs of `e`, before any reduction.
pub closed spec fn fp_val(e: Fp25519) -> nat {
    e.v0 as nat + t64() * e.v1 as nat + t128() * e.v2 as nat + t192() * e.v3 as nat
}

/// `e` is fully reduced: it holds a canonical residue.
pub open spec fn fp_wf(e: Fp25519) -> bool {
    fp_val(e) < p25519()
}

/// Four limbs denote less than 2^256.
proof fn lemma_fp_val_bound(e: Fp25519)
    ensures
        fp_val(e) < t256(),
{
}

/// Limb representations are unique: equal values mean equal limbs.
pub proof fn lemma_fp_val_injective(a: Fp25519, b: Fp25519)
    requires
        fp_val(a) == fp_val(b),
    ensures
        a == b,
{
    assert(a.v0 == b.v0 && a.v1 == b.v1 && a.v2 == b.v2 && a.v3 == b.v3) by {
        lemma_limb_cancel(a.v0 as nat, a.v1 as nat, a.v2 as nat, a.v3 as nat, b.v0 as nat,
            b.v1 as nat, b.v2 as nat, b.v3 as nat);
    }
}

proof fn lemma_limb_cancel(a0: nat, a1: nat, a2: nat, a3: nat, b0: nat, b1: nat, b2: nat, b3: nat)
    requires
        a0 < t64(),
        a1 < t64(),
        a2 < t64(),
        a3 < t64(),
        b0 < t64(),
        b1 < t64(),
        b2 < t64(),
        b3 < t64(),
        a0 + t64() * a1 + t128() * a2 + t192() * a3 == b0 + t64() * b1 + t128() * b2 + t192()
            * b3,
    ensures
        a0 == b0 && a1 == b1 && a2 == b2 && a3 == b3,
{
    let x = a0 + t64() * a1 + t128() * a2 + t192() * a3;
    let ha = a1 + t64() * a2 + t128() * a3;
    let hb = b1 + t64() * b2 + t128() * b3;
    assert(x == t64() * ha + a0);
    assert(x == t64() * hb + b0);
    lemma_fundamental_div_mod_converse(x as int, t64() as int, ha as int, a0 as int);
    lemma_fundamental_div_mod_converse(x as int, t64() as int, hb as int, b0 as int);
    assert(a0 == b0 && ha == hb);
    let ga = a2 + t64() * a3;
    let gb = b2 + t64() * b3;
    assert(ha == t64() * ga + a1);
    assert(hb == t64() * gb + b1);
    lemma_fundamental_div_mod_converse(ha as int, t64() as int, ga as int, a1 as int);
    lemma_fundamental_div_mod_converse(hb as int, t64() as int, gb as int, b1 as int);
    assert(a1 == b1 && ga == gb);
    lemma_fundamental_div_mod_converse(ga as int, t64() as int, a3 as int, a2 as int);
    lemma_fundamental_div_mod_converse(gb as int, t64() as int, b3 as int, b2 as int);
}

/// The element whose limbs are those of the modulus itself.
fn p_elem() -> (r: Fp25519)
    ensures
        fp_val(r) == p25519(),
{
    Fp25519 { v0: P0, v1: P1, v2: P2, v3: P3 }
}

/// Limb-wise sum with carry propagation, for sums that fit in four limbs.
fn add_raw(a: &Fp25519, b: &Fp25519) -> (r: Fp25519)
    requires
        fp_val(*a) + fp_val(*b) < t256(),
    ensures
        fp_val(r) == fp_val(*a) + fp_val(*b),
{
    let s0: u128 = a.v0 as u128 + b.v0 as u128;
    let c0: u64 = if s0 >= 0x1_0000_0000_0000_0000u128 {
        1
    } else {
        0
    };
    let d0: u64 = if s0 >= 0x1_0000_0000_0000_0000u128 {
        (s0 - 0x1_0000_0000_0000_0000u128) as u64
    } else {
        s0 as u64
    };
    let s1: u128 = a.v1 as u128 + b.v1 as u128 + c0 as u128;
    let c1: u64 = if s1 >= 0x1_0000_0000_0000_0000u128 {
        1
    } else {
        0
    };
    let d1: u64 = if s1 >= 0x1_0000_0000_0000_0000u128 {
        (s1 - 0x1_0000_0000_0000_0000u128) as u64
    } else {
        s1 as u64
    };
    let s2: u128 = a.v2 as u128 + b.v2 as u128 + c1 as u128;
    let c2: u64 = if s2 >= 0x1_0000_0000_0000_0000u128 {
        1
    } else {
        0
    };
    let d2: u64 = if s2 >= 0x1_0000_0000_0000_0000u128 {
        (s2 - 0x1_0000_0000_0000_0000u128) as u64
    } else {
        s2 as u64
    };
    let s3: u128 = a.v3 as u128 + b.v3 as u128 + c2 as u128;
    let c3: u64 = if s3 >= 0x1_0000_0000_0000_0000u128 {
        1
    } else {
        0
    };
    let d3: u64 = if s3 >= 0x1_0000_0000_0000_0000u128 {
        (s3 - 0x1_0000_0000_0000_0000u128) as u64
    } else {
        s3 as u64
    };
    let r = Fp25519 { v0: d0, v1: d1, v2: d2, v3: d3 };
    proof {
        assert(d0 as nat + t64() * c0 as nat == a.v0 as nat + b.v0 as nat);
        assert(d1 as nat + t64() * c1 as nat == a.v1 as nat + b.v1 as nat + c0 as nat);
        assert(d2 as nat + t64() * c2 as nat == a.v2 as nat + b.v2 as nat + c1 as nat);
        assert(d3 as nat + t64() * c3 as nat == a.v3 as nat + b.v3 as nat + c2 as nat);
        assert(fp_val(r) + t256() * c3 as nat == fp_val(*a) + fp_val(*b));
        assert(c3 == 0);
    }
    r
}

/// Limb-wise difference with borrow propagation, for a minuend at least
/// as large as the subtrahend.
fn sub_raw(a: &Fp25519, b: &Fp25519) -> (r: Fp25519)
    requires
        fp_val(*b) <= fp_val(*a),
    ensures
        fp_val(r) == fp_val(*a) - fp_val(*b),
{
    let (d0, w0): (u64, u64) = if (a.v0 as u128) < b.v0 as u128 {
        (((a.v0 as u128 + 0x1_0000_0000_0000_0000u128) - b.v0 as u128) as u64, 1)
    } else {
        (a.v0 - b.v0, 0)
    };
    let (d1, w1): (u64, u64) = if (a.v1 as u128) < b.v1 as u128 + w0 as u128 {
        (((a.v1 as u128 + 0x1_0000_0000_0000_0000u128) - b.v1 as u128 - w0 as u128) as u64, 1)
    } else {
        ((a.v1 as u128 - b.v1 as u128 - w0 as u128) as u64, 0)
    };
    let (d2, w2): (u64, u64) = if (a.v2 as u128) < b.v2 as u128 + w1 as u128 {
        (((a.v2 as u128 + 0x1_0000_0000_0000_0000u128) - b.v2 as u128 - w1 as u128) as u64, 1)
    } else {
        ((a.v2 as u128 - b.v2 as u128 - w1 as u128) as u64, 0)
    };
    let (d3, w3): (u64, u64) = if (a.v3 as u128) < b.v3 as u128 + w2 as u128 {
        (((a.v3 as u128 + 0x1_0000_0000_0000_0000u128) - b.v3 as u128 - w2 as u128) as u64, 1)
    } else {
        ((a.v3 as u128 - b.v3 as u128 - w2 as u128) as u64, 0)
    };
    let r = Fp25519 { v0: d0, v1: d1, v2: d2, v3: d3 };
    proof {
        assert(d0 as nat == a.v0 as nat - b.v0 as nat + t64() * w0 as nat);
        assert(d1 as nat == a.v1 as nat - b.v1 as nat - w0 as nat + t64() * w1 as nat);
        assert(d2 as nat == a.v2 as nat - b.v2 as nat - w1 as nat + t64() * w2 as nat);
        assert(d3 as nat == a.v3 as nat - b.v3 as nat - w2 as nat + t64() * w3 as nat);
        assert(fp_val(r) == fp_val(*a) - fp_val(*b) + t256() * w3 as nat);
        lemma_fp_val_bound(r);
        assert(w3 == 0);
    }
    r
}

/// Whether the limbs of `a` denote a value at or above the modulus.
fn geq_p(a: &Fp25519) -> (r: bool)
    ensures
        r == (fp_val(*a) >= p25519()),
{
    if a.v3 != P3 {
        proof {
            if a.v3 > P3 {
                assert(fp_val(*a) >= t192() * a.v3 as nat);
                assert(t192() * a.v3 as nat >= t192() * P3 as nat + t192());
            } else {
                assert(fp_val(*a) < t192() * a.v3 as nat + t192());
                assert(t192() * a.v3 as nat + t192() <= t192() * P3 as nat);
            }
        }
        a.v3 > P3
    } else if a.v2 != P2 {
        proof {
            if a.v2 > P2 {
                assert(fp_val(*a) >= t192() * a.v3 as nat + t128() * a.v2 as nat);
            } else {
                assert(fp_val(*a) < t192() * a.v3 as nat + t128() * a.v2 as nat + t128());
            }
        }
        a.v2 > P2
    } else if a.v1 != P1 {
        proof {
            if a.v1 > P1 {
                assert(fp_val(*a) >= t192() * a.v3 as nat + t128() * a.v2 as nat + t64()
                    * a.v1 as nat);
            } else {
                assert(fp_val(*a) < t192() * a.v3 as nat + t128() * a.v2 as nat + t64()
                    * a.v1 as nat + t64());
            }
        }
        a.v1 > P1
    } else {
        a.v0 >= P0
    }
}

impl Fp25519 {
    /// Constructs the element standing for the value of the given limbs,
    /// least-significant limb first, reduced to its canonical residue.
    pub fn new(value: [u64; 4]) -> (r: Self)
        ensures
            fp_wf(r),
            fp_val(r) == limbs_val(value) % p25519(),
    {
        let mut result = Self { v0: value[0], v1: value[1], v2: value[2], v3: value[3] };
        result.reduce();
        result
    }

    /// Reduces the value held in the limbs modulo p. At most two
    /// subtractions of the modulus are needed, since four limbs hold less
    /// than 3p.
    pub fn reduce(&mut self)
        ensures
            fp_wf(*final(self)),
            fp_val(*final(self)) == fp_val(*old(self)) % p25519(),
    {
        proof {
            lemma_fp_val_bound(*old(self));
        }
        let ghost x = fp_val(*self);
        if geq_p(self) {
            let cur = *self;
            *self = sub_raw(&cur, &p_elem());
        }
        if geq_p(self) {
            let cur = *self;
            *self = sub_raw(&cur, &p_elem());
        }
        proof {
            if x < p25519() {
                lemma_small_mod(x, p25519());
            } else if x < 2 * p25519() {
                lemma_mod_multiples_vanish(1, (x - p25519()) as int, p25519() as int);
                lemma_small_mod((x - p25519()) as nat, p25519());
            } else {
                lemma_mod_multiples_vanish(2, (x - 2 * p25519()) as int, p25519() as int);
                lemma_small_mod((x - 2 * p25519()) as nat, p25519());
            }
        }
    }
}

/// Field addition of residues: the canonical representative of the sum.
pub open spec fn f_add(a: nat, b: nat) -> nat {
    (a + b) % p25519()
}

/// Field subtraction of residues.
pub open spec fn f_sub(a: nat, b: nat) -> nat {
    (((a + p25519() - b) as int) % (p25519() as int)) as nat
}

/// Field multiplication of residues.
pub open spec fn f_mul(a: nat, b: nat) -> nat {
    (a * b) % p25519()
}

/// The additive opposite of a residue.
pub open spec fn f_neg(a: nat) -> nat {
    (((p25519() - a) as int) % (p25519() as int)) as nat
}

/// A residue raised to a power, reduced.
pub open spec fn f_pow(a: nat, e: nat) -> nat {
    (pow(a as int, e) % (p25519() as int)) as nat
}

/// The multiplicative inverse of a nonzero residue, by Fermat's little
/// theorem: a^(p-2) mod p.
pub open spec fn f_inv(a: nat) -> nat {
    f_pow(a, (p25519() - 2) as nat)
}

proof fn lemma_pow2_vals()
    ensures
        pow2(64) == t64(),
        pow2(128) == t128(),
        pow2(192) == t192(),
        pow2(256) == t256(),
{
    lemma2_to64();
    lemma2_to64_rest();
    lemma_pow2_adds(64, 64);
    lemma_pow2_adds(128, 64);
    lemma_pow2_adds(192, 64);
}

spec fn limb_of(e: Fp25519, q: nat) -> u64 {
    if q == 0 {
        e.v0
    } else if q == 1 {
        e.v1
    } else if q == 2 {
        e.v2
    } else {
        e.v3
    }
}

fn get_limb(e: &Fp25519, q: usize) -> (r: u64)
    requires
        q < 4,
    ensures
        r == limb_of(*e, q as nat),
{
    if q == 0 {
        e.v0
    } else if q == 1 {
        e.v1
    } else if q == 2 {
        e.v2
    } else {
        e.v3
    }
}

/// Bit `k` of the value held in the limbs is bit `k % 64` of limb `k / 64`.
proof fn lemma_bit(e: Fp25519, k: nat)
    requires
        k < 256,
    ensures
        (fp_val(e) / pow2(k)) % 2 == (limb_of(e, k / 64) as nat / pow2((k % 64) as nat)) % 2,
{
    lemma_pow2_vals();
    let q = k / 64;
    let j = (k % 64) as nat;
    let x = fp_val(e);
    assert(k == 64 * q + j);
    let h: nat = if q == 0 {
        x
    } else if q == 1 {
        e.v1 as nat + t64() * e.v2 as nat + t128() * e.v3 as nat
    } else if q == 2 {
        e.v2 as nat + t64() * e.v3 as nat
    } else {
        e.v3 as nat
    };
    lemma_pow2_pos(j);
    lemma_pow2_pos((64 * q) as nat);
    if q == 0 {
        assert(pow2(0) == 1) by {
            lemma2_to64();
        }
        assert(x / pow2(0) == h);
    } else if q == 1 {
        assert(x == h * pow2(64) + e.v0 as nat);
        lemma_fundamental_div_mod_converse(x as int, pow2(64) as int, h as int, e.v0 as int);
    } else if q == 2 {
        assert(x == h * pow2(128) + (e.v0 as nat + t64() * e.v1 as nat));
        lemma_fundamental_div_mod_converse(x as int, pow2(128) as int, h as int, (e.v0 as nat
            + t64() * e.v1 as nat) as int);
    } else {
        assert(x == h * pow2(192) + (e.v0 as nat + t64() * e.v1 as nat + t128() * e.v2 as nat));
        lemma_fundamental_div_mod_converse(x as int, pow2(192) as int, h as int, (e.v0 as nat
            + t64() * e.v1 as nat + t128() * e.v2 as nat) as int);
    }
    assert(x / pow2((64 * q) as nat) == h);
    lemma_pow2_adds((64 * q) as nat, j);
    lemma_div_denominator(x as int, pow2((64 * q) as nat) as int, pow2(j) as int);
    assert(x / pow2(k) == h / pow2(j));
    let limb = limb_of(e, q) as nat;
    let t: nat = if q == 0 {
        e.v1 as nat + t64() * e.v2 as nat + t128() * e.v3 as nat
    } else if q == 1 {
        e.v2 as nat + t64() * e.v3 as nat
    } else if q == 2 {
        e.v3 as nat
    } else {
        0
    };
    assert(h == limb + pow2(64) * t);
    if t == 0 {
        assert(h == limb);
    } else {
        let m = pow2((64 - j) as nat) * t;
        assert(pow2(64) == pow2(j) * pow2((64 - j) as nat)) by {
            lemma_pow2_adds(j, (64 - j) as nat);
        }
        assert(h == limb + m * pow2(j)) by {
            assert((pow2(j) * pow2((64 - j) as nat)) * t == (pow2((64 - j) as nat) * t) * pow2(
                j)) by (nonlinear_arith);
        }
        lemma_hoist_over_denominator(limb as int, m as int, pow2(j));
        assert(h / pow2(j) == limb / pow2(j) + m);
        assert(pow2((64 - j) as nat) == 2 * pow2((63 - j) as nat)) by {
            lemma_pow2_adds(1, (63 - j) as nat);
            lemma2_to64();
        }
        let u = pow2((63 - j) as nat) * t;
        assert(m == 2 * u) by {
            assert((2 * pow2((63 - j) as nat)) * t == 2 * (pow2((63 - j) as nat)
                * t)) by (nonlinear_arith);
        }
        lemma_mod_multiples_vanish(u as int, (limb / pow2(j)) as int, 2);
        assert((h / pow2(j)) % 2 == (limb / pow2(j)) % 2);
    }
}

/// Reduced sum of two canonical residues.
fn addm(x: Fp25519, y: Fp25519) -> (r: Fp25519)
    requires
        fp_wf(x),
        fp_wf(y),
    ensures
        fp_wf(r),
        fp_val(r) == f_add(fp_val(x), fp_val(y)),
{
    let mut s = add_raw(&x, &y);
    s.reduce();
    s
}

/// Reduced difference of two canonical residues.
fn subm(x: Fp25519, y: Fp25519) -> (r: Fp25519)
    requires
        fp_wf(x),
        fp_wf(y),
    ensures
        fp_wf(r),
        fp_val(r) == f_sub(fp_val(x), fp_val(y)),
{
    let pm = sub_raw(&p_elem(), &y);
    let mut s = add_raw(&x, &pm);
    s.reduce();
    s
}

/// Reduced product of two canonical residues, by binary double-and-add
/// over the 256 bits of the second factor, most significant first.
fn mulm(a: Fp25519, b: Fp25519) -> (r: Fp25519)
    requires
        fp_wf(a),
        fp_wf(b),
    ensures
        fp_wf(r),
        fp_val(r) == f_mul(fp_val(a), fp_val(b)),
{
    let mut result = Fp25519 { v0: 0, v1: 0, v2: 0, v3: 0 };
    let ghost av = fp_val(a) as int;
    let ghost bv = fp_val(b);
    let ghost p = p25519() as int;
    proof {
        lemma_pow2_vals();
        lemma_basic_div(bv as int, pow2(256) as int);
        lemma_small_mod(0, p25519());
        assert(bv / pow2(256) == 0);
        assert(av * 0 == 0);
    }
    let mut k: usize = 256;
    while k > 0
        invariant
            k <= 256,
            fp_wf(a),
            fp_wf(b),
            fp_wf(result),
            av == fp_val(a) as int,
            bv == fp_val(b),
            p == p25519() as int,
            fp_val(result) as int == (av * ((bv / pow2(k as nat)) as int)) % p,
        decreases k,
    {
        let ghost qk = bv / pow2(k as nat);
        k = k - 1;
        let ghost qk1 = bv / pow2(k as nat);
        let q: usize = k / 64;
        let j: usize = k % 64;
        let limb: u64 = get_limb(&b, q);
        let sh: u64 = (limb >> (j as u64)) & 1;
        proof {
            lemma_pow2_vals();
            lemma_pow2_pos(j as nat);
            lemma_pow2_pos(k as nat);
            lemma_u64_shr_is_div(limb, j as u64);
            assert((limb >> (j as u64)) & 1 == (limb >> (j as u64)) % 2) by (bit_vector);
            lemma_bit(b, k as nat);
            assert(sh as nat == qk1 % 2);
            lemma_pow2_adds(k as nat, 1);
            lemma2_to64();
            lemma_div_denominator(bv as int, pow2(k as nat) as int, 2);
            lemma_fundamental_div_mod(qk1 as int, 2);
            assert(qk1 == 2 * qk + sh as nat);
        }
        let doubled = addm(result, result);
        result = if sh == 1 {
            addm(doubled, a)
        } else {
            doubled
        };
        proof {
            lemma_add_mod_noop(av * qk as int, av * qk as int, p);
            assert(av * qk as int + av * qk as int == av * (2 * qk as int)) by (nonlinear_arith);
            assert(fp_val(doubled) as int == (av * (2 * qk as int)) % p);
            if sh == 1 {
                lemma_small_mod(fp_val(a), p25519());
                lemma_add_mod_noop(av * (2 * qk as int), av, p);
                assert(av * (2 * qk as int) + av == av * (2 * qk as int + 1)) by (nonlinear_arith);
            }
            assert(fp_val(result) as int == (av * qk1 as int) % p);
        }
    }
    proof {
        lemma2_to64();
        assert(bv / pow2(0) == bv);
    }
    result
}

/// The base raised to the 256-bit exponent held in the limbs of `e`, by
/// binary square-and-multiply, most significant bit first.
fn pow_limbs(base: &Fp25519, e: &Fp25519) -> (r: Fp25519)
    requires
        fp_wf(*base),
    ensures
        fp_wf(r),
        fp_val(r) == f_pow(fp_val(*base), fp_val(*e)),
{
    let mut result = Fp25519 { v0: 1, v1: 0, v2: 0, v3: 0 };
    let ghost av = fp_val(*base) as int;
    let ghost ev = fp_val(*e);
    let ghost p = p25519() as int;
    proof {
        lemma_pow2_vals();
        lemma_basic_div(ev as int, pow2(256) as int);
        lemma_pow0(av);
        lemma_small_mod(1, p25519());
    }
    let mut k: usize = 256;
    while k > 0
        invariant
            k <= 256,
            fp_wf(*base),
            fp_wf(result),
            av == fp_val(*base) as int,
            ev == fp_val(*e),
            p == p25519() as int,
            fp_val(result) as int == pow(av, ev / pow2(k as nat)) % p,
        decreases k,
    {
        let ghost qk = ev / pow2(k as nat);
        k = k - 1;
        let ghost qk1 = ev / pow2(k as nat);
        let q: usize = k / 64;
        let j: usize = k % 64;
        let limb: u64 = get_limb(e, q);
        let sh: u64 = (limb >> (j as u64)) & 1;
        proof {
            lemma_pow2_vals();
            lemma_pow2_pos(j as nat);
            lemma_pow2_pos(k as nat);
            lemma_u64_shr_is_div(limb, j as u64);
            assert((limb >> (j as u64)) & 1 == (limb >> (j as u64)) % 2) by (bit_vector);
            lemma_bit(*e, k as nat);
            assert(sh as nat == qk1 % 2);
            lemma_pow2_adds(k as nat, 1);
            lemma2_to64();
            lemma_div_denominator(ev as int, pow2(k as nat) as int, 2);
            lemma_fundamental_div_mod(qk1 as int, 2);
            assert(qk1 == 2 * qk + sh as nat);
        }
        let squared = mulm(result, result);
        result = if sh == 1 {
            mulm(squared, *base)
        } else {
            squared
        };
        proof {
            lemma_mul_mod_noop_general(pow(av, qk), pow(av, qk), p);
            lemma_pow_adds(av, qk, qk);
            assert(fp_val(squared) as int == pow(av, (2 * qk) as nat) % p);
            if sh == 1 {
                lemma_small_mod(fp_val(*base), p25519());
                lemma_mul_mod_noop_general(pow(av, (2 * qk) as nat), av, p);
                lemma_pow1(av);
                lemma_pow_adds(av, (2 * qk) as nat, 1);
            }
            assert(fp_val(result) as int == pow(av, qk1) % p);
        }
    }
    proof {
        lemma2_to64();
        assert(ev / pow2(0) == ev);
    }
    result
}

/// The limbs of p - 2, the inverting exponent of Fermat's little theorem.
fn p_minus_2() -> (r: Fp25519)
    ensures
        fp_val(r) == p25519() - 2,
{
    Fp25519 { v0: 0xFFFF_FFFF_FFFF_FFEB, v1: P1, v2: P2, v3: P3 }
}

/// The limbs of (p - 1) / 2, the exponent of Euler's criterion.
fn half_p_minus_1() -> (r: Fp25519)
    ensures
        fp_val(r) == (p25519() - 1) / 2,
{
    let r = Fp25519 {
        v0: 0xFFFF_FFFF_FFFF_FFF6,
        v1: P1,
        v2: P2,
        v3: 0x3FFF_FFFF_FFFF_FFFF,
    };
    proof {
        lemma_fundamental_div_mod_converse(
            (p25519() - 1) as int,
            2,
            fp_val(r) as int,
            0,
        );
    }
    r
}

pub proof fn lemma_nat_of_limbs4(s: Seq<u64>)
    requires
        s.len() == 4,
    ensures
        nat_of_limbs(s) == s[0] as nat + t64() * s[1] as nat + t128() * s[2] as nat + t192()
            * s[3] as nat,
{
    let s1 = s.subrange(1, 4);
    let s2 = s1.subrange(1, 3);
    let s3 = s2.subrange(1, 2);
    let s4 = s3.subrange(1, 1);
    assert(nat_of_limbs(s4) == 0);
    assert(nat_of_limbs(s3) == s[3] as nat);
    assert(nat_of_limbs(s2) == s[2] as nat + t64() * s[3] as nat);
    assert(nat_of_limbs(s1) == s[1] as nat + t64() * (s[2] as nat + t64() * s[3] as nat));
    assert(nat_of_limbs(s) == s[0] as nat + t64() * nat_of_limbs(s1));
}

impl Field for Fp25519 {
    /// The residue this element stands for.
    open spec fn fv(&self) -> nat {
        fp_val(*self)
    }

    /// The element is fully reduced.
    open spec fn wf(&self) -> bool {
        fp_wf(*self)
    }

    /// The characteristic: the prime p = 2^255 - 19.
    open spec fn characteristic_spec() -> nat {
        p25519()
    }

    /// The inverse is computed as a^(p-2) mod p.
    open spec fn inverse_val(&self) -> nat {
        f_inv(fp_val(*self))
    }

    proof fn lemma_wf(&self) {
    }

    fn characteristic() -> (r: Vec<u64>) {
        let r: Vec<u64> = vec![P0, P1, P2, P3];
        proof {
            lemma_nat_of_limbs4(r@);
        }
        r
    }

    fn one() -> (r: Self) {
        Fp25519 { v0: 1, v1: 0, v2: 0, v3: 0 }
    }

    fn zero() -> (r: Self) {
        Fp25519 { v0: 0, v1: 0, v2: 0, v3: 0 }
    }

    fn is_zero(&self) -> (r: bool) {
        self.v0 == 0 && self.v1 == 0 && self.v2 == 0 && self.v3 == 0
    }

    fn inverse(&self) -> (r: Option<Self>) {
        if self.is_zero() {
            None
        } else {
            Some(pow_limbs(self, &p_minus_2()))
        }
    }

    fn pow(&self, exp: u64) -> (r: Self) {
        pow_limbs(self, &Fp25519 { v0: exp, v1: 0, v2: 0, v3: 0 })
    }

    fn square(&self) -> (r: Self) {
        mulm(*self, *self)
    }

    fn add(self, other: Self) -> (r: Self) {
        addm(self, other)
    }

    fn sub(self, other: Self) -> (r: Self) {
        subm(self, other)
    }

    fn mul(self, other: Self) -> (r: Self) {
        mulm(self, other)
    }

    fn neg(self) -> (r: Self) {
        if self.is_zero() {
            proof {
                lemma_mod_self_0(p25519() as int);
            }
            self
        } else {
            let r = sub_raw(&p_elem(), &self);
            proof {
                lemma_small_mod(fp_val(r), p25519());
            }
            r
        }
    }

    fn add_assign(&mut self, other: Self) {
        *self = addm(*self, other);
    }

    fn sub_assign(&mut self, other: Self) {
        *self = subm(*self, other);
    }

    fn mul_assign(&mut self, other: Self) {
        *self = mulm(*self, other);
    }
}

impl SquareRootField for Fp25519 {
    /// The Legendre symbol by Euler's criterion: 0 for zero, 1 when
    /// a^((p-1)/2) is one, -1 otherwise.
    open spec fn legendre_spec(&self) -> i8 {
        if fp_val(*self) == 0 {
            0
        } else if f_pow(fp_val(*self), ((p25519() - 1) / 2) as nat) == 1 {
            1
        } else {
            (-1) as i8
        }
    }

    /// Square-root extraction is not provided by this field: the result
    /// is always reported absent.
    fn sqrt(&self) -> (r: Option<Self>) {
        None
    }

    fn legendre(&self) -> (r: i8) {
        if self.is_zero() {
            0
        } else {
            let t = pow_limbs(self, &half_p_minus_1());
            if t.v0 == 1 && t.v1 == 0 && t.v2 == 0 && t.v3 == 0 {
                1
            } else {
                -1
            }
        }
    }
}

/// Addition of residues is commutative: a + b = b + a.
pub proof fn lemma_f_add_comm(a: nat, b: nat)
    ensures
        f_add(a, b) == f_add(b, a),
{
}

/// Addition of residues is associative: (a + b) + c = a + (b + c).
pub proof fn lemma_f_add_assoc(a: nat, b: nat, c: nat)
    requires
        a < p25519(),
        b < p25519(),
        c < p25519(),
    ensures
        f_add(f_add(a, b), c) == f_add(a, f_add(b, c)),
{
    let p = p25519() as int;
    lemma_add_mod_noop((a + b) as int, c as int, p);
    lemma_small_mod(c, p25519());
    lemma_add_mod_noop_right(a as int, (b + c) as int, p);
}

/// Multiplication of residues is commutative: a * b = b * a.
pub proof fn lemma_f_mul_comm(a: nat, b: nat)
    ensures
        f_mul(a, b) == f_mul(b, a),
{
}

/// Multiplication distributes over addition: a * (b + c) = a*b + a*c.
pub proof fn lemma_f_mul_distributes(a: nat, b: nat, c: nat)
    requires
        a < p25519(),
        b < p25519(),
        c < p25519(),
    ensures
        f_mul(a, f_add(b, c)) == f_add(f_mul(a, b), f_mul(a, c)),
{
    let p = p25519() as int;
    lemma_mul_mod_noop_right(a as int, (b + c) as int, p);
    lemma_mul_is_distributive_add(a as int, b as int, c as int);
    lemma_add_mod_noop((a * b) as int, (a * c) as int, p);
}

/// The additive identity is neutral: a + 0 = a.
pub proof fn lemma_f_add_zero(a: nat)
    requires
        a < p25519(),
    ensures
        f_add(a, 0) == a,
{
    lemma_small_mod(a, p25519());
}

/// The multiplicative identity is neutral: a * 1 = a.
pub proof fn lemma_f_mul_one(a: nat)
    requires
        a < p25519(),
    ensures
        f_mul(a, 1) == a,
{
    lemma_small_mod(a, p25519());
}

/// Every residue cancels with its opposite: a + (-a) = 0.
pub proof fn lemma_f_add_neg(a: nat)
    requires
        a < p25519(),
    ensures
        f_add(a, f_neg(a)) == 0,
{
    lemma_mod_self_0(p25519() as int);
    if a == 0 {
        lemma_small_mod(0, p25519());
    } else {
        lemma_small_mod((p25519() - a) as nat, p25519());
    }
}

proof fn lemma_pow_nonneg(a: nat, e: nat)
    ensures
        pow(a as int, e) >= 0,
{
    if a == 0 {
        if e > 0 {
            lemma0_pow(e);
        } else {
            lemma_pow0(a as int);
        }
    } else {
        lemma_pow_positive(a as int, e);
    }
}

/// Raising to the zeroth power gives the multiplicative identity.
pub proof fn lemma_f_pow_zero(a: nat)
    ensures
        f_pow(a, 0) == 1,
{
    lemma_pow0(a as int);
    lemma_small_mod(1, p25519());
}

/// Raising to the first power gives the residue back.
pub proof fn lemma_f_pow_one(a: nat)
    requires
        a < p25519(),
    ensures
        f_pow(a, 1) == a,
{
    lemma_pow1(a as int);
    lemma_small_mod(a, p25519());
}

/// Exponents add under multiplication: a^(m + n) = a^m * a^n.
pub proof fn lemma_f_pow_adds(a: nat, m: nat, n: nat)
    ensures
        f_pow(a, m + n) == f_mul(f_pow(a, m), f_pow(a, n)),
{
    let p = p25519() as int;
    lemma_pow_nonneg(a, m);
    lemma_pow_nonneg(a, n);
    lemma_pow_adds(a as int, m, n);
    lemma_mul_mod_noop_general(pow(a as int, m), pow(a as int, n), p);
}

} // verus!
