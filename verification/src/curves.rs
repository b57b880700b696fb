//! The Edwards curves `x^2 + y^2 = 1 + d x^2 y^2` over a prime field: their
//! parameters, point addition in affine coordinates, scalar multiplication,
//! and the recovery of a point from its x-coordinate.

use crate::bignum::{
    big_add, big_div, big_modpow, big_mul, big_rem, big_sub, is_inverse, lemma_inverse_unique,
    limbs_value, mod_inverse, sub_mod, BigNat,
};
use crate::numeric::{be_value, lemma_be_value_push, lemma_pow256_66, pow256};
use vstd::arithmetic::div_mod::lemma_small_mod;
use vstd::arithmetic::mul::lemma_mul_is_commutative;
use vstd::arithmetic::power::pow;
use vstd::prelude::*;

verus! {

/// The curves that this crate supports.
#[derive(Clone, Copy, Debug, PartialEq, Eq, Structural)]
pub enum EdCurves {
    /// Ed448-Goldilocks: `p = 2^448 - 2^224 - 1`, `d = -39081`.
    E448,
    /// E-521: `p = 2^521 - 1`, `d = -376014`.
    E521,
}

/// A point of a curve in spec code: two coordinates and the curve.
pub struct PointSpec {
    pub x: nat,
    pub y: nat,
    pub curve: EdCurves,
}

/// A point in affine coordinates, with the curve that it belongs to.
#[derive(Debug)]
pub struct EdCurvePoint {
    pub x: BigNat,
    pub y: BigNat,
    pub curve: EdCurves,
}

impl View for EdCurvePoint {
    type V = PointSpec;

    open spec fn view(&self) -> PointSpec {
        PointSpec { x: self.x@, y: self.y@, curve: self.curve }
    }
}

impl Clone for EdCurvePoint {
    fn clone(&self) -> (r: Self)
        ensures
            r@ == self@,
    {
        EdCurvePoint { x: self.x.clone(), y: self.y.clone(), curve: self.curve }
    }
}

/// The prime `p` of the field.
pub open spec fn spec_p(curve: EdCurves) -> nat {
    match curve {
        // 2^448 - 2^224 - 1
        EdCurves::E448 => 0xfffffffffffffffffffffffffffffffffffffffffffffffffffffffeffffffffffffffffffffffffffffffffffffffffffffffffffffffffnat,
        // 2^521 - 1
        EdCurves::E521 => 0x1ffffffffffffffffffffffffffffffffffffffffffffffffffffffffffffffffffffffffffffffffffffffffffffffffffffffffffffffffffffffffffffffffffnat,
    }
}

/// The coefficient `d` of the curve equation, as an element of the field.
pub open spec fn spec_d(curve: EdCurves) -> nat {
    match curve {
        EdCurves::E448 => (spec_p(curve) - 39081) as nat,
        EdCurves::E521 => (spec_p(curve) - 376014) as nat,
    }
}

/// The order `r` of the subgroup that the generator spans; the whole curve
/// has `4r` points.
pub open spec fn spec_order(curve: EdCurves) -> nat {
    match curve {
        // 2^446 - 13818066809895115352007386748515426880336692474882178609894547503885
        EdCurves::E448 => 0x3fffffffffffffffffffffffffffffffffffffffffffffffffffffff7cca23e9c44edb49aed63690216cc2728dc58f552378c292ab5844f3nat,
        // 2^519 - 337554763258501705789107630418782636071904961214051226618635150085779108655765
        EdCurves::E521 => 0x7ffffffffffffffffffffffffffffffffffffffffffffffffffffffffffffffffd15b6c64746fc85f736b8af5e7ec53f04fbd8c4569a8f1f4540ea2435f5180d6bnat,
    }
}

/// The x-coordinate of the generator.
pub open spec fn spec_generator_x(curve: EdCurves) -> nat {
    match curve {
        EdCurves::E448 => 8,
        EdCurves::E521 => 4,
    }
}

/// The y-coordinate of the generator: of the two roots that belong to its
/// x-coordinate, the even one.
pub open spec fn spec_generator_y(curve: EdCurves) -> nat {
    match curve {
        EdCurves::E448 => 0xc66f6f0565e6d0b5f2bb263cebb9f8540eb046f40ed0fff7f84d84653b428d989aabff93b6bf700801228094e3dd0c2d1c600e3b0bccfc32nat,
        EdCurves::E521 => 0x11dd4b4952f9b741bdb15c806d24013b3ebf3be43295904d1e4050b3c80f5920a145616ebb481557d7bfa955cbfb1cfd4e064b0de40f93e22f8bcdfb41d0093b10cnat,
    }
}

/// The generator; with `msb` set, the point with the same x and the other,
/// odd root as its y.
pub open spec fn spec_generator(curve: EdCurves, msb: bool) -> PointSpec {
    PointSpec {
        x: spec_generator_x(curve),
        y: if msb {
            sub_mod(0, spec_generator_y(curve), spec_p(curve))
        } else {
            spec_generator_y(curve)
        },
        curve,
    }
}

/// The neutral element `(0, 1)`.
pub open spec fn spec_id_point(curve: EdCurves) -> PointSpec {
    PointSpec { x: 0, y: 1, curve }
}

/// The sum in the field of `p` elements.
pub open spec fn fadd(a: nat, b: nat, p: nat) -> nat {
    (a + b) % p
}

/// The product in the field of `p` elements.
pub open spec fn fmul(a: nat, b: nat, p: nat) -> nat {
    (a * b) % p
}

/// Whether the coordinates satisfy the curve equation.
pub open spec fn spec_on_curve(a: PointSpec) -> bool {
    let p = spec_p(a.curve);
    let xx = fmul(a.x, a.x, p);
    let yy = fmul(a.y, a.y, p);
    fadd(xx, yy, p) == fadd(1, fmul(spec_d(a.curve), fmul(xx, yy, p), p), p)
}

/// The sum of two points by the unified addition formula
/// `x3 = (x1 y2 + y1 x2) / (1 + d x1 x2 y1 y2)`,
/// `y3 = (y1 y2 - x1 x2) / (1 - d x1 x2 y1 y2)`, on the curve of the first
/// point. Division is multiplication by the inverse, and the inverse of what
/// has none counts as zero.
pub open spec fn spec_add_points(a: PointSpec, b: PointSpec) -> PointSpec {
    let p = spec_p(a.curve);
    let x1y2 = fmul(a.x, b.y, p);
    let y1x2 = fmul(a.y, b.x, p);
    let y1y2 = fmul(a.y, b.y, p);
    let x1x2 = fmul(a.x, b.x, p);
    let t = fmul(spec_d(a.curve), fmul(x1x2, y1y2, p), p);
    PointSpec {
        x: fmul(fadd(x1y2, y1x2, p), mod_inverse(fadd(1, t, p), p), p),
        y: fmul(sub_mod(y1y2, x1x2, p), mod_inverse(sub_mod(1, t, p), p), p),
        curve: a.curve,
    }
}

/// A point in projective coordinates in spec code: `(x : y : z)` stands
/// for the affine point `(x / z, y / z)`.
pub struct ProjSpec {
    pub x: nat,
    pub y: nat,
    pub z: nat,
    pub curve: EdCurves,
}

/// The affine point as a projective one, with `z = 1`.
pub open spec fn spec_lift(a: PointSpec) -> ProjSpec {
    ProjSpec { x: a.x, y: a.y, z: 1, curve: a.curve }
}

/// The neutral element `(0 : 1 : 1)`.
pub open spec fn spec_proj_id(curve: EdCurves) -> ProjSpec {
    ProjSpec { x: 0, y: 1, z: 1, curve }
}

/// The affine point that a projective one stands for: both coordinates
/// times the inverse of `z`.
pub open spec fn spec_to_affine(a: ProjSpec) -> PointSpec {
    let p = spec_p(a.curve);
    let zi = mod_inverse(a.z, p);
    PointSpec { x: fmul(a.x, zi, p), y: fmul(a.y, zi, p), curve: a.curve }
}

/// The unified addition formula with the denominators cleared, on the curve
/// of the first point: with `A = z1 z2`, `C = x1 x2`, `D = y1 y2`,
/// `E = d C D`, `F = A^2 - E`, `G = A^2 + E` and `H = x1 y2 + y1 x2` the sum
/// is `(A F H : A G (D - C) : F G)`.
pub open spec fn spec_proj_add(a: ProjSpec, b: ProjSpec) -> ProjSpec {
    let p = spec_p(a.curve);
    let za = (a.z * b.z) % p;
    let c = (a.x * b.x) % p;
    let dd = (a.y * b.y) % p;
    let e = (spec_d(a.curve) * c * dd) % p;
    let b2 = za * za;
    let f = ((b2 + p - e) as nat) % p;
    let g = (b2 + e) % p;
    let h = (a.x * b.y + a.y * b.x) % p;
    ProjSpec {
        x: (za * f * h) % p,
        y: (za * g * ((dd + p - c) as nat)) % p,
        z: (f * g) % p,
        curve: a.curve,
    }
}

/// One step of scalar multiplication: the accumulator doubled, and the base
/// added where the bit is set.
pub open spec fn spec_mul_step(acc: ProjSpec, base: ProjSpec, bit: bool) -> ProjSpec {
    let doubled = spec_proj_add(acc, acc);
    if bit {
        spec_proj_add(doubled, base)
    } else {
        doubled
    }
}

/// The multiple `k * a` in projective coordinates by the binary method: from
/// the neutral element, one doubling for each bit of `k`, highest bit first,
/// and one addition of `a` after the doubling for each bit that is set.
pub open spec fn spec_proj_mul(k: nat, a: ProjSpec) -> ProjSpec
    decreases k,
{
    if k == 0 {
        spec_proj_id(a.curve)
    } else {
        spec_mul_step(spec_proj_mul(k / 2, a), a, k % 2 == 1)
    }
}

/// The multiple `k * a`: the binary method in projective coordinates, and
/// one division at the end.
pub open spec fn spec_scalar_mul(k: nat, a: PointSpec) -> PointSpec {
    spec_to_affine(spec_proj_mul(k, spec_lift(a)))
}

/// The right-hand side of `y^2 = (1 - x^2) / (1 - d x^2)`.
pub open spec fn spec_radicand(curve: EdCurves, x: nat) -> nat {
    let p = spec_p(curve);
    let xx = fmul(x, x, p);
    let num = sub_mod(1, xx, p);
    let den = sub_mod(1, fmul(spec_d(curve), xx, p), p);
    fmul(num, mod_inverse(den, p), p)
}

/// The only candidate for a square root of `v` modulo a prime `p` with
/// `p = 3 (mod 4)`, up to sign: `v^((p + 1) / 4) mod p`.
pub open spec fn spec_root_candidate(v: nat, p: nat) -> nat {
    (pow(v as int, (p + 1) / 4) % (p as int)) as nat
}

/// The y-coordinate that belongs to `x`, with the parity that `msb` asks
/// for (set for odd), or `None` where the candidate root does not square to
/// the radicand.
pub open spec fn spec_solve_for_y(curve: EdCurves, x: nat, msb: bool) -> Option<nat> {
    let p = spec_p(curve);
    let v = spec_radicand(curve, x);
    let root = spec_root_candidate(v, p);
    if fmul(root, root, p) != v {
        None
    } else if (root % 2 == 1) == msb {
        Some(root)
    } else {
        Some(sub_mod(0, root, p))
    }
}

/// The prime of each curve is greater than the numbers that the formulas
/// mention.
pub proof fn lemma_p_large(curve: EdCurves)
    ensures
        spec_p(curve) > 376014,
        spec_p(curve) < pow256(66),
        spec_p(curve) % 4 == 3,
        spec_d(curve) < spec_p(curve),
        spec_order(curve) > 4,
        spec_generator_x(curve) < spec_p(curve),
        spec_generator_y(curve) < spec_p(curve),
        spec_generator_y(curve) % 2 == 0,
{
    lemma_pow256_66();
}

/// Modulo a number above 1, the inverse of 1 is 1.
pub proof fn lemma_inverse_of_one(p: nat)
    requires
        p > 1,
    ensures
        mod_inverse(1, p) == 1,
{
    lemma_small_mod(1, p);
    assert(is_inverse(1, 1, p));
    let c = choose|x: nat| is_inverse(1, x, p);
    lemma_inverse_unique(1, 1, c, p);
}

/// Adding the neutral element to a point with reduced coordinates gives the
/// point.
pub proof fn lemma_add_neutral(a: PointSpec)
    requires
        a.x < spec_p(a.curve),
        a.y < spec_p(a.curve),
    ensures
        spec_add_points(a, spec_id_point(a.curve)) == a,
{
    let p = spec_p(a.curve);
    lemma_p_large(a.curve);
    lemma_inverse_of_one(p);
    lemma_small_mod(a.x, p);
    lemma_small_mod(a.y, p);
    lemma_small_mod(1, p);
    lemma_small_mod(0, p);
    assert(a.x * 1 == a.x);
    assert(a.y * 1 == a.y);
    assert(a.y * 0 == 0);
    assert(a.x * 0 == 0);
    assert(0 * a.y == 0) by (nonlinear_arith);
    let x1x2 = fmul(a.x, 0, p);
    let y1y2 = fmul(a.y, 1, p);
    assert(x1x2 == 0);
    assert(y1y2 == a.y);
    assert(fmul(x1x2, y1y2, p) == 0);
    assert(spec_d(a.curve) * 0 == 0);
    let t = fmul(spec_d(a.curve), fmul(x1x2, y1y2, p), p);
    assert(t == 0);
    assert(fadd(1, t, p) == 1);
    assert(sub_mod(1, t, p) == 1);
    assert(sub_mod(y1y2, x1x2, p) == a.y);
    assert(fadd(fmul(a.x, 1, p), fmul(a.y, 0, p), p) == a.x);
}

/// Point addition does not depend on the order of its arguments, for two
/// points of one curve.
pub proof fn lemma_add_commutative(a: PointSpec, b: PointSpec)
    requires
        a.curve == b.curve,
    ensures
        spec_add_points(a, b) == spec_add_points(b, a),
{
    let p = spec_p(a.curve);
    lemma_mul_is_commutative(a.x as int, b.y as int);
    lemma_mul_is_commutative(a.y as int, b.x as int);
    lemma_mul_is_commutative(a.y as int, b.y as int);
    lemma_mul_is_commutative(a.x as int, b.x as int);
    assert(fmul(a.x, b.y, p) == fmul(b.y, a.x, p));
    assert(fmul(a.y, b.x, p) == fmul(b.x, a.y, p));
    assert(fmul(a.y, b.y, p) == fmul(b.y, a.y, p));
    assert(fmul(a.x, b.x, p) == fmul(b.x, a.x, p));
}

/// The number `k` with one more binary digit behind its last.
pub open spec fn bit_appended(k: nat, bit: bool) -> nat {
    if bit {
        2 * k + 1
    } else {
        2 * k
    }
}

/// A byte is the sum of its bits, each with its weight.
proof fn lemma_byte_decomposition(b: u8)
    by (bit_vector)
    ensures
        b == 128 * (b / 128 % 2) + 64 * (b / 64 % 2) + 32 * (b / 32 % 2) + 16 * (b / 16 % 2) + 8 * (
        b / 8 % 2) + 4 * (b / 4 % 2) + 2 * (b / 2 % 2) + b % 2,
{
}

/// Appending the eight bits of a byte, highest first, is appending the byte.
pub proof fn lemma_bits_of_byte(b: u8, v: nat)
    ensures
        bit_appended(
            bit_appended(
                bit_appended(
                    bit_appended(
                        bit_appended(
                            bit_appended(
                                bit_appended(bit_appended(v, b / 128 % 2 == 1), b / 64 % 2 == 1),
                                b / 32 % 2 == 1,
                            ),
                            b / 16 % 2 == 1,
                        ),
                        b / 8 % 2 == 1,
                    ),
                    b / 4 % 2 == 1,
                ),
                b / 2 % 2 == 1,
            ),
            b % 2 == 1,
        ) == 256 * v + b as nat,
{
    lemma_byte_decomposition(b);
    let c7 = (b / 128 % 2) as nat;
    let c6 = (b / 64 % 2) as nat;
    let c5 = (b / 32 % 2) as nat;
    let c4 = (b / 16 % 2) as nat;
    let c3 = (b / 8 % 2) as nat;
    let c2 = (b / 4 % 2) as nat;
    let c1 = (b / 2 % 2) as nat;
    let c0 = (b % 2) as nat;
    let v1 = bit_appended(v, b / 128 % 2 == 1);
    assert(v1 == 2 * v + c7);
    let v2 = bit_appended(v1, b / 64 % 2 == 1);
    assert(v2 == 2 * v1 + c6);
    let v3 = bit_appended(v2, b / 32 % 2 == 1);
    assert(v3 == 2 * v2 + c5);
    let v4 = bit_appended(v3, b / 16 % 2 == 1);
    assert(v4 == 2 * v3 + c4);
    let v5 = bit_appended(v4, b / 8 % 2 == 1);
    assert(v5 == 2 * v4 + c3);
    let v6 = bit_appended(v5, b / 4 % 2 == 1);
    assert(v6 == 2 * v5 + c2);
    let v7 = bit_appended(v6, b / 2 % 2 == 1);
    assert(v7 == 2 * v6 + c1);
    let v8 = bit_appended(v7, b % 2 == 1);
    assert(v8 == 2 * v7 + c0);
    assert(b as nat == 128 * c7 + 64 * c6 + 32 * c5 + 16 * c4 + 8 * c3 + 4 * c2 + 2 * c1 + c0);
}

/// Doubling the neutral element gives the neutral element.
pub proof fn lemma_proj_id_doubled(curve: EdCurves)
    ensures
        spec_proj_add(spec_proj_id(curve), spec_proj_id(curve)) == spec_proj_id(curve),
{
    let p = spec_p(curve);
    let d = spec_d(curve);
    lemma_p_large(curve);
    lemma_small_mod(1, p);
    lemma_small_mod(0, p);
    let za = (1nat * 1nat) % p;
    assert(za == 1);
    let c = (0nat * 0nat) % p;
    assert(c == 0);
    let dd = (1nat * 1nat) % p;
    assert(dd == 1);
    assert(d * c == 0) by (nonlinear_arith)
        requires
            c == 0,
    ;
    assert(d * c * dd == 0) by (nonlinear_arith)
        requires
            d * c == 0,
    ;
    let e = (d * c * dd) % p;
    assert(e == 0);
    let b2 = za * za;
    assert(b2 == 1);
    vstd::arithmetic::div_mod::lemma_mod_add_multiples_vanish(1, p as int);
    assert((1 + p) % p == 1);
    let f = ((b2 + p - e) as nat) % p;
    assert(f == 1);
    let g = (b2 + e) % p;
    assert(g == 1);
    let h = (0nat * 1nat + 1nat * 0nat) % p;
    assert(h == 0);
    assert(za * f * h == 0) by (nonlinear_arith)
        requires
            h == 0,
    ;
    assert(za * g * ((dd + p - c) as nat) == 1 + p) by (nonlinear_arith)
        requires
            za == 1,
            g == 1,
            dd == 1,
            c == 0,
    ;
    assert(f * g == 1) by (nonlinear_arith)
        requires
            f == 1,
            g == 1,
    ;
}

/// The neutral element plus a point with reduced coordinates, in projective
/// coordinates with `z = 1`, is the point.
pub proof fn lemma_proj_add_neutral(a: PointSpec)
    requires
        a.x < spec_p(a.curve),
        a.y < spec_p(a.curve),
    ensures
        spec_proj_add(spec_proj_id(a.curve), spec_lift(a)) == spec_lift(a),
{
    let p = spec_p(a.curve);
    let d = spec_d(a.curve);
    lemma_p_large(a.curve);
    lemma_small_mod(1, p);
    lemma_small_mod(0, p);
    lemma_small_mod(a.x, p);
    lemma_small_mod(a.y, p);
    let za = (1nat * 1nat) % p;
    assert(za == 1);
    assert(0 * a.x == 0) by (nonlinear_arith);
    let c = (0nat * a.x) % p;
    assert(c == 0);
    assert(1 * a.y == a.y) by (nonlinear_arith);
    let dd = (1nat * a.y) % p;
    assert(dd == a.y);
    assert(d * c * dd == 0) by (nonlinear_arith)
        requires
            c == 0,
    ;
    let e = (d * c * dd) % p;
    assert(e == 0);
    let b2 = za * za;
    assert(b2 == 1);
    vstd::arithmetic::div_mod::lemma_mod_add_multiples_vanish(1, p as int);
    assert((1 + p) % p == 1);
    let f = ((b2 + p - e) as nat) % p;
    assert(f == 1);
    let g = (b2 + e) % p;
    assert(g == 1);
    assert(0 * a.y + 1 * a.x == a.x) by (nonlinear_arith);
    let h = (0nat * a.y + 1nat * a.x) % p;
    assert(h == a.x);
    assert(za * f * h == a.x) by (nonlinear_arith)
        requires
            za == 1,
            f == 1,
            h == a.x,
    ;
    assert(za * g * ((dd + p - c) as nat) == a.y + p) by (nonlinear_arith)
        requires
            za == 1,
            g == 1,
            dd == a.y,
            c == 0,
    ;
    vstd::arithmetic::div_mod::lemma_mod_add_multiples_vanish(a.y as int, p as int);
    assert((a.y + p) % p == a.y);
    assert(f * g == 1) by (nonlinear_arith)
        requires
            f == 1,
            g == 1,
    ;
}

/// Zero times a point is the neutral element.
pub proof fn lemma_scalar_mul_zero(a: PointSpec)
    ensures
        spec_scalar_mul(0, a) == spec_id_point(a.curve),
{
    let p = spec_p(a.curve);
    lemma_p_large(a.curve);
    lemma_inverse_of_one(p);
    lemma_small_mod(1, p);
    lemma_small_mod(0, p);
    assert(0nat * 1nat == 0);
    assert(1nat * 1nat == 1);
}

/// One times a point with reduced coordinates is the point.
pub proof fn lemma_scalar_mul_one(a: PointSpec)
    requires
        a.x < spec_p(a.curve),
        a.y < spec_p(a.curve),
    ensures
        spec_scalar_mul(1, a) == a,
{
    let p = spec_p(a.curve);
    let l = spec_lift(a);
    lemma_p_large(a.curve);
    lemma_inverse_of_one(p);
    lemma_proj_id_doubled(a.curve);
    lemma_proj_add_neutral(a);
    assert(spec_proj_mul(0, l) == spec_proj_id(a.curve));
    assert(spec_proj_mul(1, l) == spec_mul_step(spec_proj_mul(0, l), l, true)) by {
        reveal_with_fuel(spec_proj_mul, 2);
    }
    assert(spec_proj_mul(1, l) == l);
    lemma_small_mod(a.x, p);
    lemma_small_mod(a.y, p);
    assert(a.x * 1 == a.x);
    assert(a.y * 1 == a.y);
}

/// Appending a bit to the scalar is one step of the multiplication.
pub proof fn lemma_scalar_mul_step(k: nat, bit: bool, a: ProjSpec)
    ensures
        spec_proj_mul(bit_appended(k, bit), a) == spec_mul_step(spec_proj_mul(k, a), a, bit),
{
    let n: nat = bit_appended(k, bit);
    if n == 0 {
        lemma_proj_id_doubled(a.curve);
    } else {
        assert(n / 2 == k);
        assert((n % 2 == 1) == bit);
    }
}

/// Every multiple carries the curve of the point.
pub proof fn lemma_scalar_mul_curve(k: nat, a: PointSpec)
    ensures
        spec_scalar_mul(k, a).curve == a.curve,
{
    lemma_proj_mul_curve(k, spec_lift(a));
}

/// Every projective multiple carries the curve of the point.
pub proof fn lemma_proj_mul_curve(k: nat, a: ProjSpec)
    ensures
        spec_proj_mul(k, a).curve == a.curve,
    decreases k,
{
    if k > 0 {
        lemma_proj_mul_curve(k / 2, a);
    }
}

/// The prime `p` of the curve.
pub fn curve_p(curve: EdCurves) -> (r: BigNat)
    ensures
        r@ == spec_p(curve),
{
    match curve {
        EdCurves::E448 => {
            let limbs: [u64; 7] = [
                0xffffffffffffffff, 0xffffffffffffffff, 0xffffffffffffffff,
                0xfffffffeffffffff, 0xffffffffffffffff, 0xffffffffffffffff,
                0xffffffffffffffff,
            ];
            proof {
                reveal_with_fuel(limbs_value, 8);
                assert(limbs_value(limbs@, 7) == spec_p(curve));
            }
            BigNat::from_limbs(limbs.as_slice())
        },
        EdCurves::E521 => {
            let limbs: [u64; 9] = [
                0x00000000000001ff, 0xffffffffffffffff, 0xffffffffffffffff,
                0xffffffffffffffff, 0xffffffffffffffff, 0xffffffffffffffff,
                0xffffffffffffffff, 0xffffffffffffffff, 0xffffffffffffffff,
            ];
            proof {
                reveal_with_fuel(limbs_value, 10);
                assert(limbs_value(limbs@, 9) == spec_p(curve));
            }
            BigNat::from_limbs(limbs.as_slice())
        },
    }
}

/// The coefficient `d` of the curve, reduced modulo `p`.
pub fn curve_d(curve: EdCurves) -> (r: BigNat)
    ensures
        r@ == spec_d(curve),
{
    match curve {
        EdCurves::E448 => {
            let limbs: [u64; 7] = [
                0xffffffffffffffff, 0xffffffffffffffff, 0xffffffffffffffff,
                0xfffffffeffffffff, 0xffffffffffffffff, 0xffffffffffffffff,
                0xffffffffffff6756,
            ];
            proof {
                reveal_with_fuel(limbs_value, 8);
                assert(limbs_value(limbs@, 7) == spec_d(curve));
            }
            BigNat::from_limbs(limbs.as_slice())
        },
        EdCurves::E521 => {
            let limbs: [u64; 9] = [
                0x00000000000001ff, 0xffffffffffffffff, 0xffffffffffffffff,
                0xffffffffffffffff, 0xffffffffffffffff, 0xffffffffffffffff,
                0xffffffffffffffff, 0xffffffffffffffff, 0xfffffffffffa4331,
            ];
            proof {
                reveal_with_fuel(limbs_value, 10);
                assert(limbs_value(limbs@, 9) == spec_d(curve));
            }
            BigNat::from_limbs(limbs.as_slice())
        },
    }
}

/// The order `r` of the generator.
pub fn order(curve: EdCurves) -> (r: BigNat)
    ensures
        r@ == spec_order(curve),
{
    match curve {
        EdCurves::E448 => {
            let limbs: [u64; 7] = [
                0x3fffffffffffffff, 0xffffffffffffffff, 0xffffffffffffffff,
                0xffffffff7cca23e9, 0xc44edb49aed63690, 0x216cc2728dc58f55,
                0x2378c292ab5844f3,
            ];
            proof {
                reveal_with_fuel(limbs_value, 8);
                assert(limbs_value(limbs@, 7) == spec_order(curve));
            }
            BigNat::from_limbs(limbs.as_slice())
        },
        EdCurves::E521 => {
            let limbs: [u64; 9] = [
                0x000000000000007f, 0xffffffffffffffff, 0xffffffffffffffff,
                0xffffffffffffffff, 0xfffffffffffffffd, 0x15b6c64746fc85f7,
                0x36b8af5e7ec53f04, 0xfbd8c4569a8f1f45, 0x40ea2435f5180d6b,
            ];
            proof {
                reveal_with_fuel(limbs_value, 10);
                assert(limbs_value(limbs@, 9) == spec_order(curve));
            }
            BigNat::from_limbs(limbs.as_slice())
        },
    }
}

/// The y-coordinate of the generator.
fn generator_y(curve: EdCurves) -> (r: BigNat)
    ensures
        r@ == spec_generator_y(curve),
{
    match curve {
        EdCurves::E448 => {
            let limbs: [u64; 7] = [
                0xc66f6f0565e6d0b5, 0xf2bb263cebb9f854, 0x0eb046f40ed0fff7,
                0xf84d84653b428d98, 0x9aabff93b6bf7008, 0x01228094e3dd0c2d,
                0x1c600e3b0bccfc32,
            ];
            proof {
                reveal_with_fuel(limbs_value, 8);
                assert(limbs_value(limbs@, 7) == spec_generator_y(curve));
            }
            BigNat::from_limbs(limbs.as_slice())
        },
        EdCurves::E521 => {
            let limbs: [u64; 9] = [
                0x000000000000011d, 0xd4b4952f9b741bdb, 0x15c806d24013b3eb,
                0xf3be43295904d1e4, 0x050b3c80f5920a14, 0x5616ebb481557d7b,
                0xfa955cbfb1cfd4e0, 0x64b0de40f93e22f8, 0xbcdfb41d0093b10c,
            ];
            proof {
                reveal_with_fuel(limbs_value, 10);
                assert(limbs_value(limbs@, 9) == spec_generator_y(curve));
            }
            BigNat::from_limbs(limbs.as_slice())
        },
    }
}

/// The y-coordinate that belongs to `x` on the curve, with the parity that
/// `msb` asks for (set for odd). `None` where the root candidate
/// `v^((p + 1) / 4)` does not square to the radicand `v`.
pub fn solve_for_y(x: &BigNat, curve: EdCurves, msb: bool) -> (r: Option<BigNat>)
    ensures
        match r {
            Some(y) => spec_solve_for_y(curve, x@, msb) == Some(y@),
            None => spec_solve_for_y(curve, x@, msb) is None,
        },
{
    let p = curve_p(curve);
    let d = curve_d(curve);
    proof {
        lemma_p_large(curve);
    }
    let one = BigNat::from_u64(1);
    let xx = x.mul_mod(x, &p);
    let num = one.sub_mod(&xx, &p);
    let dxx = d.mul_mod(&xx, &p);
    let den = one.sub_mod(&dxx, &p);
    let v = num.mul_mod(&den.mod_inverse(&p), &p);
    let four = BigNat::from_u64(4);
    let exponent = big_div(&big_add(&p, &one), &four);
    let root = big_modpow(&v, &exponent, &p);
    let square = root.mul_mod(&root, &p);
    if !square.same_value(&v) {
        return None;
    }
    if root.is_odd() == msb {
        Some(root)
    } else {
        let zero = BigNat::from_u64(0);
        Some(zero.sub_mod(&root, &p))
    }
}

impl EdCurvePoint {
    /// Overwrites both coordinates with zero.
    pub fn wipe(&mut self)
        ensures
            final(self).x@ == 0,
            final(self).y@ == 0,
            final(self).curve == old(self).curve,
    {
        self.x.wipe();
        self.y.wipe();
    }

    /// The neutral element `(0, 1)` of the curve.
    pub fn id_point(curve: EdCurves) -> (r: EdCurvePoint)
        ensures
            r@ == spec_id_point(curve),
    {
        EdCurvePoint { x: BigNat::from_u64(0), y: BigNat::from_u64(1), curve }
    }

    /// The generator of the curve. With `msb` set, the point with the same
    /// x-coordinate and the negated y-coordinate instead.
    pub fn generator(curve: EdCurves, msb: bool) -> (r: EdCurvePoint)
        ensures
            r@ == spec_generator(curve, msb),
    {
        let x = match curve {
            EdCurves::E448 => BigNat::from_u64(8),
            EdCurves::E521 => BigNat::from_u64(4),
        };
        let gy = generator_y(curve);
        let y = if msb {
            let p = curve_p(curve);
            let zero = BigNat::from_u64(0);
            zero.sub_mod(&gy, &p)
        } else {
            gy
        };
        EdCurvePoint { x, y, curve }
    }

    /// Whether the coordinates satisfy the equation of the curve.
    pub fn is_on_curve(&self) -> (r: bool)
        ensures
            r == spec_on_curve(self@),
    {
        let p = curve_p(self.curve);
        let d = curve_d(self.curve);
        proof {
            lemma_p_large(self.curve);
        }
        let one = BigNat::from_u64(1);
        let xx = self.x.mul_mod(&self.x, &p);
        let yy = self.y.mul_mod(&self.y, &p);
        let left = xx.add_mod(&yy, &p);
        let right = one.add_mod(&d.mul_mod(&xx.mul_mod(&yy, &p), &p), &p);
        left.same_value(&right)
    }

    /// Whether two points have the same coordinates and the same curve.
    pub fn same_point(&self, other: &EdCurvePoint) -> (r: bool)
        ensures
            r == (self@ == other@),
    {
        self.curve == other.curve && self.x.same_value(&other.x) && self.y.same_value(&other.y)
    }

    /// The sum of two points, by the unified addition formula on the curve
    /// of `self`. The coordinates of the result are reduced.
    pub fn add_points(&self, other: &EdCurvePoint) -> (r: EdCurvePoint)
        ensures
            r@ == spec_add_points(self@, other@),
            r.x@ < spec_p(self.curve),
            r.y@ < spec_p(self.curve),
    {
        let p = curve_p(self.curve);
        let d = curve_d(self.curve);
        proof {
            lemma_p_large(self.curve);
        }
        let one = BigNat::from_u64(1);
        let x1y2 = self.x.mul_mod(&other.y, &p);
        let y1x2 = self.y.mul_mod(&other.x, &p);
        let y1y2 = self.y.mul_mod(&other.y, &p);
        let x1x2 = self.x.mul_mod(&other.x, &p);
        let t = d.mul_mod(&x1x2.mul_mod(&y1y2, &p), &p);
        let x_num = x1y2.add_mod(&y1x2, &p);
        let x_den = one.add_mod(&t, &p);
        let y_num = y1y2.sub_mod(&x1x2, &p);
        let y_den = one.sub_mod(&t, &p);
        let x = x_num.mul_mod(&x_den.mod_inverse(&p), &p);
        let y = y_num.mul_mod(&y_den.mod_inverse(&p), &p);
        EdCurvePoint { x, y, curve: self.curve }
    }

    /// The multiple `k * self`, by the binary method in projective
    /// coordinates.
    pub fn scalar_mul(&self, k: &BigNat) -> (r: EdCurvePoint)
        ensures
            r@ == spec_scalar_mul(k@, self@),
            r.curve == self.curve,
            r.x@ < spec_p(self.curve),
            r.y@ < spec_p(self.curve),
    {
        let p = curve_p(self.curve);
        let d = curve_d(self.curve);
        let base = ProjPoint {
            x: self.x.clone(),
            y: self.y.clone(),
            z: BigNat::from_u64(1),
            curve: self.curve,
        };
        let mut acc = ProjPoint {
            x: BigNat::from_u64(0),
            y: BigNat::from_u64(1),
            z: BigNat::from_u64(1),
            curve: self.curve,
        };
        let mut bits = k.to_bytes_be();
        proof {
            crate::numeric::lemma_be_value_of_be_bytes(k@);
        }
        let n = bits.len();
        let mut i: usize = 0;
        assert(bits@.subrange(0, 0) =~= Seq::<u8>::empty());
        while i < n
            invariant
                i <= n,
                n == bits@.len(),
                be_value(bits@) == k@,
                p@ == spec_p(self.curve),
                d@ == spec_d(self.curve),
                base@ == spec_lift(self@),
                acc@ == spec_proj_mul(be_value(bits@.subrange(0, i as int)), base@),
            decreases n - i,
        {
            let b = bits[i];
            proof {
                assert(bits@.subrange(0, i + 1) =~= bits@.subrange(0, i as int).push(b));
                lemma_be_value_push(bits@.subrange(0, i as int), b);
            }
            acc = mul_byte(
                &acc,
                &base,
                b,
                &p,
                &d,
                Ghost(be_value(bits@.subrange(0, i as int))),
            );
            i += 1;
        }
        assert(bits@.subrange(0, n as int) =~= bits@);
        proof {
            lemma_p_large(self.curve);
            lemma_proj_mul_curve(k@, base@);
        }
        crate::sha3::aux_functions::byte_utils::wipe(&mut bits);
        let zi = acc.z.mod_inverse(&p);
        EdCurvePoint { x: acc.x.mul_mod(&zi, &p), y: acc.y.mul_mod(&zi, &p), curve: self.curve }
    }
}

/// A point in projective coordinates.
struct ProjPoint {
    x: BigNat,
    y: BigNat,
    z: BigNat,
    curve: EdCurves,
}

impl View for ProjPoint {
    type V = ProjSpec;

    closed spec fn view(&self) -> ProjSpec {
        ProjSpec { x: self.x@, y: self.y@, z: self.z@, curve: self.curve }
    }
}

/// The sum of two projective points, with `p` and `d` of the curve of the
/// first handed in.
fn proj_add(a: &ProjPoint, b: &ProjPoint, p: &BigNat, d: &BigNat) -> (r: ProjPoint)
    requires
        p@ == spec_p(a.curve),
        d@ == spec_d(a.curve),
    ensures
        r@ == spec_proj_add(a@, b@),
{
    proof {
        lemma_p_large(a.curve);
    }
    let za = big_rem(&big_mul(&a.z, &b.z), p);
    let c = big_rem(&big_mul(&a.x, &b.x), p);
    let dd = big_rem(&big_mul(&a.y, &b.y), p);
    let e = big_rem(&big_mul(&big_mul(d, &c), &dd), p);
    let b2 = big_mul(&za, &za);
    let f = big_rem(&big_sub(&big_add(&b2, p), &e), p);
    let g = big_rem(&big_add(&b2, &e), p);
    let h = big_rem(&big_add(&big_mul(&a.x, &b.y), &big_mul(&a.y, &b.x)), p);
    let diff = big_sub(&big_add(&dd, p), &c);
    let x = big_rem(&big_mul(&big_mul(&za, &f), &h), p);
    let y = big_rem(&big_mul(&big_mul(&za, &g), &diff), p);
    let z = big_rem(&big_mul(&f, &g), p);
    ProjPoint { x, y, z, curve: a.curve }
}

/// One step of scalar multiplication on an accumulator that holds the
/// multiple `v * base`. Both candidates are computed whatever the bit is.
fn mul_bit(
    acc: &ProjPoint,
    base: &ProjPoint,
    bit: bool,
    p: &BigNat,
    d: &BigNat,
    Ghost(v): Ghost<nat>,
) -> (r: ProjPoint)
    requires
        p@ == spec_p(base.curve),
        d@ == spec_d(base.curve),
        acc@ == spec_proj_mul(v, base@),
    ensures
        r@ == spec_proj_mul(bit_appended(v, bit), base@),
{
    proof {
        lemma_scalar_mul_step(v, bit, base@);
        lemma_proj_mul_curve(v, base@);
    }
    let doubled = proj_add(acc, acc, p, d);
    let sum = proj_add(&doubled, base, p, d);
    if bit {
        sum
    } else {
        doubled
    }
}

/// Eight steps of scalar multiplication, for the bits of one byte.
fn mul_byte(
    acc: &ProjPoint,
    base: &ProjPoint,
    b: u8,
    p: &BigNat,
    d: &BigNat,
    Ghost(v): Ghost<nat>,
) -> (r: ProjPoint)
    requires
        p@ == spec_p(base.curve),
        d@ == spec_d(base.curve),
        acc@ == spec_proj_mul(v, base@),
    ensures
        r@ == spec_proj_mul(256 * v + b as nat, base@),
{
    let ghost v1 = bit_appended(v, b / 128 % 2 == 1);
    let ghost v2 = bit_appended(v1, b / 64 % 2 == 1);
    let ghost v3 = bit_appended(v2, b / 32 % 2 == 1);
    let ghost v4 = bit_appended(v3, b / 16 % 2 == 1);
    let ghost v5 = bit_appended(v4, b / 8 % 2 == 1);
    let ghost v6 = bit_appended(v5, b / 4 % 2 == 1);
    let ghost v7 = bit_appended(v6, b / 2 % 2 == 1);
    proof {
        lemma_bits_of_byte(b, v);
    }
    let a1 = mul_bit(acc, base, b / 128 % 2 == 1, p, d, Ghost(v));
    let a2 = mul_bit(&a1, base, b / 64 % 2 == 1, p, d, Ghost(v1));
    let a3 = mul_bit(&a2, base, b / 32 % 2 == 1, p, d, Ghost(v2));
    let a4 = mul_bit(&a3, base, b / 16 % 2 == 1, p, d, Ghost(v3));
    let a5 = mul_bit(&a4, base, b / 8 % 2 == 1, p, d, Ghost(v4));
    let a6 = mul_bit(&a5, base, b / 4 % 2 == 1, p, d, Ghost(v5));
    let a7 = mul_bit(&a6, base, b / 2 % 2 == 1, p, d, Ghost(v6));
    mul_bit(&a7, base, b % 2 == 1, p, d, Ghost(v7))
}

} // verus!
