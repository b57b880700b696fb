//! The byte layouts in which points, signatures and cryptograms are stored or
//! sent. Every number stands big-endian in a fixed width, never in its
//! shortest form.

use crate::bignum::BigNat;
use crate::curves::{
    lemma_p_large, lemma_proj_mul_curve, lemma_scalar_mul_curve, spec_generator, spec_lift,
    spec_order, spec_p, spec_scalar_mul, EdCurvePoint, EdCurves, PointSpec,
};
use crate::numeric::{
    be_bytes, be_bytes_fixed, be_value, lemma_be_bytes_fixed_len,
    lemma_be_value_of_be_bytes_fixed, lemma_pow256_56, lemma_pow256_66, lemma_pow256_step, pow256,
};
use crate::ops::{
    append_bytes, copy_bytes, lemma_kmac_len, spec_ephemeral_scalar, spec_key_encrypt,
    spec_key_material, spec_pw_encrypt, spec_shared_keys, spec_sign_nonce, spec_signature,
};
use crate::{Message, MessageSpec, Signature, SignatureSpec};
use vstd::prelude::*;
use vstd::string::StringSliceAdditionalSpecFns;

verus! {

/// The number of bytes of a coordinate: the length of the field prime.
pub open spec fn spec_coordinate_width(curve: EdCurves) -> nat {
    match curve {
        EdCurves::E448 => 56,
        EdCurves::E521 => 66,
    }
}

/// The number of bytes of a scalar: the length of the order of the
/// generator.
pub open spec fn spec_scalar_width(curve: EdCurves) -> nat {
    match curve {
        EdCurves::E448 => 56,
        EdCurves::E521 => 65,
    }
}

/// The number of bytes of a signature hash.
pub open spec fn spec_hash_width() -> nat {
    64
}

/// Each width is the least number of bytes that holds the prime, or the
/// order.
pub proof fn lemma_widths(curve: EdCurves)
    ensures
        pow256((spec_coordinate_width(curve) - 1) as nat) <= spec_p(curve) < pow256(
            spec_coordinate_width(curve),
        ),
        pow256((spec_scalar_width(curve) - 1) as nat) <= spec_order(curve) < pow256(
            spec_scalar_width(curve),
        ),
{
    lemma_pow256_56();
    lemma_pow256_66();
    lemma_pow256_step(64);
}

/// Whether both coordinates fit the width of the curve.
pub open spec fn point_fits(a: PointSpec) -> bool {
    a.x < pow256(spec_coordinate_width(a.curve)) && a.y < pow256(spec_coordinate_width(a.curve))
}

/// A point on the wire: `x`, then `y`, each in the width of the curve.
pub open spec fn spec_encode_point(a: PointSpec) -> Seq<u8> {
    be_bytes_fixed(a.x, spec_coordinate_width(a.curve)) + be_bytes_fixed(
        a.y,
        spec_coordinate_width(a.curve),
    )
}

/// The point that the bytes hold: the first half is `x`, the second `y`.
pub open spec fn spec_decode_point(bytes: Seq<u8>, curve: EdCurves) -> PointSpec {
    let w = spec_coordinate_width(curve) as int;
    PointSpec { x: be_value(bytes.subrange(0, w)), y: be_value(bytes.subrange(w, 2 * w)), curve }
}

/// Whether the signature has a hash of 64 bytes and a response that fits
/// the width of a scalar.
pub open spec fn signature_fits(sig: SignatureSpec, curve: EdCurves) -> bool {
    sig.h.len() == spec_hash_width() && sig.z < pow256(spec_scalar_width(curve))
}

/// A signature on the wire: the hash, then the response in the width of a
/// scalar.
pub open spec fn spec_encode_signature(sig: SignatureSpec, curve: EdCurves) -> Seq<u8> {
    sig.h + be_bytes_fixed(sig.z, spec_scalar_width(curve))
}

/// The signature that the bytes hold.
pub open spec fn spec_decode_signature(bytes: Seq<u8>, curve: EdCurves) -> SignatureSpec {
    let n = spec_hash_width() as int;
    SignatureSpec {
        h: bytes.subrange(0, n),
        z: be_value(bytes.subrange(n, n + spec_scalar_width(curve))),
    }
}

/// Decoding what was encoded gives the point back.
pub proof fn lemma_point_round_trip(a: PointSpec)
    requires
        point_fits(a),
    ensures
        spec_encode_point(a).len() == 2 * spec_coordinate_width(a.curve),
        spec_decode_point(spec_encode_point(a), a.curve) == a,
{
    let w = spec_coordinate_width(a.curve);
    let xs = be_bytes_fixed(a.x, w);
    let ys = be_bytes_fixed(a.y, w);
    lemma_be_bytes_fixed_len(a.x, w);
    lemma_be_bytes_fixed_len(a.y, w);
    lemma_be_value_of_be_bytes_fixed(a.x, w);
    lemma_be_value_of_be_bytes_fixed(a.y, w);
    assert((xs + ys).subrange(0, w as int) =~= xs);
    assert((xs + ys).subrange(w as int, 2 * w as int) =~= ys);
}

/// Decoding what was encoded gives the signature back.
pub proof fn lemma_signature_round_trip(sig: SignatureSpec, curve: EdCurves)
    requires
        signature_fits(sig, curve),
    ensures
        spec_encode_signature(sig, curve).len() == spec_hash_width() + spec_scalar_width(curve),
        spec_decode_signature(spec_encode_signature(sig, curve), curve) == sig,
{
    let w = spec_scalar_width(curve);
    let zs = be_bytes_fixed(sig.z, w);
    lemma_be_bytes_fixed_len(sig.z, w);
    lemma_be_value_of_be_bytes_fixed(sig.z, w);
    assert((sig.h + zs).subrange(0, 64) =~= sig.h);
    assert((sig.h + zs).subrange(64, 64 + w as int) =~= zs);
}

/// Every multiple of a point fits the layout of its curve, whatever the
/// scalar and the point are.
pub proof fn lemma_scalar_mul_fits(k: nat, a: PointSpec)
    ensures
        point_fits(spec_scalar_mul(k, a)),
{
    lemma_scalar_mul_curve(k, a);
    lemma_proj_mul_curve(k, spec_lift(a));
    lemma_widths(a.curve);
}

/// Every signature that signing gives fits the layout of its curve.
pub proof fn lemma_signature_fits(data: Seq<u8>, pw: Seq<u8>, curve: EdCurves, d: u64)
    ensures
        signature_fits(spec_signature(data, pw, curve, d), curve),
{
    let k = spec_sign_nonce(data, pw, d);
    let u = spec_scalar_mul(k, spec_generator(curve, false));
    lemma_kmac_len(be_bytes(u.x), data, 512, "T".spec_bytes(), d);
    lemma_widths(curve);
    lemma_p_large(curve);
}

/// Whether the message holds a nonce and a tag of 64 bytes each, as it
/// does after encryption with a passphrase.
pub open spec fn sym_cryptogram_fits(m: MessageSpec) -> bool {
    m.sym_nonce is Some && m.sym_nonce->0.len() == 64 && m.digest is Some && m.digest->0.len()
        == 64
}

/// A symmetric cryptogram on the wire: the nonce, the ciphertext, the tag.
pub open spec fn spec_encode_sym_cryptogram(m: MessageSpec) -> Seq<u8> {
    m.sym_nonce->0 + m.msg + m.digest->0
}

/// The message that the bytes of a symmetric cryptogram hold.
pub open spec fn spec_decode_sym_cryptogram(bytes: Seq<u8>) -> MessageSpec {
    MessageSpec {
        msg: bytes.subrange(64, bytes.len() - 64),
        sym_nonce: Some(bytes.subrange(0, 64)),
        asym_nonce: None,
        digest: Some(bytes.subrange(bytes.len() - 64, bytes.len() as int)),
        op_result: None,
        sig: None,
    }
}

/// Whether the message holds a nonce point that fits its curve and a tag of
/// 64 bytes, as it does after encryption to a public key.
pub open spec fn key_cryptogram_fits(m: MessageSpec) -> bool {
    m.asym_nonce is Some && point_fits(m.asym_nonce->0) && m.digest is Some && m.digest->0.len()
        == 64
}

/// A public-key cryptogram on the wire: the nonce point, the ciphertext,
/// the tag.
pub open spec fn spec_encode_key_cryptogram(m: MessageSpec) -> Seq<u8> {
    spec_encode_point(m.asym_nonce->0) + m.msg + m.digest->0
}

/// The message that the bytes of a public-key cryptogram hold for `curve`.
pub open spec fn spec_decode_key_cryptogram(bytes: Seq<u8>, curve: EdCurves) -> MessageSpec {
    let w = 2 * spec_coordinate_width(curve);
    MessageSpec {
        msg: bytes.subrange(w as int, bytes.len() - 64),
        sym_nonce: None,
        asym_nonce: Some(spec_decode_point(bytes.subrange(0, w as int), curve)),
        digest: Some(bytes.subrange(bytes.len() - 64, bytes.len() as int)),
        op_result: None,
        sig: None,
    }
}

/// Decoding an encoded symmetric cryptogram gives the nonce, the ciphertext
/// and the tag back.
pub proof fn lemma_sym_cryptogram_round_trip(m: MessageSpec)
    requires
        sym_cryptogram_fits(m),
    ensures
        spec_encode_sym_cryptogram(m).len() == m.msg.len() + 128,
        spec_decode_sym_cryptogram(spec_encode_sym_cryptogram(m)).msg == m.msg,
        spec_decode_sym_cryptogram(spec_encode_sym_cryptogram(m)).sym_nonce == m.sym_nonce,
        spec_decode_sym_cryptogram(spec_encode_sym_cryptogram(m)).digest == m.digest,
{
    let z = m.sym_nonce->0;
    let t = m.digest->0;
    let all = z + m.msg + t;
    assert(all.subrange(0, 64) =~= z);
    assert(all.subrange(64, all.len() - 64) =~= m.msg);
    assert(all.subrange(all.len() - 64, all.len() as int) =~= t);
}

/// Decoding an encoded public-key cryptogram gives the nonce point, the
/// ciphertext and the tag back.
pub proof fn lemma_key_cryptogram_round_trip(m: MessageSpec)
    requires
        key_cryptogram_fits(m),
    ensures
        spec_encode_key_cryptogram(m).len() == m.msg.len() + 2 * spec_coordinate_width(
            m.asym_nonce->0.curve,
        ) + 64,
        spec_decode_key_cryptogram(spec_encode_key_cryptogram(m), m.asym_nonce->0.curve).msg
            == m.msg,
        spec_decode_key_cryptogram(
            spec_encode_key_cryptogram(m),
            m.asym_nonce->0.curve,
        ).asym_nonce == m.asym_nonce,
        spec_decode_key_cryptogram(spec_encode_key_cryptogram(m), m.asym_nonce->0.curve).digest
            == m.digest,
{
    let z = m.asym_nonce->0;
    let zs = spec_encode_point(z);
    let t = m.digest->0;
    let w = 2 * spec_coordinate_width(z.curve);
    lemma_point_round_trip(z);
    let all = zs + m.msg + t;
    assert(all.subrange(0, w as int) =~= zs);
    assert(all.subrange(w as int, all.len() - 64) =~= m.msg);
    assert(all.subrange(all.len() - 64, all.len() as int) =~= t);
}

/// What encryption with a passphrase and a nonce of 64 bytes leaves in a
/// message fits the layout of a symmetric cryptogram, and the ciphertext is
/// as long as the plaintext.
pub proof fn lemma_pw_encrypt_fits(m: MessageSpec, pw: Seq<u8>, z: Seq<u8>, d: u64)
    requires
        z.len() == 64,
    ensures
        sym_cryptogram_fits(spec_pw_encrypt(m, pw, z, d)),
        spec_pw_encrypt(m, pw, z, d).msg.len() == m.msg.len(),
{
    let keys = spec_key_material(z + pw, "S".spec_bytes(), d);
    lemma_kmac_len(keys.subrange(64, 128), m.msg, 512, "SKA".spec_bytes(), d);
}

/// What encryption to a public key leaves in a message fits the layout of a
/// public-key cryptogram, and the ciphertext is as long as the plaintext.
pub proof fn lemma_key_encrypt_fits(m: MessageSpec, v: PointSpec, k: Seq<u8>, d: u64)
    ensures
        key_cryptogram_fits(spec_key_encrypt(m, v, k, d)),
        spec_key_encrypt(m, v, k, d).msg.len() == m.msg.len(),
{
    let scalar = spec_ephemeral_scalar(k, v.curve);
    let keys = spec_shared_keys(spec_scalar_mul(scalar, v), d);
    lemma_scalar_mul_fits(scalar, spec_generator(v.curve, false));
    lemma_kmac_len(keys.subrange(64, 128), m.msg, 512, "PKA".spec_bytes(), d);
}

/// The number of bytes of a coordinate on `curve`.
pub fn coordinate_width(curve: EdCurves) -> (r: usize)
    ensures
        r == spec_coordinate_width(curve),
{
    match curve {
        EdCurves::E448 => 56,
        EdCurves::E521 => 66,
    }
}

/// The number of bytes of a scalar on `curve`.
pub fn scalar_width(curve: EdCurves) -> (r: usize)
    ensures
        r == spec_scalar_width(curve),
{
    match curve {
        EdCurves::E448 => 56,
        EdCurves::E521 => 65,
    }
}

/// The bytes of `bytes` from `from` up to `to`.
fn slice_bytes(bytes: &[u8], from: usize, to: usize) -> (r: Vec<u8>)
    requires
        from <= to <= bytes@.len(),
    ensures
        r@ == bytes@.subrange(from as int, to as int),
{
    let mut v: Vec<u8> = Vec::new();
    let mut i: usize = from;
    assert(v@ =~= bytes@.subrange(from as int, from as int));
    while i < to
        invariant
            from <= i <= to <= bytes@.len(),
            v@ == bytes@.subrange(from as int, i as int),
        decreases to - i,
    {
        v.push(bytes[i]);
        assert(v@ =~= bytes@.subrange(from as int, i + 1));
        i += 1;
    }
    v
}

/// The point on the wire, or `None` where a coordinate does not fit the
/// width of its curve.
pub fn encode_point(a: &EdCurvePoint) -> (r: Option<Vec<u8>>)
    ensures
        match r {
            Some(v) => point_fits(a@) && v@ == spec_encode_point(a@),
            None => !point_fits(a@),
        },
{
    let w = coordinate_width(a.curve);
    match a.x.to_bytes_be_fixed(w) {
        Some(xs) => match a.y.to_bytes_be_fixed(w) {
            Some(ys) => {
                let mut v = xs;
                append_bytes(&mut v, &ys);
                Some(v)
            },
            None => None,
        },
        None => None,
    }
}

/// The point that `bytes` hold for `curve`, or `None` where their number is
/// not twice the width of a coordinate. Whether the point lies on the curve
/// is not looked at here.
pub fn decode_point(bytes: &[u8], curve: EdCurves) -> (r: Option<EdCurvePoint>)
    ensures
        match r {
            Some(a) => bytes@.len() == 2 * spec_coordinate_width(curve) && a@ == spec_decode_point(
                bytes@,
                curve,
            ),
            None => bytes@.len() != 2 * spec_coordinate_width(curve),
        },
{
    let w = coordinate_width(curve);
    if bytes.len() != 2 * w {
        return None;
    }
    let xs = slice_bytes(bytes, 0, w);
    let ys = slice_bytes(bytes, w, 2 * w);
    Some(
        EdCurvePoint {
            x: BigNat::from_bytes_be(xs.as_slice()),
            y: BigNat::from_bytes_be(ys.as_slice()),
            curve,
        },
    )
}

/// The signature on the wire, or `None` where its hash has not 64 bytes or
/// its response does not fit the width of a scalar of `curve`.
pub fn encode_signature(sig: &Signature, curve: EdCurves) -> (r: Option<Vec<u8>>)
    ensures
        match r {
            Some(v) => signature_fits(sig@, curve) && v@ == spec_encode_signature(sig@, curve),
            None => !signature_fits(sig@, curve),
        },
{
    if sig.h.len() != 64 {
        return None;
    }
    match sig.z.to_bytes_be_fixed(scalar_width(curve)) {
        Some(zs) => {
            let mut v = copy_bytes(sig.h.as_slice());
            append_bytes(&mut v, &zs);
            Some(v)
        },
        None => None,
    }
}

/// The signature that `bytes` hold for `curve`, or `None` where their
/// number is not 64 plus the width of a scalar.
pub fn decode_signature(bytes: &[u8], curve: EdCurves) -> (r: Option<Signature>)
    ensures
        match r {
            Some(sig) => bytes@.len() == spec_hash_width() + spec_scalar_width(curve) && sig@
                == spec_decode_signature(bytes@, curve),
            None => bytes@.len() != spec_hash_width() + spec_scalar_width(curve),
        },
{
    let w = scalar_width(curve);
    if bytes.len() != 64 + w {
        return None;
    }
    let h = slice_bytes(bytes, 0, 64);
    let zs = slice_bytes(bytes, 64, 64 + w);
    Some(Signature { h, z: BigNat::from_bytes_be(zs.as_slice()) })
}

/// The symmetric cryptogram of the message on the wire, or `None` where
/// the message does not hold a nonce and a tag of 64 bytes each.
pub fn encode_sym_cryptogram(m: &Message) -> (r: Option<Vec<u8>>)
    ensures
        match r {
            Some(v) => sym_cryptogram_fits(m@) && v@ == spec_encode_sym_cryptogram(m@),
            None => !sym_cryptogram_fits(m@),
        },
{
    match (&m.sym_nonce, &m.digest) {
        (Some(z), Some(t)) => {
            if z.len() != 64 || t.len() != 64 {
                return None;
            }
            let mut v = copy_bytes(z.as_slice());
            append_bytes(&mut v, &m.msg);
            append_bytes(&mut v, t);
            Some(v)
        },
        _ => None,
    }
}

/// The message that the bytes of a symmetric cryptogram hold, or `None`
/// where they are too few for a nonce and a tag.
pub fn decode_sym_cryptogram(bytes: &[u8]) -> (r: Option<Message>)
    ensures
        match r {
            Some(m) => bytes@.len() >= 128 && m@ == spec_decode_sym_cryptogram(bytes@),
            None => bytes@.len() < 128,
        },
{
    let n = bytes.len();
    if n < 128 {
        return None;
    }
    let z = slice_bytes(bytes, 0, 64);
    let c = slice_bytes(bytes, 64, n - 64);
    let t = slice_bytes(bytes, n - 64, n);
    Some(
        Message {
            msg: c,
            sym_nonce: Some(z),
            asym_nonce: None,
            digest: Some(t),
            op_result: None,
            sig: None,
        },
    )
}

/// The public-key cryptogram of the message on the wire, or `None` where
/// the message does not hold a nonce point that fits its curve and a tag of
/// 64 bytes.
pub fn encode_key_cryptogram(m: &Message) -> (r: Option<Vec<u8>>)
    ensures
        match r {
            Some(v) => key_cryptogram_fits(m@) && v@ == spec_encode_key_cryptogram(m@),
            None => !key_cryptogram_fits(m@),
        },
{
    match (&m.asym_nonce, &m.digest) {
        (Some(z), Some(t)) => {
            if t.len() != 64 {
                return None;
            }
            match encode_point(z) {
                Some(zs) => {
                    let mut v = zs;
                    append_bytes(&mut v, &m.msg);
                    append_bytes(&mut v, t);
                    Some(v)
                },
                None => None,
            }
        },
        _ => None,
    }
}

/// The message that the bytes of a public-key cryptogram hold for `curve`,
/// or `None` where they are too few for a point and a tag.
pub fn decode_key_cryptogram(bytes: &[u8], curve: EdCurves) -> (r: Option<Message>)
    ensures
        match r {
            Some(m) => bytes@.len() >= 2 * spec_coordinate_width(curve) + 64 && m@
                == spec_decode_key_cryptogram(bytes@, curve),
            None => bytes@.len() < 2 * spec_coordinate_width(curve) + 64,
        },
{
    let n = bytes.len();
    let w = 2 * coordinate_width(curve);
    if n < w + 64 {
        return None;
    }
    let zs = slice_bytes(bytes, 0, w);
    let c = slice_bytes(bytes, w, n - 64);
    let t = slice_bytes(bytes, n - 64, n);
    match decode_point(zs.as_slice(), curve) {
        Some(z) => Some(
            Message {
                msg: c,
                sym_nonce: None,
                asym_nonce: Some(z),
                digest: Some(t),
                op_result: None,
                sig: None,
            },
        ),
        None => None,
    }
}

} // verus!
