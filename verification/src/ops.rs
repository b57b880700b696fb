//! The hash functions built on the sponge (SHAKE, cSHAKE, KMAC-XOF) and the
//! operations on messages and key pairs that use them.

use crate::bignum::{big_mul, big_rem, sub_mod, BigNat};
use crate::curves::{
    lemma_p_large, order, spec_generator, spec_on_curve, spec_order, spec_scalar_mul,
    EdCurvePoint, EdCurves, PointSpec,
};
use crate::error::CryptoError;
use crate::numeric::{
    be_bytes, be_value, lemma_be_bytes_len_bound, lemma_be_value_bound, lemma_pow256_66, pow256,
};
use crate::sha3::aux_functions::byte_utils::{
    big_to_bytes, bytes_to_big_int, get_date_and_time_as_string, get_random_bytes, wipe,
    xor_bytes, xor_seq,
};
use crate::{KeyPair, Message, MessageSpec, Signature, SignatureSpec};
use crate::sha3::aux_functions::nist_800_185::{
    byte_pad, encode_string, right_encode, spec_byte_pad, spec_encode_string, spec_right_encode,
};
use crate::sha3::sponge::{sponge_absorb, sponge_squeeze, spec_sponge};
use vstd::prelude::*;
use vstd::string::StringSliceAdditionalSpecFns;

verus! {

/// The security strengths that the plain hash accepts.
pub open spec fn valid_strength(d: u64) -> bool {
    d == 224 || d == 256 || d == 384 || d == 512
}

/// The security parameters that cSHAKE and KMAC-XOF accept: the two for which
/// a padding width is defined.
pub open spec fn valid_cshake_strength(d: u64) -> bool {
    d == 256 || d == 512
}

/// The width that cSHAKE and KMAC-XOF pad their prefix to, which is the rate
/// of the sponge in bytes.
pub open spec fn bytepad_width(d: u64) -> u32 {
    if d == 256 {
        168
    } else {
        136
    }
}

/// The hash of `n` at strength `d`: the sponge with capacity `2d`, domain
/// byte `0x06`, and `d` bits of output.
pub open spec fn spec_shake(n: Seq<u8>, d: u64) -> Seq<u8> {
    spec_sponge(n, 0x06, ((1600 - 2 * d) / 8) as nat, (d / 8) as nat)
}

/// cSHAKE of `x` with function name `n` and customization `s`, `l` bits long.
/// With both strings empty it is the plain hash of `x` at strength `l`.
pub open spec fn spec_cshake(x: Seq<u8>, l: u64, n: Seq<u8>, s: Seq<u8>, d: u64) -> Seq<u8> {
    if n.len() == 0 && s.len() == 0 {
        spec_shake(x, l)
    } else {
        let prefix = spec_byte_pad(spec_encode_string(n) + spec_encode_string(s), bytepad_width(d));
        spec_sponge(prefix + x, 0x04, ((1600 - d) / 8) as nat, (l / 8) as nat)
    }
}

/// Whether cSHAKE accepts its parameters: with both strings empty, `l` has
/// to be a strength of the plain hash; otherwise `d` has to be 256 or 512.
pub open spec fn cshake_accepts(l: u64, n: Seq<u8>, s: Seq<u8>, d: u64) -> bool {
    if n.len() == 0 && s.len() == 0 {
        valid_strength(l)
    } else {
        valid_cshake_strength(d)
    }
}

/// The function name that KMAC hands to cSHAKE.
pub open spec fn kmac_name() -> Seq<u8> {
    "KMAC".spec_bytes()
}

/// What KMAC-XOF hands to cSHAKE as its message: the padded key, the message
/// and `right_encode(0)`.
pub open spec fn kmac_input(k: Seq<u8>, x: Seq<u8>, d: u64) -> Seq<u8> {
    spec_byte_pad(spec_encode_string(k), bytepad_width(d)) + x + spec_right_encode(0)
}

/// KMAC-XOF of `x` under key `k` with customization `s`, `l` bits long.
pub open spec fn spec_kmac_xof(k: Seq<u8>, x: Seq<u8>, l: u64, s: Seq<u8>, d: u64) -> Seq<u8> {
    spec_cshake(kmac_input(k, x, d), l, kmac_name(), s, d)
}

/// The function name of KMAC is four bytes long.
pub proof fn lemma_kmac_name()
    ensures
        kmac_name().len() == 4,
        kmac_name() == seq![0x4Bu8, 0x4D, 0x41, 0x43],
{
    reveal_strlit("KMAC");
    let s = "KMAC";
    assert(s@ =~= seq!['K', 'M', 'A', 'C']);
    assert(vstd::string::is_ascii(s)) by {
        assert(vstd::utf8::is_ascii_chars(s@));
    }
    vstd::string::is_ascii_spec_bytes(s);
    assert(kmac_name() =~= seq![0x4Bu8, 0x4D, 0x41, 0x43]);
}

/// A buffer of its own with the bytes of `s`.
pub(crate) fn copy_bytes(s: &[u8]) -> (r: Vec<u8>)
    ensures
        r@ == s@,
{
    let mut v: Vec<u8> = Vec::new();
    let mut i: usize = 0;
    while i < s.len()
        invariant
            i <= s.len(),
            v@ == s@.subrange(0, i as int),
        decreases s.len() - i,
    {
        v.push(s[i]);
        assert(v@ =~= s@.subrange(0, i + 1));
        i += 1;
    }
    assert(s@.subrange(0, s.len() as int) =~= s@);
    v
}

/// Puts the bytes of `s` behind those of `out`.
pub(crate) fn append_bytes(out: &mut Vec<u8>, s: &Vec<u8>)
    ensures
        final(out)@ == old(out)@ + s@,
{
    let mut i: usize = 0;
    while i < s.len()
        invariant
            i <= s.len(),
            out@ == old(out)@ + s@.subrange(0, i as int),
        decreases s.len() - i,
    {
        out.push(s[i]);
        assert(out@ =~= old(out)@ + s@.subrange(0, i + 1));
        i += 1;
    }
    assert(s@.subrange(0, s.len() as int) =~= s@);
}

/// The hash of `n` at strength `d`, which has to be 224, 256, 384 or 512.
pub fn shake(n: &Vec<u8>, d: u64) -> (r: Result<Vec<u8>, CryptoError>)
    ensures
        match r {
            Ok(v) => valid_strength(d) && v@ == spec_shake(n@, d),
            Err(e) => !valid_strength(d) && e == CryptoError::InvalidSecurityParameter,
        },
{
    if !(d == 224 || d == 256 || d == 384 || d == 512) {
        return Err(CryptoError::InvalidSecurityParameter);
    }
    let state = sponge_absorb(n, 0x06, 2 * d);
    Ok(sponge_squeeze(&state, d, 1600 - 2 * d))
}

/// cSHAKE with a function name or a customization string that is not empty,
/// at a parameter that has been checked.
fn cshake_core(x: &Vec<u8>, l: u64, n: &[u8], s: &[u8], d: u64) -> (r: Vec<u8>)
    requires
        valid_cshake_strength(d),
        n@.len() * 8 <= u64::MAX,
        s@.len() * 8 <= u64::MAX,
        l / 8 <= usize::MAX,
        n@.len() > 0 || s@.len() > 0,
    ensures
        r@ == spec_cshake(x@, l, n@, s@, d),
        r@.len() == l / 8,
{
    let bytepad_w: u32 = if d == 256 {
        168
    } else {
        136
    };
    let n_bytes = copy_bytes(n);
    let s_bytes = copy_bytes(s);
    let mut encoded_n = encode_string(&n_bytes);
    let encoded_s = encode_string(&s_bytes);
    append_bytes(&mut encoded_n, &encoded_s);
    let mut out = byte_pad(&encoded_n, bytepad_w);
    append_bytes(&mut out, x);
    let state = sponge_absorb(&out, 0x04, d);
    sponge_squeeze(&state, l, 1600 - d)
}

/// cSHAKE of `x`: `l` bits of output, function name `n`, customization `s`.
/// With both strings empty it is the plain hash at strength `l`, whatever `d`
/// is; otherwise `d` has to be 256 or 512.
pub fn cshake(x: &Vec<u8>, l: u64, n: &str, s: &str, d: u64) -> (r: Result<Vec<u8>, CryptoError>)
    requires
        n.spec_bytes().len() * 8 <= u64::MAX,
        s.spec_bytes().len() * 8 <= u64::MAX,
        l / 8 <= usize::MAX,
    ensures
        match r {
            Ok(v) => cshake_accepts(l, n.spec_bytes(), s.spec_bytes(), d) && v@ == spec_cshake(
                x@,
                l,
                n.spec_bytes(),
                s.spec_bytes(),
                d,
            ),
            Err(e) => !cshake_accepts(l, n.spec_bytes(), s.spec_bytes(), d) && e
                == CryptoError::InvalidSecurityParameter,
        },
{
    let n_bytes = n.as_bytes();
    let s_bytes = s.as_bytes();
    if n_bytes.len() == 0 && s_bytes.len() == 0 {
        return shake(x, l);
    }
    if !(d == 256 || d == 512) {
        return Err(CryptoError::InvalidSecurityParameter);
    }
    Ok(cshake_core(x, l, n_bytes, s_bytes, d))
}

/// KMAC-XOF at a parameter that has been checked.
fn kmac_core(k: &Vec<u8>, x: &Vec<u8>, l: u64, s: &str, d: u64) -> (r: Vec<u8>)
    requires
        valid_cshake_strength(d),
        k@.len() * 8 <= u64::MAX,
        s.spec_bytes().len() * 8 <= u64::MAX,
        l / 8 <= usize::MAX,
    ensures
        r@ == spec_kmac_xof(k@, x@, l, s.spec_bytes(), d),
        r@.len() == l / 8,
{
    let bytepad_w: u32 = if d == 256 {
        168
    } else {
        136
    };
    let encode_k = encode_string(k);
    let mut bp = byte_pad(&encode_k, bytepad_w);
    append_bytes(&mut bp, x);
    let right_enc = right_encode(0);
    append_bytes(&mut bp, &right_enc);
    proof {
        lemma_kmac_name();
    }
    cshake_core(&bp, l, "KMAC".as_bytes(), s.as_bytes(), d)
}

/// KMAC-XOF of `x` under key `k`: `l` bits of output, customization `s`.
/// The parameter `d` has to be 256 or 512.
pub fn kmac_xof(k: &Vec<u8>, x: &Vec<u8>, l: u64, s: &str, d: u64) -> (r: Result<
    Vec<u8>,
    CryptoError,
>)
    requires
        k@.len() * 8 <= u64::MAX,
        s.spec_bytes().len() * 8 <= u64::MAX,
        l / 8 <= usize::MAX,
    ensures
        match r {
            Ok(v) => valid_cshake_strength(d) && v@ == spec_kmac_xof(
                k@,
                x@,
                l,
                s.spec_bytes(),
                d,
            ) && v@.len() == l / 8,
            Err(e) => !valid_cshake_strength(d) && e == CryptoError::InvalidSecurityParameter,
        },
{
    if !(d == 256 || d == 512) {
        return Err(CryptoError::InvalidSecurityParameter);
    }
    Ok(kmac_core(k, x, l, s, d))
}

/// The byte string of no bytes.
pub open spec fn no_bytes() -> Seq<u8> {
    Seq::<u8>::empty()
}

/// The 128 bytes of key material that KMAC-XOF derives from `seed` under
/// the label `s`: an encryption key of 64 bytes, then an authentication key
/// of 64 bytes.
pub open spec fn spec_key_material(seed: Seq<u8>, s: Seq<u8>, d: u64) -> Seq<u8> {
    spec_kmac_xof(seed, no_bytes(), 1024, s, d)
}

/// The data XORed with the keystream that the first half of `keys` gives.
pub open spec fn spec_masked(keys: Seq<u8>, data: Seq<u8>, s: Seq<u8>, d: u64) -> Seq<u8> {
    xor_seq(data, spec_kmac_xof(keys.subrange(0, 64), no_bytes(), (8 * data.len()) as u64, s, d))
}

/// The authentication tag of `data` under the second half of `keys`.
pub open spec fn spec_tag(keys: Seq<u8>, data: Seq<u8>, s: Seq<u8>, d: u64) -> Seq<u8> {
    spec_kmac_xof(keys.subrange(64, 128), data, 512, s, d)
}

/// The message after hashing at strength `d`.
pub open spec fn spec_compute_sha3_hash(m: MessageSpec, d: u64) -> MessageSpec {
    MessageSpec { digest: Some(spec_shake(m.msg, d)), ..m }
}

/// The message after tagging under `pw` with the label `s`.
pub open spec fn spec_compute_tagged_hash(m: MessageSpec, pw: Seq<u8>, s: Seq<u8>, d: u64)
    -> MessageSpec {
    MessageSpec { digest: Some(spec_kmac_xof(pw, m.msg, d, s, d)), ..m }
}

/// The message after symmetric encryption under `pw` with the nonce `z`:
/// the keys come from `z || pw`, the tag is taken over the plaintext, and
/// the data is masked.
pub open spec fn spec_pw_encrypt(m: MessageSpec, pw: Seq<u8>, z: Seq<u8>, d: u64) -> MessageSpec {
    let keys = spec_key_material(z + pw, "S".spec_bytes(), d);
    MessageSpec {
        msg: spec_masked(keys, m.msg, "SKE".spec_bytes(), d),
        digest: Some(spec_tag(keys, m.msg, "SKA".spec_bytes(), d)),
        sym_nonce: Some(z),
        ..m
    }
}

/// The message after symmetric decryption under `pw`: the data is unmasked,
/// and the outcome says whether the tag of the result is the stored one.
pub open spec fn spec_pw_decrypt(m: MessageSpec, pw: Seq<u8>, d: u64) -> MessageSpec {
    let keys = spec_key_material(m.sym_nonce->0 + pw, "S".spec_bytes(), d);
    let plain = spec_masked(keys, m.msg, "SKE".spec_bytes(), d);
    MessageSpec {
        msg: plain,
        op_result: Some(spec_tag(keys, plain, "SKA".spec_bytes(), d) == m.digest->0),
        ..m
    }
}

/// Four times the number that KMAC-XOF derives from the passphrase: the
/// private scalar before any reduction.
pub open spec fn spec_raw_scalar(pw: Seq<u8>, d: u64) -> nat {
    4 * be_value(spec_kmac_xof(pw, no_bytes(), 512, "K".spec_bytes(), d))
}

/// The private scalar of a passphrase on a curve.
pub open spec fn spec_private_scalar(pw: Seq<u8>, curve: EdCurves, d: u64) -> nat {
    spec_raw_scalar(pw, d) % spec_order(curve)
}

/// The public key of a passphrase on a curve.
pub open spec fn spec_public_key(pw: Seq<u8>, curve: EdCurves, d: u64) -> PointSpec {
    spec_scalar_mul(spec_private_scalar(pw, curve, d), spec_generator(curve, false))
}

/// The ephemeral scalar that 64 random bytes stand for.
pub open spec fn spec_ephemeral_scalar(k: Seq<u8>, curve: EdCurves) -> nat {
    (4 * be_value(k)) % spec_order(curve)
}

/// The key material that both sides of a public-key encryption derive from
/// the shared point.
pub open spec fn spec_shared_keys(w: PointSpec, d: u64) -> Seq<u8> {
    spec_key_material(be_bytes(w.x), "PK".spec_bytes(), d)
}

/// The message after public-key encryption to `v` with the random bytes `k`.
pub open spec fn spec_key_encrypt(m: MessageSpec, v: PointSpec, k: Seq<u8>, d: u64)
    -> MessageSpec {
    let scalar = spec_ephemeral_scalar(k, v.curve);
    let keys = spec_shared_keys(spec_scalar_mul(scalar, v), d);
    MessageSpec {
        msg: spec_masked(keys, m.msg, "PKE".spec_bytes(), d),
        digest: Some(spec_tag(keys, m.msg, "PKA".spec_bytes(), d)),
        asym_nonce: Some(spec_scalar_mul(scalar, spec_generator(v.curve, false))),
        ..m
    }
}

/// The message after public-key decryption with the passphrase `pw`.
pub open spec fn spec_key_decrypt(m: MessageSpec, pw: Seq<u8>, d: u64) -> MessageSpec {
    let z = m.asym_nonce->0;
    let keys = spec_shared_keys(spec_scalar_mul(spec_private_scalar(pw, z.curve, d), z), d);
    let plain = spec_masked(keys, m.msg, "PKE".spec_bytes(), d);
    MessageSpec {
        msg: plain,
        op_result: Some(spec_tag(keys, plain, "PKA".spec_bytes(), d) == m.digest->0),
        ..m
    }
}

/// The nonce scalar of a signature: derived from the raw private scalar and
/// the data, times four, not reduced.
pub open spec fn spec_sign_nonce(data: Seq<u8>, pw: Seq<u8>, d: u64) -> nat {
    4 * be_value(
        spec_kmac_xof(be_bytes(spec_raw_scalar(pw, d)), data, 512, "N".spec_bytes(), d),
    )
}

/// The hash that binds a commitment point to the data.
pub open spec fn spec_challenge(u: PointSpec, data: Seq<u8>, d: u64) -> Seq<u8> {
    spec_kmac_xof(be_bytes(u.x), data, 512, "T".spec_bytes(), d)
}

/// The signature of `data` under the passphrase `pw`: `h` is the challenge
/// of the commitment `k * G`, and `z = (k - h * s) mod r`.
pub open spec fn spec_signature(data: Seq<u8>, pw: Seq<u8>, curve: EdCurves, d: u64)
    -> SignatureSpec {
    let s = spec_raw_scalar(pw, d);
    let k = spec_sign_nonce(data, pw, d);
    let h = spec_challenge(spec_scalar_mul(k, spec_generator(curve, false)), data, d);
    SignatureSpec {
        h,
        z: ((k as int - be_value(h) * s) % (spec_order(curve) as int)) as nat,
    }
}

/// The message after signing.
pub open spec fn spec_sign(m: MessageSpec, pw: Seq<u8>, curve: EdCurves, d: u64) -> MessageSpec {
    MessageSpec { sig: Some(spec_signature(m.msg, pw, curve, d)), ..m }
}

/// The point `z * G + h * V` that a verifier rebuilds from a signature.
pub open spec fn spec_rebuilt_commitment(sig: SignatureSpec, v: PointSpec) -> PointSpec {
    crate::curves::spec_add_points(
        spec_scalar_mul(sig.z, spec_generator(v.curve, false)),
        spec_scalar_mul(be_value(sig.h), v),
    )
}

/// Whether the signature verifies for `data` under the public key `v`.
pub open spec fn spec_signature_valid(data: Seq<u8>, sig: SignatureSpec, v: PointSpec, d: u64)
    -> bool {
    spec_challenge(spec_rebuilt_commitment(sig, v), data, d) == sig.h
}

/// The message after verification.
pub open spec fn spec_verify(m: MessageSpec, v: PointSpec, d: u64) -> MessageSpec {
    MessageSpec { op_result: Some(spec_signature_valid(m.msg, m.sig->0, v, d)), ..m }
}

/// The labels of the operations are short ASCII strings.
pub proof fn lemma_labels()
    ensures
        "S".spec_bytes().len() == 1,
        "SKE".spec_bytes().len() == 3,
        "SKA".spec_bytes().len() == 3,
        "K".spec_bytes().len() == 1,
        "PK".spec_bytes().len() == 2,
        "PKE".spec_bytes().len() == 3,
        "PKA".spec_bytes().len() == 3,
        "N".spec_bytes().len() == 1,
        "T".spec_bytes().len() == 1,
{
    reveal_strlit("S");
    reveal_strlit("SKE");
    reveal_strlit("SKA");
    reveal_strlit("K");
    reveal_strlit("PK");
    reveal_strlit("PKE");
    reveal_strlit("PKA");
    reveal_strlit("N");
    reveal_strlit("T");
    assert(vstd::utf8::is_ascii_chars("S"@));
    assert(vstd::utf8::is_ascii_chars("SKE"@));
    assert(vstd::utf8::is_ascii_chars("SKA"@));
    assert(vstd::utf8::is_ascii_chars("K"@));
    assert(vstd::utf8::is_ascii_chars("PK"@));
    assert(vstd::utf8::is_ascii_chars("PKE"@));
    assert(vstd::utf8::is_ascii_chars("PKA"@));
    assert(vstd::utf8::is_ascii_chars("N"@));
    assert(vstd::utf8::is_ascii_chars("T"@));
    vstd::string::is_ascii_spec_bytes("S");
    vstd::string::is_ascii_spec_bytes("SKE");
    vstd::string::is_ascii_spec_bytes("SKA");
    vstd::string::is_ascii_spec_bytes("K");
    vstd::string::is_ascii_spec_bytes("PK");
    vstd::string::is_ascii_spec_bytes("PKE");
    vstd::string::is_ascii_spec_bytes("PKA");
    vstd::string::is_ascii_spec_bytes("N");
    vstd::string::is_ascii_spec_bytes("T");
}

/// The raw private scalar fits 66 bytes.
pub proof fn lemma_raw_scalar_bound(pw: Seq<u8>, d: u64)
    requires
        valid_cshake_strength(d),
    ensures
        spec_raw_scalar(pw, d) < pow256(66),
{
    let bytes = spec_kmac_xof(pw, no_bytes(), 512, "K".spec_bytes(), d);
    lemma_kmac_len(pw, no_bytes(), 512, "K".spec_bytes(), d);
    lemma_be_value_bound(bytes);
    lemma_pow256_66();
}

/// KMAC-XOF gives `l / 8` bytes.
pub proof fn lemma_kmac_len(k: Seq<u8>, x: Seq<u8>, l: u64, s: Seq<u8>, d: u64)
    ensures
        spec_kmac_xof(k, x, l, s, d).len() == l / 8,
{
    lemma_kmac_name();
    let input = kmac_input(k, x, d);
    let prefix = spec_byte_pad(spec_encode_string(kmac_name()) + spec_encode_string(s), bytepad_width(d));
    crate::sha3::sponge::lemma_squeeze_len(
        crate::sha3::sponge::spec_sponge_absorb(prefix + input, 0x04, ((1600 - d) / 8) as nat),
        (l / 8) as nat,
        ((1600 - d) / 8) as nat,
    );
}

/// Whether two byte strings are equal, found without stopping at the first
/// difference: the time taken depends on the lengths alone.
pub fn ct_eq(a: &Vec<u8>, b: &Vec<u8>) -> (r: bool)
    ensures
        r == (a@ == b@),
{
    if a.len() != b.len() {
        return false;
    }
    let n = a.len();
    let mut acc: u8 = 0;
    let mut i: usize = 0;
    assert(a@.subrange(0, 0) =~= b@.subrange(0, 0));
    while i < n
        invariant
            i <= n,
            n == a@.len(),
            n == b@.len(),
            acc == 0 <==> a@.subrange(0, i as int) == b@.subrange(0, i as int),
        decreases n - i,
    {
        let x = a[i];
        let y = b[i];
        let prev = acc;
        acc = acc | (x ^ y);
        proof {
            assert((prev | (x ^ y)) == 0 <==> (prev == 0 && x == y)) by (bit_vector);
            let a0 = a@.subrange(0, i as int);
            let b0 = b@.subrange(0, i as int);
            let a1 = a@.subrange(0, i + 1);
            let b1 = b@.subrange(0, i + 1);
            assert(a1 =~= a0.push(x));
            assert(b1 =~= b0.push(y));
            if a1 == b1 {
                assert(a1.drop_last() =~= a0);
                assert(b1.drop_last() =~= b0);
                assert(a1.last() == b1.last());
            }
        }
        i += 1;
    }
    assert(a@.subrange(0, n as int) =~= a@);
    assert(b@.subrange(0, n as int) =~= b@);
    acc == 0
}

/// The first `mid` bytes of `v` and the rest, as two buffers.
fn split_bytes(v: &Vec<u8>, mid: usize) -> (r: (Vec<u8>, Vec<u8>))
    requires
        mid <= v@.len(),
    ensures
        r.0@ == v@.subrange(0, mid as int),
        r.1@ == v@.subrange(mid as int, v@.len() as int),
{
    let mut head: Vec<u8> = Vec::new();
    let mut tail: Vec<u8> = Vec::new();
    let mut i: usize = 0;
    while i < mid
        invariant
            i <= mid <= v@.len(),
            head@ == v@.subrange(0, i as int),
        decreases mid - i,
    {
        head.push(v[i]);
        assert(head@ =~= v@.subrange(0, i + 1));
        i += 1;
    }
    while i < v.len()
        invariant
            mid <= i <= v@.len(),
            tail@ == v@.subrange(mid as int, i as int),
        decreases v@.len() - i,
    {
        tail.push(v[i]);
        assert(tail@ =~= v@.subrange(mid as int, i + 1));
        i += 1;
    }
    (head, tail)
}

/// Masks `data` in place with the keystream of the encryption key and
/// returns the tag of what `data` held before.
fn seal(data: &mut Vec<u8>, keys: &Vec<u8>, enc_label: &str, auth_label: &str, d: u64) -> (tag:
    Vec<u8>)
    requires
        valid_cshake_strength(d),
        keys@.len() == 128,
        old(data)@.len() * 8 <= u64::MAX,
        enc_label.spec_bytes().len() <= 8,
        auth_label.spec_bytes().len() <= 8,
    ensures
        final(data)@ == spec_masked(keys@, old(data)@, enc_label.spec_bytes(), d),
        tag@ == spec_tag(keys@, old(data)@, auth_label.spec_bytes(), d),
        tag@.len() == 64,
{
    let (mut ke, mut ka) = split_bytes(keys, 64);
    let none: Vec<u8> = Vec::new();
    let tag = kmac_core(&ka, data, 512, auth_label, d);
    let bits = (data.len() as u64) * 8;
    let mut stream = kmac_core(&ke, &none, bits, enc_label, d);
    xor_bytes(data, &stream);
    wipe(&mut stream);
    wipe(&mut ke);
    wipe(&mut ka);
    tag
}

/// Unmasks `data` in place and returns the tag of the result.
fn unseal(data: &mut Vec<u8>, keys: &Vec<u8>, enc_label: &str, auth_label: &str, d: u64) -> (tag:
    Vec<u8>)
    requires
        valid_cshake_strength(d),
        keys@.len() == 128,
        old(data)@.len() * 8 <= u64::MAX,
        enc_label.spec_bytes().len() <= 8,
        auth_label.spec_bytes().len() <= 8,
    ensures
        final(data)@ == spec_masked(keys@, old(data)@, enc_label.spec_bytes(), d),
        tag@ == spec_tag(keys@, final(data)@, auth_label.spec_bytes(), d),
{
    let (mut ke, mut ka) = split_bytes(keys, 64);
    let none: Vec<u8> = Vec::new();
    let bits = (data.len() as u64) * 8;
    let mut stream = kmac_core(&ke, &none, bits, enc_label, d);
    xor_bytes(data, &stream);
    let tag = kmac_core(&ka, data, 512, auth_label, d);
    wipe(&mut stream);
    wipe(&mut ke);
    wipe(&mut ka);
    tag
}

/// Four times the number that KMAC-XOF derives from the passphrase.
fn raw_scalar(pw: &Vec<u8>, d: u64) -> (r: BigNat)
    requires
        valid_cshake_strength(d),
        pw@.len() * 8 <= u64::MAX,
    ensures
        r@ == spec_raw_scalar(pw@, d),
{
    proof {
        lemma_labels();
    }
    let none: Vec<u8> = Vec::new();
    let mut bytes = kmac_core(pw, &none, 512, "K", d);
    let mut x = bytes_to_big_int(bytes.as_slice());
    let four = BigNat::from_u64(4);
    let r = big_mul(&x, &four);
    assert(x@ * 4 == 4 * x@);
    wipe(&mut bytes);
    x.wipe();
    r
}

/// The private scalar of a passphrase on a curve.
pub(crate) fn private_scalar(pw: &Vec<u8>, curve: EdCurves, d: u64) -> (r: BigNat)
    requires
        valid_cshake_strength(d),
        pw@.len() * 8 <= u64::MAX,
    ensures
        r@ == spec_private_scalar(pw@, curve, d),
{
    proof {
        lemma_p_large(curve);
    }
    let mut raw = raw_scalar(pw, d);
    let r = big_rem(&raw, &order(curve));
    raw.wipe();
    r
}

/// The point `z * G + h * V` of a signature, with its x-coordinate fitting
/// 66 bytes.
fn rebuilt_commitment(sig: &Signature, pub_key: &EdCurvePoint) -> (r: EdCurvePoint)
    ensures
        r@ == spec_rebuilt_commitment(sig@, pub_key@),
        r.x@ < pow256(66),
{
    proof {
        lemma_p_large(pub_key.curve);
    }
    let zg = EdCurvePoint::generator(pub_key.curve, false).scalar_mul(&sig.z);
    let hv = pub_key.scalar_mul(&bytes_to_big_int(sig.h.as_slice()));
    zg.add_points(&hv)
}

/// Whether the signature verifies for `data` under the public key.
fn check_signature(data: &Vec<u8>, sig: &Signature, pub_key: &EdCurvePoint, d: u64) -> (r: bool)
    requires
        valid_cshake_strength(d),
    ensures
        r == spec_signature_valid(data@, sig@, pub_key@, d),
{
    let u = rebuilt_commitment(sig, pub_key);
    let ux_bytes = big_to_bytes(&u.x);
    proof {
        lemma_labels();
        lemma_be_bytes_len_bound(u.x@, 66);
    }
    let h = kmac_core(&ux_bytes, data, 512, "T", d);
    ct_eq(&h, &sig.h)
}

impl Message {
    /// Hashes the data at strength `d` into `digest`. The strength has to
    /// be 224, 256, 384 or 512.
    pub fn compute_sha3_hash(&mut self, d: u64) -> (r: Result<(), CryptoError>)
        ensures
            match r {
                Ok(_) => valid_strength(d) && final(self)@ == spec_compute_sha3_hash(
                    old(self)@,
                    d,
                ),
                Err(e) => !valid_strength(d) && e == CryptoError::InvalidSecurityParameter
                    && final(self)@ == old(self)@,
            },
    {
        match shake(&self.msg, d) {
            Ok(h) => {
                self.digest = Some(h);
                Ok(())
            },
            Err(e) => Err(e),
        }
    }

    /// Tags the data under the key `pw` with the label `s` into `digest`:
    /// `d` bits of KMAC-XOF. The parameter has to be 256 or 512.
    pub fn compute_tagged_hash(&mut self, pw: &Vec<u8>, s: &str, d: u64) -> (r: Result<
        (),
        CryptoError,
    >)
        requires
            pw@.len() * 8 <= u64::MAX,
            s.spec_bytes().len() * 8 <= u64::MAX,
        ensures
            match r {
                Ok(_) => valid_cshake_strength(d) && final(self)@ == spec_compute_tagged_hash(
                    old(self)@,
                    pw@,
                    s.spec_bytes(),
                    d,
                ),
                Err(e) => !valid_cshake_strength(d) && e == CryptoError::InvalidSecurityParameter
                    && final(self)@ == old(self)@,
            },
    {
        if !(d == 256 || d == 512) {
            return Err(CryptoError::InvalidSecurityParameter);
        }
        let t = kmac_core(pw, &self.msg, d, s, d);
        self.digest = Some(t);
        Ok(())
    }

    /// Encrypts the data in place under `pw` with the nonce `z`, and stores
    /// the tag of the plaintext and the nonce.
    pub fn pw_encrypt_with_nonce(&mut self, pw: &Vec<u8>, z: Vec<u8>, d: u64) -> (r: Result<
        (),
        CryptoError,
    >)
        requires
            (z@.len() + pw@.len()) * 8 <= u64::MAX,
            old(self).msg@.len() * 8 <= u64::MAX,
        ensures
            match r {
                Ok(_) => valid_cshake_strength(d) && final(self)@ == spec_pw_encrypt(
                    old(self)@,
                    pw@,
                    z@,
                    d,
                ),
                Err(e) => !valid_cshake_strength(d) && e == CryptoError::InvalidSecurityParameter
                    && final(self)@ == old(self)@,
            },
    {
        if !(d == 256 || d == 512) {
            return Err(CryptoError::InvalidSecurityParameter);
        }
        proof {
            lemma_labels();
        }
        let mut seed = copy_bytes(z.as_slice());
        append_bytes(&mut seed, pw);
        let none: Vec<u8> = Vec::new();
        let mut keys = kmac_core(&seed, &none, 1024, "S", d);
        let tag = seal(&mut self.msg, &keys, "SKE", "SKA", d);
        wipe(&mut keys);
        wipe(&mut seed);
        self.digest = Some(tag);
        self.sym_nonce = Some(z);
        Ok(())
    }

    /// Encrypts the data in place under the passphrase `pw` with a fresh
    /// random nonce of 64 bytes.
    pub fn pw_encrypt(&mut self, pw: &Vec<u8>, d: u64) -> (r: Result<(), CryptoError>)
        requires
            (64 + pw@.len()) * 8 <= u64::MAX,
            old(self).msg@.len() * 8 <= u64::MAX,
        ensures
            match r {
                Ok(_) => valid_cshake_strength(d) && final(self)@.sym_nonce is Some
                    && final(self)@.sym_nonce->0.len() == 64 && final(self)@ == spec_pw_encrypt(
                    old(self)@,
                    pw@,
                    final(self)@.sym_nonce->0,
                    d,
                ),
                Err(e) => !valid_cshake_strength(d) && e == CryptoError::InvalidSecurityParameter
                    && final(self)@ == old(self)@,
            },
    {
        let z = get_random_bytes(64);
        self.pw_encrypt_with_nonce(pw, z, d)
    }

    /// Decrypts the data in place under the passphrase `pw` and says whether
    /// the tag of the result is the stored one. The outcome is also left in
    /// `op_result`. The nonce and the tag of the encryption must be there.
    pub fn pw_decrypt(&mut self, pw: &Vec<u8>, d: u64) -> (r: Result<bool, CryptoError>)
        requires
            old(self).sym_nonce is Some,
            old(self).digest is Some,
            (old(self)@.sym_nonce->0.len() + pw@.len()) * 8 <= u64::MAX,
            old(self).msg@.len() * 8 <= u64::MAX,
        ensures
            match r {
                Ok(b) => valid_cshake_strength(d) && final(self)@ == spec_pw_decrypt(
                    old(self)@,
                    pw@,
                    d,
                ) && final(self)@.op_result == Some(b),
                Err(e) => !valid_cshake_strength(d) && e == CryptoError::InvalidSecurityParameter
                    && final(self)@ == old(self)@,
            },
    {
        if !(d == 256 || d == 512) {
            return Err(CryptoError::InvalidSecurityParameter);
        }
        proof {
            lemma_labels();
        }
        let mut seed = match &self.sym_nonce {
            Some(z) => copy_bytes(z.as_slice()),
            None => Vec::new(),
        };
        append_bytes(&mut seed, pw);
        let none: Vec<u8> = Vec::new();
        let mut keys = kmac_core(&seed, &none, 1024, "S", d);
        let tag = unseal(&mut self.msg, &keys, "SKE", "SKA", d);
        wipe(&mut keys);
        wipe(&mut seed);
        let ok = match &self.digest {
            Some(t) => ct_eq(&tag, t),
            None => false,
        };
        self.op_result = Some(ok);
        Ok(ok)
    }

    /// Encrypts the data in place to the public key `pub_key`, with the
    /// ephemeral scalar taken from the bytes `k`, and stores the tag of the
    /// plaintext and the nonce point.
    pub fn key_encrypt_with_nonce(&mut self, pub_key: &EdCurvePoint, k: &Vec<u8>, d: u64) -> (r:
        Result<(), CryptoError>)
        requires
            old(self).msg@.len() * 8 <= u64::MAX,
        ensures
            match r {
                Ok(_) => valid_cshake_strength(d) && spec_on_curve(pub_key@) && final(self)@
                    == spec_key_encrypt(old(self)@, pub_key@, k@, d),
                Err(e) => final(self)@ == old(self)@ && if !valid_cshake_strength(d) {
                    e == CryptoError::InvalidSecurityParameter
                } else {
                    !spec_on_curve(pub_key@) && e == CryptoError::PointOffCurve
                },
            },
    {
        if !(d == 256 || d == 512) {
            return Err(CryptoError::InvalidSecurityParameter);
        }
        if !pub_key.is_on_curve() {
            return Err(CryptoError::PointOffCurve);
        }
        proof {
            lemma_labels();
            lemma_p_large(pub_key.curve);
        }
        let four = BigNat::from_u64(4);
        let r = order(pub_key.curve);
        let mut kb = bytes_to_big_int(k.as_slice());
        let mut k4 = big_mul(&kb, &four);
        assert(kb@ * 4 == 4 * kb@);
        let mut scalar = big_rem(&k4, &r);
        let mut w = pub_key.scalar_mul(&scalar);
        let z = EdCurvePoint::generator(pub_key.curve, false).scalar_mul(&scalar);
        let mut wx = big_to_bytes(&w.x);
        proof {
            lemma_be_bytes_len_bound(w.x@, 66);
        }
        let none: Vec<u8> = Vec::new();
        let mut keys = kmac_core(&wx, &none, 1024, "PK", d);
        let tag = seal(&mut self.msg, &keys, "PKE", "PKA", d);
        wipe(&mut keys);
        wipe(&mut wx);
        w.wipe();
        scalar.wipe();
        k4.wipe();
        kb.wipe();
        self.digest = Some(tag);
        self.asym_nonce = Some(z);
        Ok(())
    }

    /// Encrypts the data in place to the public key `pub_key` with a fresh
    /// random scalar.
    pub fn key_encrypt(&mut self, pub_key: &EdCurvePoint, d: u64) -> (r: Result<(), CryptoError>)
        requires
            old(self).msg@.len() * 8 <= u64::MAX,
        ensures
            match r {
                Ok(_) => valid_cshake_strength(d) && spec_on_curve(pub_key@) && exists|k: Seq<u8>|
                    k.len() == 64 && final(self)@ == #[trigger] spec_key_encrypt(
                        old(self)@,
                        pub_key@,
                        k,
                        d,
                    ),
                Err(e) => final(self)@ == old(self)@ && if !valid_cshake_strength(d) {
                    e == CryptoError::InvalidSecurityParameter
                } else {
                    !spec_on_curve(pub_key@) && e == CryptoError::PointOffCurve
                },
            },
    {
        let k = get_random_bytes(64);
        self.key_encrypt_with_nonce(pub_key, &k, d)
    }

    /// Decrypts the data in place with the passphrase `pw` and says whether
    /// the tag of the result is the stored one. The outcome is also left in
    /// `op_result`. The nonce point and the tag of the encryption must be
    /// there.
    pub fn key_decrypt(&mut self, pw: &Vec<u8>, d: u64) -> (r: Result<bool, CryptoError>)
        requires
            old(self).asym_nonce is Some,
            old(self).digest is Some,
            pw@.len() * 8 <= u64::MAX,
            old(self).msg@.len() * 8 <= u64::MAX,
        ensures
            match r {
                Ok(b) => valid_cshake_strength(d) && spec_on_curve(old(self)@.asym_nonce->0)
                    && final(self)@ == spec_key_decrypt(old(self)@, pw@, d)
                    && final(self)@.op_result == Some(b),
                Err(e) => final(self)@ == old(self)@ && if !valid_cshake_strength(d) {
                    e == CryptoError::InvalidSecurityParameter
                } else {
                    !spec_on_curve(old(self)@.asym_nonce->0) && e == CryptoError::PointOffCurve
                },
            },
    {
        if !(d == 256 || d == 512) {
            return Err(CryptoError::InvalidSecurityParameter);
        }
        proof {
            lemma_labels();
        }
        let mut w = match &self.asym_nonce {
            Some(z) => {
                if !z.is_on_curve() {
                    return Err(CryptoError::PointOffCurve);
                }
                proof {
                    lemma_p_large(z.curve);
                }
                let mut s = private_scalar(pw, z.curve, d);
                let w = z.scalar_mul(&s);
                s.wipe();
                w
            },
            None => { return Err(CryptoError::PointOffCurve); },
        };
        let mut wx = big_to_bytes(&w.x);
        proof {
            lemma_be_bytes_len_bound(w.x@, 66);
        }
        let none: Vec<u8> = Vec::new();
        let mut keys = kmac_core(&wx, &none, 1024, "PK", d);
        let tag = unseal(&mut self.msg, &keys, "PKE", "PKA", d);
        wipe(&mut keys);
        wipe(&mut wx);
        w.wipe();
        let ok = match &self.digest {
            Some(t) => ct_eq(&tag, t),
            None => false,
        };
        self.op_result = Some(ok);
        Ok(ok)
    }

    /// Signs the data with the passphrase of the key pair, on the curve of
    /// the key pair, and stores the signature.
    pub fn sign(&mut self, key: &KeyPair, d: u64) -> (r: Result<(), CryptoError>)
        requires
            key.priv_key@.len() * 8 <= u64::MAX,
        ensures
            match r {
                Ok(_) => valid_cshake_strength(d) && final(self)@ == spec_sign(
                    old(self)@,
                    key.priv_key@,
                    key.curve,
                    d,
                ),
                Err(e) => !valid_cshake_strength(d) && e == CryptoError::InvalidSecurityParameter
                    && final(self)@ == old(self)@,
            },
    {
        if !(d == 256 || d == 512) {
            return Err(CryptoError::InvalidSecurityParameter);
        }
        proof {
            lemma_labels();
            lemma_p_large(key.curve);
        }
        let four = BigNat::from_u64(4);
        let mut s = raw_scalar(&key.priv_key, d);
        let mut s_bytes = big_to_bytes(&s);
        proof {
            lemma_raw_scalar_bound(key.priv_key@, d);
            lemma_be_bytes_len_bound(s@, 66);
        }
        let mut k_bytes = kmac_core(&s_bytes, &self.msg, 512, "N", d);
        let mut kb = bytes_to_big_int(k_bytes.as_slice());
        let mut k = big_mul(&kb, &four);
        assert(kb@ * 4 == 4 * kb@);
        let u = EdCurvePoint::generator(key.curve, false).scalar_mul(&k);
        let ux_bytes = big_to_bytes(&u.x);
        proof {
            lemma_be_bytes_len_bound(u.x@, 66);
        }
        let h = kmac_core(&ux_bytes, &self.msg, 512, "T", d);
        let h_big = bytes_to_big_int(h.as_slice());
        let r = order(key.curve);
        let mut hs = big_mul(&h_big, &s);
        let z = k.sub_mod(&hs, &r);
        hs.wipe();
        k.wipe();
        kb.wipe();
        wipe(&mut k_bytes);
        wipe(&mut s_bytes);
        s.wipe();
        self.sig = Some(Signature { h, z });
        Ok(())
    }

    /// Verifies the stored signature of the data under the public key and
    /// says whether it holds. The outcome is also left in `op_result`. A
    /// signature must be there.
    pub fn verify(&mut self, pub_key: &EdCurvePoint, d: u64) -> (r: Result<bool, CryptoError>)
        requires
            old(self).sig is Some,
        ensures
            match r {
                Ok(b) => valid_cshake_strength(d) && spec_on_curve(pub_key@) && final(self)@
                    == spec_verify(old(self)@, pub_key@, d) && final(self)@.op_result == Some(b),
                Err(e) => final(self)@ == old(self)@ && if !valid_cshake_strength(d) {
                    e == CryptoError::InvalidSecurityParameter
                } else {
                    !spec_on_curve(pub_key@) && e == CryptoError::PointOffCurve
                },
            },
    {
        if !(d == 256 || d == 512) {
            return Err(CryptoError::InvalidSecurityParameter);
        }
        if !pub_key.is_on_curve() {
            return Err(CryptoError::PointOffCurve);
        }
        proof {
            lemma_labels();
        }
        let ok = match &self.sig {
            Some(sig) => check_signature(&self.msg, sig, pub_key, d),
            None => false,
        };
        self.op_result = Some(ok);
        Ok(ok)
    }
}

impl KeyPair {
    /// The key pair of the passphrase `pw` on `curve`, with the given owner
    /// and date.
    pub fn from_parts(pw: &Vec<u8>, owner: String, curve: EdCurves, d: u64, date_created: String)
        -> (r: Result<KeyPair, CryptoError>)
        requires
            pw@.len() * 8 <= u64::MAX,
        ensures
            match r {
                Ok(kp) => valid_cshake_strength(d) && kp.pub_key@ == spec_public_key(pw@, curve, d)
                    && kp.priv_key@ == pw@ && kp.curve == curve && kp.owner == owner
                    && kp.date_created == date_created,
                Err(e) => !valid_cshake_strength(d) && e == CryptoError::InvalidSecurityParameter,
            },
    {
        if !(d == 256 || d == 512) {
            return Err(CryptoError::InvalidSecurityParameter);
        }
        proof {
            lemma_p_large(curve);
        }
        let mut s = private_scalar(pw, curve, d);
        let pub_key = EdCurvePoint::generator(curve, false).scalar_mul(&s);
        s.wipe();
        Ok(KeyPair { owner, pub_key, priv_key: copy_bytes(pw.as_slice()), date_created, curve })
    }

    /// The key pair of the passphrase `pw` on `curve`, stamped with the
    /// current date and time.
    pub fn new(pw: &Vec<u8>, owner: String, curve: EdCurves, d: u64) -> (r: Result<
        KeyPair,
        CryptoError,
    >)
        requires
            pw@.len() * 8 <= u64::MAX,
        ensures
            match r {
                Ok(kp) => valid_cshake_strength(d) && kp.pub_key@ == spec_public_key(pw@, curve, d)
                    && kp.priv_key@ == pw@ && kp.curve == curve && kp.owner == owner,
                Err(e) => !valid_cshake_strength(d) && e == CryptoError::InvalidSecurityParameter,
            },
    {
        let date = get_date_and_time_as_string();
        KeyPair::from_parts(pw, owner, curve, d, date)
    }
}

} // verus!
