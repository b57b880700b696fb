//! What holds of encryption followed by decryption, and of signing followed
//! by verification, for every message and every key.

use crate::curves::{spec_generator, spec_scalar_mul, EdCurves};
use crate::ops::{
    spec_challenge, spec_ephemeral_scalar, spec_key_decrypt, spec_key_encrypt, spec_key_material,
    spec_masked, spec_private_scalar, spec_public_key, spec_pw_decrypt, spec_pw_encrypt,
    spec_rebuilt_commitment, spec_sign_nonce, spec_signature, spec_signature_valid, spec_tag,
    valid_cshake_strength,
};
use crate::sha3::aux_functions::byte_utils::{lemma_xor_twice, xor_seq};
use crate::MessageSpec;
use vstd::prelude::*;
use vstd::string::StringSliceAdditionalSpecFns;

verus! {

/// The message with another tag in place of its own.
pub open spec fn with_digest(m: MessageSpec, t: Seq<u8>) -> MessageSpec {
    MessageSpec { digest: Some(t), ..m }
}

/// The message with other data in place of its own.
pub open spec fn with_data(m: MessageSpec, c: Seq<u8>) -> MessageSpec {
    MessageSpec { msg: c, ..m }
}

/// Masking twice with the same keys gives the data back.
pub proof fn lemma_mask_twice(keys: Seq<u8>, data: Seq<u8>, s: Seq<u8>, d: u64)
    ensures
        spec_masked(keys, spec_masked(keys, data, s, d), s, d) == data,
{
    let stream = crate::ops::spec_kmac_xof(
        keys.subrange(0, 64),
        crate::ops::no_bytes(),
        (8 * data.len()) as u64,
        s,
        d,
    );
    assert(xor_seq(data, stream).len() == data.len());
    lemma_xor_twice(data, stream);
}

/// Masking with the same keys gives different results for different data of
/// one length.
pub proof fn lemma_mask_injective(keys: Seq<u8>, a: Seq<u8>, b: Seq<u8>, s: Seq<u8>, d: u64)
    requires
        a.len() == b.len(),
        a != b,
    ensures
        spec_masked(keys, a, s, d) != spec_masked(keys, b, s, d),
{
    if spec_masked(keys, a, s, d) == spec_masked(keys, b, s, d) {
        lemma_mask_twice(keys, a, s, d);
        lemma_mask_twice(keys, b, s, d);
    }
}

/// Decryption with the passphrase of the encryption gives the message back
/// and reports success, whatever the message, the passphrase and the nonce
/// are.
pub proof fn lemma_pw_round_trip(m: MessageSpec, pw: Seq<u8>, z: Seq<u8>, d: u64)
    requires
        valid_cshake_strength(d),
    ensures
        spec_pw_decrypt(spec_pw_encrypt(m, pw, z, d), pw, d).msg == m.msg,
        spec_pw_decrypt(spec_pw_encrypt(m, pw, z, d), pw, d).op_result == Some(true),
        spec_pw_encrypt(m, pw, z, d).msg.len() == m.msg.len(),
{
    let keys = spec_key_material(z + pw, "S".spec_bytes(), d);
    lemma_mask_twice(keys, m.msg, "SKE".spec_bytes(), d);
}

/// A cryptogram whose tag was changed in any way, by one bit or by more,
/// fails to decrypt.
pub proof fn lemma_pw_changed_tag_fails(
    m: MessageSpec,
    pw: Seq<u8>,
    z: Seq<u8>,
    d: u64,
    t: Seq<u8>,
)
    requires
        valid_cshake_strength(d),
        Some(t) != spec_pw_encrypt(m, pw, z, d).digest,
    ensures
        spec_pw_decrypt(with_digest(spec_pw_encrypt(m, pw, z, d), t), pw, d).op_result == Some(
            false,
        ),
{
    let keys = spec_key_material(z + pw, "S".spec_bytes(), d);
    lemma_mask_twice(keys, m.msg, "SKE".spec_bytes(), d);
}

/// A cryptogram whose ciphertext was changed in any way, its length kept,
/// never decrypts to the message, and it fails to decrypt unless the changed
/// plaintext happens to have the tag of the message.
pub proof fn lemma_pw_changed_data_fails(
    m: MessageSpec,
    pw: Seq<u8>,
    z: Seq<u8>,
    d: u64,
    c: Seq<u8>,
)
    requires
        valid_cshake_strength(d),
        c.len() == m.msg.len(),
        c != spec_pw_encrypt(m, pw, z, d).msg,
        spec_tag(
            spec_key_material(z + pw, "S".spec_bytes(), d),
            spec_masked(spec_key_material(z + pw, "S".spec_bytes(), d), c, "SKE".spec_bytes(), d),
            "SKA".spec_bytes(),
            d,
        ) != spec_tag(spec_key_material(z + pw, "S".spec_bytes(), d), m.msg, "SKA".spec_bytes(), d),
    ensures
        spec_pw_decrypt(with_data(spec_pw_encrypt(m, pw, z, d), c), pw, d).msg != m.msg,
        spec_pw_decrypt(with_data(spec_pw_encrypt(m, pw, z, d), c), pw, d).op_result == Some(
            false,
        ),
{
    let keys = spec_key_material(z + pw, "S".spec_bytes(), d);
    let sealed = spec_masked(keys, m.msg, "SKE".spec_bytes(), d);
    lemma_mask_twice(keys, m.msg, "SKE".spec_bytes(), d);
    lemma_mask_injective(keys, c, sealed, "SKE".spec_bytes(), d);
}

/// Where the point that the recipient computes from the nonce has the same
/// x-coordinate as the point that the sender computed from the public key,
/// decryption with the passphrase of the key pair gives the message back and
/// reports success.
pub proof fn lemma_key_round_trip_on_agreement(
    m: MessageSpec,
    pw: Seq<u8>,
    curve: EdCurves,
    k: Seq<u8>,
    d: u64,
)
    requires
        valid_cshake_strength(d),
        spec_scalar_mul(
            spec_private_scalar(pw, curve, d),
            spec_scalar_mul(spec_ephemeral_scalar(k, curve), spec_generator(curve, false)),
        ).x == spec_scalar_mul(spec_ephemeral_scalar(k, curve), spec_public_key(pw, curve, d)).x,
    ensures
        spec_key_decrypt(spec_key_encrypt(m, spec_public_key(pw, curve, d), k, d), pw, d).msg
            == m.msg,
        spec_key_decrypt(
            spec_key_encrypt(m, spec_public_key(pw, curve, d), k, d),
            pw,
            d,
        ).op_result == Some(true),
{
    let v = spec_public_key(pw, curve, d);
    crate::curves::lemma_scalar_mul_curve(
        spec_private_scalar(pw, curve, d),
        spec_generator(curve, false),
    );
    crate::curves::lemma_scalar_mul_curve(
        spec_ephemeral_scalar(k, curve),
        spec_generator(curve, false),
    );
    assert(v.curve == curve);
    let w = spec_scalar_mul(spec_ephemeral_scalar(k, curve), v);
    let keys = crate::ops::spec_shared_keys(w, d);
    lemma_mask_twice(keys, m.msg, "PKE".spec_bytes(), d);
}

/// Where the commitment that the verifier rebuilds from a signature has the
/// same x-coordinate as the commitment of the signer, the signature verifies
/// for the message that was signed.
pub proof fn lemma_signature_verifies_on_agreement(
    data: Seq<u8>,
    pw: Seq<u8>,
    curve: EdCurves,
    d: u64,
)
    requires
        valid_cshake_strength(d),
        spec_rebuilt_commitment(
            spec_signature(data, pw, curve, d),
            spec_public_key(pw, curve, d),
        ).x == spec_scalar_mul(spec_sign_nonce(data, pw, d), spec_generator(curve, false)).x,
    ensures
        spec_signature_valid(
            data,
            spec_signature(data, pw, curve, d),
            spec_public_key(pw, curve, d),
            d,
        ),
{
}

/// Where the verifier rebuilds the commitment of the signer, as far as the
/// x-coordinate goes, the signature of a message fails to verify for every
/// other message, unless the other message has the same challenge under that
/// commitment.
pub proof fn lemma_signature_fails_for_another_message(
    data: Seq<u8>,
    other: Seq<u8>,
    pw: Seq<u8>,
    curve: EdCurves,
    d: u64,
)
    requires
        valid_cshake_strength(d),
        other != data,
        spec_rebuilt_commitment(
            spec_signature(data, pw, curve, d),
            spec_public_key(pw, curve, d),
        ).x == spec_scalar_mul(spec_sign_nonce(data, pw, d), spec_generator(curve, false)).x,
        spec_challenge(
            spec_scalar_mul(spec_sign_nonce(data, pw, d), spec_generator(curve, false)),
            other,
            d,
        ) != spec_challenge(
            spec_scalar_mul(spec_sign_nonce(data, pw, d), spec_generator(curve, false)),
            data,
            d,
        ),
    ensures
        !spec_signature_valid(
            other,
            spec_signature(data, pw, curve, d),
            spec_public_key(pw, curve, d),
            d,
        ),
{
}

/// The public key is a function of the passphrase, the curve and the
/// parameter: equal inputs give equal keys.
pub proof fn lemma_public_key_deterministic(
    pw1: Seq<u8>,
    pw2: Seq<u8>,
    curve: EdCurves,
    d: u64,
)
    requires
        pw1 == pw2,
    ensures
        spec_public_key(pw1, curve, d) == spec_public_key(pw2, curve, d),
{
}

} // verus!
