//! Hashing, encryption with a passphrase and encryption to a public key of
//! E-521, on buffers and cryptograms instead of messages. Everything here
//! runs at the security parameter 512.

use crate::bignum::{big_add, big_mul, big_to_decimal, decimal_string, BigNat};
use crate::curves::{spec_on_curve, EdCurvePoint, EdCurves, PointSpec};
use crate::error::CryptoError;
use crate::ops::{
    copy_bytes, spec_cshake, spec_key_decrypt, spec_key_encrypt, spec_kmac_xof,
    spec_private_scalar, spec_public_key, spec_pw_decrypt, spec_pw_encrypt, spec_shake,
    cshake_accepts,
};
use crate::sha3::aux_functions::byte_utils::get_date_and_time_as_string;
use crate::{Message, MessageSpec};
use vstd::prelude::*;
use vstd::string::StringSliceAdditionalSpecFns;

verus! {

/// What symmetric encryption gives: the nonce, the ciphertext and the tag.
#[derive(Debug)]
pub struct SymmetricCryptogram {
    pub z: Vec<u8>,
    pub c: Vec<u8>,
    pub t: Vec<u8>,
}

/// What encryption to a public key gives: the nonce point, the ciphertext
/// and the tag.
#[derive(Debug)]
pub struct ECCryptogram {
    pub z_x: BigNat,
    pub z_y: BigNat,
    pub c: Vec<u8>,
    pub t: Vec<u8>,
}

/// A key pair for storage: the numbers are written in decimal digits.
#[derive(Debug)]
pub struct KeyObj {
    pub owner: String,
    pub priv_key: String,
    pub pub_key_x: String,
    pub pub_key_y: String,
    pub date_created: String,
}

/// A point of E-521.
#[derive(Debug)]
pub struct E521 {
    pub x: BigNat,
    pub y: BigNat,
}

impl View for E521 {
    type V = PointSpec;

    open spec fn view(&self) -> PointSpec {
        PointSpec { x: self.x@, y: self.y@, curve: EdCurves::E521 }
    }
}

/// A message that holds data and nothing else.
pub open spec fn plain_message(data: Seq<u8>) -> MessageSpec {
    MessageSpec {
        msg: data,
        sym_nonce: None,
        asym_nonce: None,
        digest: None,
        op_result: None,
        sig: None,
    }
}

/// A message that holds a symmetric cryptogram.
pub open spec fn sym_message(z: Seq<u8>, c: Seq<u8>, t: Seq<u8>) -> MessageSpec {
    MessageSpec { msg: c, sym_nonce: Some(z), digest: Some(t), ..plain_message(c) }
}

/// A message that holds a public-key cryptogram.
pub open spec fn ec_message(z: PointSpec, c: Seq<u8>, t: Seq<u8>) -> MessageSpec {
    MessageSpec { msg: c, asym_nonce: Some(z), digest: Some(t), ..plain_message(c) }
}

/// The message with an outcome set.
pub open spec fn with_result(m: MessageSpec, b: bool) -> MessageSpec {
    MessageSpec { op_result: Some(b), ..m }
}

/// The point of E-521 with the given coordinates.
pub open spec fn e521_point(x: nat, y: nat) -> PointSpec {
    PointSpec { x, y, curve: EdCurves::E521 }
}

/// What a row of decimal digits denotes, or `None` where the row is empty or
/// holds anything but the digits `0` to `9`.
pub open spec fn spec_parse_decimal(s: Seq<u8>) -> Option<nat>
    decreases s.len(),
{
    if s.len() == 0 {
        None
    } else if !(48 <= s.last() <= 57) {
        None
    } else if s.len() == 1 {
        Some((s.last() - 48) as nat)
    } else {
        match spec_parse_decimal(s.drop_last()) {
            Some(v) => Some(v * 10 + (s.last() - 48) as nat),
            None => None,
        }
    }
}

/// cSHAKE at the security parameter 512.
pub fn cshake(x: &Vec<u8>, l: u64, n: &str, s: &str) -> (r: Result<Vec<u8>, CryptoError>)
    requires
        n.spec_bytes().len() * 8 <= u64::MAX,
        s.spec_bytes().len() * 8 <= u64::MAX,
        l / 8 <= usize::MAX,
    ensures
        match r {
            Ok(v) => cshake_accepts(l, n.spec_bytes(), s.spec_bytes(), 512) && v@ == spec_cshake(
                x@,
                l,
                n.spec_bytes(),
                s.spec_bytes(),
                512,
            ),
            Err(e) => !cshake_accepts(l, n.spec_bytes(), s.spec_bytes(), 512) && e
                == CryptoError::InvalidSecurityParameter,
        },
{
    crate::ops::cshake(x, l, n, s, 512)
}

/// KMAC-XOF at the security parameter 512.
pub fn kmac_xof_256(k: &Vec<u8>, x: &Vec<u8>, l: u64, s: &str) -> (r: Vec<u8>)
    requires
        k@.len() * 8 <= u64::MAX,
        s.spec_bytes().len() * 8 <= u64::MAX,
        l / 8 <= usize::MAX,
    ensures
        r@ == spec_kmac_xof(k@, x@, l, s.spec_bytes(), 512),
        r@.len() == l / 8,
{
    match crate::ops::kmac_xof(k, x, l, s, 512) {
        Ok(v) => v,
        Err(_) => Vec::new(),
    }
}

/// The hash of `data` at strength 512: 64 bytes.
pub fn compute_sha3_hash(data: &Vec<u8>) -> (r: Vec<u8>)
    ensures
        r@ == spec_shake(data@, 512),
{
    match crate::ops::shake(data, 512) {
        Ok(v) => v,
        Err(_) => Vec::new(),
    }
}

/// The tag of `message` under the key `pw` with the label `s`: 64 bytes of
/// KMAC-XOF.
pub fn compute_tagged_hash(pw: &Vec<u8>, message: &Vec<u8>, s: &str) -> (r: Vec<u8>)
    requires
        pw@.len() * 8 <= u64::MAX,
        s.spec_bytes().len() * 8 <= u64::MAX,
    ensures
        r@ == spec_kmac_xof(pw@, message@, 512, s.spec_bytes(), 512),
        r@.len() == 64,
{
    kmac_xof_256(pw, message, 512, s)
}

/// Encrypts `msg` under the passphrase `pw` with the nonce `z`.
pub fn encrypt_with_pw_and_nonce(pw: &Vec<u8>, msg: &Vec<u8>, z: Vec<u8>) -> (r:
    SymmetricCryptogram)
    requires
        (z@.len() + pw@.len()) * 8 <= u64::MAX,
        msg@.len() * 8 <= u64::MAX,
    ensures
        sym_message(r.z@, r.c@, r.t@) == spec_pw_encrypt(plain_message(msg@), pw@, z@, 512),
{
    let mut m = Message::new(copy_bytes(msg.as_slice()));
    let _ = m.pw_encrypt_with_nonce(pw, z, 512);
    let Message { msg: c, sym_nonce, digest, asym_nonce: _, op_result: _, sig: _ } = m;
    let z = match sym_nonce {
        Some(z) => z,
        None => Vec::new(),
    };
    let t = match digest {
        Some(t) => t,
        None => Vec::new(),
    };
    SymmetricCryptogram { z, c, t }
}

/// Encrypts `msg` under the passphrase `pw` with a fresh random nonce of 64
/// bytes.
pub fn encrypt_with_pw(pw: &Vec<u8>, msg: &Vec<u8>) -> (r: SymmetricCryptogram)
    requires
        (64 + pw@.len()) * 8 <= u64::MAX,
        msg@.len() * 8 <= u64::MAX,
    ensures
        r.z@.len() == 64,
        sym_message(r.z@, r.c@, r.t@) == spec_pw_encrypt(plain_message(msg@), pw@, r.z@, 512),
{
    let z = crate::sha3::aux_functions::byte_utils::get_random_bytes(64);
    encrypt_with_pw_and_nonce(pw, msg, z)
}

/// Decrypts the cryptogram in place under the passphrase `pw`: `c` becomes
/// the plaintext, and the result says whether its tag is `t`. The nonce and
/// the tag stay as they are.
pub fn decrypt_with_pw(pw: &Vec<u8>, msg: &mut SymmetricCryptogram) -> (r: bool)
    requires
        (old(msg).z@.len() + pw@.len()) * 8 <= u64::MAX,
        old(msg).c@.len() * 8 <= u64::MAX,
    ensures
        final(msg).z@ == old(msg).z@,
        final(msg).t@ == old(msg).t@,
        with_result(sym_message(final(msg).z@, final(msg).c@, final(msg).t@), r) == spec_pw_decrypt(
            sym_message(old(msg).z@, old(msg).c@, old(msg).t@),
            pw@,
            512,
        ),
{
    let mut m = Message {
        msg: copy_bytes(msg.c.as_slice()),
        sym_nonce: Some(copy_bytes(msg.z.as_slice())),
        asym_nonce: None,
        digest: Some(copy_bytes(msg.t.as_slice())),
        op_result: None,
        sig: None,
    };
    let ok = match m.pw_decrypt(pw, 512) {
        Ok(b) => b,
        Err(_) => false,
    };
    msg.c = m.msg;
    ok
}

/// The number that a row of decimal digits denotes.
pub fn parse_decimal(s: &str) -> (r: Option<BigNat>)
    ensures
        match r {
            Some(v) => spec_parse_decimal(s.spec_bytes()) == Some(v@),
            None => spec_parse_decimal(s.spec_bytes()) is None,
        },
{
    let bytes = s.as_bytes();
    let n = bytes.len();
    if n == 0 {
        return None;
    }
    let ten = BigNat::from_u64(10);
    let mut acc = BigNat::from_u64(0);
    let mut i: usize = 0;
    while i < n
        invariant
            i <= n,
            n == bytes@.len(),
            bytes@ == s.spec_bytes(),
            ten@ == 10,
            i == 0 ==> acc@ == 0,
            i > 0 ==> spec_parse_decimal(bytes@.subrange(0, i as int)) == Some(acc@),
        decreases n - i,
    {
        let b = bytes[i];
        proof {
            assert(bytes@.subrange(0, i + 1).drop_last() =~= bytes@.subrange(0, i as int));
            assert(bytes@.subrange(0, i + 1).last() == b);
        }
        if b < 48 || b > 57 {
            proof {
                lemma_parse_prefix_fails(bytes@, i + 1);
            }
            return None;
        }
        let digit = BigNat::from_u64((b - 48) as u64);
        acc = big_add(&big_mul(&acc, &ten), &digit);
        i += 1;
    }
    assert(bytes@.subrange(0, n as int) =~= bytes@);
    Some(acc)
}

/// Where a prefix of a row is no number, the row is none either.
pub proof fn lemma_parse_prefix_fails(s: Seq<u8>, k: int)
    requires
        0 < k <= s.len(),
        spec_parse_decimal(s.subrange(0, k)) is None,
    ensures
        spec_parse_decimal(s) is None,
    decreases s.len() - k,
{
    if k < s.len() {
        assert(s.subrange(0, k + 1).drop_last() =~= s.subrange(0, k));
        lemma_parse_prefix_fails(s, k + 1);
    } else {
        assert(s.subrange(0, k) =~= s);
    }
}

/// The point of E-521 with the coordinates that two rows of decimal digits
/// denote, or `None` where one of them is no number.
pub fn get_e521_point(x: &str, y: &str) -> (r: Option<E521>)
    ensures
        match r {
            Some(p) => spec_parse_decimal(x.spec_bytes()) == Some(p.x@) && spec_parse_decimal(
                y.spec_bytes(),
            ) == Some(p.y@),
            None => spec_parse_decimal(x.spec_bytes()) is None || spec_parse_decimal(
                y.spec_bytes(),
            ) is None,
        },
{
    match parse_decimal(x) {
        Some(px) => match parse_decimal(y) {
            Some(py) => Some(E521 { x: px, y: py }),
            None => None,
        },
        None => None,
    }
}

/// Fills `key` with the key pair of the password on E-521 and the given
/// date: the private scalar and the coordinates of the public key in decimal
/// digits.
pub fn fill_keypair(key: &mut KeyObj, password: &Vec<u8>, owner: String, date_created: String)
    requires
        password@.len() * 8 <= u64::MAX,
    ensures
        final(key).owner == owner,
        final(key).date_created == date_created,
        final(key).priv_key@ == decimal_string(
            spec_private_scalar(password@, EdCurves::E521, 512),
        ),
        final(key).pub_key_x@ == decimal_string(
            spec_public_key(password@, EdCurves::E521, 512).x,
        ),
        final(key).pub_key_y@ == decimal_string(
            spec_public_key(password@, EdCurves::E521, 512).y,
        ),
{
    let s = crate::ops::private_scalar(password, EdCurves::E521, 512);
    let v = EdCurvePoint::generator(EdCurves::E521, false).scalar_mul(&s);
    key.owner = owner;
    key.priv_key = big_to_decimal(&s);
    key.pub_key_x = big_to_decimal(&v.x);
    key.pub_key_y = big_to_decimal(&v.y);
    key.date_created = date_created;
}

/// Fills `key` with the key pair of the password on E-521, stamped with the
/// current date and time.
pub fn gen_keypair(key: &mut KeyObj, password: String, owner: String)
    requires
        vstd::utf8::encode_utf8(password@).len() * 8 <= u64::MAX,
    ensures
        final(key).owner == owner,
        final(key).priv_key@ == decimal_string(
            spec_private_scalar(vstd::utf8::encode_utf8(password@), EdCurves::E521, 512),
        ),
        final(key).pub_key_x@ == decimal_string(
            spec_public_key(vstd::utf8::encode_utf8(password@), EdCurves::E521, 512).x,
        ),
        final(key).pub_key_y@ == decimal_string(
            spec_public_key(vstd::utf8::encode_utf8(password@), EdCurves::E521, 512).y,
        ),
{
    let pw_bytes = copy_bytes(password.as_str().as_bytes());
    let date = get_date_and_time_as_string();
    fill_keypair(key, &pw_bytes, owner, date);
}

/// Encrypts `message` to the public key with the ephemeral scalar taken
/// from the bytes `k`. A key that is not on the curve is refused.
pub fn encrypt_with_key_and_nonce(pub_key: &E521, message: &Vec<u8>, k: &Vec<u8>) -> (r: Result<
    ECCryptogram,
    CryptoError,
>)
    requires
        message@.len() * 8 <= u64::MAX,
    ensures
        match r {
            Ok(cg) => spec_on_curve(pub_key@) && ec_message(
                e521_point(cg.z_x@, cg.z_y@),
                cg.c@,
                cg.t@,
            ) == spec_key_encrypt(plain_message(message@), pub_key@, k@, 512),
            Err(e) => !spec_on_curve(pub_key@) && e == CryptoError::PointOffCurve,
        },
{
    let point = EdCurvePoint { x: pub_key.x.clone(), y: pub_key.y.clone(), curve: EdCurves::E521 };
    let mut m = Message::new(copy_bytes(message.as_slice()));
    match m.key_encrypt_with_nonce(&point, k, 512) {
        Ok(_) => {
            proof {
                crate::curves::lemma_scalar_mul_curve(
                    crate::ops::spec_ephemeral_scalar(k@, EdCurves::E521),
                    crate::curves::spec_generator(EdCurves::E521, false),
                );
            }
            Ok(into_cryptogram(m))
        },
        Err(e) => Err(e),
    }
}

/// The nonce point, the data and the tag of a message, as a cryptogram.
fn into_cryptogram(m: Message) -> (r: ECCryptogram)
    requires
        m.asym_nonce is Some,
        m.digest is Some,
    ensures
        r.z_x@ == m@.asym_nonce->0.x,
        r.z_y@ == m@.asym_nonce->0.y,
        r.c@ == m@.msg,
        r.t@ == m@.digest->0,
{
    let Message { msg: c, sym_nonce: _, digest, asym_nonce, op_result: _, sig: _ } = m;
    let t = match digest {
        Some(t) => t,
        None => Vec::new(),
    };
    match asym_nonce {
        Some(z) => {
            let EdCurvePoint { x: z_x, y: z_y, curve: _ } = z;
            ECCryptogram { z_x, z_y, c, t }
        },
        None => ECCryptogram { z_x: BigNat::from_u64(0), z_y: BigNat::from_u64(0), c, t },
    }
}

/// Encrypts `message` to the public key with a fresh random scalar.
pub fn encrypt_with_key(pub_key: &E521, message: &Vec<u8>) -> (r: Result<ECCryptogram, CryptoError>)
    requires
        message@.len() * 8 <= u64::MAX,
    ensures
        match r {
            Ok(cg) => spec_on_curve(pub_key@) && exists|k: Seq<u8>|
                k.len() == 64 && ec_message(e521_point(cg.z_x@, cg.z_y@), cg.c@, cg.t@)
                    == #[trigger] spec_key_encrypt(plain_message(message@), pub_key@, k, 512),
            Err(e) => !spec_on_curve(pub_key@) && e == CryptoError::PointOffCurve,
        },
{
    let k = crate::sha3::aux_functions::byte_utils::get_random_bytes(64);
    encrypt_with_key_and_nonce(pub_key, message, &k)
}

/// Decrypts the cryptogram in place with the passphrase `pw`: `c` becomes
/// the plaintext, and the result says whether its tag is `t`. A nonce point
/// that is not on the curve is refused, and the cryptogram stays as it was.
pub fn decrypt_with_key(pw: &Vec<u8>, msg: &mut ECCryptogram) -> (r: Result<bool, CryptoError>)
    requires
        pw@.len() * 8 <= u64::MAX,
        old(msg).c@.len() * 8 <= u64::MAX,
    ensures
        final(msg).z_x@ == old(msg).z_x@,
        final(msg).z_y@ == old(msg).z_y@,
        final(msg).t@ == old(msg).t@,
        match r {
            Ok(b) => spec_on_curve(e521_point(old(msg).z_x@, old(msg).z_y@)) && with_result(
                ec_message(e521_point(old(msg).z_x@, old(msg).z_y@), final(msg).c@, old(msg).t@),
                b,
            ) == spec_key_decrypt(
                ec_message(e521_point(old(msg).z_x@, old(msg).z_y@), old(msg).c@, old(msg).t@),
                pw@,
                512,
            ),
            Err(e) => !spec_on_curve(e521_point(old(msg).z_x@, old(msg).z_y@)) && e
                == CryptoError::PointOffCurve && final(msg).c@ == old(msg).c@,
        },
{
    let mut m = Message {
        msg: copy_bytes(msg.c.as_slice()),
        sym_nonce: None,
        asym_nonce: Some(
            EdCurvePoint { x: msg.z_x.clone(), y: msg.z_y.clone(), curve: EdCurves::E521 },
        ),
        digest: Some(copy_bytes(msg.t.as_slice())),
        op_result: None,
        sig: None,
    };
    match m.key_decrypt(pw, 512) {
        Ok(b) => {
            msg.c = m.msg;
            Ok(b)
        },
        Err(e) => Err(e),
    }
}

} // verus!
