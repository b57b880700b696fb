//! Keccak-based hashing, authenticated encryption and Schnorr signatures over
//! Edwards curves.

use crate::bignum::BigNat;
use crate::curves::{EdCurvePoint, EdCurves, PointSpec};
use vstd::prelude::*;

pub mod bignum;
pub mod curves;
pub mod error;
pub mod model;
pub mod numeric;
pub mod ops;
pub mod round_trip;
pub mod sha3;
pub mod wire;

verus! {

/// A Schnorr signature: the hash `h` and the response `z`.
#[derive(Debug)]
pub struct Signature {
    pub h: Vec<u8>,
    pub z: BigNat,
}

/// A signature in spec code.
pub struct SignatureSpec {
    pub h: Seq<u8>,
    pub z: nat,
}

impl View for Signature {
    type V = SignatureSpec;

    open spec fn view(&self) -> SignatureSpec {
        SignatureSpec { h: self.h@, z: self.z@ }
    }
}

impl Clone for Signature {
    fn clone(&self) -> (r: Self)
        ensures
            r@ == self@,
    {
        let h = self.h.clone();
        assert(h@ =~= self.h@);
        Signature { h, z: self.z.clone() }
    }
}

/// A key pair that was derived from a passphrase. The private part is the
/// passphrase itself; the public part is a point of the curve.
#[derive(Debug)]
pub struct KeyPair {
    /// A label for the owner of the key.
    pub owner: String,
    /// The public key.
    pub pub_key: EdCurvePoint,
    /// The passphrase that the key pair was derived from.
    pub priv_key: Vec<u8>,
    /// When the key pair was made. It never enters a computation.
    pub date_created: String,
    /// The curve of the key pair.
    pub curve: EdCurves,
}

/// The data that the operations of this crate work on, and what they have
/// left behind: every operation changes the message in place.
#[derive(Debug)]
pub struct Message {
    /// The plaintext or the ciphertext.
    pub msg: Vec<u8>,
    /// The random prefix of a symmetric encryption.
    pub sym_nonce: Option<Vec<u8>>,
    /// The nonce point of a public-key encryption.
    pub asym_nonce: Option<EdCurvePoint>,
    /// A hash or an authentication tag.
    pub digest: Option<Vec<u8>>,
    /// The outcome of the last decryption or verification.
    pub op_result: Option<bool>,
    /// A signature of the data.
    pub sig: Option<Signature>,
}

/// A message in spec code.
pub struct MessageSpec {
    pub msg: Seq<u8>,
    pub sym_nonce: Option<Seq<u8>>,
    pub asym_nonce: Option<PointSpec>,
    pub digest: Option<Seq<u8>>,
    pub op_result: Option<bool>,
    pub sig: Option<SignatureSpec>,
}

impl View for Message {
    type V = MessageSpec;

    open spec fn view(&self) -> MessageSpec {
        MessageSpec {
            msg: self.msg@,
            sym_nonce: match self.sym_nonce {
                Some(z) => Some(z@),
                None => None,
            },
            asym_nonce: match self.asym_nonce {
                Some(z) => Some(z@),
                None => None,
            },
            digest: match self.digest {
                Some(t) => Some(t@),
                None => None,
            },
            op_result: self.op_result,
            sig: match self.sig {
                Some(s) => Some(s@),
                None => None,
            },
        }
    }
}

impl Message {
    /// A message that holds `data` and nothing else.
    pub fn new(data: Vec<u8>) -> (r: Message)
        ensures
            r@ == (MessageSpec {
                msg: data@,
                sym_nonce: None,
                asym_nonce: None,
                digest: None,
                op_result: None,
                sig: None,
            }),
    {
        Message {
            msg: data,
            sym_nonce: None,
            asym_nonce: None,
            digest: None,
            op_result: None,
            sig: None,
        }
    }
}

} // verus!
