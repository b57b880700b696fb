use capycrypt::bignum::BigNat;
use capycrypt::curves::{curve_p, EdCurvePoint, EdCurves};
use capycrypt::sha3::aux_functions::byte_utils::wipe;
use capycrypt::wire::{
    coordinate_width, decode_key_cryptogram, decode_point, decode_signature,
    decode_sym_cryptogram, encode_key_cryptogram, encode_point, encode_signature,
    encode_sym_cryptogram, scalar_width,
};
use capycrypt::{KeyPair, Message, Signature};

#[test]
fn numbers_in_a_fixed_width() {
    assert_eq!(BigNat::from_u64(1).to_bytes_be_fixed(4), Some(vec![0, 0, 0, 1]));
    assert_eq!(BigNat::from_u64(0x0102).to_bytes_be_fixed(2), Some(vec![1, 2]));
    assert_eq!(BigNat::from_u64(0x0102).to_bytes_be_fixed(3), Some(vec![0, 1, 2]));
    assert_eq!(BigNat::from_u64(0x0102).to_bytes_be_fixed(1), None);
    assert_eq!(BigNat::from_u64(255).to_bytes_be_fixed(1), Some(vec![255]));
    assert_eq!(BigNat::from_u64(256).to_bytes_be_fixed(1), None);
    assert_eq!(BigNat::from_u64(0).to_bytes_be_fixed(0), Some(vec![]));
    assert_eq!(BigNat::from_u64(0).to_bytes_be_fixed(3), Some(vec![0, 0, 0]));
    assert_eq!(BigNat::from_u64(1).to_bytes_be_fixed(0), None);
    assert_eq!(
        BigNat::from_bytes_be(&[0, 0, 0, 0, 0, 9, 8, 7, 6, 5]).to_bytes_be_fixed(6),
        Some(vec![0, 9, 8, 7, 6, 5])
    );
}

#[test]
fn widths_of_the_curves() {
    assert_eq!(coordinate_width(EdCurves::E448), 56);
    assert_eq!(coordinate_width(EdCurves::E521), 66);
    assert_eq!(scalar_width(EdCurves::E448), 56);
    assert_eq!(scalar_width(EdCurves::E521), 65);
    // The prime fills its width and no less.
    for curve in [EdCurves::E448, EdCurves::E521] {
        let w = coordinate_width(curve);
        assert!(curve_p(curve).to_bytes_be_fixed(w).is_some());
        assert!(curve_p(curve).to_bytes_be_fixed(w - 1).is_none());
        assert_eq!(curve_p(curve).to_bytes_be().len(), w);
    }
}

#[test]
fn generator_on_the_wire() {
    let g = EdCurvePoint::generator(EdCurves::E521, false);
    let bytes = encode_point(&g).unwrap();
    assert_eq!(bytes.len(), 132);
    assert!(bytes[..65].iter().all(|b| *b == 0));
    assert_eq!(bytes[65], 4);
    assert_eq!(&bytes[66..], &g.y.to_bytes_be_fixed(66).unwrap()[..]);
    let back = decode_point(&bytes, EdCurves::E521).unwrap();
    assert!(back.same_point(&g));
    assert_eq!(back.curve, EdCurves::E521);

    let g = EdCurvePoint::generator(EdCurves::E448, true);
    let bytes = encode_point(&g).unwrap();
    assert_eq!(bytes.len(), 112);
    assert!(bytes[..55].iter().all(|b| *b == 0));
    assert_eq!(bytes[55], 8);
    let back = decode_point(&bytes, EdCurves::E448).unwrap();
    assert!(back.same_point(&g));
}

#[test]
fn points_that_do_not_fit_are_refused() {
    let mut wide = vec![1u8];
    wide.extend_from_slice(&[0u8; 56]);
    let p = EdCurvePoint {
        x: BigNat::from_bytes_be(&wide),
        y: BigNat::from_u64(1),
        curve: EdCurves::E448,
    };
    assert!(encode_point(&p).is_none());
    let p = EdCurvePoint {
        x: BigNat::from_u64(1),
        y: BigNat::from_bytes_be(&wide),
        curve: EdCurves::E448,
    };
    assert!(encode_point(&p).is_none());
    // The same numbers fit the wider curve.
    let p = EdCurvePoint {
        x: BigNat::from_u64(1),
        y: BigNat::from_bytes_be(&wide),
        curve: EdCurves::E521,
    };
    assert_eq!(encode_point(&p).unwrap().len(), 132);
    assert!(decode_point(&[0u8; 111], EdCurves::E448).is_none());
    assert!(decode_point(&[0u8; 113], EdCurves::E448).is_none());
    assert!(decode_point(&[0u8; 112], EdCurves::E521).is_none());
    assert!(decode_point(&[], EdCurves::E521).is_none());
}

#[test]
fn signature_on_the_wire_known_bytes() {
    let sig = Signature { h: vec![0xaa; 64], z: BigNat::from_u64(0x0102) };
    let bytes = encode_signature(&sig, EdCurves::E521).unwrap();
    assert_eq!(bytes.len(), 64 + 65);
    assert!(bytes[..64].iter().all(|b| *b == 0xaa));
    assert!(bytes[64..127].iter().all(|b| *b == 0));
    assert_eq!(&bytes[127..], &[1, 2]);
    let bytes = encode_signature(&sig, EdCurves::E448).unwrap();
    assert_eq!(bytes.len(), 64 + 56);
    assert_eq!(&bytes[118..], &[1, 2]);
    let back = decode_signature(&bytes, EdCurves::E448).unwrap();
    assert_eq!(back.h, sig.h);
    assert!(back.z.same_value(&sig.z));

    let short = Signature { h: vec![0xaa; 63], z: BigNat::from_u64(1) };
    assert!(encode_signature(&short, EdCurves::E521).is_none());
    let mut wide = vec![1u8];
    wide.extend_from_slice(&[0u8; 65]);
    let big = Signature { h: vec![0xaa; 64], z: BigNat::from_bytes_be(&wide) };
    assert!(encode_signature(&big, EdCurves::E521).is_none());
    assert!(decode_signature(&[0u8; 128], EdCurves::E521).is_none());
    assert!(decode_signature(&[0u8; 130], EdCurves::E521).is_none());
    assert!(decode_signature(&[0u8; 129], EdCurves::E448).is_none());
}

#[test]
fn signature_survives_the_wire() {
    for curve in [EdCurves::E448, EdCurves::E521] {
        let kp = KeyPair::new(&b"abc".to_vec(), "a".to_string(), curve, 512).unwrap();
        let mut msg = Message::new(b"hello".to_vec());
        msg.sign(&kp, 512).unwrap();
        let bytes = encode_signature(&msg.sig.clone().unwrap(), curve).unwrap();
        assert_eq!(bytes.len(), 64 + scalar_width(curve));
        let mut received = Message::new(b"hello".to_vec());
        received.sig = decode_signature(&bytes, curve);
        assert_eq!(received.verify(&kp.pub_key, 512), Ok(true));
        let mut flipped = bytes.clone();
        flipped[70] ^= 1;
        let mut received = Message::new(b"hello".to_vec());
        received.sig = decode_signature(&flipped, curve);
        assert_eq!(received.verify(&kp.pub_key, 512), Ok(false));
    }
}

#[test]
fn symmetric_cryptogram_on_the_wire() {
    let z: Vec<u8> = (0..64u8).collect();
    let pw = b"password".to_vec();
    let mut msg = Message::new(b"attack at dawn".to_vec());
    assert!(encode_sym_cryptogram(&msg).is_none());
    msg.pw_encrypt_with_nonce(&pw, z.clone(), 512).unwrap();
    let bytes = encode_sym_cryptogram(&msg).unwrap();
    assert_eq!(bytes.len(), 64 + 14 + 64);
    assert_eq!(&bytes[..64], &z[..]);
    assert_eq!(&bytes[64..78], &msg.msg[..]);
    assert_eq!(&bytes[78..], &msg.digest.clone().unwrap()[..]);
    let mut received = decode_sym_cryptogram(&bytes).unwrap();
    assert!(received.asym_nonce.is_none());
    assert!(received.op_result.is_none());
    assert!(received.sig.is_none());
    assert_eq!(received.pw_decrypt(&pw, 512), Ok(true));
    assert_eq!(received.msg, b"attack at dawn".to_vec());

    assert!(decode_sym_cryptogram(&[0u8; 127]).is_none());
    let empty = decode_sym_cryptogram(&[7u8; 128]).unwrap();
    assert_eq!(empty.msg.len(), 0);
    assert_eq!(empty.sym_nonce, Some(vec![7u8; 64]));
    assert_eq!(empty.digest, Some(vec![7u8; 64]));

    let mut odd = Message::new(vec![1, 2, 3]);
    odd.sym_nonce = Some(vec![0; 63]);
    odd.digest = Some(vec![0; 64]);
    assert!(encode_sym_cryptogram(&odd).is_none());
    odd.sym_nonce = Some(vec![0; 64]);
    odd.digest = Some(vec![0; 65]);
    assert!(encode_sym_cryptogram(&odd).is_none());
    odd.digest = None;
    assert!(encode_sym_cryptogram(&odd).is_none());
}

#[test]
fn public_key_cryptogram_on_the_wire() {
    let k: Vec<u8> = (0..64u8).collect();
    for curve in [EdCurves::E448, EdCurves::E521] {
        let kp = KeyPair::new(&b"abc".to_vec(), "a".to_string(), curve, 512).unwrap();
        let mut msg = Message::new(b"attack at dawn".to_vec());
        assert!(encode_key_cryptogram(&msg).is_none());
        msg.key_encrypt_with_nonce(&kp.pub_key, &k, 512).unwrap();
        let bytes = encode_key_cryptogram(&msg).unwrap();
        let w = coordinate_width(curve);
        assert_eq!(bytes.len(), 2 * w + 14 + 64);
        let z = msg.asym_nonce.clone().unwrap();
        assert_eq!(&bytes[..w], &z.x.to_bytes_be_fixed(w).unwrap()[..]);
        assert_eq!(&bytes[w..2 * w], &z.y.to_bytes_be_fixed(w).unwrap()[..]);
        assert_eq!(&bytes[2 * w..2 * w + 14], &msg.msg[..]);
        let mut received = decode_key_cryptogram(&bytes, curve).unwrap();
        assert!(received.sym_nonce.is_none());
        assert!(received.asym_nonce.clone().unwrap().same_point(&z));
        assert_eq!(received.key_decrypt(&b"abc".to_vec(), 512), Ok(true));
        assert_eq!(received.msg, b"attack at dawn".to_vec());
        assert!(decode_key_cryptogram(&bytes[..2 * w + 63], curve).is_none());
    }
}

#[test]
fn erasure_leaves_zeros() {
    let mut v = vec![1u8, 2, 3];
    wipe(&mut v);
    assert_eq!(v, vec![0, 0, 0]);
    let mut empty: Vec<u8> = Vec::new();
    wipe(&mut empty);
    assert!(empty.is_empty());
    let mut n = BigNat::from_bytes_be(&[9, 8, 7, 6, 5, 4, 3, 2, 1]);
    let digits = n.digits.len();
    n.wipe();
    assert!(n.is_zero());
    assert_eq!(n.digits, vec![0u32; digits]);
    let mut g = EdCurvePoint::generator(EdCurves::E521, false);
    g.wipe();
    assert!(g.x.is_zero());
    assert!(g.y.is_zero());
    assert_eq!(g.curve, EdCurves::E521);
}
