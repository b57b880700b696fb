use capycrypt::bignum::BigNat;
use capycrypt::curves::{curve_d, curve_p, order, solve_for_y, EdCurvePoint, EdCurves};
use capycrypt::error::CryptoError;
use capycrypt::model::shake_functions::{
    compute_sha3_hash, compute_tagged_hash, decrypt_with_key, decrypt_with_pw,
    encrypt_with_key_and_nonce, encrypt_with_pw, encrypt_with_pw_and_nonce, fill_keypair,
    get_e521_point, kmac_xof_256, parse_decimal, E521, KeyObj,
};
use capycrypt::ops::{ct_eq, kmac_xof};
use capycrypt::sha3::aux_functions::byte_utils::{
    big_to_bytes, bytes_to_big_int, get_date_and_time_as_string, get_random_bytes, xor_bytes,
};
use capycrypt::{KeyPair, Message};

fn hex(bytes: &[u8]) -> String {
    let mut s = String::new();
    for b in bytes {
        s.push_str(&format!("{:02x}", b));
    }
    s
}

fn num_hex(n: &BigNat) -> String {
    let h = hex(&n.to_bytes_be());
    let t = h.trim_start_matches('0');
    if t.is_empty() {
        "0".to_string()
    } else {
        t.to_string()
    }
}

fn small(x: u64) -> BigNat {
    BigNat::from_u64(x)
}

const CURVES: [EdCurves; 2] = [EdCurves::E448, EdCurves::E521];

#[test]
fn big_numbers_from_and_to_bytes() {
    assert_eq!(bytes_to_big_int(&[0x01, 0x00]).to_bytes_be(), vec![0x01, 0x00]);
    assert_eq!(bytes_to_big_int(&[0x00, 0x00, 0x01, 0x02]).to_bytes_be(), vec![0x01, 0x02]);
    assert_eq!(bytes_to_big_int(&[]).to_bytes_be(), vec![0x00]);
    assert_eq!(bytes_to_big_int(&[0, 0, 0]).to_bytes_be(), vec![0x00]);
    assert_eq!(big_to_bytes(&small(0x0102030405060708)), vec![1, 2, 3, 4, 5, 6, 7, 8]);
    assert_eq!(big_to_bytes(&small(0)), vec![0]);
    assert_eq!(big_to_bytes(&small(255)), vec![255]);
    assert_eq!(big_to_bytes(&small(256)), vec![1, 0]);
    assert_eq!(
        num_hex(&BigNat::from_limbs(&[0x1, 0x0, 0xff])),
        "1000000000000000000000000000000ff"
    );
    assert!(small(0).is_zero());
    assert!(bytes_to_big_int(&[0, 0]).is_zero());
    assert!(!small(256).is_zero());
    assert!(small(7).is_odd());
    assert!(!small(256).is_odd());
    assert!(small(5).same_value(&bytes_to_big_int(&[0, 5])));
    assert!(!small(5).same_value(&small(6)));
}

#[test]
fn modular_arithmetic_on_small_numbers() {
    let m = small(383);
    assert_eq!(num_hex(&small(300).add_mod(&small(200), &m)), format!("{:x}", 117));
    assert_eq!(num_hex(&small(3).sub_mod(&small(5), &m)), format!("{:x}", 381));
    assert_eq!(num_hex(&small(5).sub_mod(&small(3), &m)), format!("{:x}", 2));
    assert_eq!(num_hex(&small(1000).sub_mod(&small(2000), &m)), format!("{:x}", 149));
    assert_eq!(num_hex(&small(100).mul_mod(&small(100), &m)), format!("{:x}", 10000 % 383));
    assert_eq!(num_hex(&small(271).mod_inverse(&m)), format!("{:x}", 106));
    assert_eq!(num_hex(&small(1).mod_inverse(&m)), "1");
    assert_eq!(num_hex(&small(0).mod_inverse(&m)), "0");
    assert_eq!(num_hex(&small(383).mod_inverse(&m)), "0");
    // 6 and 9 share a factor: no inverse.
    assert_eq!(num_hex(&small(6).mod_inverse(&small(9))), "0");
    assert_eq!(num_hex(&small(2).mod_inverse(&small(9))), "5");
}

#[test]
fn xor_bytes_known_values() {
    let mut a = vec![0x0f, 0xf0, 0xaa, 0x00];
    xor_bytes(&mut a, &vec![0xff, 0xff, 0xaa, 0x01]);
    assert_eq!(a, vec![0xf0, 0x0f, 0x00, 0x01]);
    xor_bytes(&mut a, &vec![0xff, 0xff, 0xaa, 0x01]);
    assert_eq!(a, vec![0x0f, 0xf0, 0xaa, 0x00]);
    let mut e: Vec<u8> = Vec::new();
    xor_bytes(&mut e, &Vec::new());
    assert!(e.is_empty());
}

#[test]
fn random_bytes_have_the_length_asked_for() {
    assert_eq!(get_random_bytes(0).len(), 0);
    assert_eq!(get_random_bytes(64).len(), 64);
    assert_ne!(get_random_bytes(64), get_random_bytes(64));
    assert_ne!(get_random_bytes(64), vec![0u8; 64]);
}

#[test]
fn date_string_has_the_expected_shape() {
    let s = get_date_and_time_as_string();
    let b = s.as_bytes();
    assert_eq!(b.len(), 19);
    assert_eq!(b[4], b'-');
    assert_eq!(b[7], b'-');
    assert_eq!(b[10], b' ');
    assert_eq!(b[13], b':');
    assert_eq!(b[16], b':');
}

#[test]
fn constant_time_equality() {
    assert!(ct_eq(&vec![1, 2, 3], &vec![1, 2, 3]));
    assert!(!ct_eq(&vec![1, 2, 3], &vec![1, 2, 4]));
    assert!(!ct_eq(&vec![0, 2, 3], &vec![1, 2, 3]));
    assert!(!ct_eq(&vec![1, 2, 3], &vec![1, 2]));
    assert!(ct_eq(&Vec::new(), &Vec::new()));
}

#[test]
fn curve_parameters() {
    assert_eq!(
        num_hex(&curve_p(EdCurves::E448)),
        "fffffffffffffffffffffffffffffffffffffffffffffffffffffffeffffffffffffffffffffffffffffffffffffffffffffffffffffffff"
    );
    assert_eq!(
        num_hex(&curve_d(EdCurves::E448)),
        "fffffffffffffffffffffffffffffffffffffffffffffffffffffffeffffffffffffffffffffffffffffffffffffffffffffffffffff6756"
    );
    assert_eq!(
        num_hex(&order(EdCurves::E448)),
        "3fffffffffffffffffffffffffffffffffffffffffffffffffffffff7cca23e9c44edb49aed63690216cc2728dc58f552378c292ab5844f3"
    );
    assert_eq!(
        num_hex(&curve_p(EdCurves::E521)),
        "1ffffffffffffffffffffffffffffffffffffffffffffffffffffffffffffffffffffffffffffffffffffffffffffffffffffffffffffffffffffffffffffffffff"
    );
    assert_eq!(
        num_hex(&curve_d(EdCurves::E521)),
        "1fffffffffffffffffffffffffffffffffffffffffffffffffffffffffffffffffffffffffffffffffffffffffffffffffffffffffffffffffffffffffffffa4331"
    );
    assert_eq!(
        num_hex(&order(EdCurves::E521)),
        "7ffffffffffffffffffffffffffffffffffffffffffffffffffffffffffffffffd15b6c64746fc85f736b8af5e7ec53f04fbd8c4569a8f1f4540ea2435f5180d6b"
    );
}

#[test]
fn generator_is_on_the_curve_and_matches_point_from_x() {
    for curve in CURVES {
        let g = EdCurvePoint::generator(curve, false);
        assert!(g.is_on_curve());
        assert!(!g.y.is_odd());
        let y = solve_for_y(&g.x, curve, false).unwrap();
        assert!(y.same_value(&g.y));
        let other = EdCurvePoint::generator(curve, true);
        assert!(other.is_on_curve());
        assert!(other.y.is_odd());
        assert!(other.x.same_value(&g.x));
        let y_odd = solve_for_y(&g.x, curve, true).unwrap();
        assert!(y_odd.same_value(&other.y));
    }
    assert_eq!(
        num_hex(&EdCurvePoint::generator(EdCurves::E448, false).y),
        "c66f6f0565e6d0b5f2bb263cebb9f8540eb046f40ed0fff7f84d84653b428d989aabff93b6bf700801228094e3dd0c2d1c600e3b0bccfc32"
    );
    assert_eq!(
        num_hex(&EdCurvePoint::generator(EdCurves::E448, true).y),
        "399090fa9a192f4a0d44d9c3144607abf14fb90bf12f000807b27b99c4bd72676554006c49408ff7fedd7f6b1c22f3d2e39ff1c4f43303cd"
    );
}

#[test]
fn point_from_x_rejects_where_there_is_no_root() {
    for curve in CURVES {
        assert!(solve_for_y(&small(2), curve, false).is_none());
        assert!(solve_for_y(&small(2), curve, true).is_none());
    }
    assert!(solve_for_y(&small(3), EdCurves::E448, false).is_some());
    assert!(solve_for_y(&small(3), EdCurves::E521, false).is_none());
}

#[test]
fn generator_has_order_r() {
    for curve in CURVES {
        let g = EdCurvePoint::generator(curve, false);
        let id = EdCurvePoint::id_point(curve);
        assert!(g.scalar_mul(&order(curve)).same_point(&id));
        assert!(!g.scalar_mul(&small(4)).same_point(&id));
        // One more than the order gives the generator again.
        let r_plus_one = bytes_to_big_int(&{
            let mut b = order(curve).to_bytes_be();
            let last = b.len() - 1;
            b[last] += 1;
            b
        });
        assert!(g.scalar_mul(&r_plus_one).same_point(&g));
    }
}

#[test]
fn scalar_multiples_of_the_generator() {
    let g = EdCurvePoint::generator(EdCurves::E448, false);
    let two = g.scalar_mul(&small(2));
    assert_eq!(
        num_hex(&two.x),
        "ecba514e483aaf0619c177b56c35f3984c8f0bba1667200e0ecca2d727dcec89db89afb8ce3b83a86d594d9b59aa0696279d2a3d65dc4eb"
    );
    assert_eq!(
        num_hex(&two.y),
        "e1f6e7016fab56e57cf876c65e7f38e42b1584b9889734d7f20b431d9f9f7eb51732d5740dac1127ffebc91c348e455ef0101363b64053f0"
    );
    assert!(two.same_point(&g.add_points(&g)));
    let five = g.scalar_mul(&small(5));
    assert_eq!(
        num_hex(&five.x),
        "6d2a8092cd593af6fa618ca125e1d4c80a68d2c55cc20e19308739ffed14712b2d03cd259b11dd88cb30f6e86347e8f891ab298207feb5b0"
    );
    let g521 = EdCurvePoint::generator(EdCurves::E521, false);
    assert_eq!(
        num_hex(&g521.scalar_mul(&small(5)).y),
        "1df62cf3a863ff877a1a1af395fcf1e32e29471fce3581420e0b2fb5012631b83a42f122f1260aa42ff64fccaacc4f426a2c48d14c9620613ff945da46d825d6cb5"
    );
    assert!(g.scalar_mul(&small(0)).same_point(&EdCurvePoint::id_point(EdCurves::E448)));
    assert!(g.scalar_mul(&small(1)).same_point(&g));
    // Leading zero bytes of the scalar change nothing.
    assert!(g.scalar_mul(&bytes_to_big_int(&[0, 0, 5])).same_point(&five));
}

#[test]
fn point_addition_laws_on_chosen_points() {
    for curve in CURVES {
        let g = EdCurvePoint::generator(curve, false);
        let id = EdCurvePoint::id_point(curve);
        let p = g.scalar_mul(&small(7));
        let q = g.scalar_mul(&small(11));
        let r = g.scalar_mul(&small(1000003));
        assert!(p.is_on_curve() && q.is_on_curve() && r.is_on_curve());
        // Commutative.
        assert!(p.add_points(&q).same_point(&q.add_points(&p)));
        // Associative.
        assert!(p.add_points(&q).add_points(&r).same_point(&p.add_points(&q.add_points(&r))));
        // Neutral element.
        assert!(p.add_points(&id).same_point(&p));
        assert!(id.add_points(&p).same_point(&p));
        // 7G + 11G = 18G.
        assert!(p.add_points(&q).same_point(&g.scalar_mul(&small(18))));
        // k(P + Q) = kP + kQ.
        let k = small(123456789);
        assert!(p.add_points(&q)
            .scalar_mul(&k)
            .same_point(&p.scalar_mul(&k).add_points(&q.scalar_mul(&k))));
    }
    assert_eq!(
        num_hex(
            &EdCurvePoint::generator(EdCurves::E448, false)
                .scalar_mul(&small(7))
                .add_points(&EdCurvePoint::generator(EdCurves::E448, false).scalar_mul(&small(11)))
                .x
        ),
        "b46ee317cc7741344a256e2981e26147ad44dc778f0091c887e85c5cba5634173bcd1a2286545b9e592b508ac7f137d909867d9c4e2dd0a6"
    );
}

#[test]
fn off_curve_points_are_recognised() {
    let p = EdCurvePoint { x: small(8), y: small(9), curve: EdCurves::E448 };
    assert!(!p.is_on_curve());
    let g = EdCurvePoint::generator(EdCurves::E448, false);
    let wrong_curve = EdCurvePoint { x: g.x.clone(), y: g.y.clone(), curve: EdCurves::E521 };
    assert!(!wrong_curve.is_on_curve());
    assert!(EdCurvePoint::id_point(EdCurves::E521).is_on_curve());
}

#[test]
fn key_pair_is_a_function_of_the_passphrase() {
    let pw = b"abc".to_vec();
    let a = KeyPair::new(&pw, "a".to_string(), EdCurves::E448, 512).unwrap();
    let b = KeyPair::new(&pw, "b".to_string(), EdCurves::E448, 512).unwrap();
    assert!(a.pub_key.same_point(&b.pub_key));
    assert_eq!(a.priv_key, pw);
    assert_eq!(a.owner, "a");
    assert_eq!(a.curve, EdCurves::E448);
    assert!(a.pub_key.is_on_curve());
    assert_eq!(
        num_hex(&a.pub_key.x),
        "261b904bcb73b6fc6cd85ec25c5bcb99c715d4dea3514d86bc7602d3a40feb664667947a34412038f2b3bf5c35d9dda4cb7ebc811c3c3e14"
    );
    assert_eq!(
        num_hex(&a.pub_key.y),
        "ceedbea5f11d26e7983e7c30e6f271d2d280680c6ea1beecfc2f8bb90a45e2b9bd00d551fd4c3accbcfc9b88aa7ccbd687a2d09bbfe40919"
    );
    let c = KeyPair::new(&pw, "c".to_string(), EdCurves::E448, 256).unwrap();
    assert_eq!(
        num_hex(&c.pub_key.x),
        "f6f311884117e1591b2278cfab152fb0fd75df07df35d30b93b6770355e8a519698e57a340aae810da0b1f2b4004d1d86ee41c2cff635d28"
    );
    let e = KeyPair::new(&pw, "e".to_string(), EdCurves::E521, 512).unwrap();
    assert_eq!(
        num_hex(&e.pub_key.x),
        "1079b8dee27b04c14b3c0d6b65c9b2ec5d06dc3bf88713be30317b2e73574301e49e814b8f5079a38ce769063cc020e86622056f5d529b2522822d4cbdf725bbbde"
    );
    let other = KeyPair::new(&b"abd".to_vec(), "a".to_string(), EdCurves::E448, 512).unwrap();
    assert!(!other.pub_key.same_point(&a.pub_key));
    let dated =
        KeyPair::from_parts(&pw, "d".to_string(), EdCurves::E448, 512, "then".to_string()).unwrap();
    assert_eq!(dated.date_created, "then");
    assert!(dated.pub_key.same_point(&a.pub_key));
}

#[test]
fn key_pair_rejects_other_parameters() {
    for d in [0u64, 224, 384, 1024] {
        let r = KeyPair::new(&b"abc".to_vec(), "a".to_string(), EdCurves::E448, d);
        assert_eq!(r.err(), Some(CryptoError::InvalidSecurityParameter));
    }
}

#[test]
fn symmetric_encryption_with_a_fixed_nonce() {
    let z: Vec<u8> = (0..64u8).collect();
    let pw = b"password".to_vec();
    let mut msg = Message::new(b"attack at dawn".to_vec());
    msg.pw_encrypt_with_nonce(&pw, z.clone(), 512).unwrap();
    assert_eq!(hex(&msg.msg), "2483e7cf2c0cb4f37dc0522fb74b");
    assert_eq!(
        hex(&msg.digest.clone().unwrap()),
        "acd22cd7a0804b2c5b31f12dfde88e40440006cb65bb9c04ec40f4c8b853a79f92ad7f55c7052320c2debed5a255be474504dd612d02266f7c5d114b6b16321c"
    );
    assert_eq!(msg.sym_nonce, Some(z.clone()));
    assert!(msg.op_result.is_none());
    assert_eq!(msg.pw_decrypt(&pw, 512), Ok(true));
    assert_eq!(msg.msg, b"attack at dawn".to_vec());
    assert_eq!(msg.op_result, Some(true));
    // The nonce is still the one of the encryption: a second round works.
    assert_eq!(msg.sym_nonce, Some(z.clone()));

    let mut msg = Message::new(b"attack at dawn".to_vec());
    msg.pw_encrypt_with_nonce(&pw, z, 256).unwrap();
    assert_eq!(hex(&msg.msg), "4310d28a7917f53b23fd4245e878");
    assert_eq!(
        hex(&msg.digest.clone().unwrap()),
        "2da820b20d27ba634b40d96bc5ac27f7057452c989c02d2fa6963f31a8896dca6e4b8615113d5c765c8202c32a82832b1d27b21100ae8f718f76dcb67a71a0bc"
    );
}

#[test]
fn empty_message_symmetric_round_trip() {
    let pw = b"password".to_vec();
    let mut msg = Message::new(Vec::new());
    msg.pw_encrypt(&pw, 512).unwrap();
    assert_eq!(msg.msg.len(), 0);
    assert_eq!(msg.sym_nonce.clone().unwrap().len(), 64);
    assert_eq!(msg.digest.clone().unwrap().len(), 64);
    assert_eq!(msg.pw_decrypt(&pw, 512), Ok(true));
    assert_eq!(msg.op_result, Some(true));
}

#[test]
fn symmetric_round_trip_gives_the_message_back() {
    for d in [256u64, 512] {
        for n in [0usize, 1, 63, 64, 135, 136, 137, 1000] {
            let pw = get_random_bytes(67);
            let plain = get_random_bytes(n);
            let mut msg = Message::new(plain.clone());
            msg.pw_encrypt(&pw, d).unwrap();
            assert_eq!(msg.msg.len(), n);
            if n >= 16 {
                assert_ne!(msg.msg, plain);
            }
            assert_eq!(msg.pw_decrypt(&pw, d), Ok(true));
            assert_eq!(msg.msg, plain);
        }
    }
}

#[test]
fn wrong_password_fails_to_decrypt() {
    let mut msg = Message::new(b"attack at dawn".to_vec());
    msg.pw_encrypt(&b"password one".to_vec(), 512).unwrap();
    assert_eq!(msg.pw_decrypt(&b"password two".to_vec(), 512), Ok(false));
    assert_eq!(msg.op_result, Some(false));
}

#[test]
fn flipped_bits_fail_to_decrypt() {
    let pw = b"password".to_vec();
    let mut sealed = Message::new(b"attack at dawn".to_vec());
    sealed.pw_encrypt(&pw, 512).unwrap();
    for byte in 0..sealed.msg.len() {
        for bit in 0..8 {
            let mut m = Message::new(sealed.msg.clone());
            m.sym_nonce = sealed.sym_nonce.clone();
            m.digest = sealed.digest.clone();
            m.msg[byte] ^= 1 << bit;
            assert_eq!(m.pw_decrypt(&pw, 512), Ok(false));
        }
    }
    for byte in 0..64 {
        for bit in 0..8 {
            let mut m = Message::new(sealed.msg.clone());
            m.sym_nonce = sealed.sym_nonce.clone();
            let mut t = sealed.digest.clone().unwrap();
            t[byte] ^= 1 << bit;
            m.digest = Some(t);
            assert_eq!(m.pw_decrypt(&pw, 512), Ok(false));
        }
    }
}

#[test]
fn symmetric_operations_reject_other_parameters() {
    let pw = b"password".to_vec();
    for d in [0u64, 224, 384, 1024] {
        let mut msg = Message::new(b"attack at dawn".to_vec());
        assert_eq!(msg.pw_encrypt(&pw, d), Err(CryptoError::InvalidSecurityParameter));
        assert_eq!(msg.msg, b"attack at dawn".to_vec());
        assert!(msg.sym_nonce.is_none() && msg.digest.is_none());
        msg.pw_encrypt(&pw, 512).unwrap();
        let sealed = msg.msg.clone();
        assert_eq!(msg.pw_decrypt(&pw, d), Err(CryptoError::InvalidSecurityParameter));
        assert_eq!(msg.msg, sealed);
        assert!(msg.op_result.is_none());
    }
}

#[test]
fn public_key_encryption_with_fixed_random_bytes() {
    let k: Vec<u8> = (0..64u8).collect();
    let kp = KeyPair::new(&b"abc".to_vec(), "a".to_string(), EdCurves::E448, 512).unwrap();
    let mut msg = Message::new(b"attack at dawn".to_vec());
    msg.key_encrypt_with_nonce(&kp.pub_key, &k, 512).unwrap();
    assert_eq!(hex(&msg.msg), "3baa914ba549b818ee991773c80c");
    assert_eq!(
        hex(&msg.digest.clone().unwrap()),
        "5a2ef9c52a2a9f082785506fb59c4a1e977c21e478ab5f95c7fa054ab60e3a57bfc67a4393d786cfde3a2bda7909615671e5d499c71e098ebf70f84a2b34eb7f"
    );
    assert_eq!(
        num_hex(&msg.asym_nonce.clone().unwrap().x),
        "16875f05bc43b9068741ec42ab3920784c45979a792df1bec758814b32b096c2e47b4323467edf36c726564d3cba3babe3ede95fbd7c2406"
    );
    assert_eq!(msg.key_decrypt(&b"abc".to_vec(), 512), Ok(true));
    assert_eq!(msg.msg, b"attack at dawn".to_vec());

    let kp = KeyPair::new(&b"abc".to_vec(), "a".to_string(), EdCurves::E521, 256).unwrap();
    let mut msg = Message::new(b"attack at dawn".to_vec());
    msg.key_encrypt_with_nonce(&kp.pub_key, &k, 256).unwrap();
    assert_eq!(hex(&msg.msg), "056547443acad2a7a9434adcc505");
    assert_eq!(msg.key_decrypt(&b"abc".to_vec(), 256), Ok(true));
    assert_eq!(msg.msg, b"attack at dawn".to_vec());
}

#[test]
fn public_key_round_trip_gives_the_message_back() {
    for curve in CURVES {
        for d in [256u64, 512] {
            let pw = get_random_bytes(20);
            let kp = KeyPair::new(&pw, "a".to_string(), curve, d).unwrap();
            let plain = get_random_bytes(300);
            let mut msg = Message::new(plain.clone());
            msg.key_encrypt(&kp.pub_key, d).unwrap();
            assert_ne!(msg.msg, plain);
            assert!(msg.asym_nonce.clone().unwrap().is_on_curve());
            assert_eq!(msg.key_decrypt(&kp.priv_key, d), Ok(true));
            assert_eq!(msg.msg, plain);
            assert_eq!(msg.op_result, Some(true));
        }
    }
}

#[test]
fn public_key_decryption_with_the_wrong_passphrase_fails() {
    let kp = KeyPair::new(&b"abc".to_vec(), "a".to_string(), EdCurves::E448, 512).unwrap();
    let mut msg = Message::new(b"attack at dawn".to_vec());
    msg.key_encrypt(&kp.pub_key, 512).unwrap();
    assert_eq!(msg.key_decrypt(&b"abd".to_vec(), 512), Ok(false));
}

#[test]
fn public_key_operations_reject_bad_arguments() {
    let kp = KeyPair::new(&b"abc".to_vec(), "a".to_string(), EdCurves::E448, 512).unwrap();
    let mut msg = Message::new(b"attack at dawn".to_vec());
    assert_eq!(msg.key_encrypt(&kp.pub_key, 224), Err(CryptoError::InvalidSecurityParameter));
    let off = EdCurvePoint { x: small(8), y: small(9), curve: EdCurves::E448 };
    assert_eq!(msg.key_encrypt(&off, 512), Err(CryptoError::PointOffCurve));
    assert_eq!(msg.key_encrypt(&off, 7), Err(CryptoError::InvalidSecurityParameter));
    assert_eq!(msg.msg, b"attack at dawn".to_vec());
    assert!(msg.asym_nonce.is_none() && msg.digest.is_none());

    msg.key_encrypt(&kp.pub_key, 512).unwrap();
    let sealed = msg.msg.clone();
    assert_eq!(
        msg.key_decrypt(&b"abc".to_vec(), 384),
        Err(CryptoError::InvalidSecurityParameter)
    );
    msg.asym_nonce = Some(off);
    assert_eq!(msg.key_decrypt(&b"abc".to_vec(), 512), Err(CryptoError::PointOffCurve));
    assert_eq!(msg.msg, sealed);
    assert!(msg.op_result.is_none());
}

#[test]
fn signature_known_values() {
    let kp = KeyPair::new(&b"abc".to_vec(), "a".to_string(), EdCurves::E448, 512).unwrap();
    let mut msg = Message::new(b"hello".to_vec());
    msg.sign(&kp, 512).unwrap();
    let sig = msg.sig.clone().unwrap();
    assert_eq!(
        hex(&sig.h),
        "1ce99913d4e5b15452911949d3867e3ca4cfb0873428fdeb8aac809f586a47a9997404577136bb03063ab6ee0a12728ab9a07a4ad3a3855fcfe207bbef348aae"
    );
    assert_eq!(
        num_hex(&sig.z),
        "2189ee6475ed0ff545de16b3547c297d0fbfbe4e69dbb7582165637cfa2061f2425bcc2a18c95051e2df24abadece3e261feb07356aa4ada"
    );
    assert_eq!(msg.msg, b"hello".to_vec());
    assert_eq!(msg.verify(&kp.pub_key, 512), Ok(true));

    let kp = KeyPair::new(&b"abc".to_vec(), "a".to_string(), EdCurves::E521, 256).unwrap();
    let mut msg = Message::new(b"hello".to_vec());
    msg.sign(&kp, 256).unwrap();
    let sig = msg.sig.clone().unwrap();
    assert_eq!(
        num_hex(&sig.z),
        "745f6a696939cb1e5a17b72231c92171bc3ddb5715a690159a5127c3b6eee75b332454205b1657ea82c64e825d60e3678430668fc2ebfaa88af6bacc1de16b9c71"
    );
    assert_eq!(msg.verify(&kp.pub_key, 256), Ok(true));
}

#[test]
fn signature_verifies_only_under_the_signing_key() {
    let kp = KeyPair::new(&b"abc".to_vec(), "a".to_string(), EdCurves::E448, 512).unwrap();
    let mut msg = Message::new(b"hello".to_vec());
    msg.sign(&kp, 512).unwrap();
    assert_eq!(msg.verify(&kp.pub_key, 512), Ok(true));
    assert_eq!(msg.op_result, Some(true));
    let other =
        KeyPair::new(&get_random_bytes(32), "b".to_string(), EdCurves::E448, 512).unwrap();
    assert_eq!(msg.verify(&other.pub_key, 512), Ok(false));
    assert_eq!(msg.op_result, Some(false));
}

#[test]
fn signature_does_not_verify_for_another_message() {
    let kp = KeyPair::new(&b"abc".to_vec(), "a".to_string(), EdCurves::E448, 512).unwrap();
    let mut msg = Message::new(b"hello".to_vec());
    msg.sign(&kp, 512).unwrap();
    let mut forged = Message::new(b"hellp".to_vec());
    forged.sig = msg.sig.clone();
    assert_eq!(forged.verify(&kp.pub_key, 512), Ok(false));
    let mut longer = Message::new(b"hello!".to_vec());
    longer.sig = msg.sig.clone();
    assert_eq!(longer.verify(&kp.pub_key, 512), Ok(false));
}

#[test]
fn signature_operations_reject_bad_arguments() {
    let kp = KeyPair::new(&b"abc".to_vec(), "a".to_string(), EdCurves::E448, 512).unwrap();
    let mut msg = Message::new(b"hello".to_vec());
    assert_eq!(msg.sign(&kp, 384), Err(CryptoError::InvalidSecurityParameter));
    assert!(msg.sig.is_none());
    msg.sign(&kp, 512).unwrap();
    assert_eq!(msg.verify(&kp.pub_key, 0), Err(CryptoError::InvalidSecurityParameter));
    let off = EdCurvePoint { x: small(8), y: small(9), curve: EdCurves::E448 };
    assert_eq!(msg.verify(&off, 512), Err(CryptoError::PointOffCurve));
    assert!(msg.op_result.is_none());
}

#[test]
fn fixed_parameter_functions() {
    assert_eq!(
        hex(&compute_sha3_hash(&b"abc".to_vec())),
        "b751850b1a57168a5693cd924b6b096e08f621827444f70d884f5d0240d2712e10e116e9192af3c91a7ec57647e3934057340b4cf408d5a56592f8274eec53f0"
    );
    assert_eq!(
        hex(&compute_tagged_hash(&b"key".to_vec(), &b"data".to_vec(), "T")),
        "62702d1e7f09b729293e99db8c72e9b9eb046896a834587d9d11ccc60870d817a4a2f9c39493e06fa0bdbcc2b98dfb497860ae2709457b332caa09fbe1687b71"
    );
    let key: Vec<u8> = (0x40..0x60u8).collect();
    let long: Vec<u8> = (0..200u8).collect();
    assert_eq!(
        kmac_xof_256(&key, &long, 512, "My Tagged Application"),
        kmac_xof(&key, &long, 512, "My Tagged Application", 512).unwrap()
    );
    let data: Vec<u8> = (0..200u8).collect();
    assert_eq!(
        hex(&capycrypt::model::shake_functions::cshake(&data, 512, "", "Email Signature").unwrap()),
        "07dc27b11e51fbac75bc7b3c1d983e8b4b85fb1defaf218912ac86430273091727f42b17ed1df63e8ec118f04b23633c1dfb1574c8fb55cb45da8e25afb092bb"
    );
}

#[test]
fn cryptogram_functions_with_a_fixed_nonce() {
    let z: Vec<u8> = (0..64u8).collect();
    let pw = b"password".to_vec();
    let mut cg = encrypt_with_pw_and_nonce(&pw, &b"attack at dawn".to_vec(), z.clone());
    assert_eq!(hex(&cg.c), "2483e7cf2c0cb4f37dc0522fb74b");
    assert_eq!(cg.z, z);
    assert_eq!(cg.t.len(), 64);
    assert!(decrypt_with_pw(&pw, &mut cg));
    assert_eq!(cg.c, b"attack at dawn".to_vec());
    assert_eq!(cg.z, z);

    let mut cg = encrypt_with_pw(&pw, &b"attack at dawn".to_vec());
    assert_eq!(cg.z.len(), 64);
    assert!(!decrypt_with_pw(&b"passwore".to_vec(), &mut cg));
}

#[test]
fn decimal_numbers() {
    assert_eq!(num_hex(&parse_decimal("0").unwrap()), "0");
    assert_eq!(num_hex(&parse_decimal("255").unwrap()), "ff");
    assert_eq!(num_hex(&parse_decimal("007").unwrap()), "7");
    assert_eq!(
        num_hex(&parse_decimal("18446744073709551616").unwrap()),
        "10000000000000000"
    );
    assert!(parse_decimal("").is_none());
    assert!(parse_decimal("12a").is_none());
    assert!(parse_decimal("-1").is_none());
    assert!(parse_decimal("1_000").is_none());
    assert!(parse_decimal(" 1").is_none());
    assert!(get_e521_point("4", "x").is_none());
    assert!(get_e521_point("", "4").is_none());
}

#[test]
fn stored_key_pair_in_decimal() {
    let mut key = KeyObj {
        owner: String::new(),
        priv_key: String::new(),
        pub_key_x: String::new(),
        pub_key_y: String::new(),
        date_created: String::new(),
    };
    fill_keypair(&mut key, &b"abc".to_vec(), "me".to_string(), "today".to_string());
    assert_eq!(key.owner, "me");
    assert_eq!(key.date_created, "today");
    let s = parse_decimal(&key.priv_key).unwrap();
    assert_eq!(
        num_hex(&s),
        "2a0dfccf3e9f9df855f5e6e739fc48389e6f8ec8156f8c8b961e38d335aed3f9f50545afaf1a44125248cb38d7304855213fb903654a155efd6f4780beb467e88"
    );
    let p = get_e521_point(&key.pub_key_x, &key.pub_key_y).unwrap();
    assert_eq!(
        num_hex(&p.x),
        "1079b8dee27b04c14b3c0d6b65c9b2ec5d06dc3bf88713be30317b2e73574301e49e814b8f5079a38ce769063cc020e86622056f5d529b2522822d4cbdf725bbbde"
    );
    assert!(key.pub_key_x.bytes().all(|b| b.is_ascii_digit()));
    let g = EdCurvePoint::generator(EdCurves::E521, false);
    let mut gen_key = KeyObj {
        owner: String::new(),
        priv_key: String::new(),
        pub_key_x: String::new(),
        pub_key_y: String::new(),
        date_created: String::new(),
    };
    fill_keypair(&mut gen_key, &b"abc".to_vec(), "me".to_string(), "today".to_string());
    assert_eq!(gen_key.pub_key_y, key.pub_key_y);
    assert_eq!(
        parse_decimal(
            "3832365545844557255247407452492276489648660861956878854823428409796421008857878243727634210686791507168493732364650567836638782015285562571568855063494635788"
        )
        .unwrap()
        .to_bytes_be(),
        g.y.to_bytes_be()
    );
}

#[test]
fn cryptogram_functions_for_public_keys() {
    let k: Vec<u8> = (0..64u8).collect();
    let kp = KeyPair::new(&b"abc".to_vec(), "a".to_string(), EdCurves::E521, 512).unwrap();
    let pub_key = E521 { x: kp.pub_key.x.clone(), y: kp.pub_key.y.clone() };
    let mut cg = encrypt_with_key_and_nonce(&pub_key, &b"attack at dawn".to_vec(), &k).unwrap();
    assert_eq!(hex(&cg.c), "d3ddb023267b427433836dbe6441");
    assert_eq!(
        hex(&cg.t),
        "e33dbf35485c0db8479f15fd88f2252628e011dc5f79f056834adf7aba93999465a1fe5653ee1aed03500d6c8c58984bf6b6b3f3cfa07a48083445fbf74d3aa8"
    );
    assert_eq!(
        num_hex(&cg.z_x),
        "15af0b50101a29a2f281c13a5b26322220272fa35a0842add11c210cb139b5c9a144350f3a7e23ce4230085cd2290c6a1d5b0fac90c7246e30b1c73f007b864795a"
    );
    assert_eq!(decrypt_with_key(&b"abc".to_vec(), &mut cg), Ok(true));
    assert_eq!(cg.c, b"attack at dawn".to_vec());

    let off = E521 { x: small(4), y: small(5) };
    assert_eq!(
        encrypt_with_key_and_nonce(&off, &b"attack at dawn".to_vec(), &k).err(),
        Some(CryptoError::PointOffCurve)
    );
    cg.z_y = small(1);
    let before = cg.c.clone();
    assert_eq!(decrypt_with_key(&b"abc".to_vec(), &mut cg), Err(CryptoError::PointOffCurve));
    assert_eq!(cg.c, before);
}
