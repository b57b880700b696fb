use capycrypt::error::CryptoError;
use capycrypt::ops::{cshake, kmac_xof, shake};
use capycrypt::sha3::aux_functions::nist_800_185::{
    byte_pad, encode_string, left_encode, right_encode,
};
use capycrypt::sha3::keccakf::keccakf_1600;
use capycrypt::sha3::sponge::{sponge_absorb, sponge_squeeze};
use capycrypt::Message;

fn hex(bytes: &[u8]) -> String {
    let mut s = String::new();
    for b in bytes {
        s.push_str(&format!("{:02x}", b));
    }
    s
}

#[test]
fn left_encode_known_values() {
    assert_eq!(left_encode(0), vec![0x01, 0x00]);
    assert_eq!(left_encode(255), vec![0x01, 0xff]);
    assert_eq!(left_encode(256), vec![0x02, 0x01, 0x00]);
    assert_eq!(hex(&left_encode(u64::MAX)), "08ffffffffffffffff");
    assert_eq!(left_encode(136), vec![0x01, 0x88]);
}

#[test]
fn right_encode_known_values() {
    assert_eq!(right_encode(0), vec![0x00, 0x01]);
    assert_eq!(right_encode(255), vec![0xff, 0x01]);
    assert_eq!(right_encode(65536), vec![0x01, 0x00, 0x00, 0x03]);
}

#[test]
fn encodings_differ_for_different_numbers() {
    let values: [u64; 8] = [0, 1, 255, 256, 257, 65535, 65536, u64::MAX];
    for a in values {
        for b in values {
            if a != b {
                assert_ne!(left_encode(a), left_encode(b));
                assert_ne!(right_encode(a), right_encode(b));
            }
        }
    }
}

#[test]
fn encode_string_known_values() {
    assert_eq!(hex(&encode_string(&b"abc".to_vec())), "0118616263");
    assert_eq!(hex(&encode_string(&Vec::new())), "0100");
}

#[test]
fn byte_pad_known_values() {
    assert_eq!(hex(&byte_pad(&b"abc".to_vec(), 8)), "0108616263000000");
    // Already a multiple of the width: nothing is added.
    assert_eq!(hex(&byte_pad(&vec![0u8; 6], 8)), "0108000000000000");
    assert_eq!(byte_pad(&encode_string(&vec![0u8; 131]), 136).len(), 136);
}

#[test]
fn byte_pad_length_is_a_positive_multiple() {
    for w in [1u32, 7, 8, 136, 168] {
        for n in 0..400usize {
            let x = vec![0xabu8; n];
            let padded = byte_pad(&x, w);
            assert!(padded.len() > 0);
            assert_eq!(padded.len() % (w as usize), 0);
            assert!(padded.len() >= n + left_encode(w as u64).len());
            assert!(padded.len() < n + left_encode(w as u64).len() + w as usize);
        }
    }
}

#[test]
fn keccak_permutation_of_zero_state() {
    let mut state = [0u64; 25];
    keccakf_1600(&mut state);
    assert_eq!(state[0], 0xF1258F7940E1DDE7);
    assert_eq!(state[1], 0x84D5CCF933C0478A);
    assert_eq!(state[24], 0xEAF1FF7B5CECA249);
}

#[test]
fn hash_known_vectors() {
    assert_eq!(
        hex(&shake(&Vec::new(), 256).unwrap()),
        "a7ffc6f8bf1ed76651c14756a061d662f580ff4de43b49fa82d80a4b80f8434a"
    );
    assert_eq!(
        hex(&shake(&b"abc".to_vec(), 224).unwrap()),
        "e642824c3f8cf24ad09234ee7d3c766fc9a3a5168d0c94ad73b46fdf"
    );
    assert_eq!(
        hex(&shake(&b"abc".to_vec(), 384).unwrap()),
        "ec01498288516fc926459f58e2c6ad8df9b473cb0fc08c2596da7cf0e49be4b298d88cea927ac7f539f1edf228376d25"
    );
    assert_eq!(
        hex(&shake(&b"abc".to_vec(), 512).unwrap()),
        "b751850b1a57168a5693cd924b6b096e08f621827444f70d884f5d0240d2712e10e116e9192af3c91a7ec57647e3934057340b4cf408d5a56592f8274eec53f0"
    );
}

#[test]
fn hash_at_the_block_boundary() {
    // One byte short of a block: the domain byte alone fills the block.
    assert_eq!(
        hex(&shake(&vec![b'a'; 135], 256).unwrap()),
        "8094bb53c44cfb1e67b7c30447f9a1c33696d2463ecc1d9c92538913392843c9"
    );
    assert_eq!(
        hex(&shake(&vec![b'a'; 136], 256).unwrap()),
        "3fc5559f14db8e453a0a3091edbd2bc25e11528d81c66fa570a4efdcc2695ee1"
    );
}

#[test]
fn hash_rejects_other_strengths() {
    assert_eq!(shake(&Vec::new(), 0), Err(CryptoError::InvalidSecurityParameter));
    assert_eq!(shake(&Vec::new(), 128), Err(CryptoError::InvalidSecurityParameter));
    assert_eq!(shake(&Vec::new(), 1024), Err(CryptoError::InvalidSecurityParameter));
}

#[test]
fn sponge_with_shake_domain_matches_shake256() {
    let state = sponge_absorb(&Vec::new(), 0x1f, 512);
    let out = sponge_squeeze(&state, 256, 1088);
    assert_eq!(hex(&out), "46b9dd2b0ba88d13233b3feb743eeb243fcd52ea62b81b82b50c27646ed5762f");
}

#[test]
fn sponge_squeezes_more_than_one_block() {
    let state = sponge_absorb(&b"xyz".to_vec(), 0x1f, 512);
    let long = sponge_squeeze(&state, 8 * 300, 1088);
    let short = sponge_squeeze(&state, 8 * 100, 1088);
    assert_eq!(long.len(), 300);
    assert_eq!(&long[..100], &short[..]);
    assert_eq!(sponge_squeeze(&state, 0, 1088).len(), 0);
    assert_eq!(sponge_squeeze(&state, 15, 1088).len(), 1);
}

#[test]
fn cshake_known_vectors() {
    let data: Vec<u8> = vec![0, 1, 2, 3];
    assert_eq!(
        hex(&cshake(&data, 256, "", "Email Signature", 256).unwrap()),
        "c1c36925b6409a04f1b504fcbca9d82b4017277cb5ed2b2065fc1d3814d5aaf5"
    );
    let long: Vec<u8> = (0..200u8).collect();
    assert_eq!(
        hex(&cshake(&long, 512, "", "Email Signature", 512).unwrap()),
        "07dc27b11e51fbac75bc7b3c1d983e8b4b85fb1defaf218912ac86430273091727f42b17ed1df63e8ec118f04b23633c1dfb1574c8fb55cb45da8e25afb092bb"
    );
}

#[test]
fn cshake_without_strings_is_the_plain_hash() {
    let data = b"abc".to_vec();
    assert_eq!(cshake(&data, 256, "", "", 512), shake(&data, 256));
    assert_eq!(cshake(&data, 512, "", "", 7), shake(&data, 512));
    assert_eq!(cshake(&data, 100, "", "", 512), Err(CryptoError::InvalidSecurityParameter));
}

#[test]
fn cshake_rejects_other_parameters() {
    let data = b"abc".to_vec();
    assert_eq!(cshake(&data, 256, "N", "", 224), Err(CryptoError::InvalidSecurityParameter));
    assert_eq!(cshake(&data, 256, "", "S", 384), Err(CryptoError::InvalidSecurityParameter));
    assert_eq!(cshake(&data, 256, "N", "S", 0), Err(CryptoError::InvalidSecurityParameter));
}

#[test]
fn kmac_xof_known_vectors() {
    let key: Vec<u8> = (0x40..0x60u8).collect();
    let data: Vec<u8> = vec![0, 1, 2, 3];
    assert_eq!(
        hex(&kmac_xof(&key, &data, 256, "", 256).unwrap()),
        "cd83740bbd92ccc8cf032b1481a0f4460e7ca9dd12b08a0c4031178bacd6ec35"
    );
    assert_eq!(
        hex(&kmac_xof(&key, &data, 256, "My Tagged Application", 256).unwrap()),
        "31a44527b4ed9f5c6101d11de6d26f0620aa5c341def41299657fe9df1a3b16c"
    );
    let long: Vec<u8> = (0..200u8).collect();
    assert_eq!(
        hex(&kmac_xof(&key, &long, 512, "My Tagged Application", 512).unwrap()),
        "d5be731c954ed7732846bb59dbe3a8e30f83e77a4bff4459f2f1c2b4ecebb8ce67ba01c62e8ab8578d2d499bd1bb276768781190020a306a97de281dcc30305d"
    );
}

#[test]
fn kmac_xof_with_a_key_that_fills_the_block() {
    // The encoded key is exactly one block long: no padding is added.
    assert_eq!(
        hex(&kmac_xof(&vec![0u8; 131], &Vec::new(), 256, "S", 512).unwrap()),
        "fd517b816a9517a1a74a3636aa54aa45b0cefb5f1ddd7f2674aa72b4635e980f"
    );
}

#[test]
fn kmac_xof_rejects_other_parameters() {
    let key = b"key".to_vec();
    let data = b"data".to_vec();
    assert_eq!(kmac_xof(&key, &data, 256, "", 224), Err(CryptoError::InvalidSecurityParameter));
    assert_eq!(kmac_xof(&key, &data, 256, "", 384), Err(CryptoError::InvalidSecurityParameter));
    assert_eq!(kmac_xof(&key, &data, 256, "", 100), Err(CryptoError::InvalidSecurityParameter));
}

#[test]
fn kmac_with_empty_key_is_not_cshake_of_the_message() {
    let data = b"abc".to_vec();
    let keyed = kmac_xof(&Vec::new(), &data, 256, "", 256).unwrap();
    let plain = cshake(&data, 256, "KMAC", "", 256).unwrap();
    assert_eq!(
        hex(&keyed),
        "faceca18610ece3c1ef34f208a8b03c92ac8ad8e5b10fb5e6b54632fc541df84"
    );
    assert_eq!(
        hex(&plain),
        "80b57b58ecfc9733aebe9cb050e7ceb2f97a78dddde4caa729507f60edb15632"
    );
    assert_ne!(keyed, plain);
}

#[test]
fn message_hash_and_tag() {
    let mut msg = Message::new(Vec::new());
    msg.compute_sha3_hash(256).unwrap();
    assert_eq!(
        hex(&msg.digest.clone().unwrap()),
        "a7ffc6f8bf1ed76651c14756a061d662f580ff4de43b49fa82d80a4b80f8434a"
    );
    assert_eq!(msg.compute_sha3_hash(100), Err(CryptoError::InvalidSecurityParameter));
    assert_eq!(
        hex(&msg.digest.clone().unwrap()),
        "a7ffc6f8bf1ed76651c14756a061d662f580ff4de43b49fa82d80a4b80f8434a"
    );

    let mut msg = Message::new(b"data".to_vec());
    msg.compute_tagged_hash(&b"key".to_vec(), "T", 512).unwrap();
    assert_eq!(
        hex(&msg.digest.clone().unwrap()),
        "62702d1e7f09b729293e99db8c72e9b9eb046896a834587d9d11ccc60870d817a4a2f9c39493e06fa0bdbcc2b98dfb497860ae2709457b332caa09fbe1687b71"
    );
    assert_eq!(
        msg.compute_tagged_hash(&b"key".to_vec(), "T", 224),
        Err(CryptoError::InvalidSecurityParameter)
    );
    assert_eq!(msg.msg, b"data".to_vec());
}
