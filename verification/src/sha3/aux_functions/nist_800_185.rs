//! The integer and string encodings of NIST SP 800-185, section 2.3.

use crate::numeric::{
    be_bytes, be_bytes_fixed, be_value, lemma_be_bytes_len_bound, lemma_be_bytes_of_minimal,
    lemma_be_value_of_be_bytes, lemma_be_value_of_be_bytes_fixed, lemma_be_value_strip,
    lemma_pow256_8,
};
use byteorder::{BigEndian, WriteBytesExt};
use vstd::arithmetic::div_mod::{lemma_fundamental_div_mod, lemma_mod_multiples_basic};
use vstd::prelude::*;

verus! {

/// `left_encode(x)`: the shortest big-endian bytes of `x`, with their count
/// in front.
pub open spec fn spec_left_encode(x: u64) -> Seq<u8> {
    let digits = be_bytes(x as nat);
    seq![digits.len() as u8] + digits
}

/// `right_encode(x)`: the shortest big-endian bytes of `x`, with their count
/// behind.
pub open spec fn spec_right_encode(x: u64) -> Seq<u8> {
    let digits = be_bytes(x as nat);
    digits.push(digits.len() as u8)
}

/// `encode_string(s)`: the bit length of `s`, left-encoded, and then `s`.
pub open spec fn spec_encode_string(s: Seq<u8>) -> Seq<u8> {
    spec_left_encode((8 * s.len()) as u64) + s
}

/// The number of zero bytes that bring a string of `n` bytes to a multiple
/// of `w`.
pub open spec fn pad_len(n: nat, w: nat) -> nat {
    if n % w == 0 {
        0
    } else {
        (w - n % w) as nat
    }
}

/// `bytepad(x, w)`: `left_encode(w)`, then `x`, then as few zero bytes as
/// make the length a multiple of `w`.
pub open spec fn spec_byte_pad(x: Seq<u8>, w: u32) -> Seq<u8> {
    let z = spec_left_encode(w as u64) + x;
    z + Seq::new(pad_len(z.len(), w as nat), |i: int| 0u8)
}

/// The shortest representation of a 64-bit number has one to eight bytes.
pub proof fn lemma_u64_digits(x: u64)
    ensures
        1 <= be_bytes(x as nat).len() <= 8,
        be_value(be_bytes(x as nat)) == x as nat,
        spec_left_encode(x).len() == be_bytes(x as nat).len() + 1,
        spec_right_encode(x).len() == be_bytes(x as nat).len() + 1,
        2 <= spec_left_encode(x).len() <= 9,
        2 <= spec_right_encode(x).len() <= 9,
{
    lemma_pow256_8();
    lemma_be_bytes_len_bound(x as nat, 8);
    lemma_be_value_of_be_bytes(x as nat);
}

/// `left_encode` gives different strings for different numbers.
pub proof fn lemma_left_encode_injective(x: u64, y: u64)
    requires
        spec_left_encode(x) == spec_left_encode(y),
    ensures
        x == y,
{
    let dx = be_bytes(x as nat);
    let dy = be_bytes(y as nat);
    assert(spec_left_encode(x).subrange(1, spec_left_encode(x).len() as int) =~= dx);
    assert(spec_left_encode(y).subrange(1, spec_left_encode(y).len() as int) =~= dy);
    lemma_be_value_of_be_bytes(x as nat);
    lemma_be_value_of_be_bytes(y as nat);
}

/// `right_encode` gives different strings for different numbers.
pub proof fn lemma_right_encode_injective(x: u64, y: u64)
    requires
        spec_right_encode(x) == spec_right_encode(y),
    ensures
        x == y,
{
    let dx = be_bytes(x as nat);
    let dy = be_bytes(y as nat);
    assert(spec_right_encode(x).drop_last() =~= dx);
    assert(spec_right_encode(y).drop_last() =~= dy);
    lemma_be_value_of_be_bytes(x as nat);
    lemma_be_value_of_be_bytes(y as nat);
}

/// The length of `bytepad(x, w)` is a positive multiple of `w`, and the
/// string holds `left_encode(w)` and `x` in full.
pub proof fn lemma_byte_pad_len(x: Seq<u8>, w: u32)
    requires
        w > 0,
    ensures
        spec_byte_pad(x, w).len() > 0,
        spec_byte_pad(x, w).len() % (w as nat) == 0,
        spec_byte_pad(x, w).len() >= x.len() + spec_left_encode(w as u64).len(),
        spec_byte_pad(x, w).len() < x.len() + spec_left_encode(w as u64).len() + w,
{
    lemma_u64_digits(w as u64);
    let n = (spec_left_encode(w as u64) + x).len() as int;
    let wi = w as int;
    lemma_fundamental_div_mod(n, wi);
    if n % wi != 0 {
        assert(n + (wi - n % wi) == wi * (n / wi + 1)) by (nonlinear_arith)
            requires
                n == wi * (n / wi) + n % wi,
        ;
        lemma_mod_multiples_basic(n / wi + 1, wi);
        assert(wi * (n / wi + 1) == (n / wi + 1) * wi) by (nonlinear_arith);
    }
}

/// The eight big-endian bytes of `value`, as `byteorder`'s
/// `WriteBytesExt::write_u64::<BigEndian>` appends them to an empty vector;
/// writing to a vector does not fail.
#[verifier::external_body]
fn u64_to_be_bytes(value: u64) -> (r: Vec<u8>)
    ensures
        r@ == be_bytes_fixed(value as nat, 8),
{
    let mut vec: Vec<u8> = Vec::new();
    vec.write_u64::<BigEndian>(value).unwrap();
    vec
}

/// The shortest big-endian bytes of `value`; zero gives the one byte 0.
fn u64_digits(value: u64) -> (r: Vec<u8>)
    ensures
        r@ == be_bytes(value as nat),
        1 <= r@.len() <= 8,
{
    let all = u64_to_be_bytes(value);
    proof {
        crate::numeric::lemma_be_bytes_fixed_len(value as nat, 8);
        lemma_pow256_8();
        lemma_be_value_of_be_bytes_fixed(value as nat, 8);
    }
    let mut i: usize = 0;
    while i < 7 && all[i] == 0
        invariant
            i <= 7,
            all@.len() == 8,
            forall|j: int| 0 <= j < i ==> all@[j] == 0,
        decreases 7 - i,
    {
        i += 1;
    }
    let ghost start = i;
    let mut digits: Vec<u8> = Vec::new();
    while i < 8
        invariant
            start <= i <= 8,
            all@.len() == 8,
            digits@ == all@.subrange(start as int, i as int),
        decreases 8 - i,
    {
        digits.push(all[i]);
        assert(digits@ =~= all@.subrange(start as int, i + 1));
        i += 1;
    }
    proof {
        lemma_be_value_strip(all@, start as int);
        assert(digits@[0] == all@[start as int]);
        lemma_be_bytes_of_minimal(digits@);
    }
    digits
}

/// `left_encode(value)` of SP 800-185: two to nine bytes.
pub fn left_encode(value: u64) -> (r: Vec<u8>)
    ensures
        r@ == spec_left_encode(value),
        2 <= r@.len() <= 9,
{
    let digits = u64_digits(value);
    let mut res: Vec<u8> = Vec::new();
    res.push(digits.len() as u8);
    let mut i: usize = 0;
    while i < digits.len()
        invariant
            i <= digits.len(),
            res@ == seq![digits.len() as u8] + digits@.subrange(0, i as int),
        decreases digits.len() - i,
    {
        res.push(digits[i]);
        assert(res@ =~= seq![digits.len() as u8] + digits@.subrange(0, i + 1));
        i += 1;
    }
    assert(digits@.subrange(0, digits.len() as int) =~= digits@);
    res
}

/// `right_encode(value)` of SP 800-185: two to nine bytes.
pub fn right_encode(value: u64) -> (r: Vec<u8>)
    ensures
        r@ == spec_right_encode(value),
        2 <= r@.len() <= 9,
{
    let mut digits = u64_digits(value);
    let n = digits.len() as u8;
    digits.push(n);
    digits
}

/// `encode_string(s)` of SP 800-185. The bit length of `s` has to fit a
/// 64-bit number.
pub fn encode_string(s: &Vec<u8>) -> (r: Vec<u8>)
    requires
        s@.len() * 8 <= u64::MAX,
    ensures
        r@ == spec_encode_string(s@),
        s@.len() + 2 <= r@.len() <= s@.len() + 9,
{
    let mut encoded = left_encode((s.len() as u64) * 8);
    let ghost head = encoded@;
    let mut i: usize = 0;
    while i < s.len()
        invariant
            i <= s.len(),
            encoded@ == head + s@.subrange(0, i as int),
        decreases s.len() - i,
    {
        encoded.push(s[i]);
        assert(encoded@ =~= head + s@.subrange(0, i + 1));
        i += 1;
    }
    assert(s@.subrange(0, s.len() as int) =~= s@);
    encoded
}

/// `bytepad(input, w)` of SP 800-185. The width must not be zero.
pub fn byte_pad(input: &Vec<u8>, w: u32) -> (r: Vec<u8>)
    requires
        w > 0,
    ensures
        r@ == spec_byte_pad(input@, w),
        r@.len() > 0,
        r@.len() % (w as nat) == 0,
        r@.len() >= input@.len() + spec_left_encode(w as u64).len(),
{
    let mut z = left_encode(w as u64);
    let ghost head = z@;
    let mut i: usize = 0;
    while i < input.len()
        invariant
            i <= input.len(),
            z@ == head + input@.subrange(0, i as int),
        decreases input.len() - i,
    {
        z.push(input[i]);
        assert(z@ =~= head + input@.subrange(0, i + 1));
        i += 1;
    }
    assert(input@.subrange(0, input.len() as int) =~= input@);
    let ghost body = z@;
    let rem = z.len() % (w as usize);
    let padlen: usize = if rem == 0 {
        0
    } else {
        (w as usize) - rem
    };
    assert(padlen == pad_len(body.len(), w as nat));
    let mut k: usize = 0;
    while k < padlen
        invariant
            k <= padlen,
            z@ == body + Seq::new(k as nat, |i: int| 0u8),
        decreases padlen - k,
    {
        z.push(0);
        assert(z@ =~= body + Seq::new((k + 1) as nat, |i: int| 0u8));
        k += 1;
    }
    proof {
        lemma_byte_pad_len(input@, w);
    }
    z
}

} // verus!
