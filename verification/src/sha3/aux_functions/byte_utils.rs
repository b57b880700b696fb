//! General work on byte buffers: XOR, erasure, random bytes, conversion
//! between bytes and big numbers, and the time stamp of a key.

use crate::bignum::BigNat;
use crate::numeric::{be_bytes, be_value};
use rand::Rng;
use vstd::prelude::*;

verus! {

/// Byte-wise XOR of two byte strings of one length.
pub open spec fn xor_seq(a: Seq<u8>, b: Seq<u8>) -> Seq<u8> {
    Seq::new(a.len(), |i: int| a[i] ^ b[i])
}

/// XOR with the same string twice gives back the first string.
pub proof fn lemma_xor_twice(a: Seq<u8>, b: Seq<u8>)
    ensures
        xor_seq(xor_seq(a, b), b) == a,
{
    assert forall|i: int| 0 <= i < a.len() implies (a[i] ^ b[i]) ^ b[i] == a[i] by {
        let x = a[i];
        let y = b[i];
        assert((x ^ y) ^ y == x) by (bit_vector);
    }
    assert(xor_seq(xor_seq(a, b), b) =~= a);
}

/// `n` bytes from the thread's random number generator, filled by
/// `rand::Rng::fill`. Nothing is known of the bytes but their count. Where the
/// generator fails, `fill` panics, and so does this function.
#[verifier::external_body]
pub fn get_random_bytes(n: usize) -> (r: Vec<u8>)
    ensures
        r@.len() == n,
{
    let mut rand_bytes = vec![0u8; n];
    rand::thread_rng().fill(&mut rand_bytes[..]);
    rand_bytes
}

/// XORs `b` into `a`, byte by byte.
pub fn xor_bytes(a: &mut Vec<u8>, b: &Vec<u8>)
    requires
        old(a).len() == b.len(),
    ensures
        final(a)@ == xor_seq(old(a)@, b@),
{
    let n = a.len();
    let mut i: usize = 0;
    while i < n
        invariant
            i <= n,
            n == b.len(),
            a.len() == n,
            forall|j: int| 0 <= j < i ==> a@[j] == old(a)@[j] ^ b@[j],
            forall|j: int| i <= j < n ==> a@[j] == old(a)@[j],
        decreases n - i,
    {
        let x = a[i] ^ b[i];
        a.set(i, x);
        i += 1;
    }
    assert(a@ =~= xor_seq(old(a)@, b@));
}

/// Overwrites every byte of `a` with zero. The length stays as it is.
pub fn wipe(a: &mut Vec<u8>)
    ensures
        final(a)@ == Seq::new(old(a)@.len(), |i: int| 0u8),
{
    let n = a.len();
    let mut i: usize = 0;
    while i < n
        invariant
            i <= n,
            a.len() == n,
            n == old(a).len(),
            forall|j: int| 0 <= j < i ==> a@[j] == 0,
        decreases n - i,
    {
        a.set(i, 0);
        i += 1;
    }
    assert(a@ =~= Seq::new(old(a)@.len(), |i: int| 0u8));
}

/// The number that `input` denotes, read big-endian.
pub fn bytes_to_big_int(input: &[u8]) -> (r: BigNat)
    ensures
        r@ == be_value(input@),
{
    BigNat::from_bytes_be(input)
}

/// The shortest big-endian bytes of `in_val`; zero gives the one byte 0.
pub fn big_to_bytes(in_val: &BigNat) -> (r: Vec<u8>)
    ensures
        r@ == be_bytes(in_val@),
{
    in_val.to_bytes_be()
}

/// The local date and time, as `chrono::Local::now` gives them, formatted as
/// year-month-day hour:minute:second. Nothing is known of the result.
#[verifier::external_body]
pub fn get_date_and_time_as_string() -> String {
    let local = chrono::Local::now();
    local.format("%Y-%m-%d %H:%M:%S").to_string()
}

} // verus!
