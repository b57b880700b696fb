//! Big-endian byte strings as natural numbers: the two directions and the
//! facts that tie them together.

use vstd::arithmetic::power::{lemma_pow0, lemma_pow_increases, lemma_pow_positive, pow};
use vstd::prelude::*;

verus! {

/// The natural number that a big-endian byte string denotes. Leading zero
/// bytes do not change it, and the empty string denotes zero.
pub open spec fn be_value(s: Seq<u8>) -> nat
    decreases s.len(),
{
    if s.len() == 0 {
        0
    } else {
        be_value(s.drop_last()) * 256 + s.last() as nat
    }
}

/// The shortest big-endian byte string that denotes `x`. Zero is the single
/// byte `0x00`, so the result is never empty.
pub open spec fn be_bytes(x: nat) -> Seq<u8>
    decreases x,
{
    if x < 256 {
        seq![x as u8]
    } else {
        be_bytes(x / 256).push((x % 256) as u8)
    }
}

/// The big-endian representation of `x mod 256^n` in exactly `n` bytes.
pub open spec fn be_bytes_fixed(x: nat, n: nat) -> Seq<u8>
    decreases n,
{
    if n == 0 {
        Seq::<u8>::empty()
    } else {
        be_bytes_fixed(x / 256, (n - 1) as nat).push((x % 256) as u8)
    }
}

/// A byte string is minimal when it is not empty and carries no leading zero
/// byte, except for the one byte that stands for zero.
pub open spec fn is_minimal(s: Seq<u8>) -> bool {
    s.len() >= 1 && (s.len() == 1 || s[0] != 0)
}

/// `256^n` as a natural number.
pub open spec fn pow256(n: nat) -> nat {
    pow(256, n) as nat
}

/// `256^0` is 1, every power of 256 is positive, and the next power is 256
/// times the one before.
pub proof fn lemma_pow256_step(n: nat)
    ensures
        pow256(0) == 1,
        pow256(n) >= 1,
        pow256(n + 1) == 256 * pow256(n),
        pow(256, n) == pow256(n) as int,
{
    lemma_pow0(256);
    lemma_pow_positive(256, n);
    lemma_pow_positive(256, n + 1);
    reveal(pow);
}

/// One more byte at the end multiplies the number by 256 and adds the byte.
pub proof fn lemma_be_value_push(s: Seq<u8>, b: u8)
    ensures
        be_value(s.push(b)) == be_value(s) * 256 + b as nat,
{
    assert(s.push(b).drop_last() =~= s);
}

/// A single byte denotes itself.
pub proof fn lemma_be_value_single(b: u8)
    ensures
        be_value(seq![b]) == b as nat,
{
    reveal_with_fuel(be_value, 2);
    assert(seq![b].drop_last() =~= Seq::<u8>::empty());
}

/// A byte string of length `n` denotes a number below `256^n`.
pub proof fn lemma_be_value_bound(s: Seq<u8>)
    ensures
        be_value(s) < pow256(s.len()),
    decreases s.len(),
{
    if s.len() == 0 {
        lemma_pow256_step(0);
    } else {
        lemma_be_value_bound(s.drop_last());
        lemma_pow256_step(s.drop_last().len());
    }
}

/// Concatenation shifts the left part by the length of the right part.
pub proof fn lemma_be_value_concat(a: Seq<u8>, b: Seq<u8>)
    ensures
        be_value(a + b) == be_value(a) * pow256(b.len()) + be_value(b),
    decreases b.len(),
{
    if b.len() == 0 {
        assert(a + b =~= a);
        lemma_pow256_step(0);
        assert(be_value(a) * pow256(0) == be_value(a)) by (nonlinear_arith)
            requires
                pow256(0) == 1,
        ;
    } else {
        let b0 = b.drop_last();
        assert((a + b).drop_last() =~= a + b0);
        assert((a + b).last() == b.last());
        lemma_be_value_concat(a, b0);
        lemma_pow256_step(b0.len());
        assert(be_value(a) * pow256(b.len()) == be_value(a) * pow256(b0.len()) * 256)
            by (nonlinear_arith)
            requires
                pow256(b.len()) == 256 * pow256(b0.len()),
        ;
    }
}

/// A run of zero bytes denotes zero.
pub proof fn lemma_be_value_zeros(s: Seq<u8>)
    requires
        forall|i: int| 0 <= i < s.len() ==> s[i] == 0,
    ensures
        be_value(s) == 0,
    decreases s.len(),
{
    if s.len() > 0 {
        lemma_be_value_zeros(s.drop_last());
    }
}

/// Leading zero bytes can be cut off without changing the number.
pub proof fn lemma_be_value_strip(s: Seq<u8>, k: int)
    requires
        0 <= k <= s.len(),
        forall|i: int| 0 <= i < k ==> s[i] == 0,
    ensures
        be_value(s) == be_value(s.subrange(k, s.len() as int)),
{
    let head = s.subrange(0, k);
    let tail = s.subrange(k, s.len() as int);
    assert(s =~= head + tail);
    lemma_be_value_concat(head, tail);
    lemma_be_value_zeros(head);
    assert(0 * pow256(tail.len()) == 0) by (nonlinear_arith);
}

/// The shortest representation is minimal, and has two bytes or more from
/// 256 on.
pub proof fn lemma_be_bytes_minimal(x: nat)
    ensures
        is_minimal(be_bytes(x)),
        x >= 256 ==> be_bytes(x).len() >= 2,
    decreases x,
{
    if x >= 256 {
        lemma_be_bytes_minimal(x / 256);
        let h = be_bytes(x / 256);
        assert(be_bytes(x)[0] == h[0]);
        if h.len() == 1 {
            assert(h =~= seq![(x / 256) as u8]) by {
                if x / 256 >= 256 {
                    lemma_be_bytes_minimal(x / 256);
                }
            }
            assert(x / 256 < 256) by {
                if x / 256 >= 256 {
                    lemma_be_bytes_minimal(x / 256);
                }
            }
            assert(h[0] != 0);
        }
    }
}

/// Reading back the shortest representation of `x` gives `x`.
pub proof fn lemma_be_value_of_be_bytes(x: nat)
    ensures
        be_value(be_bytes(x)) == x,
    decreases x,
{
    if x < 256 {
        lemma_be_value_single(x as u8);
    } else {
        lemma_be_value_of_be_bytes(x / 256);
        lemma_be_value_push(be_bytes(x / 256), (x % 256) as u8);
    }
}

/// A minimal byte string is the shortest representation of its own value.
pub proof fn lemma_be_bytes_of_minimal(s: Seq<u8>)
    requires
        is_minimal(s),
    ensures
        be_bytes(be_value(s)) == s,
    decreases s.len(),
{
    if s.len() == 1 {
        assert(s =~= seq![s[0]]);
        lemma_be_value_single(s[0]);
    } else {
        let h = s.drop_last();
        assert(h[0] == s[0]);
        lemma_be_value_msb(h);
        let v = be_value(s);
        assert(v == be_value(h) * 256 + s.last() as nat);
        assert(v / 256 == be_value(h));
        assert(v % 256 == s.last() as nat);
        lemma_be_bytes_of_minimal(h);
        assert(s =~= h.push(s.last()));
    }
}

/// A byte string that starts with a nonzero byte denotes a positive number.
pub proof fn lemma_be_value_msb(s: Seq<u8>)
    requires
        s.len() >= 1,
        s[0] != 0,
    ensures
        be_value(s) >= 1,
    decreases s.len(),
{
    if s.len() == 1 {
        assert(s =~= seq![s[0]]);
        lemma_be_value_single(s[0]);
    } else {
        let h = s.drop_last();
        assert(h[0] == s[0]);
        lemma_be_value_msb(h);
    }
}

/// The fixed-width representation has the width asked for.
pub proof fn lemma_be_bytes_fixed_len(x: nat, n: nat)
    ensures
        be_bytes_fixed(x, n).len() == n,
    decreases n,
{
    if n > 0 {
        lemma_be_bytes_fixed_len(x / 256, (n - 1) as nat);
    }
}

/// The fixed-width representation denotes `x` whenever `x` fits the width.
pub proof fn lemma_be_value_of_be_bytes_fixed(x: nat, n: nat)
    requires
        x < pow256(n),
    ensures
        be_value(be_bytes_fixed(x, n)) == x,
    decreases n,
{
    if n == 0 {
        lemma_pow256_step(0);
    } else {
        lemma_pow256_step((n - 1) as nat);
        assert(x / 256 < pow256((n - 1) as nat));
        lemma_be_value_of_be_bytes_fixed(x / 256, (n - 1) as nat);
        lemma_be_value_push(be_bytes_fixed(x / 256, (n - 1) as nat), (x % 256) as u8);
    }
}

/// The shortest representation of a number below `256^n` has at most `n`
/// bytes (and at least one).
pub proof fn lemma_be_bytes_len_bound(x: nat, n: nat)
    requires
        n >= 1,
        x < pow256(n),
    ensures
        1 <= be_bytes(x).len() <= n,
    decreases n,
{
    if x >= 256 {
        lemma_pow256_step((n - 1) as nat);
        if n == 1 {
            lemma_pow256_step(0);
        } else {
            assert(x / 256 < pow256((n - 1) as nat));
            lemma_be_bytes_len_bound(x / 256, (n - 1) as nat);
        }
    }
}

/// A byte string is the fixed-width representation of its own value in its
/// own length.
pub proof fn lemma_be_bytes_fixed_of_value(s: Seq<u8>)
    ensures
        be_bytes_fixed(be_value(s), s.len()) == s,
    decreases s.len(),
{
    if s.len() == 0 {
        assert(be_bytes_fixed(0, 0) =~= s);
    } else {
        let h = s.drop_last();
        lemma_be_bytes_fixed_of_value(h);
        let v = be_value(s);
        assert(v / 256 == be_value(h));
        assert(v % 256 == s.last() as nat);
        assert(s =~= h.push(s.last()));
    }
}

/// A byte string of `n` bytes that starts with a nonzero byte denotes a
/// number of at least `256^(n - 1)`.
pub proof fn lemma_be_value_lower(s: Seq<u8>)
    requires
        s.len() >= 1,
        s[0] != 0,
    ensures
        be_value(s) >= pow256((s.len() - 1) as nat),
    decreases s.len(),
{
    if s.len() == 1 {
        assert(s =~= seq![s[0]]);
        lemma_be_value_single(s[0]);
        lemma_pow256_step(0);
    } else {
        let h = s.drop_last();
        assert(h[0] == s[0]);
        lemma_be_value_lower(h);
        lemma_pow256_step((h.len() - 1) as nat);
    }
}

/// `256^a` is at most `256^b` where `a` is at most `b`.
pub proof fn lemma_pow256_monotonic(a: nat, b: nat)
    requires
        a <= b,
    ensures
        pow256(a) <= pow256(b),
{
    lemma_pow_increases(256, a, b);
    lemma_pow256_step(a);
    lemma_pow256_step(b);
}

/// The value of `256^8`.
pub proof fn lemma_pow256_8()
    ensures
        pow256(8) == 0x1_0000_0000_0000_0000,
{
    lemma_pow256_step(0);
    lemma_pow256_step(1);
    lemma_pow256_step(2);
    lemma_pow256_step(3);
    lemma_pow256_step(4);
    lemma_pow256_step(5);
    lemma_pow256_step(6);
    lemma_pow256_step(7);
}

/// The value of `256^55` and of `256^56`.
pub proof fn lemma_pow256_56()
    ensures
        pow256(55) == 0x100000000000000_0000000000000000_0000000000000000_0000000000000000_0000000000000000_0000000000000000_0000000000000000,
        pow256(56) == 0x1_0000000000000000_0000000000000000_0000000000000000_0000000000000000_0000000000000000_0000000000000000_0000000000000000,
{
    lemma_pow256_8();
    vstd::arithmetic::power::lemma_pow_adds(256, 8, 8);
    vstd::arithmetic::power::lemma_pow_adds(256, 16, 16);
    vstd::arithmetic::power::lemma_pow_adds(256, 32, 16);
    vstd::arithmetic::power::lemma_pow_adds(256, 48, 8);
    lemma_pow256_step(8);
    lemma_pow256_step(16);
    lemma_pow256_step(32);
    lemma_pow256_step(48);
    lemma_pow256_step(55);
    let e8 = pow(256, 8);
    let e16 = pow(256, 16);
    let e32 = pow(256, 32);
    let e48 = pow(256, 48);
    let e56 = pow(256, 56);
    assert(e8 == 0x1_0000000000000000);
    assert(e16 == 0x1_0000000000000000_0000000000000000) by (nonlinear_arith)
        requires
            e16 == e8 * e8,
            e8 == 0x1_0000000000000000,
    ;
    assert(e32 == 0x1_0000000000000000_0000000000000000_0000000000000000_0000000000000000)
        by (nonlinear_arith)
        requires
            e32 == e16 * e16,
            e16 == 0x1_0000000000000000_0000000000000000,
    ;
    assert(e48 == 0x1_0000000000000000_0000000000000000_0000000000000000_0000000000000000_0000000000000000_0000000000000000)
        by (nonlinear_arith)
        requires
            e48 == e32 * e16,
            e32 == 0x1_0000000000000000_0000000000000000_0000000000000000_0000000000000000,
            e16 == 0x1_0000000000000000_0000000000000000,
    ;
    assert(e56 == 0x1_0000000000000000_0000000000000000_0000000000000000_0000000000000000_0000000000000000_0000000000000000_0000000000000000)
        by (nonlinear_arith)
        requires
            e56 == e48 * e8,
            e48 == 0x1_0000000000000000_0000000000000000_0000000000000000_0000000000000000_0000000000000000_0000000000000000,
            e8 == 0x1_0000000000000000,
    ;
}

/// The value of `256^64` and of `256^66`.
pub proof fn lemma_pow256_66()
    ensures
        pow256(64) == 0x1_0000000000000000_0000000000000000_0000000000000000_0000000000000000_0000000000000000_0000000000000000_0000000000000000_0000000000000000,
        pow256(66) == 0x1_0000_0000000000000000_0000000000000000_0000000000000000_0000000000000000_0000000000000000_0000000000000000_0000000000000000_0000000000000000,
{
    lemma_pow256_8();
    vstd::arithmetic::power::lemma_pow_adds(256, 8, 8);
    vstd::arithmetic::power::lemma_pow_adds(256, 16, 16);
    vstd::arithmetic::power::lemma_pow_adds(256, 32, 32);
    lemma_pow256_step(8);
    lemma_pow256_step(16);
    lemma_pow256_step(32);
    lemma_pow256_step(64);
    lemma_pow256_step(65);
    let e8 = pow(256, 8);
    let e16 = pow(256, 16);
    let e32 = pow(256, 32);
    let e64 = pow(256, 64);
    assert(e16 == e8 * e8);
    assert(e32 == e16 * e16);
    assert(e64 == e32 * e32);
    assert(e8 == 0x1_0000000000000000);
    assert(e16 == 0x1_0000000000000000_0000000000000000) by (nonlinear_arith)
        requires
            e16 == e8 * e8,
            e8 == 0x1_0000000000000000,
    ;
    assert(e32 == 0x1_0000000000000000_0000000000000000_0000000000000000_0000000000000000)
        by (nonlinear_arith)
        requires
            e32 == e16 * e16,
            e16 == 0x1_0000000000000000_0000000000000000,
    ;
    assert(e64
        == 0x1_0000000000000000_0000000000000000_0000000000000000_0000000000000000_0000000000000000_0000000000000000_0000000000000000_0000000000000000)
        by (nonlinear_arith)
        requires
            e64 == e32 * e32,
            e32 == 0x1_0000000000000000_0000000000000000_0000000000000000_0000000000000000,
    ;
}

} // verus!
