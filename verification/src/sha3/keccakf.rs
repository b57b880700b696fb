//! The permutation Keccak-f[1600] of FIPS 202: 24 rounds of theta, rho, pi,
//! chi and iota on 25 lanes of 64 bits. Lane `(x, y)` stands at index
//! `x + 5 * y`.

use vstd::prelude::*;

verus! {

/// Rotation of a lane to the left by `n` bits, `n` below 64.
pub open spec fn rotl64(x: u64, n: u64) -> u64 {
    if n == 0 {
        x
    } else {
        (x << n) | (x >> ((64 - n) as u64))
    }
}

/// The rotation offsets of rho, by lane index.
pub open spec fn rho_offsets() -> Seq<u64> {
    seq![
        0u64, 1, 62, 28, 27,
        36, 44, 6, 55, 20,
        3, 10, 43, 25, 39,
        41, 45, 15, 21, 8,
        18, 2, 61, 56, 14,
    ]
}

/// The round constants of iota.
pub open spec fn round_constants() -> Seq<u64> {
    seq![
        0x0000000000000001u64, 0x0000000000008082, 0x800000000000808A, 0x8000000080008000,
        0x000000000000808B, 0x0000000080000001, 0x8000000080008081, 0x8000000000008009,
        0x000000000000008A, 0x0000000000000088, 0x0000000080008009, 0x000000008000000A,
        0x000000008000808B, 0x800000000000008B, 0x8000000000008089, 0x8000000000008003,
        0x8000000000008002, 0x8000000000000080, 0x000000000000800A, 0x800000008000000A,
        0x8000000080008081, 0x8000000000008080, 0x0000000080000001, 0x8000000080008008,
    ]
}

/// The parity of column `x`.
pub open spec fn column_parity(a: Seq<u64>, x: int) -> u64 {
    a[x] ^ a[x + 5] ^ a[x + 10] ^ a[x + 15] ^ a[x + 20]
}

/// What theta XORs into every lane of column `x`.
pub open spec fn theta_effect(a: Seq<u64>, x: int) -> u64 {
    column_parity(a, (x + 4) % 5) ^ rotl64(column_parity(a, (x + 1) % 5), 1)
}

/// Every lane XORed with the parities of the two columns beside its own.
pub open spec fn theta(a: Seq<u64>) -> Seq<u64> {
    Seq::new(25, |i: int| a[i] ^ theta_effect(a, i % 5))
}

/// Every lane rotated by its offset.
pub open spec fn rho(a: Seq<u64>) -> Seq<u64> {
    Seq::new(25, |i: int| rotl64(a[i], rho_offsets()[i]))
}

/// Lane `(x, y)` takes the value of lane `((x + 3y) mod 5, x)`.
pub open spec fn pi(a: Seq<u64>) -> Seq<u64> {
    Seq::new(25, |i: int| a[(i % 5 + 3 * (i / 5)) % 5 + 5 * (i % 5)])
}

/// Every lane XORed with the AND of the next lane of its row, negated, and
/// the one after that.
pub open spec fn chi(a: Seq<u64>) -> Seq<u64> {
    Seq::new(
        25,
        |i: int| a[i] ^ ((!a[(i % 5 + 1) % 5 + 5 * (i / 5)]) & a[(i % 5 + 2) % 5 + 5 * (i / 5)]),
    )
}

/// The constant of the round XORed into lane `(0, 0)`.
pub open spec fn iota(a: Seq<u64>, round: int) -> Seq<u64> {
    a.update(0, a[0] ^ round_constants()[round])
}

/// One round of the permutation.
pub open spec fn keccak_round(a: Seq<u64>, round: int) -> Seq<u64> {
    iota(chi(pi(rho(theta(a)))), round)
}

/// The first `n` rounds of the permutation.
pub open spec fn keccak_rounds(a: Seq<u64>, n: nat) -> Seq<u64>
    decreases n,
{
    if n == 0 {
        a
    } else {
        keccak_round(keccak_rounds(a, (n - 1) as nat), n - 1)
    }
}

/// Keccak-f[1600] on a state of 25 lanes.
pub open spec fn spec_keccakf_1600(a: Seq<u64>) -> Seq<u64> {
    keccak_rounds(a, 24)
}

/// The permutation keeps the number of lanes.
pub proof fn lemma_keccak_rounds_len(a: Seq<u64>, n: nat)
    requires
        a.len() == 25,
    ensures
        keccak_rounds(a, n).len() == 25,
    decreases n,
{
    if n > 0 {
        lemma_keccak_rounds_len(a, (n - 1) as nat);
    }
}

/// The lane rotated to the left by `n` bits.
fn rotate_left(x: u64, n: u64) -> (r: u64)
    requires
        n < 64,
    ensures
        r == rotl64(x, n),
{
    if n == 0 {
        x
    } else {
        (x << n) | (x >> (64 - n))
    }
}

/// Theta, rho and pi in one step, written out lane by lane: lane `(x, y)`
/// takes the rotated lane `((x + 3y) mod 5, x)`.
fn theta_rho_pi_step(a: &[u64; 25]) -> (r: [u64; 25])
    ensures
        r@ == pi(rho(theta(a@))),
{
    let c0 = a[0] ^ a[5] ^ a[10] ^ a[15] ^ a[20];
    let c1 = a[1] ^ a[6] ^ a[11] ^ a[16] ^ a[21];
    let c2 = a[2] ^ a[7] ^ a[12] ^ a[17] ^ a[22];
    let c3 = a[3] ^ a[8] ^ a[13] ^ a[18] ^ a[23];
    let c4 = a[4] ^ a[9] ^ a[14] ^ a[19] ^ a[24];
    let d0 = c4 ^ rotate_left(c1, 1);
    let d1 = c0 ^ rotate_left(c2, 1);
    let d2 = c1 ^ rotate_left(c3, 1);
    let d3 = c2 ^ rotate_left(c4, 1);
    let d4 = c3 ^ rotate_left(c0, 1);
    assert(d0 == theta_effect(a@, 0));
    assert(d1 == theta_effect(a@, 1));
    assert(d2 == theta_effect(a@, 2));
    assert(d3 == theta_effect(a@, 3));
    assert(d4 == theta_effect(a@, 4));
    let b0 = rotate_left(a[0] ^ d0, 0);
    assert(b0 == pi(rho(theta(a@)))[0]) by {
        assert(theta(a@)[0] == a[0] ^ d0);
        assert(rho(theta(a@))[0] == rotl64(theta(a@)[0], 0));
    }
    let b1 = rotate_left(a[6] ^ d1, 44);
    assert(b1 == pi(rho(theta(a@)))[1]) by {
        assert(theta(a@)[6] == a[6] ^ d1);
        assert(rho(theta(a@))[6] == rotl64(theta(a@)[6], 44));
    }
    let b2 = rotate_left(a[12] ^ d2, 43);
    assert(b2 == pi(rho(theta(a@)))[2]) by {
        assert(theta(a@)[12] == a[12] ^ d2);
        assert(rho(theta(a@))[12] == rotl64(theta(a@)[12], 43));
    }
    let b3 = rotate_left(a[18] ^ d3, 21);
    assert(b3 == pi(rho(theta(a@)))[3]) by {
        assert(theta(a@)[18] == a[18] ^ d3);
        assert(rho(theta(a@))[18] == rotl64(theta(a@)[18], 21));
    }
    let b4 = rotate_left(a[24] ^ d4, 14);
    assert(b4 == pi(rho(theta(a@)))[4]) by {
        assert(theta(a@)[24] == a[24] ^ d4);
        assert(rho(theta(a@))[24] == rotl64(theta(a@)[24], 14));
    }
    let b5 = rotate_left(a[3] ^ d3, 28);
    assert(b5 == pi(rho(theta(a@)))[5]) by {
        assert(theta(a@)[3] == a[3] ^ d3);
        assert(rho(theta(a@))[3] == rotl64(theta(a@)[3], 28));
    }
    let b6 = rotate_left(a[9] ^ d4, 20);
    assert(b6 == pi(rho(theta(a@)))[6]) by {
        assert(theta(a@)[9] == a[9] ^ d4);
        assert(rho(theta(a@))[9] == rotl64(theta(a@)[9], 20));
    }
    let b7 = rotate_left(a[10] ^ d0, 3);
    assert(b7 == pi(rho(theta(a@)))[7]) by {
        assert(theta(a@)[10] == a[10] ^ d0);
        assert(rho(theta(a@))[10] == rotl64(theta(a@)[10], 3));
    }
    let b8 = rotate_left(a[16] ^ d1, 45);
    assert(b8 == pi(rho(theta(a@)))[8]) by {
        assert(theta(a@)[16] == a[16] ^ d1);
        assert(rho(theta(a@))[16] == rotl64(theta(a@)[16], 45));
    }
    let b9 = rotate_left(a[22] ^ d2, 61);
    assert(b9 == pi(rho(theta(a@)))[9]) by {
        assert(theta(a@)[22] == a[22] ^ d2);
        assert(rho(theta(a@))[22] == rotl64(theta(a@)[22], 61));
    }
    let b10 = rotate_left(a[1] ^ d1, 1);
    assert(b10 == pi(rho(theta(a@)))[10]) by {
        assert(theta(a@)[1] == a[1] ^ d1);
        assert(rho(theta(a@))[1] == rotl64(theta(a@)[1], 1));
    }
    let b11 = rotate_left(a[7] ^ d2, 6);
    assert(b11 == pi(rho(theta(a@)))[11]) by {
        assert(theta(a@)[7] == a[7] ^ d2);
        assert(rho(theta(a@))[7] == rotl64(theta(a@)[7], 6));
    }
    let b12 = rotate_left(a[13] ^ d3, 25);
    assert(b12 == pi(rho(theta(a@)))[12]) by {
        assert(theta(a@)[13] == a[13] ^ d3);
        assert(rho(theta(a@))[13] == rotl64(theta(a@)[13], 25));
    }
    let b13 = rotate_left(a[19] ^ d4, 8);
    assert(b13 == pi(rho(theta(a@)))[13]) by {
        assert(theta(a@)[19] == a[19] ^ d4);
        assert(rho(theta(a@))[19] == rotl64(theta(a@)[19], 8));
    }
    let b14 = rotate_left(a[20] ^ d0, 18);
    assert(b14 == pi(rho(theta(a@)))[14]) by {
        assert(theta(a@)[20] == a[20] ^ d0);
        assert(rho(theta(a@))[20] == rotl64(theta(a@)[20], 18));
    }
    let b15 = rotate_left(a[4] ^ d4, 27);
    assert(b15 == pi(rho(theta(a@)))[15]) by {
        assert(theta(a@)[4] == a[4] ^ d4);
        assert(rho(theta(a@))[4] == rotl64(theta(a@)[4], 27));
    }
    let b16 = rotate_left(a[5] ^ d0, 36);
    assert(b16 == pi(rho(theta(a@)))[16]) by {
        assert(theta(a@)[5] == a[5] ^ d0);
        assert(rho(theta(a@))[5] == rotl64(theta(a@)[5], 36));
    }
    let b17 = rotate_left(a[11] ^ d1, 10);
    assert(b17 == pi(rho(theta(a@)))[17]) by {
        assert(theta(a@)[11] == a[11] ^ d1);
        assert(rho(theta(a@))[11] == rotl64(theta(a@)[11], 10));
    }
    let b18 = rotate_left(a[17] ^ d2, 15);
    assert(b18 == pi(rho(theta(a@)))[18]) by {
        assert(theta(a@)[17] == a[17] ^ d2);
        assert(rho(theta(a@))[17] == rotl64(theta(a@)[17], 15));
    }
    let b19 = rotate_left(a[23] ^ d3, 56);
    assert(b19 == pi(rho(theta(a@)))[19]) by {
        assert(theta(a@)[23] == a[23] ^ d3);
        assert(rho(theta(a@))[23] == rotl64(theta(a@)[23], 56));
    }
    let b20 = rotate_left(a[2] ^ d2, 62);
    assert(b20 == pi(rho(theta(a@)))[20]) by {
        assert(theta(a@)[2] == a[2] ^ d2);
        assert(rho(theta(a@))[2] == rotl64(theta(a@)[2], 62));
    }
    let b21 = rotate_left(a[8] ^ d3, 55);
    assert(b21 == pi(rho(theta(a@)))[21]) by {
        assert(theta(a@)[8] == a[8] ^ d3);
        assert(rho(theta(a@))[8] == rotl64(theta(a@)[8], 55));
    }
    let b22 = rotate_left(a[14] ^ d4, 39);
    assert(b22 == pi(rho(theta(a@)))[22]) by {
        assert(theta(a@)[14] == a[14] ^ d4);
        assert(rho(theta(a@))[14] == rotl64(theta(a@)[14], 39));
    }
    let b23 = rotate_left(a[15] ^ d0, 41);
    assert(b23 == pi(rho(theta(a@)))[23]) by {
        assert(theta(a@)[15] == a[15] ^ d0);
        assert(rho(theta(a@))[15] == rotl64(theta(a@)[15], 41));
    }
    let b24 = rotate_left(a[21] ^ d1, 2);
    assert(b24 == pi(rho(theta(a@)))[24]) by {
        assert(theta(a@)[21] == a[21] ^ d1);
        assert(rho(theta(a@))[21] == rotl64(theta(a@)[21], 2));
    }
    let r: [u64; 25] = [
        b0, b1, b2, b3, b4,
        b5, b6, b7, b8, b9,
        b10, b11, b12, b13, b14,
        b15, b16, b17, b18, b19,
        b20, b21, b22, b23, b24,
    ];
    assert(r@ =~= pi(rho(theta(a@))));
    r
}

/// Chi and iota, written out lane by lane.
fn chi_iota_step(b: &[u64; 25], round: usize) -> (r: [u64; 25])
    requires
        round < 24,
    ensures
        r@ == iota(chi(b@), round as int),
{
    let constants: [u64; 24] = [
        0x0000000000000001, 0x0000000000008082, 0x800000000000808A, 0x8000000080008000,
        0x000000000000808B, 0x0000000080000001, 0x8000000080008081, 0x8000000000008009,
        0x000000000000008A, 0x0000000000000088, 0x0000000080008009, 0x000000008000000A,
        0x000000008000808B, 0x800000000000008B, 0x8000000000008089, 0x8000000000008003,
        0x8000000000008002, 0x8000000000000080, 0x000000000000800A, 0x800000008000000A,
        0x8000000080008081, 0x8000000000008080, 0x0000000080000001, 0x8000000080008008,
    ];
    assert(constants@ =~= round_constants());
    let e0 = b[0] ^ ((!b[1]) & b[2]);
    assert(e0 == chi(b@)[0]);
    let e1 = b[1] ^ ((!b[2]) & b[3]);
    assert(e1 == chi(b@)[1]);
    let e2 = b[2] ^ ((!b[3]) & b[4]);
    assert(e2 == chi(b@)[2]);
    let e3 = b[3] ^ ((!b[4]) & b[0]);
    assert(e3 == chi(b@)[3]);
    let e4 = b[4] ^ ((!b[0]) & b[1]);
    assert(e4 == chi(b@)[4]);
    let e5 = b[5] ^ ((!b[6]) & b[7]);
    assert(e5 == chi(b@)[5]);
    let e6 = b[6] ^ ((!b[7]) & b[8]);
    assert(e6 == chi(b@)[6]);
    let e7 = b[7] ^ ((!b[8]) & b[9]);
    assert(e7 == chi(b@)[7]);
    let e8 = b[8] ^ ((!b[9]) & b[5]);
    assert(e8 == chi(b@)[8]);
    let e9 = b[9] ^ ((!b[5]) & b[6]);
    assert(e9 == chi(b@)[9]);
    let e10 = b[10] ^ ((!b[11]) & b[12]);
    assert(e10 == chi(b@)[10]);
    let e11 = b[11] ^ ((!b[12]) & b[13]);
    assert(e11 == chi(b@)[11]);
    let e12 = b[12] ^ ((!b[13]) & b[14]);
    assert(e12 == chi(b@)[12]);
    let e13 = b[13] ^ ((!b[14]) & b[10]);
    assert(e13 == chi(b@)[13]);
    let e14 = b[14] ^ ((!b[10]) & b[11]);
    assert(e14 == chi(b@)[14]);
    let e15 = b[15] ^ ((!b[16]) & b[17]);
    assert(e15 == chi(b@)[15]);
    let e16 = b[16] ^ ((!b[17]) & b[18]);
    assert(e16 == chi(b@)[16]);
    let e17 = b[17] ^ ((!b[18]) & b[19]);
    assert(e17 == chi(b@)[17]);
    let e18 = b[18] ^ ((!b[19]) & b[15]);
    assert(e18 == chi(b@)[18]);
    let e19 = b[19] ^ ((!b[15]) & b[16]);
    assert(e19 == chi(b@)[19]);
    let e20 = b[20] ^ ((!b[21]) & b[22]);
    assert(e20 == chi(b@)[20]);
    let e21 = b[21] ^ ((!b[22]) & b[23]);
    assert(e21 == chi(b@)[21]);
    let e22 = b[22] ^ ((!b[23]) & b[24]);
    assert(e22 == chi(b@)[22]);
    let e23 = b[23] ^ ((!b[24]) & b[20]);
    assert(e23 == chi(b@)[23]);
    let e24 = b[24] ^ ((!b[20]) & b[21]);
    assert(e24 == chi(b@)[24]);
    let r: [u64; 25] = [
        e0 ^ constants[round], e1, e2, e3, e4,
        e5, e6, e7, e8, e9,
        e10, e11, e12, e13, e14,
        e15, e16, e17, e18, e19,
        e20, e21, e22, e23, e24,
    ];
    assert(r@ =~= iota(chi(b@), round as int));
    r
}

/// Applies Keccak-f[1600] to the state.
pub fn keccakf_1600(state: &mut [u64; 25])
    ensures
        final(state)@ == spec_keccakf_1600(old(state)@),
{
    let mut round: usize = 0;
    while round < 24
        invariant
            round <= 24,
            state@ == keccak_rounds(old(state)@, round as nat),
        decreases 24 - round,
    {
        let b = theta_rho_pi_step(state);
        *state = chi_iota_step(&b, round);
        round += 1;
    }
}

} // verus!
