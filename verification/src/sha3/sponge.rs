//! The sponge construction over Keccak-f[1600]: padding, absorbing and
//! squeezing, with the rate counted in bytes.

use crate::sha3::keccakf::{keccakf_1600, spec_keccakf_1600};
use vstd::prelude::*;

verus! {

/// The state that every absorption starts from: 25 lanes of zero.
pub open spec fn zero_state() -> Seq<u64> {
    Seq::new(25, |i: int| 0u64)
}

/// The number of zero bytes between the domain byte and the end of the last
/// block.
pub open spec fn fill_len(input_len: nat, rate: nat) -> nat {
    if (input_len + 1) % rate == 0 {
        0
    } else {
        (rate - (input_len + 1) % rate) as nat
    }
}

/// The message as it is absorbed: the input, the domain byte, zero bytes up
/// to a multiple of the rate, and the top bit of the last byte set. Where one
/// byte fills the block, that byte is the domain byte with its top bit set.
pub open spec fn pad_message(input: Seq<u8>, domain: u8, rate: nat) -> Seq<u8> {
    let body = input.push(domain) + Seq::new(fill_len(input.len(), rate), |i: int| 0u8);
    body.update(body.len() - 1, body.last() | 0x80)
}

/// Byte `k` of a block, as a lane value; zero beyond the end of the block.
pub open spec fn block_byte(block: Seq<u8>, k: int) -> u64 {
    if 0 <= k < block.len() {
        block[k] as u64
    } else {
        0
    }
}

/// Lane `i` of a block: eight bytes, the first of them lowest.
pub open spec fn block_lane(block: Seq<u8>, i: int) -> u64 {
    block_byte(block, 8 * i) | (block_byte(block, 8 * i + 1) << 8) | (block_byte(
        block,
        8 * i + 2,
    ) << 16) | (block_byte(block, 8 * i + 3) << 24) | (block_byte(block, 8 * i + 4) << 32) | (
    block_byte(block, 8 * i + 5) << 40) | (block_byte(block, 8 * i + 6) << 48) | (block_byte(
        block,
        8 * i + 7,
    ) << 56)
}

/// The state with a block XORed into its first bytes.
pub open spec fn xor_block(state: Seq<u64>, block: Seq<u8>) -> Seq<u64> {
    Seq::new(25, |i: int| state[i] ^ block_lane(block, i))
}

/// The state after the blocks of `padded` have been absorbed one by one.
pub open spec fn absorb_blocks(state: Seq<u64>, padded: Seq<u8>, rate: nat) -> Seq<u64>
    decreases padded.len(),
{
    if rate == 0 || padded.len() < rate {
        state
    } else {
        absorb_blocks(
            spec_keccakf_1600(xor_block(state, padded.subrange(0, rate as int))),
            padded.subrange(rate as int, padded.len() as int),
            rate,
        )
    }
}

/// The state after `input` and the domain byte have been absorbed at the
/// given rate.
pub open spec fn spec_sponge_absorb(input: Seq<u8>, domain: u8, rate: nat) -> Seq<u64> {
    absorb_blocks(zero_state(), pad_message(input, domain, rate), rate)
}

/// Byte `k` of the state: lanes in order, the lowest byte of a lane first.
pub open spec fn state_byte(state: Seq<u64>, k: int) -> u8 {
    ((state[k / 8] >> ((8 * (k % 8)) as u64)) & 0xff) as u8
}

/// The first `n` bytes of the state.
pub open spec fn state_bytes(state: Seq<u64>, n: nat) -> Seq<u8> {
    Seq::new(n, |k: int| state_byte(state, k))
}

/// `n` bytes of output: the first `rate` bytes of the state, then the
/// permutation, and so on.
pub open spec fn spec_sponge_squeeze(state: Seq<u64>, n: nat, rate: nat) -> Seq<u8>
    decreases n,
{
    if rate == 0 || n <= rate {
        state_bytes(state, n)
    } else {
        state_bytes(state, rate) + spec_sponge_squeeze(
            spec_keccakf_1600(state),
            (n - rate) as nat,
            rate,
        )
    }
}

/// The sponge as a whole: absorb at `rate` bytes, squeeze `n` bytes.
pub open spec fn spec_sponge(input: Seq<u8>, domain: u8, rate: nat, n: nat) -> Seq<u8> {
    spec_sponge_squeeze(spec_sponge_absorb(input, domain, rate), n, rate)
}

/// The padded message is longer than the message, and its length is a
/// multiple of the rate.
pub proof fn lemma_pad_message_len(input: Seq<u8>, domain: u8, rate: nat)
    requires
        rate > 0,
    ensures
        pad_message(input, domain, rate).len() == input.len() + 1 + fill_len(input.len(), rate),
        pad_message(input, domain, rate).len() % rate == 0,
        pad_message(input, domain, rate).len() > input.len(),
{
    let n = (input.len() + 1) as int;
    let r = rate as int;
    vstd::arithmetic::div_mod::lemma_fundamental_div_mod(n, r);
    if n % r != 0 {
        assert(n + (r - n % r) == (n / r + 1) * r) by (nonlinear_arith)
            requires
                n == r * (n / r) + n % r,
        ;
        vstd::arithmetic::div_mod::lemma_mod_multiples_basic(n / r + 1, r);
    }
}

/// Squeezing `n` bytes gives `n` bytes.
pub proof fn lemma_squeeze_len(state: Seq<u64>, n: nat, rate: nat)
    ensures
        spec_sponge_squeeze(state, n, rate).len() == n,
    decreases n,
{
    if !(rate == 0 || n <= rate) {
        lemma_squeeze_len(spec_keccakf_1600(state), (n - rate) as nat, rate);
    }
}

/// The message with its padding, as a buffer of its own.
fn pad(input: &Vec<u8>, domain: u8, rate: usize) -> (r: Vec<u8>)
    requires
        0 < rate <= 200,
    ensures
        r@ == pad_message(input@, domain, rate as nat),
        r@.len() % (rate as nat) == 0,
{
    let mut out: Vec<u8> = Vec::new();
    let mut i: usize = 0;
    while i < input.len()
        invariant
            i <= input.len(),
            out@ == input@.subrange(0, i as int),
        decreases input.len() - i,
    {
        out.push(input[i]);
        assert(out@ =~= input@.subrange(0, i + 1));
        i += 1;
    }
    assert(input@.subrange(0, input.len() as int) =~= input@);
    out.push(domain);
    let ghost head = out@;
    let rem = out.len() % rate;
    let fill: usize = if rem == 0 {
        0
    } else {
        rate - rem
    };
    let mut k: usize = 0;
    while k < fill
        invariant
            k <= fill,
            out@ == head + Seq::new(k as nat, |i: int| 0u8),
        decreases fill - k,
    {
        out.push(0);
        assert(out@ =~= head + Seq::new((k + 1) as nat, |i: int| 0u8));
        k += 1;
    }
    let last = out.len() - 1;
    let top = out[last] | 0x80;
    out.set(last, top);
    proof {
        lemma_pad_message_len(input@, domain, rate as nat);
        assert(out@ =~= pad_message(input@, domain, rate as nat));
    }
    out
}

/// Byte `k` of the block that starts at `offset`, as a lane value.
fn load_byte(buf: &Vec<u8>, offset: usize, rate: usize, k: usize) -> (r: u64)
    requires
        offset + rate <= buf@.len(),
        k < 200,
    ensures
        r == block_byte(buf@.subrange(offset as int, offset + rate), k as int),
{
    let n = buf.len();
    if k < rate {
        assert(offset + k < n);
        buf[offset + k] as u64
    } else {
        0
    }
}

/// XORs the block that starts at `offset` into the state.
fn absorb_block(state: &mut [u64; 25], buf: &Vec<u8>, offset: usize, rate: usize)
    requires
        0 < rate <= 200,
        offset + rate <= buf@.len(),
    ensures
        final(state)@ == xor_block(old(state)@, buf@.subrange(offset as int, offset + rate)),
{
    let ghost block = buf@.subrange(offset as int, offset + rate);
    let mut i: usize = 0;
    while i < 25
        invariant
            i <= 25,
            0 < rate <= 200,
            offset + rate <= buf@.len(),
            block == buf@.subrange(offset as int, offset + rate),
            forall|j: int| 0 <= j < i ==> state@[j] == old(state)@[j] ^ block_lane(block, j),
            forall|j: int| i <= j < 25 ==> state@[j] == old(state)@[j],
        decreases 25 - i,
    {
        let b0 = load_byte(buf, offset, rate, 8 * i);
        let b1 = load_byte(buf, offset, rate, 8 * i + 1);
        let b2 = load_byte(buf, offset, rate, 8 * i + 2);
        let b3 = load_byte(buf, offset, rate, 8 * i + 3);
        let b4 = load_byte(buf, offset, rate, 8 * i + 4);
        let b5 = load_byte(buf, offset, rate, 8 * i + 5);
        let b6 = load_byte(buf, offset, rate, 8 * i + 6);
        let b7 = load_byte(buf, offset, rate, 8 * i + 7);
        let lane = b0 | (b1 << 8) | (b2 << 16) | (b3 << 24) | (b4 << 32) | (b5 << 40) | (b6 << 48)
            | (b7 << 56);
        state[i] = state[i] ^ lane;
        i += 1;
    }
    assert(state@ =~= xor_block(old(state)@, block));
}

/// Absorbing a message of at least one block is absorbing its first block
/// and then the rest.
proof fn lemma_absorb_step(state: Seq<u64>, padded: Seq<u8>, offset: int, rate: nat)
    requires
        rate > 0,
        0 <= offset,
        offset + rate <= padded.len(),
    ensures
        absorb_blocks(state, padded.subrange(offset, padded.len() as int), rate) == absorb_blocks(
            spec_keccakf_1600(xor_block(state, padded.subrange(offset, offset + rate))),
            padded.subrange(offset + rate, padded.len() as int),
            rate,
        ),
{
    let rest = padded.subrange(offset, padded.len() as int);
    assert(rest.subrange(0, rate as int) =~= padded.subrange(offset, offset + rate));
    assert(rest.subrange(rate as int, rest.len() as int) =~= padded.subrange(
        offset + rate,
        padded.len() as int,
    ));
}

/// Absorbs `input`, the domain byte and the padding into a fresh state.
/// The capacity is given in bits: a multiple of 8 below 1600.
pub fn sponge_absorb(input: &Vec<u8>, domain: u8, capacity: u64) -> (r: [u64; 25])
    requires
        capacity < 1600,
        capacity % 8 == 0,
    ensures
        r@ == spec_sponge_absorb(input@, domain, ((1600 - capacity) / 8) as nat),
{
    let rate: usize = ((1600 - capacity) / 8) as usize;
    let padded = pad(input, domain, rate);
    let mut state: [u64; 25] = [0; 25];
    assert(state@ =~= zero_state());
    assert(padded@.subrange(0, padded@.len() as int) =~= padded@);
    let n = padded.len();
    let mut offset: usize = 0;
    while n - offset >= rate
        invariant
            0 < rate <= 200,
            n == padded@.len(),
            offset <= n,
            absorb_blocks(state@, padded@.subrange(offset as int, n as int), rate as nat)
                == absorb_blocks(zero_state(), padded@, rate as nat),
        decreases n - offset,
    {
        proof {
            lemma_absorb_step(state@, padded@, offset as int, rate as nat);
        }
        absorb_block(&mut state, &padded, offset, rate);
        keccakf_1600(&mut state);
        offset += rate;
    }
    state
}

/// Squeezes `bit_length / 8` bytes out of the state. The rate is given in
/// bits: a multiple of 8 from 8 to 1600. The state itself is left as it was.
pub fn sponge_squeeze(state: &[u64; 25], bit_length: u64, rate: u64) -> (r: Vec<u8>)
    requires
        0 < rate <= 1600,
        rate % 8 == 0,
        bit_length / 8 <= usize::MAX,
    ensures
        r@ == spec_sponge_squeeze(state@, (bit_length / 8) as nat, (rate / 8) as nat),
        r@.len() == bit_length / 8,
{
    let total: usize = (bit_length / 8) as usize;
    let block: usize = (rate / 8) as usize;
    let mut st: [u64; 25] = *state;
    let mut out: Vec<u8> = Vec::new();
    let mut remaining: usize = total;
    assert(out@ + spec_sponge_squeeze(st@, remaining as nat, block as nat)
        =~= spec_sponge_squeeze(state@, total as nat, block as nat));
    while remaining > block
        invariant
            0 < block <= 200,
            remaining <= total,
            out@ + spec_sponge_squeeze(st@, remaining as nat, block as nat) == spec_sponge_squeeze(
                state@,
                total as nat,
                block as nat,
            ),
        decreases remaining,
    {
        let ghost before = out@;
        let ghost head = state_bytes(st@, block as nat);
        let ghost tail = spec_sponge_squeeze(
            spec_keccakf_1600(st@),
            (remaining - block) as nat,
            block as nat,
        );
        assert(spec_sponge_squeeze(st@, remaining as nat, block as nat) == head + tail);
        push_state_bytes(&mut out, &st, block);
        keccakf_1600(&mut st);
        remaining -= block;
        assert(out@ + tail =~= before + (head + tail));
    }
    push_state_bytes(&mut out, &st, remaining);
    proof {
        lemma_squeeze_len(state@, total as nat, block as nat);
    }
    out
}

/// Appends the first `n` bytes of the state to `out`.
fn push_state_bytes(out: &mut Vec<u8>, state: &[u64; 25], n: usize)
    requires
        n <= 200,
    ensures
        final(out)@ == old(out)@ + state_bytes(state@, n as nat),
{
    let mut k: usize = 0;
    while k < n
        invariant
            k <= n,
            n <= 200,
            out@ == old(out)@ + state_bytes(state@, k as nat),
        decreases n - k,
    {
        let lane = state[k / 8];
        let shift: u64 = (8 * (k % 8)) as u64;
        let b = ((lane >> shift) & 0xff) as u8;
        out.push(b);
        assert(out@ =~= old(out)@ + state_bytes(state@, (k + 1) as nat));
        k += 1;
    }
}

} // verus!
