//! Nonnegative integers of any size, held as digits in base 2^32. The arithmetic
//! itself is done by `num_bigint::BigUint`; this module states what each of
//! its operations returns and builds the modular arithmetic of the curves on
//! top of that. A number goes into `BigUint` by `BigUint::from_slice` and
//! comes out by `BigUint::to_u32_digits`, which both take the digits in base
//! 2^32 with the least significant digit first.

use crate::numeric::{
    be_bytes, be_bytes_fixed, be_value, lemma_be_bytes_fixed_len, lemma_be_bytes_fixed_of_value,
    lemma_be_bytes_minimal, lemma_be_bytes_of_minimal, lemma_be_value_bound,
    lemma_be_value_concat, lemma_be_value_lower, lemma_be_value_msb, lemma_be_value_of_be_bytes,
    lemma_be_value_of_be_bytes_fixed, lemma_be_value_single, lemma_be_value_strip,
    lemma_be_value_zeros, lemma_pow256_8, lemma_pow256_monotonic, lemma_pow256_step, pow256,
};
use num_bigint::BigUint;
use vstd::arithmetic::div_mod::{
    lemma_mod_add_multiples_vanish, lemma_mul_mod_noop_general, lemma_small_mod,
    lemma_sub_mod_noop,
};
use vstd::arithmetic::mul::{lemma_mul_is_associative, lemma_mul_is_commutative};
use vstd::arithmetic::power::pow;
use vstd::prelude::*;

verus! {

/// A nonnegative integer. The digits are in base 2^32, the least significant
/// first; zero digits at the end are allowed and mean nothing.
#[derive(Debug)]
pub struct BigNat {
    pub digits: Vec<u32>,
}

/// The number that a row of digits in base 2^32 denotes, the least
/// significant digit first.
pub open spec fn digits_value(d: Seq<u32>) -> nat
    decreases d.len(),
{
    if d.len() == 0 {
        0
    } else {
        d[0] as nat + 0x1_0000_0000 * digits_value(d.drop_first())
    }
}

impl View for BigNat {
    type V = nat;

    open spec fn view(&self) -> nat {
        digits_value(self.digits@)
    }
}

impl Clone for BigNat {
    fn clone(&self) -> (r: Self)
        ensures
            r.digits@ == self.digits@,
            r@ == self@,
    {
        let digits = self.digits.clone();
        assert(digits@ =~= self.digits@);
        BigNat { digits }
    }
}

/// A row of zero digits denotes zero.
pub proof fn lemma_digits_value_zeros(d: Seq<u32>)
    requires
        forall|i: int| 0 <= i < d.len() ==> d[i] == 0,
    ensures
        digits_value(d) == 0,
    decreases d.len(),
{
    if d.len() > 0 {
        lemma_digits_value_zeros(d.drop_first());
    }
}

/// The value of the digits from index `k` on is the digit at `k` plus 2^32
/// times the value of the digits behind it.
pub proof fn lemma_digits_value_step(d: Seq<u32>, k: int)
    requires
        0 <= k < d.len(),
    ensures
        digits_value(d.subrange(k, d.len() as int)) == d[k] as nat + 0x1_0000_0000 * digits_value(
            d.subrange(k + 1, d.len() as int),
        ),
{
    let top = d.subrange(k, d.len() as int);
    assert(top.drop_first() =~= d.subrange(k + 1, d.len() as int));
    assert(top[0] == d[k]);
}

/// The number that the first `i` of a row of 64-bit limbs denote, the first
/// limb being the highest.
pub open spec fn limbs_value(limbs: Seq<u64>, i: nat) -> nat
    decreases i,
{
    if i == 0 {
        0
    } else {
        limbs_value(limbs, (i - 1) as nat) * 0x1_0000_0000_0000_0000 + limbs[i - 1] as nat
    }
}

/// `(a - b) mod m`, taken from `[0, m)` whatever the sign of `a - b`.
pub open spec fn sub_mod(a: nat, b: nat, m: nat) -> nat {
    ((a as int - b as int) % (m as int)) as nat
}

/// `x` is the inverse of `a` modulo `m`, taken from `[0, m)`.
pub open spec fn is_inverse(a: nat, x: nat, m: nat) -> bool {
    x < m && (a * x) % m == 1nat % m
}

/// The inverse of `a` modulo `m` where there is one, and zero where there is
/// none (as for `a = 0`, or for an `a` that shares a factor with `m`).
pub open spec fn mod_inverse(a: nat, m: nat) -> nat {
    if exists|x: nat| is_inverse(a, x, m) {
        choose|x: nat| is_inverse(a, x, m)
    } else {
        0
    }
}

/// Sum of two numbers, by `BigUint`'s `+`: the result denotes the sum of what
/// the arguments denote.
#[verifier::external_body]
pub(crate) fn big_add(a: &BigNat, b: &BigNat) -> (r: BigNat)
    ensures
        r@ == a@ + b@,
{
    let x = BigUint::from_slice(&a.digits);
    let y = BigUint::from_slice(&b.digits);
    BigNat { digits: (x + y).to_u32_digits() }
}

/// Difference of two numbers, by `BigUint`'s `-`, which panics when the
/// result would be negative: that case is left out.
#[verifier::external_body]
pub(crate) fn big_sub(a: &BigNat, b: &BigNat) -> (r: BigNat)
    requires
        a@ >= b@,
    ensures
        r@ == a@ - b@,
{
    let x = BigUint::from_slice(&a.digits);
    let y = BigUint::from_slice(&b.digits);
    BigNat { digits: (x - y).to_u32_digits() }
}

/// Product of two numbers, by `BigUint`'s `*`.
#[verifier::external_body]
pub(crate) fn big_mul(a: &BigNat, b: &BigNat) -> (r: BigNat)
    ensures
        r@ == a@ * b@,
{
    let x = BigUint::from_slice(&a.digits);
    let y = BigUint::from_slice(&b.digits);
    BigNat { digits: (x * y).to_u32_digits() }
}

/// Floor of the quotient, by `BigUint`'s `/`, which panics on a zero divisor:
/// that case is left out.
#[verifier::external_body]
pub(crate) fn big_div(a: &BigNat, b: &BigNat) -> (r: BigNat)
    requires
        b@ > 0,
    ensures
        r@ == a@ / b@,
{
    let x = BigUint::from_slice(&a.digits);
    let y = BigUint::from_slice(&b.digits);
    BigNat { digits: (x / y).to_u32_digits() }
}

/// Remainder of the division, by `BigUint`'s `%`, which panics on a zero
/// divisor: that case is left out.
#[verifier::external_body]
pub(crate) fn big_rem(a: &BigNat, m: &BigNat) -> (r: BigNat)
    requires
        m@ > 0,
    ensures
        r@ == a@ % m@,
{
    let x = BigUint::from_slice(&a.digits);
    let y = BigUint::from_slice(&m.digits);
    BigNat { digits: (x % y).to_u32_digits() }
}

/// Modular power, by `BigUint::modpow`, which returns `(a ^ e) % m` and
/// panics on a zero modulus. The modulus 1 is left out as well.
#[verifier::external_body]
pub(crate) fn big_modpow(a: &BigNat, e: &BigNat, m: &BigNat) -> (r: BigNat)
    requires
        m@ > 1,
    ensures
        r@ == pow(a@ as int, e@) % (m@ as int),
{
    let x = BigUint::from_slice(&a.digits);
    let y = BigUint::from_slice(&e.digits);
    let z = BigUint::from_slice(&m.digits);
    BigNat { digits: x.modpow(&y, &z).to_u32_digits() }
}

/// Modular inverse, by `BigUint::modinv`, which panics on a zero modulus and
/// returns the `x` of `[0, m)` with `a * x = 1 (mod m)` if there is one, and
/// `None` if there is none.
#[verifier::external_body]
pub(crate) fn big_modinv(a: &BigNat, m: &BigNat) -> (r: Option<BigNat>)
    requires
        m@ > 0,
    ensures
        match r {
            Some(x) => is_inverse(a@, x@, m@),
            None => forall|x: nat| !is_inverse(a@, x, m@),
        },
{
    let x = BigUint::from_slice(&a.digits);
    let z = BigUint::from_slice(&m.digits);
    match x.modinv(&z) {
        Some(v) => Some(BigNat { digits: v.to_u32_digits() }),
        None => None,
    }
}

/// The decimal digit `d` as a character.
pub open spec fn digit_char(d: nat) -> char {
    ((48 + d) as u8) as char
}

/// The number in decimal digits, without leading zeros; zero is `"0"`.
pub open spec fn decimal_string(x: nat) -> Seq<char>
    decreases x,
{
    if x < 10 {
        seq![digit_char(x)]
    } else {
        decimal_string(x / 10).push(digit_char(x % 10))
    }
}

/// The number in decimal digits, by `BigUint::to_str_radix` with radix 10.
#[verifier::external_body]
pub(crate) fn big_to_decimal(a: &BigNat) -> (r: String)
    ensures
        r@ == decimal_string(a@),
{
    BigUint::from_slice(&a.digits).to_str_radix(10)
}

/// Modulo `m` a number has at most one inverse in `[0, m)`.
pub proof fn lemma_inverse_unique(a: nat, x: nat, y: nat, m: nat)
    requires
        m > 0,
        is_inverse(a, x, m),
        is_inverse(a, y, m),
    ensures
        x == y,
{
    let mi = m as int;
    let ai = a as int;
    let xi = x as int;
    let yi = y as int;
    // x = x * (a * y) = (x * a) * y = y   (mod m)
    lemma_mul_mod_noop_general(xi, ai * yi, mi);
    lemma_mul_mod_noop_general(ai * xi, yi, mi);
    lemma_mul_is_associative(xi, ai, yi);
    lemma_mul_is_commutative(xi, ai);
    assert(xi * (ai * yi) == (ai * xi) * yi);
    assert((xi * ((ai * yi) % mi)) % mi == (xi * (ai * yi)) % mi);
    assert((((ai * xi) % mi) * yi) % mi == ((ai * xi) * yi) % mi);
    assert((ai * yi) % mi == 1int % mi);
    assert((ai * xi) % mi == 1int % mi);
    if m == 1 {
    } else {
        lemma_small_mod(1, m);
        lemma_small_mod(x, m);
        lemma_small_mod(y, m);
        assert(xi * 1 == xi);
        assert(1 * yi == yi);
    }
}

impl BigNat {
    /// The number that the bytes denote, read big-endian.
    pub fn from_bytes_be(bytes: &[u8]) -> (r: BigNat)
        ensures
            r@ == be_value(bytes@),
    {
        let len = bytes.len();
        let lead: usize = 4 - len % 4;
        // The bytes with zero bytes in front, four bytes to a digit.
        let mut padded: Vec<u8> = Vec::new();
        let mut i: usize = 0;
        while i < lead
            invariant
                i <= lead,
                padded@ == Seq::new(i as nat, |j: int| 0u8),
            decreases lead - i,
        {
            padded.push(0);
            assert(padded@ =~= Seq::new((i + 1) as nat, |j: int| 0u8));
            i += 1;
        }
        let ghost zeros = padded@;
        let mut i: usize = 0;
        while i < len
            invariant
                i <= len,
                len == bytes@.len(),
                padded@ == zeros + bytes@.subrange(0, i as int),
            decreases len - i,
        {
            padded.push(bytes[i]);
            assert(padded@ =~= zeros + bytes@.subrange(0, i + 1));
            i += 1;
        }
        proof {
            assert(bytes@.subrange(0, len as int) =~= bytes@);
            lemma_be_value_strip(padded@, lead as int);
            assert(padded@.subrange(lead as int, padded@.len() as int) =~= bytes@);
        }
        let n: usize = padded.len() / 4;
        assert(padded@.len() == 4 * n);
        assert(4 * n <= usize::MAX);
        let mut digits: Vec<u32> = Vec::new();
        let mut i: usize = 0;
        while i < n
            invariant
                i <= n,
                digits@ == Seq::new(i as nat, |j: int| 0u32),
            decreases n - i,
        {
            digits.push(0);
            assert(digits@ =~= Seq::new((i + 1) as nat, |j: int| 0u32));
            i += 1;
        }
        let mut j: usize = 0;
        assert(padded@.subrange(0, 0) =~= Seq::<u8>::empty());
        assert(digits@.subrange(n as int, n as int) =~= Seq::<u32>::empty());
        while j < n
            invariant
                j <= n,
                padded@.len() == 4 * n,
                4 * n <= usize::MAX,
                digits@.len() == n,
                digits_value(digits@.subrange(n - j, n as int)) == be_value(
                    padded@.subrange(0, 4 * j),
                ),
            decreases n - j,
        {
            let b0 = padded[4 * j] as u32;
            let b1 = padded[4 * j + 1] as u32;
            let b2 = padded[4 * j + 2] as u32;
            let b3 = padded[4 * j + 3] as u32;
            let x: u32 = ((b0 * 256 + b1) * 256 + b2) * 256 + b3;
            let ghost before = digits@;
            digits.set(n - 1 - j, x);
            proof {
                let chunk = padded@.subrange(4 * j, 4 * j + 4);
                let head = padded@.subrange(0, 4 * j);
                assert(padded@.subrange(0, 4 * j + 4) =~= head + chunk);
                lemma_be_value_concat(head, chunk);
                reveal_with_fuel(be_value, 5);
                assert(chunk.drop_last().drop_last().drop_last().drop_last().len() == 0);
                assert(be_value(chunk) == x as nat);
                lemma_pow256_step(0);
                lemma_pow256_step(1);
                lemma_pow256_step(2);
                lemma_pow256_step(3);
                assert(pow256(4) == 0x1_0000_0000);
                assert(be_value(head) * pow256(4) == 0x1_0000_0000 * be_value(head))
                    by (nonlinear_arith)
                    requires
                        pow256(4) == 0x1_0000_0000,
                ;
                assert(digits@.subrange(n - j, n as int) =~= before.subrange(n - j, n as int));
                lemma_digits_value_step(digits@, n - 1 - j);
                assert(digits@.subrange(n - 1 - j + 1, n as int) =~= digits@.subrange(
                    n - j,
                    n as int,
                ));
            }
            j += 1;
        }
        proof {
            assert(digits@.subrange(0, n as int) =~= digits@);
            assert(padded@.subrange(0, 4 * n) =~= padded@);
        }
        BigNat { digits }
    }

    /// The number `x`.
    pub fn from_u64(x: u64) -> (r: BigNat)
        ensures
            r@ == x as nat,
    {
        let mut digits: Vec<u32> = Vec::new();
        digits.push((x % 0x1_0000_0000) as u32);
        digits.push((x / 0x1_0000_0000) as u32);
        proof {
            reveal_with_fuel(digits_value, 3);
            assert(digits@.drop_first() =~= seq![(x / 0x1_0000_0000) as u32]);
            assert(digits@.drop_first().drop_first() =~= Seq::<u32>::empty());
        }
        BigNat { digits }
    }

    /// The number that a row of 64-bit limbs denotes, the first limb being
    /// the highest.
    pub fn from_limbs(limbs: &[u64]) -> (r: BigNat)
        ensures
            r@ == limbs_value(limbs@, limbs@.len()),
    {
        let mut v: Vec<u8> = Vec::new();
        let mut i: usize = 0;
        while i < limbs.len()
            invariant
                i <= limbs.len(),
                be_value(v@) == limbs_value(limbs@, i as nat),
            decreases limbs.len() - i,
        {
            let x = limbs[i];
            let x1 = x / 256;
            let x2 = x1 / 256;
            let x3 = x2 / 256;
            let x4 = x3 / 256;
            let x5 = x4 / 256;
            let x6 = x5 / 256;
            let x7 = x6 / 256;
            let ghost before = v@;
            v.push((x7 % 256) as u8);
            v.push((x6 % 256) as u8);
            v.push((x5 % 256) as u8);
            v.push((x4 % 256) as u8);
            v.push((x3 % 256) as u8);
            v.push((x2 % 256) as u8);
            v.push((x1 % 256) as u8);
            v.push((x % 256) as u8);
            proof {
                reveal_with_fuel(be_bytes_fixed, 9);
                assert(v@ =~= before + be_bytes_fixed(x as nat, 8));
                lemma_pow256_8();
                lemma_be_value_of_be_bytes_fixed(x as nat, 8);
                lemma_be_value_concat(before, be_bytes_fixed(x as nat, 8));
                lemma_be_bytes_fixed_len(x as nat, 8);
            }
            i += 1;
        }
        BigNat::from_bytes_be(v.as_slice())
    }

    /// The shortest big-endian bytes of the number; zero gives the one byte 0.
    pub fn to_bytes_be(&self) -> (r: Vec<u8>)
        ensures
            r@ == be_bytes(self@),
    {
        let n = self.digits.len();
        // Four bytes for every digit, the highest digit first.
        let mut all: Vec<u8> = Vec::new();
        let mut j: usize = 0;
        assert(self.digits@.subrange(n as int, n as int) =~= Seq::<u32>::empty());
        while j < n
            invariant
                j <= n,
                n == self.digits@.len(),
                be_value(all@) == digits_value(self.digits@.subrange(n - j, n as int)),
            decreases n - j,
        {
            let x = self.digits[n - 1 - j];
            let x1 = x / 256;
            let x2 = x1 / 256;
            let x3 = x2 / 256;
            let ghost before = all@;
            all.push((x3 % 256) as u8);
            all.push((x2 % 256) as u8);
            all.push((x1 % 256) as u8);
            all.push((x % 256) as u8);
            proof {
                reveal_with_fuel(be_bytes_fixed, 5);
                assert(all@ =~= before + be_bytes_fixed(x as nat, 4));
                lemma_pow256_step(0);
                lemma_pow256_step(1);
                lemma_pow256_step(2);
                lemma_pow256_step(3);
                assert(pow256(4) == 0x1_0000_0000);
                lemma_be_value_of_be_bytes_fixed(x as nat, 4);
                lemma_be_value_concat(before, be_bytes_fixed(x as nat, 4));
                lemma_be_bytes_fixed_len(x as nat, 4);
                assert(be_value(before) * pow256(4) == 0x1_0000_0000 * be_value(before))
                    by (nonlinear_arith)
                    requires
                        pow256(4) == 0x1_0000_0000,
                ;
                lemma_digits_value_step(self.digits@, n - 1 - j);
                assert(self.digits@.subrange(n - 1 - j + 1, n as int) =~= self.digits@.subrange(
                    n - j,
                    n as int,
                ));
            }
            j += 1;
        }
        assert(self.digits@.subrange(0, n as int) =~= self.digits@);
        let len = all.len();
        let mut i: usize = 0;
        while i < len && all[i] == 0
            invariant
                i <= len,
                len == all@.len(),
                forall|j: int| 0 <= j < i ==> all@[j] == 0,
            decreases len - i,
        {
            i += 1;
        }
        let mut v: Vec<u8> = Vec::new();
        if i == len {
            v.push(0);
            proof {
                lemma_be_value_zeros(all@);
                assert(v@ =~= seq![0u8]);
            }
            return v;
        }
        let ghost start = i;
        while i < len
            invariant
                start <= i <= len,
                len == all@.len(),
                v@ == all@.subrange(start as int, i as int),
            decreases len - i,
        {
            v.push(all[i]);
            assert(v@ =~= all@.subrange(start as int, i + 1));
            i += 1;
        }
        proof {
            lemma_be_value_strip(all@, start as int);
            assert(v@[0] == all@[start as int]);
            lemma_be_bytes_of_minimal(v@);
        }
        v
    }

    /// The number big-endian in exactly `width` bytes, with zero bytes in
    /// front where it is short, or `None` where it does not fit.
    pub fn to_bytes_be_fixed(&self, width: usize) -> (r: Option<Vec<u8>>)
        ensures
            match r {
                Some(v) => self@ < pow256(width as nat) && v@ == be_bytes_fixed(
                    self@,
                    width as nat,
                ),
                None => self@ >= pow256(width as nat),
            },
    {
        let b = self.to_bytes_be();
        proof {
            lemma_be_value_of_be_bytes(self@);
            lemma_be_bytes_minimal(self@);
        }
        let len = b.len();
        // The zero byte that stands for zero counts as a leading zero here.
        let start: usize = if b[0] == 0 {
            1
        } else {
            0
        };
        if len - start > width {
            proof {
                lemma_be_value_lower(b@);
                lemma_pow256_monotonic(width as nat, (len - 1) as nat);
            }
            return None;
        }
        let lead: usize = width - (len - start);
        let mut v: Vec<u8> = Vec::new();
        let mut i: usize = 0;
        while i < lead
            invariant
                i <= lead,
                v@ == Seq::new(i as nat, |j: int| 0u8),
            decreases lead - i,
        {
            v.push(0);
            assert(v@ =~= Seq::new((i + 1) as nat, |j: int| 0u8));
            i += 1;
        }
        let ghost zeros = v@;
        let mut i: usize = start;
        assert(b@.subrange(start as int, start as int) =~= Seq::<u8>::empty());
        assert(v@ =~= zeros + b@.subrange(start as int, start as int));
        while i < len
            invariant
                start <= i <= len,
                len == b@.len(),
                v@ == zeros + b@.subrange(start as int, i as int),
            decreases len - i,
        {
            v.push(b[i]);
            assert(v@ =~= zeros + b@.subrange(start as int, i + 1));
            i += 1;
        }
        proof {
            let tail = b@.subrange(start as int, len as int);
            lemma_be_value_strip(b@, start as int);
            lemma_be_value_strip(v@, lead as int);
            assert(v@.subrange(lead as int, v@.len() as int) =~= tail);
            assert(be_value(v@) == self@);
            lemma_be_value_bound(v@);
            lemma_be_bytes_fixed_of_value(v@);
        }
        Some(v)
    }

    /// Overwrites every digit with zero, so that the number is zero
    /// afterwards and nothing of its old value stays in its buffer.
    pub fn wipe(&mut self)
        ensures
            final(self)@ == 0,
            final(self).digits@.len() == old(self).digits@.len(),
    {
        let n = self.digits.len();
        let mut i: usize = 0;
        while i < n
            invariant
                i <= n,
                self.digits.len() == n,
                n == old(self).digits.len(),
                forall|j: int| 0 <= j < i ==> self.digits@[j] == 0,
            decreases n - i,
        {
            self.digits.set(i, 0);
            i += 1;
        }
        proof {
            lemma_digits_value_zeros(self.digits@);
        }
    }

    /// Whether the number is zero.
    pub fn is_zero(&self) -> (r: bool)
        ensures
            r == (self@ == 0),
    {
        let b = self.to_bytes_be();
        proof {
            lemma_be_value_of_be_bytes(self@);
            lemma_be_bytes_minimal(self@);
            if b@.len() == 1 {
                assert(b@ =~= seq![b@[0]]);
                lemma_be_value_single(b@[0]);
            } else {
                lemma_be_value_msb(b@);
            }
        }
        b.len() == 1 && b[0] == 0
    }

    /// Whether the number is odd.
    pub fn is_odd(&self) -> (r: bool)
        ensures
            r == (self@ % 2 == 1),
    {
        if self.digits.len() == 0 {
            return false;
        }
        self.digits[0] % 2 == 1
    }

    /// Whether two numbers are equal, whatever their leading zero bytes.
    pub fn same_value(&self, other: &BigNat) -> (r: bool)
        ensures
            r == (self@ == other@),
    {
        let a = self.to_bytes_be();
        let b = other.to_bytes_be();
        proof {
            lemma_be_value_of_be_bytes(self@);
            lemma_be_value_of_be_bytes(other@);
        }
        if a.len() != b.len() {
            return false;
        }
        let n = a.len();
        let mut i: usize = 0;
        while i < n
            invariant
                i <= n,
                n == a.len(),
                n == b.len(),
                a@ == be_bytes(self@),
                b@ == be_bytes(other@),
                forall|j: int| 0 <= j < i ==> a@[j] == b@[j],
            decreases n - i,
        {
            if a[i] != b[i] {
                return false;
            }
            i += 1;
        }
        assert(a@ =~= b@);
        true
    }

    /// `(self + b) mod m`.
    pub fn add_mod(&self, b: &BigNat, m: &BigNat) -> (r: BigNat)
        requires
            m@ > 0,
        ensures
            r@ == (self@ + b@) % m@,
            r@ < m@,
    {
        let sum = big_add(self, b);
        big_rem(&sum, m)
    }

    /// `(self - b) mod m`, the representative in `[0, m)` also where `b` is
    /// the larger of the two.
    pub fn sub_mod(&self, b: &BigNat, m: &BigNat) -> (r: BigNat)
        requires
            m@ > 0,
        ensures
            r@ == sub_mod(self@, b@, m@),
            r@ < m@,
    {
        let a1 = big_rem(self, m);
        let b1 = big_rem(b, m);
        let lifted = big_add(&a1, m);
        let diff = big_sub(&lifted, &b1);
        proof {
            let ai = self@ as int;
            let bi = b@ as int;
            let mi = m@ as int;
            lemma_sub_mod_noop(ai, bi, mi);
            lemma_mod_add_multiples_vanish(ai % mi - bi % mi, mi);
        }
        big_rem(&diff, m)
    }

    /// `(self * b) mod m`.
    pub fn mul_mod(&self, b: &BigNat, m: &BigNat) -> (r: BigNat)
        requires
            m@ > 0,
        ensures
            r@ == (self@ * b@) % m@,
            r@ < m@,
    {
        let prod = big_mul(self, b);
        big_rem(&prod, m)
    }

    /// The inverse of the number modulo `m`, or zero where it has none.
    pub fn mod_inverse(&self, m: &BigNat) -> (r: BigNat)
        requires
            m@ > 0,
        ensures
            r@ == mod_inverse(self@, m@),
            r@ < m@,
    {
        match big_modinv(self, m) {
            Some(x) => {
                proof {
                    let c = choose|y: nat| is_inverse(self@, y, m@);
                    lemma_inverse_unique(self@, x@, c, m@);
                }
                x
            },
            None => {
                let z = BigNat::from_u64(0);
                z
            },
        }
    }
}

} // verus!
