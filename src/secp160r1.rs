//! The SECP160R1 curve: 160-bit field arithmetic modulo
//! `p = 2^160 - 2^31 - 1`, reduction modulo the group order `n`, and
//! double-and-add scalar multiplication of the generator in Jacobian
//! coordinates (`a = -3`).
use vstd::prelude::*;
use vstd::string::StringSliceAdditionalSpecFns;
use vstd::arithmetic::div_mod::{
    lemma_fundamental_div_mod,
    lemma_add_mod_noop,
    lemma_fundamental_div_mod_converse,
    lemma_mod_twice,
    lemma_mul_mod_noop_left,
    lemma_mul_mod_noop_right,
    lemma_small_mod,
};
use vstd::arithmetic::power::{pow, lemma_pow_adds, lemma_pow_multiplies, lemma_pow_mod_noop, lemma_pow1, lemma_pow0};
use vstd::arithmetic::power2::{pow2, lemma_pow2_unfold, lemma2_to64};

verus! {

/// 160-bit unsigned integer, 32-bit limbs, least significant first.
#[derive(Clone, Copy, Debug, PartialEq, Eq)]
pub struct U160 {
    pub limbs: [u32; 5],
}

/// 192-bit unsigned integer, 32-bit limbs, least significant first.
#[derive(Clone, Copy, Debug, PartialEq, Eq)]
pub struct U192 {
    pub limbs: [u32; 6],
}

#[verifier::inline]
pub open spec fn w32() -> int {
    0x1_0000_0000
}

#[verifier::inline]
pub open spec fn w64() -> int {
    0x1_0000_0000_0000_0000
}

#[verifier::inline]
pub open spec fn w96() -> int {
    0x1_0000_0000_0000_0000_0000_0000
}

#[verifier::inline]
pub open spec fn w128() -> int {
    (0x1_0000_0000_0000_0000_0000_0000 as int) * (0x1_0000_0000 as int)
}

#[verifier::inline]
pub open spec fn w160() -> int {
    (0x1_0000_0000_0000_0000_0000_0000 as int) * (0x1_0000_0000_0000_0000 as int)
}

#[verifier::inline]
pub open spec fn w192() -> int {
    (0x1_0000_0000_0000_0000_0000_0000 as int) * (0x1_0000_0000_0000_0000_0000_0000 as int)
}

/// The field prime `2^160 - 2^31 - 1`.
#[verifier::inline]
pub open spec fn p_val() -> int {
    w160() - 0x8000_0001
}

/// The group order `n = 0x0100000000000000000001F4C8F927AED3CA752257`.
#[verifier::inline]
pub open spec fn n_val() -> int {
    w160() + 0x0001_F4C8 * w64() + 0xF927_AED3 * w32() + 0xCA75_2257
}

/// The number that the first `i` bytes of `s` spell in big-endian order.
pub open spec fn be_prefix(s: Seq<u8>, i: int) -> int
    decreases i,
{
    if i <= 0 {
        0
    } else {
        be_prefix(s, i - 1) * 256 + s[i - 1]
    }
}

impl U160 {
    pub open spec fn value(&self) -> int {
        self.limbs[0] + w32() * self.limbs[1] + w64() * self.limbs[2] + w96() * self.limbs[3]
            + w128() * self.limbs[4]
    }

    /// An element of the field: strictly below `p`.
    pub open spec fn is_fe(&self) -> bool {
        self.value() < p_val()
    }
}

impl U192 {
    pub open spec fn value(&self) -> int {
        self.limbs[0] + w32() * self.limbs[1] + w64() * self.limbs[2] + w96() * self.limbs[3]
            + w128() * self.limbs[4] + w160() * self.limbs[5]
    }
}

impl U160 {
    /// The number with these limbs, least significant first.
    pub fn from_limbs(l0: u32, l1: u32, l2: u32, l3: u32, l4: u32) -> (r: U160)
        ensures
            r.limbs[0] == l0 && r.limbs[1] == l1 && r.limbs[2] == l2,
            r.limbs[3] == l3 && r.limbs[4] == l4,
    {
        let mut limbs = [0u32; 5];
        limbs[0] = l0;
        limbs[1] = l1;
        limbs[2] = l2;
        limbs[3] = l3;
        limbs[4] = l4;
        U160 { limbs }
    }
}

impl U192 {
    /// The number with these limbs, least significant first.
    pub fn from_limbs(l0: u32, l1: u32, l2: u32, l3: u32, l4: u32, l5: u32) -> (r: U192)
        ensures
            r.limbs[0] == l0 && r.limbs[1] == l1 && r.limbs[2] == l2,
            r.limbs[3] == l3 && r.limbs[4] == l4 && r.limbs[5] == l5,
    {
        let mut limbs = [0u32; 6];
        limbs[0] = l0;
        limbs[1] = l1;
        limbs[2] = l2;
        limbs[3] = l3;
        limbs[4] = l4;
        limbs[5] = l5;
        U192 { limbs }
    }
}

#[verifier::inline]
pub open spec fn b_val() -> int {
    0xC565_FA45 + w32() * 0x81D4_D4AD + w64() * 0x65AC_F89F + w96() * 0x54BD_7A8B + w128() * 0x1C97_BEFC
}

#[verifier::inline]
pub open spec fn gx_val() -> int {
    0x13CB_FC82 + w32() * 0x68C3_8BB9 + w64() * 0x4664_6989 + w96() * 0x8EF5_7328 + w128() * 0x4A96_B568
}

#[verifier::inline]
pub open spec fn gy_val() -> int {
    0x7AC5_FB32 + w32() * 0x0423_5137 + w64() * 0x59DC_C912 + w96() * 0x3168_947D + w128() * 0x23A6_2855
}

/// The field prime `p`.
pub fn field_prime() -> (r: U160)
    ensures
        r.value() == p_val(),
{
    U160::from_limbs(0x7FFF_FFFF, 0xFFFF_FFFF, 0xFFFF_FFFF, 0xFFFF_FFFF, 0xFFFF_FFFF)
}

/// The curve coefficient `a = p - 3`.
pub fn coeff_a() -> (r: U160)
    ensures
        r.value() == p_val() - 3,
{
    U160::from_limbs(0x7FFF_FFFC, 0xFFFF_FFFF, 0xFFFF_FFFF, 0xFFFF_FFFF, 0xFFFF_FFFF)
}

/// The curve coefficient `b`.
pub fn coeff_b() -> (r: U160)
    ensures
        r.value() == b_val(),
{
    U160::from_limbs(0xC565_FA45, 0x81D4_D4AD, 0x65AC_F89F, 0x54BD_7A8B, 0x1C97_BEFC)
}

/// The generator's x-coordinate.
pub fn gen_x() -> (r: U160)
    ensures
        r.value() == gx_val(),
{
    U160::from_limbs(0x13CB_FC82, 0x68C3_8BB9, 0x4664_6989, 0x8EF5_7328, 0x4A96_B568)
}

/// The generator's y-coordinate.
pub fn gen_y() -> (r: U160)
    ensures
        r.value() == gy_val(),
{
    U160::from_limbs(0x7AC5_FB32, 0x0423_5137, 0x59DC_C912, 0x3168_947D, 0x23A6_2855)
}

/// The group order `n`.
pub fn group_order() -> (r: U192)
    ensures
        r.value() == n_val(),
{
    U192::from_limbs(0xCA75_2257, 0xF927_AED3, 0x0001_F4C8, 0, 0, 1)
}

/// Splits a word into its four bytes, most significant first.
fn word_to_be(w: u32) -> (r: (u8, u8, u8, u8))
    ensures
        16777216 * r.0 + 65536 * r.1 + 256 * r.2 + r.3 == w,
{
    let q1 = w / 256;
    let q2 = q1 / 256;
    let b3 = (w % 256) as u8;
    let b2 = (q1 % 256) as u8;
    let b1 = (q2 % 256) as u8;
    let b0 = (q2 / 256) as u8;
    proof {
        lemma_fundamental_div_mod(w as int, 256);
        lemma_fundamental_div_mod(q1 as int, 256);
        lemma_fundamental_div_mod(q2 as int, 256);
    }
    (b0, b1, b2, b3)
}

/// Joins four bytes, most significant first, into a word.
fn be_to_word(b0: u8, b1: u8, b2: u8, b3: u8) -> (r: u32)
    ensures
        r == 16777216 * b0 + 65536 * b1 + 256 * b2 + b3,
{
    (b0 as u32) * 16777216 + (b1 as u32) * 65536 + (b2 as u32) * 256 + (b3 as u32)
}

/// Four more bytes extend a big-endian number by one word.
proof fn lemma_be_prefix_word(s: Seq<u8>, i: int)
    requires
        0 <= i,
    ensures
        be_prefix(s, i + 4) == be_prefix(s, i) * w32() + 16777216 * s[i] + 65536 * s[i + 1]
            + 256 * s[i + 2] + s[i + 3],
{
    reveal_with_fuel(be_prefix, 5);
}

impl U160 {
    pub fn zero() -> (r: U160)
        ensures
            r.value() == 0,
    {
        U160::from_limbs(0, 0, 0, 0, 0)
    }

    pub fn one() -> (r: U160)
        ensures
            r.value() == 1,
    {
        U160::from_limbs(1, 0, 0, 0, 0)
    }

    /// The number that 20 bytes spell in big-endian order.
    pub fn from_be_bytes(bytes: &[u8; 20]) -> (r: U160)
        ensures
            r.value() == be_prefix(bytes@, 20),
    {
        let l4 = be_to_word(bytes[0], bytes[1], bytes[2], bytes[3]);
        let l3 = be_to_word(bytes[4], bytes[5], bytes[6], bytes[7]);
        let l2 = be_to_word(bytes[8], bytes[9], bytes[10], bytes[11]);
        let l1 = be_to_word(bytes[12], bytes[13], bytes[14], bytes[15]);
        let l0 = be_to_word(bytes[16], bytes[17], bytes[18], bytes[19]);
        proof {
            let s = bytes@;
            lemma_be_prefix_word(s, 0);
            lemma_be_prefix_word(s, 4);
            lemma_be_prefix_word(s, 8);
            lemma_be_prefix_word(s, 12);
            lemma_be_prefix_word(s, 16);
            assert(be_prefix(s, 0) == 0);
        }
        U160::from_limbs(l0, l1, l2, l3, l4)
    }

    /// The 20 big-endian bytes of this number.
    pub fn to_be_bytes(&self) -> (r: [u8; 20])
        ensures
            be_prefix(r@, 20) == self.value(),
    {
        let mut out = [0u8; 20];
        let mut k: usize = 0;
        while k < 5
            invariant
                k <= 5,
                forall|j: int|
                    0 <= j < k ==> #[trigger] (16777216 * out@[4 * j] + 65536 * out@[4 * j + 1]
                        + 256 * out@[4 * j + 2] + out@[4 * j + 3]) == self.limbs[4 - j],
            decreases 5 - k,
        {
            let (b0, b1, b2, b3) = word_to_be(self.limbs[4 - k]);
            out[4 * k] = b0;
            out[4 * k + 1] = b1;
            out[4 * k + 2] = b2;
            out[4 * k + 3] = b3;
            k = k + 1;
        }
        proof {
            let s = out@;
            lemma_be_prefix_word(s, 0);
            lemma_be_prefix_word(s, 4);
            lemma_be_prefix_word(s, 8);
            lemma_be_prefix_word(s, 12);
            lemma_be_prefix_word(s, 16);
            assert(be_prefix(s, 0) == 0);
            let j0: int = 0;
            assert(16777216 * out@[4 * j0] + 65536 * out@[4 * j0 + 1] + 256 * out@[4 * j0 + 2] + out@[4 * j0 + 3] == self.limbs[4 - j0]);
            let j1: int = 1;
            assert(16777216 * out@[4 * j1] + 65536 * out@[4 * j1 + 1] + 256 * out@[4 * j1 + 2] + out@[4 * j1 + 3] == self.limbs[4 - j1]);
            let j2: int = 2;
            assert(16777216 * out@[4 * j2] + 65536 * out@[4 * j2 + 1] + 256 * out@[4 * j2 + 2] + out@[4 * j2 + 3] == self.limbs[4 - j2]);
            let j3: int = 3;
            assert(16777216 * out@[4 * j3] + 65536 * out@[4 * j3 + 1] + 256 * out@[4 * j3 + 2] + out@[4 * j3 + 3] == self.limbs[4 - j3]);
            let j4: int = 4;
            assert(16777216 * out@[4 * j4] + 65536 * out@[4 * j4 + 1] + 256 * out@[4 * j4 + 2] + out@[4 * j4 + 3] == self.limbs[4 - j4]);
        }
        out
    }

    pub fn is_zero(&self) -> (r: bool)
        ensures
            r == (self.value() == 0),
    {
        self.limbs[0] == 0 && self.limbs[1] == 0 && self.limbs[2] == 0 && self.limbs[3] == 0
            && self.limbs[4] == 0
    }

    pub fn gte(&self, other: &U160) -> (r: bool)
        ensures
            r == (self.value() >= other.value()),
    {
        if self.limbs[4] != other.limbs[4] {
            return self.limbs[4] > other.limbs[4];
        }
        if self.limbs[3] != other.limbs[3] {
            return self.limbs[3] > other.limbs[3];
        }
        if self.limbs[2] != other.limbs[2] {
            return self.limbs[2] > other.limbs[2];
        }
        if self.limbs[1] != other.limbs[1] {
            return self.limbs[1] > other.limbs[1];
        }
        self.limbs[0] >= other.limbs[0]
    }

    /// The sum truncated to 160 bits, and whether it overflowed.
    pub fn add_with_carry(&self, other: &U160) -> (r: (U160, bool))
        ensures
            r.0.value() + (if r.1 {
                w160()
            } else {
                0
            }) == self.value() + other.value(),
    {
        let s0: u64 = self.limbs[0] as u64 + other.limbs[0] as u64;
        let s1: u64 = self.limbs[1] as u64 + other.limbs[1] as u64 + s0 / 0x1_0000_0000;
        let s2: u64 = self.limbs[2] as u64 + other.limbs[2] as u64 + s1 / 0x1_0000_0000;
        let s3: u64 = self.limbs[3] as u64 + other.limbs[3] as u64 + s2 / 0x1_0000_0000;
        let s4: u64 = self.limbs[4] as u64 + other.limbs[4] as u64 + s3 / 0x1_0000_0000;
        let r = U160::from_limbs((s0 % 0x1_0000_0000) as u32, (s1 % 0x1_0000_0000) as u32, (s2 % 0x1_0000_0000) as u32, (s3 % 0x1_0000_0000) as u32, (s4 % 0x1_0000_0000) as u32);
        (r, s4 / 0x1_0000_0000 != 0)
    }

    /// The difference modulo `2^160`, and whether it borrowed (`self < other`).
    pub fn sub_with_borrow(&self, other: &U160) -> (r: (U160, bool))
        ensures
            r.0.value() == self.value() - other.value() + (if r.1 {
                w160()
            } else {
                0
            }),
            r.1 == (self.value() < other.value()),
    {
        let d0: u64 = self.limbs[0] as u64 + 0x1_0000_0000 - other.limbs[0] as u64;
        let d1: u64 = self.limbs[1] as u64 + 0x1_0000_0000 - other.limbs[1] as u64 - (1 - d0
            / 0x1_0000_0000);
        let d2: u64 = self.limbs[2] as u64 + 0x1_0000_0000 - other.limbs[2] as u64 - (1 - d1
            / 0x1_0000_0000);
        let d3: u64 = self.limbs[3] as u64 + 0x1_0000_0000 - other.limbs[3] as u64 - (1 - d2
            / 0x1_0000_0000);
        let d4: u64 = self.limbs[4] as u64 + 0x1_0000_0000 - other.limbs[4] as u64 - (1 - d3
            / 0x1_0000_0000);
        let r = U160::from_limbs((d0 % 0x1_0000_0000) as u32, (d1 % 0x1_0000_0000) as u32, (d2 % 0x1_0000_0000) as u32, (d3 % 0x1_0000_0000) as u32, (d4 % 0x1_0000_0000) as u32);
        (r, d4 / 0x1_0000_0000 == 0)
    }
}

impl U192 {
    pub fn is_zero(&self) -> (r: bool)
        ensures
            r == (self.value() == 0),
    {
        self.limbs[0] == 0 && self.limbs[1] == 0 && self.limbs[2] == 0 && self.limbs[3] == 0
            && self.limbs[4] == 0 && self.limbs[5] == 0
    }

    pub fn gte(&self, other: &U192) -> (r: bool)
        ensures
            r == (self.value() >= other.value()),
    {
        if self.limbs[5] != other.limbs[5] {
            return self.limbs[5] > other.limbs[5];
        }
        if self.limbs[4] != other.limbs[4] {
            return self.limbs[4] > other.limbs[4];
        }
        if self.limbs[3] != other.limbs[3] {
            return self.limbs[3] > other.limbs[3];
        }
        if self.limbs[2] != other.limbs[2] {
            return self.limbs[2] > other.limbs[2];
        }
        if self.limbs[1] != other.limbs[1] {
            return self.limbs[1] > other.limbs[1];
        }
        self.limbs[0] >= other.limbs[0]
    }

    /// The sum truncated to 192 bits, and whether it overflowed.
    pub fn add_with_carry(&self, other: &U192) -> (r: (U192, bool))
        ensures
            r.0.value() + (if r.1 {
                w192()
            } else {
                0
            }) == self.value() + other.value(),
    {
        let s0: u64 = self.limbs[0] as u64 + other.limbs[0] as u64;
        let s1: u64 = self.limbs[1] as u64 + other.limbs[1] as u64 + s0 / 0x1_0000_0000;
        let s2: u64 = self.limbs[2] as u64 + other.limbs[2] as u64 + s1 / 0x1_0000_0000;
        let s3: u64 = self.limbs[3] as u64 + other.limbs[3] as u64 + s2 / 0x1_0000_0000;
        let s4: u64 = self.limbs[4] as u64 + other.limbs[4] as u64 + s3 / 0x1_0000_0000;
        let s5: u64 = self.limbs[5] as u64 + other.limbs[5] as u64 + s4 / 0x1_0000_0000;
        let r = U192::from_limbs((s0 % 0x1_0000_0000) as u32, (s1 % 0x1_0000_0000) as u32, (s2 % 0x1_0000_0000) as u32, (s3 % 0x1_0000_0000) as u32, (s4 % 0x1_0000_0000) as u32, (s5 % 0x1_0000_0000) as u32);
        (r, s5 / 0x1_0000_0000 != 0)
    }

    /// The difference modulo `2^192`, and whether it borrowed (`self < other`).
    pub fn sub_with_borrow(&self, other: &U192) -> (r: (U192, bool))
        ensures
            r.0.value() == self.value() - other.value() + (if r.1 {
                w192()
            } else {
                0
            }),
            r.1 == (self.value() < other.value()),
    {
        let d0: u64 = self.limbs[0] as u64 + 0x1_0000_0000 - other.limbs[0] as u64;
        let d1: u64 = self.limbs[1] as u64 + 0x1_0000_0000 - other.limbs[1] as u64 - (1 - d0
            / 0x1_0000_0000);
        let d2: u64 = self.limbs[2] as u64 + 0x1_0000_0000 - other.limbs[2] as u64 - (1 - d1
            / 0x1_0000_0000);
        let d3: u64 = self.limbs[3] as u64 + 0x1_0000_0000 - other.limbs[3] as u64 - (1 - d2
            / 0x1_0000_0000);
        let d4: u64 = self.limbs[4] as u64 + 0x1_0000_0000 - other.limbs[4] as u64 - (1 - d3
            / 0x1_0000_0000);
        let d5: u64 = self.limbs[5] as u64 + 0x1_0000_0000 - other.limbs[5] as u64 - (1 - d4
            / 0x1_0000_0000);
        let r = U192::from_limbs((d0 % 0x1_0000_0000) as u32, (d1 % 0x1_0000_0000) as u32, (d2 % 0x1_0000_0000) as u32, (d3 % 0x1_0000_0000) as u32, (d4 % 0x1_0000_0000) as u32, (d5 % 0x1_0000_0000) as u32);
        (r, d5 / 0x1_0000_0000 == 0)
    }

    /// The low 160 bits.
    pub fn to_u160(&self) -> (r: U160)
        ensures
            r.value() == self.value() % w160(),
            self.value() < w160() ==> r.value() == self.value(),
    {
        U160::from_limbs(self.limbs[0], self.limbs[1], self.limbs[2], self.limbs[3], self.limbs[4])
    }
}

/// A value less than one modulus away from `[0, m)` is reduced by one step.
pub proof fn lemma_mod_window(x: int, m: int)
    requires
        0 < m,
        -m <= x < 2 * m,
    ensures
        x % m == (if x < 0 {
            x + m
        } else if x < m {
            x
        } else {
            x - m
        }),
{
    if x < 0 {
        lemma_small_mod((x + m) as nat, m as nat);
        vstd::arithmetic::div_mod::lemma_mod_add_multiples_vanish(x, m);
    } else if x < m {
        lemma_small_mod(x as nat, m as nat);
    } else {
        lemma_small_mod((x - m) as nat, m as nat);
        vstd::arithmetic::div_mod::lemma_mod_add_multiples_vanish(x - m, m);
    }
}

/// `(a + b) mod p`.
pub fn fp_add(a: &U160, b: &U160) -> (r: U160)
    requires
        a.is_fe(),
        b.is_fe(),
    ensures
        r.is_fe(),
        r.value() == (a.value() + b.value()) % p_val(),
{
    let p = field_prime();
    proof {
        lemma_mod_window(a.value() + b.value(), p_val());
    }
    let (sum, carry) = a.add_with_carry(b);
    if carry || sum.gte(&p) {
        let (result, _) = sum.sub_with_borrow(&p);
        result
    } else {
        sum
    }
}

/// `(a - b) mod p`.
pub fn fp_sub(a: &U160, b: &U160) -> (r: U160)
    requires
        a.is_fe(),
        b.is_fe(),
    ensures
        r.is_fe(),
        r.value() == (a.value() - b.value()) % p_val(),
{
    let p = field_prime();
    proof {
        lemma_mod_window(a.value() - b.value(), p_val());
    }
    let (diff, borrow) = a.sub_with_borrow(b);
    if borrow {
        let (result, _) = diff.add_with_carry(&p);
        result
    } else {
        diff
    }
}

/// Reducing the terms of `x + y * z` first does not change the result modulo `m`.
pub proof fn lemma_mod_lin(x: int, y: int, z: int, m: int)
    requires
        0 < m,
    ensures
        ((x % m) + (y % m) * z) % m == (x + y * z) % m,
{
    lemma_add_mod_noop(x % m, (y % m) * z, m);
    lemma_mod_twice(x, m);
    lemma_mul_mod_noop_left(y, z, m);
    lemma_add_mod_noop(x, y * z, m);
}

/// Adds `t * l` to `r` and multiplies `t` by `2^32`, both modulo p, one bit of
/// `l` at a time.
fn mul_acc_word(r: &U160, t: &U160, l: u32) -> (out: (U160, U160))
    requires
        r.is_fe(),
        t.is_fe(),
    ensures
        out.0.is_fe(),
        out.1.is_fe(),
        out.0.value() == (r.value() + t.value() * l) % p_val(),
        out.1.value() == (t.value() * w32()) % p_val(),
{
    let mut acc = *r;
    let mut dbl = *t;
    let mut rest: u32 = l;
    let mut i: u32 = 0;
    let ghost pw: int = 1;
    proof {
        lemma_small_mod(t.value() as nat, p_val() as nat);
        lemma_small_mod(r.value() as nat, p_val() as nat);
        lemma2_to64();
    }
    while i < 32
        invariant
            acc.is_fe(),
            dbl.is_fe(),
            i <= 32,
            pw == pow2(i as nat),
            rest < pow2((32 - i) as nat),
            (acc.value() + dbl.value() * rest) % p_val() == (r.value() + t.value() * l) % p_val(),
            dbl.value() == (t.value() * pw) % p_val(),
        decreases 32 - i,
    {
        let bit = rest % 2;
        let half = rest / 2;
        let ghost old_acc = acc.value();
        let ghost old_dbl = dbl.value();
        if bit == 1 {
            acc = fp_add(&acc, &dbl);
        }
        dbl = fp_add(&dbl, &dbl);
        proof {
            let x = old_acc + old_dbl * bit;
            lemma_small_mod(old_acc as nat, p_val() as nat);
            assert(acc.value() == x % p_val());
            assert(dbl.value() == (2 * old_dbl) % p_val());
            lemma_mod_lin(x, 2 * old_dbl, half as int, p_val());
            assert(x + 2 * old_dbl * half == old_acc + old_dbl * rest) by (nonlinear_arith)
                requires
                    x == old_acc + old_dbl * bit,
                    rest == 2 * half + bit,
            ;
            lemma_mul_mod_noop_right(2, t.value() * pw, p_val());
            assert(2 * (t.value() * pw) == t.value() * (2 * pw)) by (nonlinear_arith);
            lemma_pow2_unfold((i + 1) as nat);
            lemma_pow2_unfold((32 - i) as nat);
            pw = 2 * pw;
        }
        rest = half;
        i = i + 1;
    }
    proof {
        assert(rest == 0);
        lemma_small_mod(acc.value() as nat, p_val() as nat);
    }
    (acc, dbl)
}

/// `(a * b) mod p`.
pub fn fp_mul(a: &U160, b: &U160) -> (r: U160)
    requires
        a.is_fe(),
        b.is_fe(),
    ensures
        r.is_fe(),
        r.value() == (a.value() * b.value()) % p_val(),
{
    let ghost av = a.value();
    let ghost pv = p_val();
    let zero = U160::zero();
    let (r1, t1) = mul_acc_word(&zero, a, b.limbs[0]);
    let (r2, t2) = mul_acc_word(&r1, &t1, b.limbs[1]);
    let (r3, t3) = mul_acc_word(&r2, &t2, b.limbs[2]);
    let (r4, t4) = mul_acc_word(&r3, &t3, b.limbs[3]);
    let (r5, _) = mul_acc_word(&r4, &t4, b.limbs[4]);
    proof {
        let l0 = b.limbs[0] as int;
        let l1 = b.limbs[1] as int;
        let l2 = b.limbs[2] as int;
        let l3 = b.limbs[3] as int;
        let l4 = b.limbs[4] as int;
        // after word k: r == a * (low k words of b), t == a * 2^(32k)
        lemma_small_mod(av as nat, pv as nat);
        assert(r1.value() == (av * l0) % pv);
        assert(t1.value() == (av * w32()) % pv);
        lemma_mod_lin(av * l0, av * w32(), l1, pv);
        lemma_mul_mod_noop_left(av * w32(), w32(), pv);
        assert(av * l0 + av * w32() * l1 == av * (l0 + w32() * l1)) by (nonlinear_arith);
        assert(av * w32() * w32() == av * w64()) by (nonlinear_arith);
        lemma_mod_lin(av * (l0 + w32() * l1), av * w64(), l2, pv);
        lemma_mul_mod_noop_left(av * w64(), w32(), pv);
        assert(av * (l0 + w32() * l1) + av * w64() * l2 == av * (l0 + w32() * l1 + w64() * l2))
            by (nonlinear_arith);
        assert(av * w64() * w32() == av * w96()) by (nonlinear_arith);
        lemma_mod_lin(av * (l0 + w32() * l1 + w64() * l2), av * w96(), l3, pv);
        lemma_mul_mod_noop_left(av * w96(), w32(), pv);
        assert(av * (l0 + w32() * l1 + w64() * l2) + av * w96() * l3 == av * (l0 + w32() * l1
            + w64() * l2 + w96() * l3)) by (nonlinear_arith);
        assert(av * w96() * w32() == av * w128()) by (nonlinear_arith);
        lemma_mod_lin(av * (l0 + w32() * l1 + w64() * l2 + w96() * l3), av * w128(), l4, pv);
        assert(av * (l0 + w32() * l1 + w64() * l2 + w96() * l3) + av * w128() * l4 == av * (l0
            + w32() * l1 + w64() * l2 + w96() * l3 + w128() * l4)) by (nonlinear_arith);
    }
    r5
}

/// `a^2 mod p`.
pub fn fp_sqr(a: &U160) -> (r: U160)
    requires
        a.is_fe(),
    ensures
        r.is_fe(),
        r.value() == (a.value() * a.value()) % p_val(),
{
    fp_mul(a, a)
}

/// `(x * y) mod m` depends only on `x` and `y` modulo `m`.
proof fn lemma_mul_mod_both(x: int, y: int, xr: int, yr: int, m: int)
    requires
        0 < m,
        xr % m == x % m,
        yr % m == y % m,
    ensures
        (xr * yr) % m == (x * y) % m,
{
    vstd::arithmetic::div_mod::lemma_mul_mod_noop(xr, yr, m);
    vstd::arithmetic::div_mod::lemma_mul_mod_noop(x, y, m);
}

/// Multiplies `r` by `t^l` and raises `t` to the power `2^32`, both modulo p,
/// one bit of `l` at a time.
fn pow_acc_word(r: &U160, t: &U160, l: u32) -> (out: (U160, U160))
    requires
        r.is_fe(),
        t.is_fe(),
    ensures
        out.0.is_fe(),
        out.1.is_fe(),
        out.0.value() == (r.value() * pow(t.value(), l as nat)) % p_val(),
        out.1.value() == pow(t.value(), w32() as nat) % p_val(),
{
    let ghost pv = p_val();
    let ghost tv = t.value();
    let mut acc = *r;
    let mut sq = *t;
    let mut rest: u32 = l;
    let mut i: u32 = 0;
    let ghost pw: nat = 1;
    proof {
        lemma_pow1(tv);
        lemma_small_mod(tv as nat, pv as nat);
        lemma2_to64();
    }
    while i < 32
        invariant
            pv == p_val(),
            tv == t.value(),
            acc.is_fe(),
            sq.is_fe(),
            i <= 32,
            pw == pow2(i as nat),
            rest < pow2((32 - i) as nat),
            (acc.value() * pow(sq.value(), rest as nat)) % pv == (r.value() * pow(tv, l as nat))
                % pv,
            sq.value() == pow(tv, pw) % pv,
        decreases 32 - i,
    {
        let bit = rest % 2;
        let half = rest / 2;
        let ghost a0 = acc.value();
        let ghost s0 = sq.value();
        if bit == 1 {
            acc = fp_mul(&acc, &sq);
        }
        sq = fp_sqr(&sq);
        proof {
            let x = a0 * pow(s0, bit as nat);
            let z = pow(s0 * s0, half as nat);
            lemma_pow0(s0);
            lemma_pow1(s0);
            lemma_small_mod(a0 as nat, pv as nat);
            assert(acc.value() % pv == x % pv) by {
                lemma_small_mod(acc.value() as nat, pv as nat);
            }
            lemma_pow_mod_noop(s0 * s0, half as nat, pv);
            assert(pow(sq.value(), half as nat) % pv == z % pv);
            lemma_mul_mod_both(x, z, acc.value(), pow(sq.value(), half as nat), pv);
            reveal_with_fuel(pow, 3);
            assert(pow(s0, 2) == s0 * s0);
            lemma_pow_multiplies(s0, 2, half as nat);
            lemma_pow_adds(s0, bit as nat, (2 * half) as nat);
            assert(x * z == a0 * pow(s0, rest as nat)) by (nonlinear_arith)
                requires
                    x == a0 * pow(s0, bit as nat),
                    z == pow(s0, (2 * half) as nat),
                    pow(s0, bit as nat) * pow(s0, (2 * half) as nat) == pow(
                        s0,
                        (bit + 2 * half) as nat,
                    ),
                    rest == bit + 2 * half,
            ;
            lemma_mod_twice(pow(tv, pw), pv);
            lemma_mul_mod_both(pow(tv, pw), pow(tv, pw), s0, s0, pv);
            lemma_pow_adds(tv, pw, pw);
            lemma_pow2_unfold((i + 1) as nat);
            lemma_pow2_unfold((32 - i) as nat);
            pw = pw + pw;
        }
        rest = half;
        i = i + 1;
    }
    proof {
        assert(rest == 0);
        lemma_pow0(sq.value());
        lemma_small_mod(acc.value() as nat, pv as nat);
    }
    (acc, sq)
}

/// One more exponent word: `b^e * (b^k)^l = b^(e + k * l)`, modulo `m`.
proof fn lemma_pow_word_step(b: int, e: nat, k: nat, l: nat, m: int)
    requires
        0 < m,
    ensures
        ((pow(b, e) % m) * pow(pow(b, k) % m, l)) % m == pow(b, e + k * l) % m,
        pow(pow(b, k) % m, w32() as nat) % m == pow(b, (k * w32()) as nat) % m,
{
    lemma_pow_mod_noop(pow(b, k), l, m);
    lemma_pow_multiplies(b, k, l);
    lemma_mod_twice(pow(b, e), m);
    lemma_mul_mod_both(pow(b, e), pow(b, k * l), pow(b, e) % m, pow(pow(b, k) % m, l), m);
    lemma_pow_adds(b, e, k * l);
    lemma_pow_mod_noop(pow(b, k), w32() as nat, m);
    lemma_pow_multiplies(b, k, w32() as nat);
}

/// `base^exp mod p`.
pub fn fp_pow(base: &U160, exp: &U160) -> (r: U160)
    requires
        base.is_fe(),
    ensures
        r.is_fe(),
        r.value() == pow(base.value(), exp.value() as nat) % p_val(),
{
    let ghost bv = base.value();
    let ghost pv = p_val();
    let one = U160::one();
    let (r1, t1) = pow_acc_word(&one, base, exp.limbs[0]);
    let (r2, t2) = pow_acc_word(&r1, &t1, exp.limbs[1]);
    let (r3, t3) = pow_acc_word(&r2, &t2, exp.limbs[2]);
    let (r4, t4) = pow_acc_word(&r3, &t3, exp.limbs[3]);
    let (r5, _) = pow_acc_word(&r4, &t4, exp.limbs[4]);
    proof {
        let l0 = exp.limbs[0] as nat;
        let l1 = exp.limbs[1] as nat;
        let l2 = exp.limbs[2] as nat;
        let l3 = exp.limbs[3] as nat;
        let l4 = exp.limbs[4] as nat;
        lemma_pow1(bv);
        lemma_pow0(bv);
        lemma_small_mod(bv as nat, pv as nat);
        assert(r1.value() == pow(bv, l0) % pv);
        lemma_pow_word_step(bv, 0, 1, l0, pv);
        assert(t1.value() == pow(bv, w32() as nat) % pv);
        lemma_pow_word_step(bv, l0, w32() as nat, l1, pv);
        lemma_pow_word_step(bv, (l0 + w32() * l1) as nat, w64() as nat, l2, pv);
        lemma_pow_word_step(bv, (l0 + w32() * l1 + w64() * l2) as nat, w96() as nat, l3, pv);
        lemma_pow_word_step(
            bv,
            (l0 + w32() * l1 + w64() * l2 + w96() * l3) as nat,
            w128() as nat,
            l4,
            pv,
        );
    }
    r5
}

/// `a^(p-2) mod p`: the inverse of a non-zero `a`.
pub fn fp_inv(a: &U160) -> (r: U160)
    requires
        a.is_fe(),
    ensures
        r.is_fe(),
        r.value() == pow(a.value(), (p_val() - 2) as nat) % p_val(),
{
    let e = U160::from_limbs(0x7FFF_FFFD, 0xFFFF_FFFF, 0xFFFF_FFFF, 0xFFFF_FFFF, 0xFFFF_FFFF);
    fp_pow(a, &e)
}

/// Bit `j` of a 32-bit limb.
pub open spec fn limb_bit(l: u32, j: int) -> bool {
    (l as int / (pow2(j as nat) as int)) % 2 == 1
}

impl U192 {
    /// Bit `i` (0 = least significant) of the number; false past bit 191.
    pub open spec fn spec_bit(&self, i: int) -> bool {
        0 <= i < 192 && limb_bit(self.limbs[i / 32], i % 32)
    }

    /// Position of the highest set bit.
    pub open spec fn is_top_bit(&self, b: int) -> bool {
        &&& 0 <= b < 192
        &&& self.limbs[b / 32] as int / (pow2((b % 32) as nat) as int) == 1
        &&& forall|j: int| b / 32 < j < 6 ==> self.limbs[j] == 0
    }

    pub fn bit(&self, bit: usize) -> (r: bool)
        ensures
            r == self.spec_bit(bit as int),
    {
        let word = bit / 32;
        let offset = bit % 32;
        if word >= 6 {
            return false;
        }
        let mut v: u32 = self.limbs[word];
        let mut k: usize = 0;
        proof {
            lemma2_to64();
        }
        while k < offset
            invariant
                k <= offset,
                offset < 32,
                word < 6,
                v as int == self.limbs[word as int] as int / (pow2(k as nat) as int),
            decreases offset - k,
        {
            proof {
                vstd::arithmetic::power2::lemma_pow2_pos(k as nat);
                vstd::arithmetic::div_mod::lemma_div_denominator(
                    self.limbs[word as int] as int,
                    pow2(k as nat) as int,
                    2,
                );
                lemma_pow2_unfold((k + 1) as nat);
                assert(pow2(k as nat) * 2 == pow2((k + 1) as nat));
            }
            v = v / 2;
            k = k + 1;
        }
        v % 2 == 1
    }

    /// The position of the highest set bit, or `None` when the number is zero.
    pub fn bit_length(&self) -> (r: Option<usize>)
        ensures
            r is None <==> self.value() == 0,
            r matches Some(b) ==> self.is_top_bit(b as int),
    {
        let mut i: usize = 6;
        while i > 0
            invariant
                i <= 6,
                forall|j: int| i <= j < 6 ==> self.limbs[j] == 0,
            decreases i,
        {
            let l = self.limbs[i - 1];
            if l != 0 {
                let mut v: u32 = l;
                let mut s: usize = 0;
                proof {
                    lemma2_to64();
                }
                while v > 1
                    invariant
                        v > 0,
                        s < 32,
                        v as int == l as int / (pow2(s as nat) as int),
                        (l as int) < pow2(32),
                    decreases v,
                {
                    proof {
                        let ps = pow2(s as nat) as int;
                        vstd::arithmetic::power2::lemma_pow2_pos(s as nat);
                        vstd::arithmetic::div_mod::lemma_div_denominator(l as int, ps, 2);
                        lemma_pow2_unfold((s + 1) as nat);
                        assert(ps * 2 == pow2((s + 1) as nat));
                        vstd::arithmetic::div_mod::lemma_fundamental_div_mod(l as int, ps);
                        assert(l as int >= 2 * ps) by (nonlinear_arith)
                            requires
                                l as int == ps * (l as int / ps) + (l as int) % ps,
                                (l as int) % ps >= 0,
                                l as int / ps == v as int,
                                v >= 2,
                                ps > 0,
                        ;
                        if s + 1 > 32 {
                            vstd::arithmetic::power2::lemma_pow2_strictly_increases(
                                32,
                                (s + 1) as nat,
                            );
                        }
                    }
                    v = v / 2;
                    s = s + 1;
                }
                return Some((i - 1) * 32 + s);
            }
            i = i - 1;
        }
        None
    }

    /// Writes the number's 24 big-endian bytes right-aligned into `buf`,
    /// dropping leading bytes that do not fit and zero-filling the rest.
    pub fn to_be_bytes_padded(&self, buf: &mut [u8])
        ensures
            final(buf)@.len() == old(buf)@.len(),
            forall|j: int|
                0 <= j < old(buf)@.len() ==> #[trigger] final(buf)@[j] == self.be_byte(
                    j - old(buf)@.len() + 24,
                ),
    {
        let len = buf.len();
        let mut j: usize = 0;
        while j < len
            invariant
                len == buf@.len(),
                len == old(buf)@.len(),
                j <= len,
                forall|q: int| 0 <= q < j ==> #[trigger] buf@[q] == self.be_byte(q - len + 24),
            decreases len - j,
        {
            if len - j <= 24 {
                let k = 24 - (len - j);
                let limb = self.limbs[5 - k / 4];
                let (b0, b1, b2, b3) = word_to_be(limb);
                let m = k % 4;
                buf[j] = if m == 0 {
                    b0
                } else if m == 1 {
                    b1
                } else if m == 2 {
                    b2
                } else {
                    b3
                };
                proof {
                    word_to_be_unique(limb, b0, b1, b2, b3);
                }
            } else {
                buf[j] = 0;
            }
            j = j + 1;
        }
    }

    /// Byte `k` of the number's 24 big-endian bytes; zero outside them.
    pub open spec fn be_byte(&self, k: int) -> u8 {
        if 0 <= k < 24 {
            ((self.limbs[5 - k / 4] as int / pow256(3 - k % 4)) % 256) as u8
        } else {
            0
        }
    }
}

pub open spec fn pow256(e: int) -> int {
    if e == 0 {
        1
    } else if e == 1 {
        256
    } else if e == 2 {
        65536
    } else {
        16777216
    }
}

/// The bytes that `word_to_be` gives are the digits base 256.
proof fn word_to_be_unique(w: u32, b0: u8, b1: u8, b2: u8, b3: u8)
    requires
        16777216 * b0 + 65536 * b1 + 256 * b2 + b3 == w,
    ensures
        b0 == (w as int / pow256(3)) % 256,
        b1 == (w as int / pow256(2)) % 256,
        b2 == (w as int / pow256(1)) % 256,
        b3 == (w as int / pow256(0)) % 256,
{
    lemma_fundamental_div_mod_converse(w as int, 16777216, b0 as int, 65536 * b1 + 256 * b2 + b3);
    lemma_fundamental_div_mod_converse(b0 as int, 256, 0, b0 as int);
    lemma_fundamental_div_mod_converse(w as int, 65536, 256 * b0 + b1, 256 * b2 + b3);
    lemma_fundamental_div_mod_converse(256 * b0 + b1, 256, b0 as int, b1 as int);
    lemma_fundamental_div_mod_converse(w as int, 256, 65536 * b0 + 256 * b1 + b2, b3 as int);
    lemma_fundamental_div_mod_converse(65536 * b0 + 256 * b1 + b2, 256, 256 * b0 + b1, b2 as int);
    lemma_fundamental_div_mod_converse(w as int, 1, w as int, 0);
    lemma_fundamental_div_mod_converse(w as int, 256, 65536 * b0 + 256 * b1 + b2, b3 as int);
}

/// `(a + b) mod n` for `a, b < n`.
fn mod_n_add(a: &U192, b: &U192, n: &U192) -> (r: U192)
    requires
        n.value() == n_val(),
        a.value() < n_val(),
        b.value() < n_val(),
    ensures
        r.value() < n_val(),
        r.value() == (a.value() + b.value()) % n_val(),
{
    proof {
        lemma_mod_window(a.value() + b.value(), n_val());
    }
    let (sum, _) = a.add_with_carry(b);
    if sum.gte(n) {
        let (d, _) = sum.sub_with_borrow(n);
        d
    } else {
        sum
    }
}

/// `(r * 256 + byte) mod n` for `r < n`.
fn shift_byte_mod_n(r: &U192, byte: u8, n: &U192) -> (out: U192)
    requires
        n.value() == n_val(),
        r.value() < n_val(),
    ensures
        out.value() < n_val(),
        out.value() == (r.value() * 256 + byte) % n_val(),
{
    let ghost x = r.value();
    let mut acc = *r;
    let mut k: usize = 0;
    let ghost m: int = 1;
    proof {
        lemma_small_mod(x as nat, n_val() as nat);
        lemma2_to64();
    }
    while k < 8
        invariant
            n.value() == n_val(),
            k <= 8,
            m == pow2(k as nat),
            acc.value() < n_val(),
            acc.value() == (x * m) % n_val(),
        decreases 8 - k,
    {
        acc = mod_n_add(&acc, &acc, n);
        proof {
            lemma_mul_mod_noop_right(2, x * m, n_val());
            assert(2 * (x * m) == x * (2 * m)) by (nonlinear_arith);
            lemma_pow2_unfold((k + 1) as nat);
            m = 2 * m;
        }
        k = k + 1;
    }
    let b = U192::from_limbs(byte as u32, 0, 0, 0, 0, 0);
    proof {
        lemma_small_mod(byte as nat, n_val() as nat);
        lemma_add_mod_noop(x * 256, byte as int, n_val());
        lemma_mod_twice(x * 256, n_val());
    }
    mod_n_add(&acc, &b, n)
}

/// The number that 32 big-endian bytes spell, reduced modulo the group order.
pub fn reduce_256_mod_n(bytes: &[u8; 32]) -> (r: U192)
    ensures
        r.value() < n_val(),
        r.value() == be_prefix(bytes@, 32) % n_val(),
{
    let n = group_order();
    let mut r = U192::from_limbs(0, 0, 0, 0, 0, 0);
    let mut i: usize = 0;
    proof {
        lemma_small_mod(0, n_val() as nat);
    }
    while i < 32
        invariant
            n.value() == n_val(),
            i <= 32,
            r.value() < n_val(),
            r.value() == be_prefix(bytes@, i as int) % n_val(),
        decreases 32 - i,
    {
        let ghost x = be_prefix(bytes@, i as int);
        let ghost before = r.value();
        r = shift_byte_mod_n(&r, bytes[i], &n);
        proof {
            assert(be_prefix(bytes@, i + 1) == x * 256 + bytes[i as int]);
            lemma_mul_mod_noop_left(x, 256, n_val());
            lemma_add_mod_noop(before * 256, bytes[i as int] as int, n_val());
            lemma_add_mod_noop(x * 256, bytes[i as int] as int, n_val());
        }
        i = i + 1;
    }
    r
}

impl U192 {
    /// A 32-byte big-endian value reduced modulo the group order.
    pub fn from_be_bytes_32(bytes: &[u8; 32]) -> (r: U192)
        ensures
            r.value() < n_val(),
            r.value() == be_prefix(bytes@, 32) % n_val(),
    {
        reduce_256_mod_n(bytes)
    }
}

/// Field operations on representatives modulo p.
pub open spec fn fadd(a: int, b: int) -> int {
    (a + b) % p_val()
}

pub open spec fn fsub(a: int, b: int) -> int {
    (a - b) % p_val()
}

pub open spec fn fmul(a: int, b: int) -> int {
    (a * b) % p_val()
}

/// A point in Jacobian coordinates `(X, Y, Z)`: affine `(X / Z^2, Y / Z^3)`;
/// `Z = 0` is the point at infinity.
#[derive(Clone, Copy, Debug)]
pub struct ProjectivePoint {
    pub x: U160,
    pub y: U160,
    pub z: U160,
}

#[derive(Clone, Copy, Debug, PartialEq, Eq)]
pub struct AffinePoint {
    pub x: U160,
    pub y: U160,
}

/// Jacobian coordinates as integers.
pub type Jac = (int, int, int);

pub open spec fn jac_identity() -> Jac {
    (1, 1, 0)
}

/// Doubling for `a = -3`: `M = 3(X - Z^2)(X + Z^2)`, `S = 4XY^2`,
/// `X' = M^2 - 2S`, `Y' = M(S - X') - 8Y^4`, `Z' = 2YZ`, all in the field.
pub open spec fn jac_double(q: Jac) -> Jac {
    let (x, y, z) = q;
    if z == 0 {
        q
    } else {
        let z2 = fmul(z, z);
        let m3 = fmul(fsub(x, z2), fadd(x, z2));
        let m = fadd(fadd(m3, m3), m3);
        let y2 = fmul(y, y);
        let s = fmul(x, y2);
        let s4 = fadd(fadd(s, s), fadd(s, s));
        let x3 = fsub(fmul(m, m), fadd(s4, s4));
        let y4 = fmul(y2, y2);
        let y4_2 = fadd(y4, y4);
        let y4_4 = fadd(y4_2, y4_2);
        let y4_8 = fadd(y4_4, y4_4);
        let y3 = fsub(fmul(m, fsub(s4, x3)), y4_8);
        let yz = fmul(y, z);
        (x3, y3, fadd(yz, yz))
    }
}

/// Mixed addition of a Jacobian point and an affine point `(x2, y2)`.
pub open spec fn jac_add_affine(q: Jac, x2: int, y2: int) -> Jac {
    let (x1, y1, z1) = q;
    if z1 == 0 {
        (x2, y2, 1)
    } else {
        let z1s = fmul(z1, z1);
        let z1c = fmul(z1s, z1);
        let u2 = fmul(x2, z1s);
        let s2 = fmul(y2, z1c);
        let h = fsub(u2, x1);
        let r = fsub(s2, y1);
        if h == 0 {
            if r == 0 {
                jac_double(q)
            } else {
                jac_identity()
            }
        } else {
            let h2 = fmul(h, h);
            let h3 = fmul(h2, h);
            let u1h2 = fmul(x1, h2);
            let x3 = fsub(fsub(fmul(r, r), h3), fadd(u1h2, u1h2));
            let y3 = fsub(fmul(r, fsub(u1h2, x3)), fmul(y1, h3));
            (x3, y3, fmul(z1, h))
        }
    }
}

/// Left-to-right double-and-add of the generator over the `count` highest
/// bits of `k`, starting at bit `top`.
pub open spec fn ladder(k: U192, top: int, count: nat) -> Jac
    decreases count,
{
    if count == 0 {
        jac_identity()
    } else {
        let d = jac_double(ladder(k, top, (count - 1) as nat));
        if k.spec_bit(top - (count - 1)) {
            jac_add_affine(d, gx_val(), gy_val())
        } else {
            d
        }
    }
}

impl ProjectivePoint {
    pub open spec fn wf(&self) -> bool {
        self.x.is_fe() && self.y.is_fe() && self.z.is_fe()
    }

    pub open spec fn coords(&self) -> Jac {
        (self.x.value(), self.y.value(), self.z.value())
    }

    /// The point at infinity.
    pub fn identity() -> (r: Self)
        ensures
            r.wf(),
            r.coords() == jac_identity(),
    {
        ProjectivePoint { x: U160::one(), y: U160::one(), z: U160::zero() }
    }

    /// The generator with `Z = 1`.
    pub fn generator() -> (r: Self)
        ensures
            r.wf(),
            r.coords() == (gx_val(), gy_val(), 1int),
    {
        ProjectivePoint { x: gen_x(), y: gen_y(), z: U160::one() }
    }

    pub fn is_identity(&self) -> (r: bool)
        ensures
            r == (self.z.value() == 0),
    {
        self.z.is_zero()
    }

    /// `(X / Z^2, Y / Z^3)`, the inverse taken as `Z^(p-2)`; `None` at infinity.
    pub fn to_affine(&self) -> (r: Option<AffinePoint>)
        requires
            self.wf(),
        ensures
            r is None <==> self.z.value() == 0,
            r matches Some(a) ==> ({
                let zi = pow(self.z.value(), (p_val() - 2) as nat) % p_val();
                &&& a.x.is_fe() && a.y.is_fe()
                &&& a.x.value() == fmul(self.x.value(), fmul(zi, zi))
                &&& a.y.value() == fmul(self.y.value(), fmul(fmul(zi, zi), zi))
            }),
    {
        if self.is_identity() {
            return None;
        }
        let z_inv = fp_inv(&self.z);
        let z_inv2 = fp_sqr(&z_inv);
        let z_inv3 = fp_mul(&z_inv2, &z_inv);
        let x = fp_mul(&self.x, &z_inv2);
        let y = fp_mul(&self.y, &z_inv3);
        Some(AffinePoint { x, y })
    }

    pub fn double(&self) -> (r: Self)
        requires
            self.wf(),
        ensures
            r.wf(),
            r.coords() == jac_double(self.coords()),
    {
        if self.is_identity() {
            return *self;
        }
        let z2 = fp_sqr(&self.z);
        let x_sub_z2 = fp_sub(&self.x, &z2);
        let x_add_z2 = fp_add(&self.x, &z2);
        let m3 = fp_mul(&x_sub_z2, &x_add_z2);
        let m = fp_add(&fp_add(&m3, &m3), &m3);
        let y2 = fp_sqr(&self.y);
        let s = fp_mul(&self.x, &y2);
        let s4 = fp_add(&fp_add(&s, &s), &fp_add(&s, &s));
        let m2 = fp_sqr(&m);
        let x_new = fp_sub(&m2, &fp_add(&s4, &s4));
        let y4 = fp_sqr(&y2);
        let y4_2 = fp_add(&y4, &y4);
        let y4_4 = fp_add(&y4_2, &y4_2);
        let y4_8 = fp_add(&y4_4, &y4_4);
        let s4_sub_x = fp_sub(&s4, &x_new);
        let y_new = fp_sub(&fp_mul(&m, &s4_sub_x), &y4_8);
        let yz = fp_mul(&self.y, &self.z);
        let z_new = fp_add(&yz, &yz);
        ProjectivePoint { x: x_new, y: y_new, z: z_new }
    }

    /// Mixed addition: `self` in Jacobian coordinates, `other` affine.
    pub fn add_affine(&self, other: &AffinePoint) -> (r: Self)
        requires
            self.wf(),
            other.x.is_fe(),
            other.y.is_fe(),
        ensures
            r.wf(),
            r.coords() == jac_add_affine(self.coords(), other.x.value(), other.y.value()),
    {
        if self.is_identity() {
            return ProjectivePoint { x: other.x, y: other.y, z: U160::one() };
        }
        let z1_sqr = fp_sqr(&self.z);
        let z1_cub = fp_mul(&z1_sqr, &self.z);
        let u2 = fp_mul(&other.x, &z1_sqr);
        let s2 = fp_mul(&other.y, &z1_cub);
        let h = fp_sub(&u2, &self.x);
        let r = fp_sub(&s2, &self.y);
        if h.is_zero() {
            if r.is_zero() {
                return self.double();
            }
            return Self::identity();
        }
        let h2 = fp_sqr(&h);
        let h3 = fp_mul(&h2, &h);
        let u1_h2 = fp_mul(&self.x, &h2);
        let x3 = fp_sub(&fp_sub(&fp_sqr(&r), &h3), &fp_add(&u1_h2, &u1_h2));
        let y3 = fp_sub(&fp_mul(&r, &fp_sub(&u1_h2, &x3)), &fp_mul(&self.y, &h3));
        let z3 = fp_mul(&self.z, &h);
        ProjectivePoint { x: x3, y: y3, z: z3 }
    }
}

/// The generator in affine coordinates.
pub fn generator_affine() -> (r: AffinePoint)
    ensures
        r.x.is_fe() && r.y.is_fe(),
        r.x.value() == gx_val() && r.y.value() == gy_val(),
{
    AffinePoint { x: gen_x(), y: gen_y() }
}

/// The highest set bit of a non-zero number.
pub open spec fn top_bit(k: U192) -> int {
    choose|b: int| k.is_top_bit(b)
}

/// The point that left-to-right double-and-add of the generator reaches for
/// the bits of `k` (the identity for zero). That this is the group element
/// `k * G` rests on the group law, which is not proved here.
pub open spec fn double_and_add(k: U192) -> Jac {
    if k.value() == 0 {
        jac_identity()
    } else {
        ladder(k, top_bit(k), (top_bit(k) + 1) as nat)
    }
}

/// A number has at most one highest set bit.
pub proof fn lemma_top_bit_unique(k: U192, a: int, b: int)
    requires
        k.is_top_bit(a),
        k.is_top_bit(b),
    ensures
        a == b,
{
    if a / 32 < b / 32 {
        assert(k.limbs[b / 32] == 0);
        vstd::arithmetic::power2::lemma_pow2_pos((b % 32) as nat);
        vstd::arithmetic::div_mod::lemma_div_of0((pow2((b % 32) as nat) as int));
    } else if b / 32 < a / 32 {
        assert(k.limbs[a / 32] == 0);
        vstd::arithmetic::power2::lemma_pow2_pos((a % 32) as nat);
        vstd::arithmetic::div_mod::lemma_div_of0((pow2((a % 32) as nat) as int));
    } else if a % 32 != b % 32 {
        let l = k.limbs[a / 32] as int;
        let (lo, hi) = if a % 32 < b % 32 {
            (a % 32, b % 32)
        } else {
            (b % 32, a % 32)
        };
        let pl = pow2(lo as nat) as int;
        let ph = pow2(hi as nat) as int;
        vstd::arithmetic::power2::lemma_pow2_pos(lo as nat);
        vstd::arithmetic::power2::lemma_pow2_pos(hi as nat);
        vstd::arithmetic::power2::lemma_pow2_strictly_increases(lo as nat, (lo + 1) as nat);
        lemma_pow2_unfold((lo + 1) as nat);
        if lo + 1 < hi {
            vstd::arithmetic::power2::lemma_pow2_strictly_increases((lo + 1) as nat, hi as nat);
        }
        assert(l / pl == 1 && l / ph == 1);
        vstd::arithmetic::div_mod::lemma_fundamental_div_mod(l, ph);
        vstd::arithmetic::div_mod::lemma_fundamental_div_mod(l, pl);
        assert(l >= ph);
        assert(l >= 2 * pl);
        assert(false) by (nonlinear_arith)
            requires
                l == pl * (l / pl) + l % pl,
                l / pl == 1,
                l % pl < pl,
                l >= 2 * pl,
        ;
    }
}

/// `scalar * G` by left-to-right double-and-add from the highest set bit.
pub fn scalar_mul_generator(scalar: &U192) -> (r: ProjectivePoint)
    ensures
        r.wf(),
        r.coords() == double_and_add(*scalar),
{
    if scalar.is_zero() {
        return ProjectivePoint::identity();
    }
    let top = match scalar.bit_length() {
        Some(b) => b,
        None => return ProjectivePoint::identity(),
    };
    let g = generator_affine();
    let mut result = ProjectivePoint::identity();
    let mut count: usize = 0;
    while count <= top
        invariant
            top < 192,
            count <= top + 1,
            result.wf(),
            result.coords() == ladder(*scalar, top as int, count as nat),
            g.x.value() == gx_val() && g.y.value() == gy_val(),
            g.x.is_fe() && g.y.is_fe(),
        decreases top + 1 - count,
    {
        result = result.double();
        if scalar.bit(top - count) {
            result = result.add_affine(&g);
        }
        count = count + 1;
    }
    proof {
        lemma_top_bit_unique(*scalar, top as int, top_bit(*scalar));
    }
    result
}

pub open spec fn is_hex_digit(c: u8) -> bool {
    (0x30 <= c <= 0x39) || (0x61 <= c <= 0x66) || (0x41 <= c <= 0x46)
}

pub open spec fn hex_val(c: u8) -> int {
    if 0x30 <= c <= 0x39 {
        c - 0x30
    } else if 0x61 <= c <= 0x66 {
        c - 0x61 + 10
    } else {
        c - 0x41 + 10
    }
}

/// The number that the first `i` hex digits of `s` spell.
pub open spec fn hex_prefix(s: Seq<u8>, i: int) -> int
    decreases i,
{
    if i <= 0 {
        0
    } else {
        hex_prefix(s, i - 1) * 16 + hex_val(s[i - 1])
    }
}

pub open spec fn all_hex(s: Seq<u8>, lo: int, hi: int) -> bool {
    forall|j: int| lo <= j < hi ==> is_hex_digit(#[trigger] s[j])
}

pub open spec fn pow16(i: nat) -> int
    decreases i,
{
    if i == 0 {
        1
    } else {
        16 * pow16((i - 1) as nat)
    }
}

pub fn hex_digit(c: u8) -> (r: u32)
    requires
        is_hex_digit(c),
    ensures
        r == hex_val(c),
{
    if 0x30 <= c && c <= 0x39 {
        (c - 0x30) as u32
    } else if 0x61 <= c && c <= 0x66 {
        (c - 0x61 + 10) as u32
    } else {
        (c - 0x41 + 10) as u32
    }
}

/// The word spelled by the 8 hex digits at `offset`.
pub fn parse_hex_u32(bytes: &[u8], offset: usize) -> (r: u32)
    requires
        offset + 8 <= bytes@.len(),
        all_hex(bytes@, offset as int, offset + 8),
    ensures
        hex_prefix(bytes@, offset + 8) == hex_prefix(bytes@, offset as int) * w32() + r,
{
    let _n = bytes.len();
    let mut val: u32 = 0;
    let mut i: usize = 0;
    let ghost h = hex_prefix(bytes@, offset as int);
    while i < 8
        invariant
            offset + 8 <= bytes@.len(),
            bytes@.len() <= usize::MAX,
            all_hex(bytes@, offset as int, offset + 8),
            h == hex_prefix(bytes@, offset as int),
            i <= 8,
            val < pow16(i as nat),
            hex_prefix(bytes@, offset + i) == h * pow16(i as nat) + val,
        decreases 8 - i,
    {
        let d = hex_digit(bytes[offset + i]);
        proof {
            reveal_with_fuel(pow16, 9);
            assert(pow16(i as nat) <= 0x1000_0000);
        }
        let ghost v0 = val as int;
        val = val * 16 + d;
        proof {
            let pw = pow16(i as nat);
            assert(hex_prefix(bytes@, offset + i + 1) == hex_prefix(bytes@, offset + i) * 16
                + hex_val(bytes@[offset + i]));
            assert((h * pw + v0) * 16 + d == h * (16 * pw) + (v0 * 16 + d)) by (nonlinear_arith);
        }
        i = i + 1;
    }
    proof {
        reveal_with_fuel(pow16, 9);
    }
    val
}

/// Leading zero digits do not change the number.
proof fn lemma_hex_leading_zeros(padded: Seq<u8>, s: Seq<u8>, start: int, i: int)
    requires
        0 <= start,
        0 <= i <= s.len(),
        padded.len() == start + s.len(),
        forall|j: int| 0 <= j < start ==> padded[j] == 0x30,
        forall|j: int| 0 <= j < s.len() ==> padded[start + j] == s[j],
    ensures
        hex_prefix(padded, start + i) == hex_prefix(s, i),
    decreases i,
{
    if i == 0 {
        lemma_hex_zero_prefix(padded, start);
    } else {
        lemma_hex_leading_zeros(padded, s, start, i - 1);
        assert(padded[start + i - 1] == s[i - 1]);
    }
}

proof fn lemma_hex_zero_prefix(padded: Seq<u8>, k: int)
    requires
        0 <= k <= padded.len(),
        forall|j: int| 0 <= j < k ==> padded[j] == 0x30,
    ensures
        hex_prefix(padded, k) == 0,
    decreases k,
{
    if k > 0 {
        lemma_hex_zero_prefix(padded, k - 1);
    }
}

impl U160 {
    /// The number spelled by exactly 40 hex digits, most significant first.
    pub fn from_be_hex(hex: &str) -> (r: U160)
        requires
            hex.spec_bytes().len() == 40,
            all_hex(hex.spec_bytes(), 0, 40),
        ensures
            r.value() == hex_prefix(hex.spec_bytes(), 40),
    {
        let bytes = hex.as_bytes();
        let l4 = parse_hex_u32(bytes, 0);
        let l3 = parse_hex_u32(bytes, 8);
        let l2 = parse_hex_u32(bytes, 16);
        let l1 = parse_hex_u32(bytes, 24);
        let l0 = parse_hex_u32(bytes, 32);
        proof {
            assert(hex_prefix(bytes@, 0) == 0);
        }
        U160::from_limbs(l0, l1, l2, l3, l4)
    }
}

impl U192 {
    /// The number spelled by up to 48 hex digits, most significant first.
    pub fn from_be_hex(hex: &str) -> (r: U192)
        requires
            hex.spec_bytes().len() <= 48,
            all_hex(hex.spec_bytes(), 0, hex.spec_bytes().len() as int),
        ensures
            r.value() == hex_prefix(hex.spec_bytes(), hex.spec_bytes().len() as int),
    {
        let bytes = hex.as_bytes();
        let len = bytes.len();
        let start = 48 - len;
        let mut padded = [0x30u8; 48];
        let mut i: usize = 0;
        while i < len
            invariant
                len == bytes@.len(),
                len <= 48,
                start == 48 - len,
                i <= len,
                forall|j: int| 0 <= j < start ==> padded[j] == 0x30,
                forall|j: int| start + i <= j < 48 ==> padded[j] == 0x30,
                forall|j: int| 0 <= j < i ==> padded[start + j] == bytes@[j],
            decreases len - i,
        {
            padded[start + i] = bytes[i];
            i = i + 1;
        }
        let ghost ps = padded@;
        proof {
            assert(all_hex(ps, 0, 48)) by {
                assert forall|j: int| 0 <= j < 48 implies is_hex_digit(#[trigger] ps[j]) by {
                    if j >= start {
                        assert(ps[j] == bytes@[j - start]);
                    }
                }
            }
            lemma_hex_leading_zeros(ps, bytes@, start as int, len as int);
        }
        let p = padded.as_slice();
        let l5 = parse_hex_u32(p, 0);
        let l4 = parse_hex_u32(p, 8);
        let l3 = parse_hex_u32(p, 16);
        let l2 = parse_hex_u32(p, 24);
        let l1 = parse_hex_u32(p, 32);
        let l0 = parse_hex_u32(p, 40);
        proof {
            assert(hex_prefix(p@, 0) == 0);
        }
        U192::from_limbs(l0, l1, l2, l3, l4, l5)
    }
}

/// The curve equation `y^2 = x^3 + a x + b (mod p)` with `a = p - 3`.
pub open spec fn on_curve(x: int, y: int) -> bool {
    (y * y) % p_val() == (x * x * x + (p_val() - 3) * x + b_val()) % p_val()
}

/// The generator lies on the curve.
pub proof fn lemma_generator_on_curve()
    ensures
        on_curve(gx_val(), gy_val()),
{
    assert(gy_val() * gy_val() == ((0x5452e2e8b8b36279 as int) + (0xa05968056085e433 as int) * (0x1_0000_0000_0000_0000 as int) + (0x4f6dadf as int) * (0x1_0000_0000_0000_0000 as int) * (0x1_0000_0000_0000_0000 as int)) * p_val() + ((0x354174297222783d as int) + (0x924fcfe4bfb11663 as int) * (0x1_0000_0000_0000_0000 as int) + (0x8231f62e as int) * (0x1_0000_0000_0000_0000 as int) * (0x1_0000_0000_0000_0000 as int))) by (nonlinear_arith);
    assert(gx_val() * gx_val() * gx_val() + (p_val() - 3) * gx_val() + b_val() == ((0xd2f6e14eb0f319f8 as int) + (0xa127b56d890ce477 as int) * (0x1_0000_0000_0000_0000 as int) + (0x26a8a459f2b9ef1a as int) * (0x1_0000_0000_0000_0000 as int) * (0x1_0000_0000_0000_0000 as int) + (0x848ffe6cdab3abdc as int) * (0x1_0000_0000_0000_0000 as int) * (0x1_0000_0000_0000_0000 as int) * (0x1_0000_0000_0000_0000 as int) + (0x654fc660f0c60e8 as int) * (0x1_0000_0000_0000_0000 as int) * (0x1_0000_0000_0000_0000 as int) * (0x1_0000_0000_0000_0000 as int) * (0x1_0000_0000_0000_0000 as int)) * p_val() + ((0x354174297222783d as int) + (0x924fcfe4bfb11663 as int) * (0x1_0000_0000_0000_0000 as int) + (0x8231f62e as int) * (0x1_0000_0000_0000_0000 as int) * (0x1_0000_0000_0000_0000 as int)))
        by (nonlinear_arith);
    vstd::arithmetic::div_mod::lemma_fundamental_div_mod_converse(gy_val() * gy_val(), p_val(), ((0x5452e2e8b8b36279 as int) + (0xa05968056085e433 as int) * (0x1_0000_0000_0000_0000 as int) + (0x4f6dadf as int) * (0x1_0000_0000_0000_0000 as int) * (0x1_0000_0000_0000_0000 as int)), ((0x354174297222783d as int) + (0x924fcfe4bfb11663 as int) * (0x1_0000_0000_0000_0000 as int) + (0x8231f62e as int) * (0x1_0000_0000_0000_0000 as int) * (0x1_0000_0000_0000_0000 as int)));
    vstd::arithmetic::div_mod::lemma_fundamental_div_mod_converse(
        gx_val() * gx_val() * gx_val() + (p_val() - 3) * gx_val() + b_val(),
        p_val(),
        ((0xd2f6e14eb0f319f8 as int) + (0xa127b56d890ce477 as int) * (0x1_0000_0000_0000_0000 as int) + (0x26a8a459f2b9ef1a as int) * (0x1_0000_0000_0000_0000 as int) * (0x1_0000_0000_0000_0000 as int) + (0x848ffe6cdab3abdc as int) * (0x1_0000_0000_0000_0000 as int) * (0x1_0000_0000_0000_0000 as int) * (0x1_0000_0000_0000_0000 as int) + (0x654fc660f0c60e8 as int) * (0x1_0000_0000_0000_0000 as int) * (0x1_0000_0000_0000_0000 as int) * (0x1_0000_0000_0000_0000 as int) * (0x1_0000_0000_0000_0000 as int)),
        ((0x354174297222783d as int) + (0x924fcfe4bfb11663 as int) * (0x1_0000_0000_0000_0000 as int) + (0x8231f62e as int) * (0x1_0000_0000_0000_0000 as int) * (0x1_0000_0000_0000_0000 as int)),
    );
}

} // verus!
