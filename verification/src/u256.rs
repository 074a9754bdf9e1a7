//! 256-bit unsigned amounts.
//!
//! Every balance and fee in the engine is a non-negative 256-bit integer.
//! The type stores four 64-bit limbs, least significant first, and its
//! mathematical value is given by [`U256::as_nat`]. Arithmetic either
//! succeeds exactly or reports that the mathematical result does not fit.

use vstd::prelude::*;
use vstd::string::StrSliceExecFns;

verus! {

/// 2^64, as a spec-level constant.
pub open spec fn pow64() -> nat {
    0x1_0000_0000_0000_0000nat
}

/// 2^128.
pub open spec fn pow128() -> nat {
    0x1_0000_0000_0000_0000_0000_0000_0000_0000nat
}

/// 2^192.
pub open spec fn pow192() -> nat {
    0x1_0000_0000_0000_0000_0000_0000_0000_0000_0000_0000_0000_0000nat
}

/// 2^256; amounts are exactly the naturals below this bound.
pub open spec fn pow256() -> nat {
    0x1_0000_0000_0000_0000_0000_0000_0000_0000_0000_0000_0000_0000_0000_0000_0000_0000nat
}

/// A 256-bit unsigned integer: four 64-bit limbs, least significant first.
#[derive(Clone, Copy, Debug, PartialEq, Eq, Hash, Structural)]
pub struct U256 {
    pub l0: u64,
    pub l1: u64,
    pub l2: u64,
    pub l3: u64,
}

/// A checked addition, offered as a trait so callers can stay generic
/// over the amount type.
pub trait CheckedAdd: Sized {
    fn checked_add_t(self, other: Self) -> Option<Self>;
}

/// A zero element for an amount type.
pub trait Zero: Sized {
    fn zero_t() -> Self;
}

impl U256 {
    /// The mathematical value of this amount.
    pub open spec fn as_nat(&self) -> nat {
        self.l0 as nat + self.l1 as nat * pow64() + self.l2 as nat * pow128() + self.l3 as nat
            * pow192()
    }

    pub fn zero() -> (r: U256)
        ensures
            r.as_nat() == 0,
    {
        U256 { l0: 0, l1: 0, l2: 0, l3: 0 }
    }

    pub fn max_value() -> (r: U256)
        ensures
            r.as_nat() == pow256() - 1,
    {
        U256 { l0: u64::MAX, l1: u64::MAX, l2: u64::MAX, l3: u64::MAX }
    }

    pub fn from_u64(v: u64) -> (r: U256)
        ensures
            r.as_nat() == v,
    {
        U256 { l0: v, l1: 0, l2: 0, l3: 0 }
    }

    pub fn from_u128(v: u128) -> (r: U256)
        ensures
            r.as_nat() == v,
    {
        let lo: u64 = (v % 0x1_0000_0000_0000_0000) as u64;
        let hi: u64 = (v / 0x1_0000_0000_0000_0000) as u64;
        U256 { l0: lo, l1: hi, l2: 0, l3: 0 }
    }

    pub fn is_zero(&self) -> (r: bool)
        ensures
            r == (self.as_nat() == 0),
    {
        self.l0 == 0 && self.l1 == 0 && self.l2 == 0 && self.l3 == 0
    }

    /// Exact addition, or `None` when the sum does not fit in 256 bits.
    pub fn checked_add(&self, other: &U256) -> (r: Option<U256>)
        ensures
            match r {
                Some(c) => c.as_nat() == self.as_nat() + other.as_nat(),
                None => self.as_nat() + other.as_nat() >= pow256(),
            },
    {
        let b: u128 = 0x1_0000_0000_0000_0000;
        let s0: u128 = self.l0 as u128 + other.l0 as u128;
        let r0: u64 = (s0 % b) as u64;
        let c0: u128 = s0 / b;
        let s1: u128 = self.l1 as u128 + other.l1 as u128 + c0;
        let r1: u64 = (s1 % b) as u64;
        let c1: u128 = s1 / b;
        let s2: u128 = self.l2 as u128 + other.l2 as u128 + c1;
        let r2: u64 = (s2 % b) as u64;
        let c2: u128 = s2 / b;
        let s3: u128 = self.l3 as u128 + other.l3 as u128 + c2;
        let r3: u64 = (s3 % b) as u64;
        let c3: u128 = s3 / b;
        let out = U256 { l0: r0, l1: r1, l2: r2, l3: r3 };
        proof {
            assert(self.as_nat() + other.as_nat() == out.as_nat() + c3 * pow256()) by (nonlinear_arith)
                requires
                    s0 == self.l0 + other.l0,
                    s1 == self.l1 + other.l1 + c0,
                    s2 == self.l2 + other.l2 + c1,
                    s3 == self.l3 + other.l3 + c2,
                    r0 == s0 % (pow64() as u128) && c0 == s0 / (pow64() as u128),
                    r1 == s1 % (pow64() as u128) && c1 == s1 / (pow64() as u128),
                    r2 == s2 % (pow64() as u128) && c2 == s2 / (pow64() as u128),
                    r3 == s3 % (pow64() as u128) && c3 == s3 / (pow64() as u128),
                    self.as_nat() == self.l0 as nat + self.l1 as nat * pow64() + self.l2 as nat
                        * pow128() + self.l3 as nat * pow192(),
                    other.as_nat() == other.l0 as nat + other.l1 as nat * pow64() + other.l2 as nat
                        * pow128() + other.l3 as nat * pow192(),
                    out.as_nat() == r0 as nat + r1 as nat * pow64() + r2 as nat * pow128()
                        + r3 as nat * pow192(),
            {
            }
        }
        if c3 == 0 {
            Some(out)
        } else {
            None
        }
    }

    /// Exact subtraction; the caller must know the difference is non-negative.
    pub fn sub(&self, other: &U256) -> (r: U256)
        requires
            other.as_nat() <= self.as_nat(),
        ensures
            r.as_nat() == self.as_nat() - other.as_nat(),
    {
        let b: u128 = 0x1_0000_0000_0000_0000;
        let t0: u128 = self.l0 as u128 + b - other.l0 as u128;
        let r0: u64 = (t0 % b) as u64;
        let w0: u128 = 1 - t0 / b;
        let t1: u128 = self.l1 as u128 + b - other.l1 as u128 - w0;
        let r1: u64 = (t1 % b) as u64;
        let w1: u128 = 1 - t1 / b;
        let t2: u128 = self.l2 as u128 + b - other.l2 as u128 - w1;
        let r2: u64 = (t2 % b) as u64;
        let w2: u128 = 1 - t2 / b;
        let t3: u128 = self.l3 as u128 + b - other.l3 as u128 - w2;
        let r3: u64 = (t3 % b) as u64;
        let w3: u128 = 1 - t3 / b;
        let out = U256 { l0: r0, l1: r1, l2: r2, l3: r3 };
        proof {
            assert(out.as_nat() + other.as_nat() == self.as_nat() + w3 * pow256()) by (nonlinear_arith)
                requires
                    t0 == self.l0 as u128 + pow64() - other.l0,
                    t1 == self.l1 as u128 + pow64() - other.l1 - w0,
                    t2 == self.l2 as u128 + pow64() - other.l2 - w1,
                    t3 == self.l3 as u128 + pow64() - other.l3 - w2,
                    r0 == t0 % (pow64() as u128) && w0 == 1 - t0 / (pow64() as u128),
                    r1 == t1 % (pow64() as u128) && w1 == 1 - t1 / (pow64() as u128),
                    r2 == t2 % (pow64() as u128) && w2 == 1 - t2 / (pow64() as u128),
                    r3 == t3 % (pow64() as u128) && w3 == 1 - t3 / (pow64() as u128),
                    self.as_nat() == self.l0 as nat + self.l1 as nat * pow64() + self.l2 as nat
                        * pow128() + self.l3 as nat * pow192(),
                    other.as_nat() == other.l0 as nat + other.l1 as nat * pow64() + other.l2 as nat
                        * pow128() + other.l3 as nat * pow192(),
                    out.as_nat() == r0 as nat + r1 as nat * pow64() + r2 as nat * pow128()
                        + r3 as nat * pow192(),
            {
            }
            assert(w3 == 0);
        }
        out
    }

    /// Exact multiplication by a 64-bit factor, or `None` when the product
    /// does not fit in 256 bits.
    pub fn checked_mul_u64(&self, m: u64) -> (r: Option<U256>)
        ensures
            match r {
                Some(c) => c.as_nat() == self.as_nat() * m,
                None => self.as_nat() * m >= pow256(),
            },
    {
        let b: u128 = 0x1_0000_0000_0000_0000;
        proof {
            lemma_mul_u64_bound(self.l0, m);
            lemma_mul_u64_bound(self.l1, m);
            lemma_mul_u64_bound(self.l2, m);
            lemma_mul_u64_bound(self.l3, m);
        }
        let p0: u128 = self.l0 as u128 * m as u128;
        let r0: u64 = (p0 % b) as u64;
        let c0: u128 = p0 / b;
        let p1: u128 = self.l1 as u128 * m as u128 + c0;
        let r1: u64 = (p1 % b) as u64;
        let c1: u128 = p1 / b;
        let p2: u128 = self.l2 as u128 * m as u128 + c1;
        let r2: u64 = (p2 % b) as u64;
        let c2: u128 = p2 / b;
        let p3: u128 = self.l3 as u128 * m as u128 + c2;
        let r3: u64 = (p3 % b) as u64;
        let c3: u128 = p3 / b;
        let out = U256 { l0: r0, l1: r1, l2: r2, l3: r3 };
        proof {
            assert(self.as_nat() * m == out.as_nat() + c3 * pow256()) by (nonlinear_arith)
                requires
                    p0 == self.l0 as nat * m,
                    p1 == self.l1 as nat * m + c0,
                    p2 == self.l2 as nat * m + c1,
                    p3 == self.l3 as nat * m + c2,
                    r0 == p0 % (pow64() as u128) && c0 == p0 / (pow64() as u128),
                    r1 == p1 % (pow64() as u128) && c1 == p1 / (pow64() as u128),
                    r2 == p2 % (pow64() as u128) && c2 == p2 / (pow64() as u128),
                    r3 == p3 % (pow64() as u128) && c3 == p3 / (pow64() as u128),
                    self.as_nat() == self.l0 as nat + self.l1 as nat * pow64() + self.l2 as nat
                        * pow128() + self.l3 as nat * pow192(),
                    out.as_nat() == r0 as nat + r1 as nat * pow64() + r2 as nat * pow128()
                        + r3 as nat * pow192(),
            {
            }
        }
        if c3 == 0 {
            Some(out)
        } else {
            None
        }
    }

    /// Strict order on values.
    pub fn lt(&self, other: &U256) -> (r: bool)
        ensures
            r == (self.as_nat() < other.as_nat()),
    {
        proof {
            lemma_limb_order(*self, *other);
            lemma_limb_order(*other, *self);
        }
        if self.l3 != other.l3 {
            self.l3 < other.l3
        } else if self.l2 != other.l2 {
            self.l2 < other.l2
        } else if self.l1 != other.l1 {
            self.l1 < other.l1
        } else {
            self.l0 < other.l0
        }
    }

    /// Non-strict order on values.
    pub fn le(&self, other: &U256) -> (r: bool)
        ensures
            r == (self.as_nat() <= other.as_nat()),
    {
        let gt = other.lt(self);
        !gt
    }

    /// The larger of two amounts.
    pub fn max(self, other: U256) -> (r: U256)
        ensures
            r.as_nat() == if self.as_nat() >= other.as_nat() {
                self.as_nat()
            } else {
                other.as_nat()
            },
    {
        if self.lt(&other) {
            other
        } else {
            self
        }
    }
}

impl U256 {
    /// The 32 big-endian bytes of this value.
    pub fn to_be_bytes(&self) -> (r: Vec<u8>)
        ensures
            r@ =~= crate::hexs::be_bytes_of(self.as_nat(), 32),
    {
        let mut out = u64_be_bytes(self.l3);
        let mut p2 = u64_be_bytes(self.l2);
        let mut p1 = u64_be_bytes(self.l1);
        let mut p0 = u64_be_bytes(self.l0);
        out.append(&mut p2);
        out.append(&mut p1);
        out.append(&mut p0);
        proof {
            let v = self.as_nat();
            let a2 = self.l3 as nat * pow64() + self.l2 as nat;
            let a1 = a2 * pow64() + self.l1 as nat;
            lemma_pow_256_8();
            assert(a1 * pow64() + self.l0 as nat == v) by (nonlinear_arith)
                requires
                    a2 == self.l3 as nat * pow64() + self.l2 as nat,
                    a1 == a2 * pow64() + self.l1 as nat,
                    v == self.l0 as nat + self.l1 as nat * pow64() + self.l2 as nat * pow128()
                        + self.l3 as nat * pow192(),
                    pow128() == pow64() * pow64(),
                    pow192() == pow64() * pow128(),
            {
            }
            crate::hexs::lemma_be_bytes_split(a1, self.l0 as nat, 24, 8);
            crate::hexs::lemma_be_bytes_split(a2, self.l1 as nat, 16, 8);
            crate::hexs::lemma_be_bytes_split(self.l3 as nat, self.l2 as nat, 8, 8);
        }
        out
    }

    /// Parses the hex digits of `s` from `start` to the end as a value;
    /// `None` when a character is no digit, nothing follows `start`, or
    /// the value needs more than 256 bits.
    pub fn parse_hex(s: &str, start: usize) -> (r: Option<U256>)
        requires
            start <= s@.len() <= usize::MAX,
        ensures
            match r {
                Some(v) => {
                    &&& s@.len() - start >= 1
                    &&& crate::hexs::all_hex_digits(s@.skip(start as int))
                    &&& crate::hexs::hex_seq_val(s@.skip(start as int)) == v.as_nat()
                },
                None => {
                    ||| s@.len() - start < 1
                    ||| !crate::hexs::all_hex_digits(s@.skip(start as int))
                    ||| crate::hexs::hex_seq_val(s@.skip(start as int)) >= pow256()
                },
            },
    {
        let n = s.unicode_len();
        if n <= start {
            return None;
        }
        let ghost whole = s@.skip(start as int);
        let mut acc = U256::zero();
        let mut i: usize = start;
        while i < n
            invariant
                start <= i <= n,
                n == s@.len() <= usize::MAX,
                whole == s@.skip(start as int),
                crate::hexs::all_hex_digits(whole.take(i - start)),
                acc.as_nat() == crate::hexs::hex_seq_val(whole.take(i - start)),
            decreases n - i,
        {
            let c = s.get_char(i);
            proof {
                assert(whole[i - start] == c);
            }
            let d = match crate::hexs::hex_char_to_val(c) {
                Some(d) => d,
                None => {
                    return None;
                },
            };
            let shifted = match acc.checked_mul_u64(16) {
                Some(x) => x,
                None => {
                    proof {
                        lemma_hex_val_take_step(whole, i - start);
                        crate::hexs::lemma_hex_prefix_le(whole, i + 1 - start);
                    }
                    return None;
                },
            };
            let step = match shifted.checked_add(&U256::from_u64(d as u64)) {
                Some(x) => x,
                None => {
                    proof {
                        lemma_hex_val_take_step(whole, i - start);
                        crate::hexs::lemma_hex_prefix_le(whole, i + 1 - start);
                    }
                    return None;
                },
            };
            acc = step;
            proof {
                lemma_hex_val_take_step(whole, i - start);
            }
            i += 1;
        }
        proof {
            assert(whole.take(n - start) =~= whole);
        }
        Some(acc)
    }
}

/// Unfolding `hex_seq_val` one prefix step: the value of `take(j + 1)` is
/// the value of `take(j)` shifted by one digit.
proof fn lemma_hex_val_take_step(s: Seq<char>, j: int)
    requires
        0 <= j < s.len(),
    ensures
        crate::hexs::hex_seq_val(s.take(j + 1)) == crate::hexs::hex_seq_val(s.take(j)) * 16
            + crate::hexs::hex_char_val(s[j]),
{
    assert(s.take(j + 1).drop_last() =~= s.take(j));
    assert(s.take(j + 1).last() == s[j]);
}

/// 256^8 is 2^64.
proof fn lemma_pow_256_8()
    ensures
        vstd::arithmetic::power::pow(256, 8) == pow64(),
        pow128() == pow64() * pow64(),
        pow192() == pow64() * pow128(),
{
    reveal_with_fuel(vstd::arithmetic::power::pow, 9);
}

/// The 8 big-endian bytes of a 64-bit value.
fn u64_be_bytes(l: u64) -> (r: Vec<u8>)
    ensures
        r@ =~= crate::hexs::be_bytes_of(l as nat, 8),
{
    let x1: u64 = l / 256;
    let b7: u8 = (l % 256) as u8;
    let x2: u64 = x1 / 256;
    let b6: u8 = (x1 % 256) as u8;
    let x3: u64 = x2 / 256;
    let b5: u8 = (x2 % 256) as u8;
    let x4: u64 = x3 / 256;
    let b4: u8 = (x3 % 256) as u8;
    let x5: u64 = x4 / 256;
    let b3: u8 = (x4 % 256) as u8;
    let x6: u64 = x5 / 256;
    let b2: u8 = (x5 % 256) as u8;
    let x7: u64 = x6 / 256;
    let b1: u8 = (x6 % 256) as u8;
    let b0: u8 = (x7 % 256) as u8;
    proof {
        assert(x7 / 256 == 0);
        assert(crate::hexs::be_bytes_of(0, 0) =~= Seq::empty());
        assert(crate::hexs::be_bytes_of(x7 as nat, 1) =~= seq![b0]);
        assert(crate::hexs::be_bytes_of(x6 as nat, 2) =~= seq![b0, b1]);
        assert(crate::hexs::be_bytes_of(x5 as nat, 3) =~= seq![b0, b1, b2]);
        assert(crate::hexs::be_bytes_of(x4 as nat, 4) =~= seq![b0, b1, b2, b3]);
        assert(crate::hexs::be_bytes_of(x3 as nat, 5) =~= seq![b0, b1, b2, b3, b4]);
        assert(crate::hexs::be_bytes_of(x2 as nat, 6) =~= seq![b0, b1, b2, b3, b4, b5]);
        assert(crate::hexs::be_bytes_of(x1 as nat, 7) =~= seq![b0, b1, b2, b3, b4, b5, b6]);
        assert(crate::hexs::be_bytes_of(l as nat, 8) =~= seq![b0, b1, b2, b3, b4, b5, b6, b7]);
    }
    vec![b0, b1, b2, b3, b4, b5, b6, b7]
}

/// The product of two 64-bit values, plus a carry below 2^64, fits in 128 bits.
proof fn lemma_mul_u64_bound(a: u64, b: u64)
    ensures
        a as nat * b as nat <= 0xFFFF_FFFF_FFFF_FFFE_0000_0000_0000_0001nat,
        a as nat * b as nat + pow64() <= 0xFFFF_FFFF_FFFF_FFFF_0000_0000_0000_0001nat,
{
    assert(a as nat * b as nat <= 0xFFFF_FFFF_FFFF_FFFE_0000_0000_0000_0001nat)
        by (nonlinear_arith)
        requires
            a < pow64() && b < pow64(),
    {
    }
}

/// Comparing limbs from the most significant end decides the order of values.
proof fn lemma_limb_order(a: U256, b: U256)
    ensures
        a.l3 < b.l3 ==> a.as_nat() < b.as_nat(),
        a.l3 == b.l3 && a.l2 < b.l2 ==> a.as_nat() < b.as_nat(),
        a.l3 == b.l3 && a.l2 == b.l2 && a.l1 < b.l1 ==> a.as_nat() < b.as_nat(),
        a.l3 == b.l3 && a.l2 == b.l2 && a.l1 == b.l1 ==> (a.as_nat() < b.as_nat() <==> a.l0 < b.l0),
{
    assert(a.l3 < b.l3 ==> a.as_nat() < b.as_nat()) by (nonlinear_arith)
        requires
            a.as_nat() == a.l0 as nat + a.l1 as nat * pow64() + a.l2 as nat * pow128() + a.l3 as nat
                * pow192(),
            b.as_nat() == b.l0 as nat + b.l1 as nat * pow64() + b.l2 as nat * pow128() + b.l3 as nat
                * pow192(),
            a.l0 < pow64() && a.l1 < pow64() && a.l2 < pow64() && a.l3 < pow64(),
            b.l0 < pow64() && b.l1 < pow64() && b.l2 < pow64() && b.l3 < pow64(),
    {
    }
    assert(a.l3 == b.l3 && a.l2 < b.l2 ==> a.as_nat() < b.as_nat()) by (nonlinear_arith)
        requires
            a.as_nat() == a.l0 as nat + a.l1 as nat * pow64() + a.l2 as nat * pow128() + a.l3 as nat
                * pow192(),
            b.as_nat() == b.l0 as nat + b.l1 as nat * pow64() + b.l2 as nat * pow128() + b.l3 as nat
                * pow192(),
            a.l0 < pow64() && a.l1 < pow64() && a.l2 < pow64() && a.l3 < pow64(),
            b.l0 < pow64() && b.l1 < pow64() && b.l2 < pow64() && b.l3 < pow64(),
    {
    }
    assert(a.l3 == b.l3 && a.l2 == b.l2 && a.l1 < b.l1 ==> a.as_nat() < b.as_nat())
        by (nonlinear_arith)
        requires
            a.as_nat() == a.l0 as nat + a.l1 as nat * pow64() + a.l2 as nat * pow128() + a.l3 as nat
                * pow192(),
            b.as_nat() == b.l0 as nat + b.l1 as nat * pow64() + b.l2 as nat * pow128() + b.l3 as nat
                * pow192(),
            a.l0 < pow64() && a.l1 < pow64() && a.l2 < pow64() && a.l3 < pow64(),
            b.l0 < pow64() && b.l1 < pow64() && b.l2 < pow64() && b.l3 < pow64(),
    {
    }
}

impl CheckedAdd for U256 {
    fn checked_add_t(self, other: Self) -> (r: Option<U256>)
        ensures
            match r {
                Some(c) => c.as_nat() == self.as_nat() + other.as_nat(),
                None => self.as_nat() + other.as_nat() >= pow256(),
            },
    {
        self.checked_add(&other)
    }
}

impl Zero for U256 {
    fn zero_t() -> (r: U256)
        ensures
            r.as_nat() == 0,
    {
        U256::zero()
    }
}

} // verus!
