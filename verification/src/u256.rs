//! A 256-bit unsigned integer built from two 128-bit limbs, with verified
//! addition, subtraction, comparison, division and small-factor
//! multiplication.  Difficulty retargeting and the proof-of-work predicate
//! do all of their wide arithmetic through this type.

use vstd::prelude::*;
use vstd::arithmetic::mul::{
    lemma_mul_inequality, lemma_mul_is_associative, lemma_mul_is_commutative,
    lemma_mul_is_distributive_add, lemma_mul_is_distributive_add_other_way,
    lemma_mul_is_distributive_sub,
};
use vstd::arithmetic::power2::{lemma2_to64, lemma_pow2_adds, pow2};

verus! {

/// 2^128 as a specification constant.
pub open spec fn p128() -> nat {
    0x100000000000000000000000000000000nat
}

/// 2^256 as a specification constant.
pub open spec fn p256() -> nat {
    0x10000000000000000000000000000000000000000000000000000000000000000nat
}

pub proof fn lemma_pow2_128()
    ensures
        pow2(128) == p128(),
{
    lemma2_to64();
    lemma_pow2_adds(64, 64);
}

pub proof fn lemma_pow2_256()
    ensures
        pow2(256) == p256(),
{
    lemma_pow2_128();
    lemma_pow2_adds(128, 128);
}

/// A 256-bit unsigned integer: `lo + hi * 2^128`.
#[derive(Clone, Copy, PartialEq, Eq, Structural, Debug)]
pub struct U256 {
    pub lo: u128,
    pub hi: u128,
}

/// Sum of a 128-bit addition with its carry folded back in.
pub open spec fn limb_sum(r: (u128, bool)) -> int {
    r.0 + if r.1 {
        p128() as int
    } else {
        0
    }
}

/// One 128-bit addition with carry out.
fn add_limb(x: u128, y: u128) -> (r: (u128, bool))
    ensures
        limb_sum(r) == x + y,
{
    if x <= u128::MAX - y {
        (x + y, false)
    } else {
        ((x - (u128::MAX - y)) - 1, true)
    }
}

/// One 128-bit addition with carry in and carry out.
fn add_limb3(x: u128, y: u128, c: bool) -> (r: (u128, bool))
    ensures
        limb_sum(r) == x + y + if c {
            1int
        } else {
            0int
        },
{
    let (s1, c1) = add_limb(x, y);
    if c {
        let (s2, c2) = add_limb(s1, 1);
        (s2, c1 || c2)
    } else {
        (s1, c1)
    }
}

/// One 128-bit subtraction with borrow out.
fn sub_limb(x: u128, y: u128) -> (r: (u128, bool))
    ensures
        r.0 == x - y + if r.1 {
            p128() as int
        } else {
            0int
        },
{
    if x >= y {
        (x - y, false)
    } else {
        ((x + (u128::MAX - y)) + 1, true)
    }
}

/// One 128-bit subtraction with borrow in and borrow out.
fn sub_limb3(x: u128, y: u128, b: bool) -> (r: (u128, bool))
    ensures
        r.0 == x - y - (if b {
            1int
        } else {
            0int
        }) + if r.1 {
            p128() as int
        } else {
            0int
        },
{
    let (s1, b1) = sub_limb(x, y);
    if b {
        let (s2, b2) = sub_limb(s1, 1);
        (s2, b1 || b2)
    } else {
        (s1, b1)
    }
}

impl U256 {
    /// The mathematical value of this number.
    pub open spec fn as_nat(self) -> nat {
        (self.lo + self.hi * p128()) as nat
    }

    pub fn zero() -> (r: U256)
        ensures
            r.as_nat() == 0,
    {
        U256 { lo: 0, hi: 0 }
    }

    pub fn one() -> (r: U256)
        ensures
            r.as_nat() == 1,
    {
        U256 { lo: 1, hi: 0 }
    }

    /// 2^256 - 1, the largest representable value.
    pub fn max_value() -> (r: U256)
        ensures
            r.as_nat() == p256() - 1,
    {
        U256 { lo: u128::MAX, hi: u128::MAX }
    }

    pub fn from_u64(x: u64) -> (r: U256)
        ensures
            r.as_nat() == x,
    {
        U256 { lo: x as u128, hi: 0 }
    }

    pub fn from_u128(x: u128) -> (r: U256)
        ensures
            r.as_nat() == x,
    {
        U256 { lo: x, hi: 0 }
    }

    /// The value back as a `u128` where it fits.
    pub fn try_to_u128(&self) -> (r: Option<u128>)
        ensures
            match r {
                Some(v) => self.as_nat() == v,
                None => self.as_nat() >= p128(),
            },
    {
        if self.hi == 0 {
            Some(self.lo)
        } else {
            proof {
                lemma_mul_inequality(1, self.hi as int, p128() as int);
            }
            None
        }
    }

    pub fn lt(&self, other: &U256) -> (r: bool)
        ensures
            r == (self.as_nat() < other.as_nat()),
    {
        proof {
            if self.hi < other.hi {
                lemma_mul_inequality(self.hi as int + 1, other.hi as int, p128() as int);
                lemma_mul_is_distributive_add_other_way(p128() as int, self.hi as int, 1);
            } else if other.hi < self.hi {
                lemma_mul_inequality(other.hi as int + 1, self.hi as int, p128() as int);
                lemma_mul_is_distributive_add_other_way(p128() as int, other.hi as int, 1);
            }
        }
        if self.hi < other.hi {
            true
        } else if self.hi == other.hi {
            self.lo < other.lo
        } else {
            false
        }
    }

    pub fn le(&self, other: &U256) -> (r: bool)
        ensures
            r == (self.as_nat() <= other.as_nat()),
    {
        let lt = other.lt(self);
        !lt
    }

    /// Addition with an explicit carry out: the exact sum is
    /// `r.0 + 2^256 * carry`.
    pub fn add_carry(&self, other: &U256) -> (r: (U256, bool))
        ensures
            r.0.as_nat() + (if r.1 {
                p256() as int
            } else {
                0int
            }) == self.as_nat() + other.as_nat(),
    {
        let (lo, c0) = add_limb(self.lo, other.lo);
        let (hi, c1) = add_limb3(self.hi, other.hi, c0);
        proof {
            assert(hi + (if c1 { p128() as int } else { 0int }) == self.hi + other.hi + (if c0 {
                1int
            } else {
                0int
            }));
            assert(hi * p128() + (if c1 { p256() as int } else { 0int }) == self.hi * p128()
                + other.hi * p128() + (if c0 { p128() as int } else { 0int })) by {
                lemma_mul_is_distributive_add_other_way(
                    p128() as int,
                    self.hi + other.hi + (if c0 { 1int } else { 0int }) - (if c1 {
                        p128() as int
                    } else {
                        0int
                    }),
                    if c1 { p128() as int } else { 0int },
                );
                lemma_mul_is_distributive_add_other_way(
                    p128() as int,
                    self.hi as int,
                    other.hi + (if c0 { 1int } else { 0int }),
                );
                lemma_mul_is_distributive_add_other_way(
                    p128() as int,
                    other.hi as int,
                    if c0 { 1int } else { 0int },
                );
            };
        }
        (U256 { lo, hi }, c1)
    }

    /// Addition that must not overflow.
    pub fn add_exact(&self, other: &U256) -> (r: U256)
        requires
            self.as_nat() + other.as_nat() < p256(),
        ensures
            r.as_nat() == self.as_nat() + other.as_nat(),
    {
        let (sum, carry) = self.add_carry(other);
        sum
    }

    /// Subtraction with an explicit borrow out: the exact difference is
    /// `r.0 - 2^256 * borrow`.
    pub fn sub_borrow(&self, other: &U256) -> (r: (U256, bool))
        ensures
            r.0.as_nat() == self.as_nat() - other.as_nat() + if r.1 {
                p256() as int
            } else {
                0int
            },
            r.1 == (self.as_nat() < other.as_nat()),
    {
        let (lo, b0) = sub_limb(self.lo, other.lo);
        let (hi, b1) = sub_limb3(self.hi, other.hi, b0);
        proof {
            assert(hi == self.hi - other.hi - (if b0 { 1int } else { 0int }) + if b1 {
                p128() as int
            } else {
                0int
            });
            assert(hi * p128() == self.hi * p128() - other.hi * p128() - (if b0 {
                p128() as int
            } else {
                0int
            }) + if b1 { p256() as int } else { 0int }) by {
                lemma_mul_is_distributive_add_other_way(
                    p128() as int,
                    self.hi - other.hi - (if b0 { 1int } else { 0int }),
                    if b1 { p128() as int } else { 0int },
                );
                lemma_mul_is_distributive_sub(p128() as int, self.hi as int, other.hi as int);
                lemma_mul_is_distributive_sub(
                    p128() as int,
                    self.hi - other.hi,
                    if b0 { 1int } else { 0int },
                );
            };
            let res = U256 { lo, hi };
            if b1 {
                assert(res.as_nat() == self.as_nat() - other.as_nat() + p256());
                assert(res.as_nat() < p256());
            } else {
                assert(res.as_nat() == self.as_nat() - other.as_nat());
            }
        }
        (U256 { lo, hi }, b1)
    }

    /// Subtraction that must not underflow.
    pub fn sub_exact(&self, other: &U256) -> (r: U256)
        requires
            other.as_nat() <= self.as_nat(),
        ensures
            r.as_nat() == self.as_nat() - other.as_nat(),
    {
        let (diff, borrow) = self.sub_borrow(other);
        diff
    }

    /// Long division: binary shift-and-subtract over the 256 bits of the
    /// dividend, consuming them most-significant first.
    pub fn div_rem(&self, d: &U256) -> (r: (U256, U256))
        requires
            d.as_nat() > 0,
        ensures
            r.0.as_nat() * d.as_nat() + r.1.as_nat() == self.as_nat(),
            r.1.as_nat() < d.as_nat(),
    {
        let mut a_reg: U256 = *self;
        let mut q = U256::zero();
        let mut rem = U256::zero();
        let ghost mut c: nat = 0;
        let mut i: usize = 0;
        proof {
            lemma2_to64();
        }
        while i < 256
            invariant
                i <= 256,
                d.as_nat() > 0,
                self.as_nat() * pow2(i as nat) == c * p256() + a_reg.as_nat(),
                c < pow2(i as nat),
                q.as_nat() * d.as_nat() + rem.as_nat() == c,
                rem.as_nat() < d.as_nat(),
            decreases 256 - i,
        {
            let ghost c_old: nat = c;
            let (a2, bit) = a_reg.add_carry(&a_reg);
            proof {
                lemma2_to64();
                lemma_pow2_adds(1, i as nat);
                assert(pow2((i + 1) as nat) == 2 * pow2(i as nat));
                assert(self.as_nat() * pow2((i + 1) as nat) == 2 * (self.as_nat() * pow2(
                    i as nat,
                ))) by {
                    lemma_mul_is_associative(self.as_nat() as int, 2, pow2(i as nat) as int);
                    lemma_mul_is_associative(2, self.as_nat() as int, pow2(i as nat) as int);
                }
                c = 2 * c_old + if bit {
                    1nat
                } else {
                    0nat
                };
            }
            let (v, vc) = double_plus_bit(&rem, bit);
            let sub = vc || !v.lt(d);
            proof {
                if vc {
                    assert(v.as_nat() < d.as_nat());
                }
            }
            let (q2, qc) = q.add_carry(&q);
            proof {
                assert(q.as_nat() <= c_old) by {
                    lemma_mul_is_commutative(q.as_nat() as int, d.as_nat() as int);
                    lemma_mul_inequality(1, d.as_nat() as int, q.as_nat() as int);
                }
                if i < 255 {
                    vstd::arithmetic::power2::lemma_pow2_strictly_increases(i as nat, 255);
                }
                assert(pow2(255) * 2 == pow2(256)) by {
                    lemma_pow2_adds(255, 1);
                    lemma2_to64();
                }
                lemma_pow2_256();
                assert(2 * q.as_nat() + 1 < p256());
                assert(!qc);
            }
            let q_new = if sub {
                add_one_after_doubling(&q2)
            } else {
                q2
            };
            let rem_new = if sub {
                let (r3, borrow) = v.sub_borrow(d);
                r3
            } else {
                v
            };
            proof {
                // the new quotient and remainder still satisfy
                // `q * d + rem == consumed bits`
                let qi = q.as_nat() as int;
                let di = d.as_nat() as int;
                if sub {
                    assert(q_new.as_nat() == 2 * qi + 1);
                    assert((2 * qi + 1) * di == 2 * (qi * di) + di) by {
                        lemma_mul_is_distributive_add_other_way(di, 2 * qi, 1);
                        lemma_mul_is_associative(2, qi, di);
                    }
                } else {
                    assert((2 * qi) * di == 2 * (qi * di)) by {
                        lemma_mul_is_associative(2, qi, di);
                    }
                }
            }
            q = q_new;
            rem = rem_new;
            a_reg = a2;
            i = i + 1;
        }
        proof {
            lemma_pow2_256();
            assert(self.as_nat() * p256() == c * p256() + a_reg.as_nat());
            if c < self.as_nat() {
                assert((c + 1) * p256() <= self.as_nat() * p256()) by {
                    lemma_mul_inequality(c as int + 1, self.as_nat() as int, p256() as int);
                    lemma_mul_is_commutative(c as int + 1, p256() as int);
                    lemma_mul_is_commutative(self.as_nat() as int, p256() as int);
                }
                assert((c + 1) * p256() == c * p256() + p256()) by {
                    lemma_mul_is_distributive_add_other_way(p256() as int, c as int, 1);
                }
                assert(false);
            }
            if c > self.as_nat() {
                assert((self.as_nat() + 1) * p256() <= c * p256()) by {
                    lemma_mul_inequality(self.as_nat() as int + 1, c as int, p256() as int);
                    lemma_mul_is_commutative(self.as_nat() as int + 1, p256() as int);
                    lemma_mul_is_commutative(c as int, p256() as int);
                }
                assert((self.as_nat() + 1) * p256() == self.as_nat() * p256() + p256()) by {
                    lemma_mul_is_distributive_add_other_way(p256() as int, self.as_nat() as int, 1);
                }
                assert(false);
            }
            assert(c == self.as_nat());
        }
        (q, rem)
    }

    /// Multiplication by a 64-bit factor, binary double-and-add over the
    /// factor's bits, most-significant first.  The caller must know that the
    /// product fits.
    pub fn mul_u64(&self, m: u64) -> (r: U256)
        requires
            self.as_nat() * m < p256(),
        ensures
            r.as_nat() == self.as_nat() * m,
    {
        let mut acc = U256::zero();
        let mut m_reg: u64 = m;
        let ghost mut cm: nat = 0;
        let mut k: usize = 0;
        proof {
            lemma2_to64();
        }
        while k < 64
            invariant
                k <= 64,
                self.as_nat() * (m as nat) < p256(),
                (m as nat) * pow2(k as nat) == cm * 0x10000000000000000 + m_reg,
                cm <= m,
                acc.as_nat() == self.as_nat() * cm,
            decreases 64 - k,
        {
            let ghost cm_old: nat = cm;
            let bit = m_reg >= 0x8000000000000000;
            let m2 = if bit {
                (m_reg - 0x8000000000000000) * 2
            } else {
                m_reg * 2
            };
            proof {
                lemma2_to64();
                lemma_pow2_adds(1, k as nat);
                assert(pow2((k + 1) as nat) == 2 * pow2(k as nat));
                assert((m as nat) * pow2((k + 1) as nat) == 2 * ((m as nat) * pow2(k as nat))) by {
                    lemma_mul_is_associative(m as int, 2, pow2(k as nat) as int);
                    lemma_mul_is_associative(2, m as int, pow2(k as nat) as int);
                }
                cm = 2 * cm_old + if bit {
                    1nat
                } else {
                    0nat
                };
                // the consumed prefix of the factor never exceeds the factor
                assert(cm <= m) by {
                    if k + 1 < 64 {
                        vstd::arithmetic::power2::lemma_pow2_strictly_increases(
                            (k + 1) as nat,
                            64,
                        );
                    }
                    lemma_mul_inequality(
                        pow2((k + 1) as nat) as int,
                        pow2(64) as int,
                        m as int,
                    );
                    lemma_mul_is_commutative(pow2((k + 1) as nat) as int, m as int);
                    lemma_mul_is_commutative(pow2(64) as int, m as int);
                    assert((m as nat) * pow2(64) == (m as nat) * 0x10000000000000000);
                }
            }
            let (t, c1) = acc.add_carry(&acc);
            proof {
                let si = self.as_nat() as int;
                assert(2 * acc.as_nat() == si * (2 * cm_old)) by {
                    lemma_mul_is_associative(si, 2, cm_old as int);
                    lemma_mul_is_associative(2, si, cm_old as int);
                }
                assert(si * (2 * cm_old) <= si * cm) by {
                    lemma_mul_is_commutative(si, 2 * cm_old as int);
                    lemma_mul_is_commutative(si, cm as int);
                    lemma_mul_inequality(2 * cm_old as int, cm as int, si);
                }
                assert(si * cm <= si * (m as int)) by {
                    lemma_mul_is_commutative(si, cm as int);
                    lemma_mul_is_commutative(si, m as int);
                    lemma_mul_inequality(cm as int, m as int, si);
                }
                assert(!c1);
            }
            let acc_new = if bit {
                let (t2, c2) = t.add_carry(self);
                proof {
                    let si = self.as_nat() as int;
                    assert(si * (2 * cm_old) + si == si * cm) by {
                        lemma_mul_is_distributive_add(si, 2 * cm_old as int, 1);
                    }
                    assert(si * cm <= si * (m as int)) by {
                        lemma_mul_is_commutative(si, cm as int);
                        lemma_mul_is_commutative(si, m as int);
                        lemma_mul_inequality(cm as int, m as int, si);
                    }
                    assert(!c2);
                }
                t2
            } else {
                t
            };
            acc = acc_new;
            m_reg = m2;
            k = k + 1;
        }
        proof {
            lemma2_to64();
            assert((m as nat) * pow2(64) == (m as nat) * 0x10000000000000000);
            assert(cm == m);
        }
        acc
    }
}

impl U256 {
    pub fn is_zero(&self) -> (r: bool)
        ensures
            r == (self.as_nat() == 0),
    {
        proof {
            if self.hi != 0 {
                lemma_mul_inequality(1, self.hi as int, p128() as int);
            }
        }
        self.lo == 0 && self.hi == 0
    }

    /// The number read from a 32-byte big-endian string, the shape in which
    /// a 256-bit hash is interpreted as a number.
    pub fn from_be_bytes(bytes: &Vec<u8>) -> (r: U256)
        requires
            bytes@.len() == 32,
        ensures
            r.as_nat() == crate::bytes::be_val(bytes@),
    {
        let mut acc = U256::zero();
        let mut i: usize = 0;
        proof {
            assert(bytes@.subrange(0, 0) =~= Seq::<u8>::empty());
            lemma2_to64();
        }
        while i < 32
            invariant
                i <= 32,
                bytes@.len() == 32,
                acc.as_nat() == crate::bytes::be_val(bytes@.subrange(0, i as int)),
                acc.as_nat() < pow2((8 * i) as nat),
            decreases 32 - i,
        {
            let b = bytes[i];
            proof {
                // bound the high limb so that the shift below cannot overflow
                lemma2_to64();
                vstd::arithmetic::power2::lemma2_to64_rest();
                lemma_pow2_adds(56, 64);
                lemma_pow2_128();
                lemma_pow2_adds(120, 128);
                if i < 31 {
                    vstd::arithmetic::power2::lemma_pow2_strictly_increases(
                        (8 * i) as nat,
                        248,
                    );
                }
                assert(acc.as_nat() < pow2(248));
                assert(pow2(248) == pow2(120) * p128());
                assert(pow2(120) == 0x1000000000000000000000000000000);
                if acc.hi >= 0x1000000000000000000000000000000u128 {
                    lemma_mul_inequality(pow2(120) as int, acc.hi as int, p128() as int);
                    lemma_mul_is_commutative(pow2(120) as int, p128() as int);
                    lemma_mul_is_commutative(acc.hi as int, p128() as int);
                    assert(false);
                }
            }
            let lo_top: u128 = acc.lo / 0x1000000000000000000000000000000;
            let lo2: u128 = (acc.lo % 0x1000000000000000000000000000000) * 256 + (b as u128);
            let hi2: u128 = acc.hi * 256 + lo_top;
            let acc_new = U256 { lo: lo2, hi: hi2 };
            proof {
                assert(acc_new.as_nat() == acc.as_nat() * 256 + b);
                let s1 = bytes@.subrange(0, i as int);
                let s2 = bytes@.subrange(0, i + 1);
                assert(s2.drop_last() =~= s1);
                assert(crate::bytes::be_val(s2) == crate::bytes::be_val(s1) * 256 + bytes@[i as int]);
                lemma_pow2_adds((8 * i) as nat, 8);
                assert(pow2((8 * (i + 1)) as nat) == pow2((8 * i) as nat) * 256);
            }
            acc = acc_new;
            i = i + 1;
        }
        proof {
            assert(bytes@.subrange(0, 32) =~= bytes@);
        }
        acc
    }

    /// The number read from a 32-byte little-endian string, the shape in
    /// which a 256-bit integer is canonically encoded.
    pub fn from_le_bytes(bytes: &Vec<u8>) -> (r: U256)
        requires
            bytes@.len() == 32,
        ensures
            r.as_nat() == crate::bytes::le_val(bytes@),
    {
        let mut acc = U256::zero();
        let mut k: usize = 32;
        proof {
            assert(bytes@.subrange(32, 32) =~= Seq::<u8>::empty());
            lemma2_to64();
        }
        while k > 0
            invariant
                k <= 32,
                bytes@.len() == 32,
                acc.as_nat() == crate::bytes::le_val(bytes@.subrange(k as int, 32)),
                acc.as_nat() < pow2((8 * (32 - k)) as nat),
            decreases k,
        {
            k = k - 1;
            let b = bytes[k];
            proof {
                lemma2_to64();
                vstd::arithmetic::power2::lemma2_to64_rest();
                lemma_pow2_adds(56, 64);
                lemma_pow2_128();
                lemma_pow2_adds(120, 128);
                if k > 0 {
                    vstd::arithmetic::power2::lemma_pow2_strictly_increases(
                        (8 * (31 - k)) as nat,
                        248,
                    );
                }
                assert(acc.as_nat() < pow2(248));
                assert(pow2(248) == pow2(120) * p128());
                assert(pow2(120) == 0x1000000000000000000000000000000);
                if acc.hi >= 0x1000000000000000000000000000000u128 {
                    lemma_mul_inequality(pow2(120) as int, acc.hi as int, p128() as int);
                    lemma_mul_is_commutative(pow2(120) as int, p128() as int);
                    lemma_mul_is_commutative(acc.hi as int, p128() as int);
                    assert(false);
                }
            }
            let lo_top: u128 = acc.lo / 0x1000000000000000000000000000000;
            let lo2: u128 = (acc.lo % 0x1000000000000000000000000000000) * 256 + (b as u128);
            let hi2: u128 = acc.hi * 256 + lo_top;
            let acc_new = U256 { lo: lo2, hi: hi2 };
            proof {
                assert(acc_new.as_nat() == acc.as_nat() * 256 + b);
                let s1 = bytes@.subrange(k + 1, 32);
                let s2 = bytes@.subrange(k as int, 32);
                assert(s2.drop_first() =~= s1);
                assert(s2[0] == bytes@[k as int]);
                assert(crate::bytes::le_val(s2) == bytes@[k as int] + 256 * crate::bytes::le_val(
                    s1,
                ));
                lemma_pow2_adds((8 * (31 - k)) as nat, 8);
                assert(pow2((8 * (32 - k)) as nat) == pow2((8 * (31 - k)) as nat) * 256);
            }
            acc = acc_new;
        }
        proof {
            assert(bytes@.subrange(0, 32) =~= bytes@);
        }
        acc
    }

    /// The number written as exactly 32 little-endian bytes, the canonical
    /// encoding of a 256-bit integer.
    pub fn to_le_bytes(&self) -> (r: Vec<u8>)
        ensures
            r@ == crate::bytes::le_bytes(self.as_nat(), 32),
            r@.len() == 32,
    {
        let mut out: Vec<u8> = Vec::new();
        let mut cur: U256 = *self;
        let mut i: usize = 0;
        proof {
            assert(out@ + crate::bytes::le_bytes(cur.as_nat(), 32) =~= crate::bytes::le_bytes(
                self.as_nat(),
                32,
            ));
        }
        while i < 32
            invariant
                i <= 32,
                out@.len() == i,
                out@ + crate::bytes::le_bytes(cur.as_nat(), (32 - i) as nat)
                    == crate::bytes::le_bytes(self.as_nat(), 32),
            decreases 32 - i,
        {
            let b: u8 = (cur.lo % 256) as u8;
            let lo2: u128 = cur.lo / 256 + (cur.hi % 256) * 0x1000000000000000000000000000000;
            let hi2: u128 = cur.hi / 256;
            let cur_new = U256 { lo: lo2, hi: hi2 };
            proof {
                assert(cur.as_nat() == cur_new.as_nat() * 256 + b);
                vstd::arithmetic::div_mod::lemma_fundamental_div_mod_converse(
                    cur.as_nat() as int,
                    256,
                    cur_new.as_nat() as int,
                    b as int,
                );
                assert(cur_new.as_nat() == cur.as_nat() / 256);
                assert(b == cur.as_nat() % 256);
                assert(crate::bytes::le_bytes(cur.as_nat(), (32 - i) as nat) == seq![b]
                    + crate::bytes::le_bytes(cur_new.as_nat(), (32 - i - 1) as nat));
                assert(out@.push(b) + crate::bytes::le_bytes(cur_new.as_nat(), (32 - i - 1) as nat)
                    =~= out@ + crate::bytes::le_bytes(cur.as_nat(), (32 - i) as nat));
            }
            out.push(b);
            cur = cur_new;
            i = i + 1;
        }
        proof {
            assert(out@ + crate::bytes::le_bytes(cur.as_nat(), 0) =~= out@);
            crate::bytes::lemma_le_bytes_len(self.as_nat(), 32);
        }
        out
    }
}

/// `2 * x + bit` with an explicit overflow bit.
fn double_plus_bit(x: &U256, bit: bool) -> (r: (U256, bool))
    ensures
        r.0.as_nat() + (if r.1 {
            p256() as int
        } else {
            0int
        }) == 2 * x.as_nat() + if bit {
            1int
        } else {
            0int
        },
{
    let (d2, c) = x.add_carry(x);
    if bit {
        let one = U256::one();
        let (r3, c3) = d2.add_carry(&one);
        proof {
            if c && c3 {
                assert(r3.as_nat() == 2 * x.as_nat() + 1 - 2 * p256());
                assert(false);
            }
        }
        (r3, c || c3)
    } else {
        (d2, c)
    }
}

/// `x + 1` for an even `x`, which can never overflow.
fn add_one_after_doubling(x: &U256) -> (r: U256)
    requires
        x.as_nat() % 2 == 0,
    ensures
        r.as_nat() == x.as_nat() + 1,
{
    proof {
        assert(x.lo % 2 == 0) by {
            assert(x.as_nat() == x.lo + x.hi * p128());
            assert(x.hi * p128() % 2 == 0) by {
                lemma_mul_is_associative(x.hi as int, 2, (p128() / 2) as int);
            }
        }
    }
    U256 { lo: x.lo + 1, hi: x.hi }
}

} // verus!
