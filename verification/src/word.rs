//! The 256-bit EVM machine word, held as two 128-bit limbs, with the
//! comparison and bitwise operations that need no outside arithmetic.
use vstd::prelude::*;

verus! {

/// One 256-bit machine word: value `hi * 2^128 + lo`.
#[derive(Clone, Copy, Debug, PartialEq, Eq, Structural)]
pub struct Word {
    pub hi: u128,
    pub lo: u128,
}

/// 2^128, the weight of the high limb.
pub open spec fn pow2_128() -> nat {
    340282366920938463463374607431768211456int as nat
}

/// 2^256, the modulus of all EVM arithmetic.
pub open spec fn pow2_256() -> nat {
    115792089237316195423570985008687907853269984665640564039457584007913129639936int as nat
}

/// 2^255, the weight of the sign bit.
pub open spec fn pow2_255() -> nat {
    57896044618658097711785492504343953926634992332820282019728792003956564819968int as nat
}

impl Word {
    /// The unsigned value of the word.
    pub open spec fn val(self) -> nat {
        self.hi as nat * 340282366920938463463374607431768211456 + self.lo as nat
    }

    /// The value of the word read as a two's-complement signed integer.
    pub open spec fn sval(self) -> int {
        if self.val() >= pow2_255() {
            self.val() - pow2_256()
        } else {
            self.val() as int
        }
    }

    /// The all-zero word.
    pub fn zero() -> (r: Word)
        ensures
            r.val() == 0,
    {
        Word { hi: 0, lo: 0 }
    }

    /// The word of value one.
    pub fn one() -> (r: Word)
        ensures
            r.val() == 1,
    {
        Word { hi: 0, lo: 1 }
    }

    /// The largest word, which reads as -1 when signed.
    pub fn max() -> (r: Word)
        ensures
            r.val() == pow2_256() - 1,
            r.sval() == -1,
    {
        Word { hi: u128::MAX, lo: u128::MAX }
    }

    /// Builds a word from a 64-bit value.
    pub fn from_u64(x: u64) -> (r: Word)
        ensures
            r.val() == x,
    {
        Word { hi: 0, lo: x as u128 }
    }

    /// Builds a word from a 128-bit value.
    pub fn from_u128(x: u128) -> (r: Word)
        ensures
            r.val() == x,
    {
        Word { hi: 0, lo: x }
    }

    /// True exactly of the zero word.
    pub fn is_zero(&self) -> (r: bool)
        ensures
            r <==> self.val() == 0,
    {
        self.hi == 0 && self.lo == 0
    }

    /// Unsigned comparison.
    pub fn lt(&self, other: &Word) -> (r: bool)
        ensures
            r <==> self.val() < other.val(),
    {
        self.hi < other.hi || (self.hi == other.hi && self.lo < other.lo)
    }

    /// True when the sign bit is set, that is, the signed value is
    /// negative.
    pub fn is_neg(&self) -> (r: bool)
        ensures
            r <==> self.sval() < 0,
    {
        proof {
            if self.hi >= 0x8000_0000_0000_0000_0000_0000_0000_0000 {
                assert(self.val() >= pow2_255());
            } else {
                assert(self.val() < pow2_255());
            }
        }
        self.hi >= 0x8000_0000_0000_0000_0000_0000_0000_0000
    }

    /// Signed comparison.
    pub fn slt(&self, other: &Word) -> (r: bool)
        ensures
            r <==> self.sval() < other.sval(),
    {
        let a_neg = self.is_neg();
        let b_neg = other.is_neg();
        if a_neg != b_neg {
            a_neg
        } else {
            self.lt(other)
        }
    }

    /// Bitwise conjunction, one limb at a time.
    pub fn and(&self, other: &Word) -> (r: Word)
        ensures
            r.hi == self.hi & other.hi,
            r.lo == self.lo & other.lo,
    {
        Word { hi: self.hi & other.hi, lo: self.lo & other.lo }
    }

    /// Bitwise disjunction, one limb at a time.
    pub fn or(&self, other: &Word) -> (r: Word)
        ensures
            r.hi == self.hi | other.hi,
            r.lo == self.lo | other.lo,
    {
        Word { hi: self.hi | other.hi, lo: self.lo | other.lo }
    }

    /// Bitwise exclusive or, one limb at a time.
    pub fn xor(&self, other: &Word) -> (r: Word)
        ensures
            r.hi == self.hi ^ other.hi,
            r.lo == self.lo ^ other.lo,
    {
        Word { hi: self.hi ^ other.hi, lo: self.lo ^ other.lo }
    }

    /// Bitwise complement, one limb at a time.
    pub fn not(&self) -> (r: Word)
        ensures
            r.hi == !self.hi,
            r.lo == !self.lo,
            r.val() == pow2_256() - 1 - self.val(),
    {
        proof {
            let h = self.hi;
            let l = self.lo;
            assert(!h == u128::MAX - h) by (bit_vector);
            assert(!l == u128::MAX - l) by (bit_vector);
        }
        Word { hi: !self.hi, lo: !self.lo }
    }

    /// The 32 bytes of the word, most significant first: byte `i` is the
    /// eight bits of weight `2^(8*(31-i))`, read out of the limb that
    /// holds them.
    pub open spec fn spec_byte(self, i: int) -> u8 {
        if i < 16 {
            ((self.hi >> (8 * (15 - i))) & 0xff) as u8
        } else {
            ((self.lo >> (8 * (31 - i))) & 0xff) as u8
        }
    }

    /// Reads one byte of the word, index 0 naming the most significant
    /// byte.
    pub fn byte(&self, i: usize) -> (r: u8)
        requires
            i < 32,
        ensures
            r == self.spec_byte(i as int),
    {
        if i < 16 {
            ((self.hi >> ((8 * (15 - i)) as u32)) & 0xff) as u8
        } else {
            ((self.lo >> ((8 * (31 - i)) as u32)) & 0xff) as u8
        }
    }
}

/// Every two-limb word value lies below 2^256.
pub proof fn lemma_word_val_bound(w: Word)
    ensures
        w.val() < pow2_256(),
{
    vstd::arithmetic::mul::lemma_mul_inequality(
        w.hi as int,
        340282366920938463463374607431768211455int,
        340282366920938463463374607431768211456int,
    );
    assert(340282366920938463463374607431768211455int * 340282366920938463463374607431768211456int
        == 115792089237316195423570985008687907852929702298719625575994209400481361428480int)
        by (nonlinear_arith);
}

} // verus!
