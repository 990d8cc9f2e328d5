//! 256-bit arithmetic for the machine word, performed by the `ethnum`
//! crate behind trusted wrappers, and the Keccak-256 digest performed by
//! the `sha3` crate. Each wrapper converts between the two-limb `Word` and
//! the outside type and states what the outside operation returns.
use sha3::Digest;
use vstd::prelude::*;

use crate::word::{pow2_255, pow2_256, Word};

verus! {

/// Truncated (round toward zero) signed division, the EVM SDIV rule.
pub open spec fn spec_tdiv(a: int, b: int) -> int {
    let q = (if a >= 0 {
        a
    } else {
        -a
    }) / (if b >= 0 {
        b
    } else {
        -b
    });
    if (a >= 0) == (b >= 0) {
        q
    } else {
        -q
    }
}

/// The remainder that pairs with truncated division: it takes the sign of
/// the dividend, the EVM SMOD rule.
pub open spec fn spec_trem(a: int, b: int) -> int {
    a - b * spec_tdiv(a, b)
}

/// Relies on ethnum's `U256::wrapping_add`: addition modulo 2^256.
#[verifier::external_body]
pub fn u256_add(a: &Word, b: &Word) -> (r: Word)
    ensures
        r.val() == (a.val() + b.val()) % pow2_256(),
{
    let x = ethnum::U256::from_words(a.hi, a.lo).wrapping_add(ethnum::U256::from_words(b.hi, b.lo));
    let (hi, lo) = x.into_words();
    Word { hi, lo }
}

/// Relies on ethnum's `U256::wrapping_sub`: subtraction modulo 2^256.
#[verifier::external_body]
pub fn u256_sub(a: &Word, b: &Word) -> (r: Word)
    ensures
        r.val() as int == (a.val() + pow2_256() - b.val()) % (pow2_256() as int),
{
    let x = ethnum::U256::from_words(a.hi, a.lo).wrapping_sub(ethnum::U256::from_words(b.hi, b.lo));
    let (hi, lo) = x.into_words();
    Word { hi, lo }
}

/// Relies on ethnum's `U256::wrapping_mul`: multiplication modulo 2^256.
#[verifier::external_body]
pub fn u256_mul(a: &Word, b: &Word) -> (r: Word)
    ensures
        r.val() == (a.val() * b.val()) % pow2_256(),
{
    let x = ethnum::U256::from_words(a.hi, a.lo).wrapping_mul(ethnum::U256::from_words(b.hi, b.lo));
    let (hi, lo) = x.into_words();
    Word { hi, lo }
}

/// Relies on ethnum's `U256::wrapping_div`: unsigned integer division; the
/// divisor must not be zero, for which ethnum panics.
#[verifier::external_body]
pub fn u256_div(a: &Word, b: &Word) -> (r: Word)
    requires
        b.val() != 0,
    ensures
        r.val() == a.val() / b.val(),
{
    let x = ethnum::U256::from_words(a.hi, a.lo).wrapping_div(ethnum::U256::from_words(b.hi, b.lo));
    let (hi, lo) = x.into_words();
    Word { hi, lo }
}

/// Relies on ethnum's `U256::wrapping_rem`: unsigned remainder; the
/// divisor must not be zero, for which ethnum panics.
#[verifier::external_body]
pub fn u256_rem(a: &Word, b: &Word) -> (r: Word)
    requires
        b.val() != 0,
    ensures
        r.val() == a.val() % b.val(),
{
    let x = ethnum::U256::from_words(a.hi, a.lo).wrapping_rem(ethnum::U256::from_words(b.hi, b.lo));
    let (hi, lo) = x.into_words();
    Word { hi, lo }
}

/// Relies on ethnum's `I256::wrapping_div`: truncated signed division,
/// with the one wrapped case `MIN / -1 = MIN`; the divisor must not be
/// zero, for which ethnum panics.
#[verifier::external_body]
pub fn i256_div(a: &Word, b: &Word) -> (r: Word)
    requires
        b.val() != 0,
    ensures
        a.sval() == -(pow2_255() as int) && b.sval() == -1 ==> r.sval() == -(pow2_255() as int),
        !(a.sval() == -(pow2_255() as int) && b.sval() == -1) ==> r.sval() == spec_tdiv(
            a.sval(),
            b.sval(),
        ),
{
    let x = ethnum::I256::from_words(a.hi as i128, a.lo as i128).wrapping_div(
        ethnum::I256::from_words(b.hi as i128, b.lo as i128),
    );
    let (hi, lo) = x.into_words();
    Word { hi: hi as u128, lo: lo as u128 }
}

/// Relies on ethnum's `I256::wrapping_rem`: the remainder of truncated
/// signed division, signed like the dividend; the divisor must not be
/// zero, for which ethnum panics.
#[verifier::external_body]
pub fn i256_rem(a: &Word, b: &Word) -> (r: Word)
    requires
        b.val() != 0,
    ensures
        r.sval() == spec_trem(a.sval(), b.sval()),
{
    let x = ethnum::I256::from_words(a.hi as i128, a.lo as i128).wrapping_rem(
        ethnum::I256::from_words(b.hi as i128, b.lo as i128),
    );
    let (hi, lo) = x.into_words();
    Word { hi: hi as u128, lo: lo as u128 }
}

/// Relies on ethnum's `U256` left shift: multiplication by 2^s modulo
/// 2^256, defined for shifts below 256.
#[verifier::external_body]
pub fn u256_shl(a: &Word, s: u32) -> (r: Word)
    requires
        s < 256,
    ensures
        r.val() == (a.val() * vstd::arithmetic::power2::pow2(s as nat)) % pow2_256(),
{
    let x = ethnum::U256::from_words(a.hi, a.lo) << s;
    let (hi, lo) = x.into_words();
    Word { hi, lo }
}

/// Relies on ethnum's `U256` logical right shift: division by 2^s,
/// defined for shifts below 256.
#[verifier::external_body]
pub fn u256_shr(a: &Word, s: u32) -> (r: Word)
    requires
        s < 256,
    ensures
        r.val() == a.val() / vstd::arithmetic::power2::pow2(s as nat),
{
    let x = ethnum::U256::from_words(a.hi, a.lo) >> s;
    let (hi, lo) = x.into_words();
    Word { hi, lo }
}

/// Relies on ethnum's `I256` arithmetic right shift: the sign-filling
/// shift, which divides by 2^s rounding toward minus infinity; defined
/// for shifts below 256.
#[verifier::external_body]
pub fn i256_sar(a: &Word, s: u32) -> (r: Word)
    requires
        s < 256,
    ensures
        r.sval() == a.sval() / (vstd::arithmetic::power2::pow2(s as nat) as int),
{
    let x = ethnum::I256::from_words(a.hi as i128, a.lo as i128) >> s;
    let (hi, lo) = x.into_words();
    Word { hi: hi as u128, lo: lo as u128 }
}

/// The Keccak-256 digest of a byte sequence: a function of the bytes
/// alone.
pub uninterp spec fn keccak_of(data: Seq<u8>) -> Seq<u8>;

/// Relies on the sha3 crate's `Keccak256`: the digest depends on the
/// input bytes alone and is 32 bytes long.
#[verifier::external_body]
pub fn keccak256(data: &[u8]) -> (r: Vec<u8>)
    ensures
        r@ == keccak_of(data@),
        r@.len() == 32,
{
    let out = sha3::Keccak256::digest(data);
    out.to_vec()
}

} // verus!
