//! Big-endian conversions between byte strings and machine words.
use vstd::prelude::*;

use crate::word::Word;

verus! {

/// The value of a byte string read as a big-endian number.
pub open spec fn be_val(s: Seq<u8>) -> nat
    decreases s.len(),
{
    if s.len() == 0 {
        0
    } else {
        be_val(s.drop_last()) * 256 + s.last() as nat
    }
}

/// 256 to the power n.
pub open spec fn pow256(n: nat) -> nat
    decreases n,
{
    if n == 0 {
        1
    } else {
        256 * pow256((n - 1) as nat)
    }
}

/// A byte string's value is below 256 to its length.
pub proof fn lemma_be_val_bound(s: Seq<u8>)
    ensures
        be_val(s) < pow256(s.len()),
    decreases s.len(),
{
    if s.len() > 0 {
        lemma_be_val_bound(s.drop_last());
        let p = pow256((s.len() - 1) as nat);
        assert(be_val(s.drop_last()) * 256 <= (p - 1) * 256) by (nonlinear_arith)
            requires
                be_val(s.drop_last()) <= p - 1,
        ;
    }
}

/// Reading a concatenation big-endian weighs the left part by 256 to the
/// length of the right part.
pub proof fn lemma_be_val_concat(a: Seq<u8>, b: Seq<u8>)
    ensures
        be_val(a + b) == be_val(a) * pow256(b.len()) + be_val(b),
    decreases b.len(),
{
    if b.len() == 0 {
        assert(a + b =~= a);
        assert(pow256(0) == 1);
        assert(be_val(a) * pow256(b.len()) == be_val(a)) by (nonlinear_arith)
            requires
                pow256(b.len()) == 1,
        ;
    } else {
        lemma_be_val_concat(a, b.drop_last());
        assert((a + b).drop_last() =~= a + b.drop_last());
        assert((a + b).last() == b.last());
        let p = pow256((b.len() - 1) as nat);
        assert(be_val(a + b) == (be_val(a) * p + be_val(b.drop_last())) * 256 + b.last());
        assert((be_val(a) * p + be_val(b.drop_last())) * 256 == be_val(a) * (256 * p) + be_val(
            b.drop_last(),
        ) * 256) by (nonlinear_arith);
        assert(pow256(b.len()) == 256 * p);
        assert(be_val(a) * pow256(b.len()) == be_val(a) * (256 * p)) by (nonlinear_arith)
            requires
                pow256(b.len()) == 256 * p,
        ;
        assert(be_val(b) == be_val(b.drop_last()) * 256 + b.last());
    }
}

/// Accumulates up to 16 bytes of a slice into a 128-bit big-endian value.
pub fn acc_be16(bytes: &[u8], from: usize, to: usize) -> (r: u128)
    requires
        from <= to <= bytes@.len(),
        to - from <= 16,
    ensures
        r == be_val(bytes@.subrange(from as int, to as int)),
{
    proof {
        lemma_pow256_16();
    }
    let mut acc: u128 = 0;
    let mut i: usize = from;
    while i < to
        invariant
            from <= i <= to <= bytes@.len(),
            to - from <= 16,
            acc == be_val(bytes@.subrange(from as int, i as int)),
            acc < pow256((i - from) as nat),
            pow256(16) == 0x1_0000_0000_0000_0000 * 0x1_0000_0000_0000_0000,
        decreases to - i,
    {
        let b = bytes[i];
        proof {
            let s1 = bytes@.subrange(from as int, i + 1 as int);
            assert(s1.drop_last() =~= bytes@.subrange(from as int, i as int));
            assert(s1.last() == bytes@[i as int]);
            lemma_pow256_monotonic((i + 1 - from) as nat, 16);
            assert(acc * 256 + b < pow256((i + 1 - from) as nat)) by (nonlinear_arith)
                requires
                    acc < pow256((i - from) as nat),
                    b < 256,
                    pow256((i + 1 - from) as nat) == 256 * pow256((i - from) as nat),
            ;
        }
        acc = acc * 256 + (b as u128);
        i = i + 1;
    }
    acc
}

/// 256^16 is 2^128.
proof fn lemma_pow256_16()
    ensures
        pow256(16) == 0x1_0000_0000_0000_0000 * 0x1_0000_0000_0000_0000,
{
    reveal_with_fuel(pow256, 17);
}

/// The powers of 256 grow with the exponent.
pub proof fn lemma_pow256_monotonic(a: nat, b: nat)
    requires
        a <= b,
    ensures
        pow256(a) <= pow256(b),
    decreases b,
{
    if a < b {
        lemma_pow256_monotonic(a, (b - 1) as nat);
        assert(pow256(b) == 256 * pow256((b - 1) as nat));
        assert(256 * pow256((b - 1) as nat) >= pow256((b - 1) as nat)) by (nonlinear_arith)
            requires
                pow256((b - 1) as nat) >= 0,
        ;
    }
}

/// Builds the word whose big-endian value is the given byte string, up to
/// 32 bytes long.
pub fn word_from_be(bytes: &[u8]) -> (r: Word)
    requires
        bytes@.len() <= 32,
    ensures
        r.val() == be_val(bytes@),
{
    let n = bytes.len();
    if n <= 16 {
        let lo = acc_be16(bytes, 0, n);
        proof {
            assert(bytes@.subrange(0, n as int) =~= bytes@);
        }
        Word { hi: 0, lo }
    } else {
        let hi = acc_be16(bytes, 0, n - 16);
        let lo = acc_be16(bytes, n - 16, n);
        proof {
            let a = bytes@.subrange(0, n - 16 as int);
            let b = bytes@.subrange(n - 16 as int, n as int);
            assert(a + b =~= bytes@);
            lemma_be_val_concat(a, b);
            lemma_pow256_16();
        }
        Word { hi, lo }
    }
}

/// The 32 bytes of a word, most significant first.
pub fn word_to_be32(w: &Word) -> (r: Vec<u8>)
    ensures
        r@.len() == 32,
        forall|i: int| 0 <= i < 32 ==> r@[i] == w.spec_byte(i),
{
    let mut r: Vec<u8> = Vec::new();
    let mut i: usize = 0;
    while i < 32
        invariant
            i <= 32,
            r@.len() == i,
            forall|k: int| 0 <= k < i ==> r@[k] == w.spec_byte(k),
        decreases 32 - i,
    {
        r.push(w.byte(i));
        i = i + 1;
    }
    r
}

/// The word that holds a 20-byte address in its low bytes: bytes 12 to 31
/// are the address, the rest zero.
pub fn word_from_address(addr: &[u8; 20]) -> (r: Word)
    ensures
        r.val() == be_val(addr@),
{
    let s: &[u8] = addr.as_slice();
    word_from_be(s)
}

/// The low 20 bytes of a word, as an address.
pub fn word_to_address(w: &Word) -> (r: [u8; 20])
    ensures
        forall|i: int| 0 <= i < 20 ==> r@[i] == w.spec_byte(12 + i),
{
    let mut out: [u8; 20] = [0u8; 20];
    let mut i: usize = 0;
    while i < 20
        invariant
            i <= 20,
            out@.len() == 20,
            forall|k: int| 0 <= k < i ==> out@[k] == w.spec_byte(12 + k),
        decreases 20 - i,
    {
        out[i] = w.byte(12 + i);
        i = i + 1;
    }
    out
}

/// Compares two 20-byte addresses.
pub fn addr_eq(a: &[u8; 20], b: &[u8; 20]) -> (r: bool)
    ensures
        r <==> a@ == b@,
{
    let mut i: usize = 0;
    while i < 20
        invariant
            i <= 20,
            forall|k: int| 0 <= k < i ==> a@[k] == b@[k],
        decreases 20 - i,
    {
        if a[i] != b[i] {
            return false;
        }
        i = i + 1;
    }
    proof {
        assert(a@ =~= b@);
    }
    true
}


/// 2^128 written out as a literal.
pub proof fn lemma_pow2_128_literal()
    ensures
        vstd::arithmetic::power2::pow2(128) == 340282366920938463463374607431768211456int as nat,
{
    vstd::arithmetic::power2::lemma_pow2_adds(64, 64);
    vstd::arithmetic::power2::lemma2_to64();
    assert(vstd::arithmetic::power2::pow2(64) * vstd::arithmetic::power2::pow2(64)
        == 340282366920938463463374607431768211456int as nat) by (nonlinear_arith)
        requires
            vstd::arithmetic::power2::pow2(64) == 0x1_0000_0000_0000_0000,
    ;
}

/// 2^256 written out, as the word modulus.
pub proof fn lemma_pow2_256_literal()
    ensures
        vstd::arithmetic::power2::pow2(256) == crate::word::pow2_256(),
{
    vstd::arithmetic::power2::lemma_pow2_adds(128, 128);
    lemma_pow2_128_literal();
    assert(vstd::arithmetic::power2::pow2(128) * vstd::arithmetic::power2::pow2(128)
        == crate::word::pow2_256()) by (nonlinear_arith)
        requires
            vstd::arithmetic::power2::pow2(128) == 340282366920938463463374607431768211456int
                as nat,
    ;
}

} // verus!
