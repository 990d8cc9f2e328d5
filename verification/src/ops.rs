//! The EVM opcode handlers: one method per opcode, acting on the machine
//! context, each with the stack, gas and state effects written out.
use vstd::prelude::*;

use crate::arith::{
    i256_div, i256_rem, i256_sar, keccak256, keccak_of, spec_tdiv, spec_trem, u256_add, u256_div,
    u256_mul, u256_rem, u256_shl, u256_shr, u256_sub,
};
use crate::machine::{
    env_eq, env_eq_but_exit, frame_core, frame_stack_gas, frame_stack_gas_env, frame_stack_gas_mem, frame_storage_only,
    spec_burn, stack_shape, storage_lookup, Evm, ExitStatus, LogEntry,
};
use crate::word::{pow2_255, pow2_256, Word};
use crate::word_bytes::{addr_eq, be_val, word_from_address, word_from_be, word_to_address};

verus! {

/// The byte that pads reads past the end of a data source.
pub open spec fn padded_byte(src: Seq<u8>, off: nat, i: int) -> u8 {
    if off + i < src.len() {
        src[off + i]
    } else {
        0
    }
}

impl Evm {
    /// STOP: clears the stack, returns empty data, ends with success.
    pub fn stop(&mut self)
        requires
            old(self).wf(),
        ensures
            final (self).wf(),
            frame_stack_gas_env(*old(self), *final (self)),
            final (self).gas_used == old(self).gas_used,
            final (self).stack@.len() == 0,
            final (self).env.return_data@.len() == 0,
            final (self).env.exit_status == Some(ExitStatus::Success),
            final (self).env.call_data@ == old(self).env.call_data@,
            final (self).env.storage@ == old(self).env.storage@,
            final (self).env.logs@ == old(self).env.logs@,
    {
        self.burn_gas(0);
        self.stack = Vec::new();
        self.env.return_data = Vec::new();
        self.env.exit_status = Some(ExitStatus::Success);
    }

    /// ADD: pops two words and pushes their sum modulo 2^256.
    pub fn add(&mut self)
        requires
            old(self).wf(),
            old(self).stack@.len() >= 2,
        ensures
            final (self).wf(),
            frame_stack_gas(*old(self), *final (self)),
            final (self).gas_used == spec_burn(old(self).gas_used, 3),
            stack_shape(old(self).stack@, final (self).stack@, 2, 1),
            final (self).stack@.last().val() == (old(self).stack@.last().val() + old(
                self,
            ).stack@[old(self).stack@.len() - 2].val()) % pow2_256(),
    {
        self.burn_gas(3);
        let a = self.pop_word();
        let b = self.pop_word();
        let r = u256_add(&a, &b);
        self.push_word(r);
        proof {
            lemma_binop_shape(old(self).stack@, self.stack@, r);
        }
    }

    /// MUL: pops two words and pushes their product modulo 2^256.
    pub fn mul(&mut self)
        requires
            old(self).wf(),
            old(self).stack@.len() >= 2,
        ensures
            final (self).wf(),
            frame_stack_gas(*old(self), *final (self)),
            final (self).gas_used == spec_burn(old(self).gas_used, 5),
            stack_shape(old(self).stack@, final (self).stack@, 2, 1),
            final (self).stack@.last().val() == (old(self).stack@.last().val() * old(
                self,
            ).stack@[old(self).stack@.len() - 2].val()) % pow2_256(),
    {
        self.burn_gas(5);
        let a = self.pop_word();
        let b = self.pop_word();
        let r = u256_mul(&a, &b);
        self.push_word(r);
        proof {
            lemma_binop_shape(old(self).stack@, self.stack@, r);
        }
    }

    /// SUB: pops two words and pushes their difference modulo 2^256.
    pub fn sub(&mut self)
        requires
            old(self).wf(),
            old(self).stack@.len() >= 2,
        ensures
            final (self).wf(),
            frame_stack_gas(*old(self), *final (self)),
            final (self).gas_used == spec_burn(old(self).gas_used, 3),
            stack_shape(old(self).stack@, final (self).stack@, 2, 1),
            final (self).stack@.last().val() as int == (old(self).stack@.last().val() + pow2_256()
                - old(self).stack@[old(self).stack@.len() - 2].val()) % (pow2_256() as int),
    {
        self.burn_gas(3);
        let a = self.pop_word();
        let b = self.pop_word();
        let r = u256_sub(&a, &b);
        self.push_word(r);
        proof {
            lemma_binop_shape(old(self).stack@, self.stack@, r);
        }
    }

    /// DIV: pops two words and pushes the unsigned quotient, zero for a
    /// zero divisor.
    pub fn div(&mut self)
        requires
            old(self).wf(),
            old(self).stack@.len() >= 2,
        ensures
            final (self).wf(),
            frame_stack_gas(*old(self), *final (self)),
            final (self).gas_used == spec_burn(old(self).gas_used, 5),
            stack_shape(old(self).stack@, final (self).stack@, 2, 1),
            final (self).stack@.last().val() == ({
                let a = old(self).stack@.last().val();
                let b = old(self).stack@[old(self).stack@.len() - 2].val();
                if b == 0 {
                    0
                } else {
                    a / b
                }
            }),
    {
        self.burn_gas(5);
        let a = self.pop_word();
        let b = self.pop_word();
        let r = if b.is_zero() {
            Word::zero()
        } else {
            u256_div(&a, &b)
        };
        self.push_word(r);
        proof {
            lemma_binop_shape(old(self).stack@, self.stack@, r);
        }
    }

    /// SDIV: pops two words and pushes the truncated signed quotient,
    /// zero for a zero divisor; the most negative word divided by minus
    /// one wraps to itself.
    pub fn sdiv(&mut self)
        requires
            old(self).wf(),
            old(self).stack@.len() >= 2,
        ensures
            final (self).wf(),
            frame_stack_gas(*old(self), *final (self)),
            final (self).gas_used == spec_burn(old(self).gas_used, 5),
            stack_shape(old(self).stack@, final (self).stack@, 2, 1),
            ({
                let a = old(self).stack@.last().sval();
                let b = old(self).stack@[old(self).stack@.len() - 2].sval();
                let top = final (self).stack@.last();
                if b == 0 {
                    top.val() == 0
                } else if a == -(pow2_255() as int) && b == -1 {
                    top.sval() == -(pow2_255() as int)
                } else {
                    top.sval() == spec_tdiv(a, b)
                }
            }),
    {
        self.burn_gas(5);
        let a = self.pop_word();
        let b = self.pop_word();
        let r = if b.is_zero() {
            Word::zero()
        } else {
            i256_div(&a, &b)
        };
        self.push_word(r);
        proof {
            lemma_binop_shape(old(self).stack@, self.stack@, r);
        }
    }

    /// MOD: pops two words and pushes the unsigned remainder, zero for a
    /// zero divisor.
    pub fn modulo(&mut self)
        requires
            old(self).wf(),
            old(self).stack@.len() >= 2,
        ensures
            final (self).wf(),
            frame_stack_gas(*old(self), *final (self)),
            final (self).gas_used == spec_burn(old(self).gas_used, 5),
            stack_shape(old(self).stack@, final (self).stack@, 2, 1),
            final (self).stack@.last().val() == ({
                let a = old(self).stack@.last().val();
                let b = old(self).stack@[old(self).stack@.len() - 2].val();
                if b == 0 {
                    0
                } else {
                    a % b
                }
            }),
    {
        self.burn_gas(5);
        let a = self.pop_word();
        let b = self.pop_word();
        let r = if b.is_zero() {
            Word::zero()
        } else {
            u256_rem(&a, &b)
        };
        self.push_word(r);
        proof {
            lemma_binop_shape(old(self).stack@, self.stack@, r);
        }
    }

    /// SMOD: pops two words and pushes the signed remainder, which takes
    /// the dividend's sign; zero for a zero divisor.
    pub fn smod(&mut self)
        requires
            old(self).wf(),
            old(self).stack@.len() >= 2,
        ensures
            final (self).wf(),
            frame_stack_gas(*old(self), *final (self)),
            final (self).gas_used == spec_burn(old(self).gas_used, 5),
            stack_shape(old(self).stack@, final (self).stack@, 2, 1),
            ({
                let a = old(self).stack@.last().sval();
                let b = old(self).stack@[old(self).stack@.len() - 2].sval();
                let top = final (self).stack@.last();
                if b == 0 {
                    top.val() == 0
                } else {
                    top.sval() == spec_trem(a, b)
                }
            }),
    {
        self.burn_gas(5);
        let a = self.pop_word();
        let b = self.pop_word();
        let r = if b.is_zero() {
            Word::zero()
        } else {
            i256_rem(&a, &b)
        };
        self.push_word(r);
        proof {
            lemma_binop_shape(old(self).stack@, self.stack@, r);
        }
    }

    /// ADDMOD: pops three words and pushes `(a + b) mod n`, computed on
    /// the full sum without truncation; zero for a zero modulus.
    pub fn addmod(&mut self)
        requires
            old(self).wf(),
            old(self).stack@.len() >= 3,
        ensures
            final (self).wf(),
            frame_stack_gas(*old(self), *final (self)),
            final (self).gas_used == spec_burn(old(self).gas_used, 8),
            stack_shape(old(self).stack@, final (self).stack@, 3, 1),
            final (self).stack@.last().val() == ({
                let a = old(self).stack@.last().val();
                let b = old(self).stack@[old(self).stack@.len() - 2].val();
                let n = old(self).stack@[old(self).stack@.len() - 3].val();
                if n == 0 {
                    0
                } else {
                    (a + b) % n
                }
            }),
    {
        self.burn_gas(8);
        let a = self.pop_word();
        let b = self.pop_word();
        let n = self.pop_word();
        let r = if n.is_zero() {
            Word::zero()
        } else {
            let am = u256_rem(&a, &n);
            let bm = u256_rem(&b, &n);
            let s = u256_add(&am, &bm);
            proof {
                vstd::arithmetic::div_mod::lemma_add_mod_noop(
                    a.val() as int,
                    b.val() as int,
                    n.val() as int,
                );
            }
            let reduced = if s.lt(&am) {
                // the sum wrapped past 2^256; taking one n away brings it
                // back into range
                proof {
                    lemma_addmod_wrapped(a.val(), b.val(), n.val(), am.val(), bm.val(), s.val());
                }
                u256_sub(&s, &n)
            } else if n.lt(&s) || s == n {
                proof {
                    lemma_addmod_high(a.val(), b.val(), n.val(), am.val(), bm.val(), s.val());
                }
                u256_sub(&s, &n)
            } else {
                proof {
                    vstd::arithmetic::div_mod::lemma_small_mod(s.val(), n.val());
                }
                s
            };
            reduced
        };
        self.push_word(r);
        proof {
            lemma_ternop_shape(old(self).stack@, self.stack@, r);
        }
    }

    /// MULMOD: pops three words and pushes `(a * b) mod n`, computed on
    /// the full product by modular double-and-add; zero for a zero
    /// modulus.
    pub fn mulmod(&mut self)
        requires
            old(self).wf(),
            old(self).stack@.len() >= 3,
        ensures
            final (self).wf(),
            frame_stack_gas(*old(self), *final (self)),
            final (self).gas_used == spec_burn(old(self).gas_used, 8),
            stack_shape(old(self).stack@, final (self).stack@, 3, 1),
            final (self).stack@.last().val() == ({
                let a = old(self).stack@.last().val();
                let b = old(self).stack@[old(self).stack@.len() - 2].val();
                let n = old(self).stack@[old(self).stack@.len() - 3].val();
                if n == 0 {
                    0
                } else {
                    (a * b) % n
                }
            }),
    {
        self.burn_gas(8);
        let a = self.pop_word();
        let b = self.pop_word();
        let n = self.pop_word();
        let r = if n.is_zero() {
            Word::zero()
        } else {
            mul_mod_word(&a, &b, &n)
        };
        self.push_word(r);
        proof {
            lemma_ternop_shape(old(self).stack@, self.stack@, r);
        }
    }

    /// EXP: pops base and exponent and pushes the power modulo 2^256,
    /// for any 256-bit exponent, by modular square-and-multiply.
    pub fn exp(&mut self)
        requires
            old(self).wf(),
            old(self).stack@.len() >= 2,
        ensures
            final (self).wf(),
            frame_stack_gas(*old(self), *final (self)),
            final (self).gas_used == spec_burn(old(self).gas_used, 10),
            stack_shape(old(self).stack@, final (self).stack@, 2, 1),
            final (self).stack@.last().val() == vstd::arithmetic::power::pow(
                old(self).stack@.last().val() as int,
                old(self).stack@[old(self).stack@.len() - 2].val(),
            ) % (pow2_256() as int),
    {
        self.burn_gas(10);
        let a = self.pop_word();
        let b = self.pop_word();
        let r = pow_mod_word(&a, &b);
        self.push_word(r);
        proof {
            lemma_binop_shape(old(self).stack@, self.stack@, r);
        }
    }
}

/// After two pops and one push the stack kept everything below the two
/// popped words.
proof fn lemma_binop_shape(pre: Seq<Word>, post: Seq<Word>, r: Word)
    requires
        pre.len() >= 2,
        post == pre.drop_last().drop_last().push(r),
    ensures
        stack_shape(pre, post, 2, 1),
        post.last() == r,
{
    assert(post.take(pre.len() - 2) =~= pre.take(pre.len() - 2));
}

/// When the reduced sum of two remainders wraps past 2^256, adding the
/// wrap back and taking one modulus away lands exactly on the modular
/// sum.
proof fn lemma_addmod_wrapped(a: nat, b: nat, n: nat, am: nat, bm: nat, s: nat)
    requires
        n > 0,
        n < crate::word::pow2_256(),
        am == a % n,
        bm == b % n,
        s == (am + bm) % crate::word::pow2_256(),
        s < am,
    ensures
        ((s + crate::word::pow2_256() - n) % (crate::word::pow2_256() as int)) == (a + b) % n,
{
    let p = crate::word::pow2_256();
    vstd::arithmetic::div_mod::lemma_mod_bound(a as int, n as int);
    vstd::arithmetic::div_mod::lemma_mod_bound(b as int, n as int);
    // am + bm < 2n <= 2^256 + n, and the sum wrapped, so it exceeded 2^256
    if am + bm < p {
        vstd::arithmetic::div_mod::lemma_small_mod(am + bm, p);
        assert(false);
    }
    vstd::arithmetic::div_mod::lemma_mod_multiples_vanish(-1, (am + bm) as int, p as int);
    vstd::arithmetic::div_mod::lemma_small_mod((am + bm - p) as nat, p);
    assert(s == am + bm - p);
    // am + bm - n < n, and it equals (a + b) mod n
    vstd::arithmetic::div_mod::lemma_add_mod_noop(a as int, b as int, n as int);
    vstd::arithmetic::div_mod::lemma_mod_multiples_vanish(-1, (am + bm) as int, n as int);
    vstd::arithmetic::div_mod::lemma_small_mod((am + bm - n) as nat, n);
    vstd::arithmetic::div_mod::lemma_small_mod((s + p - n) as nat, p);
}

/// When the reduced sum of two remainders stays under 2^256 but reaches
/// the modulus, one subtraction completes the reduction.
proof fn lemma_addmod_high(a: nat, b: nat, n: nat, am: nat, bm: nat, s: nat)
    requires
        n > 0,
        n < crate::word::pow2_256(),
        am == a % n,
        bm == b % n,
        s == (am + bm) % crate::word::pow2_256(),
        s >= am,
        s >= n,
    ensures
        ((s + crate::word::pow2_256() - n) % (crate::word::pow2_256() as int)) == (a + b) % n,
{
    let p = crate::word::pow2_256();
    vstd::arithmetic::div_mod::lemma_mod_bound(a as int, n as int);
    vstd::arithmetic::div_mod::lemma_mod_bound(b as int, n as int);
    if am + bm >= p {
        vstd::arithmetic::div_mod::lemma_mod_multiples_vanish(-1, (am + bm) as int, p as int);
        vstd::arithmetic::div_mod::lemma_small_mod((am + bm - p) as nat, p);
        assert(s == am + bm - p);
        assert(s < am);
        assert(false);
    }
    vstd::arithmetic::div_mod::lemma_small_mod(am + bm, p);
    assert(s == am + bm);
    vstd::arithmetic::div_mod::lemma_add_mod_noop(a as int, b as int, n as int);
    vstd::arithmetic::div_mod::lemma_mod_multiples_vanish(-1, (am + bm) as int, n as int);
    vstd::arithmetic::div_mod::lemma_small_mod((am + bm - n) as nat, n);
    // the subtraction stays in range, so the wrap-around vanishes
    vstd::arithmetic::div_mod::lemma_mod_multiples_vanish(1, (s - n) as int, p as int);
    vstd::arithmetic::div_mod::lemma_small_mod((s - n) as nat, p);
}

/// Adds two already-reduced words modulo `n`: the plain sum, brought
/// back under `n` by at most one subtraction, with the wrap past 2^256
/// accounted for.
fn mod_add_small(x: &Word, y: &Word, n: &Word) -> (r: Word)
    requires
        n.val() > 0,
        x.val() < n.val(),
        y.val() < n.val(),
    ensures
        r.val() == (x.val() + y.val()) % n.val(),
        r.val() < n.val(),
{
    proof {
        crate::word::lemma_word_val_bound(*n);
        vstd::arithmetic::div_mod::lemma_small_mod(x.val(), n.val());
        vstd::arithmetic::div_mod::lemma_small_mod(y.val(), n.val());
    }
    let s = u256_add(x, y);
    let r = if s.lt(x) {
        proof {
            lemma_addmod_wrapped(x.val(), y.val(), n.val(), x.val(), y.val(), s.val());
        }
        u256_sub(&s, n)
    } else if n.lt(&s) || !s.lt(n) {
        proof {
            lemma_addmod_high(x.val(), y.val(), n.val(), x.val(), y.val(), s.val());
        }
        u256_sub(&s, n)
    } else {
        proof {
            vstd::arithmetic::div_mod::lemma_small_mod(s.val(), n.val());
        }
        s
    };
    proof {
        vstd::arithmetic::div_mod::lemma_mod_bound((x.val() + y.val()) as int, n.val() as int);
    }
    r
}

/// The full product modulo `n`, by modular double-and-add over the 256
/// bits of `b`, least significant first.
fn mul_mod_word(a: &Word, b: &Word, n: &Word) -> (r: Word)
    requires
        n.val() > 0,
    ensures
        r.val() == (a.val() * b.val()) % n.val(),
{
    let mut result = Word::zero();
    let mut base = u256_rem(a, n);
    let mut rem = *b;
    proof {
        vstd::arithmetic::power2::lemma2_to64();
        assert(vstd::arithmetic::power2::pow2(0) == 1);
        assert(b.val() % 1 == 0) by (nonlinear_arith);
        assert(a.val() * (0int) == 0) by (nonlinear_arith);
        assert(0int % (n.val() as int) == 0) by (nonlinear_arith)
            requires
                n.val() > 0,
        ;
        assert(a.val() * vstd::arithmetic::power2::pow2(0) == a.val()) by (nonlinear_arith)
            requires
                vstd::arithmetic::power2::pow2(0) == 1,
        ;
        vstd::arithmetic::div_mod::lemma_mod_bound(a.val() as int, n.val() as int);
        assert(b.val() as int / 1int == b.val() as int) by (nonlinear_arith);
    }
    let mut k: u32 = 0;
    while k < 256
        invariant
            k <= 256,
            n.val() > 0,
            result.val() == (a.val() * (b.val() % vstd::arithmetic::power2::pow2(
                k as nat,
            ))) % n.val(),
            base.val() == (a.val() * vstd::arithmetic::power2::pow2(k as nat)) % n.val(),
            rem.val() == b.val() / vstd::arithmetic::power2::pow2(k as nat),
            result.val() < n.val(),
            base.val() < n.val(),
        decreases 256 - k,
    {
        let ghost pk = vstd::arithmetic::power2::pow2(k as nat);
        proof {
            vstd::arithmetic::power2::lemma_pow2_pos(k as nat);
            vstd::arithmetic::power2::lemma_pow2_adds(k as nat, 1);
            vstd::arithmetic::power2::lemma2_to64();
            lemma_word_parity(rem);
            vstd::arithmetic::div_mod::lemma_breakdown(b.val() as int, pk as int, 2);
        }
        let bit = rem.lo & 1 == 1;
        if bit {
            let r2 = mod_add_small(&result, &base, n);
            proof {
                lemma_mulmod_step(
                    a.val(),
                    b.val(),
                    n.val(),
                    k as nat,
                    result.val(),
                    base.val(),
                    r2.val(),
                    true,
                );
            }
            result = r2;
        } else {
            proof {
                lemma_mulmod_step(
                    a.val(),
                    b.val(),
                    n.val(),
                    k as nat,
                    result.val(),
                    base.val(),
                    result.val(),
                    false,
                );
            }
        }
        let b2 = mod_add_small(&base, &base, n);
        proof {
            lemma_mulmod_double(a.val(), n.val(), k as nat, base.val(), b2.val());
        }
        base = b2;
        let rem2 = u256_shr(&rem, 1);
        proof {
            vstd::arithmetic::div_mod::lemma_div_denominator(b.val() as int, pk as int, 2);
            assert(pk * 2 == vstd::arithmetic::power2::pow2((k + 1) as nat));
        }
        rem = rem2;
        k = k + 1;
    }
    proof {
        crate::word_bytes::lemma_pow2_256_literal();
        vstd::arithmetic::div_mod::lemma_small_mod(b.val(), crate::word::pow2_256());
    }
    result
}

/// The power modulo 2^256, by square-and-multiply over the 256 bits of
/// the exponent, least significant first.
fn pow_mod_word(a: &Word, b: &Word) -> (r: Word)
    ensures
        r.val() == vstd::arithmetic::power::pow(a.val() as int, b.val()) % (pow2_256() as int),
{
    let mut result = Word::one();
    let mut base = *a;
    let mut rem = *b;
    proof {
        vstd::arithmetic::power2::lemma2_to64();
        vstd::arithmetic::power::lemma_pow0(a.val() as int);
        vstd::arithmetic::power::lemma_pow1(a.val() as int);
        crate::word::lemma_word_val_bound(*a);
        assert(b.val() % 1 == 0) by (nonlinear_arith);
        assert(b.val() as int / 1int == b.val() as int) by (nonlinear_arith);
        vstd::arithmetic::div_mod::lemma_small_mod(1nat, pow2_256());
        vstd::arithmetic::div_mod::lemma_small_mod(a.val(), pow2_256());
    }
    let mut k: u32 = 0;
    while k < 256
        invariant
            k <= 256,
            result.val() == vstd::arithmetic::power::pow(
                a.val() as int,
                b.val() % vstd::arithmetic::power2::pow2(k as nat),
            ) % (pow2_256() as int),
            base.val() == vstd::arithmetic::power::pow(
                a.val() as int,
                vstd::arithmetic::power2::pow2(k as nat),
            ) % (pow2_256() as int),
            rem.val() == b.val() / vstd::arithmetic::power2::pow2(k as nat),
        decreases 256 - k,
    {
        let ghost pk = vstd::arithmetic::power2::pow2(k as nat);
        proof {
            vstd::arithmetic::power2::lemma_pow2_pos(k as nat);
            vstd::arithmetic::power2::lemma_pow2_adds(k as nat, 1);
            vstd::arithmetic::power2::lemma2_to64();
            lemma_word_parity(rem);
            vstd::arithmetic::div_mod::lemma_breakdown(b.val() as int, pk as int, 2);
        }
        let bit = rem.lo & 1 == 1;
        if bit {
            let r2 = u256_mul(&result, &base);
            proof {
                lemma_powmod_step(
                    a.val(),
                    b.val(),
                    k as nat,
                    result.val(),
                    base.val(),
                    r2.val(),
                    true,
                );
            }
            result = r2;
        } else {
            proof {
                lemma_powmod_step(
                    a.val(),
                    b.val(),
                    k as nat,
                    result.val(),
                    base.val(),
                    result.val(),
                    false,
                );
            }
        }
        let b2 = u256_mul(&base, &base);
        proof {
            lemma_powmod_double(a.val(), k as nat, base.val(), b2.val());
        }
        base = b2;
        let rem2 = u256_shr(&rem, 1);
        proof {
            vstd::arithmetic::div_mod::lemma_div_denominator(b.val() as int, pk as int, 2);
            assert(pk * 2 == vstd::arithmetic::power2::pow2((k + 1) as nat));
        }
        rem = rem2;
        k = k + 1;
    }
    proof {
        crate::word_bytes::lemma_pow2_256_literal();
        vstd::arithmetic::div_mod::lemma_small_mod(b.val(), crate::word::pow2_256());
    }
    result
}

/// One square-and-multiply step: folding in the bit at weight 2^k
/// extends the partial power from `b mod 2^k` to `b mod 2^(k+1)`.
proof fn lemma_powmod_step(a: nat, b: nat, k: nat, result: nat, base: nat, r2: nat, bit: bool)
    requires
        result == vstd::arithmetic::power::pow(
            a as int,
            b % vstd::arithmetic::power2::pow2(k),
        ) % (crate::word::pow2_256() as int),
        base == vstd::arithmetic::power::pow(a as int, vstd::arithmetic::power2::pow2(k)) % (
        crate::word::pow2_256() as int),
        bit <==> (b as int / vstd::arithmetic::power2::pow2(k) as int) % 2 == 1,
        bit ==> r2 as int == (result * base) as int % (crate::word::pow2_256() as int),
        !bit ==> r2 == result,
    ensures
        r2 == vstd::arithmetic::power::pow(
            a as int,
            b % vstd::arithmetic::power2::pow2(k + 1),
        ) % (crate::word::pow2_256() as int),
{
    let m = crate::word::pow2_256() as int;
    let p = vstd::arithmetic::power2::pow2(k);
    let p2 = vstd::arithmetic::power2::pow2(k + 1);
    vstd::arithmetic::power2::lemma_pow2_pos(k);
    vstd::arithmetic::power2::lemma_pow2_adds(k, 1);
    vstd::arithmetic::power2::lemma2_to64();
    assert(p2 == p * 2);
    vstd::arithmetic::div_mod::lemma_breakdown(b as int, p as int, 2);
    assert(b as int % (p * 2) as int == p * ((b as int / p as int) % 2) + b as int % p as int);
    if bit {
        assert(b % p2 == b % p + p);
        vstd::arithmetic::power::lemma_pow_adds(a as int, b % p, p);
        vstd::arithmetic::div_mod::lemma_mul_mod_noop_general(
            vstd::arithmetic::power::pow(a as int, b % p),
            vstd::arithmetic::power::pow(a as int, p),
            m,
        );
    } else {
        assert((b as int / p as int) % 2 == 0);
        assert(b % p2 == b % p);
    }
}

/// One squaring step: the running power of the base doubles its
/// exponent.
proof fn lemma_powmod_double(a: nat, k: nat, base: nat, b2: nat)
    requires
        base == vstd::arithmetic::power::pow(a as int, vstd::arithmetic::power2::pow2(k)) % (
        crate::word::pow2_256() as int),
        b2 as int == (base * base) as int % (crate::word::pow2_256() as int),
    ensures
        b2 == vstd::arithmetic::power::pow(a as int, vstd::arithmetic::power2::pow2(k + 1)) % (
        crate::word::pow2_256() as int),
{
    let m = crate::word::pow2_256() as int;
    let p = vstd::arithmetic::power2::pow2(k);
    vstd::arithmetic::power2::lemma_pow2_adds(k, 1);
    vstd::arithmetic::power2::lemma2_to64();
    assert(vstd::arithmetic::power2::pow2(k + 1) == p + p) by (nonlinear_arith)
        requires
            vstd::arithmetic::power2::pow2(k + 1) == vstd::arithmetic::power2::pow2(k)
                * vstd::arithmetic::power2::pow2(1),
            vstd::arithmetic::power2::pow2(1) == 2,
            p == vstd::arithmetic::power2::pow2(k),
    ;
    vstd::arithmetic::power::lemma_pow_adds(a as int, p, p);
    vstd::arithmetic::div_mod::lemma_mul_mod_noop_general(
        vstd::arithmetic::power::pow(a as int, p),
        vstd::arithmetic::power::pow(a as int, p),
        m,
    );
}

/// One double-and-add step: folding in the bit at weight 2^k extends
/// the partial product from `b mod 2^k` to `b mod 2^(k+1)`.
proof fn lemma_mulmod_step(
    a: nat,
    b: nat,
    n: nat,
    k: nat,
    result: nat,
    base: nat,
    r2: nat,
    bit: bool,
)
    requires
        n > 0,
        result == (a * (b % vstd::arithmetic::power2::pow2(k))) % n,
        base == (a * vstd::arithmetic::power2::pow2(k)) % n,
        bit <==> (b as int / vstd::arithmetic::power2::pow2(k) as int) % 2 == 1,
        bit ==> r2 == (result + base) % n,
        !bit ==> r2 == result,
    ensures
        r2 == (a * (b % vstd::arithmetic::power2::pow2(k + 1))) % n,
{
    let p = vstd::arithmetic::power2::pow2(k);
    let p2 = vstd::arithmetic::power2::pow2(k + 1);
    vstd::arithmetic::power2::lemma_pow2_pos(k);
    vstd::arithmetic::power2::lemma_pow2_adds(k, 1);
    vstd::arithmetic::power2::lemma2_to64();
    assert(p2 == p * 2);
    vstd::arithmetic::div_mod::lemma_breakdown(b as int, p as int, 2);
    assert(b as int % (p * 2) as int == p * ((b as int / p as int) % 2) + b as int % p as int);
    if bit {
        assert(b % p2 == b % p + p);
        vstd::arithmetic::div_mod::lemma_add_mod_noop(
            (a * (b % p)) as int,
            (a * p) as int,
            n as int,
        );
        vstd::arithmetic::mul::lemma_mul_is_distributive_add(a as int, (b % p) as int, p as int);
        assert(a * (b % p) + a * p == a * ((b % p) + p));
        assert(r2 == (a * (b % p) + a * p) % n);
    } else {
        assert((b as int / p as int) % 2 == 0);
        assert(b % p2 == b % p);
    }
}

/// Doubling the running power keeps it a reduced multiple of `a`.
proof fn lemma_mulmod_double(a: nat, n: nat, k: nat, base: nat, b2: nat)
    requires
        n > 0,
        base == (a * vstd::arithmetic::power2::pow2(k)) % n,
        b2 == (base + base) % n,
    ensures
        b2 == (a * vstd::arithmetic::power2::pow2(k + 1)) % n,
{
    let p = vstd::arithmetic::power2::pow2(k);
    vstd::arithmetic::power2::lemma_pow2_adds(k, 1);
    vstd::arithmetic::power2::lemma2_to64();
    vstd::arithmetic::div_mod::lemma_add_mod_noop((a * p) as int, (a * p) as int, n as int);
    assert(a * p + a * p == a * (p * 2)) by (nonlinear_arith);
    assert(vstd::arithmetic::power2::pow2(k + 1) == p * 2);
}

/// After three pops and one push the stack kept everything below the
/// three popped words.
proof fn lemma_ternop_shape(pre: Seq<Word>, post: Seq<Word>, r: Word)
    requires
        pre.len() >= 3,
        post == pre.drop_last().drop_last().drop_last().push(r),
    ensures
        stack_shape(pre, post, 3, 1),
        post.last() == r,
{
    assert(post.take(pre.len() - 3) =~= pre.take(pre.len() - 3));
}


impl Evm {
    /// LT: pops two words and pushes one if the first is below the
    /// second, else zero.
    pub fn lt(&mut self)
        requires
            old(self).wf(),
            old(self).stack@.len() >= 2,
        ensures
            final (self).wf(),
            frame_stack_gas(*old(self), *final (self)),
            final (self).gas_used == spec_burn(old(self).gas_used, 3),
            stack_shape(old(self).stack@, final (self).stack@, 2, 1),
            final (self).stack@.last().val() == (if old(self).stack@.last().val() < old(
                self,
            ).stack@[old(self).stack@.len() - 2].val() {
                1int
            } else {
                0int
            }),
    {
        self.burn_gas(3);
        let a = self.pop_word();
        let b = self.pop_word();
        let r = if a.lt(&b) {
            Word::one()
        } else {
            Word::zero()
        };
        self.push_word(r);
        proof {
            lemma_binop_shape(old(self).stack@, self.stack@, r);
        }
    }

    /// GT: pops two words and pushes one if the first is above the
    /// second, else zero.
    pub fn gt(&mut self)
        requires
            old(self).wf(),
            old(self).stack@.len() >= 2,
        ensures
            final (self).wf(),
            frame_stack_gas(*old(self), *final (self)),
            final (self).gas_used == spec_burn(old(self).gas_used, 3),
            stack_shape(old(self).stack@, final (self).stack@, 2, 1),
            final (self).stack@.last().val() == (if old(self).stack@.last().val() > old(
                self,
            ).stack@[old(self).stack@.len() - 2].val() {
                1int
            } else {
                0int
            }),
    {
        self.burn_gas(3);
        let a = self.pop_word();
        let b = self.pop_word();
        let r = if b.lt(&a) {
            Word::one()
        } else {
            Word::zero()
        };
        self.push_word(r);
        proof {
            lemma_binop_shape(old(self).stack@, self.stack@, r);
        }
    }

    /// SLT: signed comparison, one if the first word is below the second.
    pub fn slt(&mut self)
        requires
            old(self).wf(),
            old(self).stack@.len() >= 2,
        ensures
            final (self).wf(),
            frame_stack_gas(*old(self), *final (self)),
            final (self).gas_used == spec_burn(old(self).gas_used, 3),
            stack_shape(old(self).stack@, final (self).stack@, 2, 1),
            final (self).stack@.last().val() == (if old(self).stack@.last().sval() < old(
                self,
            ).stack@[old(self).stack@.len() - 2].sval() {
                1int
            } else {
                0int
            }),
    {
        self.burn_gas(3);
        let a = self.pop_word();
        let b = self.pop_word();
        let r = if a.slt(&b) {
            Word::one()
        } else {
            Word::zero()
        };
        self.push_word(r);
        proof {
            lemma_binop_shape(old(self).stack@, self.stack@, r);
        }
    }

    /// SGT: signed comparison, one if the first word is above the second.
    pub fn sgt(&mut self)
        requires
            old(self).wf(),
            old(self).stack@.len() >= 2,
        ensures
            final (self).wf(),
            frame_stack_gas(*old(self), *final (self)),
            final (self).gas_used == spec_burn(old(self).gas_used, 3),
            stack_shape(old(self).stack@, final (self).stack@, 2, 1),
            final (self).stack@.last().val() == (if old(self).stack@.last().sval() > old(
                self,
            ).stack@[old(self).stack@.len() - 2].sval() {
                1int
            } else {
                0int
            }),
    {
        self.burn_gas(3);
        let a = self.pop_word();
        let b = self.pop_word();
        let r = if b.slt(&a) {
            Word::one()
        } else {
            Word::zero()
        };
        self.push_word(r);
        proof {
            lemma_binop_shape(old(self).stack@, self.stack@, r);
        }
    }

    /// EQ: one if the two popped words are equal, else zero.
    pub fn eq(&mut self)
        requires
            old(self).wf(),
            old(self).stack@.len() >= 2,
        ensures
            final (self).wf(),
            frame_stack_gas(*old(self), *final (self)),
            final (self).gas_used == spec_burn(old(self).gas_used, 3),
            stack_shape(old(self).stack@, final (self).stack@, 2, 1),
            final (self).stack@.last().val() == (if old(self).stack@.last() == old(
                self,
            ).stack@[old(self).stack@.len() - 2] {
                1int
            } else {
                0int
            }),
    {
        self.burn_gas(3);
        let a = self.pop_word();
        let b = self.pop_word();
        let r = if a == b {
            Word::one()
        } else {
            Word::zero()
        };
        self.push_word(r);
        proof {
            lemma_binop_shape(old(self).stack@, self.stack@, r);
        }
    }

    /// ISZERO: one if the popped word is zero, else zero.
    pub fn iszero(&mut self)
        requires
            old(self).wf(),
            old(self).stack@.len() >= 1,
        ensures
            final (self).wf(),
            frame_stack_gas(*old(self), *final (self)),
            final (self).gas_used == spec_burn(old(self).gas_used, 3),
            stack_shape(old(self).stack@, final (self).stack@, 1, 1),
            final (self).stack@.last().val() == (if old(self).stack@.last().val() == 0 {
                1int
            } else {
                0int
            }),
    {
        self.burn_gas(3);
        let x = self.pop_word();
        let r = if x.is_zero() {
            Word::one()
        } else {
            Word::zero()
        };
        self.push_word(r);
        proof {
            lemma_unop_shape(old(self).stack@, self.stack@, r);
        }
    }

    /// AND: bitwise conjunction of the two popped words, limb by limb.
    pub fn and(&mut self)
        requires
            old(self).wf(),
            old(self).stack@.len() >= 2,
        ensures
            final (self).wf(),
            frame_stack_gas(*old(self), *final (self)),
            final (self).gas_used == spec_burn(old(self).gas_used, 3),
            stack_shape(old(self).stack@, final (self).stack@, 2, 1),
            final (self).stack@.last().hi == old(self).stack@.last().hi & old(self).stack@[old(
                self,
            ).stack@.len() - 2].hi,
            final (self).stack@.last().lo == old(self).stack@.last().lo & old(self).stack@[old(
                self,
            ).stack@.len() - 2].lo,
    {
        self.burn_gas(3);
        let a = self.pop_word();
        let b = self.pop_word();
        let r = a.and(&b);
        self.push_word(r);
        proof {
            lemma_binop_shape(old(self).stack@, self.stack@, r);
        }
    }

    /// OR: bitwise disjunction of the two popped words, limb by limb.
    pub fn or(&mut self)
        requires
            old(self).wf(),
            old(self).stack@.len() >= 2,
        ensures
            final (self).wf(),
            frame_stack_gas(*old(self), *final (self)),
            final (self).gas_used == spec_burn(old(self).gas_used, 3),
            stack_shape(old(self).stack@, final (self).stack@, 2, 1),
            final (self).stack@.last().hi == old(self).stack@.last().hi | old(self).stack@[old(
                self,
            ).stack@.len() - 2].hi,
            final (self).stack@.last().lo == old(self).stack@.last().lo | old(self).stack@[old(
                self,
            ).stack@.len() - 2].lo,
    {
        self.burn_gas(3);
        let a = self.pop_word();
        let b = self.pop_word();
        let r = a.or(&b);
        self.push_word(r);
        proof {
            lemma_binop_shape(old(self).stack@, self.stack@, r);
        }
    }

    /// XOR: bitwise exclusive or of the two popped words, limb by limb.
    pub fn xor(&mut self)
        requires
            old(self).wf(),
            old(self).stack@.len() >= 2,
        ensures
            final (self).wf(),
            frame_stack_gas(*old(self), *final (self)),
            final (self).gas_used == spec_burn(old(self).gas_used, 3),
            stack_shape(old(self).stack@, final (self).stack@, 2, 1),
            final (self).stack@.last().hi == old(self).stack@.last().hi ^ old(self).stack@[old(
                self,
            ).stack@.len() - 2].hi,
            final (self).stack@.last().lo == old(self).stack@.last().lo ^ old(self).stack@[old(
                self,
            ).stack@.len() - 2].lo,
    {
        self.burn_gas(3);
        let a = self.pop_word();
        let b = self.pop_word();
        let r = a.xor(&b);
        self.push_word(r);
        proof {
            lemma_binop_shape(old(self).stack@, self.stack@, r);
        }
    }

    /// NOT: bitwise complement of the popped word.
    pub fn not(&mut self)
        requires
            old(self).wf(),
            old(self).stack@.len() >= 1,
        ensures
            final (self).wf(),
            frame_stack_gas(*old(self), *final (self)),
            final (self).gas_used == spec_burn(old(self).gas_used, 3),
            stack_shape(old(self).stack@, final (self).stack@, 1, 1),
            final (self).stack@.last().val() == pow2_256() - 1 - old(self).stack@.last().val(),
    {
        self.burn_gas(3);
        let x = self.pop_word();
        let r = x.not();
        self.push_word(r);
        proof {
            lemma_unop_shape(old(self).stack@, self.stack@, r);
        }
    }

    /// BYTE: pops an index and a word and pushes that byte of the word,
    /// most significant first; zero for an index past 31.
    pub fn byte(&mut self)
        requires
            old(self).wf(),
            old(self).stack@.len() >= 2,
        ensures
            final (self).wf(),
            frame_stack_gas(*old(self), *final (self)),
            final (self).gas_used == spec_burn(old(self).gas_used, 3),
            stack_shape(old(self).stack@, final (self).stack@, 2, 1),
            final (self).stack@.last().val() == ({
                let index = old(self).stack@.last();
                let w = old(self).stack@[old(self).stack@.len() - 2];
                if index.val() > 31 {
                    0int
                } else {
                    w.spec_byte(index.val() as int) as int
                }
            }),
    {
        self.burn_gas(3);
        let index = self.pop_word();
        let w = self.pop_word();
        let r = if index.hi != 0 || index.lo > 31 {
            Word::zero()
        } else {
            let b = w.byte(index.lo as usize);
            Word::from_u64(b as u64)
        };
        self.push_word(r);
        proof {
            lemma_binop_shape(old(self).stack@, self.stack@, r);
        }
    }

    /// SHL: pops shift and value and pushes the value shifted left,
    /// zero when the value is zero or the shift is past 255.
    pub fn shl(&mut self)
        requires
            old(self).wf(),
            old(self).stack@.len() >= 2,
        ensures
            final (self).wf(),
            frame_stack_gas(*old(self), *final (self)),
            final (self).gas_used == spec_burn(old(self).gas_used, 3),
            stack_shape(old(self).stack@, final (self).stack@, 2, 1),
            final (self).stack@.last().val() == ({
                let shift = old(self).stack@.last();
                let value = old(self).stack@[old(self).stack@.len() - 2];
                if value.val() == 0 || shift.val() > 255 {
                    0int
                } else {
                    ((value.val() * vstd::arithmetic::power2::pow2(shift.val())) % pow2_256()) as int
                }
            }),
    {
        self.burn_gas(3);
        let shift = self.pop_word();
        let value = self.pop_word();
        let r = if value.is_zero() || shift.hi != 0 || shift.lo > 255 {
            Word::zero()
        } else {
            u256_shl(&value, shift.lo as u32)
        };
        self.push_word(r);
        proof {
            lemma_binop_shape(old(self).stack@, self.stack@, r);
        }
    }

    /// SHR: pops shift and value and pushes the value shifted right
    /// logically, zero when the value is zero or the shift is past 255.
    pub fn shr(&mut self)
        requires
            old(self).wf(),
            old(self).stack@.len() >= 2,
        ensures
            final (self).wf(),
            frame_stack_gas(*old(self), *final (self)),
            final (self).gas_used == spec_burn(old(self).gas_used, 3),
            stack_shape(old(self).stack@, final (self).stack@, 2, 1),
            final (self).stack@.last().val() == ({
                let shift = old(self).stack@.last();
                let value = old(self).stack@[old(self).stack@.len() - 2];
                if value.val() == 0 || shift.val() > 255 {
                    0int
                } else {
                    (value.val() / vstd::arithmetic::power2::pow2(shift.val())) as int
                }
            }),
    {
        self.burn_gas(3);
        let shift = self.pop_word();
        let value = self.pop_word();
        let r = if value.is_zero() || shift.hi != 0 || shift.lo > 255 {
            Word::zero()
        } else {
            u256_shr(&value, shift.lo as u32)
        };
        self.push_word(r);
        proof {
            lemma_binop_shape(old(self).stack@, self.stack@, r);
        }
    }

    /// SAR: pops shift and value and pushes the value shifted right
    /// arithmetically (dividing by 2^shift toward minus infinity); for a
    /// shift past 255 the result is all sign bits.
    pub fn sar(&mut self)
        requires
            old(self).wf(),
            old(self).stack@.len() >= 2,
        ensures
            final (self).wf(),
            frame_stack_gas(*old(self), *final (self)),
            final (self).gas_used == spec_burn(old(self).gas_used, 3),
            stack_shape(old(self).stack@, final (self).stack@, 2, 1),
            ({
                let shift = old(self).stack@.last();
                let value = old(self).stack@[old(self).stack@.len() - 2];
                let top = final (self).stack@.last();
                if shift.val() > 255 {
                    top.val() == (if value.sval() >= 0 {
                        0int
                    } else {
                        pow2_256() - 1
                    })
                } else {
                    top.sval() == value.sval() / (vstd::arithmetic::power2::pow2(
                        shift.val(),
                    ) as int)
                }
            }),
    {
        self.burn_gas(3);
        let shift = self.pop_word();
        let value = self.pop_word();
        let r = if shift.hi != 0 || shift.lo > 255 {
            if value.is_neg() {
                Word::max()
            } else {
                Word::zero()
            }
        } else {
            i256_sar(&value, shift.lo as u32)
        };
        self.push_word(r);
        proof {
            lemma_binop_shape(old(self).stack@, self.stack@, r);
        }
    }

    /// SIGNEXTEND: pops a byte position and a word and pushes the word
    /// sign-extended from bit `8*n+7`; a position past 31 leaves the
    /// word unchanged.
    pub fn signextend(&mut self)
        requires
            old(self).wf(),
            old(self).stack@.len() >= 2,
        ensures
            final (self).wf(),
            frame_stack_gas(*old(self), *final (self)),
            final (self).gas_used == spec_burn(old(self).gas_used, 5),
            stack_shape(old(self).stack@, final (self).stack@, 2, 1),
            ({
                let n = old(self).stack@.last();
                let x = old(self).stack@[old(self).stack@.len() - 2];
                let top = final (self).stack@.last();
                if n.val() >= 32 {
                    top == x
                } else {
                    let m = vstd::arithmetic::power2::pow2((8 * n.val() + 7) as nat);
                    if (x.val() / m) % 2 == 1 {
                        top.val() == pow2_256() - m + x.val() % m
                    } else {
                        top.val() == x.val() % m
                    }
                }
            }),
    {
        self.burn_gas(5);
        let n = self.pop_word();
        let x = self.pop_word();
        let r = if n.hi != 0 || n.lo >= 32 {
            x
        } else {
            let bit_index: u32 = 8 * (n.lo as u32) + 7;
            proof {
                vstd::arithmetic::power2::lemma_pow2_strictly_increases(
                    (8 * n.val() + 7) as nat,
                    256,
                );
                crate::word_bytes::lemma_pow2_256_literal();
                vstd::arithmetic::power2::lemma_pow2_pos((8 * n.val() + 7) as nat);
            }
            let one = Word::one();
            let m = u256_shl(&one, bit_index);
            proof {
                vstd::arithmetic::div_mod::lemma_small_mod(
                    vstd::arithmetic::power2::pow2((8 * n.val() + 7) as nat),
                    pow2_256(),
                );
            }
            let q = u256_div(&x, &m);
            let low = u256_rem(&x, &m);
            let ghost mv = vstd::arithmetic::power2::pow2((8 * n.val() + 7) as nat);
            proof {
                lemma_word_parity(q);
            }
            if q.lo & 1 == 1 {
                let z = Word::zero();
                let t = u256_sub(&z, &m);
                proof {
                    vstd::arithmetic::div_mod::lemma_small_mod(
                        (pow2_256() - mv) as nat,
                        pow2_256(),
                    );
                }
                let s = u256_add(&t, &low);
                proof {
                    vstd::arithmetic::div_mod::lemma_small_mod(
                        (pow2_256() - mv + low.val()) as nat,
                        pow2_256(),
                    );
                }
                s
            } else {
                low
            }
        };
        self.push_word(r);
        proof {
            lemma_binop_shape(old(self).stack@, self.stack@, r);
        }
    }
}

/// After one pop and one push the stack kept everything below the popped
/// word.
proof fn lemma_unop_shape(pre: Seq<Word>, post: Seq<Word>, r: Word)
    requires
        pre.len() >= 1,
        post == pre.drop_last().push(r),
    ensures
        stack_shape(pre, post, 1, 1),
        post.last() == r,
{
    assert(post.take(pre.len() - 1) =~= pre.take(pre.len() - 1));
}

/// A word's parity is its low limb's lowest bit.
proof fn lemma_word_parity(w: Word)
    ensures
        (w.lo & 1 == 1) <==> w.val() % 2 == 1,
{
    let l = w.lo;
    assert(l & 1 == l % 2) by (bit_vector);
    assert(w.val() % 2 == w.lo as nat % 2) by (nonlinear_arith)
        requires
            w.val() == w.hi as nat * 340282366920938463463374607431768211456 + w.lo as nat,
    ;
}


impl Evm {
    /// SHA3: pops offset and size and pushes the Keccak-256 digest of
    /// that memory range; the empty range hashes to the fixed empty
    /// digest without touching memory. A range that cannot be addressed
    /// ends the execution out of gas.
    pub fn sha3(&mut self)
        requires
            old(self).wf(),
            old(self).stack@.len() >= 2,
            old(self).stack@.last().val() <= usize::MAX && old(self).stack@[old(
                self,
            ).stack@.len() - 2].val() <= usize::MAX ==> old(self).stack@.last().val() + old(
                self,
            ).stack@[old(self).stack@.len() - 2].val() <= usize::MAX - 31,
        ensures
            final (self).wf(),
            frame_stack_gas_mem(*old(self), *final (self)) || (frame_stack_gas_env(*old(self), *final (self)) && final (self).memory@ == old(self).memory@),
            final (self).gas_used == spec_burn(old(self).gas_used, 30),
            ({
                let offset = old(self).stack@.last();
                let size = old(self).stack@[old(self).stack@.len() - 2];
                if size.val() == 0 {
                    &&& stack_shape(old(self).stack@, final (self).stack@, 2, 1)
                    &&& final (self).stack@.last() == (Word {
                        hi: 0xc5d2460186f7233c927e7db2dcc703c0,
                        lo: 0xe500b653ca82273b7bfad8045d85a470,
                    })
                    &&& final (self).memory@ == old(self).memory@
                    &&& env_eq(final (self).env, old(self).env)
                } else if size.val() > usize::MAX || offset.val() > usize::MAX {
                    &&& stack_shape(old(self).stack@, final (self).stack@, 2, 0)
                    &&& final (self).memory@ == old(self).memory@
                    &&& final (self).env.exit_status == Some(ExitStatus::OutOfGas)
                } else {
                    &&& stack_shape(old(self).stack@, final (self).stack@, 2, 1)
                    &&& final (self).stack@.last().val() == be_val(
                        keccak_of(
                            final (self).memory@.subrange(
                                offset.val() as int,
                                (offset.val() + size.val()) as int,
                            ),
                        ),
                    )
                    &&& final (self).memory@.len() >= offset.val() + size.val()
                    &&& forall|i: int|
                        0 <= i < old(self).memory@.len() ==> final (self).memory@[i] == old(
                            self,
                        ).memory@[i]
                    &&& forall|i: int|
                        old(self).memory@.len() <= i < final (self).memory@.len() ==> final (
                        self).memory@[i] == 0
                    &&& env_eq(final (self).env, old(self).env)
                }
            }),
    {
        self.burn_gas(30);
        let offset = self.pop_word();
        let size = self.pop_word();
        if size.is_zero() {
            let r = Word {
                hi: 0xc5d2460186f7233c927e7db2dcc703c0,
                lo: 0xe500b653ca82273b7bfad8045d85a470,
            };
            self.push_word(r);
            proof {
                lemma_binop_shape(old(self).stack@, self.stack@, r);
            }
            return ;
        }
        let size_u = match word_to_usize(&size) {
            Some(u) => u,
            None => {
                self.env.exit_status = Some(ExitStatus::OutOfGas);
                proof {
                    assert(self.stack@.take(old(self).stack@.len() - 2) =~= old(
                        self,
                    ).stack@.take(old(self).stack@.len() - 2));
                }
                return ;
            },
        };
        let off_u = match word_to_usize(&offset) {
            Some(u) => u,
            None => {
                self.env.exit_status = Some(ExitStatus::OutOfGas);
                proof {
                    assert(self.stack@.take(old(self).stack@.len() - 2) =~= old(
                        self,
                    ).stack@.take(old(self).stack@.len() - 2));
                }
                return ;
            },
        };
        let slice = self.mem_slice(off_u, size_u);
        let hash = keccak256(slice.as_slice());
        let r = word_from_be(hash.as_slice());
        self.push_word(r);
        proof {
            lemma_binop_shape(old(self).stack@, self.stack@, r);
            assert(slice@ =~= self.memory@.subrange(off_u as int, off_u + size_u));
        }
    }

    /// ADDRESS: pushes the executing contract's address.
    pub fn address(&mut self)
        requires
            old(self).wf(),
            old(self).stack@.len() < 1024,
        ensures
            final (self).wf(),
            frame_stack_gas(*old(self), *final (self)),
            final (self).gas_used == spec_burn(old(self).gas_used, 2),
            final (self).stack@ == old(self).stack@.push(final (self).stack@.last()),
            final (self).stack@.last().val() == be_val(old(self).env.address@),
    {
        self.burn_gas(2);
        let r = word_from_address(&self.env.address);
        self.push_word(r);
    }

    /// BALANCE: pops an address and pushes the balance: the machine only
    /// knows its own, every other address reads zero.
    pub fn balance(&mut self)
        requires
            old(self).wf(),
            old(self).stack@.len() >= 1,
        ensures
            final (self).wf(),
            frame_stack_gas(*old(self), *final (self)),
            final (self).gas_used == spec_burn(old(self).gas_used, 100),
            stack_shape(old(self).stack@, final (self).stack@, 1, 1),
            final (self).stack@.last() == (if Seq::new(
                20,
                |i: int| old(self).stack@.last().spec_byte(12 + i),
            ) == old(self).env.address@ {
                old(self).self_balance
            } else {
                Word { hi: 0, lo: 0 }
            }),
    {
        self.burn_gas(100);
        let a = self.pop_word();
        let addr = word_to_address(&a);
        let r = if addr_eq(&addr, &self.env.address) {
            self.self_balance
        } else {
            Word::zero()
        };
        self.push_word(r);
        proof {
            assert(addr@ =~= Seq::new(20, |i: int| old(self).stack@.last().spec_byte(12 + i)));
            lemma_unop_shape(old(self).stack@, self.stack@, r);
        }
    }

    /// ORIGIN: pushes the transaction origin's address.
    pub fn origin(&mut self)
        requires
            old(self).wf(),
            old(self).stack@.len() < 1024,
        ensures
            final (self).wf(),
            frame_stack_gas(*old(self), *final (self)),
            final (self).gas_used == spec_burn(old(self).gas_used, 2),
            final (self).stack@ == old(self).stack@.push(final (self).stack@.last()),
            final (self).stack@.last().val() == be_val(old(self).env.origin@),
    {
        self.burn_gas(2);
        let r = word_from_address(&self.env.origin);
        self.push_word(r);
    }

    /// CALLER: pushes the calling address.
    pub fn caller(&mut self)
        requires
            old(self).wf(),
            old(self).stack@.len() < 1024,
        ensures
            final (self).wf(),
            frame_stack_gas(*old(self), *final (self)),
            final (self).gas_used == spec_burn(old(self).gas_used, 2),
            final (self).stack@ == old(self).stack@.push(final (self).stack@.last()),
            final (self).stack@.last().val() == be_val(old(self).env.caller@),
    {
        self.burn_gas(2);
        let r = word_from_address(&self.env.caller);
        self.push_word(r);
    }

    /// CALLVALUE: pushes the value sent with the call.
    pub fn callvalue(&mut self)
        requires
            old(self).wf(),
            old(self).stack@.len() < 1024,
        ensures
            final (self).wf(),
            frame_stack_gas(*old(self), *final (self)),
            final (self).gas_used == spec_burn(old(self).gas_used, 2),
            final (self).stack@ == old(self).stack@.push(old(self).call_value),
    {
        self.burn_gas(2);
        let r = self.call_value;
        self.push_word(r);
    }

    /// CALLDATALOAD: pops an index and pushes the 32 calldata bytes from
    /// there, zero padded past the end; an index at or past the end
    /// reads a zero word.
    pub fn calldataload(&mut self)
        requires
            old(self).wf(),
            old(self).stack@.len() >= 1,
        ensures
            final (self).wf(),
            frame_stack_gas(*old(self), *final (self)),
            final (self).gas_used == spec_burn(old(self).gas_used, 3),
            stack_shape(old(self).stack@, final (self).stack@, 1, 1),
            ({
                let index = old(self).stack@.last().val();
                let cd = old(self).env.call_data@;
                if index < cd.len() {
                    final (self).stack@.last().val() == be_val(
                        Seq::new(32, |i: int| padded_byte(cd, index, i)),
                    )
                } else {
                    final (self).stack@.last().val() == 0
                }
            }),
    {
        self.burn_gas(3);
        let index = self.pop_word();
        let cd_len = self.env.call_data.len();
        let r = match word_to_usize(&index) {
            Some(idx) if idx < cd_len => {
                let mut buf: Vec<u8> = Vec::new();
                let mut i: usize = 0;
                while i < 32
                    invariant
                        i <= 32,
                        idx < self.env.call_data@.len(),
                        cd_len == self.env.call_data@.len(),
                        buf@.len() == i,
                        forall|k: int|
                            0 <= k < i ==> buf@[k] == padded_byte(
                                self.env.call_data@,
                                idx as nat,
                                k,
                            ),
                    decreases 32 - i,
                {
                    let b = if i <= usize::MAX - idx && idx + i < cd_len {
                        self.env.call_data[idx + i]
                    } else {
                        0u8
                    };
                    buf.push(b);
                    i = i + 1;
                }
                let w = word_from_be(buf.as_slice());
                proof {
                    assert(buf@ =~= Seq::new(
                        32,
                        |i: int| padded_byte(self.env.call_data@, idx as nat, i),
                    ));
                }
                w
            },
            _ => Word::zero(),
        };
        self.push_word(r);
        proof {
            lemma_unop_shape(old(self).stack@, self.stack@, r);
        }
    }

    /// CALLDATASIZE: pushes the calldata length.
    pub fn calldatasize(&mut self)
        requires
            old(self).wf(),
            old(self).stack@.len() < 1024,
        ensures
            final (self).wf(),
            frame_stack_gas(*old(self), *final (self)),
            final (self).gas_used == spec_burn(old(self).gas_used, 2),
            final (self).stack@ == old(self).stack@.push(final (self).stack@.last()),
            final (self).stack@.last().val() == old(self).env.call_data@.len(),
    {
        self.burn_gas(2);
        let r = Word::from_u64(self.env.call_data.len() as u64);
        self.push_word(r);
    }

    /// CALLDATACOPY: pops destination, source offset and size and copies
    /// calldata into memory, zero padded past the end of the calldata.
    pub fn calldatacopy(&mut self)
        requires
            old(self).wf(),
            old(self).stack@.len() >= 3,
            copy_fits(old(self).stack@.last().val(), old(self).stack@[old(self).stack@.len() - 3].val()),
        ensures
            final (self).wf(),
            final (self).gas_used == spec_burn(old(self).gas_used, 3),
            stack_shape(old(self).stack@, final (self).stack@, 3, 0),
            copy_effect(
                *old(self),
                *final (self),
                old(self).stack@.last().val(),
                old(self).stack@[old(self).stack@.len() - 2].val(),
                old(self).stack@[old(self).stack@.len() - 3].val(),
                old(self).env.call_data@,
            ),
    {
        self.burn_gas(3);
        let dest = self.pop_word();
        let offset = self.pop_word();
        let size = self.pop_word();
        self.copy_to_memory(dest, offset, size, true);
        proof {
            assert(self.stack@.take(old(self).stack@.len() - 3) =~= old(self).stack@.take(
                old(self).stack@.len() - 3,
            ));
        }
    }

    /// CODESIZE: pushes the contract code's length.
    pub fn codesize(&mut self)
        requires
            old(self).wf(),
            old(self).stack@.len() < 1024,
        ensures
            final (self).wf(),
            frame_stack_gas(*old(self), *final (self)),
            final (self).gas_used == spec_burn(old(self).gas_used, 2),
            final (self).stack@ == old(self).stack@.push(final (self).stack@.last()),
            final (self).stack@.last().val() == old(self).code@.len(),
    {
        self.burn_gas(2);
        let r = Word::from_u64(self.code.len() as u64);
        self.push_word(r);
    }

    /// CODECOPY: pops destination, source offset and size and copies the
    /// contract code into memory, zero padded past its end.
    pub fn codecopy(&mut self)
        requires
            old(self).wf(),
            old(self).stack@.len() >= 3,
            copy_fits(old(self).stack@.last().val(), old(self).stack@[old(self).stack@.len() - 3].val()),
        ensures
            final (self).wf(),
            final (self).gas_used == spec_burn(old(self).gas_used, 3),
            stack_shape(old(self).stack@, final (self).stack@, 3, 0),
            copy_effect(
                *old(self),
                *final (self),
                old(self).stack@.last().val(),
                old(self).stack@[old(self).stack@.len() - 2].val(),
                old(self).stack@[old(self).stack@.len() - 3].val(),
                old(self).code@,
            ),
    {
        self.burn_gas(3);
        let dest = self.pop_word();
        let offset = self.pop_word();
        let size = self.pop_word();
        self.copy_to_memory(dest, offset, size, false);
        proof {
            assert(self.stack@.take(old(self).stack@.len() - 3) =~= old(self).stack@.take(
                old(self).stack@.len() - 3,
            ));
        }
    }

    /// GASPRICE: pushes the gas price.
    pub fn gasprice(&mut self)
        requires
            old(self).wf(),
            old(self).stack@.len() < 1024,
        ensures
            final (self).wf(),
            frame_stack_gas(*old(self), *final (self)),
            final (self).gas_used == spec_burn(old(self).gas_used, 2),
            final (self).stack@ == old(self).stack@.push(final (self).stack@.last()),
            final (self).stack@.last().val() == old(self).gas_price,
    {
        self.burn_gas(2);
        let r = Word::from_u64(self.gas_price);
        self.push_word(r);
    }

    /// EXTCODESIZE: pops an address; only the machine's own address has
    /// known code, every other reads zero.
    pub fn extcodesize(&mut self)
        requires
            old(self).wf(),
            old(self).stack@.len() >= 1,
        ensures
            final (self).wf(),
            frame_stack_gas(*old(self), *final (self)),
            final (self).gas_used == spec_burn(old(self).gas_used, 100),
            stack_shape(old(self).stack@, final (self).stack@, 1, 1),
            final (self).stack@.last().val() == (if Seq::new(
                20,
                |i: int| old(self).stack@.last().spec_byte(12 + i),
            ) == old(self).env.address@ {
                old(self).code@.len() as int
            } else {
                0int
            }),
    {
        self.burn_gas(100);
        let a = self.pop_word();
        let addr = word_to_address(&a);
        let r = if addr_eq(&addr, &self.env.address) {
            Word::from_u64(self.code.len() as u64)
        } else {
            Word::zero()
        };
        self.push_word(r);
        proof {
            assert(addr@ =~= Seq::new(20, |i: int| old(self).stack@.last().spec_byte(12 + i)));
            lemma_unop_shape(old(self).stack@, self.stack@, r);
        }
    }

    /// EXTCODECOPY: pops an address and the three copy arguments; only
    /// the machine's own address has code, every other copies zeros.
    pub fn extcodecopy(&mut self)
        requires
            old(self).wf(),
            old(self).stack@.len() >= 4,
            copy_fits(
                old(self).stack@[old(self).stack@.len() - 2].val(),
                old(self).stack@[old(self).stack@.len() - 4].val(),
            ),
        ensures
            final (self).wf(),
            final (self).gas_used == spec_burn(old(self).gas_used, 100),
            stack_shape(old(self).stack@, final (self).stack@, 4, 0),
            ({
                let src = if Seq::new(
                    20,
                    |i: int| old(self).stack@.last().spec_byte(12 + i),
                ) == old(self).env.address@ {
                    old(self).code@
                } else {
                    Seq::<u8>::empty()
                };
                copy_effect(
                    *old(self),
                    *final (self),
                    old(self).stack@[old(self).stack@.len() - 2].val(),
                    old(self).stack@[old(self).stack@.len() - 3].val(),
                    old(self).stack@[old(self).stack@.len() - 4].val(),
                    src,
                )
            }),
    {
        self.burn_gas(100);
        let a = self.pop_word();
        let dest = self.pop_word();
        let offset = self.pop_word();
        let size = self.pop_word();
        let addr = word_to_address(&a);
        proof {
            assert(addr@ =~= Seq::new(20, |i: int| old(self).stack@.last().spec_byte(12 + i)));
        }
        if addr_eq(&addr, &self.env.address) {
            self.copy_to_memory(dest, offset, size, false);
        } else {
            self.copy_zeros(dest, offset, size);
        }
        proof {
            assert(self.stack@.take(old(self).stack@.len() - 4) =~= old(self).stack@.take(
                old(self).stack@.len() - 4,
            ));
        }
    }

    /// RETURNDATASIZE: with no inner calls there is never return data,
    /// so the size is always zero.
    pub fn returndatasize(&mut self)
        requires
            old(self).wf(),
            old(self).stack@.len() < 1024,
        ensures
            final (self).wf(),
            frame_stack_gas(*old(self), *final (self)),
            final (self).gas_used == spec_burn(old(self).gas_used, 2),
            final (self).stack@ == old(self).stack@.push(final (self).stack@.last()),
            final (self).stack@.last().val() == 0,
    {
        self.burn_gas(2);
        let r = Word::zero();
        self.push_word(r);
    }

    /// RETURNDATACOPY: with no inner calls the source is empty, so the
    /// copy writes zeros.
    pub fn returndatacopy(&mut self)
        requires
            old(self).wf(),
            old(self).stack@.len() >= 3,
            copy_fits(old(self).stack@.last().val(), old(self).stack@[old(self).stack@.len() - 3].val()),
        ensures
            final (self).wf(),
            final (self).gas_used == spec_burn(old(self).gas_used, 3),
            stack_shape(old(self).stack@, final (self).stack@, 3, 0),
            copy_effect(
                *old(self),
                *final (self),
                old(self).stack@.last().val(),
                old(self).stack@[old(self).stack@.len() - 2].val(),
                old(self).stack@[old(self).stack@.len() - 3].val(),
                Seq::<u8>::empty(),
            ),
    {
        self.burn_gas(3);
        let dest = self.pop_word();
        let offset = self.pop_word();
        let size = self.pop_word();
        self.copy_zeros(dest, offset, size);
        proof {
            assert(self.stack@.take(old(self).stack@.len() - 3) =~= old(self).stack@.take(
                old(self).stack@.len() - 3,
            ));
        }
    }

    /// EXTCODEHASH: pops an address; the machine's own address hashes
    /// its code, every other reads zero.
    pub fn extcodehash(&mut self)
        requires
            old(self).wf(),
            old(self).stack@.len() >= 1,
        ensures
            final (self).wf(),
            frame_stack_gas(*old(self), *final (self)),
            final (self).gas_used == spec_burn(old(self).gas_used, 100),
            stack_shape(old(self).stack@, final (self).stack@, 1, 1),
            final (self).stack@.last().val() == (if Seq::new(
                20,
                |i: int| old(self).stack@.last().spec_byte(12 + i),
            ) == old(self).env.address@ {
                be_val(keccak_of(old(self).code@)) as int
            } else {
                0int
            }),
    {
        self.burn_gas(100);
        let a = self.pop_word();
        let addr = word_to_address(&a);
        let r = if addr_eq(&addr, &self.env.address) {
            let hash = keccak256(self.code.as_slice());
            word_from_be(hash.as_slice())
        } else {
            Word::zero()
        };
        self.push_word(r);
        proof {
            assert(addr@ =~= Seq::new(20, |i: int| old(self).stack@.last().spec_byte(12 + i)));
            lemma_unop_shape(old(self).stack@, self.stack@, r);
        }
    }
}

/// The machine limit a copy into memory must meet: when both words fit
/// the address space at all, the end of the written range does too.
pub open spec fn copy_fits(dest: nat, size: nat) -> bool {
    dest <= usize::MAX && size <= usize::MAX ==> dest + size <= usize::MAX - 31
}

/// What a copy of `size` bytes from `src` at `offset` into memory at
/// `dest` leaves behind: the written range holds the source bytes, zero
/// padded past the source's end; everything else in memory is kept (or
/// freshly zero where the memory grew), and the rest of the machine is
/// untouched but for an out-of-gas exit when the range cannot be
/// addressed. A zero-sized copy does nothing.
pub open spec fn copy_effect(
    pre: Evm,
    post: Evm,
    dest: nat,
    offset: nat,
    size: nat,
    src: Seq<u8>,
) -> bool {
    if size == 0 {
        post.memory@ == pre.memory@ && env_eq(post.env, pre.env) && frame_stack_gas_mem(pre, post)
    } else if size > usize::MAX || dest > usize::MAX {
        post.memory@ == pre.memory@ && post.env.exit_status == Some(ExitStatus::OutOfGas)
            && frame_stack_gas_env(pre, post) && env_eq_but_exit(post.env, pre.env)
    } else {
        &&& post.memory@.len() >= dest + size
        &&& forall|i: int| 0 <= i < size ==> post.memory@[dest + i] == padded_byte(src, offset, i)
        &&& forall|i: int|
            0 <= i < post.memory@.len() && !(dest <= i < dest + size) ==> post.memory@[i] == (if i
                < pre.memory@.len() {
                pre.memory@[i]
            } else {
                0u8
            })
        &&& env_eq(post.env, pre.env)
        &&& frame_stack_gas_mem(pre, post)
    }
}

/// Turns a word into a memory index when it fits the address space.
pub fn word_to_usize(w: &Word) -> (r: Option<usize>)
    ensures
        r is Some <==> w.val() <= usize::MAX,
        r is Some ==> r.unwrap() == w.val(),
{
    if w.hi != 0 {
        None
    } else if w.lo <= usize::MAX as u128 {
        Some(w.lo as usize)
    } else {
        None
    }
}


impl Evm {
    /// Copies bytes from the calldata or the code into memory, zero
    /// padding reads past the source's end; a range that cannot be
    /// addressed ends the execution out of gas.
    fn copy_to_memory(&mut self, dest: Word, offset: Word, size: Word, from_calldata: bool)
        requires
            old(self).wf(),
            copy_fits(dest.val(), size.val()),
        ensures
            final (self).wf(),
            final (self).stack@ == old(self).stack@,
            final (self).gas_used == old(self).gas_used,
            copy_effect(
                *old(self),
                *final (self),
                dest.val(),
                offset.val(),
                size.val(),
                if from_calldata {
                    old(self).env.call_data@
                } else {
                    old(self).code@
                },
            ),
    {
        if size.is_zero() {
            return ;
        }
        let size_u = match word_to_usize(&size) {
            Some(u) => u,
            None => {
                self.env.exit_status = Some(ExitStatus::OutOfGas);
                return ;
            },
        };
        let dest_u = match word_to_usize(&dest) {
            Some(u) => u,
            None => {
                self.env.exit_status = Some(ExitStatus::OutOfGas);
                return ;
            },
        };
        let off_sat: usize = match word_to_usize(&offset) {
            Some(u) => u,
            None => usize::MAX,
        };
        self.mem_resize(dest_u + size_u);
        let ghost mem1 = self.memory@;
        let ghost src = if from_calldata {
            self.env.call_data@
        } else {
            self.code@
        };
        let srclen0 = if from_calldata {
            self.env.call_data.len()
        } else {
            self.code.len()
        };
        proof {
            assert(src.len() == srclen0);
        }
        let mut i: usize = 0;
        while i < size_u
            invariant
                i <= size_u,
                dest_u + size_u <= usize::MAX,
                dest_u + size_u <= self.memory@.len(),
                self.memory@.len() == mem1.len(),
                offset.val() <= usize::MAX ==> off_sat == offset.val(),
                offset.val() > usize::MAX ==> off_sat == usize::MAX,
                src == if from_calldata {
                    self.env.call_data@
                } else {
                    self.code@
                },
                src.len() <= usize::MAX,
                forall|k: int|
                    0 <= k < i ==> self.memory@[dest_u + k] == padded_byte(src, offset.val(), k),
                forall|k: int|
                    0 <= k < self.memory@.len() && !(dest_u <= k < dest_u + i)
                        ==> self.memory@[k] == mem1[k],
                self.stack@ == old(self).stack@,
                self.gas_used == old(self).gas_used,
                frame_stack_gas_mem(*old(self), *self),
            decreases size_u - i,
        {
            let srclen = if from_calldata {
                self.env.call_data.len()
            } else {
                self.code.len()
            };
            let b: u8 = if i <= usize::MAX - off_sat && off_sat + i < srclen {
                if from_calldata {
                    self.env.call_data[off_sat + i]
                } else {
                    self.code[off_sat + i]
                }
            } else {
                0u8
            };
            proof {
                if offset.val() > usize::MAX {
                    assert(off_sat + i >= src.len());
                }
            }
            self.memory.set(dest_u + i, b);
            i = i + 1;
        }
        proof {
            assert forall|ii: int|
                0 <= ii < self.memory@.len() && !(dest_u <= ii < dest_u + size_u) implies self.memory@[ii]
                == (if ii < old(self).memory@.len() {
                old(self).memory@[ii]
            } else {
                0u8
            }) by {
                assert(self.memory@[ii] == mem1[ii]);
            }
            assert forall|ii: int| 0 <= ii < size_u implies self.memory@[dest.val() + ii]
                == padded_byte(src, offset.val(), ii) by {
                assert(self.memory@[dest_u + ii] == padded_byte(src, offset.val(), ii));
            }
        }
    }

    /// Writes `size` zero bytes into memory at `dest`: the copy whose
    /// source is empty.
    fn copy_zeros(&mut self, dest: Word, offset: Word, size: Word)
        requires
            old(self).wf(),
            copy_fits(dest.val(), size.val()),
        ensures
            final (self).wf(),
            final (self).stack@ == old(self).stack@,
            final (self).gas_used == old(self).gas_used,
            copy_effect(
                *old(self),
                *final (self),
                dest.val(),
                offset.val(),
                size.val(),
                Seq::<u8>::empty(),
            ),
    {
        if size.is_zero() {
            return ;
        }
        let size_u = match word_to_usize(&size) {
            Some(u) => u,
            None => {
                self.env.exit_status = Some(ExitStatus::OutOfGas);
                return ;
            },
        };
        let dest_u = match word_to_usize(&dest) {
            Some(u) => u,
            None => {
                self.env.exit_status = Some(ExitStatus::OutOfGas);
                return ;
            },
        };
        self.mem_resize(dest_u + size_u);
        let ghost mem1 = self.memory@;
        let mut i: usize = 0;
        while i < size_u
            invariant
                i <= size_u,
                dest_u + size_u <= usize::MAX,
                dest_u + size_u <= self.memory@.len(),
                self.memory@.len() == mem1.len(),
                forall|k: int| dest_u <= k < dest_u + i ==> self.memory@[k] == 0u8,
                forall|k: int|
                    0 <= k < self.memory@.len() && !(dest_u <= k < dest_u + i)
                        ==> self.memory@[k] == mem1[k],
                self.stack@ == old(self).stack@,
                self.gas_used == old(self).gas_used,
                frame_stack_gas_mem(*old(self), *self),
            decreases size_u - i,
        {
            self.memory.set(dest_u + i, 0u8);
            i = i + 1;
        }
        proof {
            assert forall|ii: int|
                0 <= ii < self.memory@.len() && !(dest_u <= ii < dest_u + size_u) implies self.memory@[ii]
                == (if ii < old(self).memory@.len() {
                old(self).memory@[ii]
            } else {
                0u8
            }) by {
                assert(self.memory@[ii] == mem1[ii]);
            }
            assert forall|ii: int| 0 <= ii < size_u implies self.memory@[dest.val() + ii]
                == padded_byte(Seq::<u8>::empty(), offset.val(), ii) by {
                assert(self.memory@[dest_u + ii] == 0u8);
            }
        }
    }
}


impl Evm {    /// BLOCKHASH: the host gives no history, so the hash reads zero. The block number argument is not consumed, as the runtime leaves it.
    pub fn blockhash(&mut self)
        requires
            old(self).wf(),
            old(self).stack@.len() < 1024,
        ensures
            final (self).wf(),
            frame_stack_gas(*old(self), *final (self)),
            final (self).gas_used == spec_burn(old(self).gas_used, 20),
            final (self).stack@ == old(self).stack@.push(final (self).stack@.last()),
            final (self).stack@.last().val() == 0,
    {
        self.burn_gas(20);
        let r = Word::zero();
        self.push_word(r);
    }
    /// COINBASE: the host exposes no coinbase, so it reads zero.
    pub fn coinbase(&mut self)
        requires
            old(self).wf(),
            old(self).stack@.len() < 1024,
        ensures
            final (self).wf(),
            frame_stack_gas(*old(self), *final (self)),
            final (self).gas_used == spec_burn(old(self).gas_used, 2),
            final (self).stack@ == old(self).stack@.push(final (self).stack@.last()),
            final (self).stack@.last().val() == 0,
    {
        self.burn_gas(2);
        let r = Word::zero();
        self.push_word(r);
    }
    /// TIMESTAMP: pushes the block timestamp.
    pub fn timestamp(&mut self)
        requires
            old(self).wf(),
            old(self).stack@.len() < 1024,
        ensures
            final (self).wf(),
            frame_stack_gas(*old(self), *final (self)),
            final (self).gas_used == spec_burn(old(self).gas_used, 2),
            final (self).stack@ == old(self).stack@.push(final (self).stack@.last()),
            final (self).stack@.last().val() == old(self).env.timestamp,
    {
        self.burn_gas(2);
        let r = Word::from_u64(self.env.timestamp);
        self.push_word(r);
    }
    /// NUMBER: pushes the block height.
    pub fn number(&mut self)
        requires
            old(self).wf(),
            old(self).stack@.len() < 1024,
        ensures
            final (self).wf(),
            frame_stack_gas(*old(self), *final (self)),
            final (self).gas_used == spec_burn(old(self).gas_used, 2),
            final (self).stack@ == old(self).stack@.push(final (self).stack@.last()),
            final (self).stack@.last().val() == old(self).env.block_height,
    {
        self.burn_gas(2);
        let r = Word::from_u64(self.env.block_height);
        self.push_word(r);
    }
    /// DIFFICULTY: the host exposes no difficulty, so it reads zero.
    pub fn difficulty(&mut self)
        requires
            old(self).wf(),
            old(self).stack@.len() < 1024,
        ensures
            final (self).wf(),
            frame_stack_gas(*old(self), *final (self)),
            final (self).gas_used == spec_burn(old(self).gas_used, 2),
            final (self).stack@ == old(self).stack@.push(final (self).stack@.last()),
            final (self).stack@.last().val() == 0,
    {
        self.burn_gas(2);
        let r = Word::zero();
        self.push_word(r);
    }
    /// GASLIMIT: pushes the gas limit.
    pub fn gaslimit(&mut self)
        requires
            old(self).wf(),
            old(self).stack@.len() < 1024,
        ensures
            final (self).wf(),
            frame_stack_gas(*old(self), *final (self)),
            final (self).gas_used == spec_burn(old(self).gas_used, 2),
            final (self).stack@ == old(self).stack@.push(final (self).stack@.last()),
            final (self).stack@.last().val() == old(self).gas_limit,
    {
        self.burn_gas(2);
        let r = Word::from_u64(self.gas_limit);
        self.push_word(r);
    }
    /// CHAINID: pushes the chain id.
    pub fn chainid(&mut self)
        requires
            old(self).wf(),
            old(self).stack@.len() < 1024,
        ensures
            final (self).wf(),
            frame_stack_gas(*old(self), *final (self)),
            final (self).gas_used == spec_burn(old(self).gas_used, 2),
            final (self).stack@ == old(self).stack@.push(final (self).stack@.last()),
            final (self).stack@.last() == old(self).chain_id,
    {
        self.burn_gas(2);
        let r = self.chain_id;
        self.push_word(r);
    }
    /// SELFBALANCE: pushes the contract's own balance.
    pub fn selfbalance(&mut self)
        requires
            old(self).wf(),
            old(self).stack@.len() < 1024,
        ensures
            final (self).wf(),
            frame_stack_gas(*old(self), *final (self)),
            final (self).gas_used == spec_burn(old(self).gas_used, 5),
            final (self).stack@ == old(self).stack@.push(final (self).stack@.last()),
            final (self).stack@.last() == old(self).self_balance,
    {
        self.burn_gas(5);
        let r = self.self_balance;
        self.push_word(r);
    }
    /// BASEFEE: the host exposes no base fee, so it reads zero.
    pub fn basefee(&mut self)
        requires
            old(self).wf(),
            old(self).stack@.len() < 1024,
        ensures
            final (self).wf(),
            frame_stack_gas(*old(self), *final (self)),
            final (self).gas_used == spec_burn(old(self).gas_used, 2),
            final (self).stack@ == old(self).stack@.push(final (self).stack@.last()),
            final (self).stack@.last().val() == 0,
    {
        self.burn_gas(2);
        let r = Word::zero();
        self.push_word(r);
    }
    /// MSIZE: pushes the size of the memory, which always holds whole 32-byte words.
    pub fn msize(&mut self)
        requires
            old(self).wf(),
            old(self).stack@.len() < 1024,
        ensures
            final (self).wf(),
            frame_stack_gas(*old(self), *final (self)),
            final (self).gas_used == spec_burn(old(self).gas_used, 2),
            final (self).stack@ == old(self).stack@.push(final (self).stack@.last()),
            final (self).stack@.last().val() == old(self).memory@.len(),
    {
        self.burn_gas(2);
        let r = Word::from_u64(self.memory.len() as u64);
        self.push_word(r);
    }
    /// POP: discards the top word.
    pub fn pop(&mut self)
        requires
            old(self).wf(),
            old(self).stack@.len() >= 1,
        ensures
            final (self).wf(),
            frame_stack_gas(*old(self), *final (self)),
            final (self).gas_used == spec_burn(old(self).gas_used, 2),
            final (self).stack@ == old(self).stack@.drop_last(),
    {
        self.burn_gas(2);
        let _tos = self.pop_word();
    }

    /// MLOAD: pops an offset and pushes the 32 memory bytes there, read
    /// big-endian; the memory grows to cover the read.
    pub fn mload(&mut self)
        requires
            old(self).wf(),
            old(self).stack@.len() >= 1,
            old(self).stack@.last().val() + 32 <= usize::MAX - 31,
        ensures
            final (self).wf(),
            frame_stack_gas_mem(*old(self), *final (self)),
            final (self).gas_used == spec_burn(old(self).gas_used, 3),
            stack_shape(old(self).stack@, final (self).stack@, 1, 1),
            ({
                let off = old(self).stack@.last().val() as int;
                &&& final (self).stack@.last().val() == be_val(
                    final (self).memory@.subrange(off, off + 32),
                )
                &&& final (self).memory@.len() >= off + 32
                &&& forall|i: int|
                    0 <= i < old(self).memory@.len() ==> final (self).memory@[i] == old(
                        self,
                    ).memory@[i]
                &&& forall|i: int|
                    old(self).memory@.len() <= i < final (self).memory@.len() ==> final (
                    self).memory@[i] == 0
            }),
    {
        self.burn_gas(3);
        let offset = self.pop_word();
        let off = match word_to_usize(&offset) {
            Some(u) => u,
            None => 0,
        };
        let slice = self.mem_slice(off, 32);
        let r = word_from_be(slice.as_slice());
        proof {
            assert(slice@ =~= self.memory@.subrange(off as int, off as int + 32));
        }
        self.push_word(r);
        proof {
            lemma_unop_shape(old(self).stack@, self.stack@, r);
        }
    }

    /// MSTORE: pops an offset and a value and writes the value's 32
    /// bytes there, big-endian; the memory grows to cover the write.
    pub fn mstore(&mut self)
        requires
            old(self).wf(),
            old(self).stack@.len() >= 2,
            old(self).stack@.last().val() + 32 <= usize::MAX - 31,
        ensures
            final (self).wf(),
            frame_stack_gas_mem(*old(self), *final (self)),
            final (self).gas_used == spec_burn(old(self).gas_used, 3),
            stack_shape(old(self).stack@, final (self).stack@, 2, 0),
            ({
                let off = old(self).stack@.last().val() as int;
                let value = old(self).stack@[old(self).stack@.len() - 2];
                &&& final (self).memory@.len() >= off + 32
                &&& forall|i: int| 0 <= i < 32 ==> final (self).memory@[off + i] == value.spec_byte(i)
                &&& forall|i: int|
                    0 <= i < final (self).memory@.len() && !(off <= i < off + 32) ==> final (
                    self).memory@[i] == (if i < old(self).memory@.len() {
                        old(self).memory@[i]
                    } else {
                        0u8
                    })
            }),
    {
        self.burn_gas(3);
        let offset = self.pop_word();
        let value = self.pop_word();
        let off = match word_to_usize(&offset) {
            Some(u) => u,
            None => 0,
        };
        self.mem_resize(off + 32);
        let ghost mem1 = self.memory@;
        let mut i: usize = 0;
        while i < 32
            invariant
                i <= 32,
                off + 32 <= self.memory@.len(),
                off + 32 <= usize::MAX,
                self.memory@.len() == mem1.len(),
                forall|k: int| off <= k < off + i ==> self.memory@[k] == value.spec_byte(k - off),
                forall|k: int|
                    0 <= k < self.memory@.len() && !(off <= k < off + i) ==> self.memory@[k]
                        == mem1[k],
                self.stack@ == old(self).stack@.drop_last().drop_last(),
                self.gas_used == spec_burn(old(self).gas_used, 3),
                frame_stack_gas_mem(*old(self), *self),
            decreases 32 - i,
        {
            let b = value.byte(i);
            self.memory.set(off + i, b);
            i = i + 1;
        }
        proof {
            assert(self.stack@.take(old(self).stack@.len() - 2) =~= old(self).stack@.take(
                old(self).stack@.len() - 2,
            ));
            assert forall|ii: int|
                0 <= ii < self.memory@.len() && !(off <= ii < off + 32) implies self.memory@[ii]
                == (if ii < old(self).memory@.len() {
                old(self).memory@[ii]
            } else {
                0u8
            }) by {
                assert(self.memory@[ii] == mem1[ii]);
            }
        }
    }

    /// MSTORE8: pops an offset and a value and writes the value's lowest
    /// byte there; the memory grows to cover the write.
    pub fn mstore8(&mut self)
        requires
            old(self).wf(),
            old(self).stack@.len() >= 2,
            old(self).stack@.last().val() <= usize::MAX - 32,
        ensures
            final (self).wf(),
            frame_stack_gas_mem(*old(self), *final (self)),
            final (self).gas_used == spec_burn(old(self).gas_used, 3),
            stack_shape(old(self).stack@, final (self).stack@, 2, 0),
            ({
                let off = old(self).stack@.last().val() as int;
                let value = old(self).stack@[old(self).stack@.len() - 2];
                &&& final (self).memory@.len() >= off + 1
                &&& final (self).memory@[off] == value.val() % 256
                &&& forall|i: int|
                    0 <= i < final (self).memory@.len() && i != off ==> final (self).memory@[i]
                        == (if i < old(self).memory@.len() {
                        old(self).memory@[i]
                    } else {
                        0u8
                    })
            }),
    {
        self.burn_gas(3);
        let offset = self.pop_word();
        let value = self.pop_word();
        let off = match word_to_usize(&offset) {
            Some(u) => u,
            None => 0,
        };
        let b = (value.lo & 0xff) as u8;
        proof {
            lemma_word_low_byte(value);
            assert(self.stack@.take(old(self).stack@.len() - 2) =~= old(self).stack@.take(
                old(self).stack@.len() - 2,
            ));
        }
        self.mem_store_byte(off, b);
    }

    /// SLOAD: pops a key and pushes the stored value, zero for a slot
    /// never written.
    pub fn sload(&mut self)
        requires
            old(self).wf(),
            old(self).stack@.len() >= 1,
        ensures
            final (self).wf(),
            frame_stack_gas(*old(self), *final (self)),
            final (self).gas_used == spec_burn(old(self).gas_used, 100),
            stack_shape(old(self).stack@, final (self).stack@, 1, 1),
            final (self).stack@.last() == match storage_lookup(
                old(self).env.storage@,
                old(self).stack@.last(),
            ) {
                Some(v) => v,
                None => Word { hi: 0, lo: 0 },
            },
    {
        self.burn_gas(100);
        let key = self.pop_word();
        let v = self.storage_read(&key);
        self.push_word(v);
        proof {
            lemma_unop_shape(old(self).stack@, self.stack@, v);
        }
    }

    /// SSTORE: pops a key and a value and writes the storage slot; the
    /// slot then reads the value and every other slot is untouched.
    pub fn sstore(&mut self)
        requires
            old(self).wf(),
            old(self).stack@.len() >= 2,
        ensures
            final (self).wf(),
            final (self).gas_used == spec_burn(old(self).gas_used, 100),
            stack_shape(old(self).stack@, final (self).stack@, 2, 0),
            final (self).memory@ == old(self).memory@,
            frame_storage_only(*old(self), *final (self)),
            storage_lookup(final (self).env.storage@, old(self).stack@.last()) == Some(
                old(self).stack@[old(self).stack@.len() - 2],
            ),
            forall|k2: Word|
                k2 != old(self).stack@.last() ==> storage_lookup(final (self).env.storage@, k2)
                    == storage_lookup(old(self).env.storage@, k2),
    {
        self.burn_gas(100);
        let key = self.pop_word();
        let value = self.pop_word();
        self.storage_write(key, value);
        proof {
            assert(self.stack@.take(old(self).stack@.len() - 2) =~= old(self).stack@.take(
                old(self).stack@.len() - 2,
            ));
        }
    }

    /// JUMP: only the gas is charged here; the branch itself is
    /// synthesized by the compiler's dispatch loop.
    pub fn jump(&mut self)
        requires
            old(self).wf(),
        ensures
            final (self).wf(),
            frame_stack_gas(*old(self), *final (self)),
            final (self).stack@ == old(self).stack@,
            final (self).gas_used == spec_burn(old(self).gas_used, 8),
    {
        self.burn_gas(8);
    }

    /// PC: pushes the maintained program counter.
    pub fn pc(&mut self)
        requires
            old(self).wf(),
            old(self).stack@.len() < 1024,
        ensures
            final (self).wf(),
            frame_stack_gas(*old(self), *final (self)),
            final (self).gas_used == spec_burn(old(self).gas_used, 2),
            final (self).stack@ == old(self).stack@.push(final (self).stack@.last()),
            final (self).stack@.last().val() == old(self).program_counter,
    {
        self.burn_gas(2);
        let r = Word::from_u64(self.program_counter as u64);
        self.push_word(r);
    }

    /// GAS: pushes the gas still available after charging for this
    /// opcode.
    pub fn gas(&mut self)
        requires
            old(self).wf(),
            old(self).stack@.len() < 1024,
            old(self).gas_used + 2 <= old(self).gas_limit,
        ensures
            final (self).wf(),
            frame_stack_gas(*old(self), *final (self)),
            final (self).gas_used == spec_burn(old(self).gas_used, 2),
            final (self).stack@ == old(self).stack@.push(final (self).stack@.last()),
            final (self).stack@.last().val() == old(self).gas_limit - (old(self).gas_used + 2),
    {
        self.burn_gas(2);
        let r = Word::from_u64(self.gas_limit - self.gas_used);
        self.push_word(r);
    }

    /// JUMPDEST: a landing marker; the machine does nothing.
    pub fn jumpdest(&mut self)
        ensures
            *final (self) == *old(self),
    {
    }

    /// RETURN: pops offset and size and ends the execution successfully
    /// with that memory range as the return data.
    pub fn ret(&mut self)
        requires
            old(self).wf(),
            old(self).stack@.len() >= 2,
            old(self).stack@.last().val() + old(self).stack@[old(self).stack@.len() - 2].val()
                <= usize::MAX - 31,
        ensures
            final (self).wf(),
            frame_core(*old(self), *final (self)),
            final (self).gas_used == old(self).gas_used,
            stack_shape(old(self).stack@, final (self).stack@, 2, 0),
            forall|i: int|
                0 <= i < old(self).memory@.len() ==> final (self).memory@[i] == old(
                    self,
                ).memory@[i],
            forall|i: int|
                old(self).memory@.len() <= i < final (self).memory@.len() ==> final (
                self).memory@[i] == 0,
            final (self).env.exit_status == Some(ExitStatus::Success),
            final (self).env.storage@ == old(self).env.storage@,
            final (self).env.logs@ == old(self).env.logs@,
            final (self).env.call_data@ == old(self).env.call_data@,
            ({
                let off = old(self).stack@.last().val() as int;
                let size = old(self).stack@[old(self).stack@.len() - 2].val() as int;
                &&& final (self).env.return_data@.len() == size
                &&& forall|i: int|
                    0 <= i < size ==> final (self).env.return_data@[i] == final (
                    self).memory@[off + i]
            }),
    {
        self.burn_gas(0);
        let offset = self.pop_word();
        let size = self.pop_word();
        let off = match word_to_usize(&offset) {
            Some(u) => u,
            None => 0,
        };
        let sz = match word_to_usize(&size) {
            Some(u) => u,
            None => 0,
        };
        let data = self.mem_slice(off, sz);
        self.env.return_data = data;
        self.env.exit_status = Some(ExitStatus::Success);
        proof {
            assert(self.stack@.take(old(self).stack@.len() - 2) =~= old(self).stack@.take(
                old(self).stack@.len() - 2,
            ));
        }
    }

    /// REVERT: pops offset and size and ends the execution reverted with
    /// that memory range as the revert payload.
    pub fn revert(&mut self)
        requires
            old(self).wf(),
            old(self).stack@.len() >= 2,
            old(self).stack@.last().val() + old(self).stack@[old(self).stack@.len() - 2].val()
                <= usize::MAX - 31,
        ensures
            final (self).wf(),
            frame_core(*old(self), *final (self)),
            final (self).gas_used == old(self).gas_used,
            stack_shape(old(self).stack@, final (self).stack@, 2, 0),
            forall|i: int|
                0 <= i < old(self).memory@.len() ==> final (self).memory@[i] == old(
                    self,
                ).memory@[i],
            forall|i: int|
                old(self).memory@.len() <= i < final (self).memory@.len() ==> final (
                self).memory@[i] == 0,
            final (self).env.exit_status == Some(ExitStatus::Revert),
            final (self).env.storage@ == old(self).env.storage@,
            final (self).env.logs@ == old(self).env.logs@,
            final (self).env.call_data@ == old(self).env.call_data@,
            ({
                let off = old(self).stack@.last().val() as int;
                let size = old(self).stack@[old(self).stack@.len() - 2].val() as int;
                &&& final (self).env.return_data@.len() == size
                &&& forall|i: int|
                    0 <= i < size ==> final (self).env.return_data@[i] == final (
                    self).memory@[off + i]
            }),
    {
        self.burn_gas(0);
        let offset = self.pop_word();
        let size = self.pop_word();
        let off = match word_to_usize(&offset) {
            Some(u) => u,
            None => 0,
        };
        let sz = match word_to_usize(&size) {
            Some(u) => u,
            None => 0,
        };
        let data = self.mem_slice(off, sz);
        self.env.return_data = data;
        self.env.exit_status = Some(ExitStatus::Revert);
        proof {
            assert(self.stack@.take(old(self).stack@.len() - 2) =~= old(self).stack@.take(
                old(self).stack@.len() - 2,
            ));
        }
    }

    /// INVALID: burns all remaining gas and reverts with empty data.
    pub fn invalid(&mut self)
        requires
            old(self).wf(),
        ensures
            final (self).wf(),
            frame_stack_gas_env(*old(self), *final (self)),
            final (self).stack@ == old(self).stack@,
            final (self).gas_used == spec_burn(old(self).gas_used, old(self).gas_limit),
            final (self).env.exit_status == Some(ExitStatus::Revert),
            final (self).env.return_data@.len() == 0,
            final (self).env.storage@ == old(self).env.storage@,
            final (self).env.logs@ == old(self).env.logs@,
            final (self).env.call_data@ == old(self).env.call_data@,
    {
        let limit = self.gas_limit;
        self.burn_gas(limit);
        self.env.return_data = Vec::new();
        self.env.exit_status = Some(ExitStatus::Revert);
    }
}

/// A word's lowest byte, by mask or by remainder.
proof fn lemma_word_low_byte(w: Word)
    ensures
        (w.lo & 0xff) as nat == w.val() % 256,
{
    let l = w.lo;
    assert(l & 0xff == l % 256) by (bit_vector);
    assert(w.val() % 256 == w.lo as nat % 256) by (nonlinear_arith)
        requires
            w.val() == w.hi as nat * 340282366920938463463374607431768211456 + w.lo as nat,
    ;
}


impl Evm {    /// PUSH1: pushes an immediate of up to 1 bytes.
    pub fn push1(&mut self, word: u8)
        requires
            old(self).wf(),
            old(self).stack@.len() < 1024,
        ensures
            final (self).wf(),
            frame_stack_gas(*old(self), *final (self)),
            final (self).gas_used == spec_burn(old(self).gas_used, 3),
            final (self).stack@ == old(self).stack@.push(final (self).stack@.last()),
            final (self).stack@.last().val() == word,
    {
        self.burn_gas(3);
        let r = Word::from_u64(word as u64);
        self.push_word(r);
    }
    /// PUSH2: pushes an immediate of up to 2 bytes.
    pub fn push2(&mut self, word: u16)
        requires
            old(self).wf(),
            old(self).stack@.len() < 1024,
        ensures
            final (self).wf(),
            frame_stack_gas(*old(self), *final (self)),
            final (self).gas_used == spec_burn(old(self).gas_used, 3),
            final (self).stack@ == old(self).stack@.push(final (self).stack@.last()),
            final (self).stack@.last().val() == word,
    {
        self.burn_gas(3);
        let r = Word::from_u64(word as u64);
        self.push_word(r);
    }
    /// PUSH4: pushes an immediate of up to 4 bytes.
    pub fn push4(&mut self, word: u32)
        requires
            old(self).wf(),
            old(self).stack@.len() < 1024,
        ensures
            final (self).wf(),
            frame_stack_gas(*old(self), *final (self)),
            final (self).gas_used == spec_burn(old(self).gas_used, 3),
            final (self).stack@ == old(self).stack@.push(final (self).stack@.last()),
            final (self).stack@.last().val() == word,
    {
        self.burn_gas(3);
        let r = Word::from_u64(word as u64);
        self.push_word(r);
    }
    /// PUSH8: pushes an immediate of up to 8 bytes.
    pub fn push8(&mut self, word: u64)
        requires
            old(self).wf(),
            old(self).stack@.len() < 1024,
        ensures
            final (self).wf(),
            frame_stack_gas(*old(self), *final (self)),
            final (self).gas_used == spec_burn(old(self).gas_used, 3),
            final (self).stack@ == old(self).stack@.push(final (self).stack@.last()),
            final (self).stack@.last().val() == word,
    {
        self.burn_gas(3);
        let r = Word::from_u64(word as u64);
        self.push_word(r);
    }
    /// PUSH3: pushes an immediate of up to 3 bytes; the argument
    /// models a 24-bit value.
    pub fn push3(&mut self, word: u32)
        requires
            old(self).wf(),
            old(self).stack@.len() < 1024,
            word < (1u64 << 24),
        ensures
            final (self).wf(),
            frame_stack_gas(*old(self), *final (self)),
            final (self).gas_used == spec_burn(old(self).gas_used, 3),
            final (self).stack@ == old(self).stack@.push(final (self).stack@.last()),
            final (self).stack@.last().val() == word,
    {
        self.burn_gas(3);
        let r = Word::from_u64(word as u64);
        self.push_word(r);
    }
    /// PUSH5: pushes an immediate of up to 5 bytes; the argument
    /// models a 40-bit value.
    pub fn push5(&mut self, word: u64)
        requires
            old(self).wf(),
            old(self).stack@.len() < 1024,
            word < (1u64 << 40),
        ensures
            final (self).wf(),
            frame_stack_gas(*old(self), *final (self)),
            final (self).gas_used == spec_burn(old(self).gas_used, 3),
            final (self).stack@ == old(self).stack@.push(final (self).stack@.last()),
            final (self).stack@.last().val() == word,
    {
        self.burn_gas(3);
        let r = Word::from_u64(word as u64);
        self.push_word(r);
    }
    /// PUSH6: pushes an immediate of up to 6 bytes; the argument
    /// models a 48-bit value.
    pub fn push6(&mut self, word: u64)
        requires
            old(self).wf(),
            old(self).stack@.len() < 1024,
            word < (1u64 << 48),
        ensures
            final (self).wf(),
            frame_stack_gas(*old(self), *final (self)),
            final (self).gas_used == spec_burn(old(self).gas_used, 3),
            final (self).stack@ == old(self).stack@.push(final (self).stack@.last()),
            final (self).stack@.last().val() == word,
    {
        self.burn_gas(3);
        let r = Word::from_u64(word as u64);
        self.push_word(r);
    }
    /// PUSH7: pushes an immediate of up to 7 bytes; the argument
    /// models a 56-bit value.
    pub fn push7(&mut self, word: u64)
        requires
            old(self).wf(),
            old(self).stack@.len() < 1024,
            word < (1u64 << 56),
        ensures
            final (self).wf(),
            frame_stack_gas(*old(self), *final (self)),
            final (self).gas_used == spec_burn(old(self).gas_used, 3),
            final (self).stack@ == old(self).stack@.push(final (self).stack@.last()),
            final (self).stack@.last().val() == word,
    {
        self.burn_gas(3);
        let r = Word::from_u64(word as u64);
        self.push_word(r);
    }
    /// PUSH9: pushes an immediate of up to 9 bytes.
    pub fn push9(&mut self, word: u128)
        requires
            old(self).wf(),
            old(self).stack@.len() < 1024,
            word < (1u128 << 72),
        ensures
            final (self).wf(),
            frame_stack_gas(*old(self), *final (self)),
            final (self).gas_used == spec_burn(old(self).gas_used, 3),
            final (self).stack@ == old(self).stack@.push(final (self).stack@.last()),
            final (self).stack@.last().val() == word,
    {
        self.burn_gas(3);
        let r = Word::from_u128(word);
        self.push_word(r);
    }
    /// PUSH10: pushes an immediate of up to 10 bytes.
    pub fn push10(&mut self, word: u128)
        requires
            old(self).wf(),
            old(self).stack@.len() < 1024,
            word < (1u128 << 80),
        ensures
            final (self).wf(),
            frame_stack_gas(*old(self), *final (self)),
            final (self).gas_used == spec_burn(old(self).gas_used, 3),
            final (self).stack@ == old(self).stack@.push(final (self).stack@.last()),
            final (self).stack@.last().val() == word,
    {
        self.burn_gas(3);
        let r = Word::from_u128(word);
        self.push_word(r);
    }
    /// PUSH11: pushes an immediate of up to 11 bytes.
    pub fn push11(&mut self, word: u128)
        requires
            old(self).wf(),
            old(self).stack@.len() < 1024,
            word < (1u128 << 88),
        ensures
            final (self).wf(),
            frame_stack_gas(*old(self), *final (self)),
            final (self).gas_used == spec_burn(old(self).gas_used, 3),
            final (self).stack@ == old(self).stack@.push(final (self).stack@.last()),
            final (self).stack@.last().val() == word,
    {
        self.burn_gas(3);
        let r = Word::from_u128(word);
        self.push_word(r);
    }
    /// PUSH12: pushes an immediate of up to 12 bytes.
    pub fn push12(&mut self, word: u128)
        requires
            old(self).wf(),
            old(self).stack@.len() < 1024,
            word < (1u128 << 96),
        ensures
            final (self).wf(),
            frame_stack_gas(*old(self), *final (self)),
            final (self).gas_used == spec_burn(old(self).gas_used, 3),
            final (self).stack@ == old(self).stack@.push(final (self).stack@.last()),
            final (self).stack@.last().val() == word,
    {
        self.burn_gas(3);
        let r = Word::from_u128(word);
        self.push_word(r);
    }
    /// PUSH13: pushes an immediate of up to 13 bytes.
    pub fn push13(&mut self, word: u128)
        requires
            old(self).wf(),
            old(self).stack@.len() < 1024,
            word < (1u128 << 104),
        ensures
            final (self).wf(),
            frame_stack_gas(*old(self), *final (self)),
            final (self).gas_used == spec_burn(old(self).gas_used, 3),
            final (self).stack@ == old(self).stack@.push(final (self).stack@.last()),
            final (self).stack@.last().val() == word,
    {
        self.burn_gas(3);
        let r = Word::from_u128(word);
        self.push_word(r);
    }
    /// PUSH14: pushes an immediate of up to 14 bytes.
    pub fn push14(&mut self, word: u128)
        requires
            old(self).wf(),
            old(self).stack@.len() < 1024,
            word < (1u128 << 112),
        ensures
            final (self).wf(),
            frame_stack_gas(*old(self), *final (self)),
            final (self).gas_used == spec_burn(old(self).gas_used, 3),
            final (self).stack@ == old(self).stack@.push(final (self).stack@.last()),
            final (self).stack@.last().val() == word,
    {
        self.burn_gas(3);
        let r = Word::from_u128(word);
        self.push_word(r);
    }
    /// PUSH15: pushes an immediate of up to 15 bytes.
    pub fn push15(&mut self, word: u128)
        requires
            old(self).wf(),
            old(self).stack@.len() < 1024,
            word < (1u128 << 120),
        ensures
            final (self).wf(),
            frame_stack_gas(*old(self), *final (self)),
            final (self).gas_used == spec_burn(old(self).gas_used, 3),
            final (self).stack@ == old(self).stack@.push(final (self).stack@.last()),
            final (self).stack@.last().val() == word,
    {
        self.burn_gas(3);
        let r = Word::from_u128(word);
        self.push_word(r);
    }
    /// PUSH16: pushes an immediate of up to 16 bytes.
    pub fn push16(&mut self, word: u128)
        requires
            old(self).wf(),
            old(self).stack@.len() < 1024,
        ensures
            final (self).wf(),
            frame_stack_gas(*old(self), *final (self)),
            final (self).gas_used == spec_burn(old(self).gas_used, 3),
            final (self).stack@ == old(self).stack@.push(final (self).stack@.last()),
            final (self).stack@.last().val() == word,
    {
        self.burn_gas(3);
        let r = Word::from_u128(word);
        self.push_word(r);
    }
    /// PUSH17: pushes an immediate given as little-endian 64-bit
    /// chunks, the lowest first.
    pub fn push17(&mut self, word_0: u64, word_1: u64, word_2: u32)
        requires
            old(self).wf(),
            old(self).stack@.len() < 1024,
            word_2 < (1u32 << 8),
        ensures
            final (self).wf(),
            frame_stack_gas(*old(self), *final (self)),
            final (self).gas_used == spec_burn(old(self).gas_used, 3),
            final (self).stack@ == old(self).stack@.push(final (self).stack@.last()),
            final (self).stack@.last().val() == word_0 + word_1 * 0x1_0000_0000_0000_0000
                + (word_2 as nat) * 340282366920938463463374607431768211456,
    {
        self.burn_gas(3);
        let lo: u128 = (word_0 as u128) | ((word_1 as u128) << 64);
        let hi: u128 = word_2 as u128;
        proof {
            lemma_le_chunks(word_0, word_1);
        }
        let r = Word { hi, lo };
        self.push_word(r);
    }
    /// PUSH18: pushes an immediate given as little-endian 64-bit
    /// chunks, the lowest first.
    pub fn push18(&mut self, word_0: u64, word_1: u64, word_2: u32)
        requires
            old(self).wf(),
            old(self).stack@.len() < 1024,
            word_2 < (1u32 << 16),
        ensures
            final (self).wf(),
            frame_stack_gas(*old(self), *final (self)),
            final (self).gas_used == spec_burn(old(self).gas_used, 3),
            final (self).stack@ == old(self).stack@.push(final (self).stack@.last()),
            final (self).stack@.last().val() == word_0 + word_1 * 0x1_0000_0000_0000_0000
                + (word_2 as nat) * 340282366920938463463374607431768211456,
    {
        self.burn_gas(3);
        let lo: u128 = (word_0 as u128) | ((word_1 as u128) << 64);
        let hi: u128 = word_2 as u128;
        proof {
            lemma_le_chunks(word_0, word_1);
        }
        let r = Word { hi, lo };
        self.push_word(r);
    }
    /// PUSH19: pushes an immediate given as little-endian 64-bit
    /// chunks, the lowest first.
    pub fn push19(&mut self, word_0: u64, word_1: u64, word_2: u32)
        requires
            old(self).wf(),
            old(self).stack@.len() < 1024,
            word_2 < (1u32 << 24),
        ensures
            final (self).wf(),
            frame_stack_gas(*old(self), *final (self)),
            final (self).gas_used == spec_burn(old(self).gas_used, 3),
            final (self).stack@ == old(self).stack@.push(final (self).stack@.last()),
            final (self).stack@.last().val() == word_0 + word_1 * 0x1_0000_0000_0000_0000
                + (word_2 as nat) * 340282366920938463463374607431768211456,
    {
        self.burn_gas(3);
        let lo: u128 = (word_0 as u128) | ((word_1 as u128) << 64);
        let hi: u128 = word_2 as u128;
        proof {
            lemma_le_chunks(word_0, word_1);
        }
        let r = Word { hi, lo };
        self.push_word(r);
    }
    /// PUSH20: pushes an immediate given as little-endian 64-bit
    /// chunks, the lowest first.
    pub fn push20(&mut self, word_0: u64, word_1: u64, word_2: u32)
        requires
            old(self).wf(),
            old(self).stack@.len() < 1024,
        ensures
            final (self).wf(),
            frame_stack_gas(*old(self), *final (self)),
            final (self).gas_used == spec_burn(old(self).gas_used, 3),
            final (self).stack@ == old(self).stack@.push(final (self).stack@.last()),
            final (self).stack@.last().val() == word_0 + word_1 * 0x1_0000_0000_0000_0000
                + (word_2 as nat) * 340282366920938463463374607431768211456,
    {
        self.burn_gas(3);
        let lo: u128 = (word_0 as u128) | ((word_1 as u128) << 64);
        let hi: u128 = word_2 as u128;
        proof {
            lemma_le_chunks(word_0, word_1);
        }
        let r = Word { hi, lo };
        self.push_word(r);
    }
    /// PUSH21: pushes an immediate given as little-endian 64-bit
    /// chunks, the lowest first.
    pub fn push21(&mut self, word_0: u64, word_1: u64, word_2: u64)
        requires
            old(self).wf(),
            old(self).stack@.len() < 1024,
            word_2 < (1u64 << 40),
        ensures
            final (self).wf(),
            frame_stack_gas(*old(self), *final (self)),
            final (self).gas_used == spec_burn(old(self).gas_used, 3),
            final (self).stack@ == old(self).stack@.push(final (self).stack@.last()),
            final (self).stack@.last().val() == word_0 + word_1 * 0x1_0000_0000_0000_0000
                + (word_2 as nat) * 340282366920938463463374607431768211456,
    {
        self.burn_gas(3);
        let lo: u128 = (word_0 as u128) | ((word_1 as u128) << 64);
        let hi: u128 = word_2 as u128;
        proof {
            lemma_le_chunks(word_0, word_1);
        }
        let r = Word { hi, lo };
        self.push_word(r);
    }
    /// PUSH22: pushes an immediate given as little-endian 64-bit
    /// chunks, the lowest first.
    pub fn push22(&mut self, word_0: u64, word_1: u64, word_2: u64)
        requires
            old(self).wf(),
            old(self).stack@.len() < 1024,
            word_2 < (1u64 << 48),
        ensures
            final (self).wf(),
            frame_stack_gas(*old(self), *final (self)),
            final (self).gas_used == spec_burn(old(self).gas_used, 3),
            final (self).stack@ == old(self).stack@.push(final (self).stack@.last()),
            final (self).stack@.last().val() == word_0 + word_1 * 0x1_0000_0000_0000_0000
                + (word_2 as nat) * 340282366920938463463374607431768211456,
    {
        self.burn_gas(3);
        let lo: u128 = (word_0 as u128) | ((word_1 as u128) << 64);
        let hi: u128 = word_2 as u128;
        proof {
            lemma_le_chunks(word_0, word_1);
        }
        let r = Word { hi, lo };
        self.push_word(r);
    }
    /// PUSH23: pushes an immediate given as little-endian 64-bit
    /// chunks, the lowest first.
    pub fn push23(&mut self, word_0: u64, word_1: u64, word_2: u64)
        requires
            old(self).wf(),
            old(self).stack@.len() < 1024,
            word_2 < (1u64 << 56),
        ensures
            final (self).wf(),
            frame_stack_gas(*old(self), *final (self)),
            final (self).gas_used == spec_burn(old(self).gas_used, 3),
            final (self).stack@ == old(self).stack@.push(final (self).stack@.last()),
            final (self).stack@.last().val() == word_0 + word_1 * 0x1_0000_0000_0000_0000
                + (word_2 as nat) * 340282366920938463463374607431768211456,
    {
        self.burn_gas(3);
        let lo: u128 = (word_0 as u128) | ((word_1 as u128) << 64);
        let hi: u128 = word_2 as u128;
        proof {
            lemma_le_chunks(word_0, word_1);
        }
        let r = Word { hi, lo };
        self.push_word(r);
    }
    /// PUSH24: pushes an immediate given as little-endian 64-bit
    /// chunks, the lowest first.
    pub fn push24(&mut self, word_0: u64, word_1: u64, word_2: u64)
        requires
            old(self).wf(),
            old(self).stack@.len() < 1024,
        ensures
            final (self).wf(),
            frame_stack_gas(*old(self), *final (self)),
            final (self).gas_used == spec_burn(old(self).gas_used, 3),
            final (self).stack@ == old(self).stack@.push(final (self).stack@.last()),
            final (self).stack@.last().val() == word_0 + word_1 * 0x1_0000_0000_0000_0000
                + (word_2 as nat) * 340282366920938463463374607431768211456,
    {
        self.burn_gas(3);
        let lo: u128 = (word_0 as u128) | ((word_1 as u128) << 64);
        let hi: u128 = word_2 as u128;
        proof {
            lemma_le_chunks(word_0, word_1);
        }
        let r = Word { hi, lo };
        self.push_word(r);
    }
    /// PUSH25: pushes an immediate given as little-endian 64-bit
    /// chunks, the lowest first.
    pub fn push25(&mut self, word_0: u64, word_1: u64, word_2: u64, word_3: u32)
        requires
            old(self).wf(),
            old(self).stack@.len() < 1024,
            word_3 < (1u32 << 8),
        ensures
            final (self).wf(),
            frame_stack_gas(*old(self), *final (self)),
            final (self).gas_used == spec_burn(old(self).gas_used, 3),
            final (self).stack@ == old(self).stack@.push(final (self).stack@.last()),
            final (self).stack@.last().val() == word_0 + word_1 * 0x1_0000_0000_0000_0000
                + (word_2 + (word_3 as nat) * 0x1_0000_0000_0000_0000)
                * 340282366920938463463374607431768211456,
    {
        self.burn_gas(3);
        let lo: u128 = (word_0 as u128) | ((word_1 as u128) << 64);
        let hi: u128 = (word_2 as u128) | ((word_3 as u128) << 64);
        proof {
            lemma_le_chunks(word_0, word_1);
            lemma_le_chunks(word_2, word_3 as u64);
        }
        let r = Word { hi, lo };
        self.push_word(r);
    }
    /// PUSH26: pushes an immediate given as little-endian 64-bit
    /// chunks, the lowest first.
    pub fn push26(&mut self, word_0: u64, word_1: u64, word_2: u64, word_3: u32)
        requires
            old(self).wf(),
            old(self).stack@.len() < 1024,
            word_3 < (1u32 << 16),
        ensures
            final (self).wf(),
            frame_stack_gas(*old(self), *final (self)),
            final (self).gas_used == spec_burn(old(self).gas_used, 3),
            final (self).stack@ == old(self).stack@.push(final (self).stack@.last()),
            final (self).stack@.last().val() == word_0 + word_1 * 0x1_0000_0000_0000_0000
                + (word_2 + (word_3 as nat) * 0x1_0000_0000_0000_0000)
                * 340282366920938463463374607431768211456,
    {
        self.burn_gas(3);
        let lo: u128 = (word_0 as u128) | ((word_1 as u128) << 64);
        let hi: u128 = (word_2 as u128) | ((word_3 as u128) << 64);
        proof {
            lemma_le_chunks(word_0, word_1);
            lemma_le_chunks(word_2, word_3 as u64);
        }
        let r = Word { hi, lo };
        self.push_word(r);
    }
    /// PUSH27: pushes an immediate given as little-endian 64-bit
    /// chunks, the lowest first.
    pub fn push27(&mut self, word_0: u64, word_1: u64, word_2: u64, word_3: u32)
        requires
            old(self).wf(),
            old(self).stack@.len() < 1024,
            word_3 < (1u32 << 24),
        ensures
            final (self).wf(),
            frame_stack_gas(*old(self), *final (self)),
            final (self).gas_used == spec_burn(old(self).gas_used, 3),
            final (self).stack@ == old(self).stack@.push(final (self).stack@.last()),
            final (self).stack@.last().val() == word_0 + word_1 * 0x1_0000_0000_0000_0000
                + (word_2 + (word_3 as nat) * 0x1_0000_0000_0000_0000)
                * 340282366920938463463374607431768211456,
    {
        self.burn_gas(3);
        let lo: u128 = (word_0 as u128) | ((word_1 as u128) << 64);
        let hi: u128 = (word_2 as u128) | ((word_3 as u128) << 64);
        proof {
            lemma_le_chunks(word_0, word_1);
            lemma_le_chunks(word_2, word_3 as u64);
        }
        let r = Word { hi, lo };
        self.push_word(r);
    }
    /// PUSH28: pushes an immediate given as little-endian 64-bit
    /// chunks, the lowest first.
    pub fn push28(&mut self, word_0: u64, word_1: u64, word_2: u64, word_3: u32)
        requires
            old(self).wf(),
            old(self).stack@.len() < 1024,
        ensures
            final (self).wf(),
            frame_stack_gas(*old(self), *final (self)),
            final (self).gas_used == spec_burn(old(self).gas_used, 3),
            final (self).stack@ == old(self).stack@.push(final (self).stack@.last()),
            final (self).stack@.last().val() == word_0 + word_1 * 0x1_0000_0000_0000_0000
                + (word_2 + (word_3 as nat) * 0x1_0000_0000_0000_0000)
                * 340282366920938463463374607431768211456,
    {
        self.burn_gas(3);
        let lo: u128 = (word_0 as u128) | ((word_1 as u128) << 64);
        let hi: u128 = (word_2 as u128) | ((word_3 as u128) << 64);
        proof {
            lemma_le_chunks(word_0, word_1);
            lemma_le_chunks(word_2, word_3 as u64);
        }
        let r = Word { hi, lo };
        self.push_word(r);
    }
    /// PUSH29: pushes an immediate given as little-endian 64-bit
    /// chunks, the lowest first.
    pub fn push29(&mut self, word_0: u64, word_1: u64, word_2: u64, word_3: u64)
        requires
            old(self).wf(),
            old(self).stack@.len() < 1024,
            word_3 < (1u64 << 40),
        ensures
            final (self).wf(),
            frame_stack_gas(*old(self), *final (self)),
            final (self).gas_used == spec_burn(old(self).gas_used, 3),
            final (self).stack@ == old(self).stack@.push(final (self).stack@.last()),
            final (self).stack@.last().val() == word_0 + word_1 * 0x1_0000_0000_0000_0000
                + (word_2 + (word_3 as nat) * 0x1_0000_0000_0000_0000)
                * 340282366920938463463374607431768211456,
    {
        self.burn_gas(3);
        let lo: u128 = (word_0 as u128) | ((word_1 as u128) << 64);
        let hi: u128 = (word_2 as u128) | ((word_3 as u128) << 64);
        proof {
            lemma_le_chunks(word_0, word_1);
            lemma_le_chunks(word_2, word_3 as u64);
        }
        let r = Word { hi, lo };
        self.push_word(r);
    }
    /// PUSH30: pushes an immediate given as little-endian 64-bit
    /// chunks, the lowest first.
    pub fn push30(&mut self, word_0: u64, word_1: u64, word_2: u64, word_3: u64)
        requires
            old(self).wf(),
            old(self).stack@.len() < 1024,
            word_3 < (1u64 << 48),
        ensures
            final (self).wf(),
            frame_stack_gas(*old(self), *final (self)),
            final (self).gas_used == spec_burn(old(self).gas_used, 3),
            final (self).stack@ == old(self).stack@.push(final (self).stack@.last()),
            final (self).stack@.last().val() == word_0 + word_1 * 0x1_0000_0000_0000_0000
                + (word_2 + (word_3 as nat) * 0x1_0000_0000_0000_0000)
                * 340282366920938463463374607431768211456,
    {
        self.burn_gas(3);
        let lo: u128 = (word_0 as u128) | ((word_1 as u128) << 64);
        let hi: u128 = (word_2 as u128) | ((word_3 as u128) << 64);
        proof {
            lemma_le_chunks(word_0, word_1);
            lemma_le_chunks(word_2, word_3 as u64);
        }
        let r = Word { hi, lo };
        self.push_word(r);
    }
    /// PUSH31: pushes an immediate given as little-endian 64-bit
    /// chunks, the lowest first.
    pub fn push31(&mut self, word_0: u64, word_1: u64, word_2: u64, word_3: u64)
        requires
            old(self).wf(),
            old(self).stack@.len() < 1024,
            word_3 < (1u64 << 56),
        ensures
            final (self).wf(),
            frame_stack_gas(*old(self), *final (self)),
            final (self).gas_used == spec_burn(old(self).gas_used, 3),
            final (self).stack@ == old(self).stack@.push(final (self).stack@.last()),
            final (self).stack@.last().val() == word_0 + word_1 * 0x1_0000_0000_0000_0000
                + (word_2 + (word_3 as nat) * 0x1_0000_0000_0000_0000)
                * 340282366920938463463374607431768211456,
    {
        self.burn_gas(3);
        let lo: u128 = (word_0 as u128) | ((word_1 as u128) << 64);
        let hi: u128 = (word_2 as u128) | ((word_3 as u128) << 64);
        proof {
            lemma_le_chunks(word_0, word_1);
            lemma_le_chunks(word_2, word_3 as u64);
        }
        let r = Word { hi, lo };
        self.push_word(r);
    }
    /// PUSH32: pushes an immediate given as little-endian 64-bit
    /// chunks, the lowest first.
    pub fn push32(&mut self, word_0: u64, word_1: u64, word_2: u64, word_3: u64)
        requires
            old(self).wf(),
            old(self).stack@.len() < 1024,
        ensures
            final (self).wf(),
            frame_stack_gas(*old(self), *final (self)),
            final (self).gas_used == spec_burn(old(self).gas_used, 3),
            final (self).stack@ == old(self).stack@.push(final (self).stack@.last()),
            final (self).stack@.last().val() == word_0 + word_1 * 0x1_0000_0000_0000_0000
                + (word_2 + (word_3 as nat) * 0x1_0000_0000_0000_0000)
                * 340282366920938463463374607431768211456,
    {
        self.burn_gas(3);
        let lo: u128 = (word_0 as u128) | ((word_1 as u128) << 64);
        let hi: u128 = (word_2 as u128) | ((word_3 as u128) << 64);
        proof {
            lemma_le_chunks(word_0, word_1);
            lemma_le_chunks(word_2, word_3 as u64);
        }
        let r = Word { hi, lo };
        self.push_word(r);
    }
    /// Duplicates the word `n` places below the top, `n` from 1 to 16.
    fn dup_at(&mut self, n: usize)
        requires
            old(self).wf(),
            1 <= n <= 16,
            n <= old(self).stack@.len(),
            old(self).stack@.len() < 1024,
        ensures
            final (self).wf(),
            frame_stack_gas(*old(self), *final (self)),
            final (self).gas_used == spec_burn(old(self).gas_used, 3),
            final (self).stack@ == old(self).stack@.push(
                old(self).stack@[old(self).stack@.len() - n],
            ),
    {
        self.burn_gas(3);
        let w = self.peek_n(n - 1);
        self.push_word(w);
    }

    /// Swaps the top word with the one `n` places below it, `n` from 1
    /// to 16.
    fn swap_at(&mut self, n: usize)
        requires
            old(self).wf(),
            1 <= n <= 16,
            n + 1 <= old(self).stack@.len(),
        ensures
            final (self).wf(),
            frame_stack_gas(*old(self), *final (self)),
            final (self).gas_used == spec_burn(old(self).gas_used, 3),
            final (self).stack@ == old(self).stack@.update(
                old(self).stack@.len() - 1,
                old(self).stack@[old(self).stack@.len() - 1 - n],
            ).update(old(self).stack@.len() - 1 - n, old(self).stack@.last()),
    {
        self.burn_gas(3);
        let top_index = self.stack.len() - 1;
        let a = self.stack[top_index];
        let b = self.stack[top_index - n];
        self.stack.set(top_index, b);
        self.stack.set(top_index - n, a);
    }
    /// DUP1.
    pub fn dup1(&mut self)
        requires
            old(self).wf(),
            old(self).stack@.len() >= 1,
            old(self).stack@.len() < 1024,
        ensures
            final (self).wf(),
            frame_stack_gas(*old(self), *final (self)),
            final (self).gas_used == spec_burn(old(self).gas_used, 3),
            final (self).stack@ == old(self).stack@.push(
                old(self).stack@[old(self).stack@.len() - 1],
            ),
    {
        self.dup_at(1);
    }
    /// DUP2.
    pub fn dup2(&mut self)
        requires
            old(self).wf(),
            old(self).stack@.len() >= 2,
            old(self).stack@.len() < 1024,
        ensures
            final (self).wf(),
            frame_stack_gas(*old(self), *final (self)),
            final (self).gas_used == spec_burn(old(self).gas_used, 3),
            final (self).stack@ == old(self).stack@.push(
                old(self).stack@[old(self).stack@.len() - 2],
            ),
    {
        self.dup_at(2);
    }
    /// DUP3.
    pub fn dup3(&mut self)
        requires
            old(self).wf(),
            old(self).stack@.len() >= 3,
            old(self).stack@.len() < 1024,
        ensures
            final (self).wf(),
            frame_stack_gas(*old(self), *final (self)),
            final (self).gas_used == spec_burn(old(self).gas_used, 3),
            final (self).stack@ == old(self).stack@.push(
                old(self).stack@[old(self).stack@.len() - 3],
            ),
    {
        self.dup_at(3);
    }
    /// DUP4.
    pub fn dup4(&mut self)
        requires
            old(self).wf(),
            old(self).stack@.len() >= 4,
            old(self).stack@.len() < 1024,
        ensures
            final (self).wf(),
            frame_stack_gas(*old(self), *final (self)),
            final (self).gas_used == spec_burn(old(self).gas_used, 3),
            final (self).stack@ == old(self).stack@.push(
                old(self).stack@[old(self).stack@.len() - 4],
            ),
    {
        self.dup_at(4);
    }
    /// DUP5.
    pub fn dup5(&mut self)
        requires
            old(self).wf(),
            old(self).stack@.len() >= 5,
            old(self).stack@.len() < 1024,
        ensures
            final (self).wf(),
            frame_stack_gas(*old(self), *final (self)),
            final (self).gas_used == spec_burn(old(self).gas_used, 3),
            final (self).stack@ == old(self).stack@.push(
                old(self).stack@[old(self).stack@.len() - 5],
            ),
    {
        self.dup_at(5);
    }
    /// DUP6.
    pub fn dup6(&mut self)
        requires
            old(self).wf(),
            old(self).stack@.len() >= 6,
            old(self).stack@.len() < 1024,
        ensures
            final (self).wf(),
            frame_stack_gas(*old(self), *final (self)),
            final (self).gas_used == spec_burn(old(self).gas_used, 3),
            final (self).stack@ == old(self).stack@.push(
                old(self).stack@[old(self).stack@.len() - 6],
            ),
    {
        self.dup_at(6);
    }
    /// DUP7.
    pub fn dup7(&mut self)
        requires
            old(self).wf(),
            old(self).stack@.len() >= 7,
            old(self).stack@.len() < 1024,
        ensures
            final (self).wf(),
            frame_stack_gas(*old(self), *final (self)),
            final (self).gas_used == spec_burn(old(self).gas_used, 3),
            final (self).stack@ == old(self).stack@.push(
                old(self).stack@[old(self).stack@.len() - 7],
            ),
    {
        self.dup_at(7);
    }
    /// DUP8.
    pub fn dup8(&mut self)
        requires
            old(self).wf(),
            old(self).stack@.len() >= 8,
            old(self).stack@.len() < 1024,
        ensures
            final (self).wf(),
            frame_stack_gas(*old(self), *final (self)),
            final (self).gas_used == spec_burn(old(self).gas_used, 3),
            final (self).stack@ == old(self).stack@.push(
                old(self).stack@[old(self).stack@.len() - 8],
            ),
    {
        self.dup_at(8);
    }
    /// DUP9.
    pub fn dup9(&mut self)
        requires
            old(self).wf(),
            old(self).stack@.len() >= 9,
            old(self).stack@.len() < 1024,
        ensures
            final (self).wf(),
            frame_stack_gas(*old(self), *final (self)),
            final (self).gas_used == spec_burn(old(self).gas_used, 3),
            final (self).stack@ == old(self).stack@.push(
                old(self).stack@[old(self).stack@.len() - 9],
            ),
    {
        self.dup_at(9);
    }
    /// DUP10.
    pub fn dup10(&mut self)
        requires
            old(self).wf(),
            old(self).stack@.len() >= 10,
            old(self).stack@.len() < 1024,
        ensures
            final (self).wf(),
            frame_stack_gas(*old(self), *final (self)),
            final (self).gas_used == spec_burn(old(self).gas_used, 3),
            final (self).stack@ == old(self).stack@.push(
                old(self).stack@[old(self).stack@.len() - 10],
            ),
    {
        self.dup_at(10);
    }
    /// DUP11.
    pub fn dup11(&mut self)
        requires
            old(self).wf(),
            old(self).stack@.len() >= 11,
            old(self).stack@.len() < 1024,
        ensures
            final (self).wf(),
            frame_stack_gas(*old(self), *final (self)),
            final (self).gas_used == spec_burn(old(self).gas_used, 3),
            final (self).stack@ == old(self).stack@.push(
                old(self).stack@[old(self).stack@.len() - 11],
            ),
    {
        self.dup_at(11);
    }
    /// DUP12.
    pub fn dup12(&mut self)
        requires
            old(self).wf(),
            old(self).stack@.len() >= 12,
            old(self).stack@.len() < 1024,
        ensures
            final (self).wf(),
            frame_stack_gas(*old(self), *final (self)),
            final (self).gas_used == spec_burn(old(self).gas_used, 3),
            final (self).stack@ == old(self).stack@.push(
                old(self).stack@[old(self).stack@.len() - 12],
            ),
    {
        self.dup_at(12);
    }
    /// DUP13.
    pub fn dup13(&mut self)
        requires
            old(self).wf(),
            old(self).stack@.len() >= 13,
            old(self).stack@.len() < 1024,
        ensures
            final (self).wf(),
            frame_stack_gas(*old(self), *final (self)),
            final (self).gas_used == spec_burn(old(self).gas_used, 3),
            final (self).stack@ == old(self).stack@.push(
                old(self).stack@[old(self).stack@.len() - 13],
            ),
    {
        self.dup_at(13);
    }
    /// DUP14.
    pub fn dup14(&mut self)
        requires
            old(self).wf(),
            old(self).stack@.len() >= 14,
            old(self).stack@.len() < 1024,
        ensures
            final (self).wf(),
            frame_stack_gas(*old(self), *final (self)),
            final (self).gas_used == spec_burn(old(self).gas_used, 3),
            final (self).stack@ == old(self).stack@.push(
                old(self).stack@[old(self).stack@.len() - 14],
            ),
    {
        self.dup_at(14);
    }
    /// DUP15.
    pub fn dup15(&mut self)
        requires
            old(self).wf(),
            old(self).stack@.len() >= 15,
            old(self).stack@.len() < 1024,
        ensures
            final (self).wf(),
            frame_stack_gas(*old(self), *final (self)),
            final (self).gas_used == spec_burn(old(self).gas_used, 3),
            final (self).stack@ == old(self).stack@.push(
                old(self).stack@[old(self).stack@.len() - 15],
            ),
    {
        self.dup_at(15);
    }
    /// DUP16.
    pub fn dup16(&mut self)
        requires
            old(self).wf(),
            old(self).stack@.len() >= 16,
            old(self).stack@.len() < 1024,
        ensures
            final (self).wf(),
            frame_stack_gas(*old(self), *final (self)),
            final (self).gas_used == spec_burn(old(self).gas_used, 3),
            final (self).stack@ == old(self).stack@.push(
                old(self).stack@[old(self).stack@.len() - 16],
            ),
    {
        self.dup_at(16);
    }
    /// SWAP1.
    pub fn swap1(&mut self)
        requires
            old(self).wf(),
            old(self).stack@.len() >= 1 + 1,
        ensures
            final (self).wf(),
            frame_stack_gas(*old(self), *final (self)),
            final (self).gas_used == spec_burn(old(self).gas_used, 3),
            final (self).stack@ == old(self).stack@.update(
                old(self).stack@.len() - 1,
                old(self).stack@[old(self).stack@.len() - 1 - 1],
            ).update(old(self).stack@.len() - 1 - 1, old(self).stack@.last()),
    {
        self.swap_at(1);
    }
    /// SWAP2.
    pub fn swap2(&mut self)
        requires
            old(self).wf(),
            old(self).stack@.len() >= 2 + 1,
        ensures
            final (self).wf(),
            frame_stack_gas(*old(self), *final (self)),
            final (self).gas_used == spec_burn(old(self).gas_used, 3),
            final (self).stack@ == old(self).stack@.update(
                old(self).stack@.len() - 1,
                old(self).stack@[old(self).stack@.len() - 1 - 2],
            ).update(old(self).stack@.len() - 1 - 2, old(self).stack@.last()),
    {
        self.swap_at(2);
    }
    /// SWAP3.
    pub fn swap3(&mut self)
        requires
            old(self).wf(),
            old(self).stack@.len() >= 3 + 1,
        ensures
            final (self).wf(),
            frame_stack_gas(*old(self), *final (self)),
            final (self).gas_used == spec_burn(old(self).gas_used, 3),
            final (self).stack@ == old(self).stack@.update(
                old(self).stack@.len() - 1,
                old(self).stack@[old(self).stack@.len() - 1 - 3],
            ).update(old(self).stack@.len() - 1 - 3, old(self).stack@.last()),
    {
        self.swap_at(3);
    }
    /// SWAP4.
    pub fn swap4(&mut self)
        requires
            old(self).wf(),
            old(self).stack@.len() >= 4 + 1,
        ensures
            final (self).wf(),
            frame_stack_gas(*old(self), *final (self)),
            final (self).gas_used == spec_burn(old(self).gas_used, 3),
            final (self).stack@ == old(self).stack@.update(
                old(self).stack@.len() - 1,
                old(self).stack@[old(self).stack@.len() - 1 - 4],
            ).update(old(self).stack@.len() - 1 - 4, old(self).stack@.last()),
    {
        self.swap_at(4);
    }
    /// SWAP5.
    pub fn swap5(&mut self)
        requires
            old(self).wf(),
            old(self).stack@.len() >= 5 + 1,
        ensures
            final (self).wf(),
            frame_stack_gas(*old(self), *final (self)),
            final (self).gas_used == spec_burn(old(self).gas_used, 3),
            final (self).stack@ == old(self).stack@.update(
                old(self).stack@.len() - 1,
                old(self).stack@[old(self).stack@.len() - 1 - 5],
            ).update(old(self).stack@.len() - 1 - 5, old(self).stack@.last()),
    {
        self.swap_at(5);
    }
    /// SWAP6.
    pub fn swap6(&mut self)
        requires
            old(self).wf(),
            old(self).stack@.len() >= 6 + 1,
        ensures
            final (self).wf(),
            frame_stack_gas(*old(self), *final (self)),
            final (self).gas_used == spec_burn(old(self).gas_used, 3),
            final (self).stack@ == old(self).stack@.update(
                old(self).stack@.len() - 1,
                old(self).stack@[old(self).stack@.len() - 1 - 6],
            ).update(old(self).stack@.len() - 1 - 6, old(self).stack@.last()),
    {
        self.swap_at(6);
    }
    /// SWAP7.
    pub fn swap7(&mut self)
        requires
            old(self).wf(),
            old(self).stack@.len() >= 7 + 1,
        ensures
            final (self).wf(),
            frame_stack_gas(*old(self), *final (self)),
            final (self).gas_used == spec_burn(old(self).gas_used, 3),
            final (self).stack@ == old(self).stack@.update(
                old(self).stack@.len() - 1,
                old(self).stack@[old(self).stack@.len() - 1 - 7],
            ).update(old(self).stack@.len() - 1 - 7, old(self).stack@.last()),
    {
        self.swap_at(7);
    }
    /// SWAP8.
    pub fn swap8(&mut self)
        requires
            old(self).wf(),
            old(self).stack@.len() >= 8 + 1,
        ensures
            final (self).wf(),
            frame_stack_gas(*old(self), *final (self)),
            final (self).gas_used == spec_burn(old(self).gas_used, 3),
            final (self).stack@ == old(self).stack@.update(
                old(self).stack@.len() - 1,
                old(self).stack@[old(self).stack@.len() - 1 - 8],
            ).update(old(self).stack@.len() - 1 - 8, old(self).stack@.last()),
    {
        self.swap_at(8);
    }
    /// SWAP9.
    pub fn swap9(&mut self)
        requires
            old(self).wf(),
            old(self).stack@.len() >= 9 + 1,
        ensures
            final (self).wf(),
            frame_stack_gas(*old(self), *final (self)),
            final (self).gas_used == spec_burn(old(self).gas_used, 3),
            final (self).stack@ == old(self).stack@.update(
                old(self).stack@.len() - 1,
                old(self).stack@[old(self).stack@.len() - 1 - 9],
            ).update(old(self).stack@.len() - 1 - 9, old(self).stack@.last()),
    {
        self.swap_at(9);
    }
    /// SWAP10.
    pub fn swap10(&mut self)
        requires
            old(self).wf(),
            old(self).stack@.len() >= 10 + 1,
        ensures
            final (self).wf(),
            frame_stack_gas(*old(self), *final (self)),
            final (self).gas_used == spec_burn(old(self).gas_used, 3),
            final (self).stack@ == old(self).stack@.update(
                old(self).stack@.len() - 1,
                old(self).stack@[old(self).stack@.len() - 1 - 10],
            ).update(old(self).stack@.len() - 1 - 10, old(self).stack@.last()),
    {
        self.swap_at(10);
    }
    /// SWAP11.
    pub fn swap11(&mut self)
        requires
            old(self).wf(),
            old(self).stack@.len() >= 11 + 1,
        ensures
            final (self).wf(),
            frame_stack_gas(*old(self), *final (self)),
            final (self).gas_used == spec_burn(old(self).gas_used, 3),
            final (self).stack@ == old(self).stack@.update(
                old(self).stack@.len() - 1,
                old(self).stack@[old(self).stack@.len() - 1 - 11],
            ).update(old(self).stack@.len() - 1 - 11, old(self).stack@.last()),
    {
        self.swap_at(11);
    }
    /// SWAP12.
    pub fn swap12(&mut self)
        requires
            old(self).wf(),
            old(self).stack@.len() >= 12 + 1,
        ensures
            final (self).wf(),
            frame_stack_gas(*old(self), *final (self)),
            final (self).gas_used == spec_burn(old(self).gas_used, 3),
            final (self).stack@ == old(self).stack@.update(
                old(self).stack@.len() - 1,
                old(self).stack@[old(self).stack@.len() - 1 - 12],
            ).update(old(self).stack@.len() - 1 - 12, old(self).stack@.last()),
    {
        self.swap_at(12);
    }
    /// SWAP13.
    pub fn swap13(&mut self)
        requires
            old(self).wf(),
            old(self).stack@.len() >= 13 + 1,
        ensures
            final (self).wf(),
            frame_stack_gas(*old(self), *final (self)),
            final (self).gas_used == spec_burn(old(self).gas_used, 3),
            final (self).stack@ == old(self).stack@.update(
                old(self).stack@.len() - 1,
                old(self).stack@[old(self).stack@.len() - 1 - 13],
            ).update(old(self).stack@.len() - 1 - 13, old(self).stack@.last()),
    {
        self.swap_at(13);
    }
    /// SWAP14.
    pub fn swap14(&mut self)
        requires
            old(self).wf(),
            old(self).stack@.len() >= 14 + 1,
        ensures
            final (self).wf(),
            frame_stack_gas(*old(self), *final (self)),
            final (self).gas_used == spec_burn(old(self).gas_used, 3),
            final (self).stack@ == old(self).stack@.update(
                old(self).stack@.len() - 1,
                old(self).stack@[old(self).stack@.len() - 1 - 14],
            ).update(old(self).stack@.len() - 1 - 14, old(self).stack@.last()),
    {
        self.swap_at(14);
    }
    /// SWAP15.
    pub fn swap15(&mut self)
        requires
            old(self).wf(),
            old(self).stack@.len() >= 15 + 1,
        ensures
            final (self).wf(),
            frame_stack_gas(*old(self), *final (self)),
            final (self).gas_used == spec_burn(old(self).gas_used, 3),
            final (self).stack@ == old(self).stack@.update(
                old(self).stack@.len() - 1,
                old(self).stack@[old(self).stack@.len() - 1 - 15],
            ).update(old(self).stack@.len() - 1 - 15, old(self).stack@.last()),
    {
        self.swap_at(15);
    }
    /// SWAP16.
    pub fn swap16(&mut self)
        requires
            old(self).wf(),
            old(self).stack@.len() >= 16 + 1,
        ensures
            final (self).wf(),
            frame_stack_gas(*old(self), *final (self)),
            final (self).gas_used == spec_burn(old(self).gas_used, 3),
            final (self).stack@ == old(self).stack@.update(
                old(self).stack@.len() - 1,
                old(self).stack@[old(self).stack@.len() - 1 - 16],
            ).update(old(self).stack@.len() - 1 - 16, old(self).stack@.last()),
    {
        self.swap_at(16);
    }
}

/// Two little-endian 64-bit chunks assemble into one 128-bit limb.
proof fn lemma_le_chunks(w0: u64, w1: u64)
    ensures
        ((w0 as u128) | ((w1 as u128) << 64)) == w0 + w1 * 0x1_0000_0000_0000_0000,
{
    let a = w0 as u128;
    let b = w1 as u128;
    assert((a | (b << 64)) == a + b * 0x1_0000_0000_0000_0000) by (bit_vector)
        requires
            a < 0x1_0000_0000_0000_0000,
            b < 0x1_0000_0000_0000_0000,
    ;
}


impl Evm {    /// Appends one log record with the given topics and the memory
    /// range as data.
    fn log_emit(&mut self, topics: Vec<Word>, offset: Word, size: Word)
        requires
            old(self).wf(),
            offset.val() + size.val() <= usize::MAX - 31,
        ensures
            final (self).wf(),
            frame_core(*old(self), *final (self)),
            final (self).stack@ == old(self).stack@,
            final (self).gas_used == old(self).gas_used,
            final (self).env.storage@ == old(self).env.storage@,
            final (self).env.call_data@ == old(self).env.call_data@,
            final (self).env.return_data@ == old(self).env.return_data@,
            final (self).env.exit_status == old(self).env.exit_status,
            final (self).env.address == old(self).env.address,
            forall|i: int|
                0 <= i < old(self).memory@.len() ==> final (self).memory@[i] == old(
                    self,
                ).memory@[i],
            forall|i: int|
                old(self).memory@.len() <= i < final (self).memory@.len() ==> final (
                self).memory@[i] == 0,
            final (self).env.logs@.len() == old(self).env.logs@.len() + 1,
            forall|j: int|
                0 <= j < old(self).env.logs@.len() ==> final (self).env.logs@[j] == old(
                    self,
                ).env.logs@[j],
            ({
                let entry = final (self).env.logs@.last();
                &&& entry.address == old(self).env.address
                &&& entry.topics@ == topics@
                &&& entry.data@.len() == size.val()
                &&& forall|i: int|
                    0 <= i < size.val() ==> entry.data@[i] == final (self).memory@[offset.val()
                        + i]
            }),
    {
        let off = match word_to_usize(&offset) {
            Some(u) => u,
            None => 0,
        };
        let sz = match word_to_usize(&size) {
            Some(u) => u,
            None => 0,
        };
        let data = self.mem_slice(off, sz);
        let entry = LogEntry { address: self.env.address, topics, data };
        self.env.logs.push(entry);
    }
    /// LOG0: pops offset and size and
    /// appends a log record holding that memory range.
    pub fn log0(&mut self)
        requires
            old(self).wf(),
            old(self).stack@.len() >= 2,
            old(self).stack@.last().val() + old(self).stack@[old(self).stack@.len() - 2].val()
                <= usize::MAX - 31,
        ensures
            final (self).wf(),
            frame_core(*old(self), *final (self)),
            final (self).gas_used == spec_burn(old(self).gas_used, 375),
            stack_shape(old(self).stack@, final (self).stack@, 2, 0),
            final (self).env.storage@ == old(self).env.storage@,
            final (self).env.return_data@ == old(self).env.return_data@,
            final (self).env.exit_status == old(self).env.exit_status,
            forall|i: int|
                0 <= i < old(self).memory@.len() ==> final (self).memory@[i] == old(
                    self,
                ).memory@[i],
            final (self).env.logs@.len() == old(self).env.logs@.len() + 1,
            forall|j: int|
                0 <= j < old(self).env.logs@.len() ==> final (self).env.logs@[j] == old(
                    self,
                ).env.logs@[j],
            ({
                let entry = final (self).env.logs@.last();
                let off = old(self).stack@.last().val();
                let size = old(self).stack@[old(self).stack@.len() - 2].val();
                &&& entry.address == old(self).env.address
                &&& entry.topics@.len() == 0
                &&& true
                &&& entry.data@.len() == size
                &&& forall|i: int|
                    0 <= i < size ==> entry.data@[i] == final (self).memory@[off + i]
            }),
    {
        self.burn_gas(375);
        let offset = self.pop_word();
        let size = self.pop_word();
        let mut topics: Vec<Word> = Vec::new();
        self.log_emit(topics, offset, size);
        proof {
            assert(self.stack@.take(old(self).stack@.len() - 2) =~= old(self).stack@.take(
                old(self).stack@.len() - 2,
            ));
        }
    }
    /// LOG1: pops offset and size and 1 topic words and
    /// appends a log record holding that memory range.
    pub fn log1(&mut self)
        requires
            old(self).wf(),
            old(self).stack@.len() >= 3,
            old(self).stack@.last().val() + old(self).stack@[old(self).stack@.len() - 2].val()
                <= usize::MAX - 31,
        ensures
            final (self).wf(),
            frame_core(*old(self), *final (self)),
            final (self).gas_used == spec_burn(old(self).gas_used, 750),
            stack_shape(old(self).stack@, final (self).stack@, 3, 0),
            final (self).env.storage@ == old(self).env.storage@,
            final (self).env.return_data@ == old(self).env.return_data@,
            final (self).env.exit_status == old(self).env.exit_status,
            forall|i: int|
                0 <= i < old(self).memory@.len() ==> final (self).memory@[i] == old(
                    self,
                ).memory@[i],
            final (self).env.logs@.len() == old(self).env.logs@.len() + 1,
            forall|j: int|
                0 <= j < old(self).env.logs@.len() ==> final (self).env.logs@[j] == old(
                    self,
                ).env.logs@[j],
            ({
                let entry = final (self).env.logs@.last();
                let off = old(self).stack@.last().val();
                let size = old(self).stack@[old(self).stack@.len() - 2].val();
                &&& entry.address == old(self).env.address
                &&& entry.topics@.len() == 1
                &&& entry.topics@[0] == old(self).stack@[old(self).stack@.len() - 3]
                &&& entry.data@.len() == size
                &&& forall|i: int|
                    0 <= i < size ==> entry.data@[i] == final (self).memory@[off + i]
            }),
    {
        self.burn_gas(750);
        let offset = self.pop_word();
        let size = self.pop_word();
        let t1 = self.pop_word();
        let mut topics: Vec<Word> = Vec::new();
        topics.push(t1);
        self.log_emit(topics, offset, size);
        proof {
            assert(self.stack@.take(old(self).stack@.len() - 3) =~= old(self).stack@.take(
                old(self).stack@.len() - 3,
            ));
        }
    }
    /// LOG2: pops offset and size and 2 topic words and
    /// appends a log record holding that memory range.
    pub fn log2(&mut self)
        requires
            old(self).wf(),
            old(self).stack@.len() >= 4,
            old(self).stack@.last().val() + old(self).stack@[old(self).stack@.len() - 2].val()
                <= usize::MAX - 31,
        ensures
            final (self).wf(),
            frame_core(*old(self), *final (self)),
            final (self).gas_used == spec_burn(old(self).gas_used, 1125),
            stack_shape(old(self).stack@, final (self).stack@, 4, 0),
            final (self).env.storage@ == old(self).env.storage@,
            final (self).env.return_data@ == old(self).env.return_data@,
            final (self).env.exit_status == old(self).env.exit_status,
            forall|i: int|
                0 <= i < old(self).memory@.len() ==> final (self).memory@[i] == old(
                    self,
                ).memory@[i],
            final (self).env.logs@.len() == old(self).env.logs@.len() + 1,
            forall|j: int|
                0 <= j < old(self).env.logs@.len() ==> final (self).env.logs@[j] == old(
                    self,
                ).env.logs@[j],
            ({
                let entry = final (self).env.logs@.last();
                let off = old(self).stack@.last().val();
                let size = old(self).stack@[old(self).stack@.len() - 2].val();
                &&& entry.address == old(self).env.address
                &&& entry.topics@.len() == 2
                &&& entry.topics@[0] == old(self).stack@[old(self).stack@.len() - 3] && entry.topics@[1] == old(self).stack@[old(self).stack@.len() - 4]
                &&& entry.data@.len() == size
                &&& forall|i: int|
                    0 <= i < size ==> entry.data@[i] == final (self).memory@[off + i]
            }),
    {
        self.burn_gas(1125);
        let offset = self.pop_word();
        let size = self.pop_word();
        let t1 = self.pop_word();
        let t2 = self.pop_word();
        let mut topics: Vec<Word> = Vec::new();
        topics.push(t1);
        topics.push(t2);
        self.log_emit(topics, offset, size);
        proof {
            assert(self.stack@.take(old(self).stack@.len() - 4) =~= old(self).stack@.take(
                old(self).stack@.len() - 4,
            ));
        }
    }
    /// LOG3: pops offset and size and 3 topic words and
    /// appends a log record holding that memory range.
    pub fn log3(&mut self)
        requires
            old(self).wf(),
            old(self).stack@.len() >= 5,
            old(self).stack@.last().val() + old(self).stack@[old(self).stack@.len() - 2].val()
                <= usize::MAX - 31,
        ensures
            final (self).wf(),
            frame_core(*old(self), *final (self)),
            final (self).gas_used == spec_burn(old(self).gas_used, 1500),
            stack_shape(old(self).stack@, final (self).stack@, 5, 0),
            final (self).env.storage@ == old(self).env.storage@,
            final (self).env.return_data@ == old(self).env.return_data@,
            final (self).env.exit_status == old(self).env.exit_status,
            forall|i: int|
                0 <= i < old(self).memory@.len() ==> final (self).memory@[i] == old(
                    self,
                ).memory@[i],
            final (self).env.logs@.len() == old(self).env.logs@.len() + 1,
            forall|j: int|
                0 <= j < old(self).env.logs@.len() ==> final (self).env.logs@[j] == old(
                    self,
                ).env.logs@[j],
            ({
                let entry = final (self).env.logs@.last();
                let off = old(self).stack@.last().val();
                let size = old(self).stack@[old(self).stack@.len() - 2].val();
                &&& entry.address == old(self).env.address
                &&& entry.topics@.len() == 3
                &&& entry.topics@[0] == old(self).stack@[old(self).stack@.len() - 3] && entry.topics@[1] == old(self).stack@[old(self).stack@.len() - 4] && entry.topics@[2] == old(self).stack@[old(self).stack@.len() - 5]
                &&& entry.data@.len() == size
                &&& forall|i: int|
                    0 <= i < size ==> entry.data@[i] == final (self).memory@[off + i]
            }),
    {
        self.burn_gas(1500);
        let offset = self.pop_word();
        let size = self.pop_word();
        let t1 = self.pop_word();
        let t2 = self.pop_word();
        let t3 = self.pop_word();
        let mut topics: Vec<Word> = Vec::new();
        topics.push(t1);
        topics.push(t2);
        topics.push(t3);
        self.log_emit(topics, offset, size);
        proof {
            assert(self.stack@.take(old(self).stack@.len() - 5) =~= old(self).stack@.take(
                old(self).stack@.len() - 5,
            ));
        }
    }
    /// LOG4: pops offset and size and 4 topic words and
    /// appends a log record holding that memory range.
    pub fn log4(&mut self)
        requires
            old(self).wf(),
            old(self).stack@.len() >= 6,
            old(self).stack@.last().val() + old(self).stack@[old(self).stack@.len() - 2].val()
                <= usize::MAX - 31,
        ensures
            final (self).wf(),
            frame_core(*old(self), *final (self)),
            final (self).gas_used == spec_burn(old(self).gas_used, 1875),
            stack_shape(old(self).stack@, final (self).stack@, 6, 0),
            final (self).env.storage@ == old(self).env.storage@,
            final (self).env.return_data@ == old(self).env.return_data@,
            final (self).env.exit_status == old(self).env.exit_status,
            forall|i: int|
                0 <= i < old(self).memory@.len() ==> final (self).memory@[i] == old(
                    self,
                ).memory@[i],
            final (self).env.logs@.len() == old(self).env.logs@.len() + 1,
            forall|j: int|
                0 <= j < old(self).env.logs@.len() ==> final (self).env.logs@[j] == old(
                    self,
                ).env.logs@[j],
            ({
                let entry = final (self).env.logs@.last();
                let off = old(self).stack@.last().val();
                let size = old(self).stack@[old(self).stack@.len() - 2].val();
                &&& entry.address == old(self).env.address
                &&& entry.topics@.len() == 4
                &&& entry.topics@[0] == old(self).stack@[old(self).stack@.len() - 3] && entry.topics@[1] == old(self).stack@[old(self).stack@.len() - 4] && entry.topics@[2] == old(self).stack@[old(self).stack@.len() - 5] && entry.topics@[3] == old(self).stack@[old(self).stack@.len() - 6]
                &&& entry.data@.len() == size
                &&& forall|i: int|
                    0 <= i < size ==> entry.data@[i] == final (self).memory@[off + i]
            }),
    {
        self.burn_gas(1875);
        let offset = self.pop_word();
        let size = self.pop_word();
        let t1 = self.pop_word();
        let t2 = self.pop_word();
        let t3 = self.pop_word();
        let t4 = self.pop_word();
        let mut topics: Vec<Word> = Vec::new();
        topics.push(t1);
        topics.push(t2);
        topics.push(t3);
        topics.push(t4);
        self.log_emit(topics, offset, size);
        proof {
            assert(self.stack@.take(old(self).stack@.len() - 6) =~= old(self).stack@.take(
                old(self).stack@.len() - 6,
            ));
        }
    }
    /// CREATE: deliberately stubbed; the machine charges the base gas
    /// and traps.
    pub fn create(&mut self)
        requires
            old(self).wf(),
        ensures
            final (self).wf(),
            frame_stack_gas_env(*old(self), *final (self)),
            final (self).stack@ == old(self).stack@,
            final (self).gas_used == spec_burn(old(self).gas_used, 32000),
            final (self).env.exit_status == Some(ExitStatus::Trapped),
            env_eq_but_exit(final (self).env, old(self).env),
    {
        self.burn_gas(32000);
        self.env.exit_status = Some(ExitStatus::Trapped);
    }
    /// CALL: deliberately stubbed; the machine charges the base gas
    /// and traps.
    pub fn call(&mut self)
        requires
            old(self).wf(),
        ensures
            final (self).wf(),
            frame_stack_gas_env(*old(self), *final (self)),
            final (self).stack@ == old(self).stack@,
            final (self).gas_used == spec_burn(old(self).gas_used, 100),
            final (self).env.exit_status == Some(ExitStatus::Trapped),
            env_eq_but_exit(final (self).env, old(self).env),
    {
        self.burn_gas(100);
        self.env.exit_status = Some(ExitStatus::Trapped);
    }
    /// CALLCODE: deliberately stubbed; the machine charges the base gas
    /// and traps.
    pub fn callcode(&mut self)
        requires
            old(self).wf(),
        ensures
            final (self).wf(),
            frame_stack_gas_env(*old(self), *final (self)),
            final (self).stack@ == old(self).stack@,
            final (self).gas_used == spec_burn(old(self).gas_used, 100),
            final (self).env.exit_status == Some(ExitStatus::Trapped),
            env_eq_but_exit(final (self).env, old(self).env),
    {
        self.burn_gas(100);
        self.env.exit_status = Some(ExitStatus::Trapped);
    }
    /// DELEGATECALL: deliberately stubbed; the machine charges the base gas
    /// and traps.
    pub fn delegatecall(&mut self)
        requires
            old(self).wf(),
        ensures
            final (self).wf(),
            frame_stack_gas_env(*old(self), *final (self)),
            final (self).stack@ == old(self).stack@,
            final (self).gas_used == spec_burn(old(self).gas_used, 100),
            final (self).env.exit_status == Some(ExitStatus::Trapped),
            env_eq_but_exit(final (self).env, old(self).env),
    {
        self.burn_gas(100);
        self.env.exit_status = Some(ExitStatus::Trapped);
    }
    /// CREATE2: deliberately stubbed; the machine charges the base gas
    /// and traps.
    pub fn create2(&mut self)
        requires
            old(self).wf(),
        ensures
            final (self).wf(),
            frame_stack_gas_env(*old(self), *final (self)),
            final (self).stack@ == old(self).stack@,
            final (self).gas_used == spec_burn(old(self).gas_used, 32000),
            final (self).env.exit_status == Some(ExitStatus::Trapped),
            env_eq_but_exit(final (self).env, old(self).env),
    {
        self.burn_gas(32000);
        self.env.exit_status = Some(ExitStatus::Trapped);
    }
    /// STATICCALL: deliberately stubbed; the machine charges the base gas
    /// and traps.
    pub fn staticcall(&mut self)
        requires
            old(self).wf(),
        ensures
            final (self).wf(),
            frame_stack_gas_env(*old(self), *final (self)),
            final (self).stack@ == old(self).stack@,
            final (self).gas_used == spec_burn(old(self).gas_used, 100),
            final (self).env.exit_status == Some(ExitStatus::Trapped),
            env_eq_but_exit(final (self).env, old(self).env),
    {
        self.burn_gas(100);
        self.env.exit_status = Some(ExitStatus::Trapped);
    }
    /// SELFDESTRUCT: deliberately stubbed; the machine charges the base gas
    /// and traps.
    pub fn selfdestruct(&mut self)
        requires
            old(self).wf(),
        ensures
            final (self).wf(),
            frame_stack_gas_env(*old(self), *final (self)),
            final (self).stack@ == old(self).stack@,
            final (self).gas_used == spec_burn(old(self).gas_used, 5000),
            final (self).env.exit_status == Some(ExitStatus::Trapped),
            env_eq_but_exit(final (self).env, old(self).env),
    {
        self.burn_gas(5000);
        self.env.exit_status = Some(ExitStatus::Trapped);
    }
    /// Prepares a fresh execution: sets the chain id and the contract's
    /// balance, as the host passes them in.
    pub fn _evm_init(&mut self, chain_id: u64, balance: u64)
        ensures
            final (self).chain_id.val() == chain_id,
            final (self).self_balance.val() == balance,
            final (self).stack@ == old(self).stack@,
            final (self).memory@ == old(self).memory@,
            final (self).gas_used == old(self).gas_used,
            final (self).gas_limit == old(self).gas_limit,
            final (self).program_counter == old(self).program_counter,
            final (self).code@ == old(self).code@,
            env_eq(final (self).env, old(self).env),
    {
        self.chain_id = Word::from_u64(chain_id);
        self.self_balance = Word::from_u64(balance);
    }

    /// Frames a call: the four big-endian selector bytes are put in
    /// front of the raw calldata.
    pub fn _evm_call(&mut self, selector: u32)
        ensures
            final (self).stack@ == old(self).stack@,
            final (self).memory@ == old(self).memory@,
            final (self).gas_used == old(self).gas_used,
            frame_core(*old(self), *final (self)),
            final (self).env.storage@ == old(self).env.storage@,
            final (self).env.logs@ == old(self).env.logs@,
            final (self).env.return_data@ == old(self).env.return_data@,
            final (self).env.exit_status == old(self).env.exit_status,
            final (self).env.call_data@.len() == old(self).env.call_data@.len() + 4,
            final (self).env.call_data@[0] == ((selector >> 24) & 0xff) as u8,
            final (self).env.call_data@[1] == ((selector >> 16) & 0xff) as u8,
            final (self).env.call_data@[2] == ((selector >> 8) & 0xff) as u8,
            final (self).env.call_data@[3] == (selector & 0xff) as u8,
            final (self).env.call_data@.skip(4) == old(self).env.call_data@,
    {
        let mut framed: Vec<u8> = Vec::new();
        framed.push(((selector >> 24) & 0xff) as u8);
        framed.push(((selector >> 16) & 0xff) as u8);
        framed.push(((selector >> 8) & 0xff) as u8);
        framed.push((selector & 0xff) as u8);
        let mut i: usize = 0;
        let n = self.env.call_data.len();
        while i < n
            invariant
                i <= n,
                n == self.env.call_data@.len(),
                framed@.len() == 4 + i,
                framed@.skip(4) == self.env.call_data@.take(i as int),
                framed@[0] == ((selector >> 24) & 0xff) as u8,
                framed@[1] == ((selector >> 16) & 0xff) as u8,
                framed@[2] == ((selector >> 8) & 0xff) as u8,
                framed@[3] == (selector & 0xff) as u8,
            decreases n - i,
        {
            proof {
                assert(self.env.call_data@.take(i + 1 as int).drop_last()
                    == self.env.call_data@.take(i as int));
                assert(framed@.push(self.env.call_data@[i as int]).skip(4) =~= framed@.skip(
                    4,
                ).push(self.env.call_data@[i as int]));
            }
            let b = self.env.call_data[i];
            framed.push(b);
            i = i + 1;
        }
        proof {
            assert(self.env.call_data@.take(n as int) == self.env.call_data@);
        }
        self.env.call_data = framed;
    }

    /// Closes an execution. Re-encoding the return data through an ABI
    /// into JSON is host-side work and stays outside the library, so the
    /// machine state passes through unchanged.
    pub fn _evm_post_exec(&mut self)
        ensures
            *final (self) == *old(self),
    {
    }

    /// Hands the dispatch loop the popped jump target as a 32-bit pc.
    pub fn _evm_pop_u32(&mut self) -> (r: u32)
        requires
            old(self).wf(),
            old(self).stack@.len() >= 1,
        ensures
            final (self).wf(),
            frame_stack_gas(*old(self), *final (self)),
            final (self).gas_used == old(self).gas_used,
            final (self).stack@ == old(self).stack@.drop_last(),
            r == old(self).stack@.last().val() % 0x1_0000_0000,
    {
        let w = self.pop_word();
        proof {
            lemma_word_low_u32(w);
        }
        (w.lo & 0xffff_ffff) as u32
    }

    /// Pushes a 32-bit value, widened to a word.
    pub fn _evm_push_u32(&mut self, x: u32)
        requires
            old(self).wf(),
            old(self).stack@.len() < 1024,
        ensures
            final (self).wf(),
            frame_stack_gas(*old(self), *final (self)),
            final (self).gas_used == old(self).gas_used,
            final (self).stack@ == old(self).stack@.push(final (self).stack@.last()),
            final (self).stack@.last().val() == x,
    {
        let r = Word::from_u64(x as u64);
        self.push_word(r);
    }

    /// Maintains the precise program counter for the PC opcode.
    pub fn _evm_set_pc(&mut self, pc: u32)
        ensures
            final (self).program_counter == pc,
            final (self).stack@ == old(self).stack@,
            final (self).memory@ == old(self).memory@,
            final (self).gas_used == old(self).gas_used,
            final (self).gas_limit == old(self).gas_limit,
            final (self).code@ == old(self).code@,
            final (self).chain_id == old(self).chain_id,
            final (self).self_balance == old(self).self_balance,
            env_eq(final (self).env, old(self).env),
    {
        self.program_counter = pc;
    }

    /// Charges the static gas cost the compiler put before an opcode.
    pub fn _evm_burn_gas(&mut self, gas: u32)
        ensures
            final (self).gas_used == spec_burn(old(self).gas_used, gas as u64),
            final (self).stack@ == old(self).stack@,
            frame_stack_gas(*old(self), *final (self)),
    {
        self.burn_gas(gas as u64);
    }
}

/// The low 32 bits of a word, by mask or by remainder.
proof fn lemma_word_low_u32(w: Word)
    ensures
        (w.lo & 0xffff_ffff) as nat == w.val() % 0x1_0000_0000,
{
    let l = w.lo;
    assert(l & 0xffff_ffff == l % 0x1_0000_0000) by (bit_vector);
    assert(w.val() % 0x1_0000_0000 == w.lo as nat % 0x1_0000_0000) by (nonlinear_arith)
        requires
            w.val() == w.hi as nat * 340282366920938463463374607431768211456 + w.lo as nat,
    ;
}

} // verus!
