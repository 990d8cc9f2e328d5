//! The bytecode-to-wasm compiler: lowers each EVM opcode to calls into
//! the runtime's exported helpers, synthesizes the dispatch loop that
//! carries EVM's dynamic jumps on wasm's structured control flow, and
//! merges the result into the runtime module.
use vstd::prelude::*;
use vstd::string::StringSliceAdditionalSpecFns;

use crate::analyze::Analysis;
use crate::decode::Program;
use crate::opcode::{base_gas, helper_name, is_push, is_terminator, push_helper_name, push_imm_len};
use crate::wasm::{find_export, merge, spec_leb, FuncType, WasmModule};
use crate::CompileError;

verus! {

/// What the compiler is asked to weave in: precise gas accounting,
/// precise program-counter maintenance, and the chain id the module is
/// built for.
pub struct CompilerConfig {
    pub gas_accounting: bool,
    pub program_counter: bool,
    pub chain_id: u64,
}

impl CompilerConfig {
    /// Builds a configuration.
    pub fn new(gas_accounting: bool, program_counter: bool, chain_id: u64) -> (r: CompilerConfig)
        ensures
            r.gas_accounting == gas_accounting,
            r.program_counter == program_counter,
            r.chain_id == chain_id,
    {
        CompilerConfig { gas_accounting, program_counter, chain_id }
    }
}

/// The decimal value of a digit string.
pub open spec fn spec_dec_val(s: Seq<u8>) -> nat
    decreases s.len(),
{
    if s.len() == 0 {
        0
    } else {
        spec_dec_val(s.drop_last()) * 10 + (s.last() - 0x30) as nat
    }
}

/// True when every byte is an ASCII decimal digit.
pub open spec fn all_digits(s: Seq<u8>) -> bool {
    forall|i: int| 0 <= i < s.len() ==> 0x30 <= #[trigger] s[i] <= 0x39
}

/// The ASCII bytes of the mainnet network name.
pub open spec fn mainnet_bytes() -> Seq<u8> {
    seq![0x6du8, 0x61u8, 0x69u8, 0x6eu8, 0x6eu8, 0x65u8, 0x74u8]
}

/// The ASCII bytes of the testnet network name.
pub open spec fn testnet_bytes() -> Seq<u8> {
    seq![0x74u8, 0x65u8, 0x73u8, 0x74u8, 0x6eu8, 0x65u8, 0x74u8]
}

/// The ASCII bytes of the betanet network name.
pub open spec fn betanet_bytes() -> Seq<u8> {
    seq![0x62u8, 0x65u8, 0x74u8, 0x61u8, 0x6eu8, 0x65u8, 0x74u8]
}

/// Maps a chain name to its numeric chain id: the three known network
/// names map to their fixed ids, anything else must be a decimal number
/// that fits 64 bits.
pub fn parse_chain_id(name: &[u8]) -> (r: Result<u64, CompileError>)
    ensures
        name@ == mainnet_bytes() ==> r == Ok::<u64, CompileError>(1313161554u64),
        name@ == testnet_bytes() ==> r == Ok::<u64, CompileError>(1313161555u64),
        name@ == betanet_bytes() ==> r == Ok::<u64, CompileError>(1313161556u64),
        match r {
            Ok(v) => name@ == mainnet_bytes() || name@ == testnet_bytes() || name@
                == betanet_bytes() || (name@.len() > 0 && all_digits(name@) && v == spec_dec_val(
                name@,
            )),
            Err(e) => {
                &&& e == CompileError::ConfigError
                &&& name@ != mainnet_bytes()
                &&& name@ != testnet_bytes()
                &&& name@ != betanet_bytes()
                &&& (name@.len() == 0 || !all_digits(name@) || spec_dec_val(name@) > u64::MAX)
            },
        },
{
    let mainnet: [u8; 7] = [0x6d, 0x61, 0x69, 0x6e, 0x6e, 0x65, 0x74];
    let testnet: [u8; 7] = [0x74, 0x65, 0x73, 0x74, 0x6e, 0x65, 0x74];
    let betanet: [u8; 7] = [0x62, 0x65, 0x74, 0x61, 0x6e, 0x65, 0x74];
    if crate::wasm::bytes_eq(name, mainnet.as_slice()) {
        proof {
            assert(mainnet@ =~= mainnet_bytes());
        }
        return Ok(1313161554);
    }
    if crate::wasm::bytes_eq(name, testnet.as_slice()) {
        proof {
            assert(testnet@ =~= testnet_bytes());
        }
        return Ok(1313161555);
    }
    if crate::wasm::bytes_eq(name, betanet.as_slice()) {
        proof {
            assert(betanet@ =~= betanet_bytes());
        }
        return Ok(1313161556);
    }
    proof {
        assert(mainnet@ =~= mainnet_bytes());
        assert(testnet@ =~= testnet_bytes());
        assert(betanet@ =~= betanet_bytes());
    }
    if name.len() == 0 {
        return Err(CompileError::ConfigError);
    }
    let mut v: u64 = 0;
    let mut i: usize = 0;
    while i < name.len()
        invariant
            i <= name@.len(),
            name@ != mainnet_bytes(),
            name@ != testnet_bytes(),
            name@ != betanet_bytes(),
            name@.len() > 0,
            all_digits(name@.take(i as int)),
            v == spec_dec_val(name@.take(i as int)),
            spec_dec_val(name@.take(i as int)) <= u64::MAX,
        decreases name@.len() - i,
    {
        let b = name[i];
        proof {
            assert(name@.take(i + 1 as int).drop_last() == name@.take(i as int));
            assert(name@.take(i + 1 as int).last() == name@[i as int]);
        }
        if b < 0x30 || b > 0x39 {
            proof {
                assert(!all_digits(name@)) by {
                    assert(name@[i as int] == b);
                }
            }
            return Err(CompileError::ConfigError);
        }
        let d = (b - 0x30) as u64;
        if v > (u64::MAX - d) / 10 {
            proof {
                lemma_dec_prefix_monotonic(name@, i + 1 as int);
            }
            return Err(CompileError::ConfigError);
        }
        v = v * 10 + d;
        i = i + 1;
    }
    proof {
        assert(name@.take(name@.len() as int) == name@);
    }
    Ok(v)
}

/// A longer digit string never has a smaller value.
proof fn lemma_dec_prefix_monotonic(s: Seq<u8>, i: int)
    requires
        0 <= i <= s.len(),
    ensures
        spec_dec_val(s) >= spec_dec_val(s.take(i)),
    decreases s.len() - i,
{
    if i == s.len() {
        assert(s.take(i) =~= s);
    } else {
        lemma_dec_prefix_monotonic(s, i + 1);
        assert(s.take(i + 1).drop_last() == s.take(i));
        assert(spec_dec_val(s.take(i + 1)) == spec_dec_val(s.take(i)) * 10 + (s.take(
            i + 1,
        ).last() - 0x30) as nat);
        assert(spec_dec_val(s.take(i)) * 10 >= spec_dec_val(s.take(i))) by (nonlinear_arith)
            requires
                spec_dec_val(s.take(i)) >= 0,
        ;
    }
}


/// Appends one `call` instruction.
fn emit_call(out: &mut Vec<u8>, idx: u32) {
    out.push(0x10);
    let mut lenb = crate::wasm::leb_encode(idx);
    out.append(&mut lenb);
}

/// Appends one `i32.const`, padded to the full five-byte signed LEB128
/// form, which wasm accepts for any value.
fn emit_i32_const(out: &mut Vec<u8>, v: u32) {
    out.push(0x41);
    let mut k: usize = 0;
    while k < 4
        decreases 4 - k,
    {
        out.push((((v >> (7 * k as u32)) & 0x7f) | 0x80) as u8);
        k = k + 1;
    }
    let top = ((v >> 28) & 0x0f) as u8;
    if v >> 31 != 0 {
        out.push(top | 0x70);
    } else {
        out.push(top);
    }
}

/// Appends one `i64.const`, padded to the full ten-byte signed LEB128
/// form, which wasm accepts for any value.
fn emit_i64_const(out: &mut Vec<u8>, v: u64) {
    out.push(0x42);
    let mut k: usize = 0;
    while k < 9
        decreases 9 - k,
    {
        out.push((((v >> (7 * k as u32)) & 0x7f) | 0x80) as u8);
        k = k + 1;
    }
    if v >> 63 != 0 {
        out.push(0x7f);
    } else {
        out.push(0x00);
    }
}

/// Appends `local.get` of the given local.
fn emit_local_get(out: &mut Vec<u8>, idx: u32) {
    out.push(0x20);
    let mut lenb = crate::wasm::leb_encode(idx);
    out.append(&mut lenb);
}

/// Appends `local.set` of the given local.
fn emit_local_set(out: &mut Vec<u8>, idx: u32) {
    out.push(0x21);
    let mut lenb = crate::wasm::leb_encode(idx);
    out.append(&mut lenb);
}

/// Appends `br` to the given relative depth.
fn emit_br(out: &mut Vec<u8>, depth: u32) {
    out.push(0x0c);
    let mut lenb = crate::wasm::leb_encode(depth);
    out.append(&mut lenb);
}

/// True when the runtime exports a function under `name`.
pub open spec fn has_function_export(exports: Seq<crate::wasm::Export>, name: Seq<u8>) -> bool {
    exists|j: int|
        0 <= j < exports.len() && (#[trigger] exports[j]).name@ == name && exports[j].kind == 0
}

/// Copies a byte slice.
fn slice_to_bytes(s: &[u8]) -> (r: Vec<u8>)
    ensures
        r@ == s@,
{
    let mut out: Vec<u8> = Vec::new();
    let mut i: usize = 0;
    while i < s.len()
        invariant
            i <= s@.len(),
            out@ == s@.take(i as int),
        decreases s@.len() - i,
    {
        proof {
            assert(s@.take(i + 1 as int).drop_last() == s@.take(i as int));
        }
        out.push(s[i]);
        i = i + 1;
    }
    proof {
        assert(s@.take(s@.len() as int) == s@);
    }
    out
}

/// Looks up the runtime export a lowered opcode calls; a miss reports
/// the symbol that is absent.
fn resolve(runtime: &WasmModule, name: &str) -> (r: Result<u32, CompileError>)
    ensures
        match r {
            Ok(_) => true,
            Err(e) => match e {
                CompileError::RuntimeMissingSymbol(missing) => missing@ == name.spec_bytes()
                    && !has_function_export(runtime.exports@, missing@),
                _ => false,
            },
        },
{
    match find_export(runtime, name.as_bytes()) {
        Some(idx) => Ok(idx),
        None => Err(CompileError::RuntimeMissingSymbol(slice_to_bytes(name.as_bytes()))),
    }
}

/// The 64-bit big-endian chunk `c` (0 naming the least significant) of a
/// PUSH immediate.
fn chunk64(imm: &Vec<u8>, c: usize) -> (r: u64)
    requires
        imm@.len() <= 32,
        c < 4,
    ensures
        r == crate::word_bytes::be_val(
            imm@.subrange(
                (if imm@.len() >= 8 * c + 8 {
                    imm@.len() - 8 * c - 8
                } else {
                    0int
                }),
                (if imm@.len() >= 8 * c {
                    imm@.len() - 8 * c
                } else {
                    0int
                }),
            ),
        ),
{
    let n = imm.len();
    let hi_excl: usize = if n >= 8 * c {
        n - 8 * c
    } else {
        0
    };
    let lo_incl: usize = if hi_excl >= 8 {
        hi_excl - 8
    } else {
        0
    };
    let v = crate::word_bytes::acc_be16(imm.as_slice(), lo_incl, hi_excl);
    proof {
        let sub = imm@.subrange(lo_incl as int, hi_excl as int);
        crate::word_bytes::lemma_be_val_bound(sub);
        reveal_with_fuel(crate::word_bytes::pow256, 10);
        assert(crate::word_bytes::pow256(sub.len()) <= 0x1_0000_0000_0000_0000) by {
            crate::word_bytes::lemma_pow256_monotonic(sub.len(), 8);
        }
    }
    v as u64
}

/// Lowers the pc lookup of a dynamic jump: a comparison chain over the
/// jump table that stores the matching block id and re-enters the
/// dispatch loop; an unmatched pc falls through to a trap.
fn emit_jump_lookup(
    out: &mut Vec<u8>,
    a: &Analysis,
    depth_to_loop: u32,
) -> (r: Result<(), CompileError>)
    requires
        depth_to_loop <= 2000000,
    ensures
        r is Err ==> r == Err::<(), CompileError>(CompileError::MergeError) && exists|t: int|
            0 <= t < a.jump_table@.len() && (#[trigger] a.jump_table@[t]).block > u32::MAX,
{
    let mut t: usize = 0;
    let nt = a.jump_table.len();
    while t < nt
        invariant
            nt == a.jump_table@.len(),
            depth_to_loop <= 2000000,
        decreases nt - t,
    {
        let e = a.jump_table[t];
        if e.block > u32::MAX as usize {
            return Err(CompileError::MergeError);
        }
        emit_local_get(out, 1);
        emit_i32_const(out, e.pc);
        out.push(0x46);  // i32.eq
        out.push(0x04);  // if
        out.push(0x40);  // blocktype: empty
        emit_i32_const(out, e.block as u32);
        emit_local_set(out, 0);
        emit_br(out, depth_to_loop + 1);
        out.push(0x0b);  // end if
        t = t + 1;
    }
    out.push(0x00);  // unreachable: no JUMPDEST at that pc
    Ok(())
}

/// Lowers one instruction into calls on the runtime's helpers, with the
/// optional gas and pc instrumentation before it.
fn lower_instr(
    out: &mut Vec<u8>,
    instr: &crate::decode::Instr,
    a: &Analysis,
    runtime: &WasmModule,
    config: &CompilerConfig,
    depth_to_loop: u32,
) -> (r: Result<(), CompileError>)
    requires
        depth_to_loop <= 1000000,
    ensures
        match r {
            Ok(_) => true,
            Err(e) => match e {
                CompileError::RuntimeMissingSymbol(missing) => !has_function_export(
                    runtime.exports@,
                    missing@,
                ),
                CompileError::MergeError => exists|t: int|
                    0 <= t < a.jump_table@.len() && (#[trigger] a.jump_table@[t]).block
                        > u32::MAX,
                CompileError::UnsupportedOpcode(o, pcv) => o == instr.op && pcv == instr.pc
                    && instr.imm@.len() != crate::opcode::spec_push_imm_len(instr.op),
                _ => false,
            },
        },
{
    let op = instr.op;
    // Every runtime helper charges its own base cost when it runs, so
    // the compiler charges through `_evm_burn_gas` only for the two
    // opcodes no helper covers: JUMPDEST (cost 1, its helper burns
    // nothing) and JUMPI (cost 10, synthesized with no helper of its
    // own).
    if config.gas_accounting && (op == 0x5b || op == 0x57) {
        let burn = match resolve(runtime, "_evm_burn_gas") {
            Ok(i) => i,
            Err(e) => {
                return Err(e);
            },
        };
        emit_i32_const(out, base_gas(op));
        emit_call(out, burn);
    }
    if config.program_counter {
        let set_pc = match resolve(runtime, "_evm_set_pc") {
            Ok(i) => i,
            Err(e) => {
                return Err(e);
            },
        };
        emit_i32_const(out, instr.pc);
        emit_call(out, set_pc);
    }
    if op == 0x5b {
        // JUMPDEST: a landing pad only.
        return Ok(());
    }
    if is_push(op) {
        let n = push_imm_len(op);
        if instr.imm.len() != n as usize {
            return Err(CompileError::UnsupportedOpcode(instr.op, instr.pc));
        }
        let helper = match resolve(runtime, push_helper_name(n)) {
            Ok(i) => i,
            Err(e) => {
                return Err(e);
            },
        };
        if n <= 4 {
            emit_i32_const(out, chunk64(&instr.imm, 0) as u32);
        } else if n <= 8 {
            emit_i64_const(out, chunk64(&instr.imm, 0));
        } else if n <= 16 {
            emit_i64_const(out, chunk64(&instr.imm, 0));
            emit_i64_const(out, chunk64(&instr.imm, 1));
        } else if n <= 24 {
            emit_i64_const(out, chunk64(&instr.imm, 0));
            emit_i64_const(out, chunk64(&instr.imm, 1));
            if n <= 20 {
                emit_i32_const(out, chunk64(&instr.imm, 2) as u32);
            } else {
                emit_i64_const(out, chunk64(&instr.imm, 2));
            }
        } else {
            emit_i64_const(out, chunk64(&instr.imm, 0));
            emit_i64_const(out, chunk64(&instr.imm, 1));
            emit_i64_const(out, chunk64(&instr.imm, 2));
            if n <= 28 {
                emit_i32_const(out, chunk64(&instr.imm, 3) as u32);
            } else {
                emit_i64_const(out, chunk64(&instr.imm, 3));
            }
        }
        emit_call(out, helper);
        return Ok(());
    }
    if op == 0x56 {
        // JUMP: charge gas in the runtime, pop the target, look it up,
        // re-enter the dispatch loop.
        let jump_helper = match resolve(runtime, "jump") {
            Ok(i) => i,
            Err(e) => {
                return Err(e);
            },
        };
        let pop_u32 = match resolve(runtime, "_evm_pop_u32") {
            Ok(i) => i,
            Err(e) => {
                return Err(e);
            },
        };
        emit_call(out, jump_helper);
        emit_call(out, pop_u32);
        emit_local_set(out, 1);
        return emit_jump_lookup(out, a, depth_to_loop);
    }
    if op == 0x57 {
        // JUMPI: pop the target then the condition; on a nonzero
        // condition branch like JUMP, else fall through.
        let pop_u32 = match resolve(runtime, "_evm_pop_u32") {
            Ok(i) => i,
            Err(e) => {
                return Err(e);
            },
        };
        emit_call(out, pop_u32);
        emit_local_set(out, 1);
        emit_call(out, pop_u32);
        out.push(0x04);  // if
        out.push(0x40);
        match emit_jump_lookup(out, a, depth_to_loop + 1) {
            Ok(()) => {},
            Err(e) => {
                return Err(e);
            },
        }
        out.push(0x0b);  // end if
        return Ok(());
    }
    // Every remaining opcode is one call on the runtime helper of the
    // same name; undefined bytes go to the trapping `invalid` helper.
    let helper = match resolve(runtime, helper_name(op)) {
        Ok(i) => i,
        Err(e) => {
            return Err(e);
        },
    };
    emit_call(out, helper);
    if is_terminator(op) {
        out.push(0x0f);  // return: the host sees the execution end
    }
    Ok(())
}

/// Compiles a decoded and analyzed program against a parsed runtime
/// module: synthesizes the dispatch-loop function over the basic blocks,
/// then merges it into the runtime. Everything the runtime exported
/// keeps its index and bytes; one function, one export and one data
/// segment holding the original bytecode are appended. A compile fails
/// only when a helper the program needs is not exported, the entrypoint
/// name is already taken, an index space is full, or the block count is
/// beyond what the dispatch can address.
#[verifier::rlimit(100)]
pub fn compile(
    p: &Program,
    a: &Analysis,
    runtime: WasmModule,
    config: &CompilerConfig,
    entry_name: Vec<u8>,
) -> (r: Result<WasmModule, CompileError>)
    requires
        runtime.wf(),
        p.wf(),
        crate::analyze::blocks_partition(
            p.instrs@.map_values(|i: crate::decode::Instr| i@),
            a.blocks@,
        ),
        crate::analyze::jump_table_ok(
            p.instrs@.map_values(|i: crate::decode::Instr| i@),
            a.blocks@,
            a.jump_table@,
        ),
    ensures
        r is Ok ==> ({
            let m = r.unwrap();
            &&& m.wf()
            &&& m.imports@ == runtime.imports@
            &&& m.table == runtime.table
            &&& m.memory == runtime.memory
            &&& m.global == runtime.global
            &&& m.start == runtime.start
            &&& m.element == runtime.element
            &&& forall|j: int| 0 <= j < runtime.types@.len() ==> m.types@[j] == runtime.types@[j]
            &&& m.functions@.len() == runtime.functions@.len() + 1
            &&& forall|j: int|
                0 <= j < runtime.functions@.len() ==> m.functions@[j] == runtime.functions@[j]
            &&& m.code@.len() == runtime.code@.len() + 1
            &&& forall|j: int| 0 <= j < runtime.code@.len() ==> m.code@[j] == runtime.code@[j]
            &&& m.exports@.len() == runtime.exports@.len() + 1
            &&& forall|j: int|
                0 <= j < runtime.exports@.len() ==> m.exports@[j] == runtime.exports@[j]
            &&& m.exports@.last().name@ == entry_name@
            &&& m.exports@.last().kind == 0
            &&& m.exports@.last().index == runtime.n_func_imports + runtime.functions@.len()
            &&& !crate::wasm::has_export_named(runtime.exports@, entry_name@)
            &&& m.data@.len() == runtime.data@.len() + 1
            &&& m.data@.last()@ == seq![0x00u8, 0x41u8, 0x00u8, 0x0bu8] + crate::wasm::spec_leb(
                p.code@.len() as nat,
            ) + p.code@
        }),
        match r {
            Ok(_) => true,
            Err(e) => match e {
                CompileError::MergeError => a.blocks@.len() > 1000000
                    || crate::wasm::has_export_named(runtime.exports@, entry_name@)
                    || runtime.n_func_imports + runtime.functions@.len() >= u32::MAX
                    || runtime.types@.len() >= u32::MAX,
                CompileError::RuntimeMissingSymbol(missing) => !has_function_export(
                    runtime.exports@,
                    missing@,
                ),
                _ => false,
            },
        },
{
    let ghost instrs = p.instrs@.map_values(|i: crate::decode::Instr| i@);
    proof {
        crate::decode::lemma_decode_records(p.code@, 0);
        assert forall|t: int| 0 <= t < instrs.len() implies (#[trigger] instrs[t]).imm.len()
            == crate::opcode::spec_push_imm_len(instrs[t].op) by {
            assert(crate::decode::wf_record(p.code@, crate::decode::spec_decode(p.code@)[t]));
        }
    }
    let nblocks = a.blocks.len();
    if nblocks > 1000000 {
        return Err(CompileError::MergeError);
    }
    let mut body: Vec<u8> = Vec::new();
    // One locals record: two i32 locals, the target block id and the
    // popped jump pc.
    body.push(0x01);
    body.push(0x02);
    body.push(0x7f);
    // The dispatch loop.
    body.push(0x03);
    body.push(0x40);
    let mut k: usize = 0;
    while k < nblocks + 1
        invariant
            nblocks <= 1000000,
        decreases nblocks + 1 - k,
    {
        body.push(0x02);  // block
        body.push(0x40);
        k = k + 1;
    }
    emit_local_get(&mut body, 0);
    body.push(0x0e);  // br_table
    let mut lenb = crate::wasm::leb_encode(nblocks as u32);
    body.append(&mut lenb);
    let mut t: usize = 0;
    while t < nblocks
        decreases nblocks - t,
    {
        let mut tb = crate::wasm::leb_encode(t as u32);
        body.append(&mut tb);
        t = t + 1;
    }
    let mut defb = crate::wasm::leb_encode(nblocks as u32);
    body.append(&mut defb);
    body.push(0x0b);  // end of the dispatch block
    let mut kb: usize = 0;
    while kb < nblocks
        invariant
            instrs == p.instrs@.map_values(|i: crate::decode::Instr| i@),
            nblocks == a.blocks@.len(),
            nblocks <= 1000000,
            instrs.len() == p.instrs@.len(),
            crate::analyze::blocks_partition(instrs, a.blocks@),
            crate::analyze::jump_table_ok(instrs, a.blocks@, a.jump_table@),
            forall|t: int|
                0 <= t < instrs.len() ==> (#[trigger] instrs[t]).imm.len()
                    == crate::opcode::spec_push_imm_len(instrs[t].op),
        decreases nblocks - kb,
    {
        let blk = a.blocks[kb];
        let depth_to_loop: u32 = (nblocks - kb) as u32;
        let mut i = blk.first;
        while i < blk.end
            invariant
                instrs == p.instrs@.map_values(|i: crate::decode::Instr| i@),
                blk.end <= p.instrs@.len(),
                nblocks == a.blocks@.len(),
                nblocks <= 1000000,
                kb < nblocks,
                depth_to_loop == nblocks - kb,
                crate::analyze::jump_table_ok(instrs, a.blocks@, a.jump_table@),
                forall|t: int|
                    0 <= t < instrs.len() ==> (#[trigger] instrs[t]).imm.len()
                        == crate::opcode::spec_push_imm_len(instrs[t].op),
            decreases blk.end - i,
        {
            proof {
                assert(instrs[i as int] == p.instrs@[i as int]@);
            }
            match lower_instr(&mut body, &p.instrs[i], a, &runtime, config, depth_to_loop) {
                Ok(()) => {},
                Err(e) => {
                    proof {
                        lemma_lower_errors_refuted(instrs, a.blocks@, a.jump_table@, i as int);
                    }
                    return Err(e);
                },
            }
            i = i + 1;
        }
        // A block cut only by a following JUMPDEST falls through; one
        // that runs off the end of the code halts like STOP.
        if kb == nblocks - 1 {
            let is_fall = if blk.end == blk.first {
                true
            } else {
                let last_op = p.instrs[blk.end - 1].op;
                !is_terminator(last_op)
            };
            if is_fall {
                let stop_helper = match resolve(&runtime, "stop") {
                    Ok(idx) => idx,
                    Err(e) => {
                        return Err(e);
                    },
                };
                emit_call(&mut body, stop_helper);
                body.push(0x0f);  // return
            }
        }
        body.push(0x0b);  // end of this block's label
        kb = kb + 1;
    }
    body.push(0x00);  // unreachable: a jump to a pc with no JUMPDEST
    body.push(0x0b);  // end of the dispatch loop
    body.push(0x0b);  // end of the function body
    // The contract entrypoint takes nothing and returns nothing; the
    // runtime carries all state.
    let func_type = FuncType { params: Vec::new(), results: Vec::new() };
    // The original bytecode rides along as one data segment at the
    // code base the runtime reserves at offset zero of its own region.
    let mut data_seg: Vec<u8> = Vec::new();
    data_seg.push(0x00);  // active segment, memory zero
    data_seg.push(0x41);  // i32.const 0
    data_seg.push(0x00);
    data_seg.push(0x0b);  // end of the offset expression
    let mut lenc = crate::wasm::leb_encode(p.code.len() as u32);
    data_seg.append(&mut lenc);
    let mut codec = clone_bytes(&p.code);
    data_seg.append(&mut codec);
    proof {
        assert(data_seg@ =~= seq![0x00u8, 0x41u8, 0x00u8, 0x0bu8] + crate::wasm::spec_leb(
            p.code@.len() as nat,
        ) + p.code@);
    }
    merge(runtime, func_type, body, entry_name, data_seg)
}

/// Inside a well-formed program with a sound jump table, the per-opcode
/// failure shapes of the lowering cannot arise: every jump-table block
/// index is addressable and every immediate has its declared length.
proof fn lemma_lower_errors_refuted(
    instrs: Seq<crate::decode::InstrModel>,
    bs: Seq<crate::analyze::Block>,
    jt: Seq<crate::analyze::JumpEntry>,
    i: int,
)
    requires
        crate::analyze::jump_table_ok(instrs, bs, jt),
        bs.len() <= 1000000,
        0 <= i < instrs.len(),
        forall|t: int|
            0 <= t < instrs.len() ==> (#[trigger] instrs[t]).imm.len()
                == crate::opcode::spec_push_imm_len(instrs[t].op),
    ensures
        forall|t: int| 0 <= t < jt.len() ==> (#[trigger] jt[t]).block <= u32::MAX,
        instrs[i].imm.len() == crate::opcode::spec_push_imm_len(instrs[i].op),
{
    assert forall|t: int| 0 <= t < jt.len() implies (#[trigger] jt[t]).block <= u32::MAX by {
        assert((jt[t]).block < bs.len());
    }
}

/// Copies a byte vector.
fn clone_bytes(v: &Vec<u8>) -> (r: Vec<u8>)
    ensures
        r@ == v@,
{
    let mut out: Vec<u8> = Vec::new();
    let mut i: usize = 0;
    while i < v.len()
        invariant
            i <= v@.len(),
            out@ == v@.take(i as int),
        decreases v@.len() - i,
    {
        proof {
            assert(v@.take(i + 1 as int).drop_last() == v@.take(i as int));
        }
        out.push(v[i]);
        i = i + 1;
    }
    proof {
        assert(v@.take(v@.len() as int) == v@);
    }
    out
}

} // verus!
