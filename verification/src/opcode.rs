//! Classification of the one-byte EVM opcode space: how many immediate
//! bytes an opcode carries, which opcodes end a basic block, which byte
//! values are defined, the static base gas cost of each opcode, and the
//! name of the runtime helper that implements it.
use vstd::prelude::*;

verus! {

/// The byte value of the JUMPDEST marker opcode, the only legal landing
/// site of an EVM jump.
pub const JUMPDEST: u8 = 0x5b;
/// The byte value of JUMP.
pub const JUMP: u8 = 0x56;
/// The byte value of JUMPI.
pub const JUMPI: u8 = 0x57;

/// How many immediate bytes follow the opcode byte: `n` for PUSHn
/// (0x60 ..= 0x7f), zero for every other opcode.
pub open spec fn spec_push_imm_len(op: u8) -> u8 {
    if 0x60 <= op && op <= 0x7f {
        (op - 0x5f) as u8
    } else {
        0
    }
}

#[verifier::when_used_as_spec(spec_push_imm_len)]
pub fn push_imm_len(op: u8) -> (n: u8)
    ensures
        n == spec_push_imm_len(op),
{
    if 0x60 <= op && op <= 0x7f {
        op - 0x5f
    } else {
        0
    }
}

/// True of the PUSH1 ..= PUSH32 opcodes, the only ones that carry an
/// immediate.
pub open spec fn spec_is_push(op: u8) -> bool {
    0x60 <= op && op <= 0x7f
}

#[verifier::when_used_as_spec(spec_is_push)]
pub fn is_push(op: u8) -> (r: bool)
    ensures
        r == spec_is_push(op),
{
    0x60 <= op && op <= 0x7f
}

/// True of the opcodes after which control never falls through to the next
/// instruction: STOP, JUMP, JUMPI, RETURN, REVERT, INVALID and SELFDESTRUCT.
/// JUMPI is included because the block must end there for the dispatch to
/// take over; its fallthrough edge is recorded on the block instead.
pub open spec fn spec_is_terminator(op: u8) -> bool {
    op == 0x00 || op == 0x56 || op == 0x57 || op == 0xf3 || op == 0xfd || op == 0xfe || op == 0xff
}

#[verifier::when_used_as_spec(spec_is_terminator)]
pub fn is_terminator(op: u8) -> (r: bool)
    ensures
        r == spec_is_terminator(op),
{
    op == 0x00 || op == 0x56 || op == 0x57 || op == 0xf3 || op == 0xfd || op == 0xfe || op == 0xff
}

/// True of every byte value that names a defined EVM opcode; the decoder
/// keeps undefined bytes and the compiler lowers them to the runtime's
/// `invalid` helper.
pub open spec fn spec_is_defined(op: u8) -> bool {
    (op <= 0x0b) || (0x10 <= op && op <= 0x1d) || op == 0x20 || (0x30 <= op && op <= 0x3f) || (0x40
        <= op && op <= 0x48) || (0x50 <= op && op <= 0x5b) || (0x60 <= op && op <= 0xa4) || op
        == 0xf0 || op == 0xf1 || op == 0xf2 || op == 0xf3 || op == 0xf4 || op == 0xf5 || op == 0xfa
        || op == 0xfd || op == 0xfe || op == 0xff
}

#[verifier::when_used_as_spec(spec_is_defined)]
pub fn is_defined(op: u8) -> (r: bool)
    ensures
        r == spec_is_defined(op),
{
    (op <= 0x0b) || (0x10 <= op && op <= 0x1d) || op == 0x20 || (0x30 <= op && op <= 0x3f) || (0x40
        <= op && op <= 0x48) || (0x50 <= op && op <= 0x5b) || (0x60 <= op && op <= 0xa4) || op
        == 0xf0 || op == 0xf1 || op == 0xf2 || op == 0xf3 || op == 0xf4 || op == 0xf5 || op == 0xfa
        || op == 0xfd || op == 0xfe || op == 0xff
}

/// The static base gas cost the compiler charges before an opcode when
/// precise gas accounting is enabled; dynamic parts are charged inside the
/// runtime helpers.
pub open spec fn spec_base_gas(op: u8) -> u32 {
    if op == 0x00 {
        0
    } else if op == 0x01 || op == 0x03 {
        3
    } else if op == 0x02 || op == 0x04 || op == 0x05 || op == 0x06 || op == 0x07 {
        5
    } else if op == 0x08 || op == 0x09 {
        8
    } else if op == 0x0a {
        10
    } else if op == 0x0b {
        5
    } else if 0x10 <= op && op <= 0x1d {
        3
    } else if op == 0x20 {
        30
    } else if op == 0x31 || op == 0x3b || op == 0x3c || op == 0x3f {
        100
    } else if op == 0x35 || op == 0x37 || op == 0x39 || op == 0x3e {
        3
    } else if 0x30 <= op && op <= 0x3f {
        2
    } else if op == 0x40 {
        20
    } else if op == 0x47 {
        5
    } else if 0x40 <= op && op <= 0x48 {
        2
    } else if op == 0x50 {
        2
    } else if op == 0x51 || op == 0x52 || op == 0x53 {
        3
    } else if op == 0x54 || op == 0x55 {
        100
    } else if op == 0x56 {
        8
    } else if op == 0x57 {
        10
    } else if op == 0x58 || op == 0x59 || op == 0x5a {
        2
    } else if op == 0x5b {
        1
    } else if 0x60 <= op && op <= 0x9f {
        3
    } else if op == 0xa0 {
        375
    } else if op == 0xa1 {
        750
    } else if op == 0xa2 {
        1125
    } else if op == 0xa3 {
        1500
    } else if op == 0xa4 {
        1875
    } else if op == 0xf0 || op == 0xf5 {
        32000
    } else if op == 0xf1 || op == 0xf2 || op == 0xf4 || op == 0xfa {
        100
    } else if op == 0xf3 || op == 0xfd || op == 0xfe {
        0
    } else if op == 0xff {
        5000
    } else {
        0
    }
}

#[verifier::when_used_as_spec(spec_base_gas)]
pub fn base_gas(op: u8) -> (g: u32)
    ensures
        g == spec_base_gas(op),
{
    if op == 0x00 {
        0
    } else if op == 0x01 || op == 0x03 {
        3
    } else if op == 0x02 || op == 0x04 || op == 0x05 || op == 0x06 || op == 0x07 {
        5
    } else if op == 0x08 || op == 0x09 {
        8
    } else if op == 0x0a {
        10
    } else if op == 0x0b {
        5
    } else if 0x10 <= op && op <= 0x1d {
        3
    } else if op == 0x20 {
        30
    } else if op == 0x31 || op == 0x3b || op == 0x3c || op == 0x3f {
        100
    } else if op == 0x35 || op == 0x37 || op == 0x39 || op == 0x3e {
        3
    } else if 0x30 <= op && op <= 0x3f {
        2
    } else if op == 0x40 {
        20
    } else if op == 0x47 {
        5
    } else if 0x40 <= op && op <= 0x48 {
        2
    } else if op == 0x50 {
        2
    } else if op == 0x51 || op == 0x52 || op == 0x53 {
        3
    } else if op == 0x54 || op == 0x55 {
        100
    } else if op == 0x56 {
        8
    } else if op == 0x57 {
        10
    } else if op == 0x58 || op == 0x59 || op == 0x5a {
        2
    } else if op == 0x5b {
        1
    } else if 0x60 <= op && op <= 0x9f {
        3
    } else if op == 0xa0 {
        375
    } else if op == 0xa1 {
        750
    } else if op == 0xa2 {
        1125
    } else if op == 0xa3 {
        1500
    } else if op == 0xa4 {
        1875
    } else if op == 0xf0 || op == 0xf5 {
        32000
    } else if op == 0xf1 || op == 0xf2 || op == 0xf4 || op == 0xfa {
        100
    } else if op == 0xf3 || op == 0xfd || op == 0xfe {
        0
    } else if op == 0xff {
        5000
    } else {
        0
    }
}

/// The export name of the runtime helper that implements an opcode. PUSH,
/// JUMP, JUMPI and JUMPDEST are synthesized by the compiler and do not go
/// through this table; every undefined byte maps to the trapping `invalid`
/// helper.
pub fn helper_name(op: u8) -> (name: &'static str) {
    match op {
        0x00 => "stop",
        0x01 => "add",
        0x02 => "mul",
        0x03 => "sub",
        0x04 => "div",
        0x05 => "sdiv",
        0x06 => "mod",
        0x07 => "smod",
        0x08 => "addmod",
        0x09 => "mulmod",
        0x0a => "exp",
        0x0b => "signextend",
        0x10 => "lt",
        0x11 => "gt",
        0x12 => "slt",
        0x13 => "sgt",
        0x14 => "eq",
        0x15 => "iszero",
        0x16 => "and",
        0x17 => "or",
        0x18 => "xor",
        0x19 => "not",
        0x1a => "byte",
        0x1b => "shl",
        0x1c => "shr",
        0x1d => "sar",
        0x20 => "sha3",
        0x30 => "address",
        0x31 => "balance",
        0x32 => "origin",
        0x33 => "caller",
        0x34 => "callvalue",
        0x35 => "calldataload",
        0x36 => "calldatasize",
        0x37 => "calldatacopy",
        0x38 => "codesize",
        0x39 => "codecopy",
        0x3a => "gasprice",
        0x3b => "extcodesize",
        0x3c => "extcodecopy",
        0x3d => "returndatasize",
        0x3e => "returndatacopy",
        0x3f => "extcodehash",
        0x40 => "blockhash",
        0x41 => "coinbase",
        0x42 => "timestamp",
        0x43 => "number",
        0x44 => "difficulty",
        0x45 => "gaslimit",
        0x46 => "chainid",
        0x47 => "selfbalance",
        0x48 => "basefee",
        0x50 => "pop",
        0x51 => "mload",
        0x52 => "mstore",
        0x53 => "mstore8",
        0x54 => "sload",
        0x55 => "sstore",
        0x58 => "pc",
        0x59 => "msize",
        0x5a => "gas",
        0x80 => "dup1",
        0x81 => "dup2",
        0x82 => "dup3",
        0x83 => "dup4",
        0x84 => "dup5",
        0x85 => "dup6",
        0x86 => "dup7",
        0x87 => "dup8",
        0x88 => "dup9",
        0x89 => "dup10",
        0x8a => "dup11",
        0x8b => "dup12",
        0x8c => "dup13",
        0x8d => "dup14",
        0x8e => "dup15",
        0x8f => "dup16",
        0x90 => "swap1",
        0x91 => "swap2",
        0x92 => "swap3",
        0x93 => "swap4",
        0x94 => "swap5",
        0x95 => "swap6",
        0x96 => "swap7",
        0x97 => "swap8",
        0x98 => "swap9",
        0x99 => "swap10",
        0x9a => "swap11",
        0x9b => "swap12",
        0x9c => "swap13",
        0x9d => "swap14",
        0x9e => "swap15",
        0x9f => "swap16",
        0xa0 => "log0",
        0xa1 => "log1",
        0xa2 => "log2",
        0xa3 => "log3",
        0xa4 => "log4",
        0xf0 => "create",
        0xf1 => "call",
        0xf2 => "callcode",
        0xf3 => "return",
        0xf4 => "delegatecall",
        0xf5 => "create2",
        0xfa => "staticcall",
        0xfd => "revert",
        0xfe => "invalid",
        0xff => "selfdestruct",
        _ => "invalid",
    }
}

/// The export name of the PUSHn runtime helper for an immediate of `n`
/// bytes, 1 <= n <= 32.
pub fn push_helper_name(n: u8) -> (name: &'static str)
    requires
        1 <= n <= 32,
{
    match n {
        1 => "push1",
        2 => "push2",
        3 => "push3",
        4 => "push4",
        5 => "push5",
        6 => "push6",
        7 => "push7",
        8 => "push8",
        9 => "push9",
        10 => "push10",
        11 => "push11",
        12 => "push12",
        13 => "push13",
        14 => "push14",
        15 => "push15",
        16 => "push16",
        17 => "push17",
        18 => "push18",
        19 => "push19",
        20 => "push20",
        21 => "push21",
        22 => "push22",
        23 => "push23",
        24 => "push24",
        25 => "push25",
        26 => "push26",
        27 => "push27",
        28 => "push28",
        29 => "push29",
        30 => "push30",
        31 => "push31",
        _ => "push32",
    }
}

} // verus!
