//! Bytecode decoder: hex text to bytes, Solidity metadata stripping, and
//! disassembly of a byte blob into the ordered instruction stream.
use vstd::prelude::*;

use crate::opcode::{push_imm_len, spec_push_imm_len};
use crate::CompileError;

verus! {

/// One decoded instruction: the byte offset `pc` of the opcode byte, the
/// opcode byte itself, the immediate carried by a PUSHn opcode (always
/// `push_imm_len(op)` bytes, zero padded when the code was truncated), and
/// `size`, the number of bytecode bytes the record actually occupies.
pub struct Instr {
    pub pc: u32,
    pub op: u8,
    pub imm: Vec<u8>,
    pub size: u8,
}

/// The mathematical shape of an instruction record.
pub ghost struct InstrModel {
    pub pc: int,
    pub op: u8,
    pub imm: Seq<u8>,
    pub size: int,
}

impl View for Instr {
    type V = InstrModel;

    open spec fn view(&self) -> InstrModel {
        InstrModel { pc: self.pc as int, op: self.op, imm: self.imm@, size: self.size as int }
    }
}

/// A decoded program: the instruction stream plus the original bytes, which
/// the emitted module embeds for CODECOPY and CODESIZE.
pub struct Program {
    pub instrs: Vec<Instr>,
    pub code: Vec<u8>,
}

/// True of the ASCII whitespace bytes the hex reader skips.
pub open spec fn spec_is_ws(b: u8) -> bool {
    b == 0x20 || b == 0x09 || b == 0x0a || b == 0x0d
}

/// True of the ASCII bytes that are hexadecimal digits.
pub open spec fn spec_is_hex_digit(b: u8) -> bool {
    (0x30 <= b && b <= 0x39) || (0x41 <= b && b <= 0x46) || (0x61 <= b && b <= 0x66)
}

/// The value of an ASCII hexadecimal digit.
pub open spec fn spec_hex_val(b: u8) -> u8 {
    if 0x30 <= b && b <= 0x39 {
        (b - 0x30) as u8
    } else if 0x41 <= b && b <= 0x46 {
        (b - 0x41 + 10) as u8
    } else if 0x61 <= b && b <= 0x66 {
        (b - 0x61 + 10) as u8
    } else {
        0
    }
}

/// The input with every whitespace byte removed, in order.
pub open spec fn spec_strip_ws(s: Seq<u8>) -> Seq<u8>
    decreases s.len(),
{
    if s.len() == 0 {
        Seq::empty()
    } else if spec_is_ws(s.last()) {
        spec_strip_ws(s.drop_last())
    } else {
        spec_strip_ws(s.drop_last()).push(s.last())
    }
}

/// The digit sequence with an optional leading `0x` or `0X` removed.
pub open spec fn spec_drop_hex_prefix(s: Seq<u8>) -> Seq<u8> {
    if s.len() >= 2 && s[0] == 0x30 && (s[1] == 0x78 || s[1] == 0x58) {
        s.skip(2)
    } else {
        s
    }
}

/// The bytes encoded by an even-length sequence of hex digits.
pub open spec fn spec_hex_bytes(s: Seq<u8>) -> Seq<u8> {
    Seq::new((s.len() / 2) as nat, |i: int| (spec_hex_val(s[2 * i]) * 16 + spec_hex_val(s[2 * i + 1])) as u8)
}

/// Decodes hexadecimal text into bytes: whitespace is skipped, a single
/// leading `0x` is allowed, and anything else that is not an even number of
/// hex digits is `BadHex`.
pub fn hex_to_bytes(input: &[u8]) -> (r: Result<Vec<u8>, CompileError>)
    ensures
        ({
            let digits = spec_drop_hex_prefix(spec_strip_ws(input@));
            match r {
                Ok(bytes) => (forall|i: int|
                    0 <= i < digits.len() ==> spec_is_hex_digit(#[trigger] digits[i])) && digits.len() % 2
                    == 0 && bytes@ == spec_hex_bytes(digits),
                Err(e) => e == CompileError::BadHex && !((forall|i: int|
                    0 <= i < digits.len() ==> spec_is_hex_digit(#[trigger] digits[i])) && digits.len() % 2
                    == 0),
            }
        }),
{
    let mut digits: Vec<u8> = Vec::new();
    let mut i: usize = 0;
    while i < input.len()
        invariant
            i <= input.len(),
            digits@ == spec_strip_ws(input@.take(i as int)),
        decreases input.len() - i,
    {
        let b = input[i];
        proof {
            assert(input@.take(i + 1 as int).drop_last() == input@.take(i as int));
            assert(input@.take(i + 1 as int).last() == b);
        }
        if !(b == 0x20 || b == 0x09 || b == 0x0a || b == 0x0d) {
            digits.push(b);
        }
        i = i + 1;
    }
    proof {
        assert(input@.take(input@.len() as int) == input@);
    }
    let mut start: usize = 0;
    if digits.len() >= 2 && digits[0] == 0x30 && (digits[1] == 0x78 || digits[1] == 0x58) {
        start = 2;
    }
    let ghost pure = spec_drop_hex_prefix(spec_strip_ws(input@));
    proof {
        assert(pure == digits@.skip(start as int));
    }
    let n = digits.len() - start;
    if n % 2 != 0 {
        return Err(CompileError::BadHex);
    }
    let mut out: Vec<u8> = Vec::new();
    let mut j: usize = start;
    while j < digits.len()
        invariant
            start <= j <= digits.len(),
            (j - start) % 2 == 0,
            (digits.len() - start) % 2 == 0,
            pure == spec_drop_hex_prefix(spec_strip_ws(input@)),
            pure == digits@.skip(start as int),
            forall|k: int| start <= k < j ==> spec_is_hex_digit(#[trigger] digits@[k]),
            out@.len() == (j - start) / 2,
            forall|k: int|
                0 <= k < out@.len() ==> #[trigger] out@[k] == (spec_hex_val(digits@[start + 2 * k])
                    * 16 + spec_hex_val(digits@[start + 2 * k + 1])) as u8,
        decreases digits.len() - j,
    {
        let hi = digits[j];
        let lo = digits[j + 1];
        let hi_ok = (0x30 <= hi && hi <= 0x39) || (0x41 <= hi && hi <= 0x46) || (0x61 <= hi && hi
            <= 0x66);
        let lo_ok = (0x30 <= lo && lo <= 0x39) || (0x41 <= lo && lo <= 0x46) || (0x61 <= lo && lo
            <= 0x66);
        if !hi_ok || !lo_ok {
            proof {
                let w: int = if !hi_ok {
                    j as int - start as int
                } else {
                    j as int + 1 - start as int
                };
                assert(0 <= w < pure.len());
                assert(pure[w] == digits@[w + start]);
                assert(!spec_is_hex_digit(spec_drop_hex_prefix(spec_strip_ws(input@))[w]));
            }
            return Err(CompileError::BadHex);
        }
        let hv = if 0x30 <= hi && hi <= 0x39 {
            hi - 0x30
        } else if 0x41 <= hi && hi <= 0x46 {
            hi - 0x41 + 10
        } else {
            hi - 0x61 + 10
        };
        let lv = if 0x30 <= lo && lo <= 0x39 {
            lo - 0x30
        } else if 0x41 <= lo && lo <= 0x46 {
            lo - 0x41 + 10
        } else {
            lo - 0x61 + 10
        };
        out.push(hv * 16 + lv);
        j = j + 2;
    }
    proof {
        assert(forall|i: int| 0 <= i < pure.len() ==> spec_is_hex_digit(#[trigger] pure[i]));
        assert(out@ =~= spec_hex_bytes(pure));
    }
    Ok(out)
}

/// The length of the trailing Solidity metadata region, or zero when none
/// is recognized. The last two bytes give the length `L` of a CBOR map
/// whose first byte is 0xa1 or 0xa2; the region is the map plus the two
/// length bytes.
pub open spec fn spec_metadata_len(code: Seq<u8>) -> int {
    if code.len() >= 2 {
        let l = code[code.len() - 2] * 256 + code[code.len() - 1];
        if l >= 1 && l + 2 <= code.len() && (code[code.len() - 2 - l] == 0xa1 || code[code.len() - 2
            - l] == 0xa2) {
            l + 2
        } else {
            0
        }
    } else {
        0
    }
}

/// The bytecode with any recognized trailing Solidity metadata removed.
pub open spec fn spec_strip_metadata(code: Seq<u8>) -> Seq<u8> {
    code.take(code.len() - spec_metadata_len(code))
}

/// Removes a trailing Solidity metadata region, when one is recognized,
/// before disassembly.
pub fn strip_metadata(code: Vec<u8>) -> (r: Vec<u8>)
    ensures
        r@ == spec_strip_metadata(code@),
{
    if code.len() >= 2 {
        let l: usize = (code[code.len() - 2] as usize) * 256 + (code[code.len() - 1] as usize);
        if l >= 1 && l + 2 <= code.len() {
            let first = code[code.len() - 2 - l];
            if first == 0xa1 || first == 0xa2 {
                let keep = code.len() - 2 - l;
                let mut out: Vec<u8> = Vec::new();
                let mut i: usize = 0;
                while i < keep
                    invariant
                        i <= keep <= code.len(),
                        out@ == code@.take(i as int),
                    decreases keep - i,
                {
                    proof {
                        assert(code@.take(i + 1 as int).drop_last() == code@.take(i as int));
                    }
                    out.push(code[i]);
                    i = i + 1;
                }
                return out;
            }
        }
    }
    proof {
        assert(spec_strip_metadata(code@) == code@.take(code@.len() as int));
        assert(code@.take(code@.len() as int) == code@);
    }
    code
}

/// A well-formed trailing Solidity metadata region: at least one byte of
/// CBOR map starting with 0xa1 or 0xa2, followed by two bytes giving the
/// map's length big-endian.
pub open spec fn wf_metadata_suffix(suffix: Seq<u8>) -> bool {
    &&& suffix.len() >= 3
    &&& (suffix[0] == 0xa1 || suffix[0] == 0xa2)
    &&& suffix[suffix.len() - 2] * 256 + suffix[suffix.len() - 1] == suffix.len() - 2
}

/// Appending a well-formed metadata suffix to bytecode that carries no
/// such suffix of its own strips back to exactly that bytecode, so the
/// decoder's output on the suffixed and the plain input is the same.
pub proof fn lemma_strip_metadata_suffix(code: Seq<u8>, suffix: Seq<u8>)
    requires
        wf_metadata_suffix(suffix),
        spec_metadata_len(code) == 0,
    ensures
        spec_strip_metadata(code + suffix) == code,
        spec_decode(spec_strip_metadata(code + suffix)) == spec_decode(spec_strip_metadata(code)),
{
    let whole = code + suffix;
    let n = whole.len();
    let l = suffix.len() - 2;
    assert(whole[n - 2] == suffix[suffix.len() - 2]);
    assert(whole[n - 1] == suffix[suffix.len() - 1]);
    assert(whole[n - 2] * 256 + whole[n - 1] == l);
    assert(whole[n - 2 - l] == suffix[0]);
    assert(spec_metadata_len(whole) == l + 2);
    assert(whole.take(n - (l + 2)) =~= code);
    assert(spec_strip_metadata(code) =~= code);
}

/// The number of immediate bytes available to a PUSH at `pos`: the declared
/// length, clamped to what is left of the code.
pub open spec fn spec_avail_imm(code: Seq<u8>, pos: int) -> int {
    let n = spec_push_imm_len(code[pos]) as int;
    if n <= code.len() - pos - 1 {
        n
    } else {
        code.len() - pos - 1
    }
}

/// The instruction stream decoded from `code` starting at byte offset
/// `pos`: at each position one opcode byte, then its immediate, clamped and
/// zero padded at a truncated tail.
pub open spec fn spec_decode_from(code: Seq<u8>, pos: int) -> Seq<InstrModel>
    decreases code.len() - pos when 0 <= pos <= code.len()
{
    if pos < 0 || pos >= code.len() {
        Seq::empty()
    } else {
        let op = code[pos];
        let n = spec_push_imm_len(op) as int;
        let avail = spec_avail_imm(code, pos);
        let rec = InstrModel {
            pc: pos,
            op: op,
            imm: code.subrange(pos + 1, pos + 1 + avail) + Seq::new((n - avail) as nat, |i: int| 0u8),
            size: 1 + avail,
        };
        seq![rec] + spec_decode_from(code, pos + 1 + avail)
    }
}

/// The whole decoded instruction stream of a byte blob.
pub open spec fn spec_decode(code: Seq<u8>) -> Seq<InstrModel> {
    spec_decode_from(code, 0)
}

/// The number of bytecode bytes covered by a sequence of records.
pub open spec fn sum_sizes(instrs: Seq<InstrModel>) -> int
    decreases instrs.len(),
{
    if instrs.len() == 0 {
        0
    } else {
        instrs[0].size + sum_sizes(instrs.skip(1))
    }
}

proof fn lemma_strip_ws_len(s: Seq<u8>)
    ensures
        spec_strip_ws(s).len() <= s.len(),
    decreases s.len(),
{
    if s.len() > 0 {
        lemma_strip_ws_len(s.drop_last());
    }
}

proof fn lemma_sum_sizes_from(code: Seq<u8>, pos: int)
    requires
        0 <= pos <= code.len(),
    ensures
        sum_sizes(spec_decode_from(code, pos)) == code.len() - pos,
    decreases code.len() - pos,
{
    if pos < code.len() {
        let avail = spec_avail_imm(code, pos);
        lemma_sum_sizes_from(code, pos + 1 + avail);
        assert((seq![spec_decode_from(code, pos)[0]] + spec_decode_from(code, pos + 1 + avail)).skip(1)
            =~= spec_decode_from(code, pos + 1 + avail));
    }
}

/// Decode/length law: the record sizes of a decoded blob sum exactly to
/// the blob's length.
pub proof fn lemma_decode_covers_length(code: Seq<u8>)
    ensures
        sum_sizes(spec_decode(code)) == code.len(),
{
    lemma_sum_sizes_from(code, 0);
}

/// A record that is consistent with the code it was decoded from: its pc
/// names the opcode byte, the immediate has the declared length, and the
/// record stays inside the code.
pub open spec fn wf_record(code: Seq<u8>, r: InstrModel) -> bool {
    &&& 0 <= r.pc < code.len()
    &&& r.op == code[r.pc]
    &&& r.imm.len() == spec_push_imm_len(r.op)
    &&& 1 <= r.size <= 1 + spec_push_imm_len(r.op)
    &&& r.pc + r.size <= code.len()
    &&& (r.size > 1 ==> crate::opcode::spec_is_push(r.op))
}

/// Every decoded record is well formed, consecutive records are adjacent
/// (each starts where the previous one ended), the first starts at `pos`
/// and the last ends at the end of the code.
pub proof fn lemma_decode_records(code: Seq<u8>, pos: int)
    requires
        0 <= pos <= code.len(),
    ensures
        ({
            let r = spec_decode_from(code, pos);
            &&& (pos < code.len() ==> r.len() > 0 && r[0].pc == pos)
            &&& forall|k: int| 0 <= k < r.len() ==> wf_record(code, #[trigger] r[k])
            &&& forall|k: int|
                0 < k < r.len() ==> (#[trigger] r[k]).pc == r[k - 1].pc + r[k - 1].size
            &&& (r.len() > 0 ==> r[r.len() - 1].pc + r[r.len() - 1].size == code.len())
        }),
    decreases code.len() - pos,
{
    if pos < code.len() {
        let avail = spec_avail_imm(code, pos);
        lemma_decode_records(code, pos + 1 + avail);
        let r = spec_decode_from(code, pos);
        let rest = spec_decode_from(code, pos + 1 + avail);
        assert(forall|k: int| 0 < k < r.len() ==> #[trigger] r[k] == rest[k - 1]);
        if rest.len() == 0 {
            assert(pos + 1 + avail == code.len());
        } else {
            assert(r[1].pc == rest[0].pc);
        }
    }
}

/// Record pcs are strictly increasing: an earlier record ends at or before
/// a later one begins.
pub proof fn lemma_decode_monotonic(code: Seq<u8>, pos: int, k1: int, k2: int)
    requires
        0 <= pos <= code.len(),
        0 <= k1 < k2 < spec_decode_from(code, pos).len(),
    ensures
        ({
            let r = spec_decode_from(code, pos);
            r[k1].pc + r[k1].size <= r[k2].pc
        }),
    decreases k2 - k1,
{
    let r = spec_decode_from(code, pos);
    lemma_decode_records(code, pos);
    if k2 == k1 + 1 {
    } else {
        lemma_decode_monotonic(code, pos, k1, k2 - 1);
    }
}

/// True when `pc` falls strictly inside the immediate of some decoded PUSH
/// record.
pub open spec fn inside_push_imm(code: Seq<u8>, pc: int) -> bool {
    exists|k: int|
        0 <= k < spec_decode(code).len() && (#[trigger] spec_decode(code)[k]).pc < pc < spec_decode(
            code,
        )[k].pc + spec_decode(code)[k].size
}

/// Every byte offset of the code is either the pc of a decoded record or
/// inside the immediate of one.
pub proof fn lemma_decode_coverage(code: Seq<u8>, pc: int)
    requires
        0 <= pc < code.len(),
        !inside_push_imm(code, pc),
    ensures
        exists|k: int|
            0 <= k < spec_decode(code).len() && (#[trigger] spec_decode(code)[k]).pc == pc,
{
    lemma_decode_records(code, 0);
    let r = spec_decode(code);
    lemma_decode_coverage_from(code, pc, 0);
}

proof fn lemma_decode_coverage_from(code: Seq<u8>, pc: int, k: int)
    requires
        0 <= k < spec_decode(code).len(),
        spec_decode(code)[k].pc <= pc < code.len(),
        !inside_push_imm(code, pc),
    ensures
        exists|j: int|
            0 <= j < spec_decode(code).len() && (#[trigger] spec_decode(code)[j]).pc == pc,
    decreases spec_decode(code).len() - k,
{
    let r = spec_decode(code);
    lemma_decode_records(code, 0);
    if r[k].pc == pc {
        assert(0 <= k < r.len() && r[k].pc == pc);
    } else {
        if pc < r[k].pc + r[k].size {
            assert(r[k].pc < pc < r[k].pc + r[k].size);
            assert(inside_push_imm(code, pc));
            assert(false);
        }
        if k == r.len() - 1 {
            assert(r[k].pc + r[k].size == code.len());
            assert(false);
        }
        assert(r[k + 1].pc == r[k].pc + r[k].size);
        lemma_decode_coverage_from(code, pc, k + 1);
    }
}

/// Disassembles stripped bytecode into instruction records.
pub fn decode_instrs(code: &[u8]) -> (instrs: Vec<Instr>)
    requires
        code@.len() <= 0xffff_ffff,
    ensures
        instrs@.map_values(|i: Instr| i@) == spec_decode(code@),
{
    let mut instrs: Vec<Instr> = Vec::new();
    let mut pos: usize = 0;
    while pos < code.len()
        invariant
            0 <= pos <= code.len(),
            code@.len() <= 0xffff_ffff,
            instrs@.map_values(|i: Instr| i@) + spec_decode_from(code@, pos as int) == spec_decode(
                code@,
            ),
        decreases code.len() - pos,
    {
        let op = code[pos];
        let n = push_imm_len(op) as usize;
        let avail: usize = if n <= code.len() - pos - 1 {
            n
        } else {
            code.len() - pos - 1
        };
        let mut imm: Vec<u8> = Vec::new();
        let mut k: usize = 0;
        while k < avail
            invariant
                k <= avail,
                pos + 1 + avail <= code.len(),
                imm@ == code@.subrange(pos as int + 1, pos as int + 1 + k as int),
            decreases avail - k,
        {
            proof {
                assert(code@.subrange(pos as int + 1, pos as int + 1 + k + 1 as int).drop_last()
                    == code@.subrange(pos as int + 1, pos as int + 1 + k as int));
            }
            imm.push(code[pos + 1 + k]);
            k = k + 1;
        }
        let mut pad: usize = avail;
        while pad < n
            invariant
                avail <= pad <= n,
                n <= 32,
                imm@ == code@.subrange(pos as int + 1, pos as int + 1 + avail as int) + Seq::new(
                    (pad - avail) as nat,
                    |i: int| 0u8,
                ),
            decreases n - pad,
        {
            imm.push(0u8);
            proof {
                assert(imm@ =~= code@.subrange(pos as int + 1, pos as int + 1 + avail as int)
                    + Seq::new((pad + 1 - avail) as nat, |i: int| 0u8));
            }
            pad = pad + 1;
        }
        let rec = Instr { pc: pos as u32, op: op, imm: imm, size: (1 + avail) as u8 };
        proof {
            let ghost m = spec_decode_from(code@, pos as int);
            assert(rec@ == m[0]);
            assert(instrs@.push(rec).map_values(|i: Instr| i@) =~= instrs@.map_values(
                |i: Instr| i@,
            ).push(rec@));
            assert(instrs@.map_values(|i: Instr| i@).push(rec@) + spec_decode_from(
                code@,
                pos as int + 1 + avail as int,
            ) =~= instrs@.map_values(|i: Instr| i@) + m);
        }
        instrs.push(rec);
        pos = pos + 1 + avail;
    }
    proof {
        assert(instrs@.map_values(|i: Instr| i@) + Seq::<InstrModel>::empty() =~= instrs@.map_values(
            |i: Instr| i@,
        ));
    }
    instrs
}

/// Decodes raw input into a program: hex text to bytes, metadata stripped,
/// then disassembly. Empty bytecode is `Empty`; text that is not
/// hexadecimal is `BadHex`; every byte blob decodes.
pub fn decode_bytecode(input: &[u8]) -> (r: Result<Program, CompileError>)
    requires
        input@.len() <= 0xffff_ffff,
    ensures
        ({
            let digits = spec_drop_hex_prefix(spec_strip_ws(input@));
            let hex_ok = (forall|i: int|
                0 <= i < digits.len() ==> spec_is_hex_digit(#[trigger] digits[i])) && digits.len() % 2
                == 0;
            match r {
                Ok(p) => {
                    &&& hex_ok
                    &&& spec_hex_bytes(digits).len() > 0
                    &&& p.code@ == spec_strip_metadata(spec_hex_bytes(digits))
                    &&& p.instrs@.map_values(|i: Instr| i@) == spec_decode(p.code@)
                    &&& p.wf()
                },
                Err(e) => {
                    &&& (e == CompileError::BadHex || e == CompileError::Empty)
                    &&& (e == CompileError::BadHex <==> !hex_ok)
                    &&& (e == CompileError::Empty <==> hex_ok && spec_hex_bytes(digits).len() == 0)
                },
            }
        }),
{
    let bytes = match hex_to_bytes(input) {
        Ok(b) => b,
        Err(e) => {
            return Err(e);
        },
    };
    if bytes.len() == 0 {
        return Err(CompileError::Empty);
    }
    proof {
        lemma_strip_ws_len(input@);
    }
    let code = strip_metadata(bytes);
    let instrs = decode_instrs(code.as_slice());
    Ok(Program { instrs, code })
}

/// Classifies one calldata argument as the host reads it: a `0x`-prefixed
/// hex string decodes to bytes, a JSON object or array passes through as
/// bytes, anything else is refused.
pub fn parse_call_data_arg(arg: &[u8]) -> (r: Result<Vec<u8>, CompileError>)
    ensures
        ({
            let s = arg@;
            let hex_arm = s.len() >= 2 && s[0] == 0x30 && s[1] == 0x78;
            let json_arm = !hex_arm && s.len() >= 1 && (s[0] == 0x7b || s[0] == 0x5b);
            let digits = spec_drop_hex_prefix(spec_strip_ws(s));
            let hex_ok = (forall|i: int|
                0 <= i < digits.len() ==> spec_is_hex_digit(#[trigger] digits[i])) && digits.len()
                % 2 == 0;
            match r {
                Ok(bytes) => (hex_arm && hex_ok && bytes@ == spec_hex_bytes(digits)) || (json_arm
                    && bytes@ == s),
                Err(e) => (hex_arm && !hex_ok && e == CompileError::BadHex) || (!hex_arm
                    && !json_arm && e == CompileError::ConfigError),
            }
        }),
{
    if arg.len() >= 2 && arg[0] == 0x30 && arg[1] == 0x78 {
        return hex_to_bytes(arg);
    }
    if arg.len() >= 1 && (arg[0] == 0x7b || arg[0] == 0x5b) {
        let mut out: Vec<u8> = Vec::new();
        let mut i: usize = 0;
        while i < arg.len()
            invariant
                i <= arg@.len(),
                out@ == arg@.take(i as int),
            decreases arg@.len() - i,
        {
            proof {
                assert(arg@.take(i + 1 as int).drop_last() == arg@.take(i as int));
            }
            out.push(arg[i]);
            i = i + 1;
        }
        proof {
            assert(arg@.take(arg@.len() as int) == arg@);
        }
        return Ok(out);
    }
    Err(CompileError::ConfigError)
}

} // verus!
