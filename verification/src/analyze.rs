//! Control-flow analyzer: splits the instruction stream into basic blocks
//! and builds the ordered jump-destination table that the emitted dispatch
//! code consults at run time.
use vstd::prelude::*;

use crate::decode::{
    inside_push_imm, lemma_decode_coverage, lemma_decode_monotonic, lemma_decode_records,
    spec_decode, wf_record, InstrModel, Program,
};
use crate::opcode::{is_terminator, spec_is_terminator, JUMP, JUMPDEST, JUMPI};

verus! {

/// How control leaves a basic block. `Fallthrough` and `Jumpi` carry the
/// index of the next block in stream order; an index one past the last
/// block means execution falls off the end of the code and halts.
#[derive(Clone, Copy, Debug, PartialEq, Eq, Structural)]
pub enum Succ {
    /// The block runs into the next one.
    Fallthrough(usize),
    /// The block ends in JUMP; the target is resolved at run time.
    Jump,
    /// The block ends in JUMPI: either the runtime target or the next block.
    Jumpi(usize),
    /// The block ends the execution.
    Terminal,
}

/// A basic block: the instruction indices `[first, end)` and how control
/// leaves it. Only the first instruction may be a JUMPDEST and only the
/// last may be a terminator.
#[derive(Clone, Copy, Debug, PartialEq, Eq, Structural)]
pub struct Block {
    pub first: usize,
    pub end: usize,
    pub succ: Succ,
}

/// One entry of the jump-destination table: the pc of a JUMPDEST
/// instruction and the index of the block it opens.
#[derive(Clone, Copy, Debug, PartialEq, Eq, Structural)]
pub struct JumpEntry {
    pub pc: u32,
    pub block: usize,
}

/// The analyzer's result: the basic blocks in stream order and the
/// jump-destination table ordered by pc.
pub struct Analysis {
    pub blocks: Vec<Block>,
    pub jump_table: Vec<JumpEntry>,
}

/// The successor a block must record, given the instruction stream, the
/// block's bounds and its index.
pub open spec fn spec_succ_of(instrs: Seq<InstrModel>, first: int, end: int, k: int) -> Succ {
    let lastop = instrs[end - 1].op;
    if lastop == 0x56 {
        Succ::Jump
    } else if lastop == 0x57 {
        Succ::Jumpi((k + 1) as usize)
    } else if spec_is_terminator(lastop) {
        Succ::Terminal
    } else {
        Succ::Fallthrough((k + 1) as usize)
    }
}

/// True when instruction `i` closes the block it stands in: it is a
/// terminator, or the next instruction is a JUMPDEST.
pub open spec fn spec_closes(instrs: Seq<InstrModel>, i: int) -> bool {
    spec_is_terminator(instrs[i].op) || (i + 1 < instrs.len() && instrs[i + 1].op == 0x5b)
}

/// The blocks partition the instruction stream: they are contiguous,
/// nonempty, start at the first instruction and end at the last.
pub open spec fn blocks_partition(instrs: Seq<InstrModel>, bs: Seq<Block>) -> bool {
    &&& (bs.len() == 0 <==> instrs.len() == 0)
    &&& (bs.len() > 0 ==> bs[0].first == 0 && bs[bs.len() - 1].end == instrs.len())
    &&& forall|k: int| 0 <= k < bs.len() ==> (#[trigger] bs[k]).first < bs[k].end <= instrs.len()
    &&& forall|k: int| 0 < k < bs.len() ==> (#[trigger] bs[k]).first == bs[k - 1].end
}

/// The blocks are maximal: no instruction strictly inside a block closes
/// it, so only a block's first instruction can be a JUMPDEST and only its
/// last a terminator.
pub open spec fn blocks_maximal(instrs: Seq<InstrModel>, bs: Seq<Block>) -> bool {
    forall|k: int, i: int|
        0 <= k < bs.len() && (#[trigger] bs[k]).first <= i < bs[k].end - 1 ==> !(
        #[trigger] spec_closes(instrs, i))
}

/// Each block ends for a reason: at a closing instruction or at the end of
/// the stream.
pub open spec fn blocks_closed(instrs: Seq<InstrModel>, bs: Seq<Block>) -> bool {
    forall|k: int|
        0 <= k < bs.len() ==> ((#[trigger] bs[k]).end == instrs.len() || spec_closes(
            instrs,
            bs[k].end - 1,
        ))
}

/// Every block records the successor that its last instruction dictates.
pub open spec fn blocks_succ_ok(instrs: Seq<InstrModel>, bs: Seq<Block>) -> bool {
    forall|k: int|
        0 <= k < bs.len() ==> (#[trigger] bs[k]).succ == spec_succ_of(
            instrs,
            bs[k].first as int,
            bs[k].end as int,
            k,
        )
}

/// The jump table is sound and complete: entries are exactly the blocks
/// whose first instruction is a JUMPDEST, carry that instruction's pc, and
/// come in strictly increasing pc order.
pub open spec fn jump_table_ok(instrs: Seq<InstrModel>, bs: Seq<Block>, jt: Seq<JumpEntry>) -> bool {
    &&& forall|j: int|
        0 <= j < jt.len() ==> (#[trigger] jt[j]).block < bs.len() && instrs[bs[jt[j].block as int].first as int].op
            == 0x5b && jt[j].pc == instrs[bs[jt[j].block as int].first as int].pc
    &&& forall|k: int|
        0 <= k < bs.len() && instrs[(#[trigger] bs[k]).first as int].op == 0x5b ==> exists|j: int|
            0 <= j < jt.len() && (#[trigger] jt[j]).block == k
    &&& forall|j: int| 0 < j < jt.len() ==> (#[trigger] jt[j]).pc > jt[j - 1].pc
}

/// Every JUMPDEST instruction opens a block: it is the first instruction
/// of some block.
pub open spec fn jumpdests_open_blocks(instrs: Seq<InstrModel>, bs: Seq<Block>) -> bool {
    forall|i: int|
        0 <= i < instrs.len() && (#[trigger] instrs[i]).op == 0x5b ==> exists|k: int|
            0 <= k < bs.len() && (#[trigger] bs[k]).first == i
}

impl Program {
    /// A program is well formed when its instruction records are exactly
    /// the decoding of its bytecode.
    pub open spec fn wf(&self) -> bool {
        &&& self.instrs@.map_values(|i: crate::decode::Instr| i@) == spec_decode(self.code@)
        &&& self.code@.len() <= 0xffff_ffff
    }
}

/// Splits a program into basic blocks and builds its jump-destination
/// table.
pub fn analyze(p: &Program) -> (r: Analysis)
    requires
        p.wf(),
    ensures
        ({
            let instrs = p.instrs@.map_values(|i: crate::decode::Instr| i@);
            &&& blocks_partition(instrs, r.blocks@)
            &&& blocks_maximal(instrs, r.blocks@)
            &&& blocks_closed(instrs, r.blocks@)
            &&& blocks_succ_ok(instrs, r.blocks@)
            &&& jump_table_ok(instrs, r.blocks@, r.jump_table@)
            &&& jumpdests_open_blocks(instrs, r.blocks@)
        }),
{
    let ghost instrs = p.instrs@.map_values(|i: crate::decode::Instr| i@);
    let blocks = split_blocks(p);
    proof {
        lemma_jumpdests_open(instrs, blocks@);
    }
    let jump_table = build_jump_table(p, &blocks);
    Analysis { blocks, jump_table }
}

/// Walks the instruction stream once, closing a block after each
/// terminator and before each JUMPDEST.
fn split_blocks(p: &Program) -> (blocks: Vec<Block>)
    ensures
        ({
            let instrs = p.instrs@.map_values(|i: crate::decode::Instr| i@);
            &&& blocks_partition(instrs, blocks@)
            &&& blocks_maximal(instrs, blocks@)
            &&& blocks_closed(instrs, blocks@)
            &&& blocks_succ_ok(instrs, blocks@)
        }),
{
    let ghost instrs = p.instrs@.map_values(|i: crate::decode::Instr| i@);
    let n = p.instrs.len();
    let mut blocks: Vec<Block> = Vec::new();
    let mut cur_start: usize = 0;
    let mut i: usize = 0;
    while i < n
        invariant
            n == p.instrs@.len(),
            cur_start <= i <= n,
            blocks@.len() <= cur_start,
            blocks@.len() == 0 ==> cur_start == 0,
            blocks@.len() > 0 ==> blocks@[0].first == 0 && blocks@[blocks@.len() - 1].end
                == cur_start,
            forall|k: int|
                0 <= k < blocks@.len() ==> (#[trigger] blocks@[k]).first < blocks@[k].end
                    <= cur_start,
            forall|k: int|
                0 < k < blocks@.len() ==> (#[trigger] blocks@[k]).first == blocks@[k - 1].end,
            instrs == p.instrs@.map_values(|i: crate::decode::Instr| i@),
            forall|t: int| cur_start <= t < i ==> !(#[trigger] spec_closes(instrs, t)),
            blocks_maximal(instrs, blocks@),
            forall|k: int|
                0 <= k < blocks@.len() ==> ((#[trigger] blocks@[k]).end == instrs.len()
                    || spec_closes(instrs, blocks@[k].end - 1)),
            forall|k: int|
                0 <= k < blocks@.len() ==> (#[trigger] blocks@[k]).succ == spec_succ_of(
                    instrs,
                    blocks@[k].first as int,
                    blocks@[k].end as int,
                    k,
                ),
        decreases n - i,
    {
        let op = p.instrs[i].op;
        proof {
            assert(instrs[i as int] == p.instrs@[i as int]@);
        }
        let closes = if is_terminator(op) {
            true
        } else if i + 1 < n {
            let nextop = p.instrs[i + 1].op;
            proof {
                assert(instrs[i + 1 as int] == p.instrs@[i + 1 as int]@);
            }
            nextop == JUMPDEST
        } else {
            false
        };
        if closes {
            let succ: Succ = if op == JUMP {
                Succ::Jump
            } else if op == JUMPI {
                Succ::Jumpi(blocks.len() + 1)
            } else if is_terminator(op) {
                Succ::Terminal
            } else {
                Succ::Fallthrough(blocks.len() + 1)
            };
            let b = Block { first: cur_start, end: i + 1, succ };
            blocks.push(b);
            cur_start = i + 1;
        }
        i = i + 1;
    }
    if cur_start < n {
        let last = p.instrs.len() - 1;
        let op = p.instrs[last].op;
        proof {
            assert(instrs[last as int] == p.instrs@[last as int]@);
        }
        let succ: Succ = if op == JUMP {
            Succ::Jump
        } else if op == JUMPI {
            Succ::Jumpi(blocks.len() + 1)
        } else if is_terminator(op) {
            Succ::Terminal
        } else {
            Succ::Fallthrough(blocks.len() + 1)
        };
        let b = Block { first: cur_start, end: n, succ };
        blocks.push(b);
    }
    blocks
}

/// A partitioned, maximal block list gives every JUMPDEST instruction a
/// block of its own to open.
proof fn lemma_jumpdests_open(instrs: Seq<InstrModel>, bs: Seq<Block>)
    requires
        blocks_partition(instrs, bs),
        blocks_maximal(instrs, bs),
    ensures
        jumpdests_open_blocks(instrs, bs),
{
    assert forall|t: int|
        0 <= t < instrs.len() && (#[trigger] instrs[t]).op == 0x5b implies exists|k: int|
        0 <= k < bs.len() && (#[trigger] bs[k]).first == t by {
        if t == 0 {
            assert(0 <= 0 < bs.len() && bs[0].first == 0);
        } else {
            lemma_partition_covers(bs, t - 1, 0);
            let k = choose|k: int|
                0 <= k < bs.len() && (#[trigger] bs[k]).first <= t - 1 < bs[k].end;
            assert(spec_closes(instrs, t - 1));
            assert(!(bs[k].first <= t - 1 < bs[k].end - 1));
            assert(bs[k].end == t);
            if k == bs.len() - 1 {
                assert(bs[bs.len() - 1].end == instrs.len());
                assert(false);
            }
            assert(bs[k + 1].first == t);
        }
    }
}

/// True of a jump-table entry that names a block opened by a JUMPDEST and
/// carries that instruction's pc.
pub open spec fn entry_ok(instrs: Seq<InstrModel>, bs: Seq<Block>, e: JumpEntry) -> bool {
    &&& (e.block as int) < bs.len()
    &&& instrs[bs[e.block as int].first as int].op == 0x5b
    &&& e.pc == instrs[bs[e.block as int].first as int].pc
}

/// The jump table built from the first `k` blocks: one entry, in block
/// order, for each block that a JUMPDEST opens.
pub open spec fn spec_jump_table(instrs: Seq<InstrModel>, bs: Seq<Block>, k: int) -> Seq<JumpEntry>
    decreases k,
{
    if k <= 0 {
        Seq::empty()
    } else {
        let prev = spec_jump_table(instrs, bs, k - 1);
        if instrs[bs[k - 1].first as int].op == 0x5b {
            prev.push(
                JumpEntry { pc: instrs[bs[k - 1].first as int].pc as u32, block: (k - 1) as usize },
            )
        } else {
            prev
        }
    }
}

/// The table built from the first `k` blocks is sound, complete for those
/// blocks, and in strictly increasing block order.
#[verifier::rlimit(100)]
proof fn lemma_spec_jump_table_ok(instrs: Seq<InstrModel>, bs: Seq<Block>, k: int)
    requires
        0 <= k <= bs.len(),
        bs.len() <= usize::MAX,
        forall|k2: int| 0 <= k2 < bs.len() ==> (#[trigger] bs[k2]).first < bs[k2].end <= instrs.len(),
        forall|i: int| 0 <= i < instrs.len() ==> 0 <= (#[trigger] instrs[i]).pc < 0x1_0000_0000,
    ensures
        ({
            let jt = spec_jump_table(instrs, bs, k);
            &&& forall|j: int|
                0 <= j < jt.len() ==> entry_ok(instrs, bs, #[trigger] jt[j]) && (
                jt[j].block as int) < k
            &&& forall|j: int| 0 < j < jt.len() ==> (#[trigger] jt[j]).block > jt[j - 1].block
            &&& forall|k2: int|
                0 <= k2 < k && instrs[(#[trigger] bs[k2]).first as int].op == 0x5b ==> exists|j: int|
                    0 <= j < jt.len() && (#[trigger] jt[j]).block == k2
        }),
    decreases k,
{
    if k > 0 {
        lemma_spec_jump_table_ok(instrs, bs, k - 1);
        let prev = spec_jump_table(instrs, bs, k - 1);
        let jt = spec_jump_table(instrs, bs, k);
        if instrs[bs[k - 1].first as int].op == 0x5b {
            let e = JumpEntry {
                pc: instrs[bs[k - 1].first as int].pc as u32,
                block: (k - 1) as usize,
            };
            assert(jt == prev.push(e));
            assert(0 <= bs[k - 1].first < instrs.len());
            assert(0 <= instrs[bs[k - 1].first as int].pc < 0x1_0000_0000);
            assert(e.block as int == k - 1);
            assert(entry_ok(instrs, bs, e));
            assert forall|k2: int|
                0 <= k2 < k && instrs[(#[trigger] bs[k2]).first as int].op == 0x5b implies exists|j: int|
                0 <= j < jt.len() && (#[trigger] jt[j]).block == k2 by {
                if k2 == k - 1 {
                    assert(jt[jt.len() - 1].block == k2);
                } else {
                    let j = choose|j: int|
                        0 <= j < prev.len() && (#[trigger] prev[j]).block == k2;
                    assert(jt[j].block == k2);
                }
            }
        } else {
            assert(jt == prev);
        }
    }
}

/// The finished table of all blocks satisfies the jump-table contract.
#[verifier::rlimit(100)]
proof fn lemma_jump_table_final(
    code: Seq<u8>,
    instrs: Seq<InstrModel>,
    bs: Seq<Block>,
    jt: Seq<JumpEntry>,
)
    requires
        instrs == spec_decode(code),
        blocks_partition(instrs, bs),
        bs.len() <= usize::MAX,
        forall|i: int| 0 <= i < instrs.len() ==> 0 <= (#[trigger] instrs[i]).pc < 0x1_0000_0000,
        jt == spec_jump_table(instrs, bs, bs.len() as int),
    ensures
        jump_table_ok(instrs, bs, jt),
{
    lemma_spec_jump_table_ok(instrs, bs, bs.len() as int);
    assert forall|j: int| 0 < j < jt.len() implies (#[trigger] jt[j]).pc > jt[j - 1].pc by {
        let e1 = jt[j - 1];
        let e2 = jt[j];
        assert(entry_ok(instrs, bs, e1));
        assert(entry_ok(instrs, bs, e2));
        lemma_block_firsts_monotonic(instrs, bs, e1.block as int, e2.block as int);
        lemma_pc_monotonic(code, bs[e1.block as int].first as int, bs[e2.block as int].first as int);
    }
}

/// Walks the block list and records, in pc order, the pc of every block
/// that a JUMPDEST opens.
fn build_jump_table(p: &Program, blocks: &Vec<Block>) -> (jump_table: Vec<JumpEntry>)
    requires
        p.wf(),
        blocks_partition(p.instrs@.map_values(|i: crate::decode::Instr| i@), blocks@),
    ensures
        jump_table_ok(p.instrs@.map_values(|i: crate::decode::Instr| i@), blocks@, jump_table@),
{
    let ghost instrs = p.instrs@.map_values(|i: crate::decode::Instr| i@);
    let mut jump_table: Vec<JumpEntry> = Vec::new();
    let mut k: usize = 0;
    let nb = blocks.len();
    while k < nb
        invariant
            instrs == p.instrs@.map_values(|i: crate::decode::Instr| i@),
            nb == blocks@.len(),
            k <= nb,
            blocks_partition(instrs, blocks@),
            jump_table@ == spec_jump_table(instrs, blocks@, k as int),
        decreases nb - k,
    {
        let first = blocks[k].first;
        let op = p.instrs[first].op;
        let pc = p.instrs[first].pc;
        proof {
            assert(instrs[first as int] == p.instrs@[first as int]@);
        }
        if op == JUMPDEST {
            jump_table.push(JumpEntry { pc, block: k });
        }
        k = k + 1;
    }
    proof {
        assert forall|i: int| 0 <= i < instrs.len() implies 0 <= (#[trigger] instrs[i]).pc
            < 0x1_0000_0000 by {
            assert(instrs[i] == p.instrs@[i]@);
        }
        lemma_jump_table_final(p.code@, instrs, blocks@, jump_table@);
    }
    jump_table
}

/// Jump-destination completeness, soundness half: every pc in the jump
/// table names a JUMPDEST byte of the code that does not sit inside a PUSH
/// immediate.
pub proof fn lemma_jump_table_sound(code: Seq<u8>, bs: Seq<Block>, jt: Seq<JumpEntry>, j: int)
    requires
        blocks_partition(spec_decode(code), bs),
        jump_table_ok(spec_decode(code), bs, jt),
        0 <= j < jt.len(),
    ensures
        0 <= jt[j].pc < code.len(),
        code[jt[j].pc as int] == 0x5b,
        !inside_push_imm(code, jt[j].pc as int),
{
    let r = spec_decode(code);
    let b = jt[j].block as int;
    let f = bs[b].first as int;
    let pc = jt[j].pc as int;
    lemma_decode_records(code, 0);
    assert(wf_record(code, r[f]));
    assert(code[pc] == 0x5b);
    if inside_push_imm(code, pc) {
        let k = choose|k: int|
            0 <= k < r.len() && (#[trigger] r[k]).pc < pc < r[k].pc + r[k].size;
        if k < f {
            lemma_decode_monotonic(code, 0, k, f);
            assert(false);
        } else if k > f {
            lemma_decode_monotonic(code, 0, f, k);
            assert(false);
        } else {
            assert(false);
        }
    }
}

/// Jump-destination completeness, completeness half: every JUMPDEST byte
/// of the code that does not sit inside a PUSH immediate has its pc in the
/// jump table.
pub proof fn lemma_jump_table_complete(code: Seq<u8>, bs: Seq<Block>, jt: Seq<JumpEntry>, pc: int)
    requires
        blocks_partition(spec_decode(code), bs),
        jumpdests_open_blocks(spec_decode(code), bs),
        jump_table_ok(spec_decode(code), bs, jt),
        0 <= pc < code.len(),
        code[pc] == 0x5b,
        !inside_push_imm(code, pc),
    ensures
        exists|j: int| 0 <= j < jt.len() && (#[trigger] jt[j]).pc == pc,
{
    let r = spec_decode(code);
    lemma_decode_records(code, 0);
    lemma_decode_coverage(code, pc);
    let k = choose|k: int| 0 <= k < r.len() && (#[trigger] r[k]).pc == pc;
    assert(wf_record(code, r[k]));
    assert(r[k].op == 0x5b);
    let b = choose|b: int| 0 <= b < bs.len() && (#[trigger] bs[b]).first == k;
    assert(r[bs[b].first as int].op == 0x5b);
    let j = choose|j: int| 0 <= j < jt.len() && (#[trigger] jt[j]).block == b;
    assert(jt[j].pc == pc);
}

/// In a contiguous nonempty block sequence, every instruction index below
/// the last block's end falls inside some block at or after `k`.
proof fn lemma_partition_covers(bs: Seq<Block>, t: int, k: int)
    requires
        bs.len() > 0,
        forall|k2: int| 0 <= k2 < bs.len() ==> (#[trigger] bs[k2]).first < bs[k2].end,
        forall|k2: int| 0 < k2 < bs.len() ==> (#[trigger] bs[k2]).first == bs[k2 - 1].end,
        0 <= k < bs.len(),
        bs[k].first <= t < bs[bs.len() - 1].end,
    ensures
        exists|j: int| 0 <= j < bs.len() && (#[trigger] bs[j]).first <= t < bs[j].end,
    decreases bs.len() - k,
{
    if t < bs[k].end {
        assert(0 <= k < bs.len() && bs[k].first <= t < bs[k].end);
    } else {
        lemma_partition_covers(bs, t, k + 1);
    }
}

/// Block starts grow along the stream.
proof fn lemma_block_firsts_monotonic(instrs: Seq<InstrModel>, bs: Seq<Block>, k1: int, k2: int)
    requires
        blocks_partition(instrs, bs),
        0 <= k1 < k2 < bs.len(),
    ensures
        bs[k1].first < bs[k2].first,
    decreases k2 - k1,
{
    if k2 == k1 + 1 {
    } else {
        lemma_block_firsts_monotonic(instrs, bs, k1, k2 - 1);
    }
}

/// Instruction pcs grow along the stream.
proof fn lemma_pc_monotonic(code: Seq<u8>, i1: int, i2: int)
    requires
        0 <= i1 < i2 < spec_decode(code).len(),
    ensures
        spec_decode(code)[i1].pc < spec_decode(code)[i2].pc,
{
    lemma_decode_records(code, 0);
    lemma_decode_monotonic(code, 0, i1, i2);
}

} // verus!
