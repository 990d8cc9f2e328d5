//! The EVM machine and its environment as one context object: the 1024-deep
//! word stack, byte memory, gas counter, contract code, and the host-side
//! state (calldata, storage, logs, return data).
use vstd::prelude::*;

use crate::word::Word;

verus! {

/// The deepest the EVM word stack may grow.
pub const MAX_STACK_DEPTH: usize = 1024;

/// How an execution ended, as the host observes it.
#[derive(Clone, Copy, Debug, PartialEq, Eq, Structural)]
pub enum ExitStatus {
    /// The contract returned; return data holds its output.
    Success,
    /// The contract reverted; return data holds the revert payload.
    Revert,
    /// Gas or addressable memory was exhausted.
    OutOfGas,
    /// A stubbed opcode was reached; the module traps here.
    Trapped,
}

/// One emitted log record.
pub struct LogEntry {
    pub address: [u8; 20],
    pub topics: Vec<Word>,
    pub data: Vec<u8>,
}

/// The host-side environment of one execution.
pub struct Env {
    pub call_data: Vec<u8>,
    pub address: [u8; 20],
    pub origin: [u8; 20],
    pub caller: [u8; 20],
    pub block_height: u64,
    pub timestamp: u64,
    pub storage: Vec<(Word, Word)>,
    pub logs: Vec<LogEntry>,
    pub return_data: Vec<u8>,
    pub exit_status: Option<ExitStatus>,
}

/// The EVM machine: stack, memory, gas, code, and the environment.
pub struct Evm {
    pub program_counter: u32,
    pub gas_used: u64,
    pub gas_limit: u64,
    pub gas_price: u64,
    pub stack: Vec<Word>,
    pub memory: Vec<u8>,
    pub call_value: Word,
    pub code: Vec<u8>,
    pub chain_id: Word,
    pub self_balance: Word,
    pub env: Env,
}

/// The value stored under a key, or None: the first binding of the key in
/// the list answers.
pub open spec fn storage_lookup(s: Seq<(Word, Word)>, key: Word) -> Option<Word>
    decreases s.len(),
{
    if s.len() == 0 {
        None
    } else if s[0].0 == key {
        Some(s[0].1)
    } else {
        storage_lookup(s.skip(1), key)
    }
}

/// Gas burning saturates at the top of the 64-bit counter.
pub open spec fn spec_burn(used: u64, gas: u64) -> u64 {
    if used + gas > u64::MAX {
        u64::MAX
    } else {
        (used + gas) as u64
    }
}

/// Memory grows in whole 32-byte EVM words.
pub open spec fn ceil32(n: int) -> int {
    ((n + 31) / 32) * 32
}

/// Two environments with the same observable state.
pub open spec fn env_eq(a: Env, b: Env) -> bool {
    &&& a.call_data@ == b.call_data@
    &&& a.address == b.address
    &&& a.origin == b.origin
    &&& a.caller == b.caller
    &&& a.block_height == b.block_height
    &&& a.timestamp == b.timestamp
    &&& a.storage@ == b.storage@
    &&& a.logs@ == b.logs@
    &&& a.return_data@ == b.return_data@
    &&& a.exit_status == b.exit_status
}

/// Two environments that differ at most in how the execution ended.
pub open spec fn env_eq_but_exit(a: Env, b: Env) -> bool {
    &&& a.call_data@ == b.call_data@
    &&& a.address == b.address
    &&& a.origin == b.origin
    &&& a.caller == b.caller
    &&& a.block_height == b.block_height
    &&& a.timestamp == b.timestamp
    &&& a.storage@ == b.storage@
    &&& a.logs@ == b.logs@
    &&& a.return_data@ == b.return_data@
}

/// The fields no opcode ever rewrites: what identifies the execution.
pub open spec fn frame_core(pre: Evm, post: Evm) -> bool {
    &&& post.program_counter == pre.program_counter
    &&& post.gas_limit == pre.gas_limit
    &&& post.gas_price == pre.gas_price
    &&& post.call_value == pre.call_value
    &&& post.code@ == pre.code@
    &&& post.chain_id == pre.chain_id
    &&& post.self_balance == pre.self_balance
}

/// Everything but the stack and the gas counter is unchanged.
pub open spec fn frame_stack_gas(pre: Evm, post: Evm) -> bool {
    &&& post.program_counter == pre.program_counter
    &&& post.gas_limit == pre.gas_limit
    &&& post.gas_price == pre.gas_price
    &&& post.memory@ == pre.memory@
    &&& post.call_value == pre.call_value
    &&& post.code@ == pre.code@
    &&& post.chain_id == pre.chain_id
    &&& post.self_balance == pre.self_balance
    &&& env_eq(post.env, pre.env)
}

/// Everything but the stack, the gas counter and the memory is unchanged.
pub open spec fn frame_stack_gas_mem(pre: Evm, post: Evm) -> bool {
    &&& post.program_counter == pre.program_counter
    &&& post.gas_limit == pre.gas_limit
    &&& post.gas_price == pre.gas_price
    &&& post.call_value == pre.call_value
    &&& post.code@ == pre.code@
    &&& post.chain_id == pre.chain_id
    &&& post.self_balance == pre.self_balance
    &&& env_eq(post.env, pre.env)
}

/// Everything but the stack, the gas counter and the environment is
/// unchanged.
pub open spec fn frame_stack_gas_env(pre: Evm, post: Evm) -> bool {
    &&& post.program_counter == pre.program_counter
    &&& post.gas_limit == pre.gas_limit
    &&& post.gas_price == pre.gas_price
    &&& post.memory@ == pre.memory@
    &&& post.call_value == pre.call_value
    &&& post.code@ == pre.code@
    &&& post.chain_id == pre.chain_id
    &&& post.self_balance == pre.self_balance
}

/// The stack lost its `n` top words and gained `r` new ones on top; what
/// lies below is untouched.
pub open spec fn stack_shape(pre: Seq<Word>, post: Seq<Word>, n: int, r: int) -> bool {
    &&& post.len() == pre.len() - n + r
    &&& post.take(pre.len() - n) == pre.take(pre.len() - n)
}

impl Evm {
    /// The machine's own well-formedness: the stack never exceeds its
    /// depth limit.
    pub open spec fn wf(&self) -> bool {
        self.stack@.len() <= 1024
    }

    /// A fresh machine with the given code, limits and environment
    /// defaults.
    pub fn new(code: Vec<u8>, chain_id: u64, balance: u64) -> (r: Evm)
        ensures
            r.wf(),
            r.stack@.len() == 0,
            r.memory@.len() == 0,
            r.gas_used == 0,
            r.gas_limit == 10_000_000,
            r.code@ == code@,
            r.chain_id.val() == chain_id,
            r.self_balance.val() == balance,
            r.env.storage@.len() == 0,
            r.env.logs@.len() == 0,
            r.env.return_data@.len() == 0,
            r.env.exit_status is None,
            r.env.call_data@.len() == 0,
    {
        Evm {
            program_counter: 0,
            gas_used: 0,
            gas_limit: 10_000_000,
            gas_price: 0,
            stack: Vec::new(),
            memory: Vec::new(),
            call_value: Word::zero(),
            code,
            chain_id: Word::from_u64(chain_id),
            self_balance: Word::from_u64(balance),
            env: Env {
                call_data: Vec::new(),
                address: [0u8; 20],
                origin: [0u8; 20],
                caller: [0u8; 20],
                block_height: 0,
                timestamp: 0,
                storage: Vec::new(),
                logs: Vec::new(),
                return_data: Vec::new(),
                exit_status: None,
            },
        }
    }

    /// Adds to the gas counter, saturating at the top.
    pub fn burn_gas(&mut self, gas: u64)
        ensures
            final (self).gas_used == spec_burn(old(self).gas_used, gas),
            final (self).stack@ == old(self).stack@,
            frame_stack_gas(*old(self), *final (self)),
    {
        if gas > u64::MAX - self.gas_used {
            self.gas_used = u64::MAX;
        } else {
            self.gas_used = self.gas_used + gas;
        }
    }

    /// Pops the top word.
    pub fn pop_word(&mut self) -> (r: Word)
        requires
            old(self).stack@.len() >= 1,
        ensures
            r == old(self).stack@.last(),
            final (self).stack@ == old(self).stack@.drop_last(),
            final (self).gas_used == old(self).gas_used,
            frame_stack_gas(*old(self), *final (self)),
    {
        let r = self.stack.pop().unwrap();
        r
    }

    /// Pushes a word on top.
    pub fn push_word(&mut self, w: Word)
        requires
            old(self).stack@.len() < 1024,
        ensures
            final (self).stack@ == old(self).stack@.push(w),
            final (self).gas_used == old(self).gas_used,
            frame_stack_gas(*old(self), *final (self)),
    {
        self.stack.push(w);
    }

    /// Reads the word `n` places below the top, 0 naming the top itself.
    pub fn peek_n(&self, n: usize) -> (r: Word)
        requires
            n < self.stack@.len(),
        ensures
            r == self.stack@[self.stack@.len() - 1 - n],
    {
        self.stack[self.stack.len() - 1 - n]
    }

    /// Grows the memory to hold `n` bytes, in whole 32-byte words; new
    /// bytes are zero.
    pub fn mem_resize(&mut self, n: usize)
        requires
            n <= usize::MAX - 31,
        ensures
            final (self).memory@.len() == if ceil32(n as int) > old(self).memory@.len() {
                ceil32(n as int)
            } else {
                old(self).memory@.len() as int
            },
            forall|i: int|
                0 <= i < old(self).memory@.len() ==> final (self).memory@[i] == old(
                    self,
                ).memory@[i],
            forall|i: int|
                old(self).memory@.len() <= i < final (self).memory@.len() ==> final (
                self).memory@[i] == 0,
            final (self).stack@ == old(self).stack@,
            final (self).gas_used == old(self).gas_used,
            frame_stack_gas_mem(*old(self), *final (self)),
    {
        let target = ((n + 31) / 32) * 32;
        while self.memory.len() < target
            invariant
                old(self).memory@.len() <= self.memory@.len() <= if target > old(
                    self,
                ).memory@.len() {
                    target as int
                } else {
                    old(self).memory@.len() as int
                },
                forall|i: int|
                    0 <= i < old(self).memory@.len() ==> self.memory@[i] == old(self).memory@[i],
                forall|i: int|
                    old(self).memory@.len() <= i < self.memory@.len() ==> self.memory@[i] == 0,
                self.stack@ == old(self).stack@,
                self.gas_used == old(self).gas_used,
                frame_stack_gas_mem(*old(self), *self),
            decreases target - self.memory.len(),
        {
            self.memory.push(0u8);
        }
    }

    /// Copies `size` bytes of memory starting at `offset`, growing the
    /// memory first so that the range exists.
    pub fn mem_slice(&mut self, offset: usize, size: usize) -> (r: Vec<u8>)
        requires
            offset + size <= usize::MAX - 31,
        ensures
            r@.len() == size,
            forall|i: int| 0 <= i < size ==> r@[i] == final (self).memory@[offset + i],
            final (self).memory@.len() >= offset + size,
            forall|i: int|
                0 <= i < old(self).memory@.len() ==> final (self).memory@[i] == old(
                    self,
                ).memory@[i],
            forall|i: int|
                old(self).memory@.len() <= i < final (self).memory@.len() ==> final (
                self).memory@[i] == 0,
            final (self).stack@ == old(self).stack@,
            final (self).gas_used == old(self).gas_used,
            frame_stack_gas_mem(*old(self), *final (self)),
    {
        self.mem_resize(offset + size);
        let mut r: Vec<u8> = Vec::new();
        let mut i: usize = 0;
        while i < size
            invariant
                i <= size,
                offset + size <= usize::MAX,
                offset + size <= self.memory@.len(),
                r@.len() == i,
                forall|k: int| 0 <= k < i ==> r@[k] == self.memory@[offset + k],
            decreases size - i,
        {
            r.push(self.memory[offset + i]);
            i = i + 1;
        }
        r
    }

    /// Writes one byte into memory, growing it first.
    pub fn mem_store_byte(&mut self, offset: usize, b: u8)
        requires
            offset <= usize::MAX - 32,
        ensures
            final (self).memory@.len() >= offset + 1,
            final (self).memory@[offset as int] == b,
            forall|i: int|
                0 <= i < final (self).memory@.len() && i != offset ==> final (self).memory@[i]
                    == (if i < old(self).memory@.len() {
                    old(self).memory@[i]
                } else {
                    0u8
                }),
            final (self).memory@.len() == if ceil32(offset + 1) > old(self).memory@.len() {
                ceil32(offset + 1)
            } else {
                old(self).memory@.len() as int
            },
            final (self).stack@ == old(self).stack@,
            final (self).gas_used == old(self).gas_used,
            frame_stack_gas_mem(*old(self), *final (self)),
    {
        self.mem_resize(offset + 1);
        self.memory.set(offset, b);
    }

    /// The value of the storage slot under `key`, zero when the slot was
    /// never written.
    pub fn storage_read(&self, key: &Word) -> (r: Word)
        ensures
            r == match storage_lookup(self.env.storage@, *key) {
                Some(v) => v,
                None => Word { hi: 0, lo: 0 },
            },
    {
        let mut i: usize = 0;
        let n = self.env.storage.len();
        proof {
            assert(self.env.storage@.skip(0) =~= self.env.storage@);
        }
        while i < n
            invariant
                i <= n,
                n == self.env.storage@.len(),
                storage_lookup(self.env.storage@, *key) == storage_lookup(
                    self.env.storage@.skip(i as int),
                    *key,
                ),
            decreases n - i,
        {
            let (k, v) = self.env.storage[i];
            proof {
                assert(self.env.storage@.skip(i as int)[0] == self.env.storage@[i as int]);
                assert(self.env.storage@.skip(i as int).skip(1) =~= self.env.storage@.skip(
                    i + 1 as int,
                ));
            }
            if k == *key {
                return v;
            }
            i = i + 1;
        }
        proof {
            assert(self.env.storage@.skip(n as int).len() == 0);
        }
        Word::zero()
    }

    /// Writes a storage slot: the slot under `key` now reads `value`, and
    /// every other slot is unchanged.
    pub fn storage_write(&mut self, key: Word, value: Word)
        ensures
            storage_lookup(final (self).env.storage@, key) == Some(value),
            forall|k2: Word|
                k2 != key ==> storage_lookup(final (self).env.storage@, k2) == storage_lookup(
                    old(self).env.storage@,
                    k2,
                ),
            final (self).stack@ == old(self).stack@,
            final (self).gas_used == old(self).gas_used,
            final (self).memory@ == old(self).memory@,
            frame_storage_only(*old(self), *final (self)),
    {
        let ghost pre = self.env.storage@;
        let mut i: usize = 0;
        let n = self.env.storage.len();
        while i < n
            invariant
                i <= n,
                n == self.env.storage@.len(),
                pre == old(self).env.storage@,
                self.env.storage@ == pre,
                forall|j: int| 0 <= j < i ==> (#[trigger] pre[j]).0 != key,
                self.stack@ == old(self).stack@,
                self.gas_used == old(self).gas_used,
                self.memory@ == old(self).memory@,
                frame_storage_only(*old(self), *self),
            decreases n - i,
        {
            let (k, _) = self.env.storage[i];
            if k == key {
                self.env.storage.set(i, (key, value));
                proof {
                    lemma_storage_update(pre, self.env.storage@, key, value, i as int);
                }
                return ;
            }
            i = i + 1;
        }
        self.env.storage.push((key, value));
        proof {
            lemma_storage_append(pre, self.env.storage@, key, value);
        }
    }
}

/// Everything outside the storage list (and stack, gas, memory holders
/// named separately) is unchanged.
pub open spec fn frame_storage_only(pre: Evm, post: Evm) -> bool {
    &&& post.program_counter == pre.program_counter
    &&& post.gas_limit == pre.gas_limit
    &&& post.gas_price == pre.gas_price
    &&& post.call_value == pre.call_value
    &&& post.code@ == pre.code@
    &&& post.chain_id == pre.chain_id
    &&& post.self_balance == pre.self_balance
    &&& post.env.call_data@ == pre.env.call_data@
    &&& post.env.address == pre.env.address
    &&& post.env.origin == pre.env.origin
    &&& post.env.caller == pre.env.caller
    &&& post.env.block_height == pre.env.block_height
    &&& post.env.timestamp == pre.env.timestamp
    &&& post.env.logs@ == pre.env.logs@
    &&& post.env.return_data@ == pre.env.return_data@
    &&& post.env.exit_status == pre.env.exit_status
}

/// Updating the first binding of `key` in place changes that key's answer
/// and no other.
proof fn lemma_storage_update(
    pre: Seq<(Word, Word)>,
    post: Seq<(Word, Word)>,
    key: Word,
    value: Word,
    i: int,
)
    requires
        0 <= i < pre.len(),
        post == pre.update(i, (key, value)),
        pre[i].0 == key,
        forall|j: int| 0 <= j < i ==> (#[trigger] pre[j]).0 != key,
    ensures
        storage_lookup(post, key) == Some(value),
        forall|k2: Word|
            k2 != key ==> storage_lookup(post, k2) == storage_lookup(pre, k2),
    decreases i,
{
    if i == 0 {
        assert(post[0] == (key, value));
        assert forall|k2: Word| k2 != key implies storage_lookup(post, k2) == storage_lookup(
            pre,
            k2,
        ) by {
            assert(post.skip(1) =~= pre.skip(1));
            assert(storage_lookup(post, k2) == storage_lookup(post.skip(1), k2));
            assert(storage_lookup(pre, k2) == storage_lookup(pre.skip(1), k2));
        }
    } else {
        assert(post.skip(1) =~= pre.skip(1).update(i - 1, (key, value)));
        assert(pre.skip(1)[i - 1].0 == key);
        assert forall|j: int| 0 <= j < i - 1 implies (#[trigger] pre.skip(1)[j]).0 != key by {
            assert(pre.skip(1)[j] == pre[j + 1]);
        }
        lemma_storage_update(pre.skip(1), post.skip(1), key, value, i - 1);
        assert(post[0] == pre[0]);
        assert(pre[0].0 != key);
        assert(storage_lookup(post, key) == storage_lookup(post.skip(1), key));
        assert forall|k2: Word| k2 != key implies storage_lookup(post, k2) == storage_lookup(
            pre,
            k2,
        ) by {
            assert(storage_lookup(post, k2) == if post[0].0 == k2 {
                Some(post[0].1)
            } else {
                storage_lookup(post.skip(1), k2)
            });
            assert(storage_lookup(pre, k2) == if pre[0].0 == k2 {
                Some(pre[0].1)
            } else {
                storage_lookup(pre.skip(1), k2)
            });
        }
    }
}

/// Appending a binding for a key that is absent changes that key's answer
/// and no other.
proof fn lemma_storage_append(
    pre: Seq<(Word, Word)>,
    post: Seq<(Word, Word)>,
    key: Word,
    value: Word,
)
    requires
        post == pre.push((key, value)),
        forall|j: int| 0 <= j < pre.len() ==> (#[trigger] pre[j]).0 != key,
    ensures
        storage_lookup(post, key) == Some(value),
        forall|k2: Word|
            k2 != key ==> storage_lookup(post, k2) == storage_lookup(pre, k2),
    decreases pre.len(),
{
    if pre.len() == 0 {
        assert(post.len() == 1);
        assert(post[0] == (key, value));
        assert forall|k2: Word| k2 != key implies storage_lookup(post, k2) == storage_lookup(
            pre,
            k2,
        ) by {
            assert(post.skip(1) =~= Seq::<(Word, Word)>::empty());
            assert(storage_lookup(post.skip(1), k2) == None::<Word>);
            assert(storage_lookup(post, k2) == storage_lookup(post.skip(1), k2));
        }
    } else {
        assert(post.skip(1) =~= pre.skip(1).push((key, value)));
        assert forall|j: int| 0 <= j < pre.skip(1).len() implies (#[trigger] pre.skip(1)[j]).0
            != key by {
            assert(pre.skip(1)[j] == pre[j + 1]);
        }
        lemma_storage_append(pre.skip(1), post.skip(1), key, value);
        assert(post[0] == pre[0]);
        assert(pre[0].0 != key);
        assert(storage_lookup(post, key) == storage_lookup(post.skip(1), key));
        assert forall|k2: Word| k2 != key implies storage_lookup(post, k2) == storage_lookup(
            pre,
            k2,
        ) by {
            assert(storage_lookup(post, k2) == if post[0].0 == k2 {
                Some(post[0].1)
            } else {
                storage_lookup(post.skip(1), k2)
            });
            assert(storage_lookup(pre, k2) == if pre[0].0 == k2 {
                Some(pre[0].1)
            } else {
                storage_lookup(pre.skip(1), k2)
            });
        }
    }
}

} // verus!
