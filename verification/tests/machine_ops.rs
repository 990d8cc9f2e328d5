use evm2cspr::machine::{Evm, ExitStatus};
use evm2cspr::word::Word;
use sha3::Digest;

fn fresh() -> Evm {
    Evm::new(Vec::new(), 1313161554, 0)
}

#[test]
fn push_push_add_leaves_three_on_top() {
    let mut vm = fresh();
    vm.push1(0x01);
    vm.push1(0x02);
    vm.add();
    assert_eq!(vm.stack.len(), 1);
    assert_eq!(vm.stack[0], Word { hi: 0, lo: 3 });
}

#[test]
fn revert_with_empty_range_reports_revert() {
    let mut vm = fresh();
    vm.push1(0x00);
    vm.push1(0x00);
    vm.revert();
    assert_eq!(vm.env.exit_status, Some(ExitStatus::Revert));
    assert!(vm.env.return_data.is_empty());
    assert!(vm.stack.is_empty());
}

#[test]
fn stop_clears_stack_and_succeeds() {
    let mut vm = fresh();
    vm.push1(0x2a);
    vm.stop();
    assert_eq!(vm.env.exit_status, Some(ExitStatus::Success));
    assert!(vm.env.return_data.is_empty());
    assert!(vm.stack.is_empty());
}

#[test]
fn division_by_zero_gives_zero() {
    let mut vm = fresh();
    vm.push1(0x00); // divisor (pushed first, popped second)
    vm.push1(0x07); // dividend on top
    vm.div();
    assert_eq!(vm.stack[0], Word { hi: 0, lo: 0 });
}

#[test]
fn unsigned_division_and_remainder() {
    let mut vm = fresh();
    vm.push1(3);
    vm.push1(7);
    vm.div(); // 7 / 3
    assert_eq!(vm.stack[0], Word { hi: 0, lo: 2 });
    let mut vm2 = fresh();
    vm2.push1(3);
    vm2.push1(7);
    vm2.modulo(); // 7 % 3
    assert_eq!(vm2.stack[0], Word { hi: 0, lo: 1 });
}

#[test]
fn signed_division_truncates_toward_zero() {
    let mut vm = fresh();
    // -7 / 2 = -3 (truncated)
    vm.push1(2);
    let minus7 = Word { hi: u128::MAX, lo: u128::MAX - 6 };
    vm.push_word(minus7);
    vm.sdiv();
    let minus3 = Word { hi: u128::MAX, lo: u128::MAX - 2 };
    assert_eq!(vm.stack[0], minus3);
}

#[test]
fn most_negative_divided_by_minus_one_wraps() {
    let mut vm = fresh();
    let minus1 = Word { hi: u128::MAX, lo: u128::MAX };
    let min = Word { hi: 1u128 << 127, lo: 0 };
    vm.push_word(minus1);
    vm.push_word(min);
    vm.sdiv();
    assert_eq!(vm.stack[0], min);
}

#[test]
fn subtraction_wraps_modulo_two_to_the_256() {
    let mut vm = fresh();
    vm.push1(1); // subtrahend pushed first
    vm.push1(0); // top = 0; computes 0 - 1
    vm.sub();
    assert_eq!(vm.stack[0], Word { hi: u128::MAX, lo: u128::MAX });
}

#[test]
fn exp_computes_powers() {
    let mut vm = fresh();
    vm.push1(5); // exponent (second pop)
    vm.push1(3); // base on top
    vm.exp();
    assert_eq!(vm.stack[0], Word { hi: 0, lo: 243 });
}

#[test]
fn comparisons_push_one_or_zero() {
    let mut vm = fresh();
    vm.push1(2);
    vm.push1(1);
    vm.lt(); // 1 < 2
    assert_eq!(vm.stack[0], Word { hi: 0, lo: 1 });
    let mut vm2 = fresh();
    vm2.push1(2);
    vm2.push1(1);
    vm2.gt(); // 1 > 2
    assert_eq!(vm2.stack[0], Word { hi: 0, lo: 0 });
    let mut vm3 = fresh();
    vm3.push1(7);
    vm3.push1(7);
    vm3.eq();
    assert_eq!(vm3.stack[0], Word { hi: 0, lo: 1 });
    let mut vm4 = fresh();
    vm4.push1(0);
    vm4.iszero();
    assert_eq!(vm4.stack[0], Word { hi: 0, lo: 1 });
}

#[test]
fn signed_comparison_sees_negative_below_positive() {
    let mut vm = fresh();
    vm.push1(1); // b = 1
    let minus1 = Word { hi: u128::MAX, lo: u128::MAX };
    vm.push_word(minus1); // a = -1 on top
    vm.slt(); // -1 < 1
    assert_eq!(vm.stack[0], Word { hi: 0, lo: 1 });
}

#[test]
fn byte_reads_big_endian_positions() {
    let mut vm = fresh();
    vm.push2(0xabcd); // word
    vm.push1(31); // index: least significant byte
    vm.byte();
    assert_eq!(vm.stack[0], Word { hi: 0, lo: 0xcd });
}

#[test]
fn shifts_move_bits() {
    let mut vm = fresh();
    vm.push1(1); // value
    vm.push1(4); // shift on top
    vm.shl();
    assert_eq!(vm.stack[0], Word { hi: 0, lo: 16 });
    let mut vm2 = fresh();
    vm2.push1(16);
    vm2.push1(4);
    vm2.shr();
    assert_eq!(vm2.stack[0], Word { hi: 0, lo: 1 });
    // SAR of -8 by 2 is -2
    let mut vm3 = fresh();
    let minus8 = Word { hi: u128::MAX, lo: u128::MAX - 7 };
    vm3.push_word(minus8);
    vm3.push1(2);
    vm3.sar();
    let minus2 = Word { hi: u128::MAX, lo: u128::MAX - 1 };
    assert_eq!(vm3.stack[0], minus2);
}

#[test]
fn signextend_widens_a_byte() {
    let mut vm = fresh();
    vm.push1(0xff); // value: a negative i8
    vm.push1(0); // extend from byte 0
    vm.signextend();
    assert_eq!(vm.stack[0], Word { hi: u128::MAX, lo: u128::MAX });
    let mut vm2 = fresh();
    vm2.push1(0x7f); // positive i8 stays itself
    vm2.push1(0);
    vm2.signextend();
    assert_eq!(vm2.stack[0], Word { hi: 0, lo: 0x7f });
}

#[test]
fn memory_store_and_load_round_trip() {
    let mut vm = fresh();
    vm.push1(0x2a); // value (second pop)
    vm.push1(0x00); // offset on top
    vm.mstore();
    assert_eq!(vm.memory.len(), 32);
    vm.push1(0x00);
    vm.mload();
    assert_eq!(vm.stack[0], Word { hi: 0, lo: 0x2a });
    vm.msize();
    assert_eq!(vm.stack[1], Word { hi: 0, lo: 32 });
}

#[test]
fn mstore8_writes_one_byte() {
    let mut vm = fresh();
    vm.push2(0x1234); // value: only the low byte lands
    vm.push1(5); // offset
    vm.mstore8();
    assert_eq!(vm.memory[5], 0x34);
}

#[test]
fn storage_write_then_read() {
    let mut vm = fresh();
    vm.push1(0x2a); // value
    vm.push1(0x07); // key on top
    vm.sstore();
    vm.push1(0x07);
    vm.sload();
    assert_eq!(vm.stack[0], Word { hi: 0, lo: 0x2a });
    let mut vm2 = fresh();
    vm2.push1(0x07);
    vm2.sload(); // never written: zero
    assert_eq!(vm2.stack[0], Word { hi: 0, lo: 0 });
}

#[test]
fn dup_and_swap_rearrange_the_stack() {
    let mut vm = fresh();
    vm.push1(1);
    vm.push1(2);
    vm.dup2();
    assert_eq!(vm.stack.len(), 3);
    assert_eq!(vm.stack[2], Word { hi: 0, lo: 1 });
    let mut vm2 = fresh();
    vm2.push1(1);
    vm2.push1(2);
    vm2.swap1();
    assert_eq!(vm2.stack[0], Word { hi: 0, lo: 2 });
    assert_eq!(vm2.stack[1], Word { hi: 0, lo: 1 });
}

#[test]
fn logs_capture_topics_and_memory() {
    let mut vm = fresh();
    vm.push1(0x2a); // value
    vm.push1(0x00); // offset
    vm.mstore();
    vm.push1(0x77); // topic
    vm.push1(32); // size (second pop)
    vm.push1(0); // offset on top
    vm.log1();
    assert_eq!(vm.env.logs.len(), 1);
    assert_eq!(vm.env.logs[0].topics, vec![Word { hi: 0, lo: 0x77 }]);
    assert_eq!(vm.env.logs[0].data.len(), 32);
    assert_eq!(vm.env.logs[0].data[31], 0x2a);
}

#[test]
fn stubbed_calls_trap() {
    let mut vm = fresh();
    vm.call();
    assert_eq!(vm.env.exit_status, Some(ExitStatus::Trapped));
}

#[test]
fn gas_is_charged_per_opcode() {
    let mut vm = fresh();
    vm.push1(1);
    vm.push1(2);
    vm.add();
    assert_eq!(vm.gas_used, 3 + 3 + 3);
}

#[test]
fn invalid_burns_everything_and_reverts() {
    let mut vm = fresh();
    vm.invalid();
    assert_eq!(vm.gas_used, vm.gas_limit);
    assert_eq!(vm.env.exit_status, Some(ExitStatus::Revert));
    assert!(vm.env.return_data.is_empty());
}

#[test]
fn pop_u32_truncates_the_word() {
    let mut vm = fresh();
    vm.push8(0x1_2345_6789);
    let pc = vm._evm_pop_u32();
    assert_eq!(pc, 0x2345_6789);
}

#[test]
fn init_and_call_frame_the_environment() {
    let mut vm = fresh();
    vm._evm_init(42, 1000);
    assert_eq!(vm.chain_id, Word { hi: 0, lo: 42 });
    assert_eq!(vm.self_balance, Word { hi: 0, lo: 1000 });
    vm.env.call_data = vec![0xaa, 0xbb];
    vm._evm_call(0x11223344);
    assert_eq!(vm.env.call_data, vec![0x11, 0x22, 0x33, 0x44, 0xaa, 0xbb]);
}

#[test]
fn calldataload_pads_with_zeros() {
    let mut vm = fresh();
    vm.env.call_data = vec![0xaa, 0xbb];
    vm.push1(1);
    vm.calldataload();
    // bytes: bb then 31 zeros, read big-endian
    assert_eq!(vm.stack[0], Word { hi: 0xbb << 120, lo: 0 });
}

#[test]
fn sha3_of_empty_range_is_the_empty_digest() {
    let mut vm = fresh();
    vm.push1(0); // size (second pop)
    vm.push1(0); // offset on top
    vm.sha3();
    assert_eq!(
        vm.stack[0],
        Word { hi: 0xc5d2460186f7233c927e7db2dcc703c0, lo: 0xe500b653ca82273b7bfad8045d85a470 }
    );
}

#[test]
fn sha3_matches_the_crate_digest() {
    let mut vm = fresh();
    vm.push1(0x61); // value: 'a' in the low byte
    vm.push1(0); // offset
    vm.mstore8();
    vm.push1(1); // size
    vm.push1(0); // offset
    vm.sha3();
    let h = sha3::Keccak256::digest(b"a");
    let hi = u128::from_be_bytes(h[0..16].try_into().unwrap());
    let lo = u128::from_be_bytes(h[16..32].try_into().unwrap());
    assert_eq!(vm.stack[0], Word { hi, lo });
}

#[test]
fn addmod_survives_a_wrapping_sum() {
    // (max + max) mod 7, where the sum does not fit 256 bits
    let mut vm = fresh();
    vm.push1(7); // n
    let max = Word { hi: u128::MAX, lo: u128::MAX };
    vm.push_word(max); // b
    vm.push_word(max); // a
    vm.addmod();
    // 2^256 = 2 (mod 7), so max = 1 (mod 7) and the true sum is 2 (mod 7)
    assert_eq!(vm.stack[0], Word { hi: 0, lo: 2 });
}

#[test]
fn mulmod_and_addmod_follow_their_rules() {
    let mut vm = fresh();
    vm.push1(5); // n
    vm.push1(4); // b
    vm.push1(3); // a on top
    vm.addmod(); // (3 + 4) % 5 = 2
    assert_eq!(vm.stack[0], Word { hi: 0, lo: 2 });
    let mut vm2 = fresh();
    vm2.push1(5);
    vm2.push1(4);
    vm2.push1(3);
    vm2.mulmod(); // (3 * 4) % 5 = 2
    assert_eq!(vm2.stack[0], Word { hi: 0, lo: 2 });
}

#[test]
fn mulmod_survives_a_wrapping_product() {
    // (max * max) mod 7: the square of 2^256 - 1 needs 512 bits
    let mut vm = fresh();
    vm.push1(7); // n
    let max = Word { hi: u128::MAX, lo: u128::MAX };
    vm.push_word(max); // b
    vm.push_word(max); // a
    vm.mulmod();
    // max = 1 (mod 7), so the true product is 1 (mod 7)
    assert_eq!(vm.stack[0], Word { hi: 0, lo: 1 });
}

#[test]
fn wide_pushes_assemble_little_endian_chunks() {
    let mut vm = fresh();
    vm.push16(0x0123_4567_89ab_cdef_0011_2233_4455_6677);
    assert_eq!(vm.stack[0], Word { hi: 0, lo: 0x0123_4567_89ab_cdef_0011_2233_4455_6677 });
    let mut vm2 = fresh();
    vm2.push32(1, 2, 3, 4);
    assert_eq!(vm2.stack[0], Word { hi: 3 + (4 << 64), lo: 1 + (2 << 64) });
    let mut vm3 = fresh();
    vm3.push17(0xaa, 0xbb, 0xcc);
    assert_eq!(vm3.stack[0], Word { hi: 0xcc, lo: 0xaa + (0xbb << 64) });
}

#[test]
fn deep_dup_and_swap_reach_sixteen() {
    let mut vm = fresh();
    for i in 0..17u8 {
        vm.push1(i);
    }
    vm.dup16(); // duplicates the value 16 places below the top: 1
    assert_eq!(vm.stack.last().unwrap(), &Word { hi: 0, lo: 1 });
    let mut vm2 = fresh();
    for i in 0..17u8 {
        vm2.push1(i);
    }
    vm2.swap16(); // swaps top (16) with the value 16 below (0)
    assert_eq!(vm2.stack.last().unwrap(), &Word { hi: 0, lo: 0 });
    assert_eq!(vm2.stack[0], Word { hi: 0, lo: 16 });
}

#[test]
fn codecopy_pads_past_the_code_end() {
    let mut vm = Evm::new(vec![0xde, 0xad], 1, 0);
    vm.push1(4); // size
    vm.push1(0); // source offset
    vm.push1(0); // destination on top
    vm.codecopy();
    assert_eq!(&vm.memory[0..4], &[0xde, 0xad, 0x00, 0x00]);
}

#[test]
fn environment_readers_push_their_values() {
    let mut vm = fresh();
    vm.env.timestamp = 1234;
    vm.env.block_height = 77;
    vm.env.address = [0x11; 20];
    vm.timestamp();
    vm.number();
    vm.chainid();
    vm.address();
    assert_eq!(vm.stack[0], Word { hi: 0, lo: 1234 });
    assert_eq!(vm.stack[1], Word { hi: 0, lo: 77 });
    assert_eq!(vm.stack[2], Word { hi: 0, lo: 1313161554 });
    // the address occupies the low twenty bytes
    let a = vm.stack[3];
    assert_eq!(a.hi, 0x11111111);
    assert_eq!(a.lo, 0x1111_1111_1111_1111_1111_1111_1111_1111);
}

#[test]
fn balance_distinguishes_self_from_strangers() {
    let mut vm = Evm::new(Vec::new(), 1, 5000);
    vm.env.address = [0x22; 20];
    // an address word matching our own
    let mut own = Word { hi: 0, lo: 0 };
    for _ in 0..20 {
        // build 20 bytes of 0x22 in the low positions
        own = Word {
            hi: (own.hi << 8) | (own.lo >> 120),
            lo: (own.lo << 8) | 0x22,
        };
    }
    vm.push_word(own);
    vm.balance();
    assert_eq!(vm.stack[0], Word { hi: 0, lo: 5000 });
    let mut vm2 = Evm::new(Vec::new(), 1, 5000);
    vm2.env.address = [0x22; 20];
    vm2.push1(0x99); // some other address
    vm2.balance();
    assert_eq!(vm2.stack[0], Word { hi: 0, lo: 0 });
}

#[test]
fn return_carries_the_memory_range() {
    let mut vm = fresh();
    vm.push1(0x2a); // value
    vm.push1(0); // offset
    vm.mstore();
    vm.push1(32); // size
    vm.push1(0); // offset on top
    vm.ret();
    assert_eq!(vm.env.exit_status, Some(ExitStatus::Success));
    assert_eq!(vm.env.return_data.len(), 32);
    assert_eq!(vm.env.return_data[31], 0x2a);
}

#[test]
fn exp_handles_exponents_beyond_32_bits() {
    // base 2 with exponent 2^64: far past 256 bits of result, so zero
    let mut vm = fresh();
    vm.push_word(Word { hi: 0, lo: 1u128 << 64 }); // exponent (second pop)
    vm.push1(2); // base on top
    vm.exp();
    assert_eq!(vm.stack[0], Word { hi: 0, lo: 0 });
    // base 1 with a huge exponent stays 1
    let mut vm2 = fresh();
    vm2.push_word(Word { hi: u128::MAX, lo: u128::MAX });
    vm2.push1(1);
    vm2.exp();
    assert_eq!(vm2.stack[0], Word { hi: 0, lo: 1 });
    // 2^255 still fits
    let mut vm3 = fresh();
    vm3.push2(255);
    vm3.push1(2);
    vm3.exp();
    assert_eq!(vm3.stack[0], Word { hi: 1 << 127, lo: 0 });
}
