use evm2cspr::analyze::{analyze, Succ};
use evm2cspr::decode::decode_bytecode;

#[test]
fn single_jumpdest_is_one_block_with_one_table_entry() {
    let p = decode_bytecode(b"5b").unwrap();
    let a = analyze(&p);
    assert_eq!(a.blocks.len(), 1);
    assert_eq!(a.blocks[0].first, 0);
    assert_eq!(a.blocks[0].end, 1);
    assert_eq!(a.jump_table.len(), 1);
    assert_eq!(a.jump_table[0].pc, 0);
    assert_eq!(a.jump_table[0].block, 0);
}

#[test]
fn blocks_partition_the_stream() {
    // PUSH1 3, JUMP, JUMPDEST, PUSH1 0xff
    let p = decode_bytecode(b"6003565b60ff").unwrap();
    let a = analyze(&p);
    assert_eq!(a.blocks.len(), 2);
    assert_eq!(a.blocks[0].first, 0);
    assert_eq!(a.blocks[0].end, 2);
    assert_eq!(a.blocks[1].first, 2);
    assert_eq!(a.blocks[1].end, 4);
    assert_eq!(a.blocks[0].succ, Succ::Jump);
    // the jump table holds exactly the JUMPDEST at pc 3, opening block 1
    assert_eq!(a.jump_table.len(), 1);
    assert_eq!(a.jump_table[0].pc, 3);
    assert_eq!(a.jump_table[0].block, 1);
}

#[test]
fn jump_to_non_jumpdest_has_no_table_entry() {
    // PUSH1 4, JUMP: pc 4 is past the end and is no JUMPDEST
    let p = decode_bytecode(b"600456").unwrap();
    let a = analyze(&p);
    assert!(a.jump_table.iter().all(|e| e.pc != 4));
    assert_eq!(a.jump_table.len(), 0);
}

#[test]
fn jumpdest_inside_push_immediate_is_no_destination() {
    // PUSH2 0x5b5b: the 0x5b bytes sit inside the immediate
    let p = decode_bytecode(b"615b5b").unwrap();
    let a = analyze(&p);
    assert_eq!(a.jump_table.len(), 0);
}

#[test]
fn jumpi_block_records_fallthrough_successor() {
    // PUSH1 5, PUSH1 1, JUMPI, STOP, 5: JUMPDEST? build: 6005600157005b
    let p = decode_bytecode(b"6005600157005b").unwrap();
    let a = analyze(&p);
    assert_eq!(a.blocks.len(), 3);
    assert_eq!(a.blocks[0].succ, Succ::Jumpi(1));
    assert_eq!(a.blocks[1].succ, Succ::Terminal);
    assert_eq!(a.jump_table.len(), 1);
    assert_eq!(a.jump_table[0].pc, 6);
    assert_eq!(a.jump_table[0].block, 2);
}
