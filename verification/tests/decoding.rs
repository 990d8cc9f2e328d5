use evm2cspr::decode::{decode_bytecode, hex_to_bytes, parse_call_data_arg, strip_metadata};
use evm2cspr::CompileError;

#[test]
fn decodes_push_add_program() {
    let p = decode_bytecode(b"6001600201").unwrap();
    assert_eq!(p.code, vec![0x60, 0x01, 0x60, 0x02, 0x01]);
    assert_eq!(p.instrs.len(), 3);
    assert_eq!(p.instrs[0].pc, 0);
    assert_eq!(p.instrs[0].op, 0x60);
    assert_eq!(p.instrs[0].imm, vec![0x01]);
    assert_eq!(p.instrs[0].size, 2);
    assert_eq!(p.instrs[1].pc, 2);
    assert_eq!(p.instrs[1].op, 0x60);
    assert_eq!(p.instrs[1].imm, vec![0x02]);
    assert_eq!(p.instrs[2].pc, 4);
    assert_eq!(p.instrs[2].op, 0x01);
    assert_eq!(p.instrs[2].size, 1);
}

#[test]
fn record_sizes_cover_the_stripped_code() {
    let p = decode_bytecode(b"0x5b600456fe").unwrap();
    let total: u32 = p.instrs.iter().map(|i| i.size as u32).sum();
    assert_eq!(total as usize, p.code.len());
}

#[test]
fn hex_accepts_prefix_and_whitespace() {
    assert_eq!(hex_to_bytes(b"0x60 01\n60 02 01").unwrap(), vec![0x60, 1, 0x60, 2, 1]);
    assert_eq!(hex_to_bytes(b"6001").unwrap(), vec![0x60, 1]);
}

#[test]
fn hex_rejects_odd_length_and_bad_digits() {
    assert_eq!(hex_to_bytes(b"600"), Err(CompileError::BadHex));
    assert_eq!(hex_to_bytes(b"60zz"), Err(CompileError::BadHex));
}

#[test]
fn empty_input_is_its_own_error() {
    assert_eq!(decode_bytecode(b"").err(), Some(CompileError::Empty));
    assert_eq!(decode_bytecode(b"0x").err(), Some(CompileError::Empty));
}

#[test]
fn truncated_push_is_zero_padded() {
    let p = decode_bytecode(b"61ff").unwrap();
    assert_eq!(p.instrs.len(), 1);
    assert_eq!(p.instrs[0].op, 0x61);
    assert_eq!(p.instrs[0].imm, vec![0xff, 0x00]);
    assert_eq!(p.instrs[0].size, 2);
}

#[test]
fn metadata_suffix_is_stripped() {
    // code ++ 0xa2 <3 filler bytes> ++ length 4 (big endian)
    let mut with_meta = vec![0x60u8, 0x01, 0x60, 0x02, 0x01];
    with_meta.extend_from_slice(&[0xa2, 0x64, 0x64, 0x64, 0x00, 0x04]);
    let stripped = strip_metadata(with_meta);
    assert_eq!(stripped, vec![0x60, 0x01, 0x60, 0x02, 0x01]);
}

#[test]
fn decoder_ignores_metadata_suffix() {
    let plain = decode_bytecode(b"6001600201").unwrap();
    let suffixed = decode_bytecode(b"6001600201a26464640004").unwrap();
    assert_eq!(plain.code, suffixed.code);
    assert_eq!(plain.instrs.len(), suffixed.instrs.len());
    for (a, b) in plain.instrs.iter().zip(suffixed.instrs.iter()) {
        assert_eq!(a.pc, b.pc);
        assert_eq!(a.op, b.op);
        assert_eq!(a.imm, b.imm);
        assert_eq!(a.size, b.size);
    }
}

#[test]
fn call_data_argument_classification() {
    assert_eq!(parse_call_data_arg(b"0x60ff").unwrap(), vec![0x60, 0xff]);
    assert_eq!(parse_call_data_arg(b"{\"a\":1}").unwrap(), b"{\"a\":1}".to_vec());
    assert_eq!(parse_call_data_arg(b"[1,2]").unwrap(), b"[1,2]".to_vec());
    assert!(parse_call_data_arg(b"hello").is_err());
    assert_eq!(parse_call_data_arg(b"0xzz"), Err(CompileError::BadHex));
}
