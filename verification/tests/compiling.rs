use evm2cspr::analyze::analyze;
use evm2cspr::compile::{compile, parse_chain_id, CompilerConfig};
use evm2cspr::decode::decode_bytecode;
use evm2cspr::wasm::{
    find_export, leb_decode, leb_encode, merge, module_bytes, parse, Export, FuncType, WasmModule,
};
use evm2cspr::CompileError;

fn empty_type() -> FuncType {
    FuncType { params: Vec::new(), results: Vec::new() }
}

/// A tiny stand-in runtime exporting every helper the compiler calls.
fn tiny_runtime() -> WasmModule {
    let names = [
        "stop", "add", "mul", "sub", "div", "jump", "push1", "push2", "push32", "return",
        "revert", "invalid", "_evm_pop_u32", "_evm_burn_gas", "_evm_set_pc",
    ];
    let mut functions = Vec::new();
    let mut code = Vec::new();
    let mut exports = Vec::new();
    for (i, n) in names.iter().enumerate() {
        functions.push(0u32);
        code.push(vec![0x00, 0x0b]); // no locals, empty body
        exports.push(Export { name: n.as_bytes().to_vec(), kind: 0, index: i as u32 });
    }
    WasmModule {
        types: vec![empty_type()],
        imports: Vec::new(),
        n_func_imports: 0,
        functions,
        table: None,
        memory: None,
        global: None,
        exports,
        start: None,
        element: None,
        code,
        data: Vec::new(),
    }
}

#[test]
fn leb_round_trip() {
    for v in [0u32, 1, 127, 128, 300, 624485, u32::MAX] {
        let enc = leb_encode(v);
        let (back, used) = leb_decode(enc.as_slice(), 0).unwrap();
        assert_eq!(back, v);
        assert_eq!(used, enc.len());
    }
}

#[test]
fn merge_preserves_every_existing_export_and_body() {
    let rt = tiny_runtime();
    let old_exports: Vec<(Vec<u8>, u8, u32)> =
        rt.exports.iter().map(|e| (e.name.clone(), e.kind, e.index)).collect();
    let old_code = rt.code.clone();
    let n_funcs = rt.functions.len();
    let merged = merge(rt, empty_type(), vec![0x00, 0x0b], b"_evm_execute".to_vec(), vec![0x2a])
        .unwrap();
    for (j, (name, kind, index)) in old_exports.iter().enumerate() {
        assert_eq!(&merged.exports[j].name, name);
        assert_eq!(merged.exports[j].kind, *kind);
        assert_eq!(merged.exports[j].index, *index);
    }
    for (j, body) in old_code.iter().enumerate() {
        assert_eq!(&merged.code[j], body);
    }
    let last = merged.exports.last().unwrap();
    assert_eq!(last.name, b"_evm_execute".to_vec());
    assert_eq!(last.kind, 0);
    assert_eq!(last.index as usize, n_funcs);
    assert_eq!(merged.data.len(), 1);
}

#[test]
fn emitted_module_parses_back() {
    let rt = tiny_runtime();
    let n_exports = rt.exports.len();
    let bytes = module_bytes(&rt).unwrap();
    assert_eq!(&bytes[0..8], &[0x00, 0x61, 0x73, 0x6d, 0x01, 0x00, 0x00, 0x00]);
    let back = parse(bytes.as_slice()).unwrap();
    assert_eq!(back.types.len(), 1);
    assert_eq!(back.functions.len(), back.code.len());
    assert_eq!(back.exports.len(), n_exports);
    assert_eq!(back.exports[0].name, b"stop".to_vec());
    assert!(find_export(&back, b"add").is_some());
    assert!(find_export(&back, b"nothere").is_none());
}

#[test]
fn compile_appends_entrypoint_and_keeps_runtime() {
    let p = decode_bytecode(b"6001600201").unwrap();
    let a = analyze(&p);
    let rt = tiny_runtime();
    let n_exports = rt.exports.len();
    let config = CompilerConfig::new(true, true, 1313161554);
    let m = compile(&p, &a, rt, &config, b"_evm_execute".to_vec()).unwrap();
    assert_eq!(m.exports.len(), n_exports + 1);
    assert_eq!(m.exports.last().unwrap().name, b"_evm_execute".to_vec());
    // the whole pipeline still emits a loadable binary
    let bytes = module_bytes(&m).unwrap();
    let back = parse(bytes.as_slice()).unwrap();
    assert!(find_export(&back, b"_evm_execute").is_some());
    // the original bytecode rides in the data segment
    let seg = m.data.last().unwrap();
    assert!(seg.ends_with(&[0x60, 0x01, 0x60, 0x02, 0x01]));
}

#[test]
fn compile_reports_missing_runtime_symbols() {
    let p = decode_bytecode(b"6001600201").unwrap();
    let a = analyze(&p);
    let rt = WasmModule {
        types: vec![empty_type()],
        imports: Vec::new(),
        n_func_imports: 0,
        functions: Vec::new(),
        table: None,
        memory: None,
        global: None,
        exports: Vec::new(),
        start: None,
        element: None,
        code: Vec::new(),
        data: Vec::new(),
    };
    let config = CompilerConfig::new(false, false, 1);
    let r = compile(&p, &a, rt, &config, b"_evm_execute".to_vec());
    match r {
        Err(CompileError::RuntimeMissingSymbol(name)) => {
            assert_eq!(name, b"push1".to_vec());
        },
        Err(other) => panic!("expected a missing-symbol error, got {:?}", other),
        Ok(_) => panic!("expected a missing-symbol error, got a module"),
    }
}

#[test]
fn merge_refuses_a_duplicate_export_name() {
    let rt = tiny_runtime();
    let r = merge(rt, empty_type(), vec![0x00, 0x0b], b"add".to_vec(), vec![]);
    assert_eq!(r.err(), Some(CompileError::MergeError));
}

#[test]
fn chain_ids_by_name_and_number() {
    assert_eq!(parse_chain_id(b"mainnet"), Ok(1313161554));
    assert_eq!(parse_chain_id(b"testnet"), Ok(1313161555));
    assert_eq!(parse_chain_id(b"betanet"), Ok(1313161556));
    assert_eq!(parse_chain_id(b"42"), Ok(42));
    assert_eq!(parse_chain_id(b"18446744073709551615"), Ok(u64::MAX));
    assert_eq!(parse_chain_id(b"18446744073709551616"), Err(CompileError::ConfigError));
    assert_eq!(parse_chain_id(b"devnet"), Err(CompileError::ConfigError));
    assert_eq!(parse_chain_id(b""), Err(CompileError::ConfigError));
}

#[test]
fn malformed_wasm_is_refused() {
    assert_eq!(parse(b"not wasm").err(), Some(CompileError::MalformedModule));
    assert_eq!(parse(b"\x00asm\x02\x00\x00\x00").err(), Some(CompileError::MalformedModule));
}

#[test]
fn leb_decoding_reads_padded_and_plain_forms() {
    assert_eq!(leb_decode(&[0x80, 0x01], 0), Some((128, 2)));
    // a padded (non-minimal) encoding of 5 is still value 5
    assert_eq!(leb_decode(&[0x85, 0x80, 0x00], 0), Some((5, 3)));
    // five continuation bytes never terminate a 32-bit read
    assert_eq!(leb_decode(&[0xff, 0xff, 0xff, 0xff, 0xff, 0xff], 0), None);
    // a value past 32 bits is refused
    assert_eq!(leb_decode(&[0xff, 0xff, 0xff, 0xff, 0x7f], 0), None);
}

#[test]
fn emitted_bytes_match_the_format_by_hand() {
    let m = WasmModule {
        types: vec![empty_type()],
        imports: Vec::new(),
        n_func_imports: 0,
        functions: vec![0],
        table: None,
        memory: None,
        global: None,
        exports: vec![Export { name: b"f".to_vec(), kind: 0, index: 0 }],
        start: None,
        element: None,
        code: vec![vec![0x00, 0x0b]],
        data: Vec::new(),
    };
    let bytes = module_bytes(&m).unwrap();
    let expected: Vec<u8> = vec![
        0x00, 0x61, 0x73, 0x6d, 0x01, 0x00, 0x00, 0x00, // magic, version
        0x01, 0x04, 0x01, 0x60, 0x00, 0x00, // type section: () -> ()
        0x03, 0x02, 0x01, 0x00, // function section: one function of type 0
        0x07, 0x05, 0x01, 0x01, 0x66, 0x00, 0x00, // export section: "f" func 0
        0x0a, 0x04, 0x01, 0x02, 0x00, 0x0b, // code section: one empty body
    ];
    assert_eq!(bytes, expected);
}
