//! Ahead-of-time translator from EVM contract bytecode to a WebAssembly
//! module, together with the 256-bit stack machine the emitted module calls
//! into.
//!
//! The pipeline: `decode` recovers the instruction stream from a byte blob,
//! `analyze` finds jump destinations and basic blocks, `wasm` models, parses
//! and emits WebAssembly binaries, and `compile` lowers the instruction
//! stream into a function that is merged into a prebuilt runtime module.
//! The `machine` and `ops` modules hold the runtime's own state machine.
pub mod analyze;
pub mod compile;
pub mod arith;
pub mod decode;
pub mod machine;
pub mod opcode;
pub mod ops;
pub mod wasm;
pub mod word;
pub mod word_bytes;

use vstd::prelude::*;

verus! {

/// The error kinds that a compile can end with, mirrored one to one by the
/// command line front end.
#[derive(Clone, Debug, PartialEq, Eq)]
pub enum CompileError {
    /// The input held a character that is not hexadecimal, or an odd number
    /// of hex digits.
    BadHex,
    /// The input held no bytecode at all.
    Empty,
    /// A wasm binary could not be understood.
    MalformedModule,
    /// The runtime module lacks an export that the compiler must call;
    /// the payload names the missing symbol.
    RuntimeMissingSymbol(Vec<u8>),
    /// A merge step could not keep the module consistent.
    MergeError,
    /// An instruction the compiler cannot lower, with its opcode byte
    /// and pc.
    UnsupportedOpcode(u8, u32),
    /// A configuration value could not be understood.
    ConfigError,
}

} // verus!
