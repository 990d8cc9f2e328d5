//! The WebAssembly binary model: LEB128 numbers, a section-per-field
//! module model, a parser and an emitter for the binary format, and the
//! merge step that plants the compiled contract function into the
//! prebuilt runtime module.
use vstd::prelude::*;

use crate::CompileError;

verus! {

/// The unsigned LEB128 encoding of a number: seven bits per byte, low
/// bits first, the top bit marking continuation.
pub open spec fn spec_leb(n: nat) -> Seq<u8>
    decreases n,
{
    if n < 0x80 {
        seq![n as u8]
    } else {
        seq![(n % 0x80 + 0x80) as u8] + spec_leb(n / 0x80)
    }
}

/// Encodes a 32-bit number in unsigned LEB128.
pub fn leb_encode(n: u32) -> (r: Vec<u8>)
    ensures
        r@ == spec_leb(n as nat),
{
    let mut out: Vec<u8> = Vec::new();
    let mut x = n;
    let ghost orig = n as nat;
    loop
        invariant
            orig == n as nat,
            spec_leb(orig) == out@ + spec_leb(x as nat),
        decreases x,
    {
        if x < 0x80 {
            out.push(x as u8);
            proof {
                assert(spec_leb(x as nat) == seq![x as u8]);
                assert(out@ =~= spec_leb(orig));
            }
            return out;
        } else {
            let b = ((x % 0x80) + 0x80) as u8;
            proof {
                assert(spec_leb(x as nat) == seq![((x as nat) % 0x80 + 0x80) as u8] + spec_leb(
                    (x as nat) / 0x80,
                ));
                assert((out@ + spec_leb(x as nat)).skip(out@.len() as int) == spec_leb(x as nat));
                assert(out@.push(b) + spec_leb((x / 0x80) as nat) =~= out@ + spec_leb(x as nat));
            }
            out.push(b);
            x = x / 0x80;
        }
    }
}

/// The value carried by a LEB128 byte string: seven bits per byte, low
/// groups first, continuation bits ignored.
pub open spec fn leb_val(s: Seq<u8>) -> nat
    decreases s.len(),
{
    if s.len() == 0 {
        0
    } else {
        (s[0] % 0x80) as nat + 0x80 * leb_val(s.skip(1))
    }
}

/// A LEB128 number of at most 32 bits can be read at `pos`: some
/// terminator byte arrives within five bytes, everything before it
/// carries the continuation bit, and the value fits.
pub open spec fn leb_readable(bytes: Seq<u8>, pos: int) -> bool {
    exists|np: int|
        pos < np <= bytes.len() && np - pos <= 5 && bytes[np - 1] < 0x80 && (forall|k: int|
            pos <= k < np - 1 ==> bytes[k] >= 0x80) && #[trigger] leb_val(bytes.subrange(pos, np))
            <= u32::MAX
}

/// Appending one more byte adds its seven bits at the next weight.
#[verifier::rlimit(50)]
proof fn lemma_leb_val_snoc(s: Seq<u8>, b: u8)
    ensures
        leb_val(s.push(b)) == leb_val(s) + (b % 0x80) * vstd::arithmetic::power2::pow2(
            7 * s.len(),
        ),
    decreases s.len(),
{
    vstd::arithmetic::power2::lemma2_to64();
    if s.len() == 0 {
        assert(s.push(b).skip(1) =~= Seq::<u8>::empty());
        assert(s.push(b)[0] == b);
        assert(leb_val(s.push(b).skip(1)) == 0);
        assert(leb_val(s.push(b)) == (b % 0x80) as nat + 0x80 * 0);
        assert((b % 0x80) * vstd::arithmetic::power2::pow2(0) == (b % 0x80) as nat)
            by (nonlinear_arith)
            requires
                vstd::arithmetic::power2::pow2(0) == 1,
        ;
    } else {
        assert(s.push(b).skip(1) =~= s.skip(1).push(b));
        assert(s.push(b)[0] == s[0]);
        lemma_leb_val_snoc(s.skip(1), b);
        let p = vstd::arithmetic::power2::pow2(7 * (s.len() - 1) as nat);
        vstd::arithmetic::power2::lemma_pow2_adds(7, 7 * (s.len() - 1) as nat);
        assert(vstd::arithmetic::power2::pow2(7 * s.len()) == 0x80 * p);
        assert(leb_val(s.push(b)) == (s[0] % 0x80) as nat + 0x80 * leb_val(s.skip(1).push(b)));
        assert(leb_val(s.skip(1).push(b)) == leb_val(s.skip(1)) + (b % 0x80) * p);
        assert(leb_val(s) == (s[0] % 0x80) as nat + 0x80 * leb_val(s.skip(1)));
        assert(0x80 * (leb_val(s.skip(1)) + (b % 0x80) * p) == 0x80 * leb_val(s.skip(1)) + (b
            % 0x80) * (0x80 * p)) by (nonlinear_arith);
    }
}

/// A LEB128 string's value is below 2 to seven times its length.
proof fn lemma_leb_val_bound(s: Seq<u8>)
    ensures
        leb_val(s) < vstd::arithmetic::power2::pow2(7 * s.len()),
    decreases s.len(),
{
    vstd::arithmetic::power2::lemma2_to64();
    if s.len() > 0 {
        lemma_leb_val_bound(s.skip(1));
        let p = vstd::arithmetic::power2::pow2(7 * (s.len() - 1) as nat);
        vstd::arithmetic::power2::lemma_pow2_adds(7, 7 * (s.len() - 1) as nat);
        assert(vstd::arithmetic::power2::pow2(7 * s.len()) == 0x80 * p);
        assert(0x80 * leb_val(s.skip(1)) <= 0x80 * (p - 1)) by (nonlinear_arith)
            requires
                leb_val(s.skip(1)) <= p - 1,
        ;
    }
}

/// Reads an unsigned LEB128 number of at most 32 bits from `bytes` at
/// `pos`: the value and the position after it. The read succeeds exactly
/// when a number of at most 32 bits stands there.
pub fn leb_decode(bytes: &[u8], pos: usize) -> (r: Option<(u32, usize)>)
    requires
        pos <= bytes@.len(),
    ensures
        match r {
            Some((v, np)) => {
                &&& pos < np <= bytes@.len()
                &&& np - pos <= 5
                &&& bytes@[np - 1] < 0x80
                &&& forall|k: int| pos <= k < np - 1 ==> bytes@[k] >= 0x80
                &&& v == leb_val(bytes@.subrange(pos as int, np as int))
            },
            None => !leb_readable(bytes@, pos as int),
        },
{
    proof {
        vstd::arithmetic::power2::lemma2_to64();
    }
    let mut value: u64 = 0;
    let mut shift: u32 = 0;
    let mut i = pos;
    loop
        invariant
            pos <= i <= bytes@.len(),
            shift == 7 * (i - pos),
            shift <= 35,
            value == leb_val(bytes@.subrange(pos as int, i as int)),
            value < vstd::arithmetic::power2::pow2(shift as nat),
            forall|k: int| pos <= k < i ==> bytes@[k] >= 0x80,
        decreases bytes@.len() - i,
    {
        if i >= bytes.len() || shift > 28 {
            proof {
                assert(!leb_readable(bytes@, pos as int)) by {
                    if leb_readable(bytes@, pos as int) {
                        let np = choose|np: int|
                            pos < np <= bytes@.len() && np - pos <= 5 && bytes@[np - 1] < 0x80 && (
                            forall|k: int| pos <= k < np - 1 ==> bytes@[k] >= 0x80)
                                && #[trigger] leb_val(bytes@.subrange(pos as int, np)) <= u32::MAX;
                        assert(np - 1 < i);
                        assert(bytes@[np - 1] >= 0x80);
                    }
                }
            }
            return None;
        }
        let b = bytes[i];
        let ghost vv0 = value;
        proof {
            vstd::arithmetic::power2::lemma2_to64();
            let x = (b & 0x7f) as u64;
            let sh = shift;
            assert(b & 0x7f == b % 0x80) by (bit_vector);
            assert(vstd::arithmetic::power2::pow2(sh as nat) <= 0x1000_0000) by {
                if sh < 28 {
                    vstd::arithmetic::power2::lemma_pow2_strictly_increases(sh as nat, 28);
                }
            }
            assert(x * vstd::arithmetic::power2::pow2(sh as nat) <= 127 * 0x1000_0000)
                by (nonlinear_arith)
                requires
                    x <= 127,
                    vstd::arithmetic::power2::pow2(sh as nat) <= 0x1000_0000,
            ;
            vstd::bits::lemma_u64_shl_is_mul(x, sh as u64);
            assert((1u64 << (sh as u64)) == vstd::arithmetic::power2::pow2(sh as nat)) by {
                vstd::bits::lemma_u64_shl_is_mul(1u64, sh as u64);
            }
            assert(vv0 | (x << (sh as u64)) == vv0 + (x << (sh as u64))) by (bit_vector)
                requires
                    vv0 < (1u64 << (sh as u64)),
                    sh <= 28,
                    x < 0x80,
            ;
            assert(bytes@.subrange(pos as int, i + 1 as int) =~= bytes@.subrange(
                pos as int,
                i as int,
            ).push(b));
            lemma_leb_val_snoc(bytes@.subrange(pos as int, i as int), b);
        }
        value = value | (((b & 0x7f) as u64) << shift);
        i = i + 1;
        if b & 0x80 == 0 {
            proof {
                assert(b % 0x80 == b) by (bit_vector)
                    requires
                        b & 0x80 == 0,
                ;
            }
            if value > u32::MAX as u64 {
                proof {
                    assert(!leb_readable(bytes@, pos as int)) by {
                        if leb_readable(bytes@, pos as int) {
                            let np = choose|np: int|
                                pos < np <= bytes@.len() && np - pos <= 5 && bytes@[np - 1] < 0x80
                                    && (forall|k: int| pos <= k < np - 1 ==> bytes@[k] >= 0x80)
                                    && #[trigger] leb_val(bytes@.subrange(pos as int, np))
                                    <= u32::MAX;
                            if np < i as int {
                                assert(bytes@[np - 1] >= 0x80);
                            } else if np > i as int {
                                assert(bytes@[i - 1] >= 0x80);
                            }
                        }
                    }
                }
                return None;
            }
            proof {
                lemma_leb_val_bound(bytes@.subrange(pos as int, i as int));
            }
            return Some((value as u32, i));
        }
        proof {
            assert(b >= 0x80) by (bit_vector)
                requires
                    b & 0x80 != 0,
            ;
            let x = (b & 0x7f) as u64;
            let p = vstd::arithmetic::power2::pow2(shift as nat);
            vstd::arithmetic::power2::lemma_pow2_adds(shift as nat, 7);
            assert(vstd::arithmetic::power2::pow2((shift + 7) as nat) == p * 0x80);
            assert(vv0 + x * p < p * 0x80) by (nonlinear_arith)
                requires
                    vv0 < p,
                    x < 0x80,
                    p > 0,
            ;
        }
        shift = shift + 7;
    }
}

/// One function type: the parameter and result value-type bytes.
pub struct FuncType {
    pub params: Vec<u8>,
    pub results: Vec<u8>,
}

/// One import: module name, field name, and the raw descriptor bytes,
/// whose first byte is the import kind (0 names a function).
pub struct Import {
    pub module: Vec<u8>,
    pub name: Vec<u8>,
    pub desc: Vec<u8>,
}

/// One export: the name, the kind byte (0 function, 1 table, 2 memory,
/// 3 global) and the index in that kind's space.
pub struct Export {
    pub name: Vec<u8>,
    pub kind: u8,
    pub index: u32,
}

/// An in-memory wasm module: parsed types, imports, function
/// declarations, exports and code, with the sections the merge never
/// touches kept as raw payloads.
pub struct WasmModule {
    pub types: Vec<FuncType>,
    pub imports: Vec<Import>,
    pub n_func_imports: u32,
    pub functions: Vec<u32>,
    pub table: Option<Vec<u8>>,
    pub memory: Option<Vec<u8>>,
    pub global: Option<Vec<u8>>,
    pub exports: Vec<Export>,
    pub start: Option<u32>,
    pub element: Option<Vec<u8>>,
    pub code: Vec<Vec<u8>>,
    pub data: Vec<Vec<u8>>,
}

/// How many of the imports bring in functions.
pub open spec fn count_func_imports(imports: Seq<Import>) -> int
    decreases imports.len(),
{
    if imports.len() == 0 {
        0
    } else {
        count_func_imports(imports.drop_last()) + (if imports.last().desc@.len() > 0
            && imports.last().desc@[0] == 0 {
            1int
        } else {
            0int
        })
    }
}

impl WasmModule {
    /// The bookkeeping the merge relies on: the cached function-import
    /// count is right, and each function declaration has a body.
    pub open spec fn wf(&self) -> bool {
        &&& self.n_func_imports as int == count_func_imports(self.imports@)
        &&& self.code@.len() == self.functions@.len()
    }
}

/// Structural equality of two function types.
pub fn func_type_eq(a: &FuncType, b: &FuncType) -> (r: bool)
    ensures
        r <==> (a.params@ == b.params@ && a.results@ == b.results@),
{
    if a.params.len() != b.params.len() || a.results.len() != b.results.len() {
        return false;
    }
    let mut i: usize = 0;
    while i < a.params.len()
        invariant
            i <= a.params@.len(),
            a.params@.len() == b.params@.len(),
            a.results@.len() == b.results@.len(),
            forall|k: int| 0 <= k < i ==> a.params@[k] == b.params@[k],
        decreases a.params@.len() - i,
    {
        if a.params[i] != b.params[i] {
            return false;
        }
        i = i + 1;
    }
    let mut j: usize = 0;
    while j < a.results.len()
        invariant
            j <= a.results@.len(),
            a.params@.len() == b.params@.len(),
            a.results@.len() == b.results@.len(),
            forall|k: int| 0 <= k < a.params@.len() ==> a.params@[k] == b.params@[k],
            forall|k: int| 0 <= k < j ==> a.results@[k] == b.results@[k],
        decreases a.results@.len() - j,
    {
        if a.results[j] != b.results[j] {
            return false;
        }
        j = j + 1;
    }
    proof {
        assert(a.params@ =~= b.params@);
        assert(a.results@ =~= b.results@);
    }
    true
}

/// Compares two byte strings.
pub fn bytes_eq(a: &[u8], b: &[u8]) -> (r: bool)
    ensures
        r <==> a@ == b@,
{
    if a.len() != b.len() {
        return false;
    }
    let mut i: usize = 0;
    while i < a.len()
        invariant
            i <= a@.len(),
            a@.len() == b@.len(),
            forall|k: int| 0 <= k < i ==> a@[k] == b@[k],
        decreases a@.len() - i,
    {
        if a[i] != b[i] {
            return false;
        }
        i = i + 1;
    }
    proof {
        assert(a@ =~= b@);
    }
    true
}

/// True when some export, of any kind, already bears `name`.
pub open spec fn has_export_named(exports: Seq<Export>, name: Seq<u8>) -> bool {
    exists|j: int| 0 <= j < exports.len() && (#[trigger] exports[j]).name@ == name
}

/// Looks for an export of any kind bearing `name`.
fn export_name_taken(m: &WasmModule, name: &[u8]) -> (r: bool)
    ensures
        r <==> has_export_named(m.exports@, name@),
{
    let mut j: usize = 0;
    let n = m.exports.len();
    while j < n
        invariant
            j <= n,
            n == m.exports@.len(),
            forall|k: int| 0 <= k < j ==> (#[trigger] m.exports@[k]).name@ != name@,
        decreases n - j,
    {
        if bytes_eq(m.exports[j].name.as_slice(), name) {
            return true;
        }
        j = j + 1;
    }
    false
}

/// Finds the function index exported under `name`, counting imports
/// first as the wasm index space does.
pub fn find_export(m: &WasmModule, name: &[u8]) -> (r: Option<u32>)
    ensures
        r is Some ==> exists|j: int|
            0 <= j < m.exports@.len() && (#[trigger] m.exports@[j]).name@ == name@
                && m.exports@[j].kind == 0 && m.exports@[j].index == r.unwrap(),
        r is None ==> forall|j: int|
            0 <= j < m.exports@.len() ==> !((#[trigger] m.exports@[j]).name@ == name@
                && m.exports@[j].kind == 0),
{
    let mut j: usize = 0;
    let n = m.exports.len();
    while j < n
        invariant
            j <= n,
            n == m.exports@.len(),
            forall|k: int|
                0 <= k < j ==> !((#[trigger] m.exports@[k]).name@ == name@ && m.exports@[k].kind
                    == 0),
        decreases n - j,
    {
        let e = &m.exports[j];
        if e.kind == 0 && bytes_eq(e.name.as_slice(), name) {
            return Some(e.index);
        }
        j = j + 1;
    }
    None
}

/// Looks for a structurally equal function type in the type section.
fn find_type(types: &Vec<FuncType>, ft: &FuncType) -> (r: Option<usize>)
    ensures
        r is Some ==> r.unwrap() < types@.len() && types@[r.unwrap() as int].params@ == ft.params@
            && types@[r.unwrap() as int].results@ == ft.results@,
{
    let mut t: usize = 0;
    let n = types.len();
    while t < n
        invariant
            t <= n,
            n == types@.len(),
        decreases n - t,
    {
        if func_type_eq(&types[t], ft) {
            return Some(t);
        }
        t = t + 1;
    }
    None
}

/// Merges the compiled contract into the runtime module: the bytecode
/// becomes one more data segment, the function's type is reused or
/// appended, the function and its body are appended, and the entrypoint
/// is exported under `export_name`. Nothing that existed moves: every
/// prior type, import, function, export, body and data segment keeps its
/// index and its bytes. The merge is refused exactly when the entrypoint
/// name is already exported (export names stay unique) or an index space
/// is full.
pub fn merge(
    runtime: WasmModule,
    func_type: FuncType,
    body: Vec<u8>,
    export_name: Vec<u8>,
    data_seg: Vec<u8>,
) -> (r: Result<WasmModule, CompileError>)
    requires
        runtime.wf(),
    ensures
        r is Err <==> has_export_named(runtime.exports@, export_name@) || runtime.n_func_imports
            + runtime.functions@.len() >= u32::MAX || runtime.types@.len() >= u32::MAX,
        r is Err ==> r == Err::<WasmModule, CompileError>(CompileError::MergeError),
        r is Ok ==> ({
            let m = r.unwrap();
            &&& m.wf()
            &&& m.imports@ == runtime.imports@
            &&& m.n_func_imports == runtime.n_func_imports
            &&& m.table == runtime.table
            &&& m.memory == runtime.memory
            &&& m.global == runtime.global
            &&& m.start == runtime.start
            &&& m.element == runtime.element
            &&& m.types@.len() >= runtime.types@.len()
            &&& m.types@.len() <= runtime.types@.len() + 1
            &&& forall|j: int| 0 <= j < runtime.types@.len() ==> m.types@[j] == runtime.types@[j]
            &&& m.functions@.len() == runtime.functions@.len() + 1
            &&& forall|j: int|
                0 <= j < runtime.functions@.len() ==> m.functions@[j] == runtime.functions@[j]
            &&& (m.functions@.last() as int) < m.types@.len()
            &&& m.types@[m.functions@.last() as int].params@ == func_type.params@
            &&& m.types@[m.functions@.last() as int].results@ == func_type.results@
            &&& m.code@.len() == runtime.code@.len() + 1
            &&& forall|j: int| 0 <= j < runtime.code@.len() ==> m.code@[j] == runtime.code@[j]
            &&& m.code@.last()@ == body@
            &&& m.exports@.len() == runtime.exports@.len() + 1
            &&& forall|j: int|
                0 <= j < runtime.exports@.len() ==> m.exports@[j] == runtime.exports@[j]
            &&& m.exports@.last().name@ == export_name@
            &&& m.exports@.last().kind == 0
            &&& m.exports@.last().index == runtime.n_func_imports + runtime.functions@.len()
            &&& !has_export_named(runtime.exports@, export_name@)
            &&& m.data@.len() == runtime.data@.len() + 1
            &&& forall|j: int| 0 <= j < runtime.data@.len() ==> m.data@[j] == runtime.data@[j]
            &&& m.data@.last()@ == data_seg@
        }),
{
    let mut m = runtime;
    if export_name_taken(&m, export_name.as_slice()) {
        return Err(CompileError::MergeError);
    }
    if m.functions.len() >= u32::MAX as usize - m.n_func_imports as usize {
        return Err(CompileError::MergeError);
    }
    if m.types.len() >= u32::MAX as usize {
        return Err(CompileError::MergeError);
    }
    let type_idx: usize = match find_type(&m.types, &func_type) {
        Some(t) => t,
        None => {
            let t = m.types.len();
            m.types.push(func_type);
            t
        },
    };
    let new_index: u32 = m.n_func_imports + m.functions.len() as u32;
    m.functions.push(type_idx as u32);
    m.code.push(body);
    m.exports.push(Export { name: export_name, kind: 0, index: new_index });
    m.data.push(data_seg);
    Ok(m)
}


/// Copies `n` bytes of `bytes` starting at `pos`.
fn read_bytes(bytes: &[u8], pos: usize, n: usize) -> (r: Option<(Vec<u8>, usize)>)
    requires
        pos <= bytes@.len(),
    ensures
        r is Some ==> ({
            let (v, np) = r.unwrap();
            &&& np == pos + n <= bytes@.len()
            &&& v@ == bytes@.subrange(pos as int, pos + n)
        }),
{
    if n > bytes.len() - pos {
        return None;
    }
    let blen = bytes.len();
    let mut v: Vec<u8> = Vec::new();
    let mut i: usize = 0;
    while i < n
        invariant
            i <= n,
            pos + n <= blen,
            blen == bytes@.len(),
            v@ == bytes@.subrange(pos as int, pos + i),
        decreases n - i,
    {
        proof {
            assert(bytes@.subrange(pos as int, pos + i + 1).drop_last() == bytes@.subrange(
                pos as int,
                pos + i,
            ));
        }
        v.push(bytes[pos + i]);
        i = i + 1;
    }
    Some((v, pos + n))
}

/// Reads a name: a LEB128 length followed by that many bytes.
fn read_name(bytes: &[u8], pos: usize) -> (r: Option<(Vec<u8>, usize)>)
    requires
        pos <= bytes@.len(),
    ensures
        r is Some ==> pos < r.unwrap().1 <= bytes@.len(),
{
    let (n, p) = match leb_decode(bytes, pos) {
        Some(x) => x,
        None => {
            return None;
        },
    };
    if n as usize > bytes.len() - p {
        return None;
    }
    match read_bytes(bytes, p, n as usize) {
        Some((v, np)) => if np > pos {
            Some((v, np))
        } else {
            None
        },
        None => None,
    }
}

/// Skips a limits record: a flag byte and one or two LEB128 bounds.
fn skip_limits(bytes: &[u8], pos: usize) -> (r: Option<usize>)
    requires
        pos <= bytes@.len(),
    ensures
        r is Some ==> pos < r.unwrap() <= bytes@.len(),
{
    if pos >= bytes.len() {
        return None;
    }
    let flag = bytes[pos];
    let (_, p1) = match leb_decode(bytes, pos + 1) {
        Some(x) => x,
        None => {
            return None;
        },
    };
    if flag == 0 {
        Some(p1)
    } else if flag == 1 {
        match leb_decode(bytes, p1) {
            Some((_, p2)) => Some(p2),
            None => None,
        }
    } else {
        None
    }
}

/// Reads an import descriptor: the kind byte and its payload, kept raw.
fn read_import_desc(bytes: &[u8], pos: usize) -> (r: Option<(Vec<u8>, usize)>)
    requires
        pos <= bytes@.len(),
    ensures
        r is Some ==> ({
            let (v, np) = r.unwrap();
            &&& pos < np <= bytes@.len()
            &&& v@.len() > 0
        }),
{
    if pos >= bytes.len() {
        return None;
    }
    let kind = bytes[pos];
    let end: usize = if kind == 0 {
        match leb_decode(bytes, pos + 1) {
            Some((_, p)) => p,
            None => {
                return None;
            },
        }
    } else if kind == 1 {
        if bytes.len() - pos < 2 {
            return None;
        }
        match skip_limits(bytes, pos + 2) {
            Some(p) => p,
            None => {
                return None;
            },
        }
    } else if kind == 2 {
        match skip_limits(bytes, pos + 1) {
            Some(p) => p,
            None => {
                return None;
            },
        }
    } else if kind == 3 {
        if bytes.len() - pos < 3 {
            return None;
        }
        pos + 3
    } else {
        return None;
    };
    match read_bytes(bytes, pos, end - pos) {
        Some((v, np)) => Some((v, np)),
        None => None,
    }
}

/// Parses a wasm binary into the module model: magic and version, then
/// each section in order; sections the merge never rewrites are kept as
/// raw payloads.
pub fn parse(bytes: &[u8]) -> (r: Result<WasmModule, CompileError>)
    ensures
        r is Ok ==> r.unwrap().wf(),
        r is Err ==> r == Err::<WasmModule, CompileError>(CompileError::MalformedModule),
{
    if bytes.len() < 8 {
        return Err(CompileError::MalformedModule);
    }
    if !(bytes[0] == 0x00 && bytes[1] == 0x61 && bytes[2] == 0x73 && bytes[3] == 0x6d) {
        return Err(CompileError::MalformedModule);
    }
    if !(bytes[4] == 0x01 && bytes[5] == 0x00 && bytes[6] == 0x00 && bytes[7] == 0x00) {
        return Err(CompileError::MalformedModule);
    }
    let mut m = WasmModule {
        types: Vec::new(),
        imports: Vec::new(),
        n_func_imports: 0,
        functions: Vec::new(),
        table: None,
        memory: None,
        global: None,
        exports: Vec::new(),
        start: None,
        element: None,
        code: Vec::new(),
        data: Vec::new(),
    };
    let mut pos: usize = 8;
    while pos < bytes.len()
        invariant
            pos <= bytes@.len(),
            m.n_func_imports as int == count_func_imports(m.imports@),
        decreases bytes@.len() - pos,
    {
        let id = bytes[pos];
        let (size, p) = match leb_decode(bytes, pos + 1) {
            Some(x) => x,
            None => {
                return Err(CompileError::MalformedModule);
            },
        };
        if size as usize > bytes.len() - p {
            return Err(CompileError::MalformedModule);
        }
        let end = p + size as usize;
        if id == 1 {
            match parse_types(bytes, p, end) {
                Some(ts) => {
                    m.types = ts;
                },
                None => {
                    return Err(CompileError::MalformedModule);
                },
            }
        } else if id == 2 {
            match parse_imports(bytes, p, end) {
                Some((imps, nf)) => {
                    m.imports = imps;
                    m.n_func_imports = nf;
                },
                None => {
                    return Err(CompileError::MalformedModule);
                },
            }
        } else if id == 3 {
            match parse_functions(bytes, p, end) {
                Some(fs) => {
                    m.functions = fs;
                },
                None => {
                    return Err(CompileError::MalformedModule);
                },
            }
        } else if id == 4 || id == 5 || id == 6 || id == 9 {
            let raw = match read_bytes(bytes, p, end - p) {
                Some((v, _)) => v,
                None => {
                    return Err(CompileError::MalformedModule);
                },
            };
            if id == 4 {
                m.table = Some(raw);
            } else if id == 5 {
                m.memory = Some(raw);
            } else if id == 6 {
                m.global = Some(raw);
            } else {
                m.element = Some(raw);
            }
        } else if id == 7 {
            match parse_exports(bytes, p, end) {
                Some(es) => {
                    m.exports = es;
                },
                None => {
                    return Err(CompileError::MalformedModule);
                },
            }
        } else if id == 8 {
            match leb_decode(bytes, p) {
                Some((v, _)) => {
                    m.start = Some(v);
                },
                None => {
                    return Err(CompileError::MalformedModule);
                },
            }
        } else if id == 10 {
            match parse_code(bytes, p, end) {
                Some(cs) => {
                    m.code = cs;
                },
                None => {
                    return Err(CompileError::MalformedModule);
                },
            }
        } else if id == 11 {
            match parse_data(bytes, p, end) {
                Some(ds) => {
                    m.data = ds;
                },
                None => {
                    return Err(CompileError::MalformedModule);
                },
            }
        } else if id != 0 {
            return Err(CompileError::MalformedModule);
        }
        pos = end;
    }
    if m.code.len() != m.functions.len() {
        return Err(CompileError::MalformedModule);
    }
    Ok(m)
}

/// Parses the type section: a vector of `0x60 params results` records.
fn parse_types(bytes: &[u8], pos: usize, end: usize) -> (r: Option<Vec<FuncType>>)
    requires
        pos <= end <= bytes@.len(),
{
    let (count, mut p) = match leb_decode(bytes, pos) {
        Some(x) => x,
        None => {
            return None;
        },
    };
    let mut out: Vec<FuncType> = Vec::new();
    let mut k: u32 = 0;
    while k < count
        invariant
            p <= bytes@.len(),
            end <= bytes@.len(),
        decreases count - k,
    {
        if p >= end {
            return None;
        }
        if bytes[p] != 0x60 {
            return None;
        }
        let (params, p1) = match read_name(bytes, p + 1) {
            Some(x) => x,
            None => {
                return None;
            },
        };
        let (results, p2) = match read_name(bytes, p1) {
            Some(x) => x,
            None => {
                return None;
            },
        };
        out.push(FuncType { params, results });
        p = p2;
        k = k + 1;
    }
    if p != end {
        return None;
    }
    Some(out)
}

/// Parses the import section and counts the function imports.
fn parse_imports(bytes: &[u8], pos: usize, end: usize) -> (r: Option<(Vec<Import>, u32)>)
    requires
        pos <= end <= bytes@.len(),
    ensures
        r is Some ==> r.unwrap().1 as int == count_func_imports(r.unwrap().0@),
{
    let (count, mut p) = match leb_decode(bytes, pos) {
        Some(x) => x,
        None => {
            return None;
        },
    };
    let mut out: Vec<Import> = Vec::new();
    let mut nf: u32 = 0;
    let mut k: u32 = 0;
    while k < count
        invariant
            p <= bytes@.len(),
            nf as int == count_func_imports(out@),
            nf <= out@.len(),
        decreases count - k,
    {
        let (module, p1) = match read_name(bytes, p) {
            Some(x) => x,
            None => {
                return None;
            },
        };
        let (name, p2) = match read_name(bytes, p1) {
            Some(x) => x,
            None => {
                return None;
            },
        };
        let (desc, p3) = match read_import_desc(bytes, p2) {
            Some(x) => x,
            None => {
                return None;
            },
        };
        let is_func = desc[0] == 0;
        let imp = Import { module, name, desc };
        proof {
            assert(out@.push(imp).drop_last() =~= out@);
        }
        out.push(imp);
        if is_func {
            if nf == u32::MAX {
                return None;
            }
            nf = nf + 1;
        }
        p = p3;
        k = k + 1;
    }
    if p != end {
        return None;
    }
    Some((out, nf))
}

/// Parses the function section: each entry is a type index.
fn parse_functions(bytes: &[u8], pos: usize, end: usize) -> (r: Option<Vec<u32>>)
    requires
        pos <= end <= bytes@.len(),
{
    let (count, mut p) = match leb_decode(bytes, pos) {
        Some(x) => x,
        None => {
            return None;
        },
    };
    let mut out: Vec<u32> = Vec::new();
    let mut k: u32 = 0;
    while k < count
        invariant
            p <= bytes@.len(),
        decreases count - k,
    {
        let (v, p1) = match leb_decode(bytes, p) {
            Some(x) => x,
            None => {
                return None;
            },
        };
        out.push(v);
        p = p1;
        k = k + 1;
    }
    if p != end {
        return None;
    }
    Some(out)
}

/// Parses the export section: name, kind byte, index.
fn parse_exports(bytes: &[u8], pos: usize, end: usize) -> (r: Option<Vec<Export>>)
    requires
        pos <= end <= bytes@.len(),
{
    let (count, mut p) = match leb_decode(bytes, pos) {
        Some(x) => x,
        None => {
            return None;
        },
    };
    let mut out: Vec<Export> = Vec::new();
    let mut k: u32 = 0;
    while k < count
        invariant
            p <= bytes@.len(),
            end <= bytes@.len(),
        decreases count - k,
    {
        let (name, p1) = match read_name(bytes, p) {
            Some(x) => x,
            None => {
                return None;
            },
        };
        if p1 >= end {
            return None;
        }
        let kind = bytes[p1];
        let (index, p2) = match leb_decode(bytes, p1 + 1) {
            Some(x) => x,
            None => {
                return None;
            },
        };
        out.push(Export { name, kind, index });
        p = p2;
        k = k + 1;
    }
    if p != end {
        return None;
    }
    Some(out)
}

/// Parses the code section: each body is kept raw, locals included.
fn parse_code(bytes: &[u8], pos: usize, end: usize) -> (r: Option<Vec<Vec<u8>>>)
    requires
        pos <= end <= bytes@.len(),
{
    let (count, mut p) = match leb_decode(bytes, pos) {
        Some(x) => x,
        None => {
            return None;
        },
    };
    let mut out: Vec<Vec<u8>> = Vec::new();
    let mut k: u32 = 0;
    while k < count
        invariant
            p <= bytes@.len(),
        decreases count - k,
    {
        let (body, p1) = match read_name(bytes, p) {
            Some(x) => x,
            None => {
                return None;
            },
        };
        out.push(body);
        p = p1;
        k = k + 1;
    }
    if p != end {
        return None;
    }
    Some(out)
}

/// Parses the data section; only active segments of memory zero with an
/// `i32.const` offset are accepted, and each segment is kept raw.
fn parse_data(bytes: &[u8], pos: usize, end: usize) -> (r: Option<Vec<Vec<u8>>>)
    requires
        pos <= end <= bytes@.len(),
{
    let (count, mut p) = match leb_decode(bytes, pos) {
        Some(x) => x,
        None => {
            return None;
        },
    };
    let mut out: Vec<Vec<u8>> = Vec::new();
    let mut k: u32 = 0;
    while k < count
        invariant
            p <= bytes@.len(),
            end <= bytes@.len(),
        decreases count - k,
    {
        let seg_start = p;
        let (flag, p1) = match leb_decode(bytes, p) {
            Some(x) => x,
            None => {
                return None;
            },
        };
        if flag != 0 {
            return None;
        }
        if p1 >= end {
            return None;
        }
        if bytes[p1] != 0x41 {
            return None;
        }
        let mut q = p1 + 1;
        loop
            invariant
                q <= bytes@.len(),
            decreases bytes@.len() - q,
        {
            if q >= bytes.len() {
                return None;
            }
            let b = bytes[q];
            q = q + 1;
            if b & 0x80 == 0 {
                break ;
            }
        }
        if q >= bytes.len() {
            return None;
        }
        if bytes[q] != 0x0b {
            return None;
        }
        let (_, p2) = match read_name(bytes, q + 1) {
            Some(x) => x,
            None => {
                return None;
            },
        };
        if p2 < seg_start {
            return None;
        }
        let (raw, _) = match read_bytes(bytes, seg_start, p2 - seg_start) {
            Some(x) => x,
            None => {
                return None;
            },
        };
        out.push(raw);
        p = p2;
        k = k + 1;
    }
    if p != end {
        return None;
    }
    Some(out)
}


/// The serialized form of one function type record.
pub open spec fn spec_functype_bytes(t: FuncType) -> Seq<u8> {
    seq![0x60u8] + spec_leb(t.params@.len() as nat) + t.params@ + spec_leb(
        t.results@.len() as nat,
    ) + t.results@
}

/// The first `n` type records, serialized in order.
pub open spec fn spec_types_records(ts: Seq<FuncType>, n: int) -> Seq<u8>
    decreases n,
{
    if n <= 0 {
        Seq::empty()
    } else {
        spec_types_records(ts, n - 1) + spec_functype_bytes(ts[n - 1])
    }
}

/// The serialized form of one import record.
pub open spec fn spec_import_bytes(imp: Import) -> Seq<u8> {
    spec_leb(imp.module@.len() as nat) + imp.module@ + spec_leb(imp.name@.len() as nat)
        + imp.name@ + imp.desc@
}

/// The first `n` import records, serialized in order.
pub open spec fn spec_imports_records(imps: Seq<Import>, n: int) -> Seq<u8>
    decreases n,
{
    if n <= 0 {
        Seq::empty()
    } else {
        spec_imports_records(imps, n - 1) + spec_import_bytes(imps[n - 1])
    }
}

/// The first `n` function declarations, serialized in order.
pub open spec fn spec_functions_records(fs: Seq<u32>, n: int) -> Seq<u8>
    decreases n,
{
    if n <= 0 {
        Seq::empty()
    } else {
        spec_functions_records(fs, n - 1) + spec_leb(fs[n - 1] as nat)
    }
}

/// The serialized form of one export record.
pub open spec fn spec_export_bytes(e: Export) -> Seq<u8> {
    spec_leb(e.name@.len() as nat) + e.name@ + seq![e.kind] + spec_leb(e.index as nat)
}

/// The first `n` export records, serialized in order.
pub open spec fn spec_exports_records(es: Seq<Export>, n: int) -> Seq<u8>
    decreases n,
{
    if n <= 0 {
        Seq::empty()
    } else {
        spec_exports_records(es, n - 1) + spec_export_bytes(es[n - 1])
    }
}

/// The first `n` code bodies, each size-prefixed, in order.
pub open spec fn spec_code_records(cs: Seq<Vec<u8>>, n: int) -> Seq<u8>
    decreases n,
{
    if n <= 0 {
        Seq::empty()
    } else {
        spec_code_records(cs, n - 1) + spec_leb(cs[n - 1]@.len() as nat) + cs[n - 1]@
    }
}

/// The first `n` data segments, raw, in order.
pub open spec fn spec_data_records(ds: Seq<Vec<u8>>, n: int) -> Seq<u8>
    decreases n,
{
    if n <= 0 {
        Seq::empty()
    } else {
        spec_data_records(ds, n - 1) + ds[n - 1]@
    }
}

/// A whole section: its id, the LEB128 size of the payload, the payload.
pub open spec fn spec_section(id: u8, payload: Seq<u8>) -> Seq<u8> {
    seq![id] + spec_leb(payload.len() as nat) + payload
}

/// A vector-shaped payload: the count, then the records.
pub open spec fn spec_vec_payload(count: nat, records: Seq<u8>) -> Seq<u8> {
    spec_leb(count) + records
}

/// A section that is present only when nonempty.
pub open spec fn spec_opt_section(id: u8, present: bool, payload: Seq<u8>) -> Seq<u8> {
    if present {
        spec_section(id, payload)
    } else {
        Seq::empty()
    }
}

/// A raw passthrough section.
pub open spec fn spec_raw_section(id: u8, raw: Option<Vec<u8>>) -> Seq<u8> {
    match raw {
        Some(v) => spec_section(id, v@),
        None => Seq::empty(),
    }
}

/// The payload of each structured section of a module.
pub open spec fn spec_types_payload(m: WasmModule) -> Seq<u8> {
    spec_vec_payload(m.types@.len(), spec_types_records(m.types@, m.types@.len() as int))
}

/// The import section payload.
pub open spec fn spec_imports_payload(m: WasmModule) -> Seq<u8> {
    spec_vec_payload(m.imports@.len(), spec_imports_records(m.imports@, m.imports@.len() as int))
}

/// The function section payload.
pub open spec fn spec_functions_payload(m: WasmModule) -> Seq<u8> {
    spec_vec_payload(
        m.functions@.len(),
        spec_functions_records(m.functions@, m.functions@.len() as int),
    )
}

/// The export section payload.
pub open spec fn spec_exports_payload(m: WasmModule) -> Seq<u8> {
    spec_vec_payload(m.exports@.len(), spec_exports_records(m.exports@, m.exports@.len() as int))
}

/// The code section payload.
pub open spec fn spec_code_payload(m: WasmModule) -> Seq<u8> {
    spec_vec_payload(m.code@.len(), spec_code_records(m.code@, m.code@.len() as int))
}

/// The data section payload.
pub open spec fn spec_data_payload(m: WasmModule) -> Seq<u8> {
    spec_vec_payload(m.data@.len(), spec_data_records(m.data@, m.data@.len() as int))
}

/// All sections of a module, in section-id order, empty ones left out.
pub open spec fn spec_sections(m: WasmModule) -> Seq<u8> {
    spec_opt_section(1, m.types@.len() > 0, spec_types_payload(m)) + spec_opt_section(
        2,
        m.imports@.len() > 0,
        spec_imports_payload(m),
    ) + spec_opt_section(3, m.functions@.len() > 0, spec_functions_payload(m)) + spec_raw_section(
        4,
        m.table,
    ) + spec_raw_section(5, m.memory) + spec_raw_section(6, m.global) + spec_opt_section(
        7,
        m.exports@.len() > 0,
        spec_exports_payload(m),
    ) + (match m.start {
        Some(v) => spec_section(8, spec_leb(v as nat)),
        None => Seq::empty(),
    }) + spec_raw_section(9, m.element) + spec_opt_section(
        10,
        m.code@.len() > 0,
        spec_code_payload(m),
    ) + spec_opt_section(11, m.data@.len() > 0, spec_data_payload(m))
}

/// The wasm binary of a module: magic, version, then the sections.
pub open spec fn spec_module_bytes(m: WasmModule) -> Seq<u8> {
    seq![0x00u8, 0x61u8, 0x73u8, 0x6du8, 0x01u8, 0x00u8, 0x00u8, 0x00u8] + spec_sections(m)
}

/// The type section's sizes fit their 32-bit fields.
pub open spec fn types_fit(m: WasmModule) -> bool {
    &&& m.types@.len() <= u32::MAX
    &&& forall|k: int|
        0 <= k < m.types@.len() ==> (#[trigger] m.types@[k]).params@.len() <= u32::MAX
            && m.types@[k].results@.len() <= u32::MAX
    &&& spec_types_payload(m).len() <= u32::MAX
}

/// The import section's sizes fit their 32-bit fields.
pub open spec fn imports_fit(m: WasmModule) -> bool {
    &&& m.imports@.len() <= u32::MAX
    &&& forall|k: int|
        0 <= k < m.imports@.len() ==> (#[trigger] m.imports@[k]).module@.len() <= u32::MAX
            && m.imports@[k].name@.len() <= u32::MAX
    &&& spec_imports_payload(m).len() <= u32::MAX
}

/// The function section's sizes fit their 32-bit fields.
pub open spec fn functions_fit(m: WasmModule) -> bool {
    &&& m.functions@.len() <= u32::MAX
    &&& spec_functions_payload(m).len() <= u32::MAX
}

/// The export section's sizes fit their 32-bit fields.
pub open spec fn exports_fit(m: WasmModule) -> bool {
    &&& m.exports@.len() <= u32::MAX
    &&& forall|k: int| 0 <= k < m.exports@.len() ==> (#[trigger] m.exports@[k]).name@.len() <= u32::MAX
    &&& spec_exports_payload(m).len() <= u32::MAX
}

/// The code section's sizes fit their 32-bit fields.
pub open spec fn code_fit(m: WasmModule) -> bool {
    &&& m.code@.len() <= u32::MAX
    &&& forall|k: int| 0 <= k < m.code@.len() ==> (#[trigger] m.code@[k])@.len() <= u32::MAX
    &&& spec_code_payload(m).len() <= u32::MAX
}

/// The data section's sizes fit their 32-bit fields.
pub open spec fn data_fit(m: WasmModule) -> bool {
    &&& m.data@.len() <= u32::MAX
    &&& spec_data_payload(m).len() <= u32::MAX
}

/// Every count, name and payload the emitter writes fits the 32-bit
/// size fields of the binary format.
pub open spec fn emit_fits(m: WasmModule) -> bool {
    &&& types_fit(m)
    &&& imports_fit(m)
    &&& functions_fit(m)
    &&& (m.table is Some ==> m.table.unwrap()@.len() <= u32::MAX)
    &&& (m.memory is Some ==> m.memory.unwrap()@.len() <= u32::MAX)
    &&& (m.global is Some ==> m.global.unwrap()@.len() <= u32::MAX)
    &&& exports_fit(m)
    &&& (m.start is Some ==> spec_leb(m.start.unwrap() as nat).len() <= u32::MAX)
    &&& (m.element is Some ==> m.element.unwrap()@.len() <= u32::MAX)
    &&& code_fit(m)
    &&& data_fit(m)
}

/// Appends a whole section: its id, its LEB128-encoded size, and the
/// payload.
fn push_section(out: &mut Vec<u8>, id: u8, payload: &Vec<u8>)
    requires
        payload@.len() <= u32::MAX,
    ensures
        final (out)@ == old(out)@.push(id) + spec_leb(payload@.len() as nat) + payload@,
{
    out.push(id);
    let mut lenb = leb_encode(payload.len() as u32);
    let ghost mid = out@;
    let mut i: usize = 0;
    while i < lenb.len()
        invariant
            i <= lenb@.len(),
            out@ == mid + lenb@.take(i as int),
        decreases lenb@.len() - i,
    {
        proof {
            assert(lenb@.take(i + 1 as int).drop_last() == lenb@.take(i as int));
            assert(mid + lenb@.take(i + 1 as int) =~= (mid + lenb@.take(i as int)).push(
                lenb@[i as int],
            ));
        }
        out.push(lenb[i]);
        i = i + 1;
    }
    proof {
        assert(lenb@.take(lenb@.len() as int) == lenb@);
    }
    let ghost mid2 = out@;
    let mut j: usize = 0;
    while j < payload.len()
        invariant
            j <= payload@.len(),
            out@ == mid2 + payload@.take(j as int),
        decreases payload@.len() - j,
    {
        proof {
            assert(payload@.take(j + 1 as int).drop_last() == payload@.take(j as int));
            assert(mid2 + payload@.take(j + 1 as int) =~= (mid2 + payload@.take(j as int)).push(
                payload@[j as int],
            ));
        }
        out.push(payload[j]);
        j = j + 1;
    }
    proof {
        assert(payload@.take(payload@.len() as int) == payload@);
        assert(out@ =~= old(out)@.push(id) + spec_leb(payload@.len() as nat) + payload@);
    }
}

/// Appends raw bytes.
fn push_bytes(out: &mut Vec<u8>, bytes: &Vec<u8>)
    ensures
        final (out)@ == old(out)@ + bytes@,
{
    let mut j: usize = 0;
    let ghost pre = out@;
    while j < bytes.len()
        invariant
            j <= bytes@.len(),
            out@ == pre + bytes@.take(j as int),
        decreases bytes@.len() - j,
    {
        proof {
            assert(bytes@.take(j + 1 as int).drop_last() == bytes@.take(j as int));
            assert(pre + bytes@.take(j + 1 as int) =~= (pre + bytes@.take(j as int)).push(
                bytes@[j as int],
            ));
        }
        out.push(bytes[j]);
        j = j + 1;
    }
    proof {
        assert(bytes@.take(bytes@.len() as int) == bytes@);
    }
}

/// Appends a LEB128 number.
fn push_leb(out: &mut Vec<u8>, n: u32)
    ensures
        final (out)@ == old(out)@ + spec_leb(n as nat),
{
    let lenb = leb_encode(n);
    push_bytes(out, &lenb);
}


/// Serializes the module model back into the wasm binary format: magic,
/// version, then each nonempty section, size-prefixed, in section-id
/// order.
pub fn module_bytes(m: &WasmModule) -> (r: Result<Vec<u8>, CompileError>)
    ensures
        r is Ok <==> emit_fits(*m),
        r is Err ==> r == Err::<Vec<u8>, CompileError>(CompileError::MergeError),
        r is Ok ==> ({
            let b = r.unwrap()@;
            &&& b == spec_module_bytes(*m)
            &&& b.len() >= 8
            &&& b[0] == 0x00 && b[1] == 0x61 && b[2] == 0x73 && b[3] == 0x6d
            &&& b[4] == 0x01 && b[5] == 0x00 && b[6] == 0x00 && b[7] == 0x00
        }),
{
    let sections = match section_bytes(m) {
        Ok(s) => s,
        Err(e) => {
            return Err(e);
        },
    };
    let mut out: Vec<u8> = Vec::new();
    out.push(0x00);
    out.push(0x61);
    out.push(0x73);
    out.push(0x6d);
    out.push(0x01);
    out.push(0x00);
    out.push(0x00);
    out.push(0x00);
    push_bytes(&mut out, &sections);
    proof {
        assert(out@ =~= spec_module_bytes(*m));
    }
    Ok(out)
}

/// Serializes the types section, or nothing when it is empty.
fn emit_types_section(m: &WasmModule, out: &mut Vec<u8>) -> (r: Result<(), CompileError>)
    ensures
        r is Ok <==> types_fit(*m),
        r is Ok ==> final (out)@ == old(out)@ + spec_opt_section(1, m.types@.len() > 0, spec_types_payload(*m)),
        r is Err ==> r == Err::<(), CompileError>(CompileError::MergeError),
{
    if m.types.len() == 0 {
        proof {
            assert(final (out)@ =~= old(out)@ + spec_opt_section(1, false, spec_types_payload(*m)));
        }
        return Ok(());
    }
    if m.types.len() > u32::MAX as usize {
        return Err(CompileError::MergeError);
    }
    let mut payload: Vec<u8> = Vec::new();
    push_leb(&mut payload, m.types.len() as u32);
    let mut i: usize = 0;
    while i < m.types.len()
        invariant
            i <= m.types@.len(),
            m.types@.len() <= u32::MAX,
            payload@ == spec_leb(m.types@.len() as nat) + spec_types_records(m.types@, i as int),
            forall|k: int|
                0 <= k < i ==> (#[trigger] m.types@[k]).params@.len() <= u32::MAX
                    && m.types@[k].results@.len() <= u32::MAX,
        decreases m.types@.len() - i,
    {
        let t = &m.types[i];
        if t.params.len() > u32::MAX as usize || t.results.len() > u32::MAX as usize {
            return Err(CompileError::MergeError);
        }
        payload.push(0x60);
        push_leb(&mut payload, t.params.len() as u32);
        push_bytes(&mut payload, &t.params);
        push_leb(&mut payload, t.results.len() as u32);
        push_bytes(&mut payload, &t.results);
        proof {
            assert(payload@ =~= spec_leb(m.types@.len() as nat) + spec_types_records(
                m.types@,
                i + 1 as int,
            ));
        }
        i = i + 1;
    }
    if payload.len() > u32::MAX as usize {
        return Err(CompileError::MergeError);
    }
    push_section(out, 1, &payload);
    proof {
        assert(final (out)@ =~= old(out)@ + spec_opt_section(1, true, spec_types_payload(*m)));
    }
    Ok(())
}

/// Serializes the imports section, or nothing when it is empty.
fn emit_imports_section(m: &WasmModule, out: &mut Vec<u8>) -> (r: Result<(), CompileError>)
    ensures
        r is Ok <==> imports_fit(*m),
        r is Ok ==> final (out)@ == old(out)@ + spec_opt_section(2, m.imports@.len() > 0, spec_imports_payload(*m)),
        r is Err ==> r == Err::<(), CompileError>(CompileError::MergeError),
{
    if m.imports.len() == 0 {
        proof {
            assert(final (out)@ =~= old(out)@ + spec_opt_section(2, false, spec_imports_payload(*m)));
        }
        return Ok(());
    }
    if m.imports.len() > u32::MAX as usize {
        return Err(CompileError::MergeError);
    }
    let mut payload: Vec<u8> = Vec::new();
    push_leb(&mut payload, m.imports.len() as u32);
    let mut i: usize = 0;
    while i < m.imports.len()
        invariant
            i <= m.imports@.len(),
            m.imports@.len() <= u32::MAX,
            payload@ == spec_leb(m.imports@.len() as nat) + spec_imports_records(m.imports@, i as int),
            forall|k: int|
                0 <= k < i ==> (#[trigger] m.imports@[k]).module@.len() <= u32::MAX
                    && m.imports@[k].name@.len() <= u32::MAX,
        decreases m.imports@.len() - i,
    {
        let imp = &m.imports[i];
        if imp.module.len() > u32::MAX as usize || imp.name.len() > u32::MAX as usize {
            return Err(CompileError::MergeError);
        }
        push_leb(&mut payload, imp.module.len() as u32);
        push_bytes(&mut payload, &imp.module);
        push_leb(&mut payload, imp.name.len() as u32);
        push_bytes(&mut payload, &imp.name);
        push_bytes(&mut payload, &imp.desc);
        proof {
            assert(payload@ =~= spec_leb(m.imports@.len() as nat) + spec_imports_records(
                m.imports@,
                i + 1 as int,
            ));
        }
        i = i + 1;
    }
    if payload.len() > u32::MAX as usize {
        return Err(CompileError::MergeError);
    }
    push_section(out, 2, &payload);
    proof {
        assert(final (out)@ =~= old(out)@ + spec_opt_section(2, true, spec_imports_payload(*m)));
    }
    Ok(())
}

/// Serializes the functions section, or nothing when it is empty.
fn emit_functions_section(m: &WasmModule, out: &mut Vec<u8>) -> (r: Result<(), CompileError>)
    ensures
        r is Ok <==> functions_fit(*m),
        r is Ok ==> final (out)@ == old(out)@ + spec_opt_section(3, m.functions@.len() > 0, spec_functions_payload(*m)),
        r is Err ==> r == Err::<(), CompileError>(CompileError::MergeError),
{
    if m.functions.len() == 0 {
        proof {
            assert(final (out)@ =~= old(out)@ + spec_opt_section(3, false, spec_functions_payload(*m)));
        }
        return Ok(());
    }
    if m.functions.len() > u32::MAX as usize {
        return Err(CompileError::MergeError);
    }
    let mut payload: Vec<u8> = Vec::new();
    push_leb(&mut payload, m.functions.len() as u32);
    let mut i: usize = 0;
    while i < m.functions.len()
        invariant
            i <= m.functions@.len(),
            m.functions@.len() <= u32::MAX,
            payload@ == spec_leb(m.functions@.len() as nat) + spec_functions_records(m.functions@, i as int),
        decreases m.functions@.len() - i,
    {
        push_leb(&mut payload, m.functions[i]);
        proof {
            assert(payload@ =~= spec_leb(m.functions@.len() as nat) + spec_functions_records(
                m.functions@,
                i + 1 as int,
            ));
        }
        i = i + 1;
    }
    if payload.len() > u32::MAX as usize {
        return Err(CompileError::MergeError);
    }
    push_section(out, 3, &payload);
    proof {
        assert(final (out)@ =~= old(out)@ + spec_opt_section(3, true, spec_functions_payload(*m)));
    }
    Ok(())
}

/// Serializes one raw passthrough section, or nothing when absent.
fn emit_raw_section(raw: &Option<Vec<u8>>, id: u8, out: &mut Vec<u8>) -> (r: Result<
    (),
    CompileError,
>)
    ensures
        r is Ok <==> (raw is Some ==> raw.unwrap()@.len() <= u32::MAX),
        r is Ok ==> final (out)@ == old(out)@ + spec_raw_section(id, *raw),
        r is Err ==> r == Err::<(), CompileError>(CompileError::MergeError),
{
    match raw {
        Some(v) => {
            if v.len() > u32::MAX as usize {
                return Err(CompileError::MergeError);
            }
            push_section(out, id, v);
            proof {
                assert(final (out)@ =~= old(out)@ + spec_raw_section(id, *raw));
            }
            Ok(())
        },
        None => {
            proof {
                assert(final (out)@ =~= old(out)@ + spec_raw_section(id, *raw));
            }
            Ok(())
        },
    }
}

/// Serializes the exports section, or nothing when it is empty.
fn emit_exports_section(m: &WasmModule, out: &mut Vec<u8>) -> (r: Result<(), CompileError>)
    ensures
        r is Ok <==> exports_fit(*m),
        r is Ok ==> final (out)@ == old(out)@ + spec_opt_section(7, m.exports@.len() > 0, spec_exports_payload(*m)),
        r is Err ==> r == Err::<(), CompileError>(CompileError::MergeError),
{
    if m.exports.len() == 0 {
        proof {
            assert(final (out)@ =~= old(out)@ + spec_opt_section(7, false, spec_exports_payload(*m)));
        }
        return Ok(());
    }
    if m.exports.len() > u32::MAX as usize {
        return Err(CompileError::MergeError);
    }
    let mut payload: Vec<u8> = Vec::new();
    push_leb(&mut payload, m.exports.len() as u32);
    let mut i: usize = 0;
    while i < m.exports.len()
        invariant
            i <= m.exports@.len(),
            m.exports@.len() <= u32::MAX,
            payload@ == spec_leb(m.exports@.len() as nat) + spec_exports_records(m.exports@, i as int),
            forall|k: int| 0 <= k < i ==> (#[trigger] m.exports@[k]).name@.len() <= u32::MAX,
        decreases m.exports@.len() - i,
    {
        let e = &m.exports[i];
        if e.name.len() > u32::MAX as usize {
            return Err(CompileError::MergeError);
        }
        push_leb(&mut payload, e.name.len() as u32);
        push_bytes(&mut payload, &e.name);
        payload.push(e.kind);
        push_leb(&mut payload, e.index);
        proof {
            assert(payload@ =~= spec_leb(m.exports@.len() as nat) + spec_exports_records(
                m.exports@,
                i + 1 as int,
            ));
        }
        i = i + 1;
    }
    if payload.len() > u32::MAX as usize {
        return Err(CompileError::MergeError);
    }
    push_section(out, 7, &payload);
    proof {
        assert(final (out)@ =~= old(out)@ + spec_opt_section(7, true, spec_exports_payload(*m)));
    }
    Ok(())
}

/// Serializes the code section, or nothing when it is empty.
fn emit_code_section(m: &WasmModule, out: &mut Vec<u8>) -> (r: Result<(), CompileError>)
    ensures
        r is Ok <==> code_fit(*m),
        r is Ok ==> final (out)@ == old(out)@ + spec_opt_section(10, m.code@.len() > 0, spec_code_payload(*m)),
        r is Err ==> r == Err::<(), CompileError>(CompileError::MergeError),
{
    if m.code.len() == 0 {
        proof {
            assert(final (out)@ =~= old(out)@ + spec_opt_section(10, false, spec_code_payload(*m)));
        }
        return Ok(());
    }
    if m.code.len() > u32::MAX as usize {
        return Err(CompileError::MergeError);
    }
    let mut payload: Vec<u8> = Vec::new();
    push_leb(&mut payload, m.code.len() as u32);
    let mut i: usize = 0;
    while i < m.code.len()
        invariant
            i <= m.code@.len(),
            m.code@.len() <= u32::MAX,
            payload@ == spec_leb(m.code@.len() as nat) + spec_code_records(m.code@, i as int),
            forall|k: int| 0 <= k < i ==> (#[trigger] m.code@[k])@.len() <= u32::MAX,
        decreases m.code@.len() - i,
    {
        let body = &m.code[i];
        if body.len() > u32::MAX as usize {
            return Err(CompileError::MergeError);
        }
        push_leb(&mut payload, body.len() as u32);
        push_bytes(&mut payload, body);
        proof {
            assert(payload@ =~= spec_leb(m.code@.len() as nat) + spec_code_records(
                m.code@,
                i + 1 as int,
            ));
        }
        i = i + 1;
    }
    if payload.len() > u32::MAX as usize {
        return Err(CompileError::MergeError);
    }
    push_section(out, 10, &payload);
    proof {
        assert(final (out)@ =~= old(out)@ + spec_opt_section(10, true, spec_code_payload(*m)));
    }
    Ok(())
}

/// Serializes the data section, or nothing when it is empty.
fn emit_data_section(m: &WasmModule, out: &mut Vec<u8>) -> (r: Result<(), CompileError>)
    ensures
        r is Ok <==> data_fit(*m),
        r is Ok ==> final (out)@ == old(out)@ + spec_opt_section(11, m.data@.len() > 0, spec_data_payload(*m)),
        r is Err ==> r == Err::<(), CompileError>(CompileError::MergeError),
{
    if m.data.len() == 0 {
        proof {
            assert(final (out)@ =~= old(out)@ + spec_opt_section(11, false, spec_data_payload(*m)));
        }
        return Ok(());
    }
    if m.data.len() > u32::MAX as usize {
        return Err(CompileError::MergeError);
    }
    let mut payload: Vec<u8> = Vec::new();
    push_leb(&mut payload, m.data.len() as u32);
    let mut i: usize = 0;
    while i < m.data.len()
        invariant
            i <= m.data@.len(),
            m.data@.len() <= u32::MAX,
            payload@ == spec_leb(m.data@.len() as nat) + spec_data_records(m.data@, i as int),
        decreases m.data@.len() - i,
    {
        push_bytes(&mut payload, &m.data[i]);
        proof {
            assert(payload@ =~= spec_leb(m.data@.len() as nat) + spec_data_records(
                m.data@,
                i + 1 as int,
            ));
        }
        i = i + 1;
    }
    if payload.len() > u32::MAX as usize {
        return Err(CompileError::MergeError);
    }
    push_section(out, 11, &payload);
    proof {
        assert(final (out)@ =~= old(out)@ + spec_opt_section(11, true, spec_data_payload(*m)));
    }
    Ok(())
}

/// Serializes every nonempty section in section-id order: the result is
/// exactly the byte-level section encoding, and serialization succeeds
/// exactly when every size fits its 32-bit field.
#[verifier::rlimit(100)]
fn section_bytes(m: &WasmModule) -> (r: Result<Vec<u8>, CompileError>)
    ensures
        r is Ok <==> emit_fits(*m),
        r is Ok ==> r.unwrap()@ == spec_sections(*m),
        r is Err ==> r == Err::<Vec<u8>, CompileError>(CompileError::MergeError),
{
    let mut out: Vec<u8> = Vec::new();
    let ghost mut acc: Seq<u8> = Seq::empty();
    if let Err(e) = emit_types_section(m, &mut out) {
        return Err(e);
    }
    proof {
        acc = acc + spec_opt_section(1, m.types@.len() > 0, spec_types_payload(*m));
        assert(out@ =~= acc);
    }
    if let Err(e) = emit_imports_section(m, &mut out) {
        return Err(e);
    }
    proof {
        acc = acc + spec_opt_section(2, m.imports@.len() > 0, spec_imports_payload(*m));
        assert(out@ =~= acc);
    }
    if let Err(e) = emit_functions_section(m, &mut out) {
        return Err(e);
    }
    proof {
        acc = acc + spec_opt_section(3, m.functions@.len() > 0, spec_functions_payload(*m));
        assert(out@ =~= acc);
    }
    if let Err(e) = emit_raw_section(&m.table, 4, &mut out) {
        return Err(e);
    }
    proof {
        acc = acc + spec_raw_section(4, m.table);
        assert(out@ =~= acc);
    }
    if let Err(e) = emit_raw_section(&m.memory, 5, &mut out) {
        return Err(e);
    }
    proof {
        acc = acc + spec_raw_section(5, m.memory);
        assert(out@ =~= acc);
    }
    if let Err(e) = emit_raw_section(&m.global, 6, &mut out) {
        return Err(e);
    }
    proof {
        acc = acc + spec_raw_section(6, m.global);
        assert(out@ =~= acc);
    }
    if let Err(e) = emit_exports_section(m, &mut out) {
        return Err(e);
    }
    proof {
        acc = acc + spec_opt_section(7, m.exports@.len() > 0, spec_exports_payload(*m));
        assert(out@ =~= acc);
    }
    match m.start {
        Some(v) => {
            let mut payload: Vec<u8> = Vec::new();
            push_leb(&mut payload, v);
            if payload.len() > u32::MAX as usize {
                return Err(CompileError::MergeError);
            }
            push_section(&mut out, 8, &payload);
        },
        None => {},
    }
    proof {
        acc = acc + (match m.start {
            Some(v) => spec_section(8, spec_leb(v as nat)),
            None => Seq::<u8>::empty(),
        });
        assert(out@ =~= acc);
    }
    if let Err(e) = emit_raw_section(&m.element, 9, &mut out) {
        return Err(e);
    }
    proof {
        acc = acc + spec_raw_section(9, m.element);
        assert(out@ =~= acc);
    }
    if let Err(e) = emit_code_section(m, &mut out) {
        return Err(e);
    }
    proof {
        acc = acc + spec_opt_section(10, m.code@.len() > 0, spec_code_payload(*m));
        assert(out@ =~= acc);
    }
    if let Err(e) = emit_data_section(m, &mut out) {
        return Err(e);
    }
    proof {
        acc = acc + spec_opt_section(11, m.data@.len() > 0, spec_data_payload(*m));
        assert(out@ =~= acc);
    }
    proof {
        assert(acc =~= spec_sections(*m));
    }
    Ok(out)
}

} // verus!
