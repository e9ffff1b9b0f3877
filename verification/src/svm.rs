//! Minimal sBPF (Solana eBPF v1) interpreter.
//!
//! A register-level interpreter for the instruction classes ALU64, ALU32,
//! JMP, JMP32, LDX, ST, STX, the two-slot 64-bit immediate load, CALL
//! (syscall dispatch) and EXIT. A payload that starts with the ELF magic is
//! searched for its `.text` section; any other payload is taken as a raw
//! instruction stream of 8-byte instructions.
//!
//! Memory map seen by the program: addresses `0..4096` are the VM stack,
//! addresses from `4096` on address the input slice. Reads outside both give
//! zero bytes and writes outside the stack are discarded.

use vstd::prelude::*;
use crate::hashing::{blake2_256, blake2_256_spec};
use crate::bytes::{pow256, lemma_pow256_pos};

verus! {

/// Errors of the sBPF interpreter.
#[derive(Debug, Clone, Copy, PartialEq, Eq, Structural)]
pub enum SvmError {
    InvalidPayload,
    OutOfComputeUnits,
    ExecutionFailed,
}

/// Result type of the interpreter entry points.
pub type SvmResult<T> = Result<T, SvmError>;

/// Number of registers (r0..r10).
pub const NREG: usize = 11;
/// Size of the VM stack in bytes.
pub const STACK_SIZE: usize = 4096;
/// Hard cap on the number of executed instructions.
pub const MAX_INSN_FUEL: u64 = 1_000_000;

/// A decoded 8-byte instruction.
#[derive(Clone, Copy)]
pub struct Insn {
    pub opcode: u8,
    pub dst: u8,
    pub src: u8,
    pub off: i16,
    pub imm: i32,
}

/// The signed 16-bit value of the little-endian bytes `b0, b1`.
pub open spec fn le_i16(b0: u8, b1: u8) -> i16 {
    let v = b0 as int + 256 * (b1 as int);
    if v < 0x8000 { v as i16 } else { (v - 0x10000) as i16 }
}

/// The unsigned value of the little-endian bytes of `b`.
pub open spec fn le_value(b: Seq<u8>) -> nat
    decreases b.len(),
{
    if b.len() == 0 { 0 } else { b[0] as nat + 256 * le_value(b.drop_first()) }
}

/// The signed 32-bit value of the four little-endian bytes `b`.
pub open spec fn le_i32(b: Seq<u8>) -> i32 {
    let v = le_value(b);
    if v < 0x8000_0000 { v as i32 } else { (v - 0x1_0000_0000) as i32 }
}

/// The instruction that the 8 bytes `raw` encode.
pub open spec fn decode_spec(raw: Seq<u8>) -> Insn {
    Insn {
        opcode: raw[0],
        dst: raw[1] & 0x0f,
        src: (raw[1] >> 4) & 0x0f,
        off: le_i16(raw[2], raw[3]),
        imm: le_i32(raw.subrange(4, 8)),
    }
}

proof fn lemma_le_value_bound(b: Seq<u8>)
    ensures
        le_value(b) < pow256(b.len()),
    decreases b.len(),
{
    if b.len() > 0 {
        lemma_le_value_bound(b.drop_first());
    }
}

proof fn lemma_le_value_4(b: Seq<u8>)
    requires
        b.len() == 4,
    ensures
        le_value(b) == b[0] as nat + 256 * (b[1] as nat) + 65536 * (b[2] as nat) + 16777216 * (b[3] as nat),
{
    let b1 = b.drop_first();
    let b2 = b1.drop_first();
    let b3 = b2.drop_first();
    let b4 = b3.drop_first();
    assert(b4.len() == 0);
    assert(le_value(b4) == 0);
    assert(le_value(b3) == b3[0] as nat + 256 * le_value(b4));
    assert(le_value(b2) == b2[0] as nat + 256 * le_value(b3));
    assert(le_value(b1) == b1[0] as nat + 256 * le_value(b2));
    assert(le_value(b) == b[0] as nat + 256 * le_value(b1));
    assert(b1[0] == b[1] && b2[0] == b[2] && b3[0] == b[3]);
}

/// Decode one 8-byte instruction.
pub fn decode(raw: &[u8; 8]) -> (i: Insn)
    ensures
        i == decode_spec(raw@),
{
    let b2 = raw[2] as u32;
    let b3 = raw[3] as u32;
    let v16: u32 = b2 + 256 * b3;
    let off: i16 = if v16 < 0x8000 { v16 as i16 } else { (v16 as i32 - 0x10000) as i16 };
    let v32: u64 = raw[4] as u64 + 256 * (raw[5] as u64) + 65536 * (raw[6] as u64) + 16777216 * (raw[7] as u64);
    let imm: i32 = if v32 < 0x8000_0000 { v32 as i32 } else { (v32 as i64 - 0x1_0000_0000) as i32 };
    proof {
        let s = raw@.subrange(4, 8);
        lemma_le_value_4(s);
        assert(s[0] == raw@[4] && s[1] == raw@[5] && s[2] == raw@[6] && s[3] == raw@[7]);
    }
    Insn {
        opcode: raw[0],
        dst: raw[1] & 0x0f,
        src: (raw[1] >> 4) & 0x0f,
        off,
        imm,
    }
}

/// The 64-bit ALU operation `op` (high nibble of the opcode) on `dst`, `src`.
pub open spec fn alu64_spec(op: u8, dst: u64, src: u64) -> SvmResult<u64> {
    if op == 0x0 {
        Ok(vstd::wrapping::u64_specs::wrapping_add(dst, src))
    } else if op == 0x1 {
        Ok(vstd::wrapping::u64_specs::wrapping_sub(dst, src))
    } else if op == 0x2 {
        Ok(vstd::wrapping::u64_specs::wrapping_mul(dst, src))
    } else if op == 0x3 {
        if src == 0 { Err(SvmError::ExecutionFailed) } else { Ok(dst / src) }
    } else if op == 0x4 {
        Ok(dst | src)
    } else if op == 0x5 {
        Ok(dst & src)
    } else if op == 0x6 {
        Ok(dst << ((src & 63) as u32))
    } else if op == 0x7 {
        Ok(dst >> ((src & 63) as u32))
    } else if op == 0x8 {
        Ok(vstd::wrapping::u64_specs::wrapping_sub(0, dst))
    } else if op == 0x9 {
        if src == 0 { Err(SvmError::ExecutionFailed) } else { Ok(dst % src) }
    } else if op == 0xa {
        Ok(dst ^ src)
    } else if op == 0xb {
        Ok(src)
    } else if op == 0xc {
        Ok(vstd::wrapping::i64_specs::wrapping_shr(dst as i64, (src & 63) as u32) as u64)
    } else {
        Ok(dst)
    }
}

/// The 64-bit ALU computes in arithmetic modulo 2^64: add, subtract and
/// multiply give the mathematical result reduced modulo 2^64, negate gives
/// the value that adds to `dst` to make 0, divide and modulo give the
/// quotient and remainder of `dst` by `src` and are refused for a zero
/// divisor, and `mov` gives `src`.
pub proof fn lemma_alu64_arithmetic(dst: u64, src: u64)
    ensures
        alu64_spec(0x0, dst, src) matches Ok(r) && r as int == (dst + src) % 0x1_0000_0000_0000_0000,
        alu64_spec(0x1, dst, src) matches Ok(r) && (r + src) % 0x1_0000_0000_0000_0000 == dst as int,
        alu64_spec(0x2, dst, src) matches Ok(r) && r as int == (dst * src) % 0x1_0000_0000_0000_0000,
        alu64_spec(0x8, dst, src) matches Ok(r) && (r + dst) % 0x1_0000_0000_0000_0000 == 0,
        alu64_spec(0xb, dst, src) == Ok::<u64, SvmError>(src),
        src == 0 ==> alu64_spec(0x3, dst, src) == Err::<u64, SvmError>(SvmError::ExecutionFailed)
            && alu64_spec(0x9, dst, src) == Err::<u64, SvmError>(SvmError::ExecutionFailed),
        src != 0 ==> (alu64_spec(0x3, dst, src) matches Ok(q) && q * src <= dst && dst < q * src + src),
        src != 0 ==> (alu64_spec(0x9, dst, src) matches Ok(m) && m < src && m <= dst && (dst - m) % (src as int) == 0),
{
    if src != 0 {
        let q = dst / src;
        let m = dst % src;
        assert(q * src + m == dst && m < src) by (nonlinear_arith)
            requires src > 0, q == dst / src, m == dst % src;
        assert((dst - m) % (src as int) == 0) by (nonlinear_arith)
            requires src > 0, dst - m == q * src, q >= 0;
    }
}

/// Subtracting what was added gives back the original value, whatever the
/// wrap-around: `(d + s) - s == d` in the 64-bit ALU.
pub proof fn lemma_alu64_sub_undoes_add(d: u64, s: u64)
    ensures
        alu64_spec(0x0, d, s) matches Ok(x) && alu64_spec(0x1, x, s) == Ok::<u64, SvmError>(d),
{
}

/// The 64-bit ALU's bitwise operations: xor with the same source twice gives
/// back `dst`, `and` gives no more than either operand and `or` no less.
pub proof fn lemma_alu64_bitwise(dst: u64, src: u64)
    ensures
        alu64_spec(0xa, dst, src) matches Ok(x) && alu64_spec(0xa, x, src) == Ok::<u64, SvmError>(dst),
        alu64_spec(0x5, dst, src) matches Ok(a) && a <= dst && a <= src,
        alu64_spec(0x4, dst, src) matches Ok(o) && o >= dst && o >= src,
{
    assert((dst ^ src) ^ src == dst) by (bit_vector);
    assert(dst & src <= dst && dst & src <= src) by (bit_vector);
    assert(dst | src >= dst && dst | src >= src) by (bit_vector);
}

/// The 64-bit ALU's shifts move bits by the source's low six bits: a left
/// shift keeps the low `64 - k` bits of `dst`, moved up, with zeros below;
/// a right shift keeps the high `64 - k` bits, moved down, with zeros above.
pub proof fn lemma_alu64_shifts(dst: u64, src: u64)
    ensures
        alu64_spec(0x6, dst, src) matches Ok(l) && (l >> (src & 63)) == dst & (u64::MAX >> (src & 63))
            && l & ((1u64 << (src & 63)) - 1) as u64 == 0,
        alu64_spec(0x7, dst, src) matches Ok(r) && (r << (src & 63)) == dst & (u64::MAX << (src & 63))
            && r <= u64::MAX >> (src & 63),
{
    let k: u64 = src & 63;
    assert(k < 64) by (bit_vector)
        requires k == src & 63;
    assert((dst << k) >> k == dst & (u64::MAX >> k)) by (bit_vector)
        requires k < 64;
    assert((dst << k) & ((1u64 << k) - 1) as u64 == 0) by (bit_vector)
        requires k < 64;
    assert((dst >> k) << k == dst & (u64::MAX << k)) by (bit_vector)
        requires k < 64;
    assert(dst >> k <= u64::MAX >> k) by (bit_vector)
        requires k < 64;
}

/// The 32-bit ALU computes modulo 2^32 as the 64-bit one does modulo 2^64:
/// add, subtract and multiply reduce the mathematical result, negate gives
/// the additive inverse, divide and modulo give quotient and remainder and
/// are refused for a zero divisor, and `mov` gives `src`.
pub proof fn lemma_alu32_arithmetic(dst: u32, src: u32)
    ensures
        alu32_spec(0x0, dst, src) matches Ok(r) && r as int == (dst + src) % 0x1_0000_0000,
        alu32_spec(0x1, dst, src) matches Ok(r) && (r + src) % 0x1_0000_0000 == dst as int,
        alu32_spec(0x2, dst, src) matches Ok(r) && r as int == (dst * src) % 0x1_0000_0000,
        alu32_spec(0x8, dst, src) matches Ok(r) && (r + dst) % 0x1_0000_0000 == 0,
        alu32_spec(0xb, dst, src) == Ok::<u32, SvmError>(src),
        src == 0 ==> alu32_spec(0x3, dst, src) == Err::<u32, SvmError>(SvmError::ExecutionFailed)
            && alu32_spec(0x9, dst, src) == Err::<u32, SvmError>(SvmError::ExecutionFailed),
        src != 0 ==> (alu32_spec(0x3, dst, src) matches Ok(q) && q * src <= dst && dst < q * src + src),
        src != 0 ==> (alu32_spec(0x9, dst, src) matches Ok(m) && m < src && m <= dst && (dst - m) % (src as int) == 0),
{
    if src != 0 {
        let q = dst / src;
        let m = dst % src;
        assert(q * src + m == dst && m < src) by (nonlinear_arith)
            requires src > 0, q == dst / src, m == dst % src;
        assert((dst - m) % (src as int) == 0) by (nonlinear_arith)
            requires src > 0, dst - m == q * src, q >= 0;
    }
}

/// The 32-bit ALU operation `op` on `dst`, `src`.
pub open spec fn alu32_spec(op: u8, dst: u32, src: u32) -> SvmResult<u32> {
    if op == 0x0 {
        Ok(vstd::wrapping::u32_specs::wrapping_add(dst, src))
    } else if op == 0x1 {
        Ok(vstd::wrapping::u32_specs::wrapping_sub(dst, src))
    } else if op == 0x2 {
        Ok(vstd::wrapping::u32_specs::wrapping_mul(dst, src))
    } else if op == 0x3 {
        if src == 0 { Err(SvmError::ExecutionFailed) } else { Ok(dst / src) }
    } else if op == 0x4 {
        Ok(dst | src)
    } else if op == 0x5 {
        Ok(dst & src)
    } else if op == 0x6 {
        Ok(dst << (src & 31))
    } else if op == 0x7 {
        Ok(dst >> (src & 31))
    } else if op == 0x8 {
        Ok(vstd::wrapping::u32_specs::wrapping_sub(0, dst))
    } else if op == 0x9 {
        if src == 0 { Err(SvmError::ExecutionFailed) } else { Ok(dst % src) }
    } else if op == 0xa {
        Ok(dst ^ src)
    } else if op == 0xb {
        Ok(src)
    } else if op == 0xc {
        Ok(vstd::wrapping::i32_specs::wrapping_shr(dst as i32, src & 31) as u32)
    } else {
        Ok(dst)
    }
}

/// Execute a 64-bit ALU operation. Division and remainder by zero fail.
pub fn alu64(op: u8, dst: u64, src: u64) -> (r: SvmResult<u64>)
    ensures
        r == alu64_spec(op, dst, src),
{
    if op == 0x0 {
        Ok(dst.wrapping_add(src))
    } else if op == 0x1 {
        Ok(dst.wrapping_sub(src))
    } else if op == 0x2 {
        Ok(dst.wrapping_mul(src))
    } else if op == 0x3 {
        if src == 0 { Err(SvmError::ExecutionFailed) } else { Ok(dst / src) }
    } else if op == 0x4 {
        Ok(dst | src)
    } else if op == 0x5 {
        Ok(dst & src)
    } else if op == 0x6 {
        let sh = (src & 63) as u32;
        assert((src & 63) < 64) by (bit_vector);
        Ok(dst << sh)
    } else if op == 0x7 {
        let sh = (src & 63) as u32;
        assert((src & 63) < 64) by (bit_vector);
        Ok(dst >> sh)
    } else if op == 0x8 {
        Ok(0u64.wrapping_sub(dst))
    } else if op == 0x9 {
        if src == 0 { Err(SvmError::ExecutionFailed) } else { Ok(dst % src) }
    } else if op == 0xa {
        Ok(dst ^ src)
    } else if op == 0xb {
        Ok(src)
    } else if op == 0xc {
        Ok((dst as i64).wrapping_shr((src & 63) as u32) as u64)
    } else {
        Ok(dst)
    }
}

/// Execute a 32-bit ALU operation. Division and remainder by zero fail.
pub fn alu32(op: u8, dst: u32, src: u32) -> (r: SvmResult<u32>)
    ensures
        r == alu32_spec(op, dst, src),
{
    if op == 0x0 {
        Ok(dst.wrapping_add(src))
    } else if op == 0x1 {
        Ok(dst.wrapping_sub(src))
    } else if op == 0x2 {
        Ok(dst.wrapping_mul(src))
    } else if op == 0x3 {
        if src == 0 { Err(SvmError::ExecutionFailed) } else { Ok(dst / src) }
    } else if op == 0x4 {
        Ok(dst | src)
    } else if op == 0x5 {
        Ok(dst & src)
    } else if op == 0x6 {
        assert((src & 31) < 32) by (bit_vector);
        Ok(dst << (src & 31))
    } else if op == 0x7 {
        assert((src & 31) < 32) by (bit_vector);
        Ok(dst >> (src & 31))
    } else if op == 0x8 {
        Ok(0u32.wrapping_sub(dst))
    } else if op == 0x9 {
        if src == 0 { Err(SvmError::ExecutionFailed) } else { Ok(dst % src) }
    } else if op == 0xa {
        Ok(dst ^ src)
    } else if op == 0xb {
        Ok(src)
    } else if op == 0xc {
        Ok((dst as i32).wrapping_shr(src & 31) as u32)
    } else {
        Ok(dst)
    }
}

/// Access size in bytes of a load/store opcode (bits 3-4 of the opcode).
pub open spec fn size_of_op_spec(opcode: u8) -> usize {
    let sz = opcode & 0x18;
    if sz == 0x10 { 1 } else if sz == 0x08 { 2 } else if sz == 0x00 { 4 } else { 8 }
}

/// Access size in bytes of a load/store opcode.
pub fn size_of_op(opcode: u8) -> (n: usize)
    ensures
        n == size_of_op_spec(opcode),
        1 <= n <= 8,
{
    let sz = opcode & 0x18;
    if sz == 0x10 {
        1
    } else if sz == 0x08 {
        2
    } else if sz == 0x00 {
        4
    } else {
        8
    }
}

/// Return value of the syscall with identifier `id`: `sol_panic_` and the two
/// cross-program-invocation entry points (not implemented here) answer 1,
/// every other syscall answers 0.
pub open spec fn syscall_result(id: u32) -> u64 {
    if id == 0x686093bb || id == 0xcb228b32 || id == 0xd7449092 { 1 } else { 0 }
}

/// Map a Solana syscall identifier to its return value.
pub fn dispatch_syscall(id: u32, regs: &[u64; 11], _input: &[u8]) -> (r: u64)
    ensures
        r == syscall_result(id),
{
    if id == 0x207559bd {
        0
    } else if id == 0x686093bb {
        1
    } else if id == 0x717cc4a3 || id == 0x434371f8 || id == 0x5fdcde31 || id == 0x3770fb22 {
        0
    } else if id == 0xcb228b32 || id == 0xd7449092 {
        1
    } else if id == 0xe8a04f5a {
        let _r1 = regs[1];
        0
    } else {
        0
    }
}


// ---------------------------------------------------------------------------
// Interpreter state and its model
// ---------------------------------------------------------------------------

/// Abstract interpreter state: registers, stack, remaining fuel and the index
/// of the next instruction.
#[verifier::ext_equal]
pub struct VmState {
    pub regs: Seq<u64>,
    pub stack: Seq<u8>,
    pub fuel: u64,
    pub pc: int,
}

/// Value of register `r` (indices above 10 read r10).
pub open spec fn reg_spec(regs: Seq<u64>, r: u8) -> u64 {
    if r <= 10 { regs[r as int] } else { regs[10] }
}

/// Registers after writing `v` to register `r` (writes to indices above 10 are dropped).
pub open spec fn set_reg_spec(regs: Seq<u64>, r: u8, v: u64) -> Seq<u64> {
    if r < 11 { regs.update(r as int, v) } else { regs }
}

/// The 8-byte little-endian window read at `off` from `buf`: the first
/// `size` bytes that lie inside `buf`, the rest zero.
pub open spec fn read_window(buf: Seq<u8>, off: int, size: int) -> Seq<u8> {
    Seq::new(8, |j: int| if j < size && off + j < buf.len() { buf[off + j] } else { 0u8 })
}

/// Value of a `size`-byte load from address `addr`.
pub open spec fn mem_read_spec(stack: Seq<u8>, input: Seq<u8>, addr: u64, size: int) -> u64 {
    let a = addr as usize;
    if a < 4096 {
        le_value(read_window(stack, a as int, size)) as u64
    } else {
        le_value(read_window(input, a - 4096, size)) as u64
    }
}

/// Byte `j` of the little-endian encoding of `v`.
pub open spec fn byte_of(v: u64, j: int) -> u8 {
    ((v as nat / pow256(j as nat)) % 256) as u8
}

/// Stack after a `size`-byte store of `value` at `addr`; stores that do not
/// fit entirely in the stack are dropped.
pub open spec fn mem_write_spec(stack: Seq<u8>, addr: u64, value: u64, size: int) -> Seq<u8> {
    let a = addr as usize;
    if a < 4096 && a + size <= 4096 {
        Seq::new(stack.len(), |k: int| if a <= k < a + size { byte_of(value, k - a) } else { stack[k] })
    } else {
        stack
    }
}

/// The instruction at index `k` of the instruction stream.
pub open spec fn insn_at(insns: Seq<u8>, k: int) -> Insn {
    decode_spec(insns.subrange(8 * k, 8 * k + 8))
}

/// Source operand of a 64-bit ALU or JMP instruction.
pub open spec fn src64(regs: Seq<u64>, i: Insn) -> u64 {
    if i.opcode & 0x08 != 0 { reg_spec(regs, i.src) } else { i.imm as i64 as u64 }
}

/// Branch condition `j` (high opcode nibble) on 64-bit operands.
pub open spec fn jmp64_cond(j: u8, d: u64, s: u64) -> bool {
    if j == 0x0 { true }
    else if j == 0x1 { d == s }
    else if j == 0x2 { d > s }
    else if j == 0x3 { d >= s }
    else if j == 0x4 { d & s != 0 }
    else if j == 0x5 { d != s }
    else if j == 0x6 { (d as i64) > (s as i64) }
    else if j == 0x7 { (d as i64) >= (s as i64) }
    else if j == 0xa { d < s }
    else if j == 0xb { d <= s }
    else if j == 0xc { (d as i64) < (s as i64) }
    else if j == 0xd { (d as i64) <= (s as i64) }
    else { false }
}

/// Branch condition `j` on 32-bit operands.
pub open spec fn jmp32_cond(j: u8, d: u32, s: u32) -> bool {
    if j == 0x0 { true }
    else if j == 0x1 { d == s }
    else if j == 0x2 { d > s }
    else if j == 0x3 { d >= s }
    else if j == 0x4 { d & s != 0 }
    else if j == 0x5 { d != s }
    else if j == 0x6 { (d as i32) > (s as i32) }
    else if j == 0x7 { (d as i32) >= (s as i32) }
    else if j == 0xa { d < s }
    else if j == 0xb { d <= s }
    else if j == 0xc { (d as i32) < (s as i32) }
    else if j == 0xd { (d as i32) <= (s as i32) }
    else { false }
}

/// State with new registers and instruction index.
pub open spec fn with_regs_pc(s: VmState, regs: Seq<u64>, pc: int) -> VmState {
    VmState { regs: regs, stack: s.stack, fuel: s.fuel, pc: pc }
}

/// Outcome of a taken branch with offset `off` from instruction `pc`.
pub open spec fn branch_spec(s: VmState, n: int, off: i16) -> (Option<SvmResult<u64>>, VmState) {
    let np = s.pc + 1 + off as int;
    if np < 0 || np >= n {
        (Some(Err(SvmError::ExecutionFailed)), s)
    } else {
        (None, with_regs_pc(s, s.regs, np))
    }
}

/// One instruction step from `s` (whose fuel has already been charged).
/// `None` continues execution from the returned state; `Some(r)` stops with `r`.
pub open spec fn step_spec(s: VmState, insns: Seq<u8>, input: Seq<u8>) -> (Option<SvmResult<u64>>, VmState) {
    let n = insns.len() / 8;
    let i = insn_at(insns, s.pc);
    let op = i.opcode;
    let cls = op & 0x07;
    if op == 0x95 {
        (Some(Ok(s.regs[0])), s)
    } else if op == 0x18 {
        let lo = i.imm as u64;
        let hi: u64 = if s.pc + 1 < n { insn_at(insns, s.pc + 1).imm as u64 } else { 0 };
        (None, with_regs_pc(s, set_reg_spec(s.regs, i.dst, (hi << 32u64) | (lo & 0xffff_ffffu64)), s.pc + 2))
    } else if op == 0x85 {
        let r0 = syscall_result(i.imm as u32);
        let regs = s.regs.update(0, r0).update(1, 0).update(2, 0).update(3, 0).update(4, 0).update(5, 0);
        (None, with_regs_pc(s, regs, s.pc + 1))
    } else if cls == 0x07 {
        match alu64_spec(op >> 4, reg_spec(s.regs, i.dst), src64(s.regs, i)) {
            Ok(v) => (None, with_regs_pc(s, set_reg_spec(s.regs, i.dst, v), s.pc + 1)),
            Err(e) => (Some(Err(e)), s),
        }
    } else if cls == 0x04 {
        let sv: u64 = if op & 0x08 != 0 { reg_spec(s.regs, i.src) } else { i.imm as u64 };
        let dv: u64 = reg_spec(s.regs, i.dst) & 0xffff_ffffu64;
        match alu32_spec(op >> 4, dv as u32, sv as u32) {
            Ok(v) => (None, with_regs_pc(s, set_reg_spec(s.regs, i.dst, v as u64), s.pc + 1)),
            Err(e) => (Some(Err(e)), s),
        }
    } else if cls == 0x05 {
        let j = op >> 4;
        if j == 0x9 {
            (Some(Ok(s.regs[0])), s)
        } else if j == 0x8 {
            (None, with_regs_pc(s, s.regs.update(0, syscall_result(i.imm as u32)), s.pc + 1))
        } else if jmp64_cond(j, reg_spec(s.regs, i.dst), src64(s.regs, i)) {
            branch_spec(s, n as int, i.off)
        } else {
            (None, with_regs_pc(s, s.regs, s.pc + 1))
        }
    } else if cls == 0x06 {
        if jmp32_cond(op >> 4, reg_spec(s.regs, i.dst) as u32, src64(s.regs, i) as u32) {
            branch_spec(s, n as int, i.off)
        } else {
            (None, with_regs_pc(s, s.regs, s.pc + 1))
        }
    } else if cls == 0x01 {
        let addr = vstd::wrapping::u64_specs::wrapping_add(reg_spec(s.regs, i.src), i.off as i64 as u64);
        let v = mem_read_spec(s.stack, input, addr, size_of_op_spec(op) as int);
        (None, with_regs_pc(s, set_reg_spec(s.regs, i.dst, v), s.pc + 1))
    } else if cls == 0x02 || cls == 0x03 {
        let addr = vstd::wrapping::u64_specs::wrapping_add(reg_spec(s.regs, i.dst), i.off as i64 as u64);
        let value = if cls == 0x02 { i.imm as i64 as u64 } else { reg_spec(s.regs, i.src) };
        let st = mem_write_spec(s.stack, addr, value, size_of_op_spec(op) as int);
        (None, VmState { regs: s.regs, stack: st, fuel: s.fuel, pc: s.pc + 1 })
    } else {
        (None, with_regs_pc(s, s.regs, s.pc + 1))
    }
}

/// Run from `s` until EXIT, an error, fuel exhaustion or falling off the end
/// of the instruction stream (which returns r0). Yields the result and the
/// final state.
pub open spec fn run_spec(s: VmState, insns: Seq<u8>, input: Seq<u8>) -> (SvmResult<u64>, VmState)
    decreases s.fuel,
{
    if s.pc < 0 || s.pc >= insns.len() / 8 {
        (Ok(s.regs[0]), s)
    } else if s.fuel == 0 {
        (Err(SvmError::OutOfComputeUnits), s)
    } else {
        let s1 = VmState { regs: s.regs, stack: s.stack, fuel: (s.fuel - 1) as u64, pc: s.pc };
        let (out, s2) = step_spec(s1, insns, input);
        match out {
            Some(r) => (r, s2),
            None => run_spec(VmState { regs: s2.regs, stack: s2.stack, fuel: s1.fuel, pc: s2.pc }, insns, input),
        }
    }
}

/// The initial state of a run over an input whose address, handed in r1, is `input_addr`.
pub open spec fn initial_state(input_addr: u64, input_len: u64, fuel: u64) -> VmState {
    VmState {
        regs: Seq::new(11, |k: int| if k == 1 { input_addr } else if k == 2 { input_len } else if k == 10 { 4096u64 } else { 0u64 }),
        stack: Seq::new(4096, |_k: int| 0u8),
        fuel: fuel,
        pc: 0,
    }
}

/// Interpreter state.
struct Vm<'a> {
    regs: [u64; 11],
    stack: [u8; 4096],
    fuel: u64,
    insns: &'a [u8],
    pc: usize,
}

proof fn lemma_read_window_step(buf: Seq<u8>, off: int, size: int, j: int)
    requires
        1 <= j <= 8,
    ensures
        le_value(read_window(buf, off, size).subrange(j - 1, 8))
            == read_window(buf, off, size)[j - 1] as nat + 256 * le_value(read_window(buf, off, size).subrange(j, 8)),
{
    let w = read_window(buf, off, size);
    assert(w.subrange(j - 1, 8).drop_first() =~= w.subrange(j, 8));
}

/// Little-endian value of the read window at `off` in `buf`.
fn read_le(buf: &[u8], off: usize, size: usize) -> (v: u64)
    requires
        size <= 8,
    ensures
        v as nat == le_value(read_window(buf@, off as int, size as int)),
{
    let ghost w = read_window(buf@, off as int, size as int);
    let mut v: u64 = 0;
    let mut j: usize = 8;
    assert(w.subrange(8, 8).len() == 0);
    while j > 0
        invariant
            j <= 8,
            w == read_window(buf@, off as int, size as int),
            v as nat == le_value(w.subrange(j as int, 8)),
            (v as nat) < pow256((8 - j) as nat),
        decreases j,
    {
        let k = j - 1;
        let b: u8 = if k < size && off < buf.len() && k < buf.len() - off { buf[off + k] } else { 0 };
        proof {
            lemma_read_window_step(buf@, off as int, size as int, j as int);
            assert(w[k as int] == b);
            assert(pow256((8 - k) as nat) == 256 * pow256((8 - j) as nat));
            reveal_with_fuel(pow256, 9);
            assert(pow256(8) == 0x1_0000_0000_0000_0000);
            lemma_pow256_mono((8 - k) as nat, 8);
        }
        v = v * 256 + b as u64;
        j = k;
    }
    assert(w.subrange(0, 8) =~= w);
    v
}

proof fn lemma_pow256_mono(a: nat, b: nat)
    requires
        a <= b,
    ensures
        pow256(a) <= pow256(b),
    decreases b,
{
    if a < b {
        lemma_pow256_mono(a, (b - 1) as nat);
    }
}

impl<'a> Vm<'a> {
    spec fn state(&self) -> VmState {
        VmState { regs: self.regs@, stack: self.stack@, fuel: self.fuel, pc: self.pc as int }
    }

    fn new(insns: &'a [u8], input_addr: u64, input_len: u64, fuel: u64) -> (vm: Self)
        ensures
            vm.state() == initial_state(input_addr, input_len, fuel),
            vm.insns@ == insns@,
    {
        let mut regs = [0u64; 11];
        regs[1] = input_addr;
        regs[2] = input_len;
        regs[10] = 4096;
        let vm = Vm { regs, stack: [0u8; 4096], fuel, insns, pc: 0 };
        assert(vm.regs@ =~= initial_state(input_addr, input_len, fuel).regs);
        assert(vm.stack@ =~= initial_state(input_addr, input_len, fuel).stack);
        vm
    }

    fn reg(&self, r: u8) -> (v: u64)
        ensures
            v == reg_spec(self.regs@, r),
    {
        let k: u8 = if r <= 10 { r } else { 10 };
        self.regs[k as usize]
    }

    fn set_reg(&mut self, r: u8, v: u64)
        ensures
            final(self).regs@ == set_reg_spec(old(self).regs@, r, v),
            final(self).stack == old(self).stack,
            final(self).fuel == old(self).fuel,
            final(self).pc == old(self).pc,
            final(self).insns == old(self).insns,
    {
        if (r as usize) < 11 {
            self.regs[r as usize] = v;
        }
    }

    fn mem_read(&self, addr: u64, size: usize, input: &[u8]) -> (v: u64)
        requires
            size <= 8,
        ensures
            v == mem_read_spec(self.stack@, input@, addr, size as int),
    {
        let a = addr as usize;
        if a < 4096 {
            read_le(self.stack.as_slice(), a, size)
        } else {
            read_le(input, a - 4096, size)
        }
    }

    fn mem_write(&mut self, addr: u64, value: u64, size: usize)
        requires
            size <= 8,
        ensures
            final(self).stack@ == mem_write_spec(old(self).stack@, addr, value, size as int),
            final(self).regs == old(self).regs,
            final(self).fuel == old(self).fuel,
            final(self).pc == old(self).pc,
            final(self).insns == old(self).insns,
    {
        let a = addr as usize;
        if a < 4096 && a + size <= 4096 {
            let ghost st0 = self.stack@;
            let mut v: u64 = value;
            let mut j: usize = 0;
            assert(pow256(0) == 1);
            assert(value as nat / 1 == value as nat);
            while j < size
                invariant
                    j <= size <= 8,
                    a < 4096,
                    a + size <= 4096,
                    a == addr as usize,
                    v as nat == value as nat / pow256(j as nat),
                    self.stack@.len() == 4096,
                    forall|k: int| 0 <= k < 4096 ==> self.stack@[k] == (if a <= k < a + j { byte_of(value, k - a) } else { st0[k] }),
                    self.regs == old(self).regs,
                    self.fuel == old(self).fuel,
                    self.pc == old(self).pc,
                    self.insns == old(self).insns,
                decreases size - j,
            {
                self.stack[a + j] = (v % 256) as u8;
                proof {
                    lemma_pow256_pos(j as nat);
                    vstd::arithmetic::div_mod::lemma_div_denominator(value as int, pow256(j as nat) as int, 256);
                    assert(pow256(j as nat) * 256 == pow256((j + 1) as nat)) by (nonlinear_arith)
                        requires pow256((j + 1) as nat) == 256 * pow256(j as nat);
                }
                v = v / 256;
                j = j + 1;
            }
            assert(self.stack@ =~= mem_write_spec(st0, addr, value, size as int));
        }
    }
}



fn jmp64_take(j: u8, d: u64, s: u64) -> (b: bool)
    ensures
        b == jmp64_cond(j, d, s),
{
    if j == 0x0 { true }
    else if j == 0x1 { d == s }
    else if j == 0x2 { d > s }
    else if j == 0x3 { d >= s }
    else if j == 0x4 { d & s != 0 }
    else if j == 0x5 { d != s }
    else if j == 0x6 { (d as i64) > (s as i64) }
    else if j == 0x7 { (d as i64) >= (s as i64) }
    else if j == 0xa { d < s }
    else if j == 0xb { d <= s }
    else if j == 0xc { (d as i64) < (s as i64) }
    else if j == 0xd { (d as i64) <= (s as i64) }
    else { false }
}

fn jmp32_take(j: u8, d: u32, s: u32) -> (b: bool)
    ensures
        b == jmp32_cond(j, d, s),
{
    if j == 0x0 { true }
    else if j == 0x1 { d == s }
    else if j == 0x2 { d > s }
    else if j == 0x3 { d >= s }
    else if j == 0x4 { d & s != 0 }
    else if j == 0x5 { d != s }
    else if j == 0x6 { (d as i32) > (s as i32) }
    else if j == 0x7 { (d as i32) >= (s as i32) }
    else if j == 0xa { d < s }
    else if j == 0xb { d <= s }
    else if j == 0xc { (d as i32) < (s as i32) }
    else if j == 0xd { (d as i32) <= (s as i32) }
    else { false }
}

/// Fetch and decode instruction `k` of `insns`.
fn fetch(insns: &[u8], k: usize) -> (i: Insn)
    requires
        k < insns@.len() / 8,
    ensures
        i == insn_at(insns@, k as int),
{
    let len = insns.len();
    assert(k * 8 + 8 <= len) by (nonlinear_arith)
        requires k < len / 8;
    let b = k * 8;
    let raw: [u8; 8] = [
        insns[b], insns[b + 1], insns[b + 2], insns[b + 3],
        insns[b + 4], insns[b + 5], insns[b + 6], insns[b + 7],
    ];
    assert(raw@ =~= insns@.subrange(8 * k as int, 8 * k as int + 8));
    decode(&raw)
}

impl<'a> Vm<'a> {
    /// Take a branch with offset `off`; fails when the target leaves the program.
    fn branch(&mut self, off: i16, num_insns: usize) -> (out: Option<SvmResult<u64>>)
        requires
            old(self).pc < num_insns,
            num_insns <= usize::MAX / 8,
        ensures
            (out, final(self).state()) == branch_spec(old(self).state(), num_insns as int, off),
            final(self).insns == old(self).insns,
    {
        let new_pc: i64 = (self.pc as i64) + 1 + (off as i64);
        if new_pc < 0 || new_pc as usize >= num_insns {
            return Some(Err(SvmError::ExecutionFailed));
        }
        self.pc = new_pc as usize;
        assert(self.state() =~= branch_spec(old(self).state(), num_insns as int, off).1);
        None
    }

    /// Execute the instruction at `pc` (its fuel already charged).
    fn step(&mut self, input: &[u8]) -> (out: Option<SvmResult<u64>>)
        requires
            old(self).pc < old(self).insns@.len() / 8,
        ensures
            (out, final(self).state()) == step_spec(old(self).state(), old(self).insns@, input@),
            final(self).insns == old(self).insns,
    {
        let ghost s0 = self.state();
        let num_insns = self.insns.len() / 8;
        let i = fetch(self.insns, self.pc);
        let op = i.opcode;
        let cls = op & 0x07;
        if op == 0x95 {
            return Some(Ok(self.regs[0]));
        } else if op == 0x18 {
            let lo = i.imm as u64;
            let hi: u64 = if self.pc + 1 < num_insns { fetch(self.insns, self.pc + 1).imm as u64 } else { 0 };
            self.set_reg(i.dst, (hi << 32u64) | (lo & 0xffff_ffffu64));
            self.pc = self.pc + 2;
        } else if op == 0x85 {
            let retval = dispatch_syscall(i.imm as u32, &self.regs, input);
            self.regs[0] = retval;
            self.regs[1] = 0;
            self.regs[2] = 0;
            self.regs[3] = 0;
            self.regs[4] = 0;
            self.regs[5] = 0;
            self.pc = self.pc + 1;
        } else if cls == 0x07 {
            let src_val = if (op & 0x08) != 0 { self.reg(i.src) } else { i.imm as i64 as u64 };
            let dst_val = self.reg(i.dst);
            match alu64(op >> 4, dst_val, src_val) {
                Ok(result) => {
                    self.set_reg(i.dst, result);
                    self.pc = self.pc + 1;
                },
                Err(e) => { return Some(Err(e)); },
            }
        } else if cls == 0x04 {
            let src_val = if (op & 0x08) != 0 { self.reg(i.src) } else { i.imm as u64 };
            let dst_val = self.reg(i.dst) & 0xffff_ffffu64;
            match alu32(op >> 4, dst_val as u32, src_val as u32) {
                Ok(result32) => {
                    self.set_reg(i.dst, result32 as u64);
                    self.pc = self.pc + 1;
                },
                Err(e) => { return Some(Err(e)); },
            }
        } else if cls == 0x05 {
            let src_val = if (op & 0x08) != 0 { self.reg(i.src) } else { i.imm as i64 as u64 };
            let dst_val = self.reg(i.dst);
            let j = op >> 4;
            if j == 0x9 {
                return Some(Ok(self.regs[0]));
            } else if j == 0x8 {
                let retval = dispatch_syscall(i.imm as u32, &self.regs, input);
                self.regs[0] = retval;
                self.pc = self.pc + 1;
            } else if jmp64_take(j, dst_val, src_val) {
                return self.branch(i.off, num_insns);
            } else {
                self.pc = self.pc + 1;
            }
        } else if cls == 0x06 {
            let src_val = (if (op & 0x08) != 0 { self.reg(i.src) } else { i.imm as i64 as u64 }) as u32;
            let dst_val = self.reg(i.dst) as u32;
            if jmp32_take(op >> 4, dst_val, src_val) {
                return self.branch(i.off, num_insns);
            } else {
                self.pc = self.pc + 1;
            }
        } else if cls == 0x01 {
            let addr = self.reg(i.src).wrapping_add(i.off as i64 as u64);
            let size = size_of_op(op);
            let val = self.mem_read(addr, size, input);
            self.set_reg(i.dst, val);
            self.pc = self.pc + 1;
        } else if cls == 0x02 {
            let addr = self.reg(i.dst).wrapping_add(i.off as i64 as u64);
            let size = size_of_op(op);
            self.mem_write(addr, i.imm as i64 as u64, size);
            self.pc = self.pc + 1;
        } else if cls == 0x03 {
            let addr = self.reg(i.dst).wrapping_add(i.off as i64 as u64);
            let size = size_of_op(op);
            let v = self.reg(i.src);
            self.mem_write(addr, v, size);
            self.pc = self.pc + 1;
        } else {
            self.pc = self.pc + 1;
        }
        assert(self.state() =~= step_spec(s0, self.insns@, input@).1);
        None
    }

    /// Run until EXIT, an error, fuel exhaustion or the end of the stream.
    fn run(&mut self, input: &[u8]) -> (r: SvmResult<u64>)
        ensures
            (r, final(self).state()) == run_spec(old(self).state(), old(self).insns@, input@),
            final(self).insns == old(self).insns,
    {
        let num_insns = self.insns.len() / 8;
        let ghost s0 = self.state();
        while self.pc < num_insns
            invariant
                num_insns == self.insns@.len() / 8,
                self.insns == old(self).insns,
                run_spec(self.state(), self.insns@, input@) == run_spec(s0, self.insns@, input@),
                s0 == old(self).state(),
            decreases self.fuel,
        {
            if self.fuel == 0 {
                return Err(SvmError::OutOfComputeUnits);
            }
            self.fuel = self.fuel - 1;
            let ghost s1 = self.state();
            match self.step(input) {
                Some(res) => {
                    return res;
                },
                None => {
                    assert(self.state() =~= VmState { regs: self.state().regs, stack: self.state().stack, fuel: s1.fuel, pc: self.state().pc });
                },
            }
        }
        Ok(self.regs[0])
    }
}


// ---------------------------------------------------------------------------
// ELF64 minimal parser: locate the `.text` section
// ---------------------------------------------------------------------------

/// Unsigned little-endian value of the `n` bytes at `off` in `d`.
pub open spec fn le_at(d: Seq<u8>, off: int, n: int) -> nat {
    le_value(d.subrange(off, off + n))
}

/// `d` starts with the ELF magic `\x7fELF`.
pub open spec fn has_elf_magic(d: Seq<u8>) -> bool {
    d.len() >= 4 && d[0] == 0x7f && d[1] == 0x45 && d[2] == 0x4c && d[3] == 0x46
}

/// The NUL-terminated name at the start of `s` is `.text`.
pub open spec fn is_text_name(s: Seq<u8>) -> bool {
    &&& s.len() >= 5
    &&& s[0] == 0x2e && s[1] == 0x74 && s[2] == 0x65 && s[3] == 0x78 && s[4] == 0x74
    &&& (s.len() == 5 || s[5] == 0)
}

/// Scan section headers `i..shnum` for the first one named `.text`; the scan
/// gives up (no result) at the first header or name that lies outside the file.
pub open spec fn elf_scan(d: Seq<u8>, shoff: nat, entsize: nat, shnum: nat, str_off: nat, str_size: nat, i: nat) -> Option<(int, int)>
    decreases shnum - i,
{
    if i >= shnum {
        None
    } else {
        let sh: int = (shoff + i * entsize) as int;
        if sh + entsize > d.len() {
            None
        } else {
            let name_idx: int = le_at(d, sh, 4) as int;
            if name_idx > str_size {
                None
            } else if is_text_name(d.subrange(str_off + name_idx, (str_off + str_size) as int)) {
                let sec_off = le_at(d, sh + 24, 8);
                let sec_size = le_at(d, sh + 32, 8);
                if sec_off + sec_size > d.len() {
                    None
                } else {
                    Some((sec_off as int, (sec_off + sec_size) as int))
                }
            } else {
                elf_scan(d, shoff, entsize, shnum, str_off, str_size, i + 1)
            }
        }
    }
}

proof fn lemma_elf_scan_bounds(d: Seq<u8>, shoff: nat, entsize: nat, shnum: nat, str_off: nat, str_size: nat, i: nat)
    ensures
        elf_scan(d, shoff, entsize, shnum, str_off, str_size, i) matches Some((a, b)) ==> 0 <= a <= b <= d.len(),
    decreases shnum - i,
{
    if i < shnum {
        lemma_elf_scan_bounds(d, shoff, entsize, shnum, str_off, str_size, i + 1);
    }
}

/// Byte range of the `.text` section of the ELF64 image `d`, if there is one.
pub open spec fn elf_text_spec(d: Seq<u8>) -> Option<(int, int)> {
    if d.len() < 64 || !has_elf_magic(d) || d[4] != 2 {
        None
    } else {
        let shoff = le_at(d, 40, 8);
        let entsize = le_at(d, 58, 2);
        let shnum = le_at(d, 60, 2);
        let strndx = le_at(d, 62, 2);
        if entsize == 0 || shnum == 0 {
            None
        } else {
            let shstr: int = (shoff + strndx * entsize) as int;
            if shstr + entsize > d.len() || entsize < 40 {
                None
            } else {
                let str_off = le_at(d, shstr + 24, 8);
                let str_size = le_at(d, shstr + 32, 8);
                if str_off + str_size > d.len() {
                    None
                } else {
                    elf_scan(d, shoff, entsize, shnum, str_off, str_size, 0)
                }
            }
        }
    }
}

/// Read the `n`-byte little-endian unsigned integer at `off`.
fn read_uint(d: &[u8], off: usize, n: usize) -> (v: u64)
    requires
        n <= 8,
        off + n <= d@.len(),
    ensures
        v as nat == le_at(d@, off as int, n as int),
{
    let ghost w = d@.subrange(off as int, off + n);
    let len = d.len();
    let mut v: u64 = 0;
    let mut j: usize = n;
    while j > 0
        invariant
            j <= n <= 8,
            len == d@.len(),
            off + n <= len,
            w == d@.subrange(off as int, off + n),
            v as nat == le_value(w.subrange(j as int, n as int)),
            (v as nat) < pow256((n - j) as nat),
        decreases j,
    {
        let k = j - 1;
        let b = d[off + k];
        proof {
            assert(w.subrange(k as int, n as int).drop_first() =~= w.subrange(j as int, n as int));
            assert(pow256((n - k) as nat) == 256 * pow256((n - j) as nat));
            reveal_with_fuel(pow256, 9);
            assert(pow256(8) == 0x1_0000_0000_0000_0000);
            lemma_pow256_mono((n - k) as nat, 8);
        }
        v = v * 256 + b as u64;
        j = k;
    }
    assert(w.subrange(0, n as int) =~= w);
    v
}

/// The name at `s[at..end]` is `.text` (NUL-terminated or ending with the slice).
fn name_is_text(s: &[u8], at: usize, end: usize) -> (b: bool)
    requires
        at <= end <= s@.len(),
    ensures
        b == is_text_name(s@.subrange(at as int, end as int)),
{
    if end - at < 5 {
        return false;
    }
    let ok = s[at] == 0x2e && s[at + 1] == 0x74 && s[at + 2] == 0x65 && s[at + 3] == 0x78 && s[at + 4] == 0x74
        && (end - at == 5 || s[at + 5] == 0);
    ok
}

/// Locate the `.text` section of an sBPF ELF64 image.
fn elf_find_text(data: &[u8]) -> (r: Option<&[u8]>)
    ensures
        match (r, elf_text_spec(data@)) {
            (Some(t), Some((a, b))) => t@ == data@.subrange(a, b) && 0 <= a <= b <= data@.len(),
            (None, None) => true,
            _ => false,
        },
{
    let len = data.len();
    if len < 64 {
        return None;
    }
    if !(data[0] == 0x7f && data[1] == 0x45 && data[2] == 0x4c && data[3] == 0x46) {
        return None;
    }
    if data[4] != 2 {
        return None;
    }
    let e_shoff = read_uint(data, 40, 8);
    let e_shentsize = read_uint(data, 58, 2);
    let e_shnum = read_uint(data, 60, 2);
    let e_shstrndx = read_uint(data, 62, 2);
    proof {
        lemma_le_value_bound(data@.subrange(58, 60));
        lemma_le_value_bound(data@.subrange(60, 62));
        lemma_le_value_bound(data@.subrange(62, 64));
        reveal_with_fuel(pow256, 3);
    }
    if e_shentsize == 0 || e_shnum == 0 {
        return None;
    }
    // e_shstrndx * e_shentsize < 2^32 cannot overflow.
    assert(e_shstrndx * e_shentsize < 0x1_0000_0000) by (nonlinear_arith)
        requires e_shstrndx < 65536, e_shentsize < 65536;
    let shstr_off = match e_shoff.checked_add(e_shstrndx * e_shentsize) {
        Some(v) => v,
        None => { return None; },
    };
    let shstr_end = match shstr_off.checked_add(e_shentsize) {
        Some(v) => v,
        None => { return None; },
    };
    if shstr_end > len as u64 || e_shentsize < 40 {
        return None;
    }
    let sh0 = shstr_off as usize;
    let str_offset = read_uint(data, sh0 + 24, 8);
    let str_size = read_uint(data, sh0 + 32, 8);
    let str_end = match str_offset.checked_add(str_size) {
        Some(v) => v,
        None => { return None; },
    };
    if str_end > len as u64 {
        return None;
    }
    let mut i: u64 = 0;
    proof {
        lemma_elf_scan_bounds(data@, e_shoff as nat, e_shentsize as nat, e_shnum as nat, str_offset as nat, str_size as nat, 0);
    }
    while i < e_shnum
        invariant
            len == data@.len(),
            e_shnum < 65536,
            40 <= e_shentsize < 65536,
            str_end == str_offset + str_size,
            str_end <= len,
            i <= e_shnum,
            elf_text_spec(data@) == elf_scan(data@, e_shoff as nat, e_shentsize as nat, e_shnum as nat, str_offset as nat, str_size as nat, i as nat),
        decreases e_shnum - i,
    {
        assert(i * e_shentsize < 0x1_0000_0000) by (nonlinear_arith)
            requires i < 65536, e_shentsize < 65536;
        let sh_off = match e_shoff.checked_add(i * e_shentsize) {
            Some(v) => v,
            None => { return None; },
        };
        let sh_end = match sh_off.checked_add(e_shentsize) {
            Some(v) => v,
            None => { return None; },
        };
        if sh_end > len as u64 {
            return None;
        }
        let sh = sh_off as usize;
        let name_idx = read_uint(data, sh, 4);
        if name_idx > str_size {
            return None;
        }
        if name_is_text(data, (str_offset + name_idx) as usize, str_end as usize) {
            let sec_off = read_uint(data, sh + 24, 8);
            let sec_size = read_uint(data, sh + 32, 8);
            let sec_end = match sec_off.checked_add(sec_size) {
                Some(v) => v,
                None => { return None; },
            };
            if sec_end > len as u64 {
                return None;
            }
            return Some(vstd::slice::slice_subrange(data, sec_off as usize, sec_end as usize));
        }
        i = i + 1;
    }
    None
}


// ---------------------------------------------------------------------------
// Public entry points
// ---------------------------------------------------------------------------

/// Interpreter configuration.
pub struct SvmConfig {
    /// Compute-unit budget of one execution.
    pub compute_unit_limit: u64,
}

impl SvmConfig {
    /// The default budget of 200 000 compute units.
    pub fn default() -> (c: SvmConfig)
        ensures
            c.compute_unit_limit == 200_000,
    {
        SvmConfig { compute_unit_limit: 200_000 }
    }
}

/// An account an instruction touches.
#[derive(Clone, Copy, Debug, PartialEq, Eq)]
pub struct SvmAccountMeta {
    pub pubkey: [u8; 32],
    pub is_signer: bool,
    pub is_writable: bool,
}

/// The state of an account after an execution.
#[derive(Clone, Debug, PartialEq, Eq)]
pub struct AccountUpdate {
    pub lamports: u64,
    pub data: Vec<u8>,
}

/// Outcome of a successful interpreter run.
pub struct SvmExecutionResult {
    /// Solana convention: r0 == 0 means success.
    pub success: bool,
    /// The little-endian bytes of r0.
    pub output: Vec<u8>,
    /// Compute units consumed.
    pub compute_units_used: u64,
    /// Account updates (the interpreter produces none).
    pub account_updates: Vec<AccountUpdate>,
    /// Program logs (the interpreter produces none).
    pub logs: Vec<Vec<u8>>,
    /// BLAKE2b-256 hash of the payload.
    pub state_root: [u8; 32],
}

/// Little-endian bytes of `v`.
pub open spec fn le_bytes_spec(v: u64) -> Seq<u8> {
    Seq::new(8, |j: int| byte_of(v, j))
}

/// The instruction stream that `execute_bpf` runs for `payload`: the `.text`
/// section of an ELF image, or the raw payload; none when the payload is
/// empty, the ELF has no `.text`, or the stream is empty or not a multiple of
/// 8 bytes long.
pub open spec fn program_text(p: Seq<u8>) -> Option<Seq<u8>> {
    if p.len() == 0 {
        None
    } else if has_elf_magic(p) {
        match elf_text_spec(p) {
            Some((a, b)) => if b - a == 0 || (b - a) % 8 != 0 { None } else { Some(p.subrange(a, b)) },
            None => None,
        }
    } else if p.len() % 8 == 0 {
        Some(p)
    } else {
        None
    }
}

/// Outcome of validating a payload.
pub open spec fn validate_program_spec(p: Seq<u8>) -> SvmResult<()> {
    if p.len() == 0 {
        Err(SvmError::InvalidPayload)
    } else if has_elf_magic(p) {
        if elf_text_spec(p) is Some { Ok(()) } else { Err(SvmError::InvalidPayload) }
    } else if p.len() % 8 != 0 {
        Err(SvmError::InvalidPayload)
    } else {
        Ok(())
    }
}

/// `r` is the outcome of running `payload` on `input`, with r1 holding
/// `input_addr`, under `limit` compute units.
pub open spec fn bpf_outcome(payload: Seq<u8>, input: Seq<u8>, input_addr: u64, limit: u64, r: SvmResult<SvmExecutionResult>) -> bool {
    match program_text(payload) {
        None => r == Err::<SvmExecutionResult, SvmError>(SvmError::InvalidPayload),
        Some(text) => {
            let fuel: u64 = if limit < MAX_INSN_FUEL { limit } else { MAX_INSN_FUEL };
            let (res, fin) = run_spec(initial_state(input_addr, input.len() as u64, fuel), text, input);
            match res {
                Err(e) => r == Err::<SvmExecutionResult, SvmError>(e),
                Ok(r0) => match r {
                    Ok(out) => {
                        &&& out.success == (r0 == 0)
                        &&& out.output@ == le_bytes_spec(r0)
                        &&& out.compute_units_used == limit - fin.fuel
                        &&& out.account_updates@.len() == 0
                        &&& out.logs@.len() == 0
                        &&& out.state_root@ == blake2_256_spec(payload)
                    },
                    Err(_) => false,
                },
            }
        },
    }
}

proof fn lemma_run_fuel(s: VmState, insns: Seq<u8>, input: Seq<u8>)
    ensures
        run_spec(s, insns, input).1.fuel <= s.fuel,
    decreases s.fuel,
{
    if !(s.pc < 0 || s.pc >= insns.len() / 8) && s.fuel != 0 {
        let s1 = VmState { regs: s.regs, stack: s.stack, fuel: (s.fuel - 1) as u64, pc: s.pc };
        let (out, s2) = step_spec(s1, insns, input);
        if out is None {
            lemma_run_fuel(VmState { regs: s2.regs, stack: s2.stack, fuel: s1.fuel, pc: s2.pc }, insns, input);
        }
    }
}

fn u64_le_bytes(value: u64) -> (out: Vec<u8>)
    ensures
        out@ == le_bytes_spec(value),
{
    let mut out: Vec<u8> = Vec::new();
    let mut v: u64 = value;
    let mut j: usize = 0;
    assert(pow256(0) == 1);
    assert(value as nat / 1 == value as nat);
    while j < 8
        invariant
            j <= 8,
            out@.len() == j,
            v as nat == value as nat / pow256(j as nat),
            forall|k: int| 0 <= k < j ==> out@[k] == byte_of(value, k),
        decreases 8 - j,
    {
        out.push((v % 256) as u8);
        proof {
            lemma_pow256_pos(j as nat);
            vstd::arithmetic::div_mod::lemma_div_denominator(value as int, pow256(j as nat) as int, 256);
            assert(pow256(j as nat) * 256 == pow256((j + 1) as nat)) by (nonlinear_arith)
                requires pow256((j + 1) as nat) == 256 * pow256(j as nat);
        }
        v = v / 256;
        j = j + 1;
    }
    assert(out@ =~= le_bytes_spec(value));
    out
}

fn starts_with_elf_magic(p: &[u8]) -> (b: bool)
    ensures
        b == has_elf_magic(p@),
{
    p.len() >= 4 && p[0] == 0x7f && p[1] == 0x45 && p[2] == 0x4c && p[3] == 0x46
}

/// Run an sBPF payload (raw instruction stream or ELF64 image) on
/// `input_data`, with r1 holding `input_addr` and r2 the input length.
pub fn execute_bpf_at(payload: &[u8], input_data: &[u8], input_addr: u64, config: &SvmConfig) -> (r: SvmResult<SvmExecutionResult>)
    ensures
        bpf_outcome(payload@, input_data@, input_addr, config.compute_unit_limit, r),
{
    if payload.len() == 0 {
        return Err(SvmError::InvalidPayload);
    }
    let text: &[u8] = if starts_with_elf_magic(payload) {
        match elf_find_text(payload) {
            Some(t) => t,
            None => { return Err(SvmError::InvalidPayload); },
        }
    } else if payload.len() % 8 == 0 {
        payload
    } else {
        return Err(SvmError::InvalidPayload);
    };
    if text.len() == 0 || text.len() % 8 != 0 {
        return Err(SvmError::InvalidPayload);
    }
    let fuel = if config.compute_unit_limit < MAX_INSN_FUEL { config.compute_unit_limit } else { MAX_INSN_FUEL };
    let mut vm = Vm::new(text, input_addr, input_data.len() as u64, fuel);
    let ghost s0 = vm.state();
    match vm.run(input_data) {
        Ok(r0) => {
            proof { lemma_run_fuel(s0, text@, input_data@); }
            let compute_units = config.compute_unit_limit - vm.fuel;
            Ok(SvmExecutionResult {
                success: r0 == 0,
                output: u64_le_bytes(r0),
                compute_units_used: compute_units,
                account_updates: Vec::new(),
                logs: Vec::new(),
                state_root: blake2_256(payload),
            })
        },
        Err(e) => Err(e),
    }
}

/// Execute an sBPF program in the interpreter. `payload` is a raw eBPF
/// instruction stream (a multiple of 8 bytes) or an ELF64/sBPF binary;
/// `input_data` is passed in r1 as the input region, which starts at address
/// 4096 (`STACK_SIZE`) of the program's memory map, with its length in r2.
pub fn execute_bpf(payload: &[u8], input_data: &[u8], config: &SvmConfig) -> (r: SvmResult<SvmExecutionResult>)
    ensures
        bpf_outcome(payload@, input_data@, 4096, config.compute_unit_limit, r),
{
    execute_bpf_at(payload, input_data, 4096, config)
}

/// Statically validate a raw BPF instruction stream or ELF.
pub fn validate_program(payload: &[u8]) -> (r: SvmResult<()>)
    ensures
        r == validate_program_spec(payload@),
{
    if payload.len() == 0 {
        return Err(SvmError::InvalidPayload);
    }
    if starts_with_elf_magic(payload) {
        if elf_find_text(payload).is_none() {
            return Err(SvmError::InvalidPayload);
        }
        return Ok(());
    }
    if payload.len() % 8 != 0 {
        return Err(SvmError::InvalidPayload);
    }
    let num_insns = payload.len() / 8;
    let mut idx: usize = 0;
    while idx < num_insns
        invariant
            num_insns == payload@.len() / 8,
            idx <= num_insns,
        decreases num_insns - idx,
    {
        let ins = fetch(payload, idx);
        let opc = ins.opcode;
        let class = opc & 0x07;
        assert(opc & 0x07 <= 7) by (bit_vector);
        if class > 0x07 {
            return Err(SvmError::InvalidPayload);
        }
        idx = idx + 1;
    }
    Ok(())
}

} // verus!
