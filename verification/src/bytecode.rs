//! X3 bytecode verifier: instruction decoding and the structural, control
//! flow, constant-pool, atomic-balance, gas and on-chain checks that a module
//! must pass before it runs.
//!
//! The byte value of each opcode is fixed by the bytecode format, which the
//! caller supplies as an [`OpcodeTable`].

use vstd::prelude::*;
use std::collections::{BTreeMap, BTreeSet};

verus! {

broadcast use {vstd::std_specs::btree::group_btree_axioms, vstd::laws_cmp::group_laws_cmp};

/// Maximum gas budget for verification (2^60).
pub const MAX_GAS_BUDGET: u128 = 1152921504606846976u128;

/// Maximum register index allowed.
pub const MAX_REGISTER: u16 = 65535u16;

/// Maximum call stack depth for verification.
pub const MAX_CALL_DEPTH: usize = 1024usize;

/// X3 VM instructions.
#[derive(Clone, Copy, Debug, PartialEq, Eq, Structural)]
pub enum Opcode {
    Nop,
    Halt,
    RetVoid,
    Breakpoint,
    LoadZero,
    LoadTrue,
    LoadFalse,
    CtxSender,
    CtxBlockHeight,
    CtxTimestamp,
    CtxValue,
    CtxGas,
    CtxChainId,
    AtomicCheck,
    AgentSelf,
    Ret,
    AtomicBegin,
    AtomicCommit,
    AtomicRollback,
    DebugPrint,
    SvmGetRent,
    SvmGetClock,
    Mov,
    NegI,
    NegF,
    Not,
    LNot,
    Inc,
    Dec,
    I32ToI64,
    I64ToI32,
    I32ToF32,
    I64ToF64,
    F32ToI32,
    F64ToI64,
    F32ToF64,
    F64ToF32,
    ToBool,
    ArrayLen,
    ArrayPop,
    ArrayPush,
    NewArray,
    EvmSload,
    EvmSstore,
    EvmBalance,
    EvmCodeSize,
    SvmGetData,
    SvmSetData,
    AddI,
    SubI,
    MulI,
    DivI,
    ModI,
    AddF,
    SubF,
    MulF,
    DivF,
    ModF,
    EqI,
    NeI,
    LtI,
    LeI,
    GtI,
    GeI,
    EqF,
    NeF,
    LtF,
    LeF,
    GtF,
    GeF,
    And,
    Or,
    Xor,
    Shl,
    Shr,
    UShr,
    LAnd,
    LOr,
    LoadIndex,
    StoreIndex,
    LoadField,
    StoreField,
    TupleGet,
    EvmCreate,
    SvmTransfer,
    EvmStaticCall,
    EvmDelegateCall,
    EvmCreate2,
    SvmInvoke,
    SvmCreateAccount,
    EvmCall,
    SvmInvokeSigned,
    Jump,
    Panic,
    JumpIf,
    JumpUnless,
    LoadConst,
    LoadGlobal,
    Assert,
    StoreGlobal,
    LoadImm,
    GpuDeviceCount,
    GpuSha256Batch,
    GpuEd25519Verify,
    GpuBenchmark,
    GpuKeccak256Batch,
    GpuSecp256k1Verify,
    GpuPohChain,
    GpuSha256Streamed,
    Call,
    NewTuple,
    Emit,
    AgentInit,
    EvmLog
}

/// Operand layouts of the instruction set (registers are 16-bit,
/// indices and jump targets 32-bit).
#[derive(Clone, Copy, Debug, PartialEq, Eq, Structural)]
pub enum Format {
    /// `[op]`
    NoOperands,
    /// `[op][reg]`
    Reg,
    /// `[op][reg][reg]`
    Reg2,
    /// `[op][reg][reg][reg]`
    Reg3,
    /// `[op][reg]x4`
    Reg4,
    /// `[op][reg]x5`
    Reg5,
    /// `[op][idx:u32]`
    Index,
    /// `[op][reg][idx:u32]`
    RegIndex,
    /// `[op][idx:u32][reg]`
    IndexReg,
    /// `[op][reg][imm:i8]`
    RegImm,
    /// `[op][u8]`
    Byte1,
    /// `[op][u8]x3`
    Byte3,
    /// `[op][u8]x4`
    Byte4,
    /// `[op][dst][func:u32][argc][args...]`
    Call,
    /// `[op][dst][count][elems...]`
    NewTuple,
    /// `[op][event:u32][argc][args...]`
    Emit,
    /// `[op][agent][count][(field, value)...]`
    AgentInit,
    /// `[op][topics:u8][topic...][data]`
    EvmLog,
}

/// The operand layout of each opcode.
pub open spec fn format_spec(op: Opcode) -> Format {
    match op {
        Opcode::Nop | Opcode::Halt | Opcode::RetVoid | Opcode::Breakpoint => Format::NoOperands,
        Opcode::LoadZero | Opcode::LoadTrue | Opcode::LoadFalse | Opcode::CtxSender | Opcode::CtxBlockHeight | Opcode::CtxTimestamp | Opcode::CtxValue | Opcode::CtxGas | Opcode::CtxChainId | Opcode::AtomicCheck | Opcode::AgentSelf | Opcode::Ret | Opcode::AtomicBegin | Opcode::AtomicCommit | Opcode::AtomicRollback | Opcode::DebugPrint | Opcode::SvmGetRent | Opcode::SvmGetClock => Format::Reg,
        Opcode::Mov | Opcode::NegI | Opcode::NegF | Opcode::Not | Opcode::LNot | Opcode::Inc | Opcode::Dec | Opcode::I32ToI64 | Opcode::I64ToI32 | Opcode::I32ToF32 | Opcode::I64ToF64 | Opcode::F32ToI32 | Opcode::F64ToI64 | Opcode::F32ToF64 | Opcode::F64ToF32 | Opcode::ToBool | Opcode::ArrayLen | Opcode::ArrayPop | Opcode::ArrayPush | Opcode::NewArray | Opcode::EvmSload | Opcode::EvmSstore | Opcode::EvmBalance | Opcode::EvmCodeSize | Opcode::SvmGetData | Opcode::SvmSetData => Format::Reg2,
        Opcode::AddI | Opcode::SubI | Opcode::MulI | Opcode::DivI | Opcode::ModI | Opcode::AddF | Opcode::SubF | Opcode::MulF | Opcode::DivF | Opcode::ModF | Opcode::EqI | Opcode::NeI | Opcode::LtI | Opcode::LeI | Opcode::GtI | Opcode::GeI | Opcode::EqF | Opcode::NeF | Opcode::LtF | Opcode::LeF | Opcode::GtF | Opcode::GeF | Opcode::And | Opcode::Or | Opcode::Xor | Opcode::Shl | Opcode::Shr | Opcode::UShr | Opcode::LAnd | Opcode::LOr | Opcode::LoadIndex | Opcode::StoreIndex | Opcode::LoadField | Opcode::StoreField | Opcode::TupleGet | Opcode::EvmCreate | Opcode::SvmTransfer => Format::Reg3,
        Opcode::EvmStaticCall | Opcode::EvmDelegateCall | Opcode::EvmCreate2 | Opcode::SvmInvoke | Opcode::SvmCreateAccount => Format::Reg4,
        Opcode::EvmCall | Opcode::SvmInvokeSigned => Format::Reg5,
        Opcode::Jump | Opcode::Panic => Format::Index,
        Opcode::JumpIf | Opcode::JumpUnless | Opcode::LoadConst | Opcode::LoadGlobal | Opcode::Assert => Format::RegIndex,
        Opcode::StoreGlobal => Format::IndexReg,
        Opcode::LoadImm => Format::RegImm,
        Opcode::GpuDeviceCount => Format::Byte1,
        Opcode::GpuSha256Batch | Opcode::GpuEd25519Verify | Opcode::GpuBenchmark | Opcode::GpuKeccak256Batch | Opcode::GpuSecp256k1Verify => Format::Byte3,
        Opcode::GpuPohChain | Opcode::GpuSha256Streamed => Format::Byte4,
        Opcode::Call => Format::Call,
        Opcode::NewTuple => Format::NewTuple,
        Opcode::Emit => Format::Emit,
        Opcode::AgentInit => Format::AgentInit,
        Opcode::EvmLog => Format::EvmLog,
    }
}

/// The operand layout of `op`.
pub fn format_of(op: Opcode) -> (f: Format)
    ensures
        f == format_spec(op),
{
    match op {
        Opcode::Nop | Opcode::Halt | Opcode::RetVoid | Opcode::Breakpoint => Format::NoOperands,
        Opcode::LoadZero | Opcode::LoadTrue | Opcode::LoadFalse | Opcode::CtxSender | Opcode::CtxBlockHeight | Opcode::CtxTimestamp | Opcode::CtxValue | Opcode::CtxGas | Opcode::CtxChainId | Opcode::AtomicCheck | Opcode::AgentSelf | Opcode::Ret | Opcode::AtomicBegin | Opcode::AtomicCommit | Opcode::AtomicRollback | Opcode::DebugPrint | Opcode::SvmGetRent | Opcode::SvmGetClock => Format::Reg,
        Opcode::Mov | Opcode::NegI | Opcode::NegF | Opcode::Not | Opcode::LNot | Opcode::Inc | Opcode::Dec | Opcode::I32ToI64 | Opcode::I64ToI32 | Opcode::I32ToF32 | Opcode::I64ToF64 | Opcode::F32ToI32 | Opcode::F64ToI64 | Opcode::F32ToF64 | Opcode::F64ToF32 | Opcode::ToBool | Opcode::ArrayLen | Opcode::ArrayPop | Opcode::ArrayPush | Opcode::NewArray | Opcode::EvmSload | Opcode::EvmSstore | Opcode::EvmBalance | Opcode::EvmCodeSize | Opcode::SvmGetData | Opcode::SvmSetData => Format::Reg2,
        Opcode::AddI | Opcode::SubI | Opcode::MulI | Opcode::DivI | Opcode::ModI | Opcode::AddF | Opcode::SubF | Opcode::MulF | Opcode::DivF | Opcode::ModF | Opcode::EqI | Opcode::NeI | Opcode::LtI | Opcode::LeI | Opcode::GtI | Opcode::GeI | Opcode::EqF | Opcode::NeF | Opcode::LtF | Opcode::LeF | Opcode::GtF | Opcode::GeF | Opcode::And | Opcode::Or | Opcode::Xor | Opcode::Shl | Opcode::Shr | Opcode::UShr | Opcode::LAnd | Opcode::LOr | Opcode::LoadIndex | Opcode::StoreIndex | Opcode::LoadField | Opcode::StoreField | Opcode::TupleGet | Opcode::EvmCreate | Opcode::SvmTransfer => Format::Reg3,
        Opcode::EvmStaticCall | Opcode::EvmDelegateCall | Opcode::EvmCreate2 | Opcode::SvmInvoke | Opcode::SvmCreateAccount => Format::Reg4,
        Opcode::EvmCall | Opcode::SvmInvokeSigned => Format::Reg5,
        Opcode::Jump | Opcode::Panic => Format::Index,
        Opcode::JumpIf | Opcode::JumpUnless | Opcode::LoadConst | Opcode::LoadGlobal | Opcode::Assert => Format::RegIndex,
        Opcode::StoreGlobal => Format::IndexReg,
        Opcode::LoadImm => Format::RegImm,
        Opcode::GpuDeviceCount => Format::Byte1,
        Opcode::GpuSha256Batch | Opcode::GpuEd25519Verify | Opcode::GpuBenchmark | Opcode::GpuKeccak256Batch | Opcode::GpuSecp256k1Verify => Format::Byte3,
        Opcode::GpuPohChain | Opcode::GpuSha256Streamed => Format::Byte4,
        Opcode::Call => Format::Call,
        Opcode::NewTuple => Format::NewTuple,
        Opcode::Emit => Format::Emit,
        Opcode::AgentInit => Format::AgentInit,
        Opcode::EvmLog => Format::EvmLog,
    }
}

/// Gas charged for each opcode.
pub open spec fn gas_spec(op: Opcode) -> u64 {
    match op {
        Opcode::Nop | Opcode::DebugPrint | Opcode::Breakpoint => 0,
        Opcode::Mov | Opcode::LoadZero | Opcode::LoadTrue | Opcode::LoadFalse | Opcode::LoadImm | Opcode::Halt => 1,
        Opcode::AddI | Opcode::SubI | Opcode::NegI | Opcode::Inc | Opcode::Dec | Opcode::And | Opcode::Or | Opcode::Xor | Opcode::Not | Opcode::Shl | Opcode::Shr | Opcode::UShr | Opcode::LAnd | Opcode::LOr | Opcode::LNot | Opcode::I32ToI64 | Opcode::I64ToI32 | Opcode::I32ToF32 | Opcode::I64ToF64 | Opcode::F32ToI32 | Opcode::F64ToI64 | Opcode::F32ToF64 | Opcode::F64ToF32 | Opcode::ToBool | Opcode::Ret | Opcode::RetVoid | Opcode::ArrayLen => 2,
        Opcode::MulI | Opcode::DivI | Opcode::ModI | Opcode::AddF | Opcode::SubF | Opcode::MulF | Opcode::DivF | Opcode::ModF | Opcode::NegF | Opcode::EqI | Opcode::NeI | Opcode::LtI | Opcode::LeI | Opcode::GtI | Opcode::GeI | Opcode::EqF | Opcode::NeF | Opcode::LtF | Opcode::LeF | Opcode::GtF | Opcode::GeF | Opcode::Jump | Opcode::JumpIf | Opcode::JumpUnless | Opcode::TupleGet => 3,
        Opcode::LoadConst | Opcode::LoadGlobal | Opcode::StoreGlobal | Opcode::LoadIndex | Opcode::StoreIndex | Opcode::LoadField | Opcode::StoreField | Opcode::ArrayPush | Opcode::ArrayPop | Opcode::CtxSender | Opcode::CtxBlockHeight | Opcode::CtxTimestamp | Opcode::CtxValue | Opcode::CtxGas | Opcode::CtxChainId | Opcode::AtomicCheck | Opcode::AgentSelf | Opcode::Assert | Opcode::Panic => 5,
        Opcode::Call | Opcode::NewArray | Opcode::NewTuple | Opcode::GpuDeviceCount => 10,
        Opcode::Emit => 20,
        Opcode::AgentInit => 50,
        Opcode::AtomicBegin | Opcode::AtomicCommit | Opcode::AtomicRollback | Opcode::EvmCodeSize | Opcode::SvmGetRent | Opcode::SvmGetClock => 100,
        Opcode::EvmCall => 2500,
        Opcode::EvmStaticCall | Opcode::EvmDelegateCall => 700,
        Opcode::EvmSload | Opcode::SvmGetData => 200,
        Opcode::EvmSstore | Opcode::SvmInvoke => 5000,
        Opcode::EvmCreate | Opcode::EvmCreate2 => 32000,
        Opcode::EvmLog => 375,
        Opcode::EvmBalance => 400,
        Opcode::SvmInvokeSigned => 6000,
        Opcode::SvmCreateAccount => 10000,
        Opcode::SvmTransfer => 3000,
        Opcode::SvmSetData | Opcode::GpuBenchmark => 1000,
        Opcode::GpuSha256Batch | Opcode::GpuEd25519Verify | Opcode::GpuPohChain | Opcode::GpuKeccak256Batch => 500,
        Opcode::GpuSha256Streamed => 750,
        Opcode::GpuSecp256k1Verify => 600,
    }
}

/// The documented gas of the costly instructions: contract creation
/// (`EvmCreate`, `EvmCreate2`) costs 32000 and is the most expensive
/// instruction, no other costing as much; storage writes and SVM invocation
/// cost 5000, an EVM call 2500, static and delegate calls 700, storage reads
/// 200, logs 375, balance queries 400, signed invocation 6000, account
/// creation 10000 and SVM transfers 3000.
pub proof fn lemma_gas_table(op: Opcode)
    ensures
        gas_spec(Opcode::EvmCreate) == 32000,
        gas_spec(Opcode::EvmCreate2) == 32000,
        gas_spec(op) <= 32000,
        gas_spec(op) == 32000 <==> (op == Opcode::EvmCreate || op == Opcode::EvmCreate2),
        gas_spec(Opcode::EvmSstore) == 5000,
        gas_spec(Opcode::SvmInvoke) == 5000,
        gas_spec(Opcode::EvmCall) == 2500,
        gas_spec(Opcode::EvmStaticCall) == 700,
        gas_spec(Opcode::EvmDelegateCall) == 700,
        gas_spec(Opcode::EvmSload) == 200,
        gas_spec(Opcode::EvmLog) == 375,
        gas_spec(Opcode::EvmBalance) == 400,
        gas_spec(Opcode::SvmInvokeSigned) == 6000,
        gas_spec(Opcode::SvmCreateAccount) == 10000,
        gas_spec(Opcode::SvmTransfer) == 3000,
        gas_spec(Opcode::Nop) == 0,
        gas_spec(Opcode::AddI) == 2,
        gas_spec(Opcode::MulI) == 3,
{
}

/// Gas charged for `op`.
pub fn gas_cost(op: Opcode) -> (g: u64)
    ensures
        g == gas_spec(op),
{
    match op {
        Opcode::Nop | Opcode::DebugPrint | Opcode::Breakpoint => 0,
        Opcode::Mov | Opcode::LoadZero | Opcode::LoadTrue | Opcode::LoadFalse | Opcode::LoadImm | Opcode::Halt => 1,
        Opcode::AddI | Opcode::SubI | Opcode::NegI | Opcode::Inc | Opcode::Dec | Opcode::And | Opcode::Or | Opcode::Xor | Opcode::Not | Opcode::Shl | Opcode::Shr | Opcode::UShr | Opcode::LAnd | Opcode::LOr | Opcode::LNot | Opcode::I32ToI64 | Opcode::I64ToI32 | Opcode::I32ToF32 | Opcode::I64ToF64 | Opcode::F32ToI32 | Opcode::F64ToI64 | Opcode::F32ToF64 | Opcode::F64ToF32 | Opcode::ToBool | Opcode::Ret | Opcode::RetVoid | Opcode::ArrayLen => 2,
        Opcode::MulI | Opcode::DivI | Opcode::ModI | Opcode::AddF | Opcode::SubF | Opcode::MulF | Opcode::DivF | Opcode::ModF | Opcode::NegF | Opcode::EqI | Opcode::NeI | Opcode::LtI | Opcode::LeI | Opcode::GtI | Opcode::GeI | Opcode::EqF | Opcode::NeF | Opcode::LtF | Opcode::LeF | Opcode::GtF | Opcode::GeF | Opcode::Jump | Opcode::JumpIf | Opcode::JumpUnless | Opcode::TupleGet => 3,
        Opcode::LoadConst | Opcode::LoadGlobal | Opcode::StoreGlobal | Opcode::LoadIndex | Opcode::StoreIndex | Opcode::LoadField | Opcode::StoreField | Opcode::ArrayPush | Opcode::ArrayPop | Opcode::CtxSender | Opcode::CtxBlockHeight | Opcode::CtxTimestamp | Opcode::CtxValue | Opcode::CtxGas | Opcode::CtxChainId | Opcode::AtomicCheck | Opcode::AgentSelf | Opcode::Assert | Opcode::Panic => 5,
        Opcode::Call | Opcode::NewArray | Opcode::NewTuple | Opcode::GpuDeviceCount => 10,
        Opcode::Emit => 20,
        Opcode::AgentInit => 50,
        Opcode::AtomicBegin | Opcode::AtomicCommit | Opcode::AtomicRollback | Opcode::EvmCodeSize | Opcode::SvmGetRent | Opcode::SvmGetClock => 100,
        Opcode::EvmCall => 2500,
        Opcode::EvmStaticCall | Opcode::EvmDelegateCall => 700,
        Opcode::EvmSload | Opcode::SvmGetData => 200,
        Opcode::EvmSstore | Opcode::SvmInvoke => 5000,
        Opcode::EvmCreate | Opcode::EvmCreate2 => 32000,
        Opcode::EvmLog => 375,
        Opcode::EvmBalance => 400,
        Opcode::SvmInvokeSigned => 6000,
        Opcode::SvmCreateAccount => 10000,
        Opcode::SvmTransfer => 3000,
        Opcode::SvmSetData | Opcode::GpuBenchmark => 1000,
        Opcode::GpuSha256Batch | Opcode::GpuEd25519Verify | Opcode::GpuPohChain | Opcode::GpuKeccak256Batch => 500,
        Opcode::GpuSha256Streamed => 750,
        Opcode::GpuSecp256k1Verify => 600,
    }
}

/// The byte assignment of the instruction set: which opcode, if any, each
/// byte value encodes.
pub struct OpcodeTable {
    by_byte: [Option<Opcode>; 256],
}

impl View for OpcodeTable {
    type V = Seq<Option<Opcode>>;

    closed spec fn view(&self) -> Seq<Option<Opcode>> {
        self.by_byte@
    }
}

impl OpcodeTable {
    /// A table in which no byte encodes an opcode.
    pub fn new() -> (t: OpcodeTable)
        ensures
            t@ == Seq::new(256, |i: int| None::<Opcode>),
    {
        let t = OpcodeTable { by_byte: [None; 256] };
        assert(t@ =~= Seq::new(256, |i: int| None::<Opcode>));
        t
    }

    /// Let `byte` encode `op`.
    pub fn assign(&mut self, byte: u8, op: Opcode)
        ensures
            final(self)@ == old(self)@.update(byte as int, Some(op)),
    {
        self.by_byte[byte as usize] = Some(op);
    }

    /// The opcode that `byte` encodes.
    pub fn from_byte(&self, byte: u8) -> (r: Option<Opcode>)
        ensures
            r == self@[byte as int],
    {
        self.by_byte[byte as usize]
    }

    /// The smallest byte that encodes `op`.
    pub fn to_byte(&self, op: Opcode) -> (r: Option<u8>)
        ensures
            r matches Some(b) ==> self@[b as int] == Some(op) && forall|c: int| 0 <= c < b ==> self@[c] != Some(op),
            r is None ==> forall|c: int| 0 <= c < 256 ==> self@[c] != Some(op),
    {
        let mut i: usize = 0;
        while i < 256
            invariant
                i <= 256,
                self@.len() == 256,
                forall|c: int| 0 <= c < i ==> self@[c] != Some(op),
            decreases 256 - i,
        {
            let here = self.by_byte[i];
            let found = match here {
                Some(o) => o == op,
                None => false,
            };
            if found {
                return Some(i as u8);
            }
            i = i + 1;
        }
        None
    }
}

/// Verifier error kinds.
#[derive(Clone, Copy, Debug, PartialEq, Eq, Structural)]
pub enum VerifierErrorKind {
    EmptyModule,
    ModuleTooLarge(usize, usize),
    UnsupportedVersion(u32),
    FunctionEntryOutOfBounds(usize, u32),
    InvalidOpcode(u8),
    OperandOutOfBounds,
    JumpTargetOutOfBounds(u32, usize),
    JumpTargetUnaligned(u32),
    FunctionIndexOutOfBounds(u32, usize),
    ConstPoolIndexOutOfBounds(u32, usize),
    AtomicIdMismatch(u16),
    AtomicUnbalanced(i32),
    GasBudgetExceeded(u128, u128),
    ForbiddenOnChain(u8),
}

/// A verifier error with the code offset it was found at, if any.
#[derive(Clone, Copy, Debug, PartialEq, Eq, Structural)]
pub struct VerifierError {
    pub kind: VerifierErrorKind,
    pub offset: Option<usize>,
}

impl VerifierError {
    /// An error found at `offset`.
    pub fn new(kind: VerifierErrorKind, offset: usize) -> (e: VerifierError)
        ensures
            e == (VerifierError { kind, offset: Some(offset) }),
    {
        VerifierError { kind, offset: Some(offset) }
    }

    /// An error that concerns the module as a whole.
    pub fn without_offset(kind: VerifierErrorKind) -> (e: VerifierError)
        ensures
            e == (VerifierError { kind, offset: None }),
    {
        VerifierError { kind, offset: None }
    }
}

/// The out-of-bounds error for the instruction at `pc`.
pub open spec fn operand_oob(pc: int) -> VerifierError {
    VerifierError { kind: VerifierErrorKind::OperandOutOfBounds, offset: Some(pc as usize) }
}

/// One operand field.
#[derive(Clone, Copy, Debug, PartialEq, Eq, Structural)]
pub enum Field {
    /// An unsigned byte.
    U8,
    /// A little-endian 16-bit value.
    U16,
    /// A little-endian 32-bit value.
    U32,
    /// A signed byte, sign-extended to 64 bits.
    I8,
}

/// Bytes a field occupies.
pub open spec fn width(f: Field) -> nat {
    match f {
        Field::U8 => 1,
        Field::U16 => 2,
        Field::U32 => 4,
        Field::I8 => 1,
    }
}

/// Bytes a sequence of fields occupies.
pub open spec fn widths(fs: Seq<Field>) -> nat
    decreases fs.len(),
{
    if fs.len() == 0 { 0 } else { widths(fs.drop_last()) + width(fs.last()) }
}

/// The little-endian 16-bit value at `at`.
pub open spec fn le16(code: Seq<u8>, at: int) -> u64 {
    (code[at] as nat + 256 * (code[at + 1] as nat)) as u64
}

/// The little-endian 32-bit value at `at`.
pub open spec fn le32(code: Seq<u8>, at: int) -> u64 {
    (code[at] as nat + 256 * (code[at + 1] as nat) + 65536 * (code[at + 2] as nat) + 16777216 * (code[at + 3] as nat)) as u64
}

/// The byte `b` read as a signed value and sign-extended to 64 bits.
pub open spec fn sext8(b: u8) -> u64 {
    if b < 128 { b as u64 } else { (b as nat + 0xFFFF_FFFF_FFFF_FF00) as u64 }
}

/// The value of field `f` at `at`.
pub open spec fn read_field(code: Seq<u8>, at: int, f: Field) -> u64 {
    match f {
        Field::U8 => code[at] as u64,
        Field::U16 => le16(code, at),
        Field::U32 => le32(code, at),
        Field::I8 => sext8(code[at]),
    }
}

/// The values of the fields `fs` laid out from `at`.
pub open spec fn read_fields(code: Seq<u8>, at: int, fs: Seq<Field>) -> Seq<u64> {
    Seq::new(fs.len(), |j: int| read_field(code, at + widths(fs.take(j)), fs[j]))
}

/// `n` consecutive 16-bit values from `at`.
pub open spec fn items(code: Seq<u8>, at: int, n: nat) -> Seq<u64> {
    Seq::new(n, |k: int| le16(code, at + 2 * k))
}

/// An operand layout: fixed head fields, then (when `count_at` names the
/// head field that holds a count) `count * per_item` 16-bit values, then
/// fixed tail fields.
pub struct Layout {
    pub head: Seq<Field>,
    pub count_at: Option<nat>,
    pub per_item: nat,
    pub tail: Seq<Field>,
}

/// The layout of each format.
pub open spec fn layout(f: Format) -> Layout {
    match f {
        Format::NoOperands => Layout { head: seq![], count_at: None, per_item: 0, tail: seq![] },
        Format::Reg => Layout { head: seq![Field::U16], count_at: None, per_item: 0, tail: seq![] },
        Format::Reg2 => Layout { head: seq![Field::U16, Field::U16], count_at: None, per_item: 0, tail: seq![] },
        Format::Reg3 => Layout { head: seq![Field::U16, Field::U16, Field::U16], count_at: None, per_item: 0, tail: seq![] },
        Format::Reg4 => Layout { head: seq![Field::U16, Field::U16, Field::U16, Field::U16], count_at: None, per_item: 0, tail: seq![] },
        Format::Reg5 => Layout {
            head: seq![Field::U16, Field::U16, Field::U16, Field::U16, Field::U16],
            count_at: None,
            per_item: 0,
            tail: seq![],
        },
        Format::Index => Layout { head: seq![Field::U32], count_at: None, per_item: 0, tail: seq![] },
        Format::RegIndex => Layout { head: seq![Field::U16, Field::U32], count_at: None, per_item: 0, tail: seq![] },
        Format::IndexReg => Layout { head: seq![Field::U32, Field::U16], count_at: None, per_item: 0, tail: seq![] },
        Format::RegImm => Layout { head: seq![Field::U16, Field::I8], count_at: None, per_item: 0, tail: seq![] },
        Format::Byte1 => Layout { head: seq![Field::U8], count_at: None, per_item: 0, tail: seq![] },
        Format::Byte3 => Layout { head: seq![Field::U8, Field::U8, Field::U8], count_at: None, per_item: 0, tail: seq![] },
        Format::Byte4 => Layout { head: seq![Field::U8, Field::U8, Field::U8, Field::U8], count_at: None, per_item: 0, tail: seq![] },
        Format::Call => Layout { head: seq![Field::U16, Field::U32, Field::U16], count_at: Some(2), per_item: 1, tail: seq![] },
        Format::NewTuple => Layout { head: seq![Field::U16, Field::U16], count_at: Some(1), per_item: 1, tail: seq![] },
        Format::Emit => Layout { head: seq![Field::U32, Field::U16], count_at: Some(1), per_item: 1, tail: seq![] },
        Format::AgentInit => Layout { head: seq![Field::U16, Field::U16], count_at: Some(1), per_item: 2, tail: seq![] },
        Format::EvmLog => Layout { head: seq![Field::U8], count_at: Some(0), per_item: 1, tail: seq![Field::U16] },
    }
}

/// Size of the opcode byte and the head fields.
pub open spec fn head_size(l: Layout) -> nat {
    1 + widths(l.head)
}

/// Number of 16-bit item values of the instruction at `pc`.
pub open spec fn item_count(code: Seq<u8>, pc: int, l: Layout) -> nat {
    match l.count_at {
        Some(k) => (read_fields(code, pc + 1, l.head)[k as int] as nat) * l.per_item,
        None => 0,
    }
}

/// Total size of the instruction at `pc`.
pub open spec fn instr_size(code: Seq<u8>, pc: int, l: Layout) -> nat {
    head_size(l) + 2 * item_count(code, pc, l) + widths(l.tail)
}

/// Decoding the instruction at `pc`: its size and operands, or the error.
pub open spec fn decode_spec(table: Seq<Option<Opcode>>, code: Seq<u8>, pc: int) -> Result<(nat, Seq<u64>), VerifierError> {
    match table[code[pc] as int] {
        None => Err(VerifierError { kind: VerifierErrorKind::InvalidOpcode(code[pc]), offset: Some(pc as usize) }),
        Some(op) => {
            let l = layout(format_spec(op));
            if pc + head_size(l) > code.len() {
                Err(operand_oob(pc))
            } else if pc + instr_size(code, pc, l) > code.len() {
                Err(operand_oob(pc))
            } else {
                let h = head_size(l);
                let n = item_count(code, pc, l);
                Ok((
                    instr_size(code, pc, l),
                    read_fields(code, pc + 1, l.head) + items(code, pc + h, n) + read_fields(code, pc + h + 2 * n, l.tail),
                ))
            }
        },
    }
}

/// Executable form of a [`Layout`].
pub struct LayoutSpec {
    pub head: Vec<Field>,
    pub count_at: Option<usize>,
    pub per_item: usize,
    pub tail: Vec<Field>,
}

impl View for LayoutSpec {
    type V = Layout;

    open spec fn view(&self) -> Layout {
        Layout {
            head: self.head@,
            count_at: match self.count_at {
                Some(k) => Some(k as nat),
                None => None,
            },
            per_item: self.per_item as nat,
            tail: self.tail@,
        }
    }
}

/// The layout of format `f`.
pub fn layout_of(f: Format) -> (l: LayoutSpec)
    ensures
        l@ == layout(f),
{
    let (head, count_at, per_item, tail): (Vec<Field>, Option<usize>, usize, Vec<Field>) = match f {
        Format::NoOperands => (vec![], None, 0, vec![]),
        Format::Reg => (vec![Field::U16], None, 0, vec![]),
        Format::Reg2 => (vec![Field::U16, Field::U16], None, 0, vec![]),
        Format::Reg3 => (vec![Field::U16, Field::U16, Field::U16], None, 0, vec![]),
        Format::Reg4 => (vec![Field::U16, Field::U16, Field::U16, Field::U16], None, 0, vec![]),
        Format::Reg5 => (vec![Field::U16, Field::U16, Field::U16, Field::U16, Field::U16], None, 0, vec![]),
        Format::Index => (vec![Field::U32], None, 0, vec![]),
        Format::RegIndex => (vec![Field::U16, Field::U32], None, 0, vec![]),
        Format::IndexReg => (vec![Field::U32, Field::U16], None, 0, vec![]),
        Format::RegImm => (vec![Field::U16, Field::I8], None, 0, vec![]),
        Format::Byte1 => (vec![Field::U8], None, 0, vec![]),
        Format::Byte3 => (vec![Field::U8, Field::U8, Field::U8], None, 0, vec![]),
        Format::Byte4 => (vec![Field::U8, Field::U8, Field::U8, Field::U8], None, 0, vec![]),
        Format::Call => (vec![Field::U16, Field::U32, Field::U16], Some(2), 1, vec![]),
        Format::NewTuple => (vec![Field::U16, Field::U16], Some(1), 1, vec![]),
        Format::Emit => (vec![Field::U32, Field::U16], Some(1), 1, vec![]),
        Format::AgentInit => (vec![Field::U16, Field::U16], Some(1), 2, vec![]),
        Format::EvmLog => (vec![Field::U8], Some(0), 1, vec![Field::U16]),
    };
    let l = LayoutSpec { head, count_at, per_item, tail };
    assert(l@.head =~= layout(f).head);
    assert(l@.tail =~= layout(f).tail);
    l
}

/// A sequence of fields occupies at most four bytes per field.
pub proof fn lemma_widths_bound(fs: Seq<Field>)
    ensures
        widths(fs) <= 4 * fs.len(),
    decreases fs.len(),
{
    if fs.len() > 0 {
        lemma_widths_bound(fs.drop_last());
    }
}

/// Size bounds of every layout: at most five head fields, at most one tail
/// field, at most two values per item, and a count field that is a byte or
/// a 16-bit value.
pub proof fn lemma_layout_bounds(f: Format)
    ensures
        layout(f).head.len() <= 5,
        layout(f).tail.len() <= 1,
        widths(layout(f).head) <= 20,
        widths(layout(f).tail) <= 4,
        layout(f).per_item <= 2,
        layout(f).count_at matches Some(k) ==> k < layout(f).head.len() && (layout(f).head[k as int] == Field::U16 || layout(f).head[k as int] == Field::U8),
{
    lemma_widths_bound(layout(f).head);
    lemma_widths_bound(layout(f).tail);
}

/// `widths` of a prefix grows by one field at a time.
pub proof fn lemma_widths_take(fs: Seq<Field>, j: int)
    requires
        0 <= j < fs.len(),
    ensures
        widths(fs.take(j + 1)) == widths(fs.take(j)) + width(fs[j]),
{
    assert(fs.take(j + 1).drop_last() =~= fs.take(j));
}

/// A prefix occupies no more than the whole.
pub proof fn lemma_widths_prefix(fs: Seq<Field>, j: int)
    requires
        0 <= j <= fs.len(),
    ensures
        widths(fs.take(j)) <= widths(fs),
    decreases fs.len(),
{
    if j == fs.len() {
        assert(fs.take(j) =~= fs);
    } else {
        assert(fs.drop_last().take(j) =~= fs.take(j));
        lemma_widths_prefix(fs.drop_last(), j);
    }
}

/// Bytes occupied by `fs`.
fn width_sum(fs: &Vec<Field>) -> (w: usize)
    requires
        fs@.len() <= 8,
    ensures
        w == widths(fs@),
        w <= 4 * fs@.len(),
{
    let mut w: usize = 0;
    let mut j: usize = 0;
    while j < fs.len()
        invariant
            j <= fs@.len(),
            fs@.len() <= 8,
            w == widths(fs@.take(j as int)),
            w <= 4 * j,
        decreases fs.len() - j,
    {
        proof {
            lemma_widths_take(fs@, j as int);
        }
        let f = fs[j];
        let fw: usize = match f {
            Field::U8 => 1,
            Field::U16 => 2,
            Field::U32 => 4,
            Field::I8 => 1,
        };
        w = w + fw;
        j = j + 1;
    }
    assert(fs@.take(fs@.len() as int) =~= fs@);
    w
}

/// The value of field `f` at `at`.
fn read_field_at(code: &[u8], at: usize, f: Field) -> (v: u64)
    requires
        at + width(f) <= code@.len(),
    ensures
        v == read_field(code@, at as int, f),
{
    match f {
        Field::U8 => code[at] as u64,
        Field::U16 => code[at] as u64 + 256 * (code[at + 1] as u64),
        Field::U32 => code[at] as u64 + 256 * (code[at + 1] as u64) + 65536 * (code[at + 2] as u64) + 16777216 * (code[at + 3] as u64),
        Field::I8 => {
            let b = code[at];
            if b < 128 {
                b as u64
            } else {
                b as u64 + 0xFFFF_FFFF_FFFF_FF00u64
            }
        },
    }
}

/// Appends the values of the fields `fs` laid out from `at` to `out`.
fn push_fields(out: &mut Vec<u64>, code: &[u8], at: usize, fs: &Vec<Field>)
    requires
        fs@.len() <= 8,
        at + widths(fs@) <= code@.len(),
    ensures
        final(out)@ == old(out)@ + read_fields(code@, at as int, fs@),
{
    let ghost before = out@;
    let mut off: usize = 0;
    let mut j: usize = 0;
    while j < fs.len()
        invariant
            j <= fs@.len(),
            fs@.len() <= 8,
            at + widths(fs@) <= code@.len(),
            code@.len() == code.len(),
            off == widths(fs@.take(j as int)),
            out@ == before + read_fields(code@, at as int, fs@).take(j as int),
        decreases fs.len() - j,
    {
        proof {
            lemma_widths_take(fs@, j as int);
            lemma_widths_prefix(fs@, j + 1);
        }
        let f = fs[j];
        let v = read_field_at(code, at + off, f);
        out.push(v);
        proof {
            assert(read_fields(code@, at as int, fs@).take(j + 1) =~= read_fields(code@, at as int, fs@).take(j as int).push(v));
        }
        off = off + match f {
            Field::U8 => 1usize,
            Field::U16 => 2usize,
            Field::U32 => 4usize,
            Field::I8 => 1usize,
        };
        j = j + 1;
    }
    assert(read_fields(code@, at as int, fs@).take(fs@.len() as int) =~= read_fields(code@, at as int, fs@));
}

/// Decode the operands of the instruction at `pc`, whose opcode byte is
/// `opcode_byte`: its total size and operand values (see [`decode_spec`]).
fn decode_instruction_operands(code: &[u8], pc: usize, opcode_byte: u8, table: &OpcodeTable) -> (r: Result<(usize, Vec<u64>), VerifierError>)
    requires
        pc < code@.len(),
        code@[pc as int] == opcode_byte,
    ensures
        match (r, decode_spec(table@, code@, pc as int)) {
            (Ok((size, ops)), Ok((s, v))) => size == s && ops@ == v,
            (Err(e), Err(e2)) => e == e2,
            _ => false,
        },
{
    let op = match table.from_byte(opcode_byte) {
        Some(op) => op,
        None => {
            return Err(VerifierError::new(VerifierErrorKind::InvalidOpcode(opcode_byte), pc));
        },
    };
    let f = format_of(op);
    let l = layout_of(f);
    proof {
        lemma_layout_bounds(f);
    }
    let len = code.len();
    let head_w = width_sum(&l.head);
    let hsz = 1 + head_w;
    if hsz > len - pc {
        return Err(VerifierError::new(VerifierErrorKind::OperandOutOfBounds, pc));
    }
    let mut operands: Vec<u64> = Vec::new();
    push_fields(&mut operands, code, pc + 1, &l.head);
    assert(operands@ =~= read_fields(code@, pc + 1, l@.head));
    let n: usize = match l.count_at {
        Some(k) => {
            let c = operands[k];
            assert(c <= 65535) by {
                lemma_widths_prefix(l@.head, k as int);
            }
            let p = l.per_item;
            assert((c as usize) * p <= 131070) by (nonlinear_arith)
                requires
                    c <= 65535,
                    p <= 2;
            c as usize * p
        },
        None => 0,
    };
    assert(n == item_count(code@, pc as int, l@));
    assert(n <= 131070);
    let tail_w = width_sum(&l.tail);
    let size = hsz + 2 * n + tail_w;
    if size > len - pc {
        return Err(VerifierError::new(VerifierErrorKind::OperandOutOfBounds, pc));
    }
    let ghost head_vals = operands@;
    let base = pc + hsz;
    let mut i: usize = 0;
    while i < n
        invariant
            i <= n,
            base == pc + hsz,
            base + 2 * n <= code@.len(),
            code@.len() == code.len(),
            operands@ == head_vals + items(code@, base as int, i as nat),
        decreases n - i,
    {
        let v = code[base + 2 * i] as u64 + 256 * (code[base + 2 * i + 1] as u64);
        operands.push(v);
        assert(items(code@, base as int, (i + 1) as nat) =~= items(code@, base as int, i as nat).push(v));
        i = i + 1;
    }
    push_fields(&mut operands, code, base + 2 * n, &l.tail);
    Ok((size, operands))
}

/// Gas charged for the instruction whose opcode byte is `b`: its opcode's
/// cost, or zero when `b` encodes no opcode.
pub open spec fn byte_gas(table: Seq<Option<Opcode>>, b: u8) -> u64 {
    match table[b as int] {
        Some(op) => gas_spec(op),
        None => 0,
    }
}

/// Gas cost of the instruction whose opcode byte is `opcode`.
pub fn opcode_gas_cost(table: &OpcodeTable, opcode: u8) -> (g: u64)
    ensures
        g == byte_gas(table@, opcode),
{
    match table.from_byte(opcode) {
        Some(op) => gas_cost(op),
        None => 0,
    }
}

/// Decoded instruction with metadata for verification.
#[derive(Clone, Debug)]
pub struct DecodedInstr {
    /// The opcode byte.
    pub opcode: u8,
    /// Byte offset in the code section.
    pub offset: usize,
    /// Total instruction size in bytes.
    pub size: usize,
    /// Decoded operands.
    pub operands: Vec<u64>,
    /// Gas cost.
    pub gas_cost: u64,
}

/// Mathematical model of a [`DecodedInstr`].
pub struct InstrModel {
    pub opcode: u8,
    pub offset: usize,
    pub size: usize,
    pub operands: Seq<u64>,
    pub gas_cost: u64,
}

impl View for DecodedInstr {
    type V = InstrModel;

    open spec fn view(&self) -> InstrModel {
        InstrModel { opcode: self.opcode, offset: self.offset, size: self.size, operands: self.operands@, gas_cost: self.gas_cost }
    }
}

/// Model of a sequence of decoded instructions.
pub open spec fn instrs_model(v: Seq<DecodedInstr>) -> Seq<InstrModel> {
    v.map_values(|i: DecodedInstr| i@)
}

/// Decoding the code from `pc` on: the instructions in order, or the first
/// error.
pub open spec fn decode_from(table: Seq<Option<Opcode>>, code: Seq<u8>, pc: nat) -> Result<Seq<InstrModel>, VerifierError>
    decreases code.len() - pc,
{
    if pc >= code.len() {
        Ok(Seq::empty())
    } else {
        match decode_spec(table, code, pc as int) {
            Err(e) => Err(e),
            Ok((size, ops)) => {
                match decode_from(table, code, pc + size) {
                    Ok(rest) => Ok(seq![InstrModel {
                        opcode: code[pc as int],
                        offset: pc as usize,
                        size: size as usize,
                        operands: ops,
                        gas_cost: byte_gas(table, code[pc as int]),
                    }] + rest),
                    Err(e) => Err(e),
                }
            },
        }
    }
}

/// `prefix` followed by the instructions of `r`, or `r`'s error.
pub open spec fn prepend(prefix: Seq<InstrModel>, r: Result<Seq<InstrModel>, VerifierError>) -> Result<Seq<InstrModel>, VerifierError> {
    match r {
        Ok(rest) => Ok(prefix + rest),
        Err(e) => Err(e),
    }
}

/// Verification options.
#[derive(Clone, Copy, Debug)]
pub struct VerifyOptions {
    /// Whether this is an on-chain context (forbids debug opcodes).
    pub on_chain: bool,
    /// Maximum allowed gas budget per function.
    pub max_gas_per_function: u128,
    /// Whether to perform CFG reachability analysis.
    pub check_reachability: bool,
    /// Maximum module size in bytes.
    pub max_module_size: usize,
}

impl Default for VerifyOptions {
    fn default() -> (o: Self)
        ensures
            o == (VerifyOptions {
                on_chain: false,
                max_gas_per_function: MAX_GAS_BUDGET,
                check_reachability: true,
                max_module_size: 16777216,
            }),
    {
        VerifyOptions { on_chain: false, max_gas_per_function: MAX_GAS_BUDGET, check_reachability: true, max_module_size: 16777216 }
    }
}

impl VerifyOptions {
    /// Options for on-chain deployment: debug opcodes forbidden, 10M gas per
    /// function, 1 MiB modules.
    pub fn on_chain() -> (o: Self)
        ensures
            o == (VerifyOptions { on_chain: true, max_gas_per_function: 10_000_000, check_reachability: true, max_module_size: 1048576 }),
    {
        VerifyOptions { on_chain: true, max_gas_per_function: 10_000_000, check_reachability: true, max_module_size: 1048576 }
    }
}

/// Bytecode verifier.
pub struct Verifier;

impl Verifier {
    /// The size gate on a module's raw bytes, before they are parsed into a
    /// module: an empty module, or one over the options' size limit, is
    /// refused.
    pub fn verify_module_bytes(bytes: &[u8], options: &VerifyOptions) -> (r: Result<(), VerifierError>)
        ensures
            bytes@.len() == 0 ==> r == Err::<(), VerifierError>(VerifierError { kind: VerifierErrorKind::EmptyModule, offset: None }),
            bytes@.len() > 0 && bytes@.len() > options.max_module_size ==> r == Err::<(), VerifierError>(
                VerifierError { kind: VerifierErrorKind::ModuleTooLarge(bytes@.len() as usize, options.max_module_size), offset: None }),
            bytes@.len() > 0 && bytes@.len() <= options.max_module_size ==> r is Ok,
    {
        if bytes.len() == 0 {
            return Err(VerifierError::without_offset(VerifierErrorKind::EmptyModule));
        }
        if bytes.len() > options.max_module_size {
            return Err(VerifierError::without_offset(VerifierErrorKind::ModuleTooLarge(bytes.len(), options.max_module_size)));
        }
        Ok(())
    }

    /// Decode every instruction of the code section, in order (see
    /// [`decode_from`]).
    pub fn decode_all_instructions(code: &[u8], table: &OpcodeTable) -> (r: Result<Vec<DecodedInstr>, VerifierError>)
        ensures
            match (r, decode_from(table@, code@, 0)) {
                (Ok(v), Ok(m)) => instrs_model(v@) == m,
                (Err(e), Err(e2)) => e == e2,
                _ => false,
            },
    {
        let mut instrs: Vec<DecodedInstr> = Vec::new();
        let mut pc: usize = 0;
        let len = code.len();
        while pc < len
            invariant
                len == code@.len(),
                pc <= len,
                decode_from(table@, code@, 0) == prepend(instrs_model(instrs@), decode_from(table@, code@, pc as nat)),
            decreases len - pc,
        {
            let opcode = code[pc];
            let decoded = Self::decode_operands(code, pc, opcode, table);
            let (size, operands) = match decoded {
                Ok(x) => x,
                Err(e) => {
                    return Err(e);
                },
            };
            if size > len - pc {
                return Err(VerifierError::new(VerifierErrorKind::OperandOutOfBounds, pc));
            }
            let ghost before = instrs_model(instrs@);
            let ins = DecodedInstr { opcode, offset: pc, size, operands, gas_cost: opcode_gas_cost(table, opcode) };
            instrs.push(ins);
            proof {
                assert(instrs_model(instrs@) =~= before.push(ins@));
                match decode_from(table@, code@, (pc + size) as nat) {
                    Ok(rest) => {
                        assert(before.push(ins@) + rest =~= before + (seq![ins@] + rest));
                    },
                    Err(_) => {},
                }
            }
            pc = pc + size;
        }
        assert(instrs_model(instrs@) + Seq::empty() =~= instrs_model(instrs@));
        Ok(instrs)
    }

    /// Decode the operands of the instruction at `pc` (see [`decode_spec`]).
    fn decode_operands(code: &[u8], pc: usize, opcode_byte: u8, table: &OpcodeTable) -> (r: Result<(usize, Vec<u64>), VerifierError>)
        requires
            pc < code@.len(),
            code@[pc as int] == opcode_byte,
        ensures
            match (r, decode_spec(table@, code@, pc as int)) {
                (Ok((size, ops)), Ok((s, v))) => size == s && ops@ == v,
                (Err(e), Err(e2)) => e == e2,
                _ => false,
            },
    {
        decode_instruction_operands(code, pc, opcode_byte, table)
    }
}

/// Every decoded instruction's opcode byte encodes an opcode and it has at
/// least the head operands of that opcode's layout.
pub open spec fn well_decoded(table: Seq<Option<Opcode>>, instrs: Seq<InstrModel>) -> bool {
    forall|i: int| 0 <= i < instrs.len() ==> match table[(#[trigger] instrs[i]).opcode as int] {
        Some(op) => instrs[i].operands.len() >= layout(format_spec(op)).head.len(),
        None => false,
    }
}

/// The first error that `check` finds in `instrs`, in order.
pub open spec fn first_error(instrs: Seq<InstrModel>, check: spec_fn(InstrModel) -> Option<VerifierError>) -> Option<VerifierError>
    decreases instrs.len(),
{
    if instrs.len() == 0 {
        None
    } else {
        match first_error(instrs.drop_last(), check) {
            Some(e) => Some(e),
            None => check(instrs.last()),
        }
    }
}

/// `Ok` when there is no error, else the error.
pub open spec fn as_result(e: Option<VerifierError>) -> Result<(), VerifierError> {
    match e {
        Some(x) => Err(x),
        None => Ok(()),
    }
}

/// The check of one jump target.
pub open spec fn jump_check(target: u32, code_len: usize, offsets: Set<usize>, from: usize) -> Option<VerifierError> {
    if target as usize >= code_len {
        Some(VerifierError { kind: VerifierErrorKind::JumpTargetOutOfBounds(target, code_len), offset: Some(from) })
    } else if !offsets.contains(target as usize) {
        Some(VerifierError { kind: VerifierErrorKind::JumpTargetUnaligned(target), offset: Some(from) })
    } else {
        None
    }
}

/// The control-flow check of one instruction: jump targets are instruction
/// boundaries inside the code, called functions exist.
pub open spec fn cfg_check(table: Seq<Option<Opcode>>, code_len: usize, offsets: Set<usize>, function_count: usize, ins: InstrModel) -> Option<VerifierError> {
    match table[ins.opcode as int] {
        Some(Opcode::Jump) => jump_check(ins.operands[0] as u32, code_len, offsets, ins.offset),
        Some(Opcode::JumpIf) | Some(Opcode::JumpUnless) => jump_check(ins.operands[1] as u32, code_len, offsets, ins.offset),
        Some(Opcode::Call) => {
            let f = ins.operands[1] as u32;
            if f as usize >= function_count {
                Some(VerifierError { kind: VerifierErrorKind::FunctionIndexOutOfBounds(f, function_count), offset: Some(ins.offset) })
            } else {
                None
            }
        },
        _ => None,
    }
}

/// The constant-pool check of one instruction.
pub open spec fn const_check(table: Seq<Option<Opcode>>, pool_len: usize, ins: InstrModel) -> Option<VerifierError> {
    match table[ins.opcode as int] {
        Some(Opcode::LoadConst) => {
            let idx = ins.operands[1] as u32;
            if idx as usize >= pool_len {
                Some(VerifierError { kind: VerifierErrorKind::ConstPoolIndexOutOfBounds(idx, pool_len), offset: Some(ins.offset) })
            } else {
                None
            }
        },
        _ => None,
    }
}

/// The on-chain check of one instruction: no debug printing.
pub open spec fn on_chain_check(table: Seq<Option<Opcode>>, ins: InstrModel) -> Option<VerifierError> {
    match table[ins.opcode as int] {
        Some(Opcode::DebugPrint) => Some(VerifierError { kind: VerifierErrorKind::ForbiddenOnChain(ins.opcode), offset: Some(ins.offset) }),
        _ => None,
    }
}

/// The open atomic blocks (id to the offset of its begin) after `instrs`,
/// or the first commit/rollback of a block that is not open.
pub open spec fn atomic_scan(table: Seq<Option<Opcode>>, instrs: Seq<InstrModel>) -> Result<Map<u16, usize>, VerifierError>
    decreases instrs.len(),
{
    if instrs.len() == 0 {
        Ok(Map::empty())
    } else {
        match atomic_scan(table, instrs.drop_last()) {
            Err(e) => Err(e),
            Ok(m) => {
                let ins = instrs.last();
                match table[ins.opcode as int] {
                    Some(Opcode::AtomicBegin) => Ok(m.insert(ins.operands[0] as u16, ins.offset)),
                    Some(Opcode::AtomicCommit) | Some(Opcode::AtomicRollback) => {
                        let id = ins.operands[0] as u16;
                        if m.contains_key(id) {
                            Ok(m.remove(id))
                        } else {
                            Err(VerifierError { kind: VerifierErrorKind::AtomicIdMismatch(id), offset: Some(ins.offset) })
                        }
                    },
                    _ => Ok(m),
                }
            },
        }
    }
}

/// Outcome of the atomic-balance check: every commit or rollback closes an
/// open block, and no block is left open.
pub open spec fn atomic_result(table: Seq<Option<Opcode>>, instrs: Seq<InstrModel>) -> Result<(), VerifierError> {
    match atomic_scan(table, instrs) {
        Err(e) => Err(e),
        Ok(m) => if m.dom().len() > 0 {
            Err(VerifierError { kind: VerifierErrorKind::AtomicUnbalanced(m.dom().len() as i32), offset: None })
        } else {
            Ok(())
        },
    }
}

/// Total gas of the instructions.
pub open spec fn total_gas(instrs: Seq<InstrModel>) -> nat
    decreases instrs.len(),
{
    if instrs.len() == 0 { 0 } else { total_gas(instrs.drop_last()) + instrs.last().gas_cost as nat }
}

/// A function's gas is at least the gas of each of its instructions.
pub proof fn lemma_total_gas_covers_each(instrs: Seq<InstrModel>, i: int)
    requires
        0 <= i < instrs.len(),
    ensures
        total_gas(instrs) >= instrs[i].gas_cost,
    decreases instrs.len(),
{
    if i < instrs.len() - 1 {
        lemma_total_gas_covers_each(instrs.drop_last(), i);
        assert(instrs.drop_last()[i] == instrs[i]);
    }
}

/// The gas check refuses a function that holds an instruction costing more
/// than the budget: a contract creation under any budget below 32000.
pub proof fn lemma_gas_check_refuses_costly_instruction(instrs: Seq<InstrModel>, i: int, max_gas: u128)
    requires
        0 <= i < instrs.len(),
        instrs[i].gas_cost > max_gas,
    ensures
        total_gas(instrs) >= instrs[i].gas_cost,
        gas_result(instrs, max_gas) == Err::<(), VerifierError>(VerifierError {
            kind: VerifierErrorKind::GasBudgetExceeded(total_gas(instrs) as u128, max_gas),
            offset: None,
        }),
{
    lemma_total_gas_covers_each(instrs, i);
}

/// Outcome of the gas check.
pub open spec fn gas_result(instrs: Seq<InstrModel>, max_gas: u128) -> Result<(), VerifierError> {
    if total_gas(instrs) > max_gas {
        Err(VerifierError { kind: VerifierErrorKind::GasBudgetExceeded(total_gas(instrs) as u128, max_gas), offset: None })
    } else {
        Ok(())
    }
}

/// The offsets of the instructions.
pub open spec fn offsets_of(instrs: Seq<InstrModel>) -> Set<usize> {
    instrs.map_values(|i: InstrModel| i.offset).to_set()
}

/// What the verifier reads of a bytecode module.
pub struct ModuleFacts {
    /// Packed module version.
    pub version: u32,
    /// The code section.
    pub code: Vec<u8>,
    /// Entry point of each function.
    pub function_entries: Vec<u32>,
    /// Number of constant-pool entries.
    pub const_pool_len: usize,
}

/// The first function whose entry point lies outside the code.
pub open spec fn entries_error(entries: Seq<u32>, code_len: usize) -> Option<VerifierError>
    decreases entries.len(),
{
    if entries.len() == 0 {
        None
    } else {
        match entries_error(entries.drop_last(), code_len) {
            Some(e) => Some(e),
            None => if entries.last() as usize >= code_len {
                Some(VerifierError {
                    kind: VerifierErrorKind::FunctionEntryOutOfBounds((entries.len() - 1) as usize, entries.last()),
                    offset: None,
                })
            } else {
                None
            },
        }
    }
}

/// Outcome of verifying a module, pass by pass: version, function entries,
/// decoding, control flow, constant pool, atomic balance, gas and (on
/// chain) the debug-opcode ban; the first failing pass gives the error.
pub open spec fn verify_module_spec(table: Seq<Option<Opcode>>, supported_version: u32, version: u32, code: Seq<u8>, entries: Seq<u32>, pool_len: usize, options: VerifyOptions) -> Result<(), VerifierError> {
    if version > supported_version {
        Err(VerifierError { kind: VerifierErrorKind::UnsupportedVersion(version), offset: None })
    } else if entries_error(entries, code.len() as usize) is Some {
        Err(entries_error(entries, code.len() as usize)->Some_0)
    } else {
        match decode_from(table, code, 0) {
            Err(e) => Err(e),
            Ok(instrs) => {
                let cfg = first_error(instrs, |i: InstrModel| cfg_check(table, code.len() as usize, offsets_of(instrs), entries.len() as usize, i));
                let consts = first_error(instrs, |i: InstrModel| const_check(table, pool_len, i));
                if cfg is Some {
                    Err(cfg->Some_0)
                } else if consts is Some {
                    Err(consts->Some_0)
                } else if atomic_result(table, instrs) is Err {
                    atomic_result(table, instrs)
                } else if gas_result(instrs, options.max_gas_per_function) is Err {
                    gas_result(instrs, options.max_gas_per_function)
                } else if options.on_chain {
                    as_result(first_error(instrs, |i: InstrModel| on_chain_check(table, i)))
                } else {
                    Ok(())
                }
            },
        }
    }
}

proof fn lemma_first_error_step(instrs: Seq<InstrModel>, check: spec_fn(InstrModel) -> Option<VerifierError>, i: int)
    requires
        0 <= i < instrs.len(),
    ensures
        first_error(instrs.take(i + 1), check) == match first_error(instrs.take(i), check) {
            Some(e) => Some(e),
            None => check(instrs[i]),
        },
{
    assert(instrs.take(i + 1).drop_last() =~= instrs.take(i));
}

/// Once a prefix has an error, the whole sequence has that same first error.
pub proof fn lemma_first_error_prefix(s: Seq<InstrModel>, check: spec_fn(InstrModel) -> Option<VerifierError>, j: int)
    requires
        0 <= j <= s.len(),
        first_error(s.take(j), check) is Some,
    ensures
        first_error(s, check) == first_error(s.take(j), check),
    decreases s.len(),
{
    if j == s.len() {
        assert(s.take(j) =~= s);
    } else {
        assert(s.drop_last().take(j) =~= s.take(j));
        lemma_first_error_prefix(s.drop_last(), check, j);
    }
}

/// Once a prefix fails the atomic scan, the whole sequence fails the same way.
pub proof fn lemma_atomic_prefix(table: Seq<Option<Opcode>>, s: Seq<InstrModel>, j: int)
    requires
        0 <= j <= s.len(),
        atomic_scan(table, s.take(j)) is Err,
    ensures
        atomic_scan(table, s) == atomic_scan(table, s.take(j)),
    decreases s.len(),
{
    if j == s.len() {
        assert(s.take(j) =~= s);
    } else {
        assert(s.drop_last().take(j) =~= s.take(j));
        lemma_atomic_prefix(table, s.drop_last(), j);
    }
}

/// Once a prefix of the entry points has an error, the whole list has it.
pub proof fn lemma_entries_prefix(s: Seq<u32>, code_len: usize, j: int)
    requires
        0 <= j <= s.len(),
        entries_error(s.take(j), code_len) is Some,
    ensures
        entries_error(s, code_len) == entries_error(s.take(j), code_len),
    decreases s.len(),
{
    if j == s.len() {
        assert(s.take(j) =~= s);
    } else {
        assert(s.drop_last().take(j) =~= s.take(j));
        lemma_entries_prefix(s.drop_last(), code_len, j);
    }
}

/// A successful decode yields well-formed instructions.
pub proof fn lemma_decode_well_formed(table: Seq<Option<Opcode>>, code: Seq<u8>, pc: nat)
    ensures
        decode_from(table, code, pc) matches Ok(m) ==> well_decoded(table, m),
    decreases code.len() - pc,
{
    if pc < code.len() {
        match decode_spec(table, code, pc as int) {
            Ok((size, ops)) => {
                lemma_decode_well_formed(table, code, pc + size);
                match decode_from(table, code, pc + size) {
                    Ok(rest) => {
                        let m = decode_from(table, code, pc)->Ok_0;
                        assert forall|i: int| 0 <= i < m.len() implies match table[(#[trigger] m[i]).opcode as int] {
                            Some(op) => m[i].operands.len() >= layout(format_spec(op)).head.len(),
                            None => false,
                        } by {
                            if i > 0 {
                                assert(m[i] == rest[i - 1]);
                            }
                        }
                    },
                    Err(_) => {},
                }
            },
            Err(_) => {},
        }
    }
}

impl Verifier {
    /// Check that `target` is an instruction boundary inside the code.
    pub fn check_jump_target(target: u32, code_len: usize, offsets: &BTreeSet<usize>, from_offset: usize) -> (r: Result<(), VerifierError>)
        ensures
            r == as_result(jump_check(target, code_len, offsets@, from_offset)),
    {
        if target as usize >= code_len {
            return Err(VerifierError::new(VerifierErrorKind::JumpTargetOutOfBounds(target, code_len), from_offset));
        }
        let t = target as usize;
        if !offsets.contains(&t) {
            return Err(VerifierError::new(VerifierErrorKind::JumpTargetUnaligned(target), from_offset));
        }
        Ok(())
    }

    /// Control-flow validation: jump targets are instruction boundaries and
    /// called functions exist.
    fn verify_cfg(instrs: &Vec<DecodedInstr>, offsets: &BTreeSet<usize>, code_len: usize, function_count: usize, table: &OpcodeTable) -> (r: Result<(), VerifierError>)
        requires
            well_decoded(table@, instrs_model(instrs@)),
        ensures
            r == as_result(first_error(instrs_model(instrs@), |i: InstrModel| cfg_check(table@, code_len, offsets@, function_count, i))),
    {
        let ghost check = |i: InstrModel| cfg_check(table@, code_len, offsets@, function_count, i);
        let ghost m = instrs_model(instrs@);
        let mut k: usize = 0;
        while k < instrs.len()
            invariant
                k <= instrs@.len(),
                m == instrs_model(instrs@),
                well_decoded(table@, m),
                check == (|i: InstrModel| cfg_check(table@, code_len, offsets@, function_count, i)),
                first_error(m.take(k as int), check) is None,
            decreases instrs.len() - k,
        {
            proof {
                lemma_first_error_step(m, check, k as int);
            }
            let instr = &instrs[k];
            assert(m[k as int] == instr@);
            match table.from_byte(instr.opcode) {
                Some(Opcode::Jump) => {
                    let target = #[verifier::truncate] (instr.operands[0] as u32);
                    let c = Self::check_jump_target(target, code_len, offsets, instr.offset);
                    if let Err(e) = c {
                        proof {
                            lemma_first_error_prefix(m, check, k + 1);
                        }
                        return Err(e);
                    }
                },
                Some(Opcode::JumpIf) | Some(Opcode::JumpUnless) => {
                    let target = #[verifier::truncate] (instr.operands[1] as u32);
                    let c = Self::check_jump_target(target, code_len, offsets, instr.offset);
                    if let Err(e) = c {
                        proof {
                            lemma_first_error_prefix(m, check, k + 1);
                        }
                        return Err(e);
                    }
                },
                Some(Opcode::Call) => {
                    let func_idx = #[verifier::truncate] (instr.operands[1] as u32);
                    if func_idx as usize >= function_count {
                        proof {
                            lemma_first_error_prefix(m, check, k + 1);
                        }
                        return Err(VerifierError::new(VerifierErrorKind::FunctionIndexOutOfBounds(func_idx, function_count), instr.offset));
                    }
                },
                _ => {},
            }
            k = k + 1;
        }
        assert(m.take(instrs@.len() as int) =~= m);
        Ok(())
    }

    /// Constant-pool validation: every constant load names an existing entry.
    fn verify_const_pool_refs(instrs: &Vec<DecodedInstr>, pool_len: usize, table: &OpcodeTable) -> (r: Result<(), VerifierError>)
        requires
            well_decoded(table@, instrs_model(instrs@)),
        ensures
            r == as_result(first_error(instrs_model(instrs@), |i: InstrModel| const_check(table@, pool_len, i))),
    {
        let ghost check = |i: InstrModel| const_check(table@, pool_len, i);
        let ghost m = instrs_model(instrs@);
        let mut k: usize = 0;
        while k < instrs.len()
            invariant
                k <= instrs@.len(),
                m == instrs_model(instrs@),
                well_decoded(table@, m),
                check == (|i: InstrModel| const_check(table@, pool_len, i)),
                first_error(m.take(k as int), check) is None,
            decreases instrs.len() - k,
        {
            proof {
                lemma_first_error_step(m, check, k as int);
            }
            let instr = &instrs[k];
            assert(m[k as int] == instr@);
            if let Some(Opcode::LoadConst) = table.from_byte(instr.opcode) {
                let idx = #[verifier::truncate] (instr.operands[1] as u32);
                if idx as usize >= pool_len {
                    proof {
                        lemma_first_error_prefix(m, check, k + 1);
                    }
                    return Err(VerifierError::new(VerifierErrorKind::ConstPoolIndexOutOfBounds(idx, pool_len), instr.offset));
                }
            }
            k = k + 1;
        }
        assert(m.take(instrs@.len() as int) =~= m);
        Ok(())
    }

    /// On-chain restrictions: no debug printing.
    fn verify_on_chain_restrictions(instrs: &Vec<DecodedInstr>, table: &OpcodeTable) -> (r: Result<(), VerifierError>)
        ensures
            r == as_result(first_error(instrs_model(instrs@), |i: InstrModel| on_chain_check(table@, i))),
    {
        let ghost check = |i: InstrModel| on_chain_check(table@, i);
        let ghost m = instrs_model(instrs@);
        let mut k: usize = 0;
        while k < instrs.len()
            invariant
                k <= instrs@.len(),
                m == instrs_model(instrs@),
                check == (|i: InstrModel| on_chain_check(table@, i)),
                first_error(m.take(k as int), check) is None,
            decreases instrs.len() - k,
        {
            proof {
                lemma_first_error_step(m, check, k as int);
            }
            let instr = &instrs[k];
            assert(m[k as int] == instr@);
            if let Some(Opcode::DebugPrint) = table.from_byte(instr.opcode) {
                proof {
                    lemma_first_error_prefix(m, check, k + 1);
                }
                return Err(VerifierError::new(VerifierErrorKind::ForbiddenOnChain(instr.opcode), instr.offset));
            }
            k = k + 1;
        }
        assert(m.take(instrs@.len() as int) =~= m);
        Ok(())
    }

    /// Gas validation: the summed gas of the instructions stays within the
    /// budget.
    pub fn verify_gas(instrs: &Vec<DecodedInstr>, options: &VerifyOptions) -> (r: Result<(), VerifierError>)
        ensures
            r == gas_result(instrs_model(instrs@), options.max_gas_per_function),
    {
        let ghost m = instrs_model(instrs@);
        let mut total: u128 = 0;
        let mut k: usize = 0;
        while k < instrs.len()
            invariant
                k <= instrs@.len(),
                m == instrs_model(instrs@),
                total == total_gas(m.take(k as int)),
                total <= k * 0xFFFF_FFFF_FFFF_FFFFu128,
            decreases instrs.len() - k,
        {
            proof {
                assert(m.take(k + 1).drop_last() =~= m.take(k as int));
                assert(m[k as int] == instrs@[k as int]@);
            }
            let g = instrs[k].gas_cost;
            assert(total + g <= (k + 1) * 0xFFFF_FFFF_FFFF_FFFFu128) by (nonlinear_arith)
                requires
                    total <= k * 0xFFFF_FFFF_FFFF_FFFFu128,
                    g <= 0xFFFF_FFFF_FFFF_FFFFu64;
            assert((k + 1) * 0xFFFF_FFFF_FFFF_FFFFu128 <= u128::MAX) by (nonlinear_arith)
                requires
                    k < 0x1_0000_0000_0000_0000;
            total = total + g as u128;
            k = k + 1;
        }
        assert(m.take(instrs@.len() as int) =~= m);
        if total > options.max_gas_per_function {
            return Err(VerifierError::without_offset(VerifierErrorKind::GasBudgetExceeded(total, options.max_gas_per_function)));
        }
        Ok(())
    }

    /// Atomic-block validation: every commit or rollback closes an open
    /// block with the same id, and no block is left open.
    fn verify_atomic_balance(instrs: &Vec<DecodedInstr>, table: &OpcodeTable) -> (r: Result<(), VerifierError>)
        requires
            well_decoded(table@, instrs_model(instrs@)),
        ensures
            r == atomic_result(table@, instrs_model(instrs@)),
    {
        let ghost m = instrs_model(instrs@);
        let mut active: BTreeMap<u16, usize> = BTreeMap::new();
        let mut k: usize = 0;
        while k < instrs.len()
            invariant
                k <= instrs@.len(),
                m == instrs_model(instrs@),
                well_decoded(table@, m),
                atomic_scan(table@, m.take(k as int)) == Ok::<Map<u16, usize>, VerifierError>(active@),
            decreases instrs.len() - k,
        {
            proof {
                assert(m.take(k + 1).drop_last() =~= m.take(k as int));
            }
            let instr = &instrs[k];
            assert(m[k as int] == instr@);
            match table.from_byte(instr.opcode) {
                Some(Opcode::AtomicBegin) => {
                    let id = #[verifier::truncate] (instr.operands[0] as u16);
                    active.insert(id, instr.offset);
                },
                Some(Opcode::AtomicCommit) | Some(Opcode::AtomicRollback) => {
                    let id = #[verifier::truncate] (instr.operands[0] as u16);
                    let removed = active.remove(&id);
                    if removed.is_none() {
                        proof {
                            lemma_atomic_prefix(table@, m, k + 1);
                        }
                        return Err(VerifierError::new(VerifierErrorKind::AtomicIdMismatch(id), instr.offset));
                    }
                },
                _ => {},
            }
            k = k + 1;
        }
        assert(m.take(instrs@.len() as int) =~= m);
        if !active.is_empty() {
            let n = active.len();
            assert(active@.dom().len() > 0) by {
                assert(!active@.is_empty());
                if active@.dom().len() == 0 {
                    assert(active@.dom() =~= Set::empty());
                    assert(active@ =~= Map::empty());
                }
            }
            return Err(VerifierError::without_offset(VerifierErrorKind::AtomicUnbalanced(#[verifier::truncate] (n as i32))));
        }
        assert(active@.dom().len() == 0) by {
            assert(active@ == Map::<u16, usize>::empty());
        }
        Ok(())
    }

    /// Structural validation: the module's version is supported.
    fn verify_structure(version: u32, supported_version: u32) -> (r: Result<(), VerifierError>)
        ensures
            version > supported_version ==> r == Err::<(), VerifierError>(VerifierError { kind: VerifierErrorKind::UnsupportedVersion(version), offset: None }),
            version <= supported_version ==> r is Ok,
    {
        if version > supported_version {
            return Err(VerifierError::without_offset(VerifierErrorKind::UnsupportedVersion(version)));
        }
        Ok(())
    }

    /// Function entry points lie inside the code section.
    fn verify_function_entries(entries: &Vec<u32>, code_len: usize) -> (r: Result<(), VerifierError>)
        ensures
            r == as_result(entries_error(entries@, code_len)),
    {
        let mut idx: usize = 0;
        while idx < entries.len()
            invariant
                idx <= entries@.len(),
                entries_error(entries@.take(idx as int), code_len) is None,
            decreases entries.len() - idx,
        {
            proof {
                assert(entries@.take(idx + 1).drop_last() =~= entries@.take(idx as int));
            }
            let entry = entries[idx];
            if entry as usize >= code_len {
                proof {
                    lemma_entries_prefix(entries@, code_len, idx + 1);
                }
                return Err(VerifierError::without_offset(VerifierErrorKind::FunctionEntryOutOfBounds(idx, entry)));
            }
            idx = idx + 1;
        }
        assert(entries@.take(entries@.len() as int) =~= entries@);
        Ok(())
    }

    /// Verify a module (see [`verify_module_spec`]). `supported_version` is
    /// the newest packed format version that this verifier accepts.
    pub fn verify_module(module: &ModuleFacts, options: &VerifyOptions, table: &OpcodeTable, supported_version: u32) -> (r: Result<(), VerifierError>)
        ensures
            r == verify_module_spec(table@, supported_version, module.version, module.code@, module.function_entries@, module.const_pool_len, *options),
    {
        let s = Self::verify_structure(module.version, supported_version);
        if let Err(e) = s {
            return Err(e);
        }
        let f = Self::verify_function_entries(&module.function_entries, module.code.len());
        if let Err(e) = f {
            return Err(e);
        }
        let decoded = Self::decode_all_instructions(module.code.as_slice(), table);
        let instrs = match decoded {
            Ok(v) => v,
            Err(e) => {
                return Err(e);
            },
        };
        proof {
            lemma_decode_well_formed(table@, module.code@, 0);
        }
        let offsets = Self::offset_set(&instrs);
        let c = Self::verify_cfg(&instrs, &offsets, module.code.len(), module.function_entries.len(), table);
        if let Err(e) = c {
            return Err(e);
        }
        let p = Self::verify_const_pool_refs(&instrs, module.const_pool_len, table);
        if let Err(e) = p {
            return Err(e);
        }
        let a = Self::verify_atomic_balance(&instrs, table);
        if let Err(e) = a {
            return Err(e);
        }
        let g = Self::verify_gas(&instrs, options);
        if let Err(e) = g {
            return Err(e);
        }
        if options.on_chain {
            return Self::verify_on_chain_restrictions(&instrs, table);
        }
        Ok(())
    }

    /// The set of instruction offsets.
    fn offset_set(instrs: &Vec<DecodedInstr>) -> (s: BTreeSet<usize>)
        ensures
            s@ == offsets_of(instrs_model(instrs@)),
    {
        let ghost m = instrs_model(instrs@);
        let mut s: BTreeSet<usize> = BTreeSet::new();
        let mut k: usize = 0;
        while k < instrs.len()
            invariant
                k <= instrs@.len(),
                m == instrs_model(instrs@),
                s@ == m.take(k as int).map_values(|i: InstrModel| i.offset).to_set(),
            decreases instrs.len() - k,
        {
            let off = instrs[k].offset;
            proof {
                assert(m[k as int] == instrs@[k as int]@);
                assert(m.take(k + 1).map_values(|i: InstrModel| i.offset) =~= m.take(k as int).map_values(|i: InstrModel| i.offset).push(off));
                m.take(k as int).map_values(|i: InstrModel| i.offset).lemma_push_to_set_commute(off);
            }
            s.insert(off);
            k = k + 1;
        }
        assert(m.take(instrs@.len() as int) =~= m);
        s
    }
}

/// Decoded instructions tile the code from `pc` on: the first starts at
/// `pc`, each starts where the previous one ends, each has a positive size,
/// and the last ends exactly at the end of the code.
pub proof fn lemma_decode_tiles(table: Seq<Option<Opcode>>, code: Seq<u8>, pc: nat)
    requires
        code.len() <= usize::MAX,
        decode_from(table, code, pc) is Ok,
    ensures
        ({
            let m = decode_from(table, code, pc)->Ok_0;
            &&& m.len() == 0 <==> pc >= code.len()
            &&& m.len() > 0 ==> m[0].offset == pc && m.last().offset + m.last().size == code.len()
            &&& forall|i: int| 0 <= i < m.len() ==> (#[trigger] m[i]).size > 0
            &&& forall|i: int| 1 <= i < m.len() ==> (#[trigger] m[i]).offset == m[i - 1].offset + m[i - 1].size
        }),
    decreases code.len() - pc,
{
    if pc < code.len() {
        let (size, ops) = decode_spec(table, code, pc as int)->Ok_0;
        lemma_decode_tiles(table, code, pc + size);
        let m = decode_from(table, code, pc)->Ok_0;
        let rest = decode_from(table, code, pc + size)->Ok_0;
        assert(m == seq![m[0]] + rest);
        assert(pc + size <= code.len());
        assert(m[0].offset == pc && m[0].size == size);
        assert forall|i: int| 1 <= i < m.len() implies (#[trigger] m[i]).offset == m[i - 1].offset + m[i - 1].size by {
            assert(m[i] == rest[i - 1]);
            if i > 1 {
                assert(m[i - 1] == rest[i - 2]);
            }
        }
        assert forall|i: int| 0 <= i < m.len() implies (#[trigger] m[i]).size > 0 by {
            if i > 0 {
                assert(m[i] == rest[i - 1]);
            }
        }
        if rest.len() > 0 {
            assert(m.last() == rest.last());
        }
    }
}

/// With no error found, every instruction passes the check.
pub proof fn lemma_no_error_all_pass(s: Seq<InstrModel>, check: spec_fn(InstrModel) -> Option<VerifierError>)
    requires
        first_error(s, check) is None,
    ensures
        forall|i: int| 0 <= i < s.len() ==> check(#[trigger] s[i]) is None,
    decreases s.len(),
{
    if s.len() > 0 {
        lemma_no_error_all_pass(s.drop_last(), check);
        assert forall|i: int| 0 <= i < s.len() implies check(#[trigger] s[i]) is None by {
            if i < s.len() - 1 {
                assert(s[i] == s.drop_last()[i]);
            }
        }
    }
}

/// In a module that passes verification, every jump lands on the first byte
/// of an instruction inside the code.
pub proof fn lemma_verified_jumps_land_on_instructions(
    table: Seq<Option<Opcode>>,
    supported_version: u32,
    version: u32,
    code: Seq<u8>,
    entries: Seq<u32>,
    pool_len: usize,
    options: VerifyOptions,
)
    requires
        verify_module_spec(table, supported_version, version, code, entries, pool_len, options) is Ok,
    ensures
        decode_from(table, code, 0) is Ok,
        ({
            let m = decode_from(table, code, 0)->Ok_0;
            forall|i: int| 0 <= i < m.len() && table[(#[trigger] m[i]).opcode as int] == Some(Opcode::Jump) ==> {
                let t = m[i].operands[0] as u32;
                (t as usize) < code.len() && offsets_of(m).contains(t as usize)
            }
        }),
{
    let m = decode_from(table, code, 0)->Ok_0;
    let check = |i: InstrModel| cfg_check(table, code.len() as usize, offsets_of(m), entries.len() as usize, i);
    lemma_no_error_all_pass(m, check);
    assert forall|i: int| 0 <= i < m.len() && table[(#[trigger] m[i]).opcode as int] == Some(Opcode::Jump) implies {
        let t = m[i].operands[0] as u32;
        (t as usize) < code.len() && offsets_of(m).contains(t as usize)
    } by {
        assert(check(m[i]) is None);
    }
}

} // verus!
