use atlas_sphere::bytecode::{opcode_gas_cost, ModuleFacts, Opcode, OpcodeTable, Verifier, VerifierErrorKind, VerifyOptions};

const ALL_OPCODES: [Opcode; 114] = [
    Opcode::Nop,
    Opcode::Halt,
    Opcode::RetVoid,
    Opcode::Breakpoint,
    Opcode::LoadZero,
    Opcode::LoadTrue,
    Opcode::LoadFalse,
    Opcode::CtxSender,
    Opcode::CtxBlockHeight,
    Opcode::CtxTimestamp,
    Opcode::CtxValue,
    Opcode::CtxGas,
    Opcode::CtxChainId,
    Opcode::AtomicCheck,
    Opcode::AgentSelf,
    Opcode::Ret,
    Opcode::AtomicBegin,
    Opcode::AtomicCommit,
    Opcode::AtomicRollback,
    Opcode::DebugPrint,
    Opcode::SvmGetRent,
    Opcode::SvmGetClock,
    Opcode::Mov,
    Opcode::NegI,
    Opcode::NegF,
    Opcode::Not,
    Opcode::LNot,
    Opcode::Inc,
    Opcode::Dec,
    Opcode::I32ToI64,
    Opcode::I64ToI32,
    Opcode::I32ToF32,
    Opcode::I64ToF64,
    Opcode::F32ToI32,
    Opcode::F64ToI64,
    Opcode::F32ToF64,
    Opcode::F64ToF32,
    Opcode::ToBool,
    Opcode::ArrayLen,
    Opcode::ArrayPop,
    Opcode::ArrayPush,
    Opcode::NewArray,
    Opcode::EvmSload,
    Opcode::EvmSstore,
    Opcode::EvmBalance,
    Opcode::EvmCodeSize,
    Opcode::SvmGetData,
    Opcode::SvmSetData,
    Opcode::AddI,
    Opcode::SubI,
    Opcode::MulI,
    Opcode::DivI,
    Opcode::ModI,
    Opcode::AddF,
    Opcode::SubF,
    Opcode::MulF,
    Opcode::DivF,
    Opcode::ModF,
    Opcode::EqI,
    Opcode::NeI,
    Opcode::LtI,
    Opcode::LeI,
    Opcode::GtI,
    Opcode::GeI,
    Opcode::EqF,
    Opcode::NeF,
    Opcode::LtF,
    Opcode::LeF,
    Opcode::GtF,
    Opcode::GeF,
    Opcode::And,
    Opcode::Or,
    Opcode::Xor,
    Opcode::Shl,
    Opcode::Shr,
    Opcode::UShr,
    Opcode::LAnd,
    Opcode::LOr,
    Opcode::LoadIndex,
    Opcode::StoreIndex,
    Opcode::LoadField,
    Opcode::StoreField,
    Opcode::TupleGet,
    Opcode::EvmCreate,
    Opcode::SvmTransfer,
    Opcode::EvmStaticCall,
    Opcode::EvmDelegateCall,
    Opcode::EvmCreate2,
    Opcode::SvmInvoke,
    Opcode::SvmCreateAccount,
    Opcode::EvmCall,
    Opcode::SvmInvokeSigned,
    Opcode::Jump,
    Opcode::Panic,
    Opcode::JumpIf,
    Opcode::JumpUnless,
    Opcode::LoadConst,
    Opcode::LoadGlobal,
    Opcode::Assert,
    Opcode::StoreGlobal,
    Opcode::LoadImm,
    Opcode::GpuDeviceCount,
    Opcode::GpuSha256Batch,
    Opcode::GpuEd25519Verify,
    Opcode::GpuBenchmark,
    Opcode::GpuKeccak256Batch,
    Opcode::GpuSecp256k1Verify,
    Opcode::GpuPohChain,
    Opcode::GpuSha256Streamed,
    Opcode::Call,
    Opcode::NewTuple,
    Opcode::Emit,
    Opcode::AgentInit,
    Opcode::EvmLog,
];

/// Every opcode encoded by its position in `ALL_OPCODES`; 0xFF encodes none.
fn table() -> OpcodeTable {
    let mut t = OpcodeTable::new();
    for (i, op) in ALL_OPCODES.iter().enumerate() {
        t.assign(i as u8, *op);
    }
    t
}

fn byte(op: Opcode) -> u8 {
    table().to_byte(op).unwrap()
}

fn make_simple_module(code: Vec<u8>) -> ModuleFacts {
    ModuleFacts { version: 1, code, function_entries: vec![], const_pool_len: 0 }
}

#[test]
fn verify_empty_module() {
    let result = Verifier::verify_module_bytes(&[], &VerifyOptions::default());
    assert!(matches!(
        result.unwrap_err().kind,
        VerifierErrorKind::EmptyModule
    ));
}

#[test]
fn verify_nop_halt() {
    let module = make_simple_module(vec![byte(Opcode::Nop), byte(Opcode::Halt)]);
    let result = Verifier::verify_module(&module, &VerifyOptions::default(), &table(), 1);
    assert!(result.is_ok());
}

#[test]
fn verify_invalid_opcode() {
    let module = make_simple_module(vec![0xFF]); // Invalid opcode
    let result = Verifier::verify_module(&module, &VerifyOptions::default(), &table(), 1);
    assert!(matches!(
        result.unwrap_err().kind,
        VerifierErrorKind::InvalidOpcode(0xFF)
    ));
}

#[test]
fn verify_jump_target_oob() {
    let module = make_simple_module(vec![
        byte(Opcode::Jump),
        0xFF,
        0x00,
        0x00,
        0x00, // Target 255 (out of bounds)
    ]);
    let result = Verifier::verify_module(&module, &VerifyOptions::default(), &table(), 1);
    assert!(matches!(
        result.unwrap_err().kind,
        VerifierErrorKind::JumpTargetOutOfBounds(255, _)
    ));
}

#[test]
fn verify_atomic_unbalanced() {
    let module = make_simple_module(vec![
        byte(Opcode::AtomicBegin),
        0x00,
        0x00, // ID 0
        byte(Opcode::Halt),
        // Missing AtomicCommit/Rollback
    ]);
    let result = Verifier::verify_module(&module, &VerifyOptions::default(), &table(), 1);
    assert!(matches!(
        result.unwrap_err().kind,
        VerifierErrorKind::AtomicUnbalanced(_)
    ));
}

#[test]
fn verify_atomic_balanced() {
    let module = make_simple_module(vec![
        byte(Opcode::AtomicBegin),
        0x00,
        0x00, // ID 0
        byte(Opcode::AtomicCommit),
        0x00,
        0x00, // ID 0
        byte(Opcode::Halt),
    ]);
    let result = Verifier::verify_module(&module, &VerifyOptions::default(), &table(), 1);
    assert!(result.is_ok());
}

#[test]
fn verify_debug_forbidden_on_chain() {
    let module = make_simple_module(vec![
        byte(Opcode::DebugPrint),
        0x00,
        0x00, // Register 0
    ]);
    let result = Verifier::verify_module(&module, &VerifyOptions::on_chain(), &table(), 1);
    assert!(matches!(
        result.unwrap_err().kind,
        VerifierErrorKind::ForbiddenOnChain(_)
    ));
}

#[test]
fn gas_costs_reasonable() {
    // Ensure all costs are set
    assert_eq!(opcode_gas_cost(&table(), byte(Opcode::Nop)), 0);
    assert_eq!(opcode_gas_cost(&table(), byte(Opcode::AddI)), 2);
    assert_eq!(opcode_gas_cost(&table(), byte(Opcode::MulI)), 3);
    assert_eq!(opcode_gas_cost(&table(), byte(Opcode::EvmSstore)), 5000);
}

// ========================================================================
// Comprehensive decode_operands tests for all opcode categories
// ========================================================================

#[test]
fn decode_no_operand_instructions() {
    // Nop, Halt, RetVoid, Breakpoint - all 1 byte
    let code = vec![byte(Opcode::Nop)];
    let instrs = Verifier::decode_all_instructions(&code, &table()).unwrap();
    assert_eq!(instrs.len(), 1);
    assert_eq!(instrs[0].size, 1);
    assert!(instrs[0].operands.is_empty());

    let code = vec![byte(Opcode::Halt)];
    let instrs = Verifier::decode_all_instructions(&code, &table()).unwrap();
    assert_eq!(instrs[0].size, 1);

    let code = vec![byte(Opcode::Breakpoint)];
    let instrs = Verifier::decode_all_instructions(&code, &table()).unwrap();
    assert_eq!(instrs[0].size, 1);
}

#[test]
fn decode_single_register_instructions() {
    // LoadZero, CtxSender, etc. - 3 bytes (opcode + reg:u16)
    let code = vec![
        byte(Opcode::LoadZero),
        0x05,
        0x00, // r5
    ];
    let instrs = Verifier::decode_all_instructions(&code, &table()).unwrap();
    assert_eq!(instrs.len(), 1);
    assert_eq!(instrs[0].size, 3);
    assert_eq!(instrs[0].operands, vec![5]);

    // Ret - 3 bytes
    let code = vec![
        byte(Opcode::Ret),
        0x07,
        0x00, // r7
    ];
    let instrs = Verifier::decode_all_instructions(&code, &table()).unwrap();
    assert_eq!(instrs[0].operands, vec![7]);
}

#[test]
fn decode_two_register_instructions() {
    // Mov, NegI, Not, ArrayLen, etc. - 5 bytes
    let code = vec![
        byte(Opcode::Mov),
        0x01,
        0x00, // dst: r1
        0x02,
        0x00, // src: r2
    ];
    let instrs = Verifier::decode_all_instructions(&code, &table()).unwrap();
    assert_eq!(instrs.len(), 1);
    assert_eq!(instrs[0].size, 5);
    assert_eq!(instrs[0].operands, vec![1, 2]);
}

#[test]
fn decode_three_register_instructions() {
    // AddI, SubI, MulI, EqI, LoadIndex, etc. - 7 bytes
    let code = vec![
        byte(Opcode::AddI),
        0x03,
        0x00, // dst: r3
        0x01,
        0x00, // a: r1
        0x02,
        0x00, // b: r2
    ];
    let instrs = Verifier::decode_all_instructions(&code, &table()).unwrap();
    assert_eq!(instrs.len(), 1);
    assert_eq!(instrs[0].size, 7);
    assert_eq!(instrs[0].operands, vec![3, 1, 2]);
}

#[test]
fn decode_jump_instructions() {
    // Jump - 5 bytes (opcode + target:u32)
    let code = vec![
        byte(Opcode::Jump),
        0x10,
        0x00,
        0x00,
        0x00, // target: 16
    ];
    let instrs = Verifier::decode_all_instructions(&code, &table()).unwrap();
    assert_eq!(instrs.len(), 1);
    assert_eq!(instrs[0].size, 5);
    assert_eq!(instrs[0].operands, vec![16]);

    // JumpIf - 7 bytes (opcode + cond:u16 + target:u32)
    let code = vec![
        byte(Opcode::JumpIf),
        0x05,
        0x00, // cond: r5
        0x20,
        0x00,
        0x00,
        0x00, // target: 32
    ];
    let instrs = Verifier::decode_all_instructions(&code, &table()).unwrap();
    assert_eq!(instrs[0].size, 7);
    assert_eq!(instrs[0].operands, vec![5, 32]);
}

#[test]
fn decode_load_const() {
    // LoadConst - 7 bytes (opcode + dst:u16 + idx:u32)
    let code = vec![
        byte(Opcode::LoadConst),
        0x01,
        0x00, // dst: r1
        0x00,
        0x01,
        0x00,
        0x00, // idx: 256
    ];
    let instrs = Verifier::decode_all_instructions(&code, &table()).unwrap();
    assert_eq!(instrs.len(), 1);
    assert_eq!(instrs[0].size, 7);
    assert_eq!(instrs[0].operands, vec![1, 256]);
}

#[test]
fn decode_load_imm() {
    // LoadImm - 4 bytes (opcode + dst:u16 + val:i8)
    let code = vec![
        byte(Opcode::LoadImm),
        0x05,
        0x00, // dst: r5
        0xFE, // val: -2 (signed)
    ];
    let instrs = Verifier::decode_all_instructions(&code, &table()).unwrap();
    assert_eq!(instrs.len(), 1);
    assert_eq!(instrs[0].size, 4);
    // -2 as i8 sign-extended to u64
    assert_eq!(instrs[0].operands[0], 5);
    assert_eq!(instrs[0].operands[1] as i64, -2);
}

#[test]
fn decode_call_variable_length() {
    // Call - variable: opcode + dst:u16 + func:u32 + argc:u16 + [args:u16...]
    // 0 args: 9 bytes
    let code = vec![
        byte(Opcode::Call),
        0x00,
        0x00, // dst: r0
        0x05,
        0x00,
        0x00,
        0x00, // func: 5
        0x00,
        0x00, // argc: 0
    ];
    let instrs = Verifier::decode_all_instructions(&code, &table()).unwrap();
    assert_eq!(instrs.len(), 1);
    assert_eq!(instrs[0].size, 9);
    assert_eq!(instrs[0].operands, vec![0, 5, 0]);

    // 2 args: 13 bytes
    let code = vec![
        byte(Opcode::Call),
        0x00,
        0x00, // dst: r0
        0x03,
        0x00,
        0x00,
        0x00, // func: 3
        0x02,
        0x00, // argc: 2
        0x01,
        0x00, // arg0: r1
        0x02,
        0x00, // arg1: r2
    ];
    let instrs = Verifier::decode_all_instructions(&code, &table()).unwrap();
    assert_eq!(instrs[0].size, 13);
    assert_eq!(instrs[0].operands, vec![0, 3, 2, 1, 2]);
}

#[test]
fn decode_new_tuple_variable_length() {
    // NewTuple - variable: opcode + dst:u16 + count:u16 + [elements:u16...]
    let code = vec![
        byte(Opcode::NewTuple),
        0x05,
        0x00, // dst: r5
        0x03,
        0x00, // count: 3
        0x01,
        0x00, // elem0: r1
        0x02,
        0x00, // elem1: r2
        0x03,
        0x00, // elem2: r3
    ];
    let instrs = Verifier::decode_all_instructions(&code, &table()).unwrap();
    assert_eq!(instrs.len(), 1);
    assert_eq!(instrs[0].size, 11); // 5 + 3*2
    assert_eq!(instrs[0].operands, vec![5, 3, 1, 2, 3]);
}

#[test]
fn decode_emit_variable_length() {
    // Emit - variable: opcode + event_id:u32 + argc:u16 + [args:u16...]
    let code = vec![
        byte(Opcode::Emit),
        0x0A,
        0x00,
        0x00,
        0x00, // event_id: 10
        0x01,
        0x00, // argc: 1
        0x07,
        0x00, // arg0: r7
    ];
    let instrs = Verifier::decode_all_instructions(&code, &table()).unwrap();
    assert_eq!(instrs.len(), 1);
    assert_eq!(instrs[0].size, 9); // 7 + 1*2
    assert_eq!(instrs[0].operands, vec![10, 1, 7]);
}

#[test]
fn decode_evm_intrinsics() {
    // EvmCall - 11 bytes
    let code = vec![
        byte(Opcode::EvmCall),
        0x00,
        0x00, // dst: r0
        0x01,
        0x00, // gas: r1
        0x02,
        0x00, // addr: r2
        0x03,
        0x00, // value: r3
        0x04,
        0x00, // data: r4
    ];
    let instrs = Verifier::decode_all_instructions(&code, &table()).unwrap();
    assert_eq!(instrs[0].size, 11);
    assert_eq!(instrs[0].operands, vec![0, 1, 2, 3, 4]);

    // EvmSload - 5 bytes
    let code = vec![
        byte(Opcode::EvmSload),
        0x05,
        0x00, // dst: r5
        0x06,
        0x00, // slot: r6
    ];
    let instrs = Verifier::decode_all_instructions(&code, &table()).unwrap();
    assert_eq!(instrs[0].size, 5);
    assert_eq!(instrs[0].operands, vec![5, 6]);
}

#[test]
fn decode_svm_intrinsics() {
    // SvmInvoke - 9 bytes
    let code = vec![
        byte(Opcode::SvmInvoke),
        0x00,
        0x00, // dst: r0
        0x01,
        0x00, // program: r1
        0x02,
        0x00, // accounts: r2
        0x03,
        0x00, // data: r3
    ];
    let instrs = Verifier::decode_all_instructions(&code, &table()).unwrap();
    assert_eq!(instrs[0].size, 9);
    assert_eq!(instrs[0].operands, vec![0, 1, 2, 3]);

    // SvmTransfer - 7 bytes
    let code = vec![
        byte(Opcode::SvmTransfer),
        0x01,
        0x00, // from: r1
        0x02,
        0x00, // to: r2
        0x03,
        0x00, // lamports: r3
    ];
    let instrs = Verifier::decode_all_instructions(&code, &table()).unwrap();
    assert_eq!(instrs[0].size, 7);
    assert_eq!(instrs[0].operands, vec![1, 2, 3]);

    // SvmGetClock - 3 bytes
    let code = vec![
        byte(Opcode::SvmGetClock),
        0x09,
        0x00, // dst: r9
    ];
    let instrs = Verifier::decode_all_instructions(&code, &table()).unwrap();
    assert_eq!(instrs[0].size, 3);
    assert_eq!(instrs[0].operands, vec![9]);
}

#[test]
fn decode_debug_instructions() {
    // Assert - 7 bytes (opcode + cond:u16 + msg_idx:u32)
    let code = vec![
        byte(Opcode::Assert),
        0x01,
        0x00, // cond: r1
        0x00,
        0x00,
        0x00,
        0x00, // msg_idx: 0
    ];
    let instrs = Verifier::decode_all_instructions(&code, &table()).unwrap();
    assert_eq!(instrs[0].size, 7);
    assert_eq!(instrs[0].operands, vec![1, 0]);

    // Panic - 5 bytes (opcode + msg_idx:u32)
    let code = vec![
        byte(Opcode::Panic),
        0x01,
        0x00,
        0x00,
        0x00, // msg_idx: 1
    ];
    let instrs = Verifier::decode_all_instructions(&code, &table()).unwrap();
    assert_eq!(instrs[0].size, 5);
    assert_eq!(instrs[0].operands, vec![1]);
}

#[test]
fn decode_evm_log_variable_length() {
    // EvmLog - variable: opcode + topic_count:u8 + [topics:u16...] + data:u16
    // 0 topics: 4 bytes
    let code = vec![
        byte(Opcode::EvmLog),
        0x00, // topic_count: 0
        0x05,
        0x00, // data: r5
    ];
    let instrs = Verifier::decode_all_instructions(&code, &table()).unwrap();
    assert_eq!(instrs[0].size, 4);
    assert_eq!(instrs[0].operands, vec![0, 5]);

    // 2 topics: 8 bytes
    let code = vec![
        byte(Opcode::EvmLog),
        0x02, // topic_count: 2
        0x01,
        0x00, // topic0: r1
        0x02,
        0x00, // topic1: r2
        0x03,
        0x00, // data: r3
    ];
    let instrs = Verifier::decode_all_instructions(&code, &table()).unwrap();
    assert_eq!(instrs[0].size, 8); // 4 + 2*2
    assert_eq!(instrs[0].operands, vec![2, 1, 2, 3]);
}

#[test]
fn decode_multi_instruction_sequence() {
    // Test a realistic instruction sequence
    let mut code = Vec::new();

    // load_const r1, c0 (7 bytes)
    code.push(byte(Opcode::LoadConst));
    code.extend_from_slice(&1u16.to_le_bytes());
    code.extend_from_slice(&0u32.to_le_bytes());

    // load_const r2, c1 (7 bytes)
    code.push(byte(Opcode::LoadConst));
    code.extend_from_slice(&2u16.to_le_bytes());
    code.extend_from_slice(&1u32.to_le_bytes());

    // add_i r3, r1, r2 (7 bytes)
    code.push(byte(Opcode::AddI));
    code.extend_from_slice(&3u16.to_le_bytes());
    code.extend_from_slice(&1u16.to_le_bytes());
    code.extend_from_slice(&2u16.to_le_bytes());

    // ret r3 (3 bytes)
    code.push(byte(Opcode::Ret));
    code.extend_from_slice(&3u16.to_le_bytes());

    let instrs = Verifier::decode_all_instructions(&code, &table()).unwrap();
    assert_eq!(instrs.len(), 4);

    // Verify offsets
    assert_eq!(instrs[0].offset, 0);
    assert_eq!(instrs[1].offset, 7);
    assert_eq!(instrs[2].offset, 14);
    assert_eq!(instrs[3].offset, 21);

    // Total should be 24 bytes
    assert_eq!(code.len(), 24);
}

#[test]
fn decode_all_context_ops() {
    // All context ops are 3 bytes
    for opcode in [
        Opcode::CtxSender,
        Opcode::CtxBlockHeight,
        Opcode::CtxTimestamp,
        Opcode::CtxValue,
        Opcode::CtxGas,
        Opcode::CtxChainId,
    ] {
        let code = vec![
            byte(opcode),
            0x01,
            0x00, // dst: r1
        ];
        let instrs = Verifier::decode_all_instructions(&code, &table()).unwrap();
        assert_eq!(instrs[0].size, 3, "Failed for {:?}", opcode);
        assert_eq!(instrs[0].operands, vec![1]);
    }
}

#[test]
fn decode_all_type_conversions() {
    // All type conversions are 5 bytes (dst:u16 + src:u16)
    for opcode in [
        Opcode::I32ToI64,
        Opcode::I64ToI32,
        Opcode::I32ToF32,
        Opcode::I64ToF64,
        Opcode::F32ToI32,
        Opcode::F64ToI64,
        Opcode::F32ToF64,
        Opcode::F64ToF32,
        Opcode::ToBool,
    ] {
        let code = vec![
            byte(opcode),
            0x02,
            0x00, // dst: r2
            0x01,
            0x00, // src: r1
        ];
        let instrs = Verifier::decode_all_instructions(&code, &table()).unwrap();
        assert_eq!(instrs[0].size, 5, "Failed for {:?}", opcode);
        assert_eq!(instrs[0].operands, vec![2, 1]);
    }
}

#[test]
fn gas_costs_complete() {
    // Verify all newly added opcodes have gas costs
    assert_eq!(opcode_gas_cost(&table(), byte(Opcode::EvmLog)), 375);
    assert_eq!(opcode_gas_cost(&table(), byte(Opcode::EvmBalance)), 400);
    assert_eq!(opcode_gas_cost(&table(), byte(Opcode::EvmCodeSize)), 100);

    assert_eq!(opcode_gas_cost(&table(), byte(Opcode::SvmInvoke)), 5000);
    assert_eq!(opcode_gas_cost(&table(), byte(Opcode::SvmInvokeSigned)), 6000);
    assert_eq!(opcode_gas_cost(&table(), byte(Opcode::SvmCreateAccount)), 10000);
    assert_eq!(opcode_gas_cost(&table(), byte(Opcode::SvmTransfer)), 3000);
    assert_eq!(opcode_gas_cost(&table(), byte(Opcode::SvmGetData)), 200);
    assert_eq!(opcode_gas_cost(&table(), byte(Opcode::SvmSetData)), 1000);
    assert_eq!(opcode_gas_cost(&table(), byte(Opcode::SvmGetRent)), 100);
    assert_eq!(opcode_gas_cost(&table(), byte(Opcode::SvmGetClock)), 100);

    assert_eq!(opcode_gas_cost(&table(), byte(Opcode::Breakpoint)), 0);
    assert_eq!(opcode_gas_cost(&table(), byte(Opcode::Assert)), 5);
    assert_eq!(opcode_gas_cost(&table(), byte(Opcode::Panic)), 5);
}

#[test]
fn module_size_gate() {
    let options = VerifyOptions { on_chain: false, max_gas_per_function: 1_000, check_reachability: true, max_module_size: 4 };
    assert!(Verifier::verify_module_bytes(&[0, 1, 2, 3], &options).is_ok());
    let err = Verifier::verify_module_bytes(&[0, 1, 2, 3, 4], &options).unwrap_err();
    assert_eq!(err.kind, VerifierErrorKind::ModuleTooLarge(5, 4));
    assert_eq!(err.offset, None);
}
