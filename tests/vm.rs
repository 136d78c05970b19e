use vm16::cpu::{ExecutionError, CPU};
use vm16::instructions::{
    ADD_REG_REG, AND_REG_LIT, DEC_REG, INC_REG, MOV_MEM_REG, AND_REG_REG, CALL_LIT, CMP_REG_LIT, END, JEQ_LIT, JEQ_REG, JGE_LIT,
    JGE_REG, JGT_LIT, JGT_REG, JLE_LIT, JLE_REG, JLT_LIT, JLT_REG, JMP_LIT, JMP_REG, JNE_LIT,
    JNE_REG, LSF_REG_LIT, LSF_REG_REG, MOV_LITOFF_REG, MOV_LIT_MEM16, MOV_LIT_REG, MOV_PTRREG_REG,
    MOV_REG_REG, MUL_REG_LIT, MUL_REG_REG, NOT, OR_REG_LIT, OR_REG_REG, POP_REG, PSH_LIT, PSH_REG,
    RET, RSF_REG_LIT, RSF_REG_REG, SUB_LIT_REG, SUB_REG_LIT, SUB_REG_REG, XOR_REG_LIT, XOR_REG_REG,
};
use vm16::memory::{Memory, MemoryError};
use vm16::registers::{ACC, AH, AL, AX, BH, BL, BX, CH, CL, CX, DH, DL, DX};

#[test]
fn test_cpu_register_test() {
    let mut cpu = CPU::default();

    cpu.set_register("ax", 0x0102).unwrap();
    cpu.set_register("bh", 0x03).unwrap();
    cpu.set_register("bl", 0x04).unwrap();

    assert_eq!(cpu.get_register("ah").unwrap(), 0x01);
    assert_eq!(cpu.get_register("al").unwrap(), 0x02);
    assert_eq!(cpu.get_register("bx").unwrap(), 0x0304);
}

#[test]
fn cpu_acc_test() {
    let mut cpu = CPU::default();

    let instructions = [
        MOV_LIT_REG, 0x00, 0x10, AX,
        MOV_LIT_REG, 0x00, 0x0A, BX,
        ADD_REG_REG, AX,   BX,
        MOV_LIT_REG, 0xFF, 0xFF, AX,
        MOV_LIT_REG, 0x00, 0x10, BX,
        ADD_REG_REG, AX,   BX,
    ];
    let expected = [0x001A, 0x000F];
    cpu.set_instruction(&instructions);

    for expected_val in &expected {
        for _ in 0..3 {
            cpu.step();
        }

        let acc = cpu.get_register("acc").unwrap();
        assert_eq!(*expected_val, acc);
    }
}

#[test]
fn cpu_jmp_xor_test() {
    let mut cpu = CPU::default();

    let instructions = [
        MOV_LIT_REG, 0x00, 0x01, BX,
        MOV_REG_REG, ACC,  AX,
        ADD_REG_REG, AX,   BX,
        CMP_REG_LIT, ACC,  0x00, 0x03,
        JNE_LIT,     0x00, 0x04,
        XOR_REG_REG, BX,   BX,
        END,
    ];

    cpu.set_instruction(&instructions);
    while cpu.step() {}
    assert_eq!(cpu.get_register("ax").unwrap(), 0x0002);
    assert_eq!(cpu.get_register("bx").unwrap(), 0x0000);
    assert_eq!(cpu.get_register("acc").unwrap(), 0x003);
}

#[test]
fn memory_test() {
    let mut m = Memory::new(0x40);
    m.set_memory_at_u8(0x01, 0x01).unwrap();
    m.set_memory_at_u8(0x05, 0x20).unwrap();

    assert_eq!(m.get_memory_at_u8(0x04).unwrap(), 0x00);
    assert_eq!(m.get_memory_at_u16(0x04).unwrap(), 0x0020);

    assert_eq!(m.get_memory_at_u8(0x01).unwrap(), 0x01);
    assert_eq!(m.get_memory_at_u16(0x01).unwrap(), 0x0100);

    assert_eq!(m.get_memory_at_u8(0x05).unwrap(), 0x20);
    assert_eq!(m.get_memory_at_u16(0x05).unwrap(), 0x2000);

    assert!(m.get_memory_at_u8(0x40).is_err());
}

#[test]
fn swap_registers_with_stack() {
    let mut cpu = CPU::default();
    let instructions = [
        MOV_LIT_REG, 0x00, 0x4F, AX,
        MOV_LIT_REG, 0xF4, 0x00, BX,
        PSH_REG,     AX,
        PSH_REG,     BX,
        POP_REG,     AX,
        POP_REG,     BX,
        END,
    ];

    cpu.set_instruction(&instructions);
    while cpu.step() {}

    assert_eq!(cpu.get_register("ax").unwrap(), 0xF400);
    assert_eq!(cpu.get_register("bx").unwrap(), 0x004F);
    assert_eq!(cpu.get_register("sp").unwrap(), 0xFFFE);
}

#[test]
fn test_offset() {
    let mut cpu = CPU::default();
    let instructions = [
        MOV_LIT_MEM16,  0x3, 0x00, 0x15, 0x00,
        MOV_LIT_REG, 0x01, 0x00, AX,
        MOV_LITOFF_REG, 0x14, 0x00, AX, BX,
        END,
    ];

    cpu.set_instruction(&instructions);
    while cpu.step() {}

    assert_eq!(cpu.get_register("ax").unwrap(), 0x0100);
    assert_eq!(cpu.get_register("bx").unwrap(), 0x0300);
    assert_eq!(cpu.get_register("bh").unwrap(), 0x03);
}

#[test]
fn test_offset2() {
    let mut cpu = CPU::default();
    let instructions = [
        MOV_LIT_MEM16,  0x3, 0x45, 0x15, 0x00,
        MOV_LIT_REG, 0x01, 0x00, AX,
        MOV_LITOFF_REG, 0x14, 0x00, AX, BH,
        END,
    ];

    cpu.set_instruction(&instructions);
    while cpu.step() {}

    assert_eq!(cpu.get_register("ax").unwrap(), 0x0100);
    assert_eq!(cpu.get_register("bh").unwrap(), 0x45);
}

#[test]
fn test_subtractions() {
    let mut cpu = CPU::default();
    let instructions = [
        MOV_LIT_REG,  0x00, 0x04, AH,
        MOV_LIT_REG, 0x00, 0x03, AL,
        SUB_REG_REG, AL, AH,
        END,
    ];

    cpu.set_instruction(&instructions);
    while cpu.step() {}

    assert_eq!(cpu.get_register("ah").unwrap(), 0x04);
    assert_eq!(cpu.get_register("al").unwrap(), 0x03);
    assert_eq!(cpu.get_register("ax").unwrap(), 0x0403);
    assert_eq!(cpu.get_register("acc").unwrap(), 0x0001);
}

#[test]
fn test_subtractions2() {
    let mut cpu = CPU::default();
    let instructions = [
        MOV_LIT_REG,  0x00, 0x04, AH,
        SUB_LIT_REG, 0x00, 0x03, AH,
        END,
    ];

    cpu.set_instruction(&instructions);
    while cpu.step() {}

    assert_eq!(cpu.get_register("ah").unwrap(), 0x04);
    assert_eq!(cpu.get_register("acc").unwrap(), 0x0001);
}

#[test]
fn test_subtractions3() {
    let mut cpu = CPU::default();
    let instructions = [
        MOV_LIT_REG,  0x00, 0x04, AH,
        SUB_REG_LIT, AH, 0x00, 0x05,
        END,
    ];

    cpu.set_instruction(&instructions);
    while cpu.step() {}

    assert_eq!(cpu.get_register("ah").unwrap(), 0x04);
    assert_eq!(cpu.get_register("acc").unwrap(), 0x0001);
}

#[test]
fn test_multiplication() {
    let mut cpu = CPU::default();
    let instructions = [
        MOV_LIT_REG,  0x00, 0x04, AH,
        MOV_LIT_REG, 0x00, 0x03, AL,
        MUL_REG_REG, AL, AH,
        END,
    ];

    cpu.set_instruction(&instructions);
    while cpu.step() {}

    assert_eq!(cpu.get_register("ah").unwrap(), 0x04);
    assert_eq!(cpu.get_register("al").unwrap(), 0x03);
    assert_eq!(cpu.get_register("ax").unwrap(), 0x0403);
    assert_eq!(cpu.get_register("acc").unwrap(), 0x000C);
}

#[test]
fn test_multiplication2() {
    let mut cpu = CPU::default();
    let instructions = [
        MOV_LIT_REG,  0x00, 0x04, AH,
        MUL_REG_LIT, AH, 0x00, 0x03,
        END,
    ];

    cpu.set_instruction(&instructions);
    while cpu.step() {}

    assert_eq!(cpu.get_register("ah").unwrap(), 0x04);
    assert_eq!(cpu.get_register("acc").unwrap(), 0x000C);
}

#[test]
fn test_shifts() {
    let mut cpu = CPU::default();
    let instructions = [
        MOV_LIT_REG,  0x00, 0x01, AL,
        MOV_LIT_REG,  0x00, 0x01, BL,
        MOV_LIT_REG,  0x00, 0x02, CL,
        LSF_REG_LIT, AL, 0x00, 0x02,
        RSF_REG_LIT, AL, 0x00, 0x02,
        LSF_REG_REG, BL, CL,
        RSF_REG_REG, BL, CL,
        END,
    ];

    cpu.set_instruction(&instructions);
    while cpu.step() {}

    assert_eq!(cpu.get_register("al").unwrap(), 0x01);
    assert_eq!(cpu.get_register("bl").unwrap(), 0x01);
    assert_eq!(cpu.get_register("cl").unwrap(), 0x02);
}

#[test]
fn test_and_or_xor_not() {
    let mut cpu = CPU::default();
    let instructions = [
        MOV_LIT_REG,  0x01, 0x01, AX,
        MOV_LIT_REG,  0x01, 0x01, BX,
        MOV_LIT_REG,  0x01, 0x01, CX,
        MOV_LIT_REG,  0x01, 0x01, DX,
        AND_REG_LIT, AH, 0x00, 0x03,
        OR_REG_LIT, AL, 0x00, 0x03,
        XOR_REG_LIT, BL, 0x00, 0x03,
        NOT, BH,
        AND_REG_REG, CH, AH,
        OR_REG_REG, CL, BL,
        XOR_REG_REG, DH, DL,
        END,
    ];

    cpu.set_instruction(&instructions);
    while cpu.step() {}

    assert_eq!(cpu.get_register("ax").unwrap(), 0x0103);
    assert_eq!(cpu.get_register("bx").unwrap(), 0xFE02);
    assert_eq!(cpu.get_register("cx").unwrap(), 0x0103);
    assert_eq!(cpu.get_register("dx").unwrap(), 0x0001);
}

#[test]
fn call_subroutine() {
    let mut cpu = CPU::default();
    let instructions = [
        MOV_LIT_REG, 0x11, 0x11, AX,
        MOV_LIT_REG, 0x33, 0x33, CX,
        PSH_LIT, 0x22, 0x22,
        CALL_LIT, 0x00, 0x18,
        POP_REG, BX,
        END,
        0x00, 0x00, 0x00, 0x00,
        0x00, 0x00, 0x00,
        PSH_LIT, 0xAB, 0xCD,
        PSH_LIT, 0x12, 0x34,
        MOV_LIT_REG, 0xFF, 0xFF, BX,
        MOV_LIT_REG, 0xFF, 0xFF, CX,
        RET,
    ];

    cpu.set_instruction(&instructions);
    while cpu.step() {}

    assert_eq!(cpu.get_register("ax").unwrap(), 0x1111);
    assert_eq!(cpu.get_register("bx").unwrap(), 0x2222);
    assert_eq!(cpu.get_register("cx").unwrap(), 0x3333);
    assert_eq!(cpu.get_register("dx").unwrap(), 0x0000);
}

#[test]
fn jump_unconditional() {
    let mut cpu = CPU::default();
    let instructions = [
        MOV_LIT_REG, 0x00, 0x11, AX,
        JMP_LIT, 0x00, 0x0B,
        MOV_LIT_REG, 0x00, 0x01, BH,
        JMP_REG, AX,
        MOV_LIT_REG, 0x00, 0x01, BL,
        END,
    ];

    cpu.set_instruction(&instructions);
    while cpu.step() {}

    assert_eq!(cpu.get_register("bx").unwrap(), 0x0000);
}

fn jump_code(ins_lit: u8, ins_reg: u8) -> Vec<u8> {
    vec![
        MOV_LIT_REG, 0x00, 0x2F, AX,
        CMP_REG_LIT, AX, 0x00, 0x30,
        ins_lit, 0x00, 0x0F,
        MOV_LIT_REG, 0x00, 0x01, BH,
        CMP_REG_LIT, AX, 0x00, 0x2F,
        ins_lit, 0x00, 0x1A,
        MOV_LIT_REG, 0x00, 0x01, CH,
        CMP_REG_LIT, AX, 0x00, 0x20,
        ins_lit, 0x00, 0x25,
        MOV_LIT_REG, 0x00, 0x01, DH,

        CMP_REG_LIT, AX, 0x00, 0x30,
        ins_reg, AX,
        MOV_LIT_REG, 0x00, 0x01, BL,
        MOV_LIT_REG, 0x00, 0x3D, AX,
        CMP_REG_LIT, AX, 0x00, 0x3D,
        ins_reg, AX,
        MOV_LIT_REG, 0x00, 0x01, CL,
        MOV_LIT_REG, 0x00, 0x4B, AX,
        CMP_REG_LIT, AX, 0x00, 0x40,
        ins_reg, AX,
        MOV_LIT_REG, 0x00, 0x01, DL,
        END,
    ]
}

#[test]
fn jump_equal() {
    let mut cpu = CPU::default();
    let instructions = jump_code(JEQ_LIT, JEQ_REG);

    cpu.set_instruction(&instructions);
    while cpu.step() {}

    assert_eq!(cpu.get_register("bx").unwrap(), 0x0101);
    assert_eq!(cpu.get_register("cx").unwrap(), 0x0000);
    assert_eq!(cpu.get_register("dx").unwrap(), 0x0101);
}

#[test]
fn jump_not_equal() {
    let mut cpu = CPU::default();
    let instructions = jump_code(JNE_LIT, JNE_REG);

    cpu.set_instruction(&instructions);
    while cpu.step() {}

    assert_eq!(cpu.get_register("bx").unwrap(), 0x0000);
    assert_eq!(cpu.get_register("cx").unwrap(), 0x0101);
    assert_eq!(cpu.get_register("dx").unwrap(), 0x0000);
}

#[test]
fn jump_greater_than() {
    let mut cpu = CPU::default();
    let instructions = jump_code(JGT_LIT, JGT_REG);

    cpu.set_instruction(&instructions);
    while cpu.step() {}

    assert_eq!(cpu.get_register("bx").unwrap(), 0x0101);
    assert_eq!(cpu.get_register("cx").unwrap(), 0x0101);
    assert_eq!(cpu.get_register("dx").unwrap(), 0x0000);
}

#[test]
fn jump_greater_or_equal() {
    let mut cpu = CPU::default();
    let instructions = jump_code(JGE_LIT, JGE_REG);

    cpu.set_instruction(&instructions);
    while cpu.step() {}

    assert_eq!(cpu.get_register("bx").unwrap(), 0x0101);
    assert_eq!(cpu.get_register("cx").unwrap(), 0x0000);
    assert_eq!(cpu.get_register("dx").unwrap(), 0x0000);
}

#[test]
fn jump_lower_than() {
    let mut cpu = CPU::default();
    let instructions = jump_code(JLT_LIT, JLT_REG);

    cpu.set_instruction(&instructions);
    while cpu.step() {}

    assert_eq!(cpu.get_register("bx").unwrap(), 0x0000);
    assert_eq!(cpu.get_register("cx").unwrap(), 0x0101);
    assert_eq!(cpu.get_register("dx").unwrap(), 0x0101);
}

#[test]
fn jump_lower_or_equal() {
    let mut cpu = CPU::default();
    let instructions = jump_code(JLE_LIT, JLE_REG);

    cpu.set_instruction(&instructions);
    while cpu.step() {}

    assert_eq!(cpu.get_register("bx").unwrap(), 0x0000);
    // JLE tests the sign flag alone, so the two equal comparisons fall through.
    assert_eq!(cpu.get_register("cx").unwrap(), 0x0101);
    assert_eq!(cpu.get_register("dx").unwrap(), 0x0101);
}

#[test]
fn register_aliasing_program() {
    let mut cpu = CPU::new();
    cpu.set_instruction(&[MOV_LIT_REG, 0x01, 0x02, AX, END]);
    while cpu.step() {}
    assert_eq!(cpu.get_register("ah").unwrap(), 0x01);
    assert_eq!(cpu.get_register("al").unwrap(), 0x02);
    assert_eq!(cpu.get_register("bx").unwrap(), 0x0000);
}

#[test]
fn basic_add_clears_carry() {
    let mut cpu = CPU::new();
    cpu.set_instruction(&[
        MOV_LIT_REG, 0x00, 0x10, AX,
        MOV_LIT_REG, 0x00, 0x0A, BX,
        ADD_REG_REG, AX, BX,
        END,
    ]);
    while cpu.step() {}
    assert_eq!(cpu.get_register("acc").unwrap(), 0x001A);
    assert!(!cpu.flag_carry());
    assert!(!cpu.flag_zero());
    assert!(!cpu.flag_neg());
}

#[test]
fn overflow_add_sets_carry() {
    let mut cpu = CPU::new();
    cpu.set_instruction(&[
        MOV_LIT_REG, 0xFF, 0xFF, AX,
        MOV_LIT_REG, 0x00, 0x10, BX,
        ADD_REG_REG, AX, BX,
        END,
    ]);
    while cpu.step() {}
    assert_eq!(cpu.get_register("acc").unwrap(), 0x000F);
    assert!(cpu.flag_carry());
}

#[test]
fn negative_flag_uses_operation_width() {
    let mut cpu = CPU::new();
    // 0x0080 in a 16-bit register is not negative; 0x80 in a half is.
    cpu.set_instruction(&[MOV_LIT_REG, 0x00, 0x80, AX, END]);
    cpu.step();
    assert!(!cpu.flag_neg());
    let mut cpu = CPU::new();
    cpu.set_instruction(&[MOV_LIT_REG, 0x00, 0x80, AL, END]);
    cpu.step();
    assert!(cpu.flag_neg());
    assert_eq!(cpu.flags(), 2);
}

#[test]
fn compare_equal_sets_zero_only() {
    let mut cpu = CPU::new();
    cpu.set_instruction(&[MOV_LIT_REG, 0x00, 0x05, AX, CMP_REG_LIT, AX, 0x00, 0x05, END]);
    cpu.step();
    cpu.step();
    assert_eq!(cpu.flags(), 1);
    assert_eq!(cpu.get_register("acc").unwrap(), 0);
}

#[test]
fn inc_and_dec_carry_at_register_width() {
    let mut cpu = CPU::new();
    cpu.set_instruction(&[MOV_LIT_REG, 0x00, 0xFF, AL, INC_REG, AL, DEC_REG, BL, END]);
    cpu.step();
    cpu.step();
    assert_eq!(cpu.get_register("al").unwrap(), 0x00);
    assert!(cpu.flag_zero());
    assert!(cpu.flag_carry());
    cpu.step();
    assert_eq!(cpu.get_register("bl").unwrap(), 0xFF);
    assert!(cpu.flag_carry());
    assert!(cpu.flag_neg());
    assert_eq!(cpu.get_register("bx").unwrap(), 0x00FF);
}

#[test]
fn call_then_return_restores_registers() {
    let mut cpu = CPU::new();
    cpu.set_instruction(&[
        MOV_LIT_REG, 0x12, 0x34, DX,
        CALL_LIT, 0x00, 0x0A,
        END,
        0x00, 0x00,
        MOV_LIT_REG, 0x00, 0x00, DX,
        RET,
    ]);
    cpu.step();
    cpu.step();
    assert_eq!(cpu.get_register("ip").unwrap(), 0x000A);
    assert_eq!(cpu.get_register("sp").unwrap(), 0xFFFE - 20);
    cpu.step();
    assert_eq!(cpu.get_register("dx").unwrap(), 0);
    cpu.step();
    assert_eq!(cpu.get_register("dx").unwrap(), 0x1234);
    assert_eq!(cpu.get_register("ip").unwrap(), 0x0007);
    assert_eq!(cpu.get_register("sp").unwrap(), 0xFFFE);
    // FP takes the saved frame size: 9 saved registers and the size cell.
    assert_eq!(cpu.get_register("fp").unwrap(), 20);
    assert!(!cpu.step());
}

#[test]
fn unknown_register_name() {
    let mut cpu = CPU::new();
    assert_eq!(cpu.get_register("zz"), Err(MemoryError::NoRegister("zz".to_string())));
    assert!(cpu.set_register("r1", 3).is_err());
}

#[test]
fn execution_errors() {
    let mut cpu = CPU::new();
    cpu.set_instruction(&[0x01, MOV_PTRREG_REG, AH, BX, POP_REG, AX, END]);
    let op = cpu.fetch_u8().unwrap();
    assert_eq!(cpu.execute(op), Err(ExecutionError::UnexpectedInstruction(0x01)));
    let op = cpu.fetch_u8().unwrap();
    assert_eq!(cpu.execute(op), Err(ExecutionError::BadRegisterPtrLen));
    let op = cpu.fetch_u8().unwrap();
    assert_eq!(cpu.execute(op), Err(ExecutionError::BadReturn));
    let op = cpu.fetch_u8().unwrap();
    assert_eq!(cpu.execute(op), Err(ExecutionError::EndOfExecution));
}

#[test]
fn stack_push_out_of_memory() {
    let mut cpu = CPU::new();
    cpu.set_register("sp", 0xFFFF).unwrap();
    cpu.set_instruction(&[PSH_LIT, 0x00, 0x01, END]);
    let op = cpu.fetch_u8().unwrap();
    assert_eq!(
        cpu.execute(op),
        Err(ExecutionError::InternalMemoryError(MemoryError::OutOfBounds(0x1_0000)))
    );
}

#[test]
fn screen_write_prints() {
    let mut cpu = CPU::new();
    // Clear the screen, then put 'A' in the second cell of the second row.
    cpu.set_instruction(&[MOV_LIT_MEM16, 0xFF, 0x41, 0x30, 0x41, END]);
    while cpu.step() {}
    let out = cpu.take_output();
    assert_eq!(out, b"\x1b[2J\x1b[1;1H\x1b[1E\x1b[2GA".to_vec());
    assert!(cpu.take_output().is_empty());
}

#[test]
fn screen_reads_zero() {
    let mut cpu = CPU::new();
    cpu.set_instruction(&[MOV_LIT_REG, 0x12, 0x34, AX, MOV_MEM_REG, 0x30, 0x00, AX, END]);
    while cpu.step() {}
    assert_eq!(cpu.get_register("ax").unwrap(), 0);
}

#[test]
fn set_then_get_every_register() {
    let names = [
        "ip", "acc", "ah", "al", "ax", "bh", "bl", "bx", "ch", "cl", "cx", "dh", "dl", "dx",
        "ex", "fx", "gx", "hx", "sp", "fp",
    ];
    for name in names {
        let mut cpu = CPU::new();
        cpu.set_register(name, 0xABCD).unwrap();
        let half = name.len() == 2 && (name.ends_with('h') || name.ends_with('l'));
        let expected = if half { 0x00CD } else { 0xABCD };
        assert_eq!(cpu.get_register(name).unwrap(), expected, "{}", name);
    }
}

#[test]
fn halves_follow_their_parent() {
    for (whole, high, low) in [("ax", "ah", "al"), ("bx", "bh", "bl"), ("cx", "ch", "cl"), ("dx", "dh", "dl")] {
        let mut cpu = CPU::new();
        cpu.set_register(whole, 0x8F31).unwrap();
        assert_eq!(cpu.get_register(high).unwrap(), 0x8F);
        assert_eq!(cpu.get_register(low).unwrap(), 0x31);
        cpu.set_register(low, 0x1FF).unwrap();
        assert_eq!(cpu.get_register(whole).unwrap(), 0x8FFF);
    }
}
