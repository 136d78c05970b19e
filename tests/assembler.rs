use vm16::assembler::{
    chunks_of, section_kind, AsmError, CodeError, CodeParser, DataParser, Expect, Ins, LineError, Param,
    SectionKind,
};
use vm16::cpu::CPU;
use vm16::instructions::{
    CALL_LIT, CMP_REG_LIT, END, JMP_LIT, JNE_LIT, MOV_LIT_MEM16, MOV_LIT_REG, MOV_MEM_REG,
    MOV_PTRREG_REG, PSH_PTRREG16, RET, XOR_REG_LIT,
};
use vm16::registers::{ACC, AX, BX};

fn assemble(source: &str) -> Result<Vec<u8>, AsmError> {
    let mut code = None;
    let mut data = None;
    for chunk in chunks_of(source) {
        match section_kind(chunk.name()) {
            SectionKind::Code => code = Some(CodeParser::new(chunk)?),
            SectionKind::Data => data = Some(DataParser::new(chunk)?),
            SectionKind::Other => return Err(AsmError::UnknownSection(chunk.name().clone())),
        }
    }
    code.expect("code section").get_vec(data)
}

#[test]
fn operand_tokens() {
    assert_eq!(Param::build_with_value("0x4F"), Param::Lit(0x4F));
    assert_eq!(Param::build_with_value("#0b101"), Param::Mem(5));
    assert_eq!(Param::build_with_value("#12"), Param::Mem(12));
    assert_eq!(Param::build_with_value("7"), Param::Lit(7));
    assert_eq!(Param::build_with_value("AX"), Param::Reg(AX));
    assert_eq!(Param::build_with_value("*bx"), Param::Ptr(Box::new(Param::Reg(BX))));
    assert_eq!(Param::build_with_value("loop"), Param::Flag("loop".to_string()));
    assert_eq!(Param::build_with_value("LOOP"), Param::Flag("loop".to_string()));
    assert_eq!(Param::build_with_value("0o17"), Param::Lit(15));
    assert_eq!(Param::build_with_value("#0O20"), Param::Mem(16));
    assert_eq!(Param::build_with_value("0o8"), Param::Flag("0o8".to_string()));
    assert_eq!(Param::build_with_value("70000"), Param::Flag("70000".to_string()));
    assert_eq!(Param::build_with_value("*bx").param_len(), 1);
    assert_eq!(Param::build_with_value("loop").param_len(), 2);
}

#[test]
fn source_lines() {
    assert_eq!(
        Ins::build_with_line("  MOV 0x10  ax ; rest"),
        Ok(Ins::Mov(Param::Lit(0x10), Param::Reg(AX)))
    );
    assert_eq!(Ins::build_with_line("start:"), Ok(Ins::Flag("start".to_string())));
    assert_eq!(Ins::build_with_line("A:"), Ok(Ins::Flag("a".to_string())));
    assert_eq!(Ins::build_with_line("ret"), Ok(Ins::Ret));
    assert_eq!(Ins::build_with_line("   "), Err(LineError::Empty));
    assert_eq!(Ins::build_with_line("foo ax"), Err(LineError::UnknownMnemonic));
    assert_eq!(Ins::build_with_line("mov ax"), Err(LineError::MissingOperand));
    assert_eq!(Ins::build_with_line("jne 3 loop").unwrap().ins_len(), 7);
    assert_eq!(Ins::build_with_line("mov 1 #0x20").unwrap().ins_len(), 5);
}

#[test]
fn instruction_code() {
    let labels = vec![("loop".to_string(), 0x0004)];
    let vars = vec![("msg".to_string(), 0x0002)];
    let code = |line: &str| Ins::build_with_line(line).unwrap().get_code(&labels, &vars, 0x0100);
    assert_eq!(code("mov 0x1234 ax").unwrap(), vec![MOV_LIT_REG, 0x12, 0x34, AX]);
    assert_eq!(code("mov 1 *msg").unwrap(), vec![MOV_LIT_MEM16, 0x00, 0x01, 0x01, 0x02]);
    assert_eq!(code("mov msg ax").unwrap(), vec![MOV_LIT_REG, 0x01, 0x02, AX]);
    assert_eq!(code("mov *msg ax").unwrap(), vec![MOV_MEM_REG, 0x01, 0x02, AX]);
    assert_eq!(code("mov *ax bx").unwrap(), vec![MOV_PTRREG_REG, AX, BX]);
    assert_eq!(code("jmp loop").unwrap(), vec![JMP_LIT, 0x00, 0x04]);
    assert_eq!(code("jne 3 loop").unwrap(), vec![CMP_REG_LIT, ACC, 0x00, 0x03, JNE_LIT, 0x00, 0x04]);
    assert_eq!(code("psh *bx").unwrap(), vec![PSH_PTRREG16, BX]);
    assert_eq!(code("xor ax 0xFF").unwrap(), vec![XOR_REG_LIT, AX, 0x00, 0xFF]);
    assert!(code("jmp nowhere").is_err());
    assert!(code("mov nothing ax").is_err());
    assert!(code("inc 5").is_err());
}

#[test]
fn code_starts_at_start_label() {
    let source = "; demo\n.code\nhelper:\n  ret\nstart:\n  cal helper\n  jmp start\n  end\n";
    let program = assemble(source).unwrap();
    // Laid out from `start`: cal (3), jmp (3), end (1), then helper's ret.
    assert_eq!(
        program,
        vec![CALL_LIT, 0x00, 0x07, JMP_LIT, 0x00, 0x00, END, RET]
    );
}

#[test]
fn assembler_errors() {
    assert_eq!(assemble(".code\nmov 1 ax\nend"), Err(AsmError::MissingStart));
    assert_eq!(
        assemble(".code\nstart:\nstart:\nend"),
        Err(AsmError::DuplicateLabel("start".to_string(), 3))
    );
    assert_eq!(assemble(".code\nstart:\nfoo\n"), Err(AsmError::UnknownMnemonic(3)));
    assert_eq!(
        assemble(".code\nstart:\njmp away\n"),
        Err(AsmError::UnresolvedLabel("away".to_string()))
    );
    assert_eq!(
        assemble(".code\nstart:\nend\n.data\nx u32 1\n"),
        Err(AsmError::UnknownType(5))
    );
    assert_eq!(
        assemble(".other\n"),
        Err(AsmError::UnknownSection("other".to_string()))
    );
}

#[test]
fn data_section() {
    let chunks = chunks_of(".data\nbytes u8 1, 0x102, 0b11\nwords U16 0x1234, \"hi\"\n");
    assert_eq!(chunks.len(), 1);
    let data = DataParser::new(chunks.into_iter().next().unwrap()).unwrap();
    assert_eq!(data.data_len(), 3 + 6);
    assert_eq!(data.var_table(), vec![("bytes".to_string(), 0), ("words".to_string(), 3)]);
    assert_eq!(*data.vars()[1].1.get_location(), 3);
    assert_eq!(data.get_vec(), vec![1, 0x02, 3, 0x12, 0x34, 0x00, b'h', 0x00, b'i']);
    let bad = DataParser::new(chunks_of(".data\nx u8 1 2\n").into_iter().next().unwrap());
    assert_eq!(bad.err(), Some(AsmError::ParseError(2)));
    let twice = DataParser::new(chunks_of(".data\nx u8 1\nx u8 2\n").into_iter().next().unwrap());
    assert_eq!(twice.err(), Some(AsmError::DuplicateLabel("x".to_string(), 3)));
    assert!(Expect::Value.match_with(5));
    assert!(!Expect::Separator.match_with(7));
}

#[test]
fn assembled_program_runs() {
    let source = "\
.code
start:
    mov val ax
    mov *val bx
    inc ax
    add ax bx
    end
.data
val u16 0x0005
";
    let program = assemble(source).unwrap();
    assert_eq!(program[0], MOV_LIT_REG);
    assert_eq!(program[program.len() - 2..].to_vec(), vec![0x00, 0x05]);
    let mut cpu = CPU::new();
    cpu.set_instruction(&program);
    while cpu.step() {}
    // `val` sits after 4 + 4 + 2 + 3 + 1 = 14 bytes of code.
    assert_eq!(cpu.get_register("ax").unwrap(), 15);
    assert_eq!(cpu.get_register("bx").unwrap(), 5);
    assert_eq!(cpu.get_register("acc").unwrap(), 20);
}

#[test]
fn sections_keep_numbered_lines() {
    let chunks = chunks_of("mov 1 ax\n.code\r\n  start:  \r\n\n; note\n  end\n.data\n");
    assert_eq!(chunks.len(), 2);
    assert_eq!(chunks[0].name(), "code");
    assert_eq!(chunks[1].name(), "data");
    let lines = chunks.into_iter().next().unwrap().data();
    assert_eq!(lines, vec![(3, "start:".to_string()), (6, "end".to_string())]);
    assert_eq!(section_kind(&"code".to_string()), SectionKind::Code);
    assert_eq!(section_kind(&"text".to_string()), SectionKind::Other);
}

#[test]
fn labels_ignore_case() {
    let program = assemble(".code\nStart:\n  jmp LOOP\nLoop:\n  end\n").unwrap();
    assert_eq!(program, vec![JMP_LIT, 0x00, 0x03, END]);
}

#[test]
fn error_kinds() {
    assert_eq!(assemble(".code\nstart:\nmov ax\n"), Err(AsmError::ParseError(3)));
    assert_eq!(
        assemble(".code\nstart:\nmov 1 *x\nend\n.data\ny u8 1\n"),
        Err(AsmError::UnknownVariable("x".to_string()))
    );
    assert_eq!(assemble(".code\nstart:\ninc 5\n"), Err(AsmError::ParseError(3)));
    let labels: Vec<(String, u16)> = vec![];
    assert_eq!(
        Ins::build_with_line("cal far").unwrap().get_code(&labels, &labels, 0),
        Err(CodeError::UnresolvedLabel("far".to_string()))
    );
    assert_eq!(
        Ins::build_with_line("pop 3").unwrap().get_code(&labels, &labels, 0),
        Err(CodeError::BadOperands)
    );
}
