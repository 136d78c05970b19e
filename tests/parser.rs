use vm16::chunk::Chunk;
use vm16::parser::{
    get_bracketed_expression, get_double_param_ins, get_expression, get_single_param_ins,
    parse_program, reduce_expression, upper_or_lower_str, Instruction, Operator, Parameter, Program,
};
use vm16::variable::{Type, Var};

#[test]
fn lib_test_mov_instruction() {
    let input = "mov 0x4f bh";
    let (_, ins) = get_double_param_ins(input).unwrap();

    assert_eq!(
        ins,
        Instruction {
            name: "mov".to_owned(),
            param1: Some(Parameter::Lit(79)),
            param2: Some(Parameter::RegU8(5)),
        }
    );

    let input = "add 0b1010011010 0o1232";
    let (_, ins) = get_double_param_ins(input).unwrap();

    assert_eq!(
        ins,
        Instruction {
            name: "add".to_owned(),
            param1: Some(Parameter::Lit(666)),
            param2: Some(Parameter::Lit(666)),
        }
    );
}

#[test]
fn main_test_mov_instruction() {
    let input = "mov 0x4f bh";
    let (_, ins) = get_double_param_ins(input).unwrap();

    assert_eq!(
        ins,
        Instruction::new("mov", Some(Parameter::Lit(79)), Some(Parameter::RegU8(5)))
    );

    let input = "add 0b1010011010 0o1232";
    let (_, ins) = get_double_param_ins(input).unwrap();

    assert_eq!(
        ins,
        Instruction::new("add", Some(Parameter::Lit(666)), Some(Parameter::Lit(666)))
    );
}

#[test]
fn test_inc_instruction() {
    let input = "inc bh";
    let (_, ins) = get_single_param_ins(input).unwrap();

    assert_eq!(
        ins,
        Instruction {
            name: "inc".to_owned(),
            param1: Some(Parameter::RegU8(5)),
            param2: None,
        }
    );
}

#[test]
fn operands_of_every_kind() {
    let (read, ins) = get_double_param_ins("MOV  :count\tACC  ; rest").unwrap();
    assert_eq!(read, 17);
    assert_eq!(ins.name, "mov");
    assert_eq!(ins.param1, Some(Parameter::Var("count".to_string())));
    assert_eq!(ins.param2, Some(Parameter::RegU16(1)));
    let (_, ins) = get_double_param_ins("xor ax 65535").unwrap();
    assert_eq!(ins.param1, Some(Parameter::RegU16(4)));
    assert_eq!(ins.param2, Some(Parameter::Lit(0xFFFF)));
}

#[test]
fn malformed_lines() {
    assert!(get_double_param_ins("mov 65536 ax").is_none());
    assert!(get_double_param_ins("mov ax").is_none());
    assert!(get_double_param_ins("movax bx").is_none());
    assert!(get_double_param_ins("foo ax bx").is_none());
    assert!(get_single_param_ins("inc sp").is_none());
    assert!(get_single_param_ins("inc").is_none());
    // `0x` without digits reads as the decimal 0, followed by `x`.
    assert!(get_double_param_ins("mov 0xg ax").is_none());
}

#[test]
fn reduce_plain_expression() {
    // 2 + 3 * 4 - 5 = 9, with the product first.
    let mut e = vec![
        Parameter::Lit(2),
        Parameter::Operator(Operator::Plus),
        Parameter::Lit(3),
        Parameter::Operator(Operator::Multiply),
        Parameter::Lit(4),
        Parameter::Operator(Operator::Minus),
        Parameter::Lit(5),
    ];
    assert_eq!(reduce_expression(&mut e), Some(9));
    assert_eq!(e, vec![Parameter::Lit(9)]);
}

#[test]
fn reduce_nested_expression() {
    // 0o5 * (7 - 0x04) - 0o2 = 13; 0 - 1 wraps to 0xFFFF.
    let mut e = vec![
        Parameter::Lit(5),
        Parameter::Operator(Operator::Multiply),
        Parameter::Expr(vec![
            Parameter::Lit(7),
            Parameter::Operator(Operator::Minus),
            Parameter::Lit(4),
        ]),
        Parameter::Operator(Operator::Minus),
        Parameter::Lit(2),
    ];
    assert_eq!(reduce_expression(&mut e), Some(13));
    let mut w = vec![Parameter::Lit(0), Parameter::Operator(Operator::Minus), Parameter::Lit(1)];
    assert_eq!(reduce_expression(&mut w), Some(0xFFFF));
}

#[test]
fn expression_with_variable_stays() {
    let mut e = vec![
        Parameter::Lit(66),
        Parameter::Operator(Operator::Plus),
        Parameter::Var("var".to_string()),
    ];
    assert_eq!(reduce_expression(&mut e), None);
    assert_eq!(e.len(), 3);
    let mut bad = vec![Parameter::Lit(1), Parameter::Operator(Operator::Plus)];
    assert_eq!(reduce_expression(&mut bad), None);
}

#[test]
fn chunk_keeps_lines() {
    let mut c = Chunk::new("code".to_string());
    c.insert_line("start:".to_string(), 3);
    c.insert_line("end".to_string(), 4);
    assert_eq!(c.name(), "code");
    assert_eq!(c.data(), vec![(3, "start:".to_string()), (4, "end".to_string())]);
}

#[test]
fn variable_accessors() {
    let mut v = Var::default();
    assert_eq!(*v.get_type(), Type::NoType);
    assert_eq!(v.type_len(), 0);
    v.set_type(Type::U16);
    assert_eq!(v.type_len(), 2);
    assert_eq!(Type::U8.type_len(), 1);
    let mut bytes = vec![1, 2];
    v.add_data(&mut bytes);
    assert!(bytes.is_empty());
    v.get_data_mut().push(3);
    assert_eq!(v.get_data(), &vec![1, 2, 3]);
    assert_eq!(v.data_len(), 3);
    v.set_location(0x20);
    assert_eq!(*v.get_location(), 0x20);
}

#[test]
fn lib_test_expr() {
    let input = "[0x42 + :var - 0o5 * 0b0010]";
    println!("{:?}", get_expression(input).unwrap().1);
}

#[test]
fn main_test_expr() {
    let input = "[0x42 + :var - 0o5 * 0b0010]";
    let (read, expr) = get_expression(input).unwrap();
    assert_eq!(read, input.len());
    assert_eq!(
        expr,
        Parameter::Expr(vec![
            Parameter::Lit(0x42),
            Parameter::Operator(Operator::Plus),
            Parameter::Var("var".to_string()),
            Parameter::Operator(Operator::Minus),
            Parameter::Lit(5),
            Parameter::Operator(Operator::Multiply),
            Parameter::Lit(2),
        ])
    );
}

#[test]
fn lib_test_expr_nrv() {
    let input = "[0x42 + :var * (0o5 * (7 - 0x04) - 0o2) - 0b0010]";
    let mut param = get_expression(input).unwrap().1;
    println!("{:?}", param);
    if let Parameter::Expr(expr) = &mut param {
        reduce_expression(expr);
        println!("{:?}", expr);
    }
}

#[test]
fn main_test_expr_nrv() {
    let input = "[0x42 + :var * (0o5 * (7 - 0x04) - 0o2) - 0b0010]";
    let param = get_expression(input).unwrap().1;
    let group = Parameter::Expr(vec![
        Parameter::Lit(5),
        Parameter::Operator(Operator::Multiply),
        Parameter::Expr(vec![
            Parameter::Lit(7),
            Parameter::Operator(Operator::Minus),
            Parameter::Lit(4),
        ]),
        Parameter::Operator(Operator::Minus),
        Parameter::Lit(2),
    ]);
    assert_eq!(
        param,
        Parameter::Expr(vec![
            Parameter::Lit(0x42),
            Parameter::Operator(Operator::Plus),
            Parameter::Var("var".to_string()),
            Parameter::Operator(Operator::Multiply),
            group,
            Parameter::Operator(Operator::Minus),
            Parameter::Lit(2),
        ])
    );
}

#[test]
fn bracketed_group_alone() {
    let (read, group) = get_bracketed_expression("( 3 * (1 + 1) )  rest").unwrap();
    assert_eq!(read, 17);
    if let Parameter::Expr(mut v) = group {
        assert_eq!(reduce_expression(&mut v), Some(6));
    } else {
        panic!("not a group");
    }
    assert!(get_bracketed_expression("(1 +)").is_none());
    assert!(get_bracketed_expression("(1 + 2").is_none());
    assert!(get_expression("[1 2]").is_none());
}

#[test]
fn expression_as_operand() {
    let (_, ins) = get_double_param_ins("mov [ 2 * 3 ] ah").unwrap();
    assert_eq!(
        ins.param1,
        Some(Parameter::Expr(vec![
            Parameter::Lit(2),
            Parameter::Operator(Operator::Multiply),
            Parameter::Lit(3),
        ]))
    );
    assert_eq!(ins.param2, Some(Parameter::RegU8(2)));
}

#[test]
fn test_program() {
    let input = r#"mov [0x42 + :var * (0o5 * (7 - 0x04) - 0o2) - 0b0010] ah
inc ah
mov ah bh"#;

    let program = parse_program(input).unwrap();

    let expr = vec![
        Parameter::Lit(66),
        Parameter::Operator(Operator::Plus),
        Parameter::Var(String::from("var")),
        Parameter::Operator(Operator::Multiply),
        Parameter::Lit(13),
        Parameter::Operator(Operator::Minus),
        Parameter::Lit(2),
    ];

    let ins1 = Instruction {
        name: "mov".to_owned(),
        param1: Some(Parameter::Expr(expr)),
        param2: Some(Parameter::RegU8(2)),
    };

    let ins2 = Instruction {
        name: "inc".to_owned(),
        param1: Some(Parameter::RegU8(2)),
        param2: None,
    };

    let ins3 = Instruction {
        name: "mov".to_owned(),
        param1: Some(Parameter::RegU8(2)),
        param2: Some(Parameter::RegU8(5)),
    };

    assert_eq!(
        program,
        Program {
            instructions: vec![ins1, ins2, ins3]
        }
    );
}

#[test]
fn program_reduces_constant_operands() {
    let program = parse_program("mov [2 * (3 + 1)] ax\r\nend 0\n").unwrap();
    assert_eq!(program.instructions.len(), 2);
    assert_eq!(program.instructions[0].param1, Some(Parameter::Expr(vec![Parameter::Lit(8)])));
    assert_eq!(program.instructions[1].name, "end");
    assert!(parse_program("mov ax bx\n\nend 0").is_none());
    assert_eq!(parse_program("").unwrap().instructions.len(), 0);
}

#[test]
fn lib_test_upper_string_ok() {
    let input_text = "mov x y";
    let input_text2 = "MOV X Y";

    let output = upper_or_lower_str("mov", input_text);
    let output2 = upper_or_lower_str("mov", input_text2);

    let expected = Some((" x y", "mov"));
    let expected2 = Some((" X Y", "MOV"));
    assert_eq!(output, expected);
    assert_eq!(output2, expected2);
}

#[test]
fn main_test_upper_string_ok() {
    let input_text = "mov x y";
    let input_text2 = "MOV X Y";

    let output = upper_or_lower_str("mov", input_text);
    let output2 = upper_or_lower_str("mov", input_text2);

    let expected = Some((" x y", "mov"));
    let expected2 = Some((" X Y", "MOV"));
    assert_eq!(output, expected);
    assert_eq!(output2, expected2);
    assert_eq!(upper_or_lower_str("MOV", "mOv"), Some(("", "mOv")));
    assert_eq!(upper_or_lower_str("mov", "mo"), None);
    assert_eq!(upper_or_lower_str("mov", "add x"), None);
}

#[test]
fn leading_constant_terms_fold() {
    let mut e = vec![
        Parameter::Lit(1),
        Parameter::Operator(Operator::Plus),
        Parameter::Lit(2),
        Parameter::Operator(Operator::Plus),
        Parameter::Var("v".to_string()),
    ];
    assert_eq!(reduce_expression(&mut e), None);
    assert_eq!(
        e,
        vec![Parameter::Lit(3), Parameter::Operator(Operator::Plus), Parameter::Var("v".to_string())]
    );
    // 2 * 3 - 1 folds to 5; the product with the variable stays.
    let mut f = vec![
        Parameter::Lit(2),
        Parameter::Operator(Operator::Multiply),
        Parameter::Lit(3),
        Parameter::Operator(Operator::Minus),
        Parameter::Lit(1),
        Parameter::Operator(Operator::Plus),
        Parameter::Var("v".to_string()),
        Parameter::Operator(Operator::Multiply),
        Parameter::Lit(2),
    ];
    assert_eq!(reduce_expression(&mut f), None);
    assert_eq!(f.len(), 5);
    assert_eq!(f[0], Parameter::Lit(5));
    // A variable first: nothing folds, so the value cannot change.
    let mut g = vec![
        Parameter::Var("v".to_string()),
        Parameter::Operator(Operator::Minus),
        Parameter::Lit(1),
        Parameter::Operator(Operator::Plus),
        Parameter::Lit(2),
    ];
    assert_eq!(reduce_expression(&mut g), None);
    assert_eq!(g.len(), 5);
}
