use mic1::codec::{fast_decode, fast_encode};
use mic1::compiler::compile_with_terminator;
use mic1::loader::{create_processor, create_processor_from_info, PROGRAM_START, STACK_START};
use mic1::parser::parse;
use mic1::processor::Mic1;

#[test]
fn add() {
    let commands = parse("IADD").unwrap();
    let mut mic1 = create_processor(&commands, vec![1, 2], [0; 10]);
    mic1.run(commands.len() + 1, PROGRAM_START).unwrap();

    let tos_res = fast_encode(&mic1.tos.read(true));
    assert_eq!(3, tos_res)
}

#[test]
fn add2() {
    let commands = parse("IADD").unwrap();
    let mut mic1 = create_processor(&commands, vec![10, 20], [0; 10]);
    mic1.run(commands.len() + 1, PROGRAM_START).unwrap();

    let tos_res = fast_encode(&mic1.tos.read(true));
    assert_eq!(30, tos_res)
}

#[test]
fn main_iload() {
    let commands = parse("ILOAD 0x00").unwrap();
    let mut mic1 = create_processor(&commands, vec![10, 20], [0; 10]);
    mic1.run(commands.len() + 1, PROGRAM_START).unwrap();

    let tos_res = fast_encode(&mic1.tos.read(true));
    assert_eq!(10, tos_res)
}

#[test]
fn iload2() {
    let commands = parse("ILOAD 0x01").unwrap();
    let mut mic1 = create_processor(&commands, vec![10, 20, 30], [0; 10]);
    mic1.run(commands.len() + 1, PROGRAM_START).unwrap();

    let tos_res = fast_encode(&mic1.tos.read(true));
    assert_eq!(20, tos_res)
}

#[test]
fn sub() {
    let commands = parse("ISUB").unwrap();
    let mut mic1 = create_processor(&commands, vec![2, 1], [0; 10]);
    mic1.run(commands.len() + 1, PROGRAM_START).unwrap();

    let tos_res = fast_encode(&mic1.tos.read(true));
    assert_eq!(1, tos_res)
}

#[test]
fn sub2() {
    let commands = parse("ISUB").unwrap();
    let mut mic1 = create_processor(&commands, vec![20, 10], [0; 10]);
    mic1.run(commands.len() + 1, PROGRAM_START).unwrap();

    let tos_res = fast_encode(&mic1.tos.read(true));
    assert_eq!(10, tos_res)
}

#[test]
fn bipush() {
    let commands = parse("BIPUSH 0x01").unwrap();
    let mut mic1 = create_processor(&commands, vec![], [0; 10]);
    mic1.run(commands.len() + 1, PROGRAM_START).unwrap();

    let tos_res = fast_encode(&mic1.tos.read(true));
    assert_eq!(0x01, tos_res)
}

#[test]
fn bipush2() {
    let commands = parse("BIPUSH 0x0B").unwrap();
    let mut mic1 = create_processor(&commands, vec![], [0; 10]);
    mic1.run(commands.len() + 1, PROGRAM_START).unwrap();

    let tos_res = fast_encode(&mic1.tos.read(true));
    assert_eq!(11, tos_res)
}

#[test]
fn swap() {
    let commands = parse("SWAP").unwrap();
    let mut mic1 = create_processor(&commands, vec![1, 2], [0; 10]);
    mic1.run(commands.len() + 1, PROGRAM_START).unwrap();

    assert_stack(vec![2, 1], &mic1)
}

#[test]
fn swap1() {
    let commands = parse("SWAP").unwrap();
    let mut mic1 = create_processor(&commands, vec![1, 2, 3, 4, 5], [0; 10]);
    mic1.run(commands.len() + 1, PROGRAM_START).unwrap();

    assert_stack(vec![1, 2, 3, 5, 4], &mic1)
}

#[test]
fn dup() {
    let commands = parse("DUP").unwrap();
    let mut mic1 = create_processor(&commands, vec![1, 2, 3, 4, 5], [0; 10]);
    mic1.run(commands.len() + 1, PROGRAM_START).unwrap();

    assert_stack(vec![1, 2, 3, 4, 5, 5], &mic1)
}

#[test]
fn dup2() {
    let commands = parse("DUP").unwrap();
    let mut mic1 = create_processor(&commands, vec![1], [0; 10]);
    mic1.run(commands.len() + 1, PROGRAM_START).unwrap();

    assert_stack(vec![1, 1], &mic1)
}

#[test]
fn pop() {
    let commands = parse("POP").unwrap();
    let mut mic1 = create_processor(&commands, vec![1, 2, 3, 4, 5], [0; 10]);
    mic1.run(commands.len() + 1, PROGRAM_START).unwrap();

    assert_stack(vec![1, 2, 3, 4], &mic1)
}

#[test]
fn pop2() {
    let commands = parse("POP").unwrap();
    let mut mic1 = create_processor(&commands, vec![1, 2], [0; 10]);
    mic1.run(commands.len() + 1, PROGRAM_START).unwrap();

    assert_stack(vec![1], &mic1)
}

#[test]
fn istore() {
    let commands = parse("ISTORE 0x1").unwrap();
    let mut mic1 = create_processor(&commands, vec![1, 2, 3, 4], [0; 10]);
    mic1.run(commands.len() + 1, PROGRAM_START).unwrap();

    assert_stack(vec![1, 4, 3], &mic1)
}

#[test]
fn istore1() {
    let commands = parse("ISTORE 0x0").unwrap();
    let mut mic1 = create_processor(&commands, vec![1, 2, 3, 4, 5], [0; 10]);
    mic1.run(commands.len() + 1, PROGRAM_START).unwrap();

    assert_stack(vec![5, 2, 3, 4], &mic1)
}

#[test]
fn wide_iload() {
    let commands = parse("WIDE\nILOAD 0x0 0x0").unwrap();
    let mut mic1 = create_processor(&commands, vec![1, 2, 3, 4, 5], [0; 10]);
    mic1.run(commands.len() + 1, PROGRAM_START).unwrap();

    assert_stack(vec![1, 2, 3, 4, 5, 1], &mic1)
}

#[test]
fn wide_iload2() {
    let commands = parse("WIDE\nILOAD 0x0 0x1").unwrap();
    let mut mic1 = create_processor(&commands, vec![1, 2, 3, 4, 5], [0; 10]);
    mic1.run(commands.len() + 1, PROGRAM_START).unwrap();

    assert_stack(vec![1, 2, 3, 4, 5, 2], &mic1)
}

#[test]
fn wide_istore() {
    let commands = parse("WIDE\nISTORE 0x0 0x0").unwrap();
    let mut mic1 = create_processor(&commands, vec![1, 2, 3, 4, 5], [0; 10]);
    mic1.run(commands.len() + 1, PROGRAM_START).unwrap();

    assert_stack(vec![5, 2, 3, 4], &mic1)
}

#[test]
fn wide_istore2() {
    let commands = parse("WIDE\nISTORE 0x0 0x1").unwrap();
    let mut mic1 = create_processor(&commands, vec![1, 2, 3, 4, 5], [0; 10]);
    mic1.run(commands.len() + 1, PROGRAM_START).unwrap();

    assert_stack(vec![1, 5, 3, 4], &mic1)
}

#[test]
fn ldc_w() {
    let commands = parse("LDC_W 0x00 0x00").unwrap();
    let constants = [1, 2, 3, 4, 0, 0, 0, 0, 0, 0];
    let mut mic1 = create_processor(&commands, vec![1, 2], constants);
    mic1.run(commands.len() + 1, PROGRAM_START).unwrap();

    assert_stack(vec![1, 2, 1], &mic1)
}

#[test]
fn ldc_w2() {
    let commands = parse("LDC_W 0x00 0x02").unwrap();
    let constants = [1, 2, 3, 4, 0, 0, 0, 0, 0, 0];
    let mut mic1 = create_processor(&commands, vec![1, 2], constants);
    mic1.run(commands.len() + 1, PROGRAM_START).unwrap();

    assert_stack(vec![1, 2, 3], &mic1)
}

#[test]
fn ldc_w3() {
    let commands = parse("LDC_W 0x00 0x05").unwrap();
    let constants = [1, 2, 3, 4, 5, 6, 0, 0, 0, 0];
    let mut mic1 = create_processor(&commands, vec![1, 2], constants);
    mic1.run(commands.len() + 1, PROGRAM_START).unwrap();

    assert_stack(vec![1, 2, 6], &mic1)
}

#[test]
fn iinc() {
    let commands = parse("IINC 0x00 0x05").unwrap();
    let mut mic1 = create_processor(&commands, vec![1, 2], [0; 10]);
    mic1.run(commands.len() + 1, PROGRAM_START).unwrap();

    assert_stack(vec![6, 2], &mic1)
}

#[test]
fn iinc2() {
    let commands = parse("IINC 0x02 0x05").unwrap();
    let mut mic1 = create_processor(&commands, vec![1, 2, 3, 4], [0; 10]);
    mic1.run(commands.len() + 1, PROGRAM_START).unwrap();

    assert_stack(vec![1, 2, 8, 4], &mic1)
}

#[test]
fn goto() {
    let commands = parse("GOTO 0x00 0x03\nIINC 0x00 0x01\nIADD").unwrap();
    let mut mic1 = create_processor(&commands, vec![1, 2, 3, 4], [0; 10]);
    mic1.run(commands.len() + 1, PROGRAM_START).unwrap();

    assert_stack(vec![2, 2, 7], &mic1)
}

#[test]
fn goto2() {
    let commands = parse("GOTO 0x00 0x05\nIINC 0x00 0x01\nIADD").unwrap();
    let mut mic1 = create_processor(&commands, vec![1, 2, 3, 4], [0; 10]);
    mic1.run(commands.len() + 1, PROGRAM_START).unwrap();

    assert_stack(vec![1, 2, 7], &mic1)
}

#[test]
fn iflt() {
    let commands = parse("IFLT 0x00 0x05\nIINC 0x00 0x01\nIADD").unwrap();
    let mut mic1 = create_processor(&commands, vec![1, 2, 3, 4], [0; 10]);
    mic1.run(commands.len() + 1, PROGRAM_START).unwrap();

    assert_stack(vec![2, 5], &mic1)
}

#[test]
fn iflt1() {
    let commands = parse("IFLT 0x00 0x05\nIINC 0x00 0x01\nIADD").unwrap();
    let mut mic1 = create_processor(&commands, vec![1, 2, 3, -4], [0; 10]);
    mic1.run(commands.len() + 1, PROGRAM_START).unwrap();

    assert_stack(vec![1, 5], &mic1)
}

#[test]
fn ifeq() {
    let commands = parse("IFEQ 0x00 0x05\nIINC 0x00 0x01\nIADD").unwrap();
    let mut mic1 = create_processor(&commands, vec![1, 2, 3, 4], [0; 10]);
    mic1.run(commands.len() + 1, PROGRAM_START).unwrap();

    assert_stack(vec![2, 5], &mic1)
}

#[test]
fn ifeq1() {
    let commands = parse("IFEQ 0x00 0x05\nIINC 0x00 0x01\nIADD").unwrap();
    let mut mic1 = create_processor(&commands, vec![1, 2, 3, 0], [0; 10]);
    mic1.run(commands.len() + 1, PROGRAM_START).unwrap();

    assert_stack(vec![1, 5], &mic1)
}

#[test]
fn if_icmpeq() {
    let commands = parse("IF_ICMPEQ 0x00 0x05\nIINC 0x00 0x01\nIADD").unwrap();
    let mut mic1 = create_processor(&commands, vec![1, 2, 3, 4, 5], [0; 10]);
    mic1.run(commands.len() + 1, PROGRAM_START).unwrap();

    assert_stack(vec![2, 5], &mic1)
}

#[test]
fn if_icmpeq1() {
    let commands = parse("IF_ICMPEQ 0x00 0x05\nIINC 0x00 0x01\nIADD").unwrap();
    let mut mic1 = create_processor(&commands, vec![1, 2, 3, 4, 4], [0; 10]);
    mic1.run(commands.len() + 1, PROGRAM_START).unwrap();

    assert_stack(vec![1, 5], &mic1)
}

#[test]
fn invokevirtual() {
    let program = r#"
            BIPUSH 0x03
            INVOKEVIRTUAL 0x00 0x02
            IADD
            0x00  0x01
            0x00  0x00
            BIPUSH 0x03
"#;
    let commands = parse(program).unwrap();
    let constants = [0xCA, 0x11, PROGRAM_START as i32 + 0x06, 4, 4, 5, 6, 0, 0, 0];
    let mut mic1 = create_processor(&commands, vec![1, 2, 3, 4], constants);
    mic1.run(commands.len() + 1, PROGRAM_START).unwrap();

    assert_stack(vec![1, 2, 3, 4, 15, 105, 10, 0x03], &mic1);

    let lv = fast_encode(&mic1.lv.get());
    assert_eq!(STACK_START + 4, lv);
}

#[test]
fn invokevirtual1() {
    let program = r#"
            BIPUSH 0x03
            BIPUSH 0x05
            BIPUSH 0x06
            BIPUSH 0x06
            INVOKEVIRTUAL 0x00 0x02
            IADD
            0x00  0x04
            0x00  0x05
            BIPUSH 0x03
"#;
    let commands = parse(program).unwrap();
    let constants = [0xCA, 0x11, PROGRAM_START as i32 + 0x0c, 4, 4, 5, 6, 0, 0, 0];
    let mut mic1 = create_processor(&commands, vec![1, 2, 3, 4], constants);
    mic1.run(commands.len() + 1, PROGRAM_START).unwrap();

    assert_stack(vec![1, 2, 3, 4, 23, 5, 6, 6, 0, 0, 0, 0, 0, 111, 10, 3], &mic1);

    let lv = fast_encode(&mic1.lv.get());
    assert_eq!(STACK_START + 4, lv);
}

#[test]
fn invokevirtual2() {
    let program = r#"
            BIPUSH 0x02
            INVOKEVIRTUAL 0x00 0x02
            IADD
            0x00  0x01
            0x00  0x00
            BIPUSH 0x1c
            IRETURN
"#;
    let commands = parse(program).unwrap();
    let constants = [0xCA, 0x11, PROGRAM_START as i32 + 0x06, 4, 4, 5, 6, 0, 0, 0];
    let mut mic1 = create_processor(&commands, vec![1, 2, 3, 4], constants);
    mic1.run_n_times(43).unwrap();

    assert_stack(vec![1, 2, 3, 4, 0x1c], &mic1);

    let lv = fast_encode(&mic1.lv.get());
    assert_eq!(STACK_START, lv);
}

#[test]
fn program_from_asm() {
    let source = r#"
       .main
           BIPUSH 0x01
           BIPUSH 0x02
           IADD
       .end-main
    "#;
    let compiled = compile_with_terminator(source, PROGRAM_START as u32, Some(0xFF)).unwrap();
    let mut mic1 = create_processor_from_info(&compiled);
    mic1.run_until_stop(0xFF).unwrap();

    assert_stack(vec![3], &mic1);
}

#[test]
fn program_from_asm_with_function() {
    let source = r#"
       .main
           BIPUSH 0x01
           BIPUSH 0x01
           BIPUSH 0x02
           INVOKEVIRTUAL sum
       .end-main
       .method sum(first, second)
           ILOAD first
           ILOAD second
           IADD
           IRETURN
       .end-method
    "#;
    let compiled = compile_with_terminator(source, PROGRAM_START as u32, Some(0xFF)).unwrap();
    let mut mic1 = create_processor_from_info(&compiled);
    mic1.run_until_stop(0xFF).unwrap();

    assert_stack(vec![3], &mic1);
}

#[test]
fn program_from_asm_with_function_and_variable_loading() {
    let source = r#"
       .main
           BIPUSH 0x02
           BIPUSH 0x03
           INVOKEVIRTUAL sum
       .end-main
       .method sum(first)
           ILOAD first
       .end-method
    "#;
    let compiled = compile_with_terminator(source, PROGRAM_START as u32, None).unwrap();
    let mut mic1 = create_processor_from_info(&compiled);
    mic1.run_n_times(40).unwrap();

    assert_stack(vec![12, 3, 107, 10, 3], &mic1);
}

fn assert_stack(expected_stack: Vec<i32>, mic1: &Mic1) {
    let stack_ptr = fast_encode(&mic1.sp.get());
    let stack_size = stack_ptr - STACK_START + 1;
    let mut real_stack = Vec::new();
    for x in 0..stack_size {
        real_stack.push(fast_encode(&mic1.main_memory.read(fast_decode(x + STACK_START))));
    }

    assert_eq!(expected_stack, real_stack);
}
