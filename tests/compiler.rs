use mic1::compiler::{compile, ProcessorInfo};
use mic1::ijvm::IjvmCommand;

#[test]
fn empty_constant() {
    let program = r#"
                   .constant
                   .end-constant
                   .main
                   .end-main
"#;
    let info = compile(program, 0).unwrap();

    assert_constants(vec![], &info);
}

#[test]
fn one_constant() {
    let program = r#"
                   .constant
                   my_var 1
                   .end-constant
                   .main
                   .end-main
"#;
    let info = compile(program, 0).unwrap();

    assert_constants(vec![1], &info);
}

#[test]
fn multiple_constants() {
    let program = r#"
                   .constant
                   my_var 1
                   my_var_x 1
                   my_var_y 2
                   .end-constant
                   .main
                   .end-main
"#;
    let info = compile(program, 0).unwrap();

    assert_constants(vec![1, 1, 2], &info);
}

#[test]
fn simple_program() {
    let program = r#"
                   .main
                   DUP
                   IADD
                   .end-main
"#;
    let info = compile(program, 0).unwrap();

    assert_constants(vec![], &info);
    assert_main(vec![IjvmCommand::DUP.opcode(), IjvmCommand::IADD.opcode()], &info);
}

#[test]
fn program_with_constant() {
    let program = r#"
                   .main
                   BIPUSH 1
                   .end-main
"#;
    let info = compile(program, 0).unwrap();

    assert_constants(vec![], &info);
    assert_main(vec![IjvmCommand::BIPUSH.opcode(), 1], &info);
}

#[test]
fn program_with_hex_constant() {
    let program = r#"
                   .main
                   BIPUSH 0x15
                   .end-main
"#;
    let info = compile(program, 0).unwrap();

    assert_constants(vec![], &info);
    assert_main(vec![IjvmCommand::BIPUSH.opcode(), 0x15], &info);
}

#[test]
fn program_with_constants() {
    let program = r#"
                    .constant
                    my_var 2
                    .end-constant

                    .main
                    BIPUSH my_var
                    .end-main
"#;
    let info = compile(program, 0).unwrap();

    assert_constants(vec![2], &info);
    assert_main(vec![IjvmCommand::BIPUSH.opcode(), 2], &info);
}

#[test]
fn program_with_labels() {
    let program = r#"
                   .main
                   label: DUP
                   GOTO label
                   .end-main
"#;
    let info = compile(program, 10).unwrap();

    assert_constants(vec![], &info);
    assert_main(vec![IjvmCommand::DUP.opcode(), IjvmCommand::GOTO.opcode(), 10], &info);
}

#[test]
fn program_with_label_in_future() {
    let program = r#"
                   .main
                   GOTO label
                   label: DUP
                   .end-main
"#;
    let info = compile(program, 10).unwrap();

    assert_constants(vec![], &info);
    assert_main(vec![IjvmCommand::GOTO.opcode(), 12, IjvmCommand::DUP.opcode()], &info);
}

#[test]
fn program_with_variables() {
    let program = r#"
                   .main
                   .var
                   my_var_x
                   my_var_y
                   .end-var
                   ILOAD my_var_x
                   .end-main
"#;
    let info = compile(program, 10).unwrap();

    assert_constants(vec![], &info);
    assert_main(vec![IjvmCommand::ILOAD.opcode(), 0x00], &info);
}

#[test]
fn program_with_method() {
    let program = r#"
                   .main
                   .end-main
                   .method my()
                   DUP
                   .end-method
"#;
    let info = compile(program, 10).unwrap();

    assert_constants(vec![10], &info);
    assert_main(vec![0x00, 0x00, 0x00, 0x00, IjvmCommand::DUP.opcode()], &info);
}

#[test]
fn program_with_method_and_parameters() {
    let program = r#"
                   .main
                   .end-main
                   .method my(first_var, second_var, third_var)
                   DUP
                   .end-method
"#;
    let info = compile(program, 10).unwrap();

    assert_constants(vec![10], &info);
    assert_main(vec![0x00, 0x03, 0x00, 0x00, IjvmCommand::DUP.opcode()], &info);
}

#[test]
fn program_with_method_with_variables() {
    let program = r#"
                   .main
                   .end-main
                   .method my()
                   .var
                   first_var
                   second_var
                   .end-var
                   ILOAD second_var
                   .end-method
"#;
    let info = compile(program, 10).unwrap();

    assert_constants(vec![10], &info);
    assert_main(vec![0x00, 0x00, 0x00, 0x00, IjvmCommand::ILOAD.opcode(), 0x01], &info);
}

#[test]
fn program_with_method_and_parameters_and_variable() {
    let program = r#"
                   .main
                   .end-main
                   .method my(first_par, second_par, third_par)
                   .var
                   first_var
                   second_var
                   .end-var
                   ILOAD first_par
                   ILOAD second_var
                   .end-method
"#;
    let info = compile(program, 10).unwrap();

    assert_constants(vec![10], &info);
    assert_main(vec![0x00, 0x03, 0x00, 0x00, IjvmCommand::ILOAD.opcode(), 0x00, IjvmCommand::ILOAD.opcode(), 0x04], &info);
}

#[test]
fn program_with_method_and_invoking() {
    let program = r#"
                   .main
                   INVOKEVIRTUAL my
                   .end-main
                   .method my()
                   DUP
                   .end-method
"#;
    let info = compile(program, 10).unwrap();

    assert_constants(vec![13], &info);
    assert_main(vec![IjvmCommand::INVOKEVIRTUAL.opcode(), 0x00, 0, 0x00, 0x00, 0x00, 0x00, IjvmCommand::DUP.opcode()], &info);
}

fn assert_constants(expected: Vec<i32>, info: &ProcessorInfo) {
    assert_eq!(expected, info.constants);
}

fn assert_main(expected: Vec<i32>, info: &ProcessorInfo) {
    assert_eq!(expected, info.main_program);
}
