use mic1::codec::{fast_decode, fast_encode};
use mic1::compiler::{compile, compile_with_terminator, CompileError};
use mic1::ijvm::IjvmCommand;
use mic1::loader::{create_processor, PROGRAM_START, STACK_START};
use mic1::parser::parse;
use mic1::processor::{Mic1, Mic1Fault};

fn stack_of(mic1: &Mic1) -> Vec<i32> {
    let stack_ptr = fast_encode(&mic1.sp.get());
    let mut real_stack = Vec::new();
    for x in STACK_START..=stack_ptr {
        real_stack.push(fast_encode(&mic1.main_memory.read(fast_decode(x))));
    }
    real_stack
}

fn run_source(source: &str, stack: Vec<i32>) -> Mic1 {
    let info = compile(source, PROGRAM_START as u32).unwrap();
    let mut mic1 = create_processor(&info.main_program, stack, [0; 10]);
    mic1.run(info.main_program.len() + 1, PROGRAM_START).unwrap();
    mic1
}

#[test]
fn assembled_iadd() {
    let mic1 = run_source(".main IADD .end-main", vec![1, 2]);
    assert_eq!(vec![3], stack_of(&mic1));
}

#[test]
fn assembled_bipush() {
    let mic1 = run_source(".main BIPUSH 0x0B .end-main", vec![]);
    assert_eq!(vec![11], stack_of(&mic1));
}

#[test]
fn assembled_swap() {
    let mic1 = run_source(".main SWAP .end-main", vec![1, 2, 3, 4, 5]);
    assert_eq!(vec![1, 2, 3, 5, 4], stack_of(&mic1));
}

#[test]
fn assembled_istore() {
    let mic1 = run_source(".main ISTORE 0x01 .end-main", vec![1, 2, 3, 4]);
    assert_eq!(vec![1, 4, 3], stack_of(&mic1));
}

#[test]
fn bipush_sign_extends() {
    let mic1 = run_source(".main BIPUSH 0xFE .end-main", vec![]);
    assert_eq!(vec![-2], stack_of(&mic1));
}

#[test]
fn labels_resolve_to_offset_plus_start() {
    let info = compile(".main GOTO label label: DUP .end-main", 10).unwrap();
    assert_eq!(vec![IjvmCommand::GOTO.opcode(), 12, IjvmCommand::DUP.opcode()], info.main_program);
    let info = compile(".main DUP first: IADD GOTO first NOP second: POP IFEQ second .end-main", 100).unwrap();
    assert_eq!(vec![0x59, 0x60, 0xA7, 101, 0x00, 0x57, 0x99, 105], info.main_program);
}

#[test]
fn counting_loop_terminates() {
    // IINC LV[0] by 1, push it, and branch back 5 bytes while it is negative
    let commands = parse("IINC 0x00 0x01\nILOAD 0x00\nIFLT 0xFF 0xFB\nNOP").unwrap();
    let mut mic1 = create_processor(&commands, vec![-3, 7], [0; 10]);
    mic1.run(commands.len() + 1, PROGRAM_START).unwrap();
    assert_eq!(vec![0, 7], stack_of(&mic1));
    assert_eq!(7, fast_encode(&mic1.tos.read(true)));
}

#[test]
fn numbers_in_every_base() {
    let info = compile(".main BIPUSH 42 BIPUSH 0x2A BIPUSH 0b101010 BIPUSH 052 .end-main", 0).unwrap();
    assert_eq!(vec![0x10, 42, 0x10, 42, 0x10, 42, 0x10, 42], info.main_program);
}

#[test]
fn constants_keep_declaration_order_and_methods_follow() {
    let source = ".constant a 1 b -2 .end-constant .main BIPUSH b INVOKEVIRTUAL m .end-main .method m() DUP .end-method";
    let info = compile(source, 100).unwrap();
    assert_eq!(vec![1, -2, 105], info.constants);
    assert_eq!(vec![0x10, -2, 0xB6, 0, 2, 0, 0, 0, 0, 0x59], info.main_program);
}

#[test]
fn redeclared_constant_moves_to_the_end() {
    let info = compile(".constant a 1 b 2 a 3 .end-constant .main .end-main", 0).unwrap();
    assert_eq!(vec![2, 3], info.constants);
}

#[test]
fn runnable_image_counts_the_object_reference() {
    let info = compile_with_terminator(".main .end-main .method f(x, y) ILOAD y .end-method", 0, Some(0xFF)).unwrap();
    assert_eq!(vec![0, 3, 0, 0, 0x15, 2, 0xFF], info.main_program);
    assert_eq!(vec![0], info.constants);
}

#[test]
fn compile_errors() {
    let cases = [
        (".main GOTO nowhere .end-main", CompileError::UndefinedLabel),
        (".main ILOAD x .end-main", CompileError::UndefinedVariable),
        (".main BIPUSH C .end-main", CompileError::UndefinedConstant),
        (".main INVOKEVIRTUAL m .end-main", CompileError::UndefinedMethod),
        (".main BIPUSH 0x1G .end-main", CompileError::MalformedNumber),
        (".main IADD foo .end-main", CompileError::IdentifierNotAllowed),
        (".main IADD", CompileError::Syntax),
        (".constant a .end-constant", CompileError::MalformedNumber),
        ("IADD", CompileError::Syntax),
    ];
    for (source, error) in cases.iter() {
        assert_eq!(Some(*error), compile(source, 0).err(), "{}", source);
    }
    assert_eq!(
        Some(CompileError::ImageTooLarge),
        compile(".main DUP label: GOTO label .end-main", 0x7fff_ffff).err()
    );
}

#[test]
fn fetch_outside_memory_faults() {
    let commands = parse("GOTO 0x7F 0xFF").unwrap();
    let mut mic1 = create_processor(&commands, vec![1], [0; 10]);
    assert_eq!(Err(Mic1Fault::AddressOutOfRange), mic1.run(commands.len() + 1, PROGRAM_START));
}
