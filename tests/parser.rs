use mic1::ijvm::IjvmCommand;
use mic1::parser::parse;

#[test]
fn empty_string() {
    let res = parse("").unwrap();
    assert!(res.is_empty())
}

#[test]
fn iadd() {
    let res = parse("IADD").unwrap();
    assert_eq!(1, res.len());
    assert_eq!(IjvmCommand::IADD.opcode(), *res.get(0).unwrap());
}

#[test]
fn parser_iload() {
    let res = parse("ILOAD 0x01").unwrap();
    assert_eq!(2, res.len());
    assert_eq!(IjvmCommand::ILOAD.opcode(), *res.get(0).unwrap());
    assert_eq!(0x01, *res.get(1).unwrap());
}

#[test]
fn multiple_commands() {
    let res = parse("ILOAD 0x01\nILOAD 0x02\nIADD").unwrap();
    assert_eq!(5, res.len());
    assert_eq!(IjvmCommand::ILOAD.opcode(), *res.get(0).unwrap());
    assert_eq!(0x01, *res.get(1).unwrap());
    assert_eq!(IjvmCommand::ILOAD.opcode(), *res.get(2).unwrap());
    assert_eq!(0x02, *res.get(3).unwrap());
    assert_eq!(IjvmCommand::IADD.opcode(), *res.get(4).unwrap());
}
