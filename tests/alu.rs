use mic1::alu::{alu_32_i, AluControl};

#[test]
fn decrement() {
    let (res, n, z) = alu_32_i(0, 1, AluControl::alu_b_dec());
    assert_eq!(0, res);
    assert_eq!(false, n);
    assert_eq!(true, z);
}

#[test]
fn decrement_1() {
    let (res, n, z) = alu_32_i(0, 0, AluControl::alu_b_dec());
    assert_eq!(-1, res);
    assert_eq!(true, n);
    assert_eq!(false, z);
}

#[test]
fn decrement_2() {
    let (res, n, z) = alu_32_i(0, 10, AluControl::alu_b_dec());
    assert_eq!(9, res);
    assert_eq!(false, n);
    assert_eq!(false, z);
}

#[test]
fn increment() {
    let (res, n, z) = alu_32_i(0, 10, AluControl::alu_b_inc());
    assert_eq!(11, res);
    assert_eq!(false, n);
    assert_eq!(false, z);
}

#[test]
fn increment_1() {
    let (res, n, z) = alu_32_i(0, -2, AluControl::alu_b_inc());
    assert_eq!(-1, res);
    assert_eq!(true, n);
    assert_eq!(false, z);
}

#[test]
fn increment_2() {
    let (res, n, z) = alu_32_i(0, -1, AluControl::alu_b_inc());
    assert_eq!(0, res);
    assert_eq!(false, n);
    assert_eq!(true, z);
}

#[test]
fn sum() {
    let (res, n, z) = alu_32_i(0, -1, AluControl::alu_sum());
    assert_eq!(-1, res);
    assert_eq!(true, n);
    assert_eq!(false, z);
}

#[test]
fn sum_1() {
    let (res, n, z) = alu_32_i(1, 2, AluControl::alu_sum());
    assert_eq!(3, res);
    assert_eq!(false, n);
    assert_eq!(false, z);
}

#[test]
fn sum_2() {
    let (res, n, z) = alu_32_i(0, 0, AluControl::alu_sum());
    assert_eq!(0, res);
    assert_eq!(false, n);
    assert_eq!(true, z);
}
