use mic1::alu::{alu_32, alu_32_i, AluControl};
use mic1::bus::Bus32;
use mic1::codec::{fast_decode, fast_encode};
use mic1::decoders::{decoder_4x9, decoder_9x512};
use mic1::ijvm::IjvmCommand;
use mic1::loader::{create_processor, make_control_memory};
use mic1::microasm::MicroAsm;
use mic1::parser::parse;
use mic1::shifter::sra1;

const SAMPLES: [i32; 10] = [0, 1, -1, 2, -2, 12345, -98765, i32::MAX, i32::MIN, 0x5555_5555];

#[test]
fn word_round_trip() {
    for &x in SAMPLES.iter() {
        assert_eq!(x, fast_encode(&fast_decode(x)));
    }
    let mut v = [false; 32];
    for i in 0..32 {
        v[i] = i % 3 == 0;
        assert_eq!(v, fast_decode(fast_encode(&v)));
    }
}

#[test]
fn word_bits_are_little_endian() {
    let bits = fast_decode(5);
    assert!(bits[0] && !bits[1] && bits[2]);
    assert!(bits[3..].iter().all(|b| !b));
    assert!(fast_decode(-1).iter().all(|b| *b));
    let mut top = [false; 32];
    top[31] = true;
    assert_eq!(i32::MIN, fast_encode(&top));
}

#[test]
fn alu_named_modes() {
    for &a in SAMPLES.iter() {
        for &b in SAMPLES.iter() {
            let expected = [
                (AluControl::alu_sum(), a.wrapping_add(b)),
                (AluControl::alu_sum_inc(), a.wrapping_add(b).wrapping_add(1)),
                (AluControl::alu_sub(), b.wrapping_sub(a)),
                (AluControl::alu_b_inc(), b.wrapping_add(1)),
                (AluControl::alu_b_dec(), b.wrapping_sub(1)),
                (AluControl::alu_and(), a & b),
                (AluControl::alu_or(), a | b),
                (AluControl::alu_a(), a),
                (AluControl::alu_b(), b),
            ];
            for (control, value) in expected.iter() {
                let (res, n, z) = alu_32_i(a, b, *control);
                assert_eq!(*value, res);
                assert_eq!(*value < 0, n);
                assert_eq!(*value == 0, z);
            }
        }
    }
}

#[test]
fn alu_sum_wraps() {
    let (res, n, z) = alu_32_i(i32::MAX, 1, AluControl::alu_sum());
    assert_eq!(i32::MIN, res);
    assert!(n);
    assert!(!z);
    let (res, n, z) = alu_32_i(i32::MIN, -1, AluControl::alu_b_inc());
    assert_eq!(0, res);
    assert!(!n);
    assert!(z);
}

#[test]
fn alu_not_b() {
    let control = AluControl::from([true, false, false, true, false, false]);
    let (res, _, _) = alu_32(Bus32::from(fast_decode(7)), Bus32::from(fast_decode(0x0F0F)), control);
    assert_eq!(!0x0F0F, fast_encode(&res.data));
}

#[test]
fn decoder_selects_exactly_one_row() {
    for i in 0..512usize {
        let mut input = [false; 9];
        for k in 0..9 {
            input[k] = (i >> k) & 1 == 1;
        }
        let out = decoder_9x512(input);
        assert_eq!(1, out.iter().filter(|b| **b).count());
        assert!(out[i]);
    }
}

#[test]
fn b_bus_selector_codes_above_eight_select_nothing() {
    assert_eq!([false; 9], decoder_4x9([true, false, false, true]));
    assert_eq!([false; 9], decoder_4x9([true, true, true, true]));
    let mut one = [false; 9];
    one[8] = true;
    assert_eq!(one, decoder_4x9([false, false, false, true]));
}

#[test]
fn sra1_keeps_the_sign() {
    let shifted = sra1(Bus32::from(fast_decode(-8)), true);
    assert_eq!(-4, fast_encode(&shifted.data));
    let shifted = sra1(Bus32::from(fast_decode(9)), true);
    assert_eq!(4, fast_encode(&shifted.data));
    let same = sra1(Bus32::from(fast_decode(0x4000_0000)), false);
    assert_eq!(0x4000_0000, fast_encode(&same.data));
}

#[test]
fn every_step_keeps_one_micro_address_active() {
    let commands = parse("BIPUSH 0x05\nDUP\nIADD\nPOP").unwrap();
    let mut mic1 = create_processor(&commands, vec![1, 2], [0; 10]);
    for _ in 0..30 {
        mic1.execute_command().unwrap();
        let active = decoder_9x512(mic1.mpc.get());
        assert_eq!(1, active.iter().filter(|b| **b).count());
    }
}

#[test]
fn control_store_rows_sit_at_their_addresses() {
    let control = make_control_memory();
    let mut seen = Vec::new();
    for address in 0..512u16 {
        if let Some(step) = MicroAsm::at(address) {
            assert_eq!(address, step.address());
            assert_eq!(step.command(), control.cells[address as usize].get());
            seen.push(address);
        } else {
            assert_eq!([false; 36], control.cells[address as usize].get());
        }
    }
    assert_eq!(113, seen.len());
    for command in IjvmCommand::all() {
        if command != IjvmCommand::NOP {
            let step = MicroAsm::at(command.opcode() as u16).unwrap();
            assert_eq!(command.opcode() as u16, step.address());
        }
    }
}

#[test]
fn mnemonics_parse_to_their_opcodes() {
    for command in IjvmCommand::all() {
        let name = String::from_utf8(command.mnemonic_bytes()).unwrap();
        assert_eq!(Some(command), IjvmCommand::parse(&name));
    }
    assert_eq!(None, IjvmCommand::parse("iadd"));
    assert_eq!(None, IjvmCommand::parse("IADDX"));
    assert_eq!(Some(IjvmCommand::IF_ICMPEQ), IjvmCommand::parse("IF_ICMPEQ"));
    assert_eq!(0x9F, IjvmCommand::IF_ICMPEQ.opcode());
}

#[test]
fn listing_rejects_bad_words() {
    assert!(parse("IADD 0xZZ").is_none());
    assert_eq!(Some(vec![0x60, 0x36, 0x15]), parse("IADD  0x36\n\n15"));
}
