//! Boot: the control store from the microprogram, and main memory from a
//! program image.
use crate::bus::Bus32;
use crate::codec::fast_decode;
use crate::main_memory::MainMemory;
use crate::memory::{Memory512x36, Register32, Register9};
use crate::microasm::{blank, micro_row, MicroAsm};
use crate::processor::Mic1;
use crate::word::{nat_bits, word_bits};
use vstd::prelude::*;

verus! {

/// Where the program image is loaded.
pub const PROGRAM_START: usize = 100;

/// Where the initial stack (and the main frame's locals) begin.
pub const STACK_START: i32 = 10;

/// The row that the control store holds at `address`.
pub open spec fn stored_row(address: int) -> Seq<bool> {
    match MicroAsm::spec_at(address) {
        Some(m) => micro_row(m),
        None => blank(),
    }
}

/// The control store with every step of the microprogram at its address.
pub fn make_control_memory() -> (r: Memory512x36)
    ensures
        forall|a: int| 0 <= a < 512 ==> #[trigger] r.row(a) == stored_row(a),
{
    let mut control_memory = Memory512x36::new();
    let mut address: u16 = 0;
    while address < 512
        invariant
            address <= 512,
            forall|a: int| 0 <= a < address ==> #[trigger] control_memory.row(a) == stored_row(a),
            forall|a: int| address <= a < 512 ==> #[trigger] control_memory.row(a) == blank(),
        decreases 512 - address,
    {
        match MicroAsm::at(address) {
            Some(command) => {
                control_memory.write_data(command.command(), address as usize);
            },
            None => {},
        }
        address += 1;
    }
    control_memory
}

/// Main memory as loaded: constants at 0..9, the stack from `STACK_START`,
/// the program from `PROGRAM_START` (later parts win where they overlap).
pub open spec fn loaded_cells(commands: Seq<i32>, stack: Seq<i32>, constants: Seq<i32>) -> Seq<i32> {
    Seq::new(
        512,
        |a: int|
            if 100 <= a < 100 + commands.len() {
                commands[a - 100]
            } else if 10 <= a < 10 + stack.len() {
                stack[a - 10]
            } else if a < 10 {
                constants[a]
            } else {
                0
            },
    )
}

/// A register holding `x`.
fn register_with(x: i32) -> (r: Register32)
    ensures
        r.value() == word_bits(x as int),
{
    let mut reg = Register32::new();
    reg.update_from_bus(&Bus32::from(fast_decode(x)), true);
    reg
}

/// A processor booted on a program image: PC just before the program, LV at
/// the stack's base, SP at its top, TOS holding the top word, MPC at `Main1`.
pub fn create_processor(commands: &Vec<i32>, initial_stack: Vec<i32>, constants: [i32; 10]) -> (r: Mic1)
    requires
        commands@.len() <= 412,
        initial_stack@.len() <= 502,
    ensures
        r.wf(),
        r.main_memory.cells@ == loaded_cells(commands@, initial_stack@, constants@),
        r.main_memory.first_reading@.len() == 0,
        r.main_memory.second_reading@.len() == 0,
        r.pc.value() == word_bits(99),
        r.lv.value() == word_bits(10),
        r.sp.value() == word_bits(10 + initial_stack@.len() - 1),
        r.tos.value() == word_bits(
            if initial_stack@.len() == 0 {
                0
            } else {
                initial_stack@.last() as int
            },
        ),
        r.mpc.value() == nat_bits(1, 9),
        r.mir.value() == Seq::new(36, |i: int| false),
        r.mar.value() == Seq::new(32, |i: int| false),
        r.mdr.value() == Seq::new(32, |i: int| false),
        r.mbr.value() == Seq::new(32, |i: int| false),
        r.cpp.value() == Seq::new(32, |i: int| false),
        r.opc.value() == Seq::new(32, |i: int| false),
        r.h.value() == Seq::new(32, |i: int| false),
        forall|a: int| 0 <= a < 512 ==> #[trigger] r.control_memory.row(a) == stored_row(a),
{
    let mut memory = MainMemory::initialize();

    // Constants
    let mut x: usize = 0;
    while x < 10
        invariant
            x <= 10,
            memory.wf(),
            memory.first_reading@.len() == 0,
            memory.second_reading@.len() == 0,
            forall|a: int| 0 <= a < 512 ==> #[trigger] memory.cells@[a] == if a < x { constants@[a] } else { 0 },
        decreases 10 - x,
    {
        memory.write_data(constants[x], x);
        x += 1;
    }

    // Stack
    let mut stack_pointer: i32 = STACK_START;
    let mut top_of_stack: i32 = 0;
    let mut i: usize = 0;
    while i < initial_stack.len()
        invariant
            i <= initial_stack@.len() <= 502,
            stack_pointer == 10 + i,
            memory.wf(),
            memory.first_reading@.len() == 0,
            memory.second_reading@.len() == 0,
            top_of_stack == if i == 0 { 0 } else { initial_stack@[i - 1] },
            forall|a: int|
                0 <= a < 512 ==> #[trigger] memory.cells@[a] == if 10 <= a < 10 + i {
                    initial_stack@[a - 10]
                } else if a < 10 {
                    constants@[a]
                } else {
                    0
                },
        decreases initial_stack@.len() - i,
    {
        memory.write_data(initial_stack[i], stack_pointer as usize);
        top_of_stack = initial_stack[i];
        stack_pointer += 1;
        i += 1;
    }
    stack_pointer -= 1;

    // Program
    let mut p_counter: usize = PROGRAM_START;
    let mut k: usize = 0;
    while k < commands.len()
        invariant
            k <= commands@.len() <= 412,
            p_counter == 100 + k,
            memory.wf(),
            memory.first_reading@.len() == 0,
            memory.second_reading@.len() == 0,
            forall|a: int|
                0 <= a < 512 ==> #[trigger] memory.cells@[a] == if 100 <= a < 100 + k {
                    commands@[a - 100]
                } else if 10 <= a < 10 + initial_stack@.len() {
                    initial_stack@[a - 10]
                } else if a < 10 {
                    constants@[a]
                } else {
                    0
                },
        decreases commands@.len() - k,
    {
        memory.write_data(commands[k], p_counter);
        p_counter += 1;
        k += 1;
    }
    assert(memory.cells@ =~= loaded_cells(commands@, initial_stack@, constants@));

    let control_memory = make_control_memory();
    let tos = register_with(top_of_stack);
    let pc = register_with(PROGRAM_START as i32 - 1);
    let lv = register_with(STACK_START);
    let sp = register_with(stack_pointer);

    let mut mpc = Register9::new();
    let mut mpc_data = [false; 9];
    let decoded = fast_decode(MicroAsm::Main1.address() as i32);
    let mut j: usize = 0;
    while j < 9
        invariant
            j <= 9,
            decoded@ == word_bits(1),
            forall|b: int| 0 <= b < j ==> mpc_data@[b] == decoded@[b],
        decreases 9 - j,
    {
        mpc_data[j] = decoded[j];
        j += 1;
    }
    assert(mpc_data@ =~= nat_bits(1, 9));
    mpc.update(mpc_data, true);

    Mic1::init(memory, control_memory, tos, pc, sp, lv, mpc)
}

} // verus!

verus! {

/// A processor booted on an assembled image: its program, an empty stack,
/// and the first ten words of its constant pool (zero where it is shorter).
pub fn create_processor_from_info(info: &crate::compiler::ProcessorInfo) -> (r: Mic1)
    requires
        info.main_program@.len() <= 412,
    ensures
        r.wf(),
        r.main_memory.cells@ == loaded_cells(
            info.main_program@,
            Seq::empty(),
            Seq::new(10, |i: int| if i < info.constants@.len() { info.constants@[i] } else { 0 }),
        ),
        r.main_memory.first_reading@.len() == 0,
        r.main_memory.second_reading@.len() == 0,
        r.pc.value() == word_bits(99),
        r.lv.value() == word_bits(10),
        r.sp.value() == word_bits(9),
        r.tos.value() == word_bits(0),
        r.mpc.value() == nat_bits(1, 9),
        r.mir.value() == Seq::new(36, |i: int| false),
        r.mar.value() == Seq::new(32, |i: int| false),
        r.mdr.value() == Seq::new(32, |i: int| false),
        r.mbr.value() == Seq::new(32, |i: int| false),
        r.cpp.value() == Seq::new(32, |i: int| false),
        r.opc.value() == Seq::new(32, |i: int| false),
        r.h.value() == Seq::new(32, |i: int| false),
        forall|a: int| 0 <= a < 512 ==> #[trigger] r.control_memory.row(a) == stored_row(a),
{
    let mut constants = [0i32; 10];
    let mut x: usize = 0;
    while x < 10 && x < info.constants.len()
        invariant
            x <= 10,
            x <= info.constants@.len(),
            forall|i: int|
                0 <= i < 10 ==> constants@[i] == if i < x && i < info.constants@.len() {
                    info.constants@[i]
                } else {
                    0
                },
        decreases 10 - x,
    {
        constants[x] = info.constants[x];
        x += 1;
    }
    assert(constants@ =~= Seq::new(10, |i: int| if i < info.constants@.len() { info.constants@[i] } else { 0 }));
    let r = create_processor(&info.main_program, Vec::new(), constants);
    assert(r.main_memory.cells@ =~= loaded_cells(
            info.main_program@,
            Seq::empty(),
            Seq::new(10, |i: int| if i < info.constants@.len() { info.constants@[i] } else { 0 }),
        ));
    r
}

} // verus!
