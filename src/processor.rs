//! The Mic-1 datapath and its cycle engine.
use crate::alu::{alu_32, alu_result, all_low};
use crate::bus::Bus32;
use crate::codec::fast_encode;
use crate::decoders::{decoder_4x9, index4, one_hot};
use crate::main_memory::{advanced, latched_address, port_output, MainMemory, ReadState};
use crate::memory::{Memory512x36, Register32, Register36, Register9};
use crate::microasm::{micro_row, MicroAsm};
use crate::processor_elements::{row_alu_controls, BBusControls, CBusControls};
use crate::shifter::{shifted_left, shifted_right_arith, sll8, sra1};
use crate::word::{bits_value, word_of};
use vstd::prelude::*;

verus! {

/// Why a run stopped short.
#[derive(Clone, Copy, Debug, PartialEq, Eq, Structural)]
pub enum Mic1Fault {
    /// A read, write or fetch addressed a word outside main memory.
    AddressOutOfRange,
    /// A driver loop used up its cycle budget.
    CycleLimit,
}

/// The most cycles that one driver call runs.
pub const CYCLE_LIMIT: u64 = 1_000_000;

/// MBR's low byte with bit 7 copied upward.
pub open spec fn sign_extended(m: Seq<bool>) -> Seq<bool> {
    Seq::new(32, |i: int| if i < 8 { m[i] } else { m[7] })
}

/// MBR's low byte with the upper lines low.
pub open spec fn zero_extended(m: Seq<bool>) -> Seq<bool> {
    Seq::new(32, |i: int| i < 8 && m[i])
}

/// The B-bus selector code of a row (bits 32..35).
pub open spec fn b_select(row: Seq<bool>) -> int {
    index4(row[32], row[33], row[34], row[35])
}

/// The B bus: the source that the code selects; codes 9..15 select none.
pub open spec fn b_bus(
    code: int,
    mdr: Seq<bool>,
    pc: Seq<bool>,
    mbr: Seq<bool>,
    sp: Seq<bool>,
    lv: Seq<bool>,
    cpp: Seq<bool>,
    tos: Seq<bool>,
    opc: Seq<bool>,
) -> Seq<bool> {
    Seq::new(
        32,
        |i: int|
            (code == 0 && mdr[i]) || (code == 1 && pc[i]) || (code == 2 && sign_extended(mbr)[i])
                || (code == 3 && zero_extended(mbr)[i]) || (code == 4 && sp[i]) || (code == 5
                && lv[i]) || (code == 6 && cpp[i]) || (code == 7 && tos[i]) || (code == 8
                && opc[i]),
    )
}

/// The shifter output for a row: SLL8 (bit 12), then SRA1 (bit 13).
pub open spec fn shifted(alu: Seq<bool>, row: Seq<bool>) -> Seq<bool> {
    let s = if row[12] {
        shifted_left(alu, 8)
    } else {
        alu
    };
    if row[13] {
        shifted_right_arith(s)
    } else {
        s
    }
}

/// The next micro-address: NEXT_ADDR, with MBR's low byte ORed in under
/// JMPC and N or Z ORed into bit 8 under JAMN or JAMZ.
pub open spec fn next_mpc(row: Seq<bool>, mbr: Seq<bool>, n: bool, z: bool) -> Seq<bool> {
    Seq::new(
        9,
        |i: int|
            if i < 8 {
                row[i] || (row[9] && mbr[i])
            } else {
                row[8] || (row[11] && z) || (row[10] && n)
            },
    )
}

/// The in-memory address that a register's word names, if it is one.
pub open spec fn in_memory(v: Seq<bool>) -> bool {
    0 <= word_of(v) < 512
}

pub struct Mic1 {
    pub mir: Register36,
    pub mpc: Register9,
    pub mar: Register32,
    pub mdr: Register32,
    pub pc: Register32,
    pub mbr: Register32,
    pub sp: Register32,
    pub lv: Register32,
    pub cpp: Register32,
    pub tos: Register32,
    pub opc: Register32,
    pub h: Register32,
    pub control_memory: Memory512x36,
    pub main_memory: MainMemory,
}

impl Mic1 {
    pub open spec fn wf(&self) -> bool {
        self.main_memory.wf()
    }

    /// MDR once this cycle's data read, if any, has latched.
    pub open spec fn latched_mdr(&self) -> Seq<bool> {
        if latched_address(self.main_memory.first_reading@) is Some {
            port_output(self.main_memory.cells@, self.main_memory.first_reading@)
        } else {
            self.mdr.value()
        }
    }

    /// MBR once this cycle's fetch, if any, has latched.
    pub open spec fn latched_mbr(&self) -> Seq<bool> {
        if latched_address(self.main_memory.second_reading@) is Some {
            port_output(self.main_memory.cells@, self.main_memory.second_reading@)
        } else {
            self.mbr.value()
        }
    }

    /// The row that MPC selects: this cycle's micro-instruction.
    pub open spec fn row(&self) -> Seq<bool> {
        self.control_memory.row(bits_value(self.mpc.value()) as int)
    }

    pub open spec fn b_bus_value(&self) -> Seq<bool> {
        b_bus(
            b_select(self.row()),
            self.latched_mdr(),
            self.pc.value(),
            self.latched_mbr(),
            self.sp.value(),
            self.lv.value(),
            self.cpp.value(),
            self.tos.value(),
            self.opc.value(),
        )
    }

    /// The ALU output: H on the A bus.
    pub open spec fn alu_value(&self) -> Seq<bool> {
        alu_result(self.h.value(), self.b_bus_value(), row_alu_controls(self.row()))
    }

    pub open spec fn c_bus_value(&self) -> Seq<bool> {
        shifted(self.alu_value(), self.row())
    }

    /// A register after the C-bus write: enable line `k` counts from H (bit 20).
    pub open spec fn written(&self, before: Seq<bool>, k: int) -> Seq<bool> {
        if self.row()[20 + k] {
            self.c_bus_value()
        } else {
            before
        }
    }

    pub open spec fn new_mar(&self) -> Seq<bool> {
        self.written(self.mar.value(), 8)
    }

    pub open spec fn new_mdr(&self) -> Seq<bool> {
        self.written(self.latched_mdr(), 7)
    }

    pub open spec fn new_pc(&self) -> Seq<bool> {
        self.written(self.pc.value(), 6)
    }

    /// This cycle reads, writes or fetches outside main memory.
    pub open spec fn cycle_faults(&self) -> bool {
        ((self.row()[29] || self.row()[30]) && !in_memory(self.new_mar())) || (self.row()[31]
            && !in_memory(self.new_pc()))
    }

    /// `t` is the state one micro-cycle after `self`.
    pub open spec fn cycle(&self, t: Mic1) -> bool {
        let row = self.row();
        &&& t.mir.value() == row
        &&& t.h.value() == self.written(self.h.value(), 0)
        &&& t.opc.value() == self.written(self.opc.value(), 1)
        &&& t.tos.value() == self.written(self.tos.value(), 2)
        &&& t.cpp.value() == self.written(self.cpp.value(), 3)
        &&& t.lv.value() == self.written(self.lv.value(), 4)
        &&& t.sp.value() == self.written(self.sp.value(), 5)
        &&& t.pc.value() == self.new_pc()
        &&& t.mdr.value() == self.new_mdr()
        &&& t.mar.value() == self.new_mar()
        &&& t.mbr.value() == self.latched_mbr()
        &&& t.control_memory == self.control_memory
        &&& t.main_memory.first_reading@ == if row[30] {
            advanced(self.main_memory.first_reading@).push(
                (word_of(self.new_mar()) as i32, ReadState::ReadInitialized),
            )
        } else {
            advanced(self.main_memory.first_reading@)
        }
        &&& t.main_memory.second_reading@ == if row[31] {
            advanced(self.main_memory.second_reading@).push(
                (word_of(self.new_pc()) as i32, ReadState::ReadInitialized),
            )
        } else {
            advanced(self.main_memory.second_reading@)
        }
        &&& t.main_memory.cells@ == if row[29] {
            self.main_memory.cells@.update(word_of(self.new_mar()), word_of(self.new_mdr()) as i32)
        } else {
            self.main_memory.cells@
        }
        &&& t.mpc.value() == next_mpc(
            row,
            self.latched_mbr(),
            self.alu_value()[31],
            all_low(self.alu_value()),
        )
    }

    pub fn init(
        main_memory: MainMemory,
        control_memory: Memory512x36,
        tos: Register32,
        pc: Register32,
        sp: Register32,
        lv: Register32,
        mpc: Register9,
    ) -> (r: Mic1)
        requires
            main_memory.wf(),
        ensures
            r.wf(),
            r.main_memory == main_memory,
            r.control_memory == control_memory,
            r.tos == tos,
            r.pc == pc,
            r.sp == sp,
            r.lv == lv,
            r.mpc == mpc,
            r.mir.value() == Seq::new(36, |i: int| false),
            r.mar.value() == Seq::new(32, |i: int| false),
            r.mdr.value() == Seq::new(32, |i: int| false),
            r.mbr.value() == Seq::new(32, |i: int| false),
            r.cpp.value() == Seq::new(32, |i: int| false),
            r.opc.value() == Seq::new(32, |i: int| false),
            r.h.value() == Seq::new(32, |i: int| false),
    {
        Mic1 {
            mir: Register36::new(),
            mpc,
            mar: Register32::new(),
            mdr: Register32::new(),
            pc,
            mbr: Register32::new(),
            sp,
            lv,
            cpp: Register32::new(),
            tos,
            opc: Register32::new(),
            h: Register32::new(),
            control_memory,
            main_memory,
        }
    }

    /// Runs one micro-cycle (see `cycle`). Fails, with the state left
    /// well-formed, exactly when the cycle addresses a word outside memory.
    pub fn execute_command(&mut self) -> (r: Result<(), Mic1Fault>)
        requires
            old(self).wf(),
        ensures
            final(self).wf(),
            r is Ok <==> !old(self).cycle_faults(),
            r is Ok ==> old(self).cycle(*final(self)),
            r is Err ==> r == Err::<(), Mic1Fault>(Mic1Fault::AddressOutOfRange),
            bits_value(final(self).mpc.value()) < 512,
    {
        let ghost s = *self;
        // Latch the reads requested two cycles ago
        let (data, enabled) = self.main_memory.check_first_read();
        self.mdr.update_from_bus(&Bus32::from(data), enabled);
        let (data, enabled) = self.main_memory.check_second_read();
        self.mbr.update_from_bus(&Bus32::from(data), enabled);
        assert(self.mdr.value() == s.latched_mdr());
        assert(self.mbr.value() == s.latched_mbr());

        // Fetch the micro-instruction
        let new_command = self.control_memory.get(self.mpc.to_bus());
        self.mir.update_from_bus(&new_command, true);
        assert(self.mir.value() == s.row());

        // B bus, A bus, ALU, shifter
        let b_bus_controls = BBusControls::new(decoder_4x9(self.mir.mir_b_bus_controls()));
        let b_bus = self.run_b_bus(b_bus_controls);
        assert(b_bus.data@ =~= s.b_bus_value());
        let a_bus = Bus32::from(self.h.read(true));
        assert(a_bus.data@ =~= s.h.value());
        let (c_bus, n_bit, z_bit) = alu_32(a_bus, b_bus, self.mir.mir_alu_controls());
        let c_bus = sll8(c_bus, self.mir.mir_ssl8());
        let c_bus = sra1(c_bus, self.mir.mir_sra1());
        assert(c_bus.data@ == s.c_bus_value());

        // C bus
        let c_bus_controls = self.mir.mir_c_bus_controls();
        self.run_c_bus(&c_bus, c_bus_controls);

        // Memory requests
        let read = self.mir.mir_read();
        let fetch = self.mir.mir_fetch();
        let write = self.mir.mir_write();
        let mar_address = fast_encode(&self.mar.get());
        let pc_address = fast_encode(&self.pc.get());
        let mar_ok = 0 <= mar_address && mar_address < 512;
        let pc_ok = 0 <= pc_address && pc_address < 512;
        let next_command = self.next_address(z_bit, n_bit);
        self.mpc.update(next_command, true);
        proof {
            crate::decoders::lemma_decoder_one_hot(self.mpc.value());
        }
        if (read || write) && !mar_ok || fetch && !pc_ok {
            return Err(Mic1Fault::AddressOutOfRange);
        }
        self.main_memory.request_first_read(self.mar.get(), read);
        self.main_memory.request_second_read(self.pc.get(), fetch);
        self.main_memory.write(self.mdr.get(), self.mar.get(), write);
        Ok(())
    }

    /// The next micro-address (the O and F logic of the Mic-1).
    fn next_address(&self, z: bool, n: bool) -> (r: [bool; 9])
        ensures
            r@ == next_mpc(self.mir.value(), self.mbr.value(), n, z),
    {
        let mut next_command = self.o();
        next_command[8] = next_command[8] || self.f(z, n);
        assert(next_command@ =~= next_mpc(self.mir.value(), self.mbr.value(), n, z));
        next_command
    }

    fn f(&self, z: bool, n: bool) -> (r: bool)
        ensures
            r == (self.mir.value()[11] && z || self.mir.value()[10] && n),
    {
        self.mir.mir_jamz() && z || self.mir.mir_jamn() && n
    }

    fn o(&self) -> (r: [bool; 9])
        ensures
            r@ == Seq::new(
                9,
                |i: int|
                    if i < 8 {
                        self.mir.value()[i] || (self.mir.value()[9] && self.mbr.value()[i])
                    } else {
                        self.mir.value()[8]
                    },
            ),
    {
        let mut next_command = self.mir.mir_addr();
        let jmpc = self.mir.mir_jmpc();
        let mbr_value = self.mbr.get();
        let mut i: usize = 0;
        while i < 8
            invariant
                i <= 8,
                mbr_value@ == self.mbr.value(),
                jmpc == self.mir.value()[9],
                forall|j: int|
                    0 <= j < i ==> next_command@[j] == (self.mir.value()[j] || (jmpc
                        && mbr_value@[j])),
                forall|j: int| i <= j < 9 ==> next_command@[j] == self.mir.value()[j],
            decreases 8 - i,
        {
            next_command[i] = next_command[i] || (mbr_value[i] && jmpc);
            i += 1;
        }
        assert(next_command@ =~= Seq::new(
            9,
            |i: int|
                if i < 8 {
                    self.mir.value()[i] || (self.mir.value()[9] && self.mbr.value()[i])
                } else {
                    self.mir.value()[8]
                },
        ));
        next_command
    }

    /// Wired-OR of every register that its control line gates onto the B bus.
    fn run_b_bus(&self, controls: BBusControls) -> (r: Bus32)
        ensures
            r.data@ == Seq::new(
                32,
                |i: int|
                    (controls.controls@[0] && self.mdr.value()[i]) || (controls.controls@[1]
                        && self.pc.value()[i]) || (controls.controls@[2] && sign_extended(
                        self.mbr.value(),
                    )[i]) || (controls.controls@[3] && zero_extended(self.mbr.value())[i])
                        || (controls.controls@[4] && self.sp.value()[i]) || (
                    controls.controls@[5] && self.lv.value()[i]) || (controls.controls@[6]
                        && self.cpp.value()[i]) || (controls.controls@[7] && self.tos.value()[i])
                        || (controls.controls@[8] && self.opc.value()[i]),
            ),
    {
        let mut bus = Bus32::new();
        bus.connect(self.mdr.read(controls.mdr()));
        bus.connect(self.pc.read(controls.pc()));
        bus.connect(extend_byte(self.mbr.read(controls.mbr()), true));
        bus.connect(extend_byte(self.mbr.read(controls.mbru()), false));
        bus.connect(self.sp.read(controls.sp()));
        bus.connect(self.lv.read(controls.lv()));
        bus.connect(self.cpp.read(controls.cpp()));
        bus.connect(self.tos.read(controls.tos()));
        bus.connect(self.opc.read(controls.opc()));
        assert(bus.data@ =~= Seq::new(
            32,
            |i: int|
                (controls.controls@[0] && self.mdr.value()[i]) || (controls.controls@[1]
                    && self.pc.value()[i]) || (controls.controls@[2] && sign_extended(
                    self.mbr.value(),
                )[i]) || (controls.controls@[3] && zero_extended(self.mbr.value())[i]) || (
                controls.controls@[4] && self.sp.value()[i]) || (controls.controls@[5]
                    && self.lv.value()[i]) || (controls.controls@[6] && self.cpp.value()[i]) || (
                controls.controls@[7] && self.tos.value()[i]) || (controls.controls@[8]
                    && self.opc.value()[i]),
        ));
        bus
    }

    /// Writes the C bus into each register whose enable line is set.
    fn run_c_bus(&mut self, bus: &Bus32, controls: CBusControls)
        ensures
            final(self).h.value() == if controls.controls@[0] { bus.data@ } else { old(self).h.value() },
            final(self).opc.value() == if controls.controls@[1] { bus.data@ } else { old(self).opc.value() },
            final(self).tos.value() == if controls.controls@[2] { bus.data@ } else { old(self).tos.value() },
            final(self).cpp.value() == if controls.controls@[3] { bus.data@ } else { old(self).cpp.value() },
            final(self).lv.value() == if controls.controls@[4] { bus.data@ } else { old(self).lv.value() },
            final(self).sp.value() == if controls.controls@[5] { bus.data@ } else { old(self).sp.value() },
            final(self).pc.value() == if controls.controls@[6] { bus.data@ } else { old(self).pc.value() },
            final(self).mdr.value() == if controls.controls@[7] { bus.data@ } else { old(self).mdr.value() },
            final(self).mar.value() == if controls.controls@[8] { bus.data@ } else { old(self).mar.value() },
            final(self).mir == old(self).mir,
            final(self).mpc == old(self).mpc,
            final(self).mbr == old(self).mbr,
            final(self).control_memory == old(self).control_memory,
            final(self).main_memory == old(self).main_memory,
    {
        self.h.update_from_bus(bus, controls.h());
        self.opc.update_from_bus(bus, controls.opc());
        self.tos.update_from_bus(bus, controls.tos());
        self.cpp.update_from_bus(bus, controls.cpp());
        self.lv.update_from_bus(bus, controls.lv());
        self.sp.update_from_bus(bus, controls.sp());
        self.pc.update_from_bus(bus, controls.pc());
        self.mdr.update_from_bus(bus, controls.mdr());
        self.mar.update_from_bus(bus, controls.mar());
    }
}

/// `trace` is a run: each state is one micro-cycle after the one before it.
pub open spec fn is_trace(trace: Seq<Mic1>) -> bool {
    forall|i: int| 0 <= i < trace.len() - 1 ==> #[trigger] trace[i].cycle(trace[i + 1])
}

/// The step that a row is, where the table gives it a name.
pub open spec fn is_step(row: Seq<bool>, m: MicroAsm) -> bool {
    row == micro_row(m)
}

/// MIR holds `Main1`'s row: a macro-instruction has just been dispatched.
pub open spec fn at_main(m: Mic1) -> bool {
    is_step(m.mir.value(), MicroAsm::Main1)
}

/// PC has left `0..last`: the bound of `run`.
pub open spec fn pc_past(m: Mic1, last: int) -> bool {
    word_of(m.pc.value()) < 0 || word_of(m.pc.value()) >= last
}

/// PC addresses a word of main memory.
pub open spec fn pc_in_memory(m: Mic1) -> bool {
    0 <= word_of(m.pc.value()) < 512
}

/// PC addresses a word of main memory that holds `stop`.
pub open spec fn at_stop_word(m: Mic1, stop: i32) -> bool {
    pc_in_memory(m) && m.main_memory.cells@[word_of(m.pc.value())] == stop
}

/// `tr` is a run that starts at `s`.
pub open spec fn run_from(tr: Seq<Mic1>, s: Mic1) -> bool {
    tr.len() >= 1 && tr[0] == s && is_trace(tr)
}

/// No state of `tr` after the first has PC past `last`, but perhaps its last.
pub open spec fn within_until_last(tr: Seq<Mic1>, last: int) -> bool {
    forall|j: int| 1 <= j < tr.len() - 1 ==> !#[trigger] pc_past(tr[j], last)
}

/// No state of `tr` after the first has PC past `last`.
pub open spec fn within(tr: Seq<Mic1>, last: int) -> bool {
    forall|j: int| 1 <= j < tr.len() ==> !#[trigger] pc_past(tr[j], last)
}

/// `tr` is a complete run of `run_until_stop`: `h` is the first state after
/// the start whose PC addresses the stop word, `i` the first state from `h`
/// on at which `Main1` has run, and the run ends at the first `Main1` after
/// `i`.
pub open spec fn stopped_run(tr: Seq<Mic1>, stop: i32, h: int, i: int) -> bool {
    &&& 1 <= h <= i < tr.len() - 1
    &&& at_stop_word(tr[h], stop)
    &&& forall|j: int| 1 <= j < h ==> !#[trigger] at_stop_word(tr[j], stop)
    &&& at_main(tr[i])
    &&& forall|j: int| h <= j < i ==> !#[trigger] at_main(tr[j])
    &&& at_main(tr.last())
    &&& forall|k: int| i < k < tr.len() - 1 ==> !#[trigger] at_main(tr[k])
}

/// `tr` is a run of `run` from `s` to `f`: it stops at its first state after
/// the start whose PC is past `last`.
pub open spec fn ran_past(tr: Seq<Mic1>, s: Mic1, f: Mic1, last: int) -> bool {
    run_from(tr, s) && tr.last() == f && tr.len() >= 2 && pc_past(tr.last(), last)
        && within_until_last(tr, last)
}

/// `tr` is a run from `s` whose PC stays within `last`, and whose last state
/// starts a cycle that addresses a word outside memory.
pub open spec fn faulted_within(tr: Seq<Mic1>, s: Mic1, last: int) -> bool {
    run_from(tr, s) && within(tr, last) && tr.len() <= CYCLE_LIMIT + 1 && tr.last().cycle_faults()
}

/// `tr` is a run of `CYCLE_LIMIT` cycles from `s` whose PC stays within `last`.
pub open spec fn ran_out_within(tr: Seq<Mic1>, s: Mic1, last: int) -> bool {
    run_from(tr, s) && within(tr, last) && tr.len() == CYCLE_LIMIT + 1
}

/// `tr` is a run of exactly `n` cycles from `s` to `f`.
pub open spec fn ran_exactly(tr: Seq<Mic1>, s: Mic1, f: Mic1, n: int) -> bool {
    run_from(tr, s) && tr.len() == n + 1 && tr.last() == f
}

/// `tr` is a run of fewer than `n` cycles from `s` whose last state starts a
/// cycle that addresses a word outside memory.
pub open spec fn faulted_before(tr: Seq<Mic1>, s: Mic1, n: int) -> bool {
    run_from(tr, s) && tr.len() <= n && tr.last().cycle_faults()
}

/// `tr` is a run from `s` to `f` of `run_until_stop` (see `stopped_run`).
pub open spec fn ran_to_stop(tr: Seq<Mic1>, s: Mic1, f: Mic1, stop: i32, h: int, i: int) -> bool {
    run_from(tr, s) && tr.last() == f && stopped_run(tr, stop, h, i)
}

/// `tr` is a run from `s` whose last state starts a cycle that addresses a
/// word outside memory, or has PC outside memory.
pub open spec fn faulted(tr: Seq<Mic1>, s: Mic1) -> bool {
    run_from(tr, s) && (tr.last().cycle_faults() || !pc_in_memory(tr.last()))
}

/// `tr` is a run of `CYCLE_LIMIT` cycles from `s`.
pub open spec fn ran_out(tr: Seq<Mic1>, s: Mic1) -> bool {
    run_from(tr, s) && tr.len() == CYCLE_LIMIT + 1
}

proof fn lemma_trace_push(tr: Seq<Mic1>, s: Mic1, t: Mic1)
    requires
        run_from(tr, s),
        tr.last().cycle(t),
    ensures
        run_from(tr.push(t), s),
        forall|j: int| 0 <= j < tr.len() ==> #[trigger] tr.push(t)[j] == tr[j],
{
    let longer = tr.push(t);
    assert forall|i: int| 0 <= i < longer.len() - 1 implies #[trigger] longer[i].cycle(longer[i + 1]) by {
        if i < tr.len() - 1 {
            assert(tr[i].cycle(tr[i + 1]));
        }
    }
}

impl Mic1 {
    /// Runs until PC has passed the program: the first state after the
    /// start whose PC is negative or at least
    /// `program_start + len_of_command + 1`. Fails on a cycle that addresses
    /// a word outside memory, and after `CYCLE_LIMIT` cycles that did not
    /// get there.
    pub fn run(&mut self, len_of_command: usize, program_start: usize) -> (r: Result<(), Mic1Fault>)
        requires
            old(self).wf(),
            len_of_command + program_start < 0x4000_0000,
        ensures
            final(self).wf(),
            r is Ok ==> exists|tr: Seq<Mic1>|
                #[trigger] ran_past(tr, *old(self), *final(self), len_of_command + 1 + program_start),
            r == Err::<(), Mic1Fault>(Mic1Fault::AddressOutOfRange) ==> exists|tr: Seq<Mic1>|
                #[trigger] faulted_within(tr, *old(self), len_of_command + 1 + program_start),
            r == Err::<(), Mic1Fault>(Mic1Fault::CycleLimit) ==> exists|tr: Seq<Mic1>|
                #[trigger] ran_out_within(tr, *old(self), len_of_command + 1 + program_start),
    {
        let last_command = (len_of_command + 1 + program_start) as i64;
        let ghost start = *old(self);
        let ghost mut tr = seq![*self];
        assert(is_trace(tr));
        let mut steps: u64 = 0;
        let mut pc_counter: i64 = 0;
        while 0 <= pc_counter && pc_counter < last_command
            invariant
                self.wf(),
                run_from(tr, start),
                start == *old(self),
                tr.last() == *self,
                tr.len() == steps + 1,
                steps <= CYCLE_LIMIT,
                last_command == len_of_command + 1 + program_start,
                within_until_last(tr, last_command as int),
                tr.len() > 1 ==> pc_counter == word_of(self.pc.value()),
                tr.len() == 1 ==> pc_counter == 0,
            decreases CYCLE_LIMIT - steps,
        {
            if steps == CYCLE_LIMIT {
                assert(ran_out_within(tr, start, len_of_command + 1 + program_start));
                return Err(Mic1Fault::CycleLimit);
            }
            let ghost before = *self;
            let ghost prev = tr;
            let ghost before = *self;
            let outcome = self.execute_command();
            assert(outcome is Err ==> before.cycle_faults());
            match outcome {
                Ok(()) => {},
                Err(e) => {
                    assert(faulted_within(tr, start, len_of_command + 1 + program_start));
                    return Err(e);
                },
            }
            proof {
                lemma_trace_push(tr, start, *self);
                tr = tr.push(*self);
                assert forall|j: int| 1 <= j < tr.len() - 1 implies !#[trigger] pc_past(tr[j], last_command as int) by {
                    assert(tr[j] == prev[j]);
                }
            }
            steps += 1;
            pc_counter = fast_encode(&self.pc.get()) as i64;
        }
        assert(ran_past(tr, start, *self, last_command as int));
        Ok(())
    }

    /// Runs exactly `len_of_command` micro-cycles; fails on the first one
    /// that addresses a word outside memory.
    pub fn run_n_times(&mut self, len_of_command: usize) -> (r: Result<(), Mic1Fault>)
        requires
            old(self).wf(),
        ensures
            final(self).wf(),
            r is Ok ==> exists|tr: Seq<Mic1>|
                #[trigger] ran_exactly(tr, *old(self), *final(self), len_of_command as int),
            r is Err ==> r == Err::<(), Mic1Fault>(Mic1Fault::AddressOutOfRange) && exists|
                tr: Seq<Mic1>,
            | #[trigger] faulted_before(tr, *old(self), len_of_command as int),
    {
        let ghost start = *old(self);
        let ghost mut tr = seq![*self];
        assert(is_trace(tr));
        let mut protect_counter: usize = 0;
        while protect_counter < len_of_command
            invariant
                self.wf(),
                protect_counter <= len_of_command,
                run_from(tr, start),
                start == *old(self),
                tr.last() == *self,
                tr.len() == protect_counter + 1,
            decreases len_of_command - protect_counter,
        {
            let ghost before = *self;
            let outcome = self.execute_command();
            assert(outcome is Err ==> before.cycle_faults());
            match outcome {
                Ok(()) => {},
                Err(e) => {
                    assert(faulted_before(tr, start, len_of_command as int));
                    return Err(e);
                },
            }
            proof {
                lemma_trace_push(tr, start, *self);
                tr = tr.push(*self);
            }
            protect_counter += 1;
        }
        assert(ran_exactly(tr, start, *self, len_of_command as int));
        Ok(())
    }

    /// Runs until the word at PC has been `stop_instruction` and `Main1` has
    /// run since, then on to the next `Main1`: the end of the
    /// macro-instruction that follows (see `stopped_run`). Fails on a cycle
    /// that addresses a word outside memory, when PC leaves memory before the
    /// stop word is found, and after `CYCLE_LIMIT` cycles.
    pub fn run_until_stop(&mut self, stop_instruction: i32) -> (r: Result<(), Mic1Fault>)
        requires
            old(self).wf(),
        ensures
            final(self).wf(),
            r is Ok ==> exists|tr: Seq<Mic1>, h: int, i: int|
                #[trigger] ran_to_stop(tr, *old(self), *final(self), stop_instruction, h, i),
            r == Err::<(), Mic1Fault>(Mic1Fault::AddressOutOfRange) ==> exists|tr: Seq<Mic1>|
                #[trigger] faulted(tr, *old(self)),
            r == Err::<(), Mic1Fault>(Mic1Fault::CycleLimit) ==> exists|tr: Seq<Mic1>|
                #[trigger] ran_out(tr, *old(self)),
    {
        let ghost start = *old(self);
        let ghost mut tr = seq![*self];
        let ghost mut h: int = 0;
        assert(is_trace(tr));
        let mut steps: u64 = 0;
        let mut hit_stop = false;
        while !(hit_stop && self.at_main1())
            invariant
                self.wf(),
                run_from(tr, start),
                start == *old(self),
                tr.last() == *self,
                tr.len() == steps + 1,
                steps <= CYCLE_LIMIT,
                hit_stop ==> 1 <= h < tr.len() && at_stop_word(tr[h], stop_instruction) && (
                forall|j: int| 1 <= j < h ==> !#[trigger] at_stop_word(tr[j], stop_instruction))
                    && (forall|j: int| h <= j < tr.len() - 1 ==> !#[trigger] at_main(tr[j])),
                !hit_stop ==> forall|j: int|
                    1 <= j < tr.len() ==> !#[trigger] at_stop_word(tr[j], stop_instruction),
            decreases CYCLE_LIMIT - steps,
        {
            if steps == CYCLE_LIMIT {
                assert(ran_out(tr, start));
                return Err(Mic1Fault::CycleLimit);
            }
            let ghost prev = tr;
            let ghost was_main = at_main(*self);
            let ghost before = *self;
            let outcome = self.execute_command();
            assert(outcome is Err ==> before.cycle_faults());
            match outcome {
                Ok(()) => {},
                Err(e) => {
                    assert(faulted(tr, start));
                    return Err(e);
                },
            }
            proof {
                lemma_trace_push(tr, start, *self);
                tr = tr.push(*self);
            }
            steps += 1;
            let pc_counter = fast_encode(&self.pc.get());
            if pc_counter < 0 || pc_counter >= 512 {
                assert(faulted(tr, start));
                return Err(Mic1Fault::AddressOutOfRange);
            }
            let here = self.main_memory.read_number(pc_counter as usize) == stop_instruction;
            proof {
                if !hit_stop && here {
                    h = tr.len() - 1;
                }
                assert forall|j: int| 1 <= j < tr.len() - 1 implies tr[j] == prev[j] by {}
            }
            hit_stop = hit_stop || here;
        }

        // Finish the last command
        let ghost i = tr.len() - 1;
        if steps == CYCLE_LIMIT {
            assert(ran_out(tr, start));
            return Err(Mic1Fault::CycleLimit);
        }
        let ghost before = *self;
        let outcome = self.execute_command();
        assert(outcome is Err ==> before.cycle_faults());
        match outcome {
            Ok(()) => {},
            Err(e) => {
                assert(faulted(tr, start));
                return Err(e);
            },
        }
        proof {
            lemma_trace_push(tr, start, *self);
            tr = tr.push(*self);
        }
        steps += 1;
        while !self.at_main1()
            invariant
                self.wf(),
                run_from(tr, start),
                start == *old(self),
                tr.last() == *self,
                tr.len() == steps + 1,
                steps <= CYCLE_LIMIT,
                1 <= h <= i < tr.len() - 1,
                at_stop_word(tr[h], stop_instruction),
                forall|j: int| 1 <= j < h ==> !#[trigger] at_stop_word(tr[j], stop_instruction),
                at_main(tr[i]),
                forall|j: int| h <= j < i ==> !#[trigger] at_main(tr[j]),
                forall|k: int| i < k < tr.len() - 1 ==> !#[trigger] at_main(tr[k]),
            decreases CYCLE_LIMIT - steps,
        {
            if steps == CYCLE_LIMIT {
                assert(ran_out(tr, start));
                return Err(Mic1Fault::CycleLimit);
            }
            let ghost prev = tr;
            let ghost before = *self;
            let outcome = self.execute_command();
            assert(outcome is Err ==> before.cycle_faults());
            match outcome {
                Ok(()) => {},
                Err(e) => {
                    assert(faulted(tr, start));
                    return Err(e);
                },
            }
            proof {
                lemma_trace_push(tr, start, *self);
                tr = tr.push(*self);
            }
            steps += 1;
        }
        assert(stopped_run(tr, stop_instruction, h, i));
        assert(ran_to_stop(tr, start, *self, stop_instruction, h, i));
        Ok(())
    }

    /// The micro-instruction register holds `Main1`'s row.
    pub fn at_main1(&self) -> (r: bool)
        ensures
            r == is_step(self.mir.value(), MicroAsm::Main1),
    {
        let current_mir = self.mir.read(true);
        assert(current_mir@ =~= self.mir.value());
        Mic1::arrays_equals(&MicroAsm::Main1.command(), &current_mir)
    }

    /// A step whose row the micro-instruction register holds, `nop1` when
    /// none does.
    pub fn get_current_command(&self) -> (r: MicroAsm)
        ensures
            is_step(self.mir.value(), r) || r == MicroAsm::nop1,
    {
        let current_mir = self.mir.read(true);
        assert(current_mir@ =~= self.mir.value());
        let mut address: u16 = 0;
        while address < 512
            invariant
                address <= 512,
                current_mir@ == self.mir.value(),
            decreases 512 - address,
        {
            match MicroAsm::at(address) {
                Some(comm) => {
                    if Mic1::arrays_equals(&comm.command(), &current_mir) {
                        return comm;
                    }
                },
                None => {},
            }
            address += 1;
        }
        MicroAsm::nop1
    }

    pub fn arrays_equals(first: &[bool; 36], second: &[bool; 36]) -> (r: bool)
        ensures
            r == (first@ == second@),
    {
        let mut i: usize = 0;
        while i < 36
            invariant
                i <= 36,
                forall|j: int| 0 <= j < i ==> first@[j] == second@[j],
            decreases 36 - i,
        {
            if first[i] != second[i] {
                return false;
            }
            i += 1;
        }
        assert(first@ =~= second@);
        true
    }
}

/// The low byte of `v`, widened: by its bit 7 when `sign`, by zeros when not.
fn extend_byte(v: [bool; 32], sign: bool) -> (r: [bool; 32])
    ensures
        r@ == if sign {
            sign_extended(v@)
        } else {
            zero_extended(v@)
        },
{
    let mut res = v;
    let top = sign && v[7];
    let mut x: usize = 8;
    while x < 32
        invariant
            8 <= x <= 32,
            top == (sign && v@[7]),
            forall|j: int| 0 <= j < 8 ==> res@[j] == v@[j],
            forall|j: int| 8 <= j < x ==> res@[j] == top,
        decreases 32 - x,
    {
        res[x] = top;
        x += 1;
    }
    assert(res@ =~= if sign { sign_extended(v@) } else { zero_extended(v@) });
    res
}

} // verus!

verus! {

/// After any micro-cycle, MPC holds a 9-bit address and the control store's
/// address decoder selects exactly one row for it: the row at that address.
pub proof fn lemma_one_active_micro_address(s: Mic1, t: Mic1)
    requires
        s.cycle(t),
    ensures
        bits_value(t.mpc.value()) < 512,
        forall|j: int|
            0 <= j < 512 ==> #[trigger] one_hot(512, bits_value(t.mpc.value()) as int)[j] == (j
                == bits_value(t.mpc.value())),
{
    assert(t.mpc.value().len() == 9);
    crate::decoders::lemma_decoder_one_hot(t.mpc.value());
}

} // verus!
