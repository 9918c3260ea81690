//! The fields of the micro-instruction register, and the decoded bus controls.
use crate::alu::{controls, AluControl};
use crate::memory::Register36;
use vstd::prelude::*;

verus! {

/// The one-hot B-bus source lines: MDR, PC, MBR, MBRU, SP, LV, CPP, TOS, OPC.
pub struct BBusControls {
    pub controls: [bool; 9],
}

impl BBusControls {
    pub fn new(controls: [bool; 9]) -> (r: BBusControls)
        ensures
            r.controls@ == controls@,
    {
        BBusControls { controls }
    }

    pub fn mdr(&self) -> (r: bool)
        ensures
            r == self.controls@[0],
    {
        self.controls[0]
    }

    pub fn pc(&self) -> (r: bool)
        ensures
            r == self.controls@[1],
    {
        self.controls[1]
    }

    pub fn mbr(&self) -> (r: bool)
        ensures
            r == self.controls@[2],
    {
        self.controls[2]
    }

    pub fn mbru(&self) -> (r: bool)
        ensures
            r == self.controls@[3],
    {
        self.controls[3]
    }

    pub fn sp(&self) -> (r: bool)
        ensures
            r == self.controls@[4],
    {
        self.controls[4]
    }

    pub fn lv(&self) -> (r: bool)
        ensures
            r == self.controls@[5],
    {
        self.controls[5]
    }

    pub fn cpp(&self) -> (r: bool)
        ensures
            r == self.controls@[6],
    {
        self.controls[6]
    }

    pub fn tos(&self) -> (r: bool)
        ensures
            r == self.controls@[7],
    {
        self.controls[7]
    }

    pub fn opc(&self) -> (r: bool)
        ensures
            r == self.controls@[8],
    {
        self.controls[8]
    }
}

/// The C-bus write enables: H, OPC, TOS, CPP, LV, SP, PC, MDR, MAR.
pub struct CBusControls {
    pub controls: [bool; 9],
}

impl CBusControls {
    pub fn new(controls: [bool; 9]) -> (r: CBusControls)
        ensures
            r.controls@ == controls@,
    {
        CBusControls { controls }
    }

    pub fn h(&self) -> (r: bool)
        ensures
            r == self.controls@[0],
    {
        self.controls[0]
    }

    pub fn opc(&self) -> (r: bool)
        ensures
            r == self.controls@[1],
    {
        self.controls[1]
    }

    pub fn tos(&self) -> (r: bool)
        ensures
            r == self.controls@[2],
    {
        self.controls[2]
    }

    pub fn cpp(&self) -> (r: bool)
        ensures
            r == self.controls@[3],
    {
        self.controls[3]
    }

    pub fn lv(&self) -> (r: bool)
        ensures
            r == self.controls@[4],
    {
        self.controls[4]
    }

    pub fn sp(&self) -> (r: bool)
        ensures
            r == self.controls@[5],
    {
        self.controls[5]
    }

    pub fn pc(&self) -> (r: bool)
        ensures
            r == self.controls@[6],
    {
        self.controls[6]
    }

    pub fn mdr(&self) -> (r: bool)
        ensures
            r == self.controls@[7],
    {
        self.controls[7]
    }

    pub fn mar(&self) -> (r: bool)
        ensures
            r == self.controls@[8],
    {
        self.controls[8]
    }
}

/// The ALU controls that a row holds in bits 14..19.
pub open spec fn row_alu_controls(row: Seq<bool>) -> AluControl {
    controls(row[14], row[15], row[16], row[17], row[18], row[19])
}

/// Bits `from..from + n` of a 36-bit row.
fn field<const N: usize>(row: [bool; 36], from: usize) -> (r: [bool; N])
    requires
        from + N <= 36,
    ensures
        r@ == row@.subrange(from as int, from + N),
{
    let mut res = [false; N];
    let mut i: usize = 0;
    while i < N
        invariant
            i <= N,
            from + N <= 36,
            res@.len() == N,
            forall|j: int| 0 <= j < i ==> res@[j] == row@[from + j],
        decreases N - i,
    {
        res[i] = row[from + i];
        i += 1;
    }
    assert(res@ =~= row@.subrange(from as int, from + N));
    res
}

impl Register36 {
    pub fn mir_jmpc(self) -> (r: bool)
        ensures
            r == self.value()[9],
    {
        self.get()[9]
    }

    pub fn mir_jamn(self) -> (r: bool)
        ensures
            r == self.value()[10],
    {
        self.get()[10]
    }

    pub fn mir_jamz(self) -> (r: bool)
        ensures
            r == self.value()[11],
    {
        self.get()[11]
    }

    /// The next-address field.
    pub fn mir_addr(self) -> (r: [bool; 9])
        ensures
            r@ == self.value().subrange(0, 9),
    {
        field(self.get(), 0)
    }

    /// The B-bus selector code.
    pub fn mir_b_bus_controls(self) -> (r: [bool; 4])
        ensures
            r@ == self.value().subrange(32, 36),
    {
        field(self.get(), 32)
    }

    pub fn mir_write(self) -> (r: bool)
        ensures
            r == self.value()[29],
    {
        self.get()[29]
    }

    pub fn mir_read(self) -> (r: bool)
        ensures
            r == self.value()[30],
    {
        self.get()[30]
    }

    pub fn mir_fetch(self) -> (r: bool)
        ensures
            r == self.value()[31],
    {
        self.get()[31]
    }

    pub fn mir_alu_controls(self) -> (r: AluControl)
        ensures
            r == row_alu_controls(self.value()),
    {
        let code: [bool; 6] = field(self.get(), 14);
        AluControl::from(code)
    }

    /// The C-bus write enables.
    pub fn mir_c_bus_controls(self) -> (r: CBusControls)
        ensures
            r.controls@ == self.value().subrange(20, 29),
    {
        CBusControls::new(field(self.get(), 20))
    }

    pub fn mir_ssl8(self) -> (r: bool)
        ensures
            r == self.value()[12],
    {
        self.get()[12]
    }

    pub fn mir_sra1(self) -> (r: bool)
        ensures
            r == self.value()[13],
    {
        self.get()[13]
    }
}

} // verus!
