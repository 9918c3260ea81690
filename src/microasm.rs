//! The microprogram: the fixed rows of the control store.
use crate::codec::fast_decode;
use crate::word::word_bits;
use vstd::prelude::*;

verus! {

/// A row with every bit clear.
pub open spec fn blank() -> Seq<bool> {
    Seq::new(36, |i: int| false)
}

/// `s` with bit `i` set.
pub open spec fn with_bit(s: Seq<bool>, i: int) -> Seq<bool> {
    s.update(i, true)
}

/// `s` with the next-address field (bits 0..8) holding `a`.
pub open spec fn with_next(s: Seq<bool>, a: int) -> Seq<bool> {
    Seq::new(36, |i: int| if i < 9 { word_bits(a)[i] } else { s[i] })
}

/// Bit 9: OR MBR into the next address.
pub open spec fn jmpc(s: Seq<bool>) -> Seq<bool> {
    with_bit(s, 9)
}

/// Bit 10: branch on N.
pub open spec fn jamn(s: Seq<bool>) -> Seq<bool> {
    with_bit(s, 10)
}

/// Bit 11: branch on Z.
pub open spec fn jamz(s: Seq<bool>) -> Seq<bool> {
    with_bit(s, 11)
}

/// Bit 12: shift the C bus left 8.
pub open spec fn sll8(s: Seq<bool>) -> Seq<bool> {
    with_bit(s, 12)
}

/// Bit 13: shift the C bus right 1.
pub open spec fn sra1(s: Seq<bool>) -> Seq<bool> {
    with_bit(s, 13)
}

/// Bit 14: ALU F0.
pub open spec fn f0(s: Seq<bool>) -> Seq<bool> {
    with_bit(s, 14)
}

/// Bit 15: ALU F1.
pub open spec fn f1(s: Seq<bool>) -> Seq<bool> {
    with_bit(s, 15)
}

/// Bit 16: ALU ENA.
pub open spec fn ena(s: Seq<bool>) -> Seq<bool> {
    with_bit(s, 16)
}

/// Bit 17: ALU ENB.
pub open spec fn enb(s: Seq<bool>) -> Seq<bool> {
    with_bit(s, 17)
}

/// Bit 18: ALU INVA.
pub open spec fn inva(s: Seq<bool>) -> Seq<bool> {
    with_bit(s, 18)
}

/// Bit 19: ALU INC.
pub open spec fn inc(s: Seq<bool>) -> Seq<bool> {
    with_bit(s, 19)
}

/// Bit 20: C bus to H.
pub open spec fn w_h(s: Seq<bool>) -> Seq<bool> {
    with_bit(s, 20)
}

/// Bit 21: C bus to OPC.
pub open spec fn w_opc(s: Seq<bool>) -> Seq<bool> {
    with_bit(s, 21)
}

/// Bit 22: C bus to TOS.
pub open spec fn w_tos(s: Seq<bool>) -> Seq<bool> {
    with_bit(s, 22)
}

/// Bit 23: C bus to CPP.
pub open spec fn w_cpp(s: Seq<bool>) -> Seq<bool> {
    with_bit(s, 23)
}

/// Bit 24: C bus to LV.
pub open spec fn w_lv(s: Seq<bool>) -> Seq<bool> {
    with_bit(s, 24)
}

/// Bit 25: C bus to SP.
pub open spec fn w_sp(s: Seq<bool>) -> Seq<bool> {
    with_bit(s, 25)
}

/// Bit 26: C bus to PC.
pub open spec fn w_pc(s: Seq<bool>) -> Seq<bool> {
    with_bit(s, 26)
}

/// Bit 27: C bus to MDR.
pub open spec fn w_mdr(s: Seq<bool>) -> Seq<bool> {
    with_bit(s, 27)
}

/// Bit 28: C bus to MAR.
pub open spec fn w_mar(s: Seq<bool>) -> Seq<bool> {
    with_bit(s, 28)
}

/// Bit 29: memory write.
pub open spec fn write(s: Seq<bool>) -> Seq<bool> {
    with_bit(s, 29)
}

/// Bit 30: memory read.
pub open spec fn read(s: Seq<bool>) -> Seq<bool> {
    with_bit(s, 30)
}

/// Bit 31: instruction fetch.
pub open spec fn fetch(s: Seq<bool>) -> Seq<bool> {
    with_bit(s, 31)
}

/// B bus selector code 1.
pub open spec fn r_pc(s: Seq<bool>) -> Seq<bool> {
    with_bit(s, 32)
}

/// B bus selector code 2.
pub open spec fn r_mbr(s: Seq<bool>) -> Seq<bool> {
    with_bit(s, 33)
}

/// B bus selector code 3.
pub open spec fn r_mbru(s: Seq<bool>) -> Seq<bool> {
    with_bit(with_bit(s, 32), 33)
}

/// B bus selector code 4.
pub open spec fn r_sp(s: Seq<bool>) -> Seq<bool> {
    with_bit(s, 34)
}

/// B bus selector code 5.
pub open spec fn r_lv(s: Seq<bool>) -> Seq<bool> {
    with_bit(with_bit(s, 32), 34)
}

/// B bus selector code 6.
pub open spec fn r_cpp(s: Seq<bool>) -> Seq<bool> {
    with_bit(with_bit(s, 33), 34)
}

/// B bus selector code 7.
pub open spec fn r_tos(s: Seq<bool>) -> Seq<bool> {
    with_bit(with_bit(with_bit(s, 32), 33), 34)
}

/// B bus selector code 8.
pub open spec fn r_opc(s: Seq<bool>) -> Seq<bool> {
    with_bit(s, 35)
}

/// B bus selector code 0: MDR.
pub open spec fn r_mdr(s: Seq<bool>) -> Seq<bool> {
    s
}

/// ALU computes `B - 1`.
pub open spec fn alu_b_dec(s: Seq<bool>) -> Seq<bool> {
    inva(enb(f1(f0(s))))
}

/// ALU computes `B + 1`.
pub open spec fn alu_b_inc(s: Seq<bool>) -> Seq<bool> {
    inc(enb(f1(f0(s))))
}

/// ALU computes `A + B`.
pub open spec fn alu_sum(s: Seq<bool>) -> Seq<bool> {
    enb(ena(f1(f0(s))))
}

/// ALU computes `A + B + 1`.
pub open spec fn alu_sum_inc(s: Seq<bool>) -> Seq<bool> {
    inc(enb(ena(f1(f0(s)))))
}

/// ALU computes `B - A`.
pub open spec fn alu_sub(s: Seq<bool>) -> Seq<bool> {
    inc(inva(enb(ena(f1(f0(s))))))
}

/// ALU computes `A AND B`.
pub open spec fn alu_and(s: Seq<bool>) -> Seq<bool> {
    enb(ena(s))
}

/// ALU computes `A OR B`.
pub open spec fn alu_or(s: Seq<bool>) -> Seq<bool> {
    enb(ena(f1(s)))
}

/// ALU computes `B`.
pub open spec fn alu_b(s: Seq<bool>) -> Seq<bool> {
    enb(f1(s))
}

/// ALU computes `A`.
pub open spec fn alu_a(s: Seq<bool>) -> Seq<bool> {
    ena(f1(s))
}

/// Builds one row bit by bit.
struct Cb {
    command: [bool; 36],
}

impl Cb {
    fn new() -> (r: Cb)
        ensures
            r.command@ == blank(),
    {
        let r = Cb { command: [false; 36] };
        assert(r.command@ =~= blank());
        r
    }

    fn bit(self, i: usize) -> (r: Cb)
        requires
            i < 36,
        ensures
            r.command@ == with_bit(self.command@, i as int),
    {
        let mut command = self.command;
        command[i] = true;
        Cb { command }
    }

    /// The row, with the next-address field holding `addr`.
    fn next_address(self, addr: u16) -> (r: [bool; 36])
        requires
            addr < 512,
        ensures
            r@ == with_next(self.command@, addr as int),
    {
        let decoded = fast_decode(addr as i32);
        let mut command = self.command;
        let mut x: usize = 0;
        while x < 9
            invariant
                x <= 9,
                decoded@ == word_bits(addr as int),
                forall|j: int| 0 <= j < x ==> command@[j] == decoded@[j],
                forall|j: int| 9 <= j < 36 ==> command@[j] == self.command@[j],
            decreases 9 - x,
        {
            command[x] = decoded[x];
            x += 1;
        }
        assert(command@ =~= with_next(self.command@, addr as int));
        command
    }

    /// The row, continuing at `next`.
    fn next_command(self, next: MicroAsm) -> (r: [bool; 36])
        ensures
            r@ == with_next(self.command@, next.spec_address()),
    {
        self.next_address(next.address())
    }

    /// The row, continuing at `Main1`.
    fn finish(self) -> (r: [bool; 36])
        ensures
            r@ == with_next(self.command@, MicroAsm::Main1.spec_address()),
    {
        self.next_command(MicroAsm::Main1)
    }

    /// The row as built: the next-address field stays zero.
    fn get(self) -> (r: [bool; 36])
        ensures
            r@ == self.command@,
    {
        self.command
    }

    fn jmpc(self) -> (r: Cb)
        ensures
            r.command@ == jmpc(self.command@),
    {
        self.bit(9)
    }

    fn jamn(self) -> (r: Cb)
        ensures
            r.command@ == jamn(self.command@),
    {
        self.bit(10)
    }

    fn jamz(self) -> (r: Cb)
        ensures
            r.command@ == jamz(self.command@),
    {
        self.bit(11)
    }

    fn sll8(self) -> (r: Cb)
        ensures
            r.command@ == sll8(self.command@),
    {
        self.bit(12)
    }

    fn sra1(self) -> (r: Cb)
        ensures
            r.command@ == sra1(self.command@),
    {
        self.bit(13)
    }

    fn f0(self) -> (r: Cb)
        ensures
            r.command@ == f0(self.command@),
    {
        self.bit(14)
    }

    fn f1(self) -> (r: Cb)
        ensures
            r.command@ == f1(self.command@),
    {
        self.bit(15)
    }

    fn ena(self) -> (r: Cb)
        ensures
            r.command@ == ena(self.command@),
    {
        self.bit(16)
    }

    fn enb(self) -> (r: Cb)
        ensures
            r.command@ == enb(self.command@),
    {
        self.bit(17)
    }

    fn inva(self) -> (r: Cb)
        ensures
            r.command@ == inva(self.command@),
    {
        self.bit(18)
    }

    fn inc(self) -> (r: Cb)
        ensures
            r.command@ == inc(self.command@),
    {
        self.bit(19)
    }

    fn w_h(self) -> (r: Cb)
        ensures
            r.command@ == w_h(self.command@),
    {
        self.bit(20)
    }

    fn w_opc(self) -> (r: Cb)
        ensures
            r.command@ == w_opc(self.command@),
    {
        self.bit(21)
    }

    fn w_tos(self) -> (r: Cb)
        ensures
            r.command@ == w_tos(self.command@),
    {
        self.bit(22)
    }

    fn w_cpp(self) -> (r: Cb)
        ensures
            r.command@ == w_cpp(self.command@),
    {
        self.bit(23)
    }

    fn w_lv(self) -> (r: Cb)
        ensures
            r.command@ == w_lv(self.command@),
    {
        self.bit(24)
    }

    fn w_sp(self) -> (r: Cb)
        ensures
            r.command@ == w_sp(self.command@),
    {
        self.bit(25)
    }

    fn w_pc(self) -> (r: Cb)
        ensures
            r.command@ == w_pc(self.command@),
    {
        self.bit(26)
    }

    fn w_mdr(self) -> (r: Cb)
        ensures
            r.command@ == w_mdr(self.command@),
    {
        self.bit(27)
    }

    fn w_mar(self) -> (r: Cb)
        ensures
            r.command@ == w_mar(self.command@),
    {
        self.bit(28)
    }

    fn write(self) -> (r: Cb)
        ensures
            r.command@ == write(self.command@),
    {
        self.bit(29)
    }

    fn read(self) -> (r: Cb)
        ensures
            r.command@ == read(self.command@),
    {
        self.bit(30)
    }

    fn fetch(self) -> (r: Cb)
        ensures
            r.command@ == fetch(self.command@),
    {
        self.bit(31)
    }

    fn r_pc(self) -> (r: Cb)
        ensures
            r.command@ == r_pc(self.command@),
    {
        self.bit(32)
    }

    fn r_mbr(self) -> (r: Cb)
        ensures
            r.command@ == r_mbr(self.command@),
    {
        self.bit(33)
    }

    fn r_mbru(self) -> (r: Cb)
        ensures
            r.command@ == r_mbru(self.command@),
    {
        self.bit(32).bit(33)
    }

    fn r_sp(self) -> (r: Cb)
        ensures
            r.command@ == r_sp(self.command@),
    {
        self.bit(34)
    }

    fn r_lv(self) -> (r: Cb)
        ensures
            r.command@ == r_lv(self.command@),
    {
        self.bit(32).bit(34)
    }

    fn r_cpp(self) -> (r: Cb)
        ensures
            r.command@ == r_cpp(self.command@),
    {
        self.bit(33).bit(34)
    }

    fn r_tos(self) -> (r: Cb)
        ensures
            r.command@ == r_tos(self.command@),
    {
        self.bit(32).bit(33).bit(34)
    }

    fn r_opc(self) -> (r: Cb)
        ensures
            r.command@ == r_opc(self.command@),
    {
        self.bit(35)
    }

    fn r_mdr(self) -> (r: Cb)
        ensures
            r.command@ == r_mdr(self.command@),
    {
        self
    }

    fn alu_b_dec(self) -> (r: Cb)
        ensures
            r.command@ == alu_b_dec(self.command@),
    {
        self.f0().f1().enb().inva()
    }

    fn alu_b_inc(self) -> (r: Cb)
        ensures
            r.command@ == alu_b_inc(self.command@),
    {
        self.f0().f1().enb().inc()
    }

    fn alu_sum(self) -> (r: Cb)
        ensures
            r.command@ == alu_sum(self.command@),
    {
        self.f0().f1().ena().enb()
    }

    fn alu_sum_inc(self) -> (r: Cb)
        ensures
            r.command@ == alu_sum_inc(self.command@),
    {
        self.f0().f1().ena().enb().inc()
    }

    fn alu_sub(self) -> (r: Cb)
        ensures
            r.command@ == alu_sub(self.command@),
    {
        self.f0().f1().ena().enb().inva().inc()
    }

    fn alu_and(self) -> (r: Cb)
        ensures
            r.command@ == alu_and(self.command@),
    {
        self.ena().enb()
    }

    fn alu_or(self) -> (r: Cb)
        ensures
            r.command@ == alu_or(self.command@),
    {
        self.f1().ena().enb()
    }

    fn alu_b(self) -> (r: Cb)
        ensures
            r.command@ == alu_b(self.command@),
    {
        self.f1().enb()
    }

    fn alu_a(self) -> (r: Cb)
        ensures
            r.command@ == alu_a(self.command@),
    {
        self.f1().ena()
    }
}

/// The micro-steps of the control store, one per row in use.
#[allow(non_camel_case_types)]
#[derive(Clone, Copy, Debug, PartialEq, Eq, Structural)]
pub enum MicroAsm {
    Main1,
    nop1,
    iadd1,
    iadd2,
    iadd3,
    isub1,
    isub2,
    isub3,
    iand1,
    iand2,
    iand3,
    ior1,
    ior2,
    ior3,
    dup1,
    dup2,
    pop1,
    pop2,
    pop3,
    swap1,
    swap2,
    swap3,
    swap4,
    swap5,
    swap6,
    bipush1,
    bipush2,
    bipush3,
    iload1,
    iload2,
    iload3,
    iload4,
    iload5,
    istore1,
    istore2,
    istore3,
    istore4,
    istore5,
    istore6,
    wide1,
    wide2,
    wide_iload1,
    wide_iload2,
    wide_iload3,
    wide_iload4,
    wide_istore1,
    wide_istore2,
    wide_istore3,
    wide_istore4,
    ldc_w1,
    ldc_w2,
    ldc_w3,
    ldc_w4,
    iinc1,
    iinc2,
    iinc3,
    iinc4,
    iinc5,
    iinc6,
    goto1,
    goto2,
    goto3,
    goto4,
    goto5,
    goto6,
    iflt1,
    iflt2,
    iflt3,
    iflt4,
    ifeq1,
    ifeq2,
    ifeq3,
    ifeq4,
    if_icmpeq1,
    if_icmpeq2,
    if_icmpeq3,
    if_icmpeq4,
    if_icmpeq5,
    if_icmpeq6,
    F,
    F2,
    F3,
    T,
    invokevirtual1,
    invokevirtual2,
    invokevirtual3,
    invokevirtual4,
    invokevirtual5,
    invokevirtual6,
    invokevirtual7,
    invokevirtual8,
    invokevirtual9,
    invokevirtual10,
    invokevirtual11,
    invokevirtual12,
    invokevirtual13,
    invokevirtual14,
    invokevirtual15,
    invokevirtual16,
    invokevirtual17,
    invokevirtual18,
    invokevirtual19,
    invokevirtual20,
    invokevirtual21,
    invokevirtual22,
    ireturn1,
    ireturn2,
    ireturn3,
    ireturn4,
    ireturn5,
    ireturn6,
    ireturn7,
    ireturn8,
}

impl MicroAsm {
    /// The row that holds this step. An opcode's first step sits at the opcode;
    /// later steps follow it, displaced where they would collide.
    pub open spec fn spec_address(self) -> int {
        match self {
            MicroAsm::Main1 => 0x1,
            MicroAsm::nop1 => 0x0,
            MicroAsm::iadd1 => 0x60,
            MicroAsm::iadd2 => 0x61,
            MicroAsm::iadd3 => 0x62,
            MicroAsm::isub1 => 0x64,
            MicroAsm::isub2 => 0x65,
            MicroAsm::isub3 => 0x66,
            MicroAsm::iand1 => 0x7e,
            MicroAsm::iand2 => 0x7f,
            MicroAsm::iand3 => 0x83,
            MicroAsm::ior1 => 0x80,
            MicroAsm::ior2 => 0x81,
            MicroAsm::ior3 => 0x82,
            MicroAsm::dup1 => 0x59,
            MicroAsm::dup2 => 0x5a,
            MicroAsm::pop1 => 0x57,
            MicroAsm::pop2 => 0x58,
            MicroAsm::pop3 => 0x5c,
            MicroAsm::swap1 => 0x5f,
            MicroAsm::swap2 => 0x6a,
            MicroAsm::swap3 => 0x6b,
            MicroAsm::swap4 => 0x6c,
            MicroAsm::swap5 => 0x6d,
            MicroAsm::swap6 => 0x6e,
            MicroAsm::bipush1 => 0x10,
            MicroAsm::bipush2 => 0x11,
            MicroAsm::bipush3 => 0x12,
            MicroAsm::iload1 => 0x15,
            MicroAsm::iload2 => 0x16,
            MicroAsm::iload3 => 0x17,
            MicroAsm::iload4 => 0x18,
            MicroAsm::iload5 => 0x19,
            MicroAsm::istore1 => 0x36,
            MicroAsm::istore2 => 0x37,
            MicroAsm::istore3 => 0x38,
            MicroAsm::istore4 => 0x39,
            MicroAsm::istore5 => 0x3a,
            MicroAsm::istore6 => 0x3b,
            MicroAsm::wide1 => 0xc4,
            MicroAsm::wide2 => 0xc5,
            MicroAsm::wide_iload1 => 0x115,
            MicroAsm::wide_iload2 => 0x116,
            MicroAsm::wide_iload3 => 0x117,
            MicroAsm::wide_iload4 => 0x118,
            MicroAsm::wide_istore1 => 0x136,
            MicroAsm::wide_istore2 => 0x137,
            MicroAsm::wide_istore3 => 0x138,
            MicroAsm::wide_istore4 => 0x139,
            MicroAsm::ldc_w1 => 0x13,
            MicroAsm::ldc_w2 => 0x14,
            MicroAsm::ldc_w3 => 0x1a,
            MicroAsm::ldc_w4 => 0x1c,
            MicroAsm::iinc1 => 0x84,
            MicroAsm::iinc2 => 0x85,
            MicroAsm::iinc3 => 0x86,
            MicroAsm::iinc4 => 0x87,
            MicroAsm::iinc5 => 0x88,
            MicroAsm::iinc6 => 0x89,
            MicroAsm::goto1 => 0xa7,
            MicroAsm::goto2 => 0xa8,
            MicroAsm::goto3 => 0xa9,
            MicroAsm::goto4 => 0xaa,
            MicroAsm::goto5 => 0xae,
            MicroAsm::goto6 => 0xb0,
            MicroAsm::iflt1 => 0x9b,
            MicroAsm::iflt2 => 0x9c,
            MicroAsm::iflt3 => 0x9d,
            MicroAsm::iflt4 => 0x9e,
            MicroAsm::ifeq1 => 0x99,
            MicroAsm::ifeq2 => 0x9a,
            MicroAsm::ifeq3 => 0xa0,
            MicroAsm::ifeq4 => 0xa2,
            MicroAsm::if_icmpeq1 => 0x9f,
            MicroAsm::if_icmpeq2 => 0xad,
            MicroAsm::if_icmpeq3 => 0xaf,
            MicroAsm::if_icmpeq4 => 0xb1,
            MicroAsm::if_icmpeq5 => 0xb3,
            MicroAsm::if_icmpeq6 => 0xb5,
            MicroAsm::F => 0x2,
            MicroAsm::F2 => 0x3,
            MicroAsm::F3 => 0x4,
            MicroAsm::T => 0x102,
            MicroAsm::invokevirtual1 => 0xb6,
            MicroAsm::invokevirtual2 => 0xb7,
            MicroAsm::invokevirtual3 => 0xb8,
            MicroAsm::invokevirtual4 => 0xb9,
            MicroAsm::invokevirtual5 => 0xba,
            MicroAsm::invokevirtual6 => 0xbb,
            MicroAsm::invokevirtual7 => 0xbc,
            MicroAsm::invokevirtual8 => 0xbd,
            MicroAsm::invokevirtual9 => 0xbe,
            MicroAsm::invokevirtual10 => 0xbf,
            MicroAsm::invokevirtual11 => 0xc0,
            MicroAsm::invokevirtual12 => 0xc1,
            MicroAsm::invokevirtual13 => 0xc2,
            MicroAsm::invokevirtual14 => 0xc3,
            MicroAsm::invokevirtual15 => 0xc7,
            MicroAsm::invokevirtual16 => 0xc9,
            MicroAsm::invokevirtual17 => 0xcb,
            MicroAsm::invokevirtual18 => 0xcd,
            MicroAsm::invokevirtual19 => 0xcf,
            MicroAsm::invokevirtual20 => 0xd1,
            MicroAsm::invokevirtual21 => 0xd3,
            MicroAsm::invokevirtual22 => 0xd5,
            MicroAsm::ireturn1 => 0xac,
            MicroAsm::ireturn2 => 0xb2,
            MicroAsm::ireturn3 => 0xb4,
            MicroAsm::ireturn4 => 0xd6,
            MicroAsm::ireturn5 => 0xd8,
            MicroAsm::ireturn6 => 0xda,
            MicroAsm::ireturn7 => 0xdc,
            MicroAsm::ireturn8 => 0xde,
        }
    }

    pub fn address(&self) -> (r: u16)
        ensures
            r == self.spec_address(),
    {
        match self {
            MicroAsm::Main1 => 0x1,
            MicroAsm::nop1 => 0x0,
            MicroAsm::iadd1 => 0x60,
            MicroAsm::iadd2 => 0x61,
            MicroAsm::iadd3 => 0x62,
            MicroAsm::isub1 => 0x64,
            MicroAsm::isub2 => 0x65,
            MicroAsm::isub3 => 0x66,
            MicroAsm::iand1 => 0x7e,
            MicroAsm::iand2 => 0x7f,
            MicroAsm::iand3 => 0x83,
            MicroAsm::ior1 => 0x80,
            MicroAsm::ior2 => 0x81,
            MicroAsm::ior3 => 0x82,
            MicroAsm::dup1 => 0x59,
            MicroAsm::dup2 => 0x5a,
            MicroAsm::pop1 => 0x57,
            MicroAsm::pop2 => 0x58,
            MicroAsm::pop3 => 0x5c,
            MicroAsm::swap1 => 0x5f,
            MicroAsm::swap2 => 0x6a,
            MicroAsm::swap3 => 0x6b,
            MicroAsm::swap4 => 0x6c,
            MicroAsm::swap5 => 0x6d,
            MicroAsm::swap6 => 0x6e,
            MicroAsm::bipush1 => 0x10,
            MicroAsm::bipush2 => 0x11,
            MicroAsm::bipush3 => 0x12,
            MicroAsm::iload1 => 0x15,
            MicroAsm::iload2 => 0x16,
            MicroAsm::iload3 => 0x17,
            MicroAsm::iload4 => 0x18,
            MicroAsm::iload5 => 0x19,
            MicroAsm::istore1 => 0x36,
            MicroAsm::istore2 => 0x37,
            MicroAsm::istore3 => 0x38,
            MicroAsm::istore4 => 0x39,
            MicroAsm::istore5 => 0x3a,
            MicroAsm::istore6 => 0x3b,
            MicroAsm::wide1 => 0xc4,
            MicroAsm::wide2 => 0xc5,
            MicroAsm::wide_iload1 => 0x115,
            MicroAsm::wide_iload2 => 0x116,
            MicroAsm::wide_iload3 => 0x117,
            MicroAsm::wide_iload4 => 0x118,
            MicroAsm::wide_istore1 => 0x136,
            MicroAsm::wide_istore2 => 0x137,
            MicroAsm::wide_istore3 => 0x138,
            MicroAsm::wide_istore4 => 0x139,
            MicroAsm::ldc_w1 => 0x13,
            MicroAsm::ldc_w2 => 0x14,
            MicroAsm::ldc_w3 => 0x1a,
            MicroAsm::ldc_w4 => 0x1c,
            MicroAsm::iinc1 => 0x84,
            MicroAsm::iinc2 => 0x85,
            MicroAsm::iinc3 => 0x86,
            MicroAsm::iinc4 => 0x87,
            MicroAsm::iinc5 => 0x88,
            MicroAsm::iinc6 => 0x89,
            MicroAsm::goto1 => 0xa7,
            MicroAsm::goto2 => 0xa8,
            MicroAsm::goto3 => 0xa9,
            MicroAsm::goto4 => 0xaa,
            MicroAsm::goto5 => 0xae,
            MicroAsm::goto6 => 0xb0,
            MicroAsm::iflt1 => 0x9b,
            MicroAsm::iflt2 => 0x9c,
            MicroAsm::iflt3 => 0x9d,
            MicroAsm::iflt4 => 0x9e,
            MicroAsm::ifeq1 => 0x99,
            MicroAsm::ifeq2 => 0x9a,
            MicroAsm::ifeq3 => 0xa0,
            MicroAsm::ifeq4 => 0xa2,
            MicroAsm::if_icmpeq1 => 0x9f,
            MicroAsm::if_icmpeq2 => 0xad,
            MicroAsm::if_icmpeq3 => 0xaf,
            MicroAsm::if_icmpeq4 => 0xb1,
            MicroAsm::if_icmpeq5 => 0xb3,
            MicroAsm::if_icmpeq6 => 0xb5,
            MicroAsm::F => 0x2,
            MicroAsm::F2 => 0x3,
            MicroAsm::F3 => 0x4,
            MicroAsm::T => 0x102,
            MicroAsm::invokevirtual1 => 0xb6,
            MicroAsm::invokevirtual2 => 0xb7,
            MicroAsm::invokevirtual3 => 0xb8,
            MicroAsm::invokevirtual4 => 0xb9,
            MicroAsm::invokevirtual5 => 0xba,
            MicroAsm::invokevirtual6 => 0xbb,
            MicroAsm::invokevirtual7 => 0xbc,
            MicroAsm::invokevirtual8 => 0xbd,
            MicroAsm::invokevirtual9 => 0xbe,
            MicroAsm::invokevirtual10 => 0xbf,
            MicroAsm::invokevirtual11 => 0xc0,
            MicroAsm::invokevirtual12 => 0xc1,
            MicroAsm::invokevirtual13 => 0xc2,
            MicroAsm::invokevirtual14 => 0xc3,
            MicroAsm::invokevirtual15 => 0xc7,
            MicroAsm::invokevirtual16 => 0xc9,
            MicroAsm::invokevirtual17 => 0xcb,
            MicroAsm::invokevirtual18 => 0xcd,
            MicroAsm::invokevirtual19 => 0xcf,
            MicroAsm::invokevirtual20 => 0xd1,
            MicroAsm::invokevirtual21 => 0xd3,
            MicroAsm::invokevirtual22 => 0xd5,
            MicroAsm::ireturn1 => 0xac,
            MicroAsm::ireturn2 => 0xb2,
            MicroAsm::ireturn3 => 0xb4,
            MicroAsm::ireturn4 => 0xd6,
            MicroAsm::ireturn5 => 0xd8,
            MicroAsm::ireturn6 => 0xda,
            MicroAsm::ireturn7 => 0xdc,
            MicroAsm::ireturn8 => 0xde,
        }
    }

    /// The step whose row is `address`, if any.
    pub open spec fn spec_at(address: int) -> Option<MicroAsm> {
        if address == 0x0 {
            Some(MicroAsm::nop1)
        } else if address == 0x1 {
            Some(MicroAsm::Main1)
        } else if address == 0x2 {
            Some(MicroAsm::F)
        } else if address == 0x3 {
            Some(MicroAsm::F2)
        } else if address == 0x4 {
            Some(MicroAsm::F3)
        } else if address == 0x10 {
            Some(MicroAsm::bipush1)
        } else if address == 0x11 {
            Some(MicroAsm::bipush2)
        } else if address == 0x12 {
            Some(MicroAsm::bipush3)
        } else if address == 0x13 {
            Some(MicroAsm::ldc_w1)
        } else if address == 0x14 {
            Some(MicroAsm::ldc_w2)
        } else if address == 0x15 {
            Some(MicroAsm::iload1)
        } else if address == 0x16 {
            Some(MicroAsm::iload2)
        } else if address == 0x17 {
            Some(MicroAsm::iload3)
        } else if address == 0x18 {
            Some(MicroAsm::iload4)
        } else if address == 0x19 {
            Some(MicroAsm::iload5)
        } else if address == 0x1a {
            Some(MicroAsm::ldc_w3)
        } else if address == 0x1c {
            Some(MicroAsm::ldc_w4)
        } else if address == 0x36 {
            Some(MicroAsm::istore1)
        } else if address == 0x37 {
            Some(MicroAsm::istore2)
        } else if address == 0x38 {
            Some(MicroAsm::istore3)
        } else if address == 0x39 {
            Some(MicroAsm::istore4)
        } else if address == 0x3a {
            Some(MicroAsm::istore5)
        } else if address == 0x3b {
            Some(MicroAsm::istore6)
        } else if address == 0x57 {
            Some(MicroAsm::pop1)
        } else if address == 0x58 {
            Some(MicroAsm::pop2)
        } else if address == 0x59 {
            Some(MicroAsm::dup1)
        } else if address == 0x5a {
            Some(MicroAsm::dup2)
        } else if address == 0x5c {
            Some(MicroAsm::pop3)
        } else if address == 0x5f {
            Some(MicroAsm::swap1)
        } else if address == 0x60 {
            Some(MicroAsm::iadd1)
        } else if address == 0x61 {
            Some(MicroAsm::iadd2)
        } else if address == 0x62 {
            Some(MicroAsm::iadd3)
        } else if address == 0x64 {
            Some(MicroAsm::isub1)
        } else if address == 0x65 {
            Some(MicroAsm::isub2)
        } else if address == 0x66 {
            Some(MicroAsm::isub3)
        } else if address == 0x6a {
            Some(MicroAsm::swap2)
        } else if address == 0x6b {
            Some(MicroAsm::swap3)
        } else if address == 0x6c {
            Some(MicroAsm::swap4)
        } else if address == 0x6d {
            Some(MicroAsm::swap5)
        } else if address == 0x6e {
            Some(MicroAsm::swap6)
        } else if address == 0x7e {
            Some(MicroAsm::iand1)
        } else if address == 0x7f {
            Some(MicroAsm::iand2)
        } else if address == 0x80 {
            Some(MicroAsm::ior1)
        } else if address == 0x81 {
            Some(MicroAsm::ior2)
        } else if address == 0x82 {
            Some(MicroAsm::ior3)
        } else if address == 0x83 {
            Some(MicroAsm::iand3)
        } else if address == 0x84 {
            Some(MicroAsm::iinc1)
        } else if address == 0x85 {
            Some(MicroAsm::iinc2)
        } else if address == 0x86 {
            Some(MicroAsm::iinc3)
        } else if address == 0x87 {
            Some(MicroAsm::iinc4)
        } else if address == 0x88 {
            Some(MicroAsm::iinc5)
        } else if address == 0x89 {
            Some(MicroAsm::iinc6)
        } else if address == 0x99 {
            Some(MicroAsm::ifeq1)
        } else if address == 0x9a {
            Some(MicroAsm::ifeq2)
        } else if address == 0x9b {
            Some(MicroAsm::iflt1)
        } else if address == 0x9c {
            Some(MicroAsm::iflt2)
        } else if address == 0x9d {
            Some(MicroAsm::iflt3)
        } else if address == 0x9e {
            Some(MicroAsm::iflt4)
        } else if address == 0x9f {
            Some(MicroAsm::if_icmpeq1)
        } else if address == 0xa0 {
            Some(MicroAsm::ifeq3)
        } else if address == 0xa2 {
            Some(MicroAsm::ifeq4)
        } else if address == 0xa7 {
            Some(MicroAsm::goto1)
        } else if address == 0xa8 {
            Some(MicroAsm::goto2)
        } else if address == 0xa9 {
            Some(MicroAsm::goto3)
        } else if address == 0xaa {
            Some(MicroAsm::goto4)
        } else if address == 0xac {
            Some(MicroAsm::ireturn1)
        } else if address == 0xad {
            Some(MicroAsm::if_icmpeq2)
        } else if address == 0xae {
            Some(MicroAsm::goto5)
        } else if address == 0xaf {
            Some(MicroAsm::if_icmpeq3)
        } else if address == 0xb0 {
            Some(MicroAsm::goto6)
        } else if address == 0xb1 {
            Some(MicroAsm::if_icmpeq4)
        } else if address == 0xb2 {
            Some(MicroAsm::ireturn2)
        } else if address == 0xb3 {
            Some(MicroAsm::if_icmpeq5)
        } else if address == 0xb4 {
            Some(MicroAsm::ireturn3)
        } else if address == 0xb5 {
            Some(MicroAsm::if_icmpeq6)
        } else if address == 0xb6 {
            Some(MicroAsm::invokevirtual1)
        } else if address == 0xb7 {
            Some(MicroAsm::invokevirtual2)
        } else if address == 0xb8 {
            Some(MicroAsm::invokevirtual3)
        } else if address == 0xb9 {
            Some(MicroAsm::invokevirtual4)
        } else if address == 0xba {
            Some(MicroAsm::invokevirtual5)
        } else if address == 0xbb {
            Some(MicroAsm::invokevirtual6)
        } else if address == 0xbc {
            Some(MicroAsm::invokevirtual7)
        } else if address == 0xbd {
            Some(MicroAsm::invokevirtual8)
        } else if address == 0xbe {
            Some(MicroAsm::invokevirtual9)
        } else if address == 0xbf {
            Some(MicroAsm::invokevirtual10)
        } else if address == 0xc0 {
            Some(MicroAsm::invokevirtual11)
        } else if address == 0xc1 {
            Some(MicroAsm::invokevirtual12)
        } else if address == 0xc2 {
            Some(MicroAsm::invokevirtual13)
        } else if address == 0xc3 {
            Some(MicroAsm::invokevirtual14)
        } else if address == 0xc4 {
            Some(MicroAsm::wide1)
        } else if address == 0xc5 {
            Some(MicroAsm::wide2)
        } else if address == 0xc7 {
            Some(MicroAsm::invokevirtual15)
        } else if address == 0xc9 {
            Some(MicroAsm::invokevirtual16)
        } else if address == 0xcb {
            Some(MicroAsm::invokevirtual17)
        } else if address == 0xcd {
            Some(MicroAsm::invokevirtual18)
        } else if address == 0xcf {
            Some(MicroAsm::invokevirtual19)
        } else if address == 0xd1 {
            Some(MicroAsm::invokevirtual20)
        } else if address == 0xd3 {
            Some(MicroAsm::invokevirtual21)
        } else if address == 0xd5 {
            Some(MicroAsm::invokevirtual22)
        } else if address == 0xd6 {
            Some(MicroAsm::ireturn4)
        } else if address == 0xd8 {
            Some(MicroAsm::ireturn5)
        } else if address == 0xda {
            Some(MicroAsm::ireturn6)
        } else if address == 0xdc {
            Some(MicroAsm::ireturn7)
        } else if address == 0xde {
            Some(MicroAsm::ireturn8)
        } else if address == 0x102 {
            Some(MicroAsm::T)
        } else if address == 0x115 {
            Some(MicroAsm::wide_iload1)
        } else if address == 0x116 {
            Some(MicroAsm::wide_iload2)
        } else if address == 0x117 {
            Some(MicroAsm::wide_iload3)
        } else if address == 0x118 {
            Some(MicroAsm::wide_iload4)
        } else if address == 0x136 {
            Some(MicroAsm::wide_istore1)
        } else if address == 0x137 {
            Some(MicroAsm::wide_istore2)
        } else if address == 0x138 {
            Some(MicroAsm::wide_istore3)
        } else if address == 0x139 {
            Some(MicroAsm::wide_istore4)
        } else {
            None
        }
    }

    pub fn at(address: u16) -> (r: Option<MicroAsm>)
        ensures
            r == MicroAsm::spec_at(address as int),
    {
        match address {
            0x0 => Some(MicroAsm::nop1),
            0x1 => Some(MicroAsm::Main1),
            0x2 => Some(MicroAsm::F),
            0x3 => Some(MicroAsm::F2),
            0x4 => Some(MicroAsm::F3),
            0x10 => Some(MicroAsm::bipush1),
            0x11 => Some(MicroAsm::bipush2),
            0x12 => Some(MicroAsm::bipush3),
            0x13 => Some(MicroAsm::ldc_w1),
            0x14 => Some(MicroAsm::ldc_w2),
            0x15 => Some(MicroAsm::iload1),
            0x16 => Some(MicroAsm::iload2),
            0x17 => Some(MicroAsm::iload3),
            0x18 => Some(MicroAsm::iload4),
            0x19 => Some(MicroAsm::iload5),
            0x1a => Some(MicroAsm::ldc_w3),
            0x1c => Some(MicroAsm::ldc_w4),
            0x36 => Some(MicroAsm::istore1),
            0x37 => Some(MicroAsm::istore2),
            0x38 => Some(MicroAsm::istore3),
            0x39 => Some(MicroAsm::istore4),
            0x3a => Some(MicroAsm::istore5),
            0x3b => Some(MicroAsm::istore6),
            0x57 => Some(MicroAsm::pop1),
            0x58 => Some(MicroAsm::pop2),
            0x59 => Some(MicroAsm::dup1),
            0x5a => Some(MicroAsm::dup2),
            0x5c => Some(MicroAsm::pop3),
            0x5f => Some(MicroAsm::swap1),
            0x60 => Some(MicroAsm::iadd1),
            0x61 => Some(MicroAsm::iadd2),
            0x62 => Some(MicroAsm::iadd3),
            0x64 => Some(MicroAsm::isub1),
            0x65 => Some(MicroAsm::isub2),
            0x66 => Some(MicroAsm::isub3),
            0x6a => Some(MicroAsm::swap2),
            0x6b => Some(MicroAsm::swap3),
            0x6c => Some(MicroAsm::swap4),
            0x6d => Some(MicroAsm::swap5),
            0x6e => Some(MicroAsm::swap6),
            0x7e => Some(MicroAsm::iand1),
            0x7f => Some(MicroAsm::iand2),
            0x80 => Some(MicroAsm::ior1),
            0x81 => Some(MicroAsm::ior2),
            0x82 => Some(MicroAsm::ior3),
            0x83 => Some(MicroAsm::iand3),
            0x84 => Some(MicroAsm::iinc1),
            0x85 => Some(MicroAsm::iinc2),
            0x86 => Some(MicroAsm::iinc3),
            0x87 => Some(MicroAsm::iinc4),
            0x88 => Some(MicroAsm::iinc5),
            0x89 => Some(MicroAsm::iinc6),
            0x99 => Some(MicroAsm::ifeq1),
            0x9a => Some(MicroAsm::ifeq2),
            0x9b => Some(MicroAsm::iflt1),
            0x9c => Some(MicroAsm::iflt2),
            0x9d => Some(MicroAsm::iflt3),
            0x9e => Some(MicroAsm::iflt4),
            0x9f => Some(MicroAsm::if_icmpeq1),
            0xa0 => Some(MicroAsm::ifeq3),
            0xa2 => Some(MicroAsm::ifeq4),
            0xa7 => Some(MicroAsm::goto1),
            0xa8 => Some(MicroAsm::goto2),
            0xa9 => Some(MicroAsm::goto3),
            0xaa => Some(MicroAsm::goto4),
            0xac => Some(MicroAsm::ireturn1),
            0xad => Some(MicroAsm::if_icmpeq2),
            0xae => Some(MicroAsm::goto5),
            0xaf => Some(MicroAsm::if_icmpeq3),
            0xb0 => Some(MicroAsm::goto6),
            0xb1 => Some(MicroAsm::if_icmpeq4),
            0xb2 => Some(MicroAsm::ireturn2),
            0xb3 => Some(MicroAsm::if_icmpeq5),
            0xb4 => Some(MicroAsm::ireturn3),
            0xb5 => Some(MicroAsm::if_icmpeq6),
            0xb6 => Some(MicroAsm::invokevirtual1),
            0xb7 => Some(MicroAsm::invokevirtual2),
            0xb8 => Some(MicroAsm::invokevirtual3),
            0xb9 => Some(MicroAsm::invokevirtual4),
            0xba => Some(MicroAsm::invokevirtual5),
            0xbb => Some(MicroAsm::invokevirtual6),
            0xbc => Some(MicroAsm::invokevirtual7),
            0xbd => Some(MicroAsm::invokevirtual8),
            0xbe => Some(MicroAsm::invokevirtual9),
            0xbf => Some(MicroAsm::invokevirtual10),
            0xc0 => Some(MicroAsm::invokevirtual11),
            0xc1 => Some(MicroAsm::invokevirtual12),
            0xc2 => Some(MicroAsm::invokevirtual13),
            0xc3 => Some(MicroAsm::invokevirtual14),
            0xc4 => Some(MicroAsm::wide1),
            0xc5 => Some(MicroAsm::wide2),
            0xc7 => Some(MicroAsm::invokevirtual15),
            0xc9 => Some(MicroAsm::invokevirtual16),
            0xcb => Some(MicroAsm::invokevirtual17),
            0xcd => Some(MicroAsm::invokevirtual18),
            0xcf => Some(MicroAsm::invokevirtual19),
            0xd1 => Some(MicroAsm::invokevirtual20),
            0xd3 => Some(MicroAsm::invokevirtual21),
            0xd5 => Some(MicroAsm::invokevirtual22),
            0xd6 => Some(MicroAsm::ireturn4),
            0xd8 => Some(MicroAsm::ireturn5),
            0xda => Some(MicroAsm::ireturn6),
            0xdc => Some(MicroAsm::ireturn7),
            0xde => Some(MicroAsm::ireturn8),
            0x102 => Some(MicroAsm::T),
            0x115 => Some(MicroAsm::wide_iload1),
            0x116 => Some(MicroAsm::wide_iload2),
            0x117 => Some(MicroAsm::wide_iload3),
            0x118 => Some(MicroAsm::wide_iload4),
            0x136 => Some(MicroAsm::wide_istore1),
            0x137 => Some(MicroAsm::wide_istore2),
            0x138 => Some(MicroAsm::wide_istore3),
            0x139 => Some(MicroAsm::wide_istore4),
            _ => None,
        }
    }

    /// The 36 bits of this step's row.
    pub fn command(&self) -> (r: [bool; 36])
        ensures
            r@ == micro_row(*self),
    {
        match self {
            MicroAsm::Main1 => Cb::new().r_pc().alu_b_inc().w_pc().fetch().jmpc().get(),
            MicroAsm::nop1 => Cb::new().next_command(MicroAsm::Main1),
            MicroAsm::iadd1 => Cb::new().r_sp().alu_b_dec().w_mar().w_sp().read().next_command(MicroAsm::iadd2),
            MicroAsm::iadd2 => Cb::new().r_tos().alu_b().w_h().next_command(MicroAsm::iadd3),
            MicroAsm::iadd3 => Cb::new().r_mdr().alu_sum().w_mdr().w_tos().write().finish(),
            MicroAsm::isub1 => Cb::new().r_sp().alu_b_dec().w_mar().w_sp().read().next_command(MicroAsm::isub2),
            MicroAsm::isub2 => Cb::new().r_tos().alu_b().w_h().next_command(MicroAsm::isub3),
            MicroAsm::isub3 => Cb::new().r_mdr().alu_sub().w_mdr().w_tos().write().finish(),
            MicroAsm::iand1 => Cb::new().r_sp().alu_b_dec().w_mar().w_sp().read().next_command(MicroAsm::iand2),
            MicroAsm::iand2 => Cb::new().r_tos().alu_b().w_h().next_command(MicroAsm::iand3),
            MicroAsm::iand3 => Cb::new().r_mdr().alu_and().w_mdr().w_tos().write().finish(),
            MicroAsm::ior1 => Cb::new().r_sp().alu_b_dec().w_mar().w_sp().read().next_command(MicroAsm::ior2),
            MicroAsm::ior2 => Cb::new().r_tos().alu_b().w_h().next_command(MicroAsm::ior3),
            MicroAsm::ior3 => Cb::new().r_mdr().alu_or().w_mdr().w_tos().write().finish(),
            MicroAsm::dup1 => Cb::new().r_sp().alu_b_inc().w_sp().w_mar().next_command(MicroAsm::dup2),
            MicroAsm::dup2 => Cb::new().r_tos().alu_b().w_mdr().write().finish(),
            MicroAsm::pop1 => Cb::new().r_sp().alu_b_dec().w_sp().w_mar().read().next_command(MicroAsm::pop2),
            MicroAsm::pop2 => Cb::new().next_command(MicroAsm::pop3),
            MicroAsm::pop3 => Cb::new().r_mdr().alu_b().w_tos().finish(),
            MicroAsm::swap1 => Cb::new().r_sp().alu_b_dec().w_mar().read().next_command(MicroAsm::swap2),
            MicroAsm::swap2 => Cb::new().r_sp().alu_b().w_mar().next_command(MicroAsm::swap3),
            MicroAsm::swap3 => Cb::new().r_mdr().alu_b().w_h().write().next_command(MicroAsm::swap4),
            MicroAsm::swap4 => Cb::new().r_tos().alu_b().w_mdr().next_command(MicroAsm::swap5),
            MicroAsm::swap5 => Cb::new().r_sp().alu_b_dec().w_mar().write().next_command(MicroAsm::swap6),
            MicroAsm::swap6 => Cb::new().alu_a().w_tos().finish(),
            MicroAsm::bipush1 => Cb::new().r_sp().alu_b_inc().w_sp().w_mar().next_command(MicroAsm::bipush2),
            MicroAsm::bipush2 => Cb::new().r_pc().alu_b_inc().w_pc().fetch().next_command(MicroAsm::bipush3),
            MicroAsm::bipush3 => Cb::new().r_mbr().alu_b().w_tos().w_mdr().write().finish(),
            MicroAsm::iload1 => Cb::new().r_lv().alu_b().w_h().next_command(MicroAsm::iload2),
            MicroAsm::iload2 => Cb::new().r_mbru().alu_sum().w_mar().read().next_command(MicroAsm::iload3),
            MicroAsm::iload3 => Cb::new().r_sp().alu_b_inc().w_sp().w_mar().next_command(MicroAsm::iload4),
            MicroAsm::iload4 => Cb::new().r_pc().alu_b_inc().w_pc().fetch().write().next_command(MicroAsm::iload5),
            MicroAsm::iload5 => Cb::new().r_mdr().alu_b().w_tos().finish(),
            MicroAsm::istore1 => Cb::new().r_lv().alu_b().w_h().next_command(MicroAsm::istore2),
            MicroAsm::istore2 => Cb::new().r_mbru().alu_sum().w_mar().next_command(MicroAsm::istore3),
            MicroAsm::istore3 => Cb::new().r_tos().alu_b().w_mdr().write().next_command(MicroAsm::istore4),
            MicroAsm::istore4 => Cb::new().r_sp().alu_b_dec().w_sp().w_mar().read().next_command(MicroAsm::istore5),
            MicroAsm::istore5 => Cb::new().r_pc().alu_b_inc().w_pc().fetch().next_command(MicroAsm::istore6),
            MicroAsm::istore6 => Cb::new().r_mdr().alu_b().w_tos().finish(),
            MicroAsm::wide1 => Cb::new().r_pc().alu_b_inc().w_pc().fetch().next_command(MicroAsm::wide2),
            MicroAsm::wide2 => Cb::new().jmpc().next_address(0x100),
            MicroAsm::wide_iload1 => Cb::new().r_pc().alu_b_inc().w_pc().fetch().next_command(MicroAsm::wide_iload2),
            MicroAsm::wide_iload2 => Cb::new().r_mbru().alu_b().sll8().w_h().next_command(MicroAsm::wide_iload3),
            MicroAsm::wide_iload3 => Cb::new().r_mbru().alu_or().w_h().next_command(MicroAsm::wide_iload4),
            MicroAsm::wide_iload4 => Cb::new().r_lv().alu_sum().w_mar().read().next_command(MicroAsm::iload3),
            MicroAsm::wide_istore1 => Cb::new().r_pc().alu_b_inc().w_pc().fetch().next_command(MicroAsm::wide_istore2),
            MicroAsm::wide_istore2 => Cb::new().r_mbru().alu_b().sll8().w_h().next_command(MicroAsm::wide_istore3),
            MicroAsm::wide_istore3 => Cb::new().r_mbru().alu_or().w_h().next_command(MicroAsm::wide_istore4),
            MicroAsm::wide_istore4 => Cb::new().r_lv().alu_sum().w_mar().read().next_command(MicroAsm::istore3),
            MicroAsm::ldc_w1 => Cb::new().r_pc().alu_b_inc().w_pc().fetch().next_command(MicroAsm::ldc_w2),
            MicroAsm::ldc_w2 => Cb::new().r_mbru().alu_b().sll8().w_h().next_command(MicroAsm::ldc_w3),
            MicroAsm::ldc_w3 => Cb::new().r_mbru().alu_or().w_h().next_command(MicroAsm::ldc_w4),
            MicroAsm::ldc_w4 => Cb::new().r_cpp().alu_sum().w_mar().read().next_command(MicroAsm::iload3),
            MicroAsm::iinc1 => Cb::new().r_lv().alu_b().w_h().next_command(MicroAsm::iinc2),
            MicroAsm::iinc2 => Cb::new().r_mbru().alu_sum().w_mar().read().next_command(MicroAsm::iinc3),
            MicroAsm::iinc3 => Cb::new().r_pc().alu_b_inc().w_pc().fetch().next_command(MicroAsm::iinc4),
            MicroAsm::iinc4 => Cb::new().r_mdr().alu_b().w_h().next_command(MicroAsm::iinc5),
            MicroAsm::iinc5 => Cb::new().r_pc().alu_b_inc().w_pc().fetch().next_command(MicroAsm::iinc6),
            MicroAsm::iinc6 => Cb::new().r_mbr().alu_sum().w_mdr().write().finish(),
            MicroAsm::goto1 => Cb::new().r_pc().alu_b_dec().w_opc().next_command(MicroAsm::goto2),
            MicroAsm::goto2 => Cb::new().r_pc().alu_b_inc().w_pc().fetch().next_command(MicroAsm::goto3),
            MicroAsm::goto3 => Cb::new().r_mbr().alu_b().sll8().w_h().next_command(MicroAsm::goto4),
            MicroAsm::goto4 => Cb::new().r_mbru().alu_or().w_h().next_command(MicroAsm::goto5),
            MicroAsm::goto5 => Cb::new().r_opc().alu_sum().w_pc().fetch().next_command(MicroAsm::goto6),
            MicroAsm::goto6 => Cb::new().finish(),
            MicroAsm::iflt1 => Cb::new().r_sp().alu_b_dec().w_sp().w_mar().read().next_command(MicroAsm::iflt2),
            MicroAsm::iflt2 => Cb::new().r_tos().alu_b().w_opc().next_command(MicroAsm::iflt3),
            MicroAsm::iflt3 => Cb::new().r_mdr().alu_b().w_tos().next_command(MicroAsm::iflt4),
            MicroAsm::iflt4 => Cb::new().r_opc().alu_b().jamn().next_command(MicroAsm::F),
            MicroAsm::ifeq1 => Cb::new().r_sp().alu_b_dec().w_sp().w_mar().read().next_command(MicroAsm::ifeq2),
            MicroAsm::ifeq2 => Cb::new().r_tos().alu_b().w_opc().next_command(MicroAsm::ifeq3),
            MicroAsm::ifeq3 => Cb::new().r_mdr().alu_b().w_tos().next_command(MicroAsm::ifeq4),
            MicroAsm::ifeq4 => Cb::new().r_opc().alu_b().jamz().next_command(MicroAsm::F),
            MicroAsm::if_icmpeq1 => Cb::new().r_sp().alu_b_dec().w_sp().w_mar().read().next_command(MicroAsm::if_icmpeq2),
            MicroAsm::if_icmpeq2 => Cb::new().r_sp().alu_b_dec().w_sp().w_mar().next_command(MicroAsm::if_icmpeq3),
            MicroAsm::if_icmpeq3 => Cb::new().r_mdr().alu_b().w_h().read().next_command(MicroAsm::if_icmpeq4),
            MicroAsm::if_icmpeq4 => Cb::new().r_tos().alu_b().w_opc().next_command(MicroAsm::if_icmpeq5),
            MicroAsm::if_icmpeq5 => Cb::new().r_mdr().alu_b().w_tos().next_command(MicroAsm::if_icmpeq6),
            MicroAsm::if_icmpeq6 => Cb::new().r_opc().alu_sub().jamz().next_command(MicroAsm::F),
            MicroAsm::F => Cb::new().r_pc().alu_b_inc().w_pc().next_command(MicroAsm::F2),
            MicroAsm::F2 => Cb::new().r_pc().alu_b_inc().w_pc().fetch().next_command(MicroAsm::F3),
            MicroAsm::F3 => Cb::new().finish(),
            MicroAsm::T => Cb::new().r_pc().alu_b_dec().w_opc().fetch().next_command(MicroAsm::goto2),
            MicroAsm::invokevirtual1 => Cb::new().r_pc().alu_b_inc().w_pc().fetch().next_command(MicroAsm::invokevirtual2),
            MicroAsm::invokevirtual2 => Cb::new().r_mbru().alu_b().sll8().w_h().next_command(MicroAsm::invokevirtual3),
            MicroAsm::invokevirtual3 => Cb::new().r_mbru().alu_or().w_h().next_command(MicroAsm::invokevirtual4),
            MicroAsm::invokevirtual4 => Cb::new().r_cpp().alu_sum().w_mar().read().next_command(MicroAsm::invokevirtual5),
            MicroAsm::invokevirtual5 => Cb::new().r_pc().alu_b_inc().w_opc().next_command(MicroAsm::invokevirtual6),
            MicroAsm::invokevirtual6 => Cb::new().r_mdr().alu_b().w_pc().fetch().next_command(MicroAsm::invokevirtual7),
            MicroAsm::invokevirtual7 => Cb::new().r_pc().alu_b_inc().w_pc().fetch().next_command(MicroAsm::invokevirtual8),
            MicroAsm::invokevirtual8 => Cb::new().r_mbru().alu_b().sll8().w_h().next_command(MicroAsm::invokevirtual9),
            MicroAsm::invokevirtual9 => Cb::new().r_mbru().alu_or().w_h().next_command(MicroAsm::invokevirtual10),
            MicroAsm::invokevirtual10 => Cb::new().r_pc().alu_b_inc().w_pc().fetch().next_command(MicroAsm::invokevirtual11),
            MicroAsm::invokevirtual11 => Cb::new().r_sp().alu_sub().w_tos().next_command(MicroAsm::invokevirtual12),
            MicroAsm::invokevirtual12 => Cb::new().r_tos().alu_b_inc().w_mar().w_tos().next_command(MicroAsm::invokevirtual13),
            MicroAsm::invokevirtual13 => Cb::new().r_pc().alu_b_inc().w_pc().fetch().next_command(MicroAsm::invokevirtual14),
            MicroAsm::invokevirtual14 => Cb::new().r_mbru().alu_b().sll8().w_h().next_command(MicroAsm::invokevirtual15),
            MicroAsm::invokevirtual15 => Cb::new().r_mbru().alu_or().w_h().next_command(MicroAsm::invokevirtual16),
            MicroAsm::invokevirtual16 => Cb::new().r_sp().alu_sum_inc().w_mdr().write().next_command(MicroAsm::invokevirtual17),
            MicroAsm::invokevirtual17 => Cb::new().r_mdr().alu_b().w_sp().w_mar().next_command(MicroAsm::invokevirtual18),
            MicroAsm::invokevirtual18 => Cb::new().r_opc().alu_b().w_mdr().write().next_command(MicroAsm::invokevirtual19),
            MicroAsm::invokevirtual19 => Cb::new().r_sp().alu_b_inc().w_sp().w_mar().next_command(MicroAsm::invokevirtual20),
            MicroAsm::invokevirtual20 => Cb::new().r_lv().alu_b().w_mdr().write().next_command(MicroAsm::invokevirtual21),
            MicroAsm::invokevirtual21 => Cb::new().r_pc().alu_b_inc().w_pc().fetch().next_command(MicroAsm::invokevirtual22),
            MicroAsm::invokevirtual22 => Cb::new().r_tos().alu_b().w_lv().finish(),
            MicroAsm::ireturn1 => Cb::new().r_lv().alu_b().w_sp().w_mar().read().next_command(MicroAsm::ireturn2),
            MicroAsm::ireturn2 => Cb::new().next_command(MicroAsm::ireturn3),
            MicroAsm::ireturn3 => Cb::new().r_mdr().alu_b().w_mar().w_lv().read().next_command(MicroAsm::ireturn4),
            MicroAsm::ireturn4 => Cb::new().r_lv().alu_b_inc().w_mar().next_command(MicroAsm::ireturn5),
            MicroAsm::ireturn5 => Cb::new().r_mdr().alu_b().w_pc().read().fetch().next_command(MicroAsm::ireturn6),
            MicroAsm::ireturn6 => Cb::new().r_sp().alu_b().w_mar().next_command(MicroAsm::ireturn7),
            MicroAsm::ireturn7 => Cb::new().r_mdr().alu_b().w_lv().next_command(MicroAsm::ireturn8),
            MicroAsm::ireturn8 => Cb::new().r_tos().alu_b().w_mdr().write().finish(),
        }
    }
}

/// The control store's table: each step's row, built field by field.
pub open spec fn micro_row(m: MicroAsm) -> Seq<bool> {
    match m {
        MicroAsm::Main1 => jmpc(fetch(w_pc(alu_b_inc(r_pc(blank()))))),
        MicroAsm::nop1 => with_next(blank(), MicroAsm::Main1.spec_address()),
        MicroAsm::iadd1 => with_next(read(w_sp(w_mar(alu_b_dec(r_sp(blank()))))), MicroAsm::iadd2.spec_address()),
        MicroAsm::iadd2 => with_next(w_h(alu_b(r_tos(blank()))), MicroAsm::iadd3.spec_address()),
        MicroAsm::iadd3 => with_next(write(w_tos(w_mdr(alu_sum(r_mdr(blank()))))), MicroAsm::Main1.spec_address()),
        MicroAsm::isub1 => with_next(read(w_sp(w_mar(alu_b_dec(r_sp(blank()))))), MicroAsm::isub2.spec_address()),
        MicroAsm::isub2 => with_next(w_h(alu_b(r_tos(blank()))), MicroAsm::isub3.spec_address()),
        MicroAsm::isub3 => with_next(write(w_tos(w_mdr(alu_sub(r_mdr(blank()))))), MicroAsm::Main1.spec_address()),
        MicroAsm::iand1 => with_next(read(w_sp(w_mar(alu_b_dec(r_sp(blank()))))), MicroAsm::iand2.spec_address()),
        MicroAsm::iand2 => with_next(w_h(alu_b(r_tos(blank()))), MicroAsm::iand3.spec_address()),
        MicroAsm::iand3 => with_next(write(w_tos(w_mdr(alu_and(r_mdr(blank()))))), MicroAsm::Main1.spec_address()),
        MicroAsm::ior1 => with_next(read(w_sp(w_mar(alu_b_dec(r_sp(blank()))))), MicroAsm::ior2.spec_address()),
        MicroAsm::ior2 => with_next(w_h(alu_b(r_tos(blank()))), MicroAsm::ior3.spec_address()),
        MicroAsm::ior3 => with_next(write(w_tos(w_mdr(alu_or(r_mdr(blank()))))), MicroAsm::Main1.spec_address()),
        MicroAsm::dup1 => with_next(w_mar(w_sp(alu_b_inc(r_sp(blank())))), MicroAsm::dup2.spec_address()),
        MicroAsm::dup2 => with_next(write(w_mdr(alu_b(r_tos(blank())))), MicroAsm::Main1.spec_address()),
        MicroAsm::pop1 => with_next(read(w_mar(w_sp(alu_b_dec(r_sp(blank()))))), MicroAsm::pop2.spec_address()),
        MicroAsm::pop2 => with_next(blank(), MicroAsm::pop3.spec_address()),
        MicroAsm::pop3 => with_next(w_tos(alu_b(r_mdr(blank()))), MicroAsm::Main1.spec_address()),
        MicroAsm::swap1 => with_next(read(w_mar(alu_b_dec(r_sp(blank())))), MicroAsm::swap2.spec_address()),
        MicroAsm::swap2 => with_next(w_mar(alu_b(r_sp(blank()))), MicroAsm::swap3.spec_address()),
        MicroAsm::swap3 => with_next(write(w_h(alu_b(r_mdr(blank())))), MicroAsm::swap4.spec_address()),
        MicroAsm::swap4 => with_next(w_mdr(alu_b(r_tos(blank()))), MicroAsm::swap5.spec_address()),
        MicroAsm::swap5 => with_next(write(w_mar(alu_b_dec(r_sp(blank())))), MicroAsm::swap6.spec_address()),
        MicroAsm::swap6 => with_next(w_tos(alu_a(blank())), MicroAsm::Main1.spec_address()),
        MicroAsm::bipush1 => with_next(w_mar(w_sp(alu_b_inc(r_sp(blank())))), MicroAsm::bipush2.spec_address()),
        MicroAsm::bipush2 => with_next(fetch(w_pc(alu_b_inc(r_pc(blank())))), MicroAsm::bipush3.spec_address()),
        MicroAsm::bipush3 => with_next(write(w_mdr(w_tos(alu_b(r_mbr(blank()))))), MicroAsm::Main1.spec_address()),
        MicroAsm::iload1 => with_next(w_h(alu_b(r_lv(blank()))), MicroAsm::iload2.spec_address()),
        MicroAsm::iload2 => with_next(read(w_mar(alu_sum(r_mbru(blank())))), MicroAsm::iload3.spec_address()),
        MicroAsm::iload3 => with_next(w_mar(w_sp(alu_b_inc(r_sp(blank())))), MicroAsm::iload4.spec_address()),
        MicroAsm::iload4 => with_next(write(fetch(w_pc(alu_b_inc(r_pc(blank()))))), MicroAsm::iload5.spec_address()),
        MicroAsm::iload5 => with_next(w_tos(alu_b(r_mdr(blank()))), MicroAsm::Main1.spec_address()),
        MicroAsm::istore1 => with_next(w_h(alu_b(r_lv(blank()))), MicroAsm::istore2.spec_address()),
        MicroAsm::istore2 => with_next(w_mar(alu_sum(r_mbru(blank()))), MicroAsm::istore3.spec_address()),
        MicroAsm::istore3 => with_next(write(w_mdr(alu_b(r_tos(blank())))), MicroAsm::istore4.spec_address()),
        MicroAsm::istore4 => with_next(read(w_mar(w_sp(alu_b_dec(r_sp(blank()))))), MicroAsm::istore5.spec_address()),
        MicroAsm::istore5 => with_next(fetch(w_pc(alu_b_inc(r_pc(blank())))), MicroAsm::istore6.spec_address()),
        MicroAsm::istore6 => with_next(w_tos(alu_b(r_mdr(blank()))), MicroAsm::Main1.spec_address()),
        MicroAsm::wide1 => with_next(fetch(w_pc(alu_b_inc(r_pc(blank())))), MicroAsm::wide2.spec_address()),
        MicroAsm::wide2 => with_next(jmpc(blank()), 0x100),
        MicroAsm::wide_iload1 => with_next(fetch(w_pc(alu_b_inc(r_pc(blank())))), MicroAsm::wide_iload2.spec_address()),
        MicroAsm::wide_iload2 => with_next(w_h(sll8(alu_b(r_mbru(blank())))), MicroAsm::wide_iload3.spec_address()),
        MicroAsm::wide_iload3 => with_next(w_h(alu_or(r_mbru(blank()))), MicroAsm::wide_iload4.spec_address()),
        MicroAsm::wide_iload4 => with_next(read(w_mar(alu_sum(r_lv(blank())))), MicroAsm::iload3.spec_address()),
        MicroAsm::wide_istore1 => with_next(fetch(w_pc(alu_b_inc(r_pc(blank())))), MicroAsm::wide_istore2.spec_address()),
        MicroAsm::wide_istore2 => with_next(w_h(sll8(alu_b(r_mbru(blank())))), MicroAsm::wide_istore3.spec_address()),
        MicroAsm::wide_istore3 => with_next(w_h(alu_or(r_mbru(blank()))), MicroAsm::wide_istore4.spec_address()),
        MicroAsm::wide_istore4 => with_next(read(w_mar(alu_sum(r_lv(blank())))), MicroAsm::istore3.spec_address()),
        MicroAsm::ldc_w1 => with_next(fetch(w_pc(alu_b_inc(r_pc(blank())))), MicroAsm::ldc_w2.spec_address()),
        MicroAsm::ldc_w2 => with_next(w_h(sll8(alu_b(r_mbru(blank())))), MicroAsm::ldc_w3.spec_address()),
        MicroAsm::ldc_w3 => with_next(w_h(alu_or(r_mbru(blank()))), MicroAsm::ldc_w4.spec_address()),
        MicroAsm::ldc_w4 => with_next(read(w_mar(alu_sum(r_cpp(blank())))), MicroAsm::iload3.spec_address()),
        MicroAsm::iinc1 => with_next(w_h(alu_b(r_lv(blank()))), MicroAsm::iinc2.spec_address()),
        MicroAsm::iinc2 => with_next(read(w_mar(alu_sum(r_mbru(blank())))), MicroAsm::iinc3.spec_address()),
        MicroAsm::iinc3 => with_next(fetch(w_pc(alu_b_inc(r_pc(blank())))), MicroAsm::iinc4.spec_address()),
        MicroAsm::iinc4 => with_next(w_h(alu_b(r_mdr(blank()))), MicroAsm::iinc5.spec_address()),
        MicroAsm::iinc5 => with_next(fetch(w_pc(alu_b_inc(r_pc(blank())))), MicroAsm::iinc6.spec_address()),
        MicroAsm::iinc6 => with_next(write(w_mdr(alu_sum(r_mbr(blank())))), MicroAsm::Main1.spec_address()),
        MicroAsm::goto1 => with_next(w_opc(alu_b_dec(r_pc(blank()))), MicroAsm::goto2.spec_address()),
        MicroAsm::goto2 => with_next(fetch(w_pc(alu_b_inc(r_pc(blank())))), MicroAsm::goto3.spec_address()),
        MicroAsm::goto3 => with_next(w_h(sll8(alu_b(r_mbr(blank())))), MicroAsm::goto4.spec_address()),
        MicroAsm::goto4 => with_next(w_h(alu_or(r_mbru(blank()))), MicroAsm::goto5.spec_address()),
        MicroAsm::goto5 => with_next(fetch(w_pc(alu_sum(r_opc(blank())))), MicroAsm::goto6.spec_address()),
        MicroAsm::goto6 => with_next(blank(), MicroAsm::Main1.spec_address()),
        MicroAsm::iflt1 => with_next(read(w_mar(w_sp(alu_b_dec(r_sp(blank()))))), MicroAsm::iflt2.spec_address()),
        MicroAsm::iflt2 => with_next(w_opc(alu_b(r_tos(blank()))), MicroAsm::iflt3.spec_address()),
        MicroAsm::iflt3 => with_next(w_tos(alu_b(r_mdr(blank()))), MicroAsm::iflt4.spec_address()),
        MicroAsm::iflt4 => with_next(jamn(alu_b(r_opc(blank()))), MicroAsm::F.spec_address()),
        MicroAsm::ifeq1 => with_next(read(w_mar(w_sp(alu_b_dec(r_sp(blank()))))), MicroAsm::ifeq2.spec_address()),
        MicroAsm::ifeq2 => with_next(w_opc(alu_b(r_tos(blank()))), MicroAsm::ifeq3.spec_address()),
        MicroAsm::ifeq3 => with_next(w_tos(alu_b(r_mdr(blank()))), MicroAsm::ifeq4.spec_address()),
        MicroAsm::ifeq4 => with_next(jamz(alu_b(r_opc(blank()))), MicroAsm::F.spec_address()),
        MicroAsm::if_icmpeq1 => with_next(read(w_mar(w_sp(alu_b_dec(r_sp(blank()))))), MicroAsm::if_icmpeq2.spec_address()),
        MicroAsm::if_icmpeq2 => with_next(w_mar(w_sp(alu_b_dec(r_sp(blank())))), MicroAsm::if_icmpeq3.spec_address()),
        MicroAsm::if_icmpeq3 => with_next(read(w_h(alu_b(r_mdr(blank())))), MicroAsm::if_icmpeq4.spec_address()),
        MicroAsm::if_icmpeq4 => with_next(w_opc(alu_b(r_tos(blank()))), MicroAsm::if_icmpeq5.spec_address()),
        MicroAsm::if_icmpeq5 => with_next(w_tos(alu_b(r_mdr(blank()))), MicroAsm::if_icmpeq6.spec_address()),
        MicroAsm::if_icmpeq6 => with_next(jamz(alu_sub(r_opc(blank()))), MicroAsm::F.spec_address()),
        MicroAsm::F => with_next(w_pc(alu_b_inc(r_pc(blank()))), MicroAsm::F2.spec_address()),
        MicroAsm::F2 => with_next(fetch(w_pc(alu_b_inc(r_pc(blank())))), MicroAsm::F3.spec_address()),
        MicroAsm::F3 => with_next(blank(), MicroAsm::Main1.spec_address()),
        MicroAsm::T => with_next(fetch(w_opc(alu_b_dec(r_pc(blank())))), MicroAsm::goto2.spec_address()),
        MicroAsm::invokevirtual1 => with_next(fetch(w_pc(alu_b_inc(r_pc(blank())))), MicroAsm::invokevirtual2.spec_address()),
        MicroAsm::invokevirtual2 => with_next(w_h(sll8(alu_b(r_mbru(blank())))), MicroAsm::invokevirtual3.spec_address()),
        MicroAsm::invokevirtual3 => with_next(w_h(alu_or(r_mbru(blank()))), MicroAsm::invokevirtual4.spec_address()),
        MicroAsm::invokevirtual4 => with_next(read(w_mar(alu_sum(r_cpp(blank())))), MicroAsm::invokevirtual5.spec_address()),
        MicroAsm::invokevirtual5 => with_next(w_opc(alu_b_inc(r_pc(blank()))), MicroAsm::invokevirtual6.spec_address()),
        MicroAsm::invokevirtual6 => with_next(fetch(w_pc(alu_b(r_mdr(blank())))), MicroAsm::invokevirtual7.spec_address()),
        MicroAsm::invokevirtual7 => with_next(fetch(w_pc(alu_b_inc(r_pc(blank())))), MicroAsm::invokevirtual8.spec_address()),
        MicroAsm::invokevirtual8 => with_next(w_h(sll8(alu_b(r_mbru(blank())))), MicroAsm::invokevirtual9.spec_address()),
        MicroAsm::invokevirtual9 => with_next(w_h(alu_or(r_mbru(blank()))), MicroAsm::invokevirtual10.spec_address()),
        MicroAsm::invokevirtual10 => with_next(fetch(w_pc(alu_b_inc(r_pc(blank())))), MicroAsm::invokevirtual11.spec_address()),
        MicroAsm::invokevirtual11 => with_next(w_tos(alu_sub(r_sp(blank()))), MicroAsm::invokevirtual12.spec_address()),
        MicroAsm::invokevirtual12 => with_next(w_tos(w_mar(alu_b_inc(r_tos(blank())))), MicroAsm::invokevirtual13.spec_address()),
        MicroAsm::invokevirtual13 => with_next(fetch(w_pc(alu_b_inc(r_pc(blank())))), MicroAsm::invokevirtual14.spec_address()),
        MicroAsm::invokevirtual14 => with_next(w_h(sll8(alu_b(r_mbru(blank())))), MicroAsm::invokevirtual15.spec_address()),
        MicroAsm::invokevirtual15 => with_next(w_h(alu_or(r_mbru(blank()))), MicroAsm::invokevirtual16.spec_address()),
        MicroAsm::invokevirtual16 => with_next(write(w_mdr(alu_sum_inc(r_sp(blank())))), MicroAsm::invokevirtual17.spec_address()),
        MicroAsm::invokevirtual17 => with_next(w_mar(w_sp(alu_b(r_mdr(blank())))), MicroAsm::invokevirtual18.spec_address()),
        MicroAsm::invokevirtual18 => with_next(write(w_mdr(alu_b(r_opc(blank())))), MicroAsm::invokevirtual19.spec_address()),
        MicroAsm::invokevirtual19 => with_next(w_mar(w_sp(alu_b_inc(r_sp(blank())))), MicroAsm::invokevirtual20.spec_address()),
        MicroAsm::invokevirtual20 => with_next(write(w_mdr(alu_b(r_lv(blank())))), MicroAsm::invokevirtual21.spec_address()),
        MicroAsm::invokevirtual21 => with_next(fetch(w_pc(alu_b_inc(r_pc(blank())))), MicroAsm::invokevirtual22.spec_address()),
        MicroAsm::invokevirtual22 => with_next(w_lv(alu_b(r_tos(blank()))), MicroAsm::Main1.spec_address()),
        MicroAsm::ireturn1 => with_next(read(w_mar(w_sp(alu_b(r_lv(blank()))))), MicroAsm::ireturn2.spec_address()),
        MicroAsm::ireturn2 => with_next(blank(), MicroAsm::ireturn3.spec_address()),
        MicroAsm::ireturn3 => with_next(read(w_lv(w_mar(alu_b(r_mdr(blank()))))), MicroAsm::ireturn4.spec_address()),
        MicroAsm::ireturn4 => with_next(w_mar(alu_b_inc(r_lv(blank()))), MicroAsm::ireturn5.spec_address()),
        MicroAsm::ireturn5 => with_next(fetch(read(w_pc(alu_b(r_mdr(blank()))))), MicroAsm::ireturn6.spec_address()),
        MicroAsm::ireturn6 => with_next(w_mar(alu_b(r_sp(blank()))), MicroAsm::ireturn7.spec_address()),
        MicroAsm::ireturn7 => with_next(w_lv(alu_b(r_mdr(blank()))), MicroAsm::ireturn8.spec_address()),
        MicroAsm::ireturn8 => with_next(write(w_mdr(alu_b(r_tos(blank())))), MicroAsm::Main1.spec_address()),
    }
}

} // verus!
