//! Stack laws of opcodes, proved cycle by cycle on the datapath: each starts
//! at the opcode's first micro-step (the cycle after `Main1` dispatched it)
//! with the control store holding the microprogram, and follows the
//! micro-steps back to `Main1` (or, for a conditional branch, to its
//! decision between `T` and `F`). Each law says what the opcode does to the
//! stack and to memory, and that TOS mirrors the word at SP afterwards.
use crate::alu::{
    a_control, alu_result, and_control, b_control, b_dec_control, b_inc_control, lemma_alu_laws,
    or_control, sub_control, sum_control,
};
use crate::loader::stored_row;
use crate::main_memory::{advanced, latched_address, ReadRequest, ReadState};
use crate::microasm::{micro_row, MicroAsm};
use crate::processor::{b_select, sign_extended, zero_extended, Mic1};
use crate::processor_elements::row_alu_controls;
use crate::word::{lemma_two_pow_32, lemma_word_round_trip, nat_bits, word_bits, word_of};
use vstd::prelude::*;

verus! {

/// The control store holds the microprogram.
pub open spec fn holds_microprogram(m: Mic1) -> bool {
    forall|a: int| 0 <= a < 512 ==> #[trigger] m.control_memory.row(a) == crate::loader::stored_row(a)
}

/// The row that a cycle fetches when MPC holds address `a`.
proof fn lemma_row_at(m: Mic1, a: nat)
    requires
        m.mpc.value() == crate::word::nat_bits(a, 9),
        a < 512,
    ensures
        m.row() == m.control_memory.row(a as int),
{
    crate::word::lemma_two_pow_32();
    crate::word::lemma_nat_bits_value(a, 9);
}

/// `pop1`: MAR = SP = SP - 1; rd.
#[verifier::rlimit(100)]
proof fn lemma_pop1(s0: Mic1, s1: Mic1)
    requires
        holds_microprogram(s0),
        s0.mpc.value() == nat_bits(0x57, 9),
        s0.main_memory.first_reading@.len() == 0,
        1 <= word_of(s0.sp.value()) <= 512,
        s0.cycle(s1),
    ensures
        holds_microprogram(s1),
        word_of(s1.sp.value()) == word_of(s0.sp.value()) - 1,
        s1.main_memory.first_reading@ == seq![
            ((word_of(s0.sp.value()) - 1) as i32, ReadState::ReadInitialized),
        ],
        s1.main_memory.cells@ == s0.main_memory.cells@,
        s1.mpc.value() == nat_bits(0x58, 9),
        s1.lv.value() == s0.lv.value(),
{
    lemma_two_pow_32();
    let sp = word_of(s0.sp.value());
    let h = s0.h.value();
    lemma_row_at(s0, 0x57);
    assert(s0.control_memory.row(0x57) == stored_row(0x57));
    let row0 = s0.row();
    assert(row0 == micro_row(MicroAsm::pop1));
    assert(b_select(row0) == 4);
    assert(row_alu_controls(row0) == b_dec_control());
    assert(!row0[12] && !row0[13] && !row0[9] && !row0[10] && !row0[11]);
    assert(row0[25] && row0[28] && row0[30] && !row0[29] && !row0[31] && !row0[24]);
    assert(s0.b_bus_value() =~= s0.sp.value());
    crate::word::lemma_bits_value_bound(s0.sp.value());
    crate::word::lemma_bits_value_bound(h);
    assert((sp as i32) as int == sp);
    assert((word_of(h) as i32) as int == word_of(h));
    lemma_word_round_trip(sp as i32, s0.sp.value());
    lemma_word_round_trip(word_of(h) as i32, h);
    assert(word_bits(sp) == s0.sp.value());
    assert(word_bits(word_of(h)) == h);
    lemma_alu_laws(word_of(h) as i32, sp as i32, b_dec_control());
    assert(crate::word::wrap32(sp - 1) == sp - 1);
    assert(word_of(s0.alu_value()) == sp - 1);
    assert(s0.c_bus_value() == s0.alu_value());
    assert(s1.main_memory.first_reading@ =~= seq![((sp - 1) as i32, ReadState::ReadInitialized)]);
    assert(s1.mpc.value() =~= nat_bits(0x58, 9));
}

/// `pop2`: wait for the read.
#[verifier::rlimit(100)]
proof fn lemma_pop2(s1: Mic1, s2: Mic1, a: i32)
    requires
        holds_microprogram(s1),
        s1.mpc.value() == nat_bits(0x58, 9),
        s1.main_memory.first_reading@ == seq![(a, ReadState::ReadInitialized)],
        s1.cycle(s2),
    ensures
        holds_microprogram(s2),
        s2.sp.value() == s1.sp.value(),
        s2.lv.value() == s1.lv.value(),
        s2.main_memory.first_reading@ == seq![(a, ReadState::ReadInProgress)],
        s2.main_memory.cells@ == s1.main_memory.cells@,
        s2.mpc.value() == nat_bits(0x5c, 9),
{
    lemma_two_pow_32();
    lemma_row_at(s1, 0x58);
    assert(s1.control_memory.row(0x58) == stored_row(0x58));
    let row1 = s1.row();
    assert(row1 == micro_row(MicroAsm::pop2));
    assert(!row1[9] && !row1[10] && !row1[11] && !row1[29] && !row1[30] && !row1[31]);
    assert(!row1[24] && !row1[25]);
    let q = s1.main_memory.first_reading@;
    assert(q.drop_last() =~= Seq::<ReadRequest>::empty());
    assert(advanced(q.drop_last()) =~= Seq::<ReadRequest>::empty());
    assert(q.last() == (a, ReadState::ReadInitialized));
    assert(advanced(q) =~= seq![(a, ReadState::ReadInProgress)]);
    assert(s2.mpc.value() =~= nat_bits(0x5c, 9));
}

/// `pop3`: TOS = MDR; back to `Main1`.
#[verifier::rlimit(100)]
proof fn lemma_pop3(s2: Mic1, s3: Mic1, a: i32)
    requires
        holds_microprogram(s2),
        s2.mpc.value() == nat_bits(0x5c, 9),
        s2.main_memory.first_reading@ == seq![(a, ReadState::ReadInProgress)],
        0 <= a < 512,
        s2.cycle(s3),
    ensures
        s3.sp.value() == s2.sp.value(),
        s3.lv.value() == s2.lv.value(),
        s3.tos.value() == word_bits(s2.main_memory.cells@[a as int] as int),
        s3.main_memory.cells@ == s2.main_memory.cells@,
        s3.mpc.value() == nat_bits(1, 9),
{
    lemma_two_pow_32();
    lemma_row_at(s2, 0x5c);
    assert(s2.control_memory.row(0x5c) == stored_row(0x5c));
    let row2 = s2.row();
    assert(row2 == micro_row(MicroAsm::pop3));
    assert(b_select(row2) == 0);
    assert(row_alu_controls(row2) == b_control());
    assert(!row2[12] && !row2[13] && !row2[9] && !row2[10] && !row2[11]);
    assert(row2[22] && !row2[25] && !row2[24] && !row2[29] && !row2[30] && !row2[31]);
    let q = s2.main_memory.first_reading@;
    assert(q.last() == (a, ReadState::ReadInProgress));
    assert(latched_address(q) == Some(a));
    assert(s2.latched_mdr() == word_bits(s2.main_memory.cells@[a as int] as int));
    assert(s2.b_bus_value() =~= s2.latched_mdr());
    assert(s2.alu_value() =~= s2.latched_mdr());
    assert(s3.mpc.value() =~= nat_bits(1, 9));
}

/// POP, cycle by cycle: started at `pop1` with no data read pending and the
/// stack pointer inside memory above its first word, three micro-cycles later
/// SP is one lower, TOS holds the word at the new SP (the stack's top cache
/// agrees with memory), MPC is back at `Main1`, and memory is unchanged.
pub proof fn lemma_pop(s0: Mic1, s1: Mic1, s2: Mic1, s3: Mic1)
    requires
        holds_microprogram(s0),
        s0.mpc.value() == nat_bits(0x57, 9),
        s0.main_memory.first_reading@.len() == 0,
        1 <= word_of(s0.sp.value()) <= 512,
        s0.cycle(s1),
        s1.cycle(s2),
        s2.cycle(s3),
    ensures
        word_of(s3.sp.value()) == word_of(s0.sp.value()) - 1,
        s3.tos.value() == word_bits(s3.main_memory.cells@[word_of(s3.sp.value())] as int),
        s3.main_memory.cells@ == s0.main_memory.cells@,
        s3.mpc.value() == nat_bits(MicroAsm::Main1.spec_address() as nat, 9),
        s3.lv.value() == s0.lv.value(),
{
    let a = (word_of(s0.sp.value()) - 1) as i32;
    lemma_pop1(s0, s1);
    lemma_pop2(s1, s2, a);
    lemma_pop3(s2, s3, a);
}

/// `dup1`: MAR = SP = SP + 1.
#[verifier::rlimit(100)]
proof fn lemma_dup1(s0: Mic1, s1: Mic1)
    requires
        holds_microprogram(s0),
        s0.mpc.value() == nat_bits(0x59, 9),
        -1 <= word_of(s0.sp.value()) <= 510,
        s0.cycle(s1),
    ensures
        holds_microprogram(s1),
        word_of(s1.sp.value()) == word_of(s0.sp.value()) + 1,
        s1.mar.value() == s1.sp.value(),
        s1.tos.value() == s0.tos.value(),
        s1.main_memory.cells@ == s0.main_memory.cells@,
        s1.mpc.value() == nat_bits(0x5a, 9),
{
    lemma_two_pow_32();
    let sp = word_of(s0.sp.value());
    let h = s0.h.value();
    lemma_row_at(s0, 0x59);
    assert(s0.control_memory.row(0x59) == stored_row(0x59));
    let row0 = s0.row();
    assert(row0 == micro_row(MicroAsm::dup1));
    assert(b_select(row0) == 4);
    assert(row_alu_controls(row0) == b_inc_control());
    assert(!row0[12] && !row0[13] && !row0[9] && !row0[10] && !row0[11]);
    assert(row0[25] && row0[28] && !row0[22] && !row0[29] && !row0[30] && !row0[31]);
    assert(s0.b_bus_value() =~= s0.sp.value());
    crate::word::lemma_bits_value_bound(s0.sp.value());
    crate::word::lemma_bits_value_bound(h);
    assert((sp as i32) as int == sp);
    assert((word_of(h) as i32) as int == word_of(h));
    lemma_word_round_trip(sp as i32, s0.sp.value());
    lemma_word_round_trip(word_of(h) as i32, h);
    lemma_alu_laws(word_of(h) as i32, sp as i32, b_inc_control());
    assert(crate::word::wrap32(sp + 1) == sp + 1);
    assert(word_of(s0.alu_value()) == sp + 1);
    assert(s1.mpc.value() =~= nat_bits(0x5a, 9));
}

/// `dup2`: MDR = TOS; wr.
#[verifier::rlimit(100)]
proof fn lemma_dup2(s1: Mic1, s2: Mic1)
    requires
        holds_microprogram(s1),
        s1.mpc.value() == nat_bits(0x5a, 9),
        0 <= word_of(s1.mar.value()) < 512,
        s1.cycle(s2),
    ensures
        s2.sp.value() == s1.sp.value(),
        s2.tos.value() == s1.tos.value(),
        s2.main_memory.cells@ == s1.main_memory.cells@.update(
            word_of(s1.mar.value()),
            word_of(s1.tos.value()) as i32,
        ),
        s2.mpc.value() == nat_bits(1, 9),
{
    lemma_two_pow_32();
    lemma_row_at(s1, 0x5a);
    assert(s1.control_memory.row(0x5a) == stored_row(0x5a));
    let row1 = s1.row();
    assert(row1 == micro_row(MicroAsm::dup2));
    assert(b_select(row1) == 7);
    assert(row_alu_controls(row1) == b_control());
    assert(!row1[12] && !row1[13] && !row1[9] && !row1[10] && !row1[11]);
    assert(row1[27] && row1[29] && !row1[22] && !row1[25] && !row1[28] && !row1[30] && !row1[31]);
    assert(s1.b_bus_value() =~= s1.tos.value());
    assert(s1.alu_value() =~= s1.tos.value());
    assert(s2.mpc.value() =~= nat_bits(1, 9));
}

/// DUP, cycle by cycle: started at `dup1` with room above the top of the
/// stack, two micro-cycles later SP is one higher, the word there is TOS
/// (the stack's top cache agrees with memory), memory is otherwise
/// unchanged, and MPC is back at `Main1`.
pub proof fn lemma_dup(s0: Mic1, s1: Mic1, s2: Mic1)
    requires
        holds_microprogram(s0),
        s0.mpc.value() == nat_bits(0x59, 9),
        -1 <= word_of(s0.sp.value()) <= 510,
        s0.cycle(s1),
        s1.cycle(s2),
    ensures
        word_of(s2.sp.value()) == word_of(s0.sp.value()) + 1,
        s2.tos.value() == s0.tos.value(),
        s2.tos.value() == word_bits(s2.main_memory.cells@[word_of(s2.sp.value())] as int),
        s2.main_memory.cells@ == s0.main_memory.cells@.update(
            word_of(s2.sp.value()),
            word_of(s0.tos.value()) as i32,
        ),
        s2.mpc.value() == nat_bits(MicroAsm::Main1.spec_address() as nat, 9),
{
    lemma_dup1(s0, s1);
    lemma_dup2(s1, s2);
    let t = s0.tos.value();
    crate::word::lemma_bits_value_bound(t);
    lemma_two_pow_32();
    assert((word_of(t) as i32) as int == word_of(t));
    lemma_word_round_trip(word_of(t) as i32, t);
}

/// `iadd1`: MAR = SP = SP - 1; rd.
#[verifier::rlimit(100)]
proof fn lemma_iadd1(s0: Mic1, s1: Mic1)
    requires
        holds_microprogram(s0),
        s0.mpc.value() == nat_bits(0x60, 9),
        s0.main_memory.first_reading@.len() == 0,
        1 <= word_of(s0.sp.value()) <= 512,
        s0.cycle(s1),
    ensures
        holds_microprogram(s1),
        word_of(s1.sp.value()) == word_of(s0.sp.value()) - 1,
        s1.mar.value() == s1.sp.value(),
        s1.tos.value() == s0.tos.value(),
        s1.main_memory.first_reading@ == seq![
            ((word_of(s0.sp.value()) - 1) as i32, ReadState::ReadInitialized),
        ],
        s1.main_memory.cells@ == s0.main_memory.cells@,
        s1.mpc.value() == nat_bits(0x61, 9),
{
    lemma_two_pow_32();
    let sp = word_of(s0.sp.value());
    let h = s0.h.value();
    lemma_row_at(s0, 0x60);
    assert(s0.control_memory.row(0x60) == stored_row(0x60));
    let row0 = s0.row();
    assert(row0 == micro_row(MicroAsm::iadd1));
    assert(b_select(row0) == 4);
    assert(row_alu_controls(row0) == b_dec_control());
    assert(!row0[12] && !row0[13] && !row0[9] && !row0[10] && !row0[11]);
    assert(row0[25] && row0[28] && row0[30] && !row0[22] && !row0[29] && !row0[31]);
    assert(s0.b_bus_value() =~= s0.sp.value());
    crate::word::lemma_bits_value_bound(s0.sp.value());
    crate::word::lemma_bits_value_bound(h);
    assert((sp as i32) as int == sp);
    assert((word_of(h) as i32) as int == word_of(h));
    lemma_word_round_trip(sp as i32, s0.sp.value());
    lemma_word_round_trip(word_of(h) as i32, h);
    lemma_alu_laws(word_of(h) as i32, sp as i32, b_dec_control());
    assert(crate::word::wrap32(sp - 1) == sp - 1);
    assert(word_of(s0.alu_value()) == sp - 1);
    assert(s1.main_memory.first_reading@ =~= seq![((sp - 1) as i32, ReadState::ReadInitialized)]);
    assert(s1.mpc.value() =~= nat_bits(0x61, 9));
}

/// `iadd2`: H = TOS.
#[verifier::rlimit(100)]
proof fn lemma_iadd2(s1: Mic1, s2: Mic1, a: i32)
    requires
        holds_microprogram(s1),
        s1.mpc.value() == nat_bits(0x61, 9),
        s1.main_memory.first_reading@ == seq![(a, ReadState::ReadInitialized)],
        s1.cycle(s2),
    ensures
        holds_microprogram(s2),
        s2.h.value() == s1.tos.value(),
        s2.sp.value() == s1.sp.value(),
        s2.mar.value() == s1.mar.value(),
        s2.main_memory.first_reading@ == seq![(a, ReadState::ReadInProgress)],
        s2.main_memory.cells@ == s1.main_memory.cells@,
        s2.mpc.value() == nat_bits(0x62, 9),
{
    lemma_two_pow_32();
    lemma_row_at(s1, 0x61);
    assert(s1.control_memory.row(0x61) == stored_row(0x61));
    let row1 = s1.row();
    assert(row1 == micro_row(MicroAsm::iadd2));
    assert(b_select(row1) == 7);
    assert(row_alu_controls(row1) == b_control());
    assert(!row1[12] && !row1[13] && !row1[9] && !row1[10] && !row1[11]);
    assert(row1[20] && !row1[25] && !row1[28] && !row1[29] && !row1[30] && !row1[31]);
    assert(s1.b_bus_value() =~= s1.tos.value());
    assert(s1.alu_value() =~= s1.tos.value());
    let q = s1.main_memory.first_reading@;
    assert(q.drop_last() =~= Seq::<ReadRequest>::empty());
    assert(advanced(q.drop_last()) =~= Seq::<ReadRequest>::empty());
    assert(q.last() == (a, ReadState::ReadInitialized));
    assert(advanced(q) =~= seq![(a, ReadState::ReadInProgress)]);
    assert(s2.mpc.value() =~= nat_bits(0x62, 9));
}

/// `iadd3`: MDR = TOS = MDR + H; wr.
#[verifier::rlimit(100)]
proof fn lemma_iadd3(s2: Mic1, s3: Mic1, a: i32)
    requires
        holds_microprogram(s2),
        s2.mpc.value() == nat_bits(0x62, 9),
        s2.main_memory.first_reading@ == seq![(a, ReadState::ReadInProgress)],
        0 <= a < 512,
        word_of(s2.mar.value()) == a,
        s2.cycle(s3),
    ensures
        s3.sp.value() == s2.sp.value(),
        s3.tos.value() == word_bits(
            crate::word::wrap32(s2.main_memory.cells@[a as int] + word_of(s2.h.value())),
        ),
        s3.main_memory.cells@ == s2.main_memory.cells@.update(
            a as int,
            crate::word::wrap32(s2.main_memory.cells@[a as int] + word_of(s2.h.value())) as i32,
        ),
        s3.mpc.value() == nat_bits(1, 9),
{
    lemma_two_pow_32();
    lemma_row_at(s2, 0x62);
    assert(s2.control_memory.row(0x62) == stored_row(0x62));
    let row2 = s2.row();
    assert(row2 == micro_row(MicroAsm::iadd3));
    assert(b_select(row2) == 0);
    assert(row_alu_controls(row2) == sum_control());
    assert(!row2[12] && !row2[13] && !row2[9] && !row2[10] && !row2[11]);
    assert(row2[22] && row2[27] && row2[29] && !row2[25] && !row2[28] && !row2[30] && !row2[31]);
    let q = s2.main_memory.first_reading@;
    assert(q.last() == (a, ReadState::ReadInProgress));
    assert(latched_address(q) == Some(a));
    let m = s2.main_memory.cells@[a as int];
    assert(s2.latched_mdr() == word_bits(m as int));
    assert(s2.b_bus_value() =~= s2.latched_mdr());
    let h = s2.h.value();
    crate::word::lemma_bits_value_bound(h);
    assert((word_of(h) as i32) as int == word_of(h));
    lemma_word_round_trip(word_of(h) as i32, h);
    lemma_alu_laws(word_of(h) as i32, m, sum_control());
    let w = crate::word::wrap32(word_of(h) + m);
    assert(word_of(s2.alu_value()) == w);
    lemma_word_round_trip(w as i32, s2.alu_value());
    crate::word::lemma_bits_value_bound(s2.alu_value());
    assert((w as i32) as int == w);
    assert(s2.alu_value() == word_bits(w));
    assert(w == crate::word::wrap32(m + word_of(h)));
    assert(s3.mpc.value() =~= nat_bits(1, 9));
}

/// IADD, cycle by cycle: started at `iadd1` with no data read pending and at
/// least one word below the top of the stack, three micro-cycles later SP is
/// one lower, the word there and TOS both hold the wrapped sum of the two
/// old top words (the stack's top cache agrees with memory), memory is
/// otherwise unchanged, and MPC is back at `Main1`.
pub proof fn lemma_iadd(s0: Mic1, s1: Mic1, s2: Mic1, s3: Mic1)
    requires
        holds_microprogram(s0),
        s0.mpc.value() == nat_bits(0x60, 9),
        s0.main_memory.first_reading@.len() == 0,
        1 <= word_of(s0.sp.value()) <= 512,
        s0.cycle(s1),
        s1.cycle(s2),
        s2.cycle(s3),
    ensures
        word_of(s3.sp.value()) == word_of(s0.sp.value()) - 1,
        word_of(s3.tos.value()) == crate::word::wrap32(
            s0.main_memory.cells@[word_of(s0.sp.value()) - 1] + word_of(s0.tos.value()),
        ),
        s3.tos.value() == word_bits(s3.main_memory.cells@[word_of(s3.sp.value())] as int),
        s3.main_memory.cells@ == s0.main_memory.cells@.update(
            word_of(s3.sp.value()),
            word_of(s3.tos.value()) as i32,
        ),
        s3.mpc.value() == nat_bits(MicroAsm::Main1.spec_address() as nat, 9),
{
    let a = (word_of(s0.sp.value()) - 1) as i32;
    lemma_iadd1(s0, s1);
    lemma_iadd2(s1, s2, a);
    lemma_iadd3(s2, s3, a);
    let w = crate::word::wrap32(
        s0.main_memory.cells@[a as int] + word_of(s0.tos.value()),
    );
    lemma_two_pow_32();
    crate::word::lemma_bits_value_bound(s3.tos.value());
    lemma_word_round_trip(w as i32, s3.tos.value());
    assert((w as i32) as int == w);
}

/// `isub1`: MAR = SP = SP - 1; rd.
#[verifier::rlimit(100)]
proof fn lemma_isub1(s0: Mic1, s1: Mic1)
    requires
        holds_microprogram(s0),
        s0.mpc.value() == nat_bits(0x64, 9),
        s0.main_memory.first_reading@.len() == 0,
        1 <= word_of(s0.sp.value()) <= 512,
        s0.cycle(s1),
    ensures
        holds_microprogram(s1),
        word_of(s1.sp.value()) == word_of(s0.sp.value()) - 1,
        s1.mar.value() == s1.sp.value(),
        s1.tos.value() == s0.tos.value(),
        s1.main_memory.first_reading@ == seq![
            ((word_of(s0.sp.value()) - 1) as i32, ReadState::ReadInitialized),
        ],
        s1.main_memory.cells@ == s0.main_memory.cells@,
        s1.mpc.value() == nat_bits(0x65, 9),
{
    lemma_two_pow_32();
    let sp = word_of(s0.sp.value());
    let h = s0.h.value();
    lemma_row_at(s0, 0x64);
    assert(s0.control_memory.row(0x64) == stored_row(0x64));
    let row0 = s0.row();
    assert(row0 == micro_row(MicroAsm::isub1));
    assert(b_select(row0) == 4);
    assert(row_alu_controls(row0) == b_dec_control());
    assert(!row0[12] && !row0[13] && !row0[9] && !row0[10] && !row0[11]);
    assert(row0[25] && row0[28] && row0[30] && !row0[22] && !row0[29] && !row0[31]);
    assert(s0.b_bus_value() =~= s0.sp.value());
    crate::word::lemma_bits_value_bound(s0.sp.value());
    crate::word::lemma_bits_value_bound(h);
    assert((sp as i32) as int == sp);
    assert((word_of(h) as i32) as int == word_of(h));
    lemma_word_round_trip(sp as i32, s0.sp.value());
    lemma_word_round_trip(word_of(h) as i32, h);
    lemma_alu_laws(word_of(h) as i32, sp as i32, b_dec_control());
    assert(crate::word::wrap32(sp - 1) == sp - 1);
    assert(word_of(s0.alu_value()) == sp - 1);
    assert(s1.main_memory.first_reading@ =~= seq![((sp - 1) as i32, ReadState::ReadInitialized)]);
    assert(s1.mpc.value() =~= nat_bits(0x65, 9));
}

/// `isub2`: H = TOS.
#[verifier::rlimit(100)]
proof fn lemma_isub2(s1: Mic1, s2: Mic1, a: i32)
    requires
        holds_microprogram(s1),
        s1.mpc.value() == nat_bits(0x65, 9),
        s1.main_memory.first_reading@ == seq![(a, ReadState::ReadInitialized)],
        s1.cycle(s2),
    ensures
        holds_microprogram(s2),
        s2.h.value() == s1.tos.value(),
        s2.sp.value() == s1.sp.value(),
        s2.mar.value() == s1.mar.value(),
        s2.main_memory.first_reading@ == seq![(a, ReadState::ReadInProgress)],
        s2.main_memory.cells@ == s1.main_memory.cells@,
        s2.mpc.value() == nat_bits(0x66, 9),
{
    lemma_two_pow_32();
    lemma_row_at(s1, 0x65);
    assert(s1.control_memory.row(0x65) == stored_row(0x65));
    let row1 = s1.row();
    assert(row1 == micro_row(MicroAsm::isub2));
    assert(b_select(row1) == 7);
    assert(row_alu_controls(row1) == b_control());
    assert(!row1[12] && !row1[13] && !row1[9] && !row1[10] && !row1[11]);
    assert(row1[20] && !row1[25] && !row1[28] && !row1[29] && !row1[30] && !row1[31]);
    assert(s1.b_bus_value() =~= s1.tos.value());
    assert(s1.alu_value() =~= s1.tos.value());
    let q = s1.main_memory.first_reading@;
    assert(q.drop_last() =~= Seq::<ReadRequest>::empty());
    assert(advanced(q.drop_last()) =~= Seq::<ReadRequest>::empty());
    assert(q.last() == (a, ReadState::ReadInitialized));
    assert(advanced(q) =~= seq![(a, ReadState::ReadInProgress)]);
    assert(s2.mpc.value() =~= nat_bits(0x66, 9));
}

/// `isub3`: MDR = TOS = MDR op H; wr.
#[verifier::rlimit(100)]
proof fn lemma_isub3(s2: Mic1, s3: Mic1, a: i32)
    requires
        holds_microprogram(s2),
        s2.mpc.value() == nat_bits(0x66, 9),
        s2.main_memory.first_reading@ == seq![(a, ReadState::ReadInProgress)],
        0 <= a < 512,
        word_of(s2.mar.value()) == a,
        s2.cycle(s3),
    ensures
        s3.sp.value() == s2.sp.value(),
        s3.tos.value() == alu_result(
            s2.h.value(),
            word_bits(s2.main_memory.cells@[a as int] as int),
            sub_control(),
        ),
        s3.main_memory.cells@ == s2.main_memory.cells@.update(
            a as int,
            word_of(s3.tos.value()) as i32,
        ),
        s3.mpc.value() == nat_bits(1, 9),
{
    lemma_two_pow_32();
    lemma_row_at(s2, 0x66);
    assert(s2.control_memory.row(0x66) == stored_row(0x66));
    let row2 = s2.row();
    assert(row2 == micro_row(MicroAsm::isub3));
    assert(b_select(row2) == 0);
    assert(row_alu_controls(row2) == sub_control());
    assert(!row2[12] && !row2[13] && !row2[9] && !row2[10] && !row2[11]);
    assert(row2[22] && row2[27] && row2[29] && !row2[25] && !row2[28] && !row2[30] && !row2[31]);
    let q = s2.main_memory.first_reading@;
    assert(q.last() == (a, ReadState::ReadInProgress));
    assert(latched_address(q) == Some(a));
    let m = s2.main_memory.cells@[a as int];
    assert(s2.latched_mdr() == word_bits(m as int));
    assert(s2.b_bus_value() =~= s2.latched_mdr());
    assert(s3.mpc.value() =~= nat_bits(1, 9));
}

/// ISUB, cycle by cycle: started at `isub1` with no data read pending and at
/// least one word below the top of the stack, three micro-cycles later SP is
/// one lower, the word there and TOS both hold the wrapped difference of the old second word and the old top word (the stack's
/// top cache agrees with memory), memory is otherwise unchanged, and MPC is
/// back at `Main1`.
pub proof fn lemma_isub(s0: Mic1, s1: Mic1, s2: Mic1, s3: Mic1)
    requires
        holds_microprogram(s0),
        s0.mpc.value() == nat_bits(0x64, 9),
        s0.main_memory.first_reading@.len() == 0,
        1 <= word_of(s0.sp.value()) <= 512,
        s0.cycle(s1),
        s1.cycle(s2),
        s2.cycle(s3),
    ensures
        word_of(s3.sp.value()) == word_of(s0.sp.value()) - 1,
        word_of(s3.tos.value()) == crate::word::wrap32(
            s0.main_memory.cells@[word_of(s0.sp.value()) - 1] - word_of(s0.tos.value()),
        ),
        s3.tos.value() == word_bits(s3.main_memory.cells@[word_of(s3.sp.value())] as int),
        s3.main_memory.cells@ == s0.main_memory.cells@.update(
            word_of(s3.sp.value()),
            word_of(s3.tos.value()) as i32,
        ),
        s3.mpc.value() == nat_bits(MicroAsm::Main1.spec_address() as nat, 9),
{
    let a = (word_of(s0.sp.value()) - 1) as i32;
    lemma_isub1(s0, s1);
    lemma_isub2(s1, s2, a);
    lemma_isub3(s2, s3, a);
    let m = s0.main_memory.cells@[a as int];
    let b = s0.tos.value();
    crate::word::lemma_bits_value_bound(b);
    lemma_two_pow_32();
    assert((word_of(b) as i32) as int == word_of(b));
    lemma_word_round_trip(word_of(b) as i32, b);
    lemma_alu_laws(word_of(b) as i32, m, sub_control());
    crate::word::lemma_bits_value_bound(s3.tos.value());
    lemma_word_round_trip(word_of(s3.tos.value()) as i32, s3.tos.value());
    assert((word_of(s3.tos.value()) as i32) as int == word_of(s3.tos.value()));
}

/// `iand1`: MAR = SP = SP - 1; rd.
#[verifier::rlimit(100)]
proof fn lemma_iand1(s0: Mic1, s1: Mic1)
    requires
        holds_microprogram(s0),
        s0.mpc.value() == nat_bits(0x7e, 9),
        s0.main_memory.first_reading@.len() == 0,
        1 <= word_of(s0.sp.value()) <= 512,
        s0.cycle(s1),
    ensures
        holds_microprogram(s1),
        word_of(s1.sp.value()) == word_of(s0.sp.value()) - 1,
        s1.mar.value() == s1.sp.value(),
        s1.tos.value() == s0.tos.value(),
        s1.main_memory.first_reading@ == seq![
            ((word_of(s0.sp.value()) - 1) as i32, ReadState::ReadInitialized),
        ],
        s1.main_memory.cells@ == s0.main_memory.cells@,
        s1.mpc.value() == nat_bits(0x7f, 9),
{
    lemma_two_pow_32();
    let sp = word_of(s0.sp.value());
    let h = s0.h.value();
    lemma_row_at(s0, 0x7e);
    assert(s0.control_memory.row(0x7e) == stored_row(0x7e));
    let row0 = s0.row();
    assert(row0 == micro_row(MicroAsm::iand1));
    assert(b_select(row0) == 4);
    assert(row_alu_controls(row0) == b_dec_control());
    assert(!row0[12] && !row0[13] && !row0[9] && !row0[10] && !row0[11]);
    assert(row0[25] && row0[28] && row0[30] && !row0[22] && !row0[29] && !row0[31]);
    assert(s0.b_bus_value() =~= s0.sp.value());
    crate::word::lemma_bits_value_bound(s0.sp.value());
    crate::word::lemma_bits_value_bound(h);
    assert((sp as i32) as int == sp);
    assert((word_of(h) as i32) as int == word_of(h));
    lemma_word_round_trip(sp as i32, s0.sp.value());
    lemma_word_round_trip(word_of(h) as i32, h);
    lemma_alu_laws(word_of(h) as i32, sp as i32, b_dec_control());
    assert(crate::word::wrap32(sp - 1) == sp - 1);
    assert(word_of(s0.alu_value()) == sp - 1);
    assert(s1.main_memory.first_reading@ =~= seq![((sp - 1) as i32, ReadState::ReadInitialized)]);
    assert(s1.mpc.value() =~= nat_bits(0x7f, 9));
}

/// `iand2`: H = TOS.
#[verifier::rlimit(100)]
proof fn lemma_iand2(s1: Mic1, s2: Mic1, a: i32)
    requires
        holds_microprogram(s1),
        s1.mpc.value() == nat_bits(0x7f, 9),
        s1.main_memory.first_reading@ == seq![(a, ReadState::ReadInitialized)],
        s1.cycle(s2),
    ensures
        holds_microprogram(s2),
        s2.h.value() == s1.tos.value(),
        s2.sp.value() == s1.sp.value(),
        s2.mar.value() == s1.mar.value(),
        s2.main_memory.first_reading@ == seq![(a, ReadState::ReadInProgress)],
        s2.main_memory.cells@ == s1.main_memory.cells@,
        s2.mpc.value() == nat_bits(0x83, 9),
{
    lemma_two_pow_32();
    lemma_row_at(s1, 0x7f);
    assert(s1.control_memory.row(0x7f) == stored_row(0x7f));
    let row1 = s1.row();
    assert(row1 == micro_row(MicroAsm::iand2));
    assert(b_select(row1) == 7);
    assert(row_alu_controls(row1) == b_control());
    assert(!row1[12] && !row1[13] && !row1[9] && !row1[10] && !row1[11]);
    assert(row1[20] && !row1[25] && !row1[28] && !row1[29] && !row1[30] && !row1[31]);
    assert(s1.b_bus_value() =~= s1.tos.value());
    assert(s1.alu_value() =~= s1.tos.value());
    let q = s1.main_memory.first_reading@;
    assert(q.drop_last() =~= Seq::<ReadRequest>::empty());
    assert(advanced(q.drop_last()) =~= Seq::<ReadRequest>::empty());
    assert(q.last() == (a, ReadState::ReadInitialized));
    assert(advanced(q) =~= seq![(a, ReadState::ReadInProgress)]);
    assert(s2.mpc.value() =~= nat_bits(0x83, 9));
}

/// `iand3`: MDR = TOS = MDR op H; wr.
#[verifier::rlimit(100)]
proof fn lemma_iand3(s2: Mic1, s3: Mic1, a: i32)
    requires
        holds_microprogram(s2),
        s2.mpc.value() == nat_bits(0x83, 9),
        s2.main_memory.first_reading@ == seq![(a, ReadState::ReadInProgress)],
        0 <= a < 512,
        word_of(s2.mar.value()) == a,
        s2.cycle(s3),
    ensures
        s3.sp.value() == s2.sp.value(),
        s3.tos.value() == alu_result(
            s2.h.value(),
            word_bits(s2.main_memory.cells@[a as int] as int),
            and_control(),
        ),
        s3.main_memory.cells@ == s2.main_memory.cells@.update(
            a as int,
            word_of(s3.tos.value()) as i32,
        ),
        s3.mpc.value() == nat_bits(1, 9),
{
    lemma_two_pow_32();
    lemma_row_at(s2, 0x83);
    assert(s2.control_memory.row(0x83) == stored_row(0x83));
    let row2 = s2.row();
    assert(row2 == micro_row(MicroAsm::iand3));
    assert(b_select(row2) == 0);
    assert(row_alu_controls(row2) == and_control());
    assert(!row2[12] && !row2[13] && !row2[9] && !row2[10] && !row2[11]);
    assert(row2[22] && row2[27] && row2[29] && !row2[25] && !row2[28] && !row2[30] && !row2[31]);
    let q = s2.main_memory.first_reading@;
    assert(q.last() == (a, ReadState::ReadInProgress));
    assert(latched_address(q) == Some(a));
    let m = s2.main_memory.cells@[a as int];
    assert(s2.latched_mdr() == word_bits(m as int));
    assert(s2.b_bus_value() =~= s2.latched_mdr());
    assert(s3.mpc.value() =~= nat_bits(1, 9));
}

/// IAND, cycle by cycle: started at `iand1` with no data read pending and at
/// least one word below the top of the stack, three micro-cycles later SP is
/// one lower, the word there and TOS both hold the line-wise AND of the two old top words (the stack's
/// top cache agrees with memory), memory is otherwise unchanged, and MPC is
/// back at `Main1`.
pub proof fn lemma_iand(s0: Mic1, s1: Mic1, s2: Mic1, s3: Mic1)
    requires
        holds_microprogram(s0),
        s0.mpc.value() == nat_bits(0x7e, 9),
        s0.main_memory.first_reading@.len() == 0,
        1 <= word_of(s0.sp.value()) <= 512,
        s0.cycle(s1),
        s1.cycle(s2),
        s2.cycle(s3),
    ensures
        word_of(s3.sp.value()) == word_of(s0.sp.value()) - 1,
        s3.tos.value() == Seq::new(
            32,
            |i: int|
                word_bits(s0.main_memory.cells@[word_of(s0.sp.value()) - 1] as int)[i] && s0.tos.value()[i],
        ),
        s3.tos.value() == word_bits(s3.main_memory.cells@[word_of(s3.sp.value())] as int),
        s3.main_memory.cells@ == s0.main_memory.cells@.update(
            word_of(s3.sp.value()),
            word_of(s3.tos.value()) as i32,
        ),
        s3.mpc.value() == nat_bits(MicroAsm::Main1.spec_address() as nat, 9),
{
    let a = (word_of(s0.sp.value()) - 1) as i32;
    lemma_iand1(s0, s1);
    lemma_iand2(s1, s2, a);
    lemma_iand3(s2, s3, a);
    let m = s0.main_memory.cells@[a as int];
    let b = s0.tos.value();
    crate::word::lemma_bits_value_bound(b);
    lemma_two_pow_32();
    assert((word_of(b) as i32) as int == word_of(b));
    lemma_word_round_trip(word_of(b) as i32, b);
    lemma_alu_laws(word_of(b) as i32, m, and_control());
    assert(s3.tos.value() =~= Seq::new(32, |i: int| word_bits(m as int)[i] && b[i]));
    crate::word::lemma_bits_value_bound(s3.tos.value());
    lemma_word_round_trip(word_of(s3.tos.value()) as i32, s3.tos.value());
    assert((word_of(s3.tos.value()) as i32) as int == word_of(s3.tos.value()));
}

/// `ior1`: MAR = SP = SP - 1; rd.
#[verifier::rlimit(100)]
proof fn lemma_ior1(s0: Mic1, s1: Mic1)
    requires
        holds_microprogram(s0),
        s0.mpc.value() == nat_bits(0x80, 9),
        s0.main_memory.first_reading@.len() == 0,
        1 <= word_of(s0.sp.value()) <= 512,
        s0.cycle(s1),
    ensures
        holds_microprogram(s1),
        word_of(s1.sp.value()) == word_of(s0.sp.value()) - 1,
        s1.mar.value() == s1.sp.value(),
        s1.tos.value() == s0.tos.value(),
        s1.main_memory.first_reading@ == seq![
            ((word_of(s0.sp.value()) - 1) as i32, ReadState::ReadInitialized),
        ],
        s1.main_memory.cells@ == s0.main_memory.cells@,
        s1.mpc.value() == nat_bits(0x81, 9),
{
    lemma_two_pow_32();
    let sp = word_of(s0.sp.value());
    let h = s0.h.value();
    lemma_row_at(s0, 0x80);
    assert(s0.control_memory.row(0x80) == stored_row(0x80));
    let row0 = s0.row();
    assert(row0 == micro_row(MicroAsm::ior1));
    assert(b_select(row0) == 4);
    assert(row_alu_controls(row0) == b_dec_control());
    assert(!row0[12] && !row0[13] && !row0[9] && !row0[10] && !row0[11]);
    assert(row0[25] && row0[28] && row0[30] && !row0[22] && !row0[29] && !row0[31]);
    assert(s0.b_bus_value() =~= s0.sp.value());
    crate::word::lemma_bits_value_bound(s0.sp.value());
    crate::word::lemma_bits_value_bound(h);
    assert((sp as i32) as int == sp);
    assert((word_of(h) as i32) as int == word_of(h));
    lemma_word_round_trip(sp as i32, s0.sp.value());
    lemma_word_round_trip(word_of(h) as i32, h);
    lemma_alu_laws(word_of(h) as i32, sp as i32, b_dec_control());
    assert(crate::word::wrap32(sp - 1) == sp - 1);
    assert(word_of(s0.alu_value()) == sp - 1);
    assert(s1.main_memory.first_reading@ =~= seq![((sp - 1) as i32, ReadState::ReadInitialized)]);
    assert(s1.mpc.value() =~= nat_bits(0x81, 9));
}

/// `ior2`: H = TOS.
#[verifier::rlimit(100)]
proof fn lemma_ior2(s1: Mic1, s2: Mic1, a: i32)
    requires
        holds_microprogram(s1),
        s1.mpc.value() == nat_bits(0x81, 9),
        s1.main_memory.first_reading@ == seq![(a, ReadState::ReadInitialized)],
        s1.cycle(s2),
    ensures
        holds_microprogram(s2),
        s2.h.value() == s1.tos.value(),
        s2.sp.value() == s1.sp.value(),
        s2.mar.value() == s1.mar.value(),
        s2.main_memory.first_reading@ == seq![(a, ReadState::ReadInProgress)],
        s2.main_memory.cells@ == s1.main_memory.cells@,
        s2.mpc.value() == nat_bits(0x82, 9),
{
    lemma_two_pow_32();
    lemma_row_at(s1, 0x81);
    assert(s1.control_memory.row(0x81) == stored_row(0x81));
    let row1 = s1.row();
    assert(row1 == micro_row(MicroAsm::ior2));
    assert(b_select(row1) == 7);
    assert(row_alu_controls(row1) == b_control());
    assert(!row1[12] && !row1[13] && !row1[9] && !row1[10] && !row1[11]);
    assert(row1[20] && !row1[25] && !row1[28] && !row1[29] && !row1[30] && !row1[31]);
    assert(s1.b_bus_value() =~= s1.tos.value());
    assert(s1.alu_value() =~= s1.tos.value());
    let q = s1.main_memory.first_reading@;
    assert(q.drop_last() =~= Seq::<ReadRequest>::empty());
    assert(advanced(q.drop_last()) =~= Seq::<ReadRequest>::empty());
    assert(q.last() == (a, ReadState::ReadInitialized));
    assert(advanced(q) =~= seq![(a, ReadState::ReadInProgress)]);
    assert(s2.mpc.value() =~= nat_bits(0x82, 9));
}

/// `ior3`: MDR = TOS = MDR op H; wr.
#[verifier::rlimit(100)]
proof fn lemma_ior3(s2: Mic1, s3: Mic1, a: i32)
    requires
        holds_microprogram(s2),
        s2.mpc.value() == nat_bits(0x82, 9),
        s2.main_memory.first_reading@ == seq![(a, ReadState::ReadInProgress)],
        0 <= a < 512,
        word_of(s2.mar.value()) == a,
        s2.cycle(s3),
    ensures
        s3.sp.value() == s2.sp.value(),
        s3.tos.value() == alu_result(
            s2.h.value(),
            word_bits(s2.main_memory.cells@[a as int] as int),
            or_control(),
        ),
        s3.main_memory.cells@ == s2.main_memory.cells@.update(
            a as int,
            word_of(s3.tos.value()) as i32,
        ),
        s3.mpc.value() == nat_bits(1, 9),
{
    lemma_two_pow_32();
    lemma_row_at(s2, 0x82);
    assert(s2.control_memory.row(0x82) == stored_row(0x82));
    let row2 = s2.row();
    assert(row2 == micro_row(MicroAsm::ior3));
    assert(b_select(row2) == 0);
    assert(row_alu_controls(row2) == or_control());
    assert(!row2[12] && !row2[13] && !row2[9] && !row2[10] && !row2[11]);
    assert(row2[22] && row2[27] && row2[29] && !row2[25] && !row2[28] && !row2[30] && !row2[31]);
    let q = s2.main_memory.first_reading@;
    assert(q.last() == (a, ReadState::ReadInProgress));
    assert(latched_address(q) == Some(a));
    let m = s2.main_memory.cells@[a as int];
    assert(s2.latched_mdr() == word_bits(m as int));
    assert(s2.b_bus_value() =~= s2.latched_mdr());
    assert(s3.mpc.value() =~= nat_bits(1, 9));
}

/// IOR, cycle by cycle: started at `ior1` with no data read pending and at
/// least one word below the top of the stack, three micro-cycles later SP is
/// one lower, the word there and TOS both hold the line-wise OR of the two old top words (the stack's
/// top cache agrees with memory), memory is otherwise unchanged, and MPC is
/// back at `Main1`.
pub proof fn lemma_ior(s0: Mic1, s1: Mic1, s2: Mic1, s3: Mic1)
    requires
        holds_microprogram(s0),
        s0.mpc.value() == nat_bits(0x80, 9),
        s0.main_memory.first_reading@.len() == 0,
        1 <= word_of(s0.sp.value()) <= 512,
        s0.cycle(s1),
        s1.cycle(s2),
        s2.cycle(s3),
    ensures
        word_of(s3.sp.value()) == word_of(s0.sp.value()) - 1,
        s3.tos.value() == Seq::new(
            32,
            |i: int|
                word_bits(s0.main_memory.cells@[word_of(s0.sp.value()) - 1] as int)[i] || s0.tos.value()[i],
        ),
        s3.tos.value() == word_bits(s3.main_memory.cells@[word_of(s3.sp.value())] as int),
        s3.main_memory.cells@ == s0.main_memory.cells@.update(
            word_of(s3.sp.value()),
            word_of(s3.tos.value()) as i32,
        ),
        s3.mpc.value() == nat_bits(MicroAsm::Main1.spec_address() as nat, 9),
{
    let a = (word_of(s0.sp.value()) - 1) as i32;
    lemma_ior1(s0, s1);
    lemma_ior2(s1, s2, a);
    lemma_ior3(s2, s3, a);
    let m = s0.main_memory.cells@[a as int];
    let b = s0.tos.value();
    crate::word::lemma_bits_value_bound(b);
    lemma_two_pow_32();
    assert((word_of(b) as i32) as int == word_of(b));
    lemma_word_round_trip(word_of(b) as i32, b);
    lemma_alu_laws(word_of(b) as i32, m, or_control());
    assert(s3.tos.value() =~= Seq::new(32, |i: int| word_bits(m as int)[i] || b[i]));
    crate::word::lemma_bits_value_bound(s3.tos.value());
    lemma_word_round_trip(word_of(s3.tos.value()) as i32, s3.tos.value());
    assert((word_of(s3.tos.value()) as i32) as int == word_of(s3.tos.value()));
}

/// `swap1`: MAR = SP - 1; rd.
#[verifier::rlimit(100)]
proof fn lemma_swap1(s0: Mic1, s1: Mic1)
    requires
        holds_microprogram(s0),
        s0.mpc.value() == nat_bits(0x5f, 9),
        s0.main_memory.first_reading@.len() == 0,
        1 <= word_of(s0.sp.value()) <= 511,
        s0.cycle(s1),
    ensures
        holds_microprogram(s1),
        s1.sp.value() == s0.sp.value(),
        s1.tos.value() == s0.tos.value(),
        s1.main_memory.first_reading@ == seq![
            ((word_of(s0.sp.value()) - 1) as i32, ReadState::ReadInitialized),
        ],
        s1.main_memory.cells@ == s0.main_memory.cells@,
        s1.mpc.value() == nat_bits(0x6a, 9),
{
    lemma_two_pow_32();
    let sp = word_of(s0.sp.value());
    let h = s0.h.value();
    lemma_row_at(s0, 0x5f);
    assert(s0.control_memory.row(0x5f) == stored_row(0x5f));
    let row0 = s0.row();
    assert(row0 == micro_row(MicroAsm::swap1));
    assert(b_select(row0) == 4);
    assert(row_alu_controls(row0) == b_dec_control());
    assert(!row0[12] && !row0[13] && !row0[9] && !row0[10] && !row0[11]);
    assert(row0[28] && row0[30] && !row0[22] && !row0[25] && !row0[29] && !row0[31]);
    assert(s0.b_bus_value() =~= s0.sp.value());
    crate::word::lemma_bits_value_bound(s0.sp.value());
    crate::word::lemma_bits_value_bound(h);
    assert((sp as i32) as int == sp);
    assert((word_of(h) as i32) as int == word_of(h));
    lemma_word_round_trip(sp as i32, s0.sp.value());
    lemma_word_round_trip(word_of(h) as i32, h);
    lemma_alu_laws(word_of(h) as i32, sp as i32, b_dec_control());
    assert(crate::word::wrap32(sp - 1) == sp - 1);
    assert(word_of(s0.alu_value()) == sp - 1);
    assert(s1.main_memory.first_reading@ =~= seq![((sp - 1) as i32, ReadState::ReadInitialized)]);
    assert(s1.mpc.value() =~= nat_bits(0x6a, 9));
}

/// `swap2`: MAR = SP.
#[verifier::rlimit(100)]
proof fn lemma_swap2(s1: Mic1, s2: Mic1, a: i32)
    requires
        holds_microprogram(s1),
        s1.mpc.value() == nat_bits(0x6a, 9),
        s1.main_memory.first_reading@ == seq![(a, ReadState::ReadInitialized)],
        s1.cycle(s2),
    ensures
        holds_microprogram(s2),
        s2.sp.value() == s1.sp.value(),
        s2.mar.value() == s1.sp.value(),
        s2.tos.value() == s1.tos.value(),
        s2.main_memory.first_reading@ == seq![(a, ReadState::ReadInProgress)],
        s2.main_memory.cells@ == s1.main_memory.cells@,
        s2.mpc.value() == nat_bits(0x6b, 9),
{
    lemma_two_pow_32();
    lemma_row_at(s1, 0x6a);
    assert(s1.control_memory.row(0x6a) == stored_row(0x6a));
    let row1 = s1.row();
    assert(row1 == micro_row(MicroAsm::swap2));
    assert(b_select(row1) == 4);
    assert(row_alu_controls(row1) == b_control());
    assert(!row1[12] && !row1[13] && !row1[9] && !row1[10] && !row1[11]);
    assert(row1[28] && !row1[22] && !row1[25] && !row1[29] && !row1[30] && !row1[31]);
    assert(s1.b_bus_value() =~= s1.sp.value());
    assert(s1.alu_value() =~= s1.sp.value());
    let q = s1.main_memory.first_reading@;
    assert(q.drop_last() =~= Seq::<ReadRequest>::empty());
    assert(advanced(q.drop_last()) =~= Seq::<ReadRequest>::empty());
    assert(q.last() == (a, ReadState::ReadInitialized));
    assert(advanced(q) =~= seq![(a, ReadState::ReadInProgress)]);
    assert(s2.mpc.value() =~= nat_bits(0x6b, 9));
}

/// `swap3`: H = MDR; wr (the word below the top goes to the top's place).
#[verifier::rlimit(100)]
proof fn lemma_swap3(s2: Mic1, s3: Mic1, a: i32)
    requires
        holds_microprogram(s2),
        s2.mpc.value() == nat_bits(0x6b, 9),
        s2.main_memory.first_reading@ == seq![(a, ReadState::ReadInProgress)],
        0 <= a < 512,
        0 <= word_of(s2.mar.value()) < 512,
        s2.cycle(s3),
    ensures
        holds_microprogram(s3),
        s3.sp.value() == s2.sp.value(),
        s3.tos.value() == s2.tos.value(),
        s3.h.value() == word_bits(s2.main_memory.cells@[a as int] as int),
        s3.main_memory.first_reading@.len() == 0,
        s3.main_memory.cells@ == s2.main_memory.cells@.update(
            word_of(s2.mar.value()),
            s2.main_memory.cells@[a as int],
        ),
        s3.mpc.value() == nat_bits(0x6c, 9),
{
    lemma_two_pow_32();
    lemma_row_at(s2, 0x6b);
    assert(s2.control_memory.row(0x6b) == stored_row(0x6b));
    let row2 = s2.row();
    assert(row2 == micro_row(MicroAsm::swap3));
    assert(b_select(row2) == 0);
    assert(row_alu_controls(row2) == b_control());
    assert(!row2[12] && !row2[13] && !row2[9] && !row2[10] && !row2[11]);
    assert(row2[20] && row2[29] && !row2[22] && !row2[25] && !row2[27] && !row2[28] && !row2[30] && !row2[31]);
    let q = s2.main_memory.first_reading@;
    assert(q.last() == (a, ReadState::ReadInProgress));
    assert(latched_address(q) == Some(a));
    let m = s2.main_memory.cells@[a as int];
    assert(s2.latched_mdr() == word_bits(m as int));
    assert(s2.b_bus_value() =~= s2.latched_mdr());
    assert(s2.alu_value() =~= s2.latched_mdr());
    lemma_word_round_trip(m, word_bits(m as int));
    assert(q.drop_last() =~= Seq::<ReadRequest>::empty());
    assert(advanced(q.drop_last()) =~= Seq::<ReadRequest>::empty());
    assert(advanced(q) =~= Seq::<ReadRequest>::empty());
    assert(s3.mpc.value() =~= nat_bits(0x6c, 9));
}

/// `swap4`: MDR = TOS.
#[verifier::rlimit(100)]
proof fn lemma_swap4(s3: Mic1, s4: Mic1)
    requires
        holds_microprogram(s3),
        s3.mpc.value() == nat_bits(0x6c, 9),
        s3.main_memory.first_reading@.len() == 0,
        s3.cycle(s4),
    ensures
        holds_microprogram(s4),
        s4.sp.value() == s3.sp.value(),
        s4.tos.value() == s3.tos.value(),
        s4.h.value() == s3.h.value(),
        s4.mdr.value() == s3.tos.value(),
        s4.main_memory.first_reading@.len() == 0,
        s4.main_memory.cells@ == s3.main_memory.cells@,
        s4.mpc.value() == nat_bits(0x6d, 9),
{
    lemma_two_pow_32();
    lemma_row_at(s3, 0x6c);
    assert(s3.control_memory.row(0x6c) == stored_row(0x6c));
    let row3 = s3.row();
    assert(row3 == micro_row(MicroAsm::swap4));
    assert(b_select(row3) == 7);
    assert(row_alu_controls(row3) == b_control());
    assert(!row3[12] && !row3[13] && !row3[9] && !row3[10] && !row3[11]);
    assert(row3[27] && !row3[20] && !row3[22] && !row3[25] && !row3[29] && !row3[30] && !row3[31]);
    assert(s3.b_bus_value() =~= s3.tos.value());
    assert(s3.alu_value() =~= s3.tos.value());
    assert(advanced(s3.main_memory.first_reading@) =~= Seq::<ReadRequest>::empty());
    assert(s4.mpc.value() =~= nat_bits(0x6d, 9));
}

/// `swap5`: MAR = SP - 1; wr (the old top goes below).
#[verifier::rlimit(100)]
proof fn lemma_swap5(s4: Mic1, s5: Mic1)
    requires
        holds_microprogram(s4),
        s4.mpc.value() == nat_bits(0x6d, 9),
        s4.main_memory.first_reading@.len() == 0,
        1 <= word_of(s4.sp.value()) <= 512,
        s4.cycle(s5),
    ensures
        holds_microprogram(s5),
        s5.sp.value() == s4.sp.value(),
        s5.h.value() == s4.h.value(),
        s5.main_memory.cells@ == s4.main_memory.cells@.update(
            word_of(s4.sp.value()) - 1,
            word_of(s4.mdr.value()) as i32,
        ),
        s5.mpc.value() == nat_bits(0x6e, 9),
{
    lemma_two_pow_32();
    let sp = word_of(s4.sp.value());
    let h = s4.h.value();
    lemma_row_at(s4, 0x6d);
    assert(s4.control_memory.row(0x6d) == stored_row(0x6d));
    let row4 = s4.row();
    assert(row4 == micro_row(MicroAsm::swap5));
    assert(b_select(row4) == 4);
    assert(row_alu_controls(row4) == b_dec_control());
    assert(!row4[12] && !row4[13] && !row4[9] && !row4[10] && !row4[11]);
    assert(row4[28] && row4[29] && !row4[20] && !row4[25] && !row4[27] && !row4[30] && !row4[31]);
    assert(s4.b_bus_value() =~= s4.sp.value());
    crate::word::lemma_bits_value_bound(s4.sp.value());
    crate::word::lemma_bits_value_bound(h);
    assert((sp as i32) as int == sp);
    assert((word_of(h) as i32) as int == word_of(h));
    lemma_word_round_trip(sp as i32, s4.sp.value());
    lemma_word_round_trip(word_of(h) as i32, h);
    lemma_alu_laws(word_of(h) as i32, sp as i32, b_dec_control());
    assert(crate::word::wrap32(sp - 1) == sp - 1);
    assert(word_of(s4.alu_value()) == sp - 1);
    assert(s5.mpc.value() =~= nat_bits(0x6e, 9));
}

/// `swap6`: TOS = H; back to `Main1`.
#[verifier::rlimit(100)]
proof fn lemma_swap6(s5: Mic1, s6: Mic1)
    requires
        holds_microprogram(s5),
        s5.mpc.value() == nat_bits(0x6e, 9),
        s5.cycle(s6),
    ensures
        s6.sp.value() == s5.sp.value(),
        s6.tos.value() == s5.h.value(),
        s6.main_memory.cells@ == s5.main_memory.cells@,
        s6.mpc.value() == nat_bits(1, 9),
{
    lemma_two_pow_32();
    lemma_row_at(s5, 0x6e);
    assert(s5.control_memory.row(0x6e) == stored_row(0x6e));
    let row5 = s5.row();
    assert(row5 == micro_row(MicroAsm::swap6));
    assert(row_alu_controls(row5) == a_control());
    assert(!row5[12] && !row5[13] && !row5[9] && !row5[10] && !row5[11]);
    assert(row5[22] && !row5[25] && !row5[29] && !row5[30] && !row5[31]);
    assert(s5.alu_value() =~= s5.h.value());
    assert(s6.mpc.value() =~= nat_bits(1, 9));
}

/// SWAP, cycle by cycle: started at `swap1` with no data read pending and
/// two words on the stack inside memory, six micro-cycles later the two top
/// words have traded places, SP is unchanged, TOS holds the new top word
/// (the stack's top cache agrees with memory), memory is otherwise
/// unchanged, and MPC is back at `Main1`.
pub proof fn lemma_swap(s0: Mic1, s1: Mic1, s2: Mic1, s3: Mic1, s4: Mic1, s5: Mic1, s6: Mic1)
    requires
        holds_microprogram(s0),
        s0.mpc.value() == nat_bits(0x5f, 9),
        s0.main_memory.first_reading@.len() == 0,
        1 <= word_of(s0.sp.value()) <= 511,
        s0.cycle(s1),
        s1.cycle(s2),
        s2.cycle(s3),
        s3.cycle(s4),
        s4.cycle(s5),
        s5.cycle(s6),
    ensures
        s6.sp.value() == s0.sp.value(),
        s6.main_memory.cells@ == s0.main_memory.cells@.update(
            word_of(s0.sp.value()),
            s0.main_memory.cells@[word_of(s0.sp.value()) - 1],
        ).update(word_of(s0.sp.value()) - 1, word_of(s0.tos.value()) as i32),
        s6.tos.value() == word_bits(s6.main_memory.cells@[word_of(s6.sp.value())] as int),
        s6.mpc.value() == nat_bits(MicroAsm::Main1.spec_address() as nat, 9),
{
    let a = (word_of(s0.sp.value()) - 1) as i32;
    lemma_swap1(s0, s1);
    lemma_swap2(s1, s2, a);
    lemma_swap3(s2, s3, a);
    lemma_swap4(s3, s4);
    lemma_swap5(s4, s5);
    lemma_swap6(s5, s6);
}

/// A byte's word, zero-extended from its low eight lines, is itself.
proof fn lemma_byte_zero_extended(k: int)
    requires
        0 <= k < 256,
    ensures
        zero_extended(word_bits(k)) == word_bits(k),
{
    lemma_two_pow_32();
    assert forall|i: int| 8 <= i < 32 implies !#[trigger] word_bits(k)[i] by {
        crate::word::lemma_two_pow_mono(8, i as nat);
        let t = crate::word::two_pow(i as nat) as int;
        assert(k / t == 0) by (nonlinear_arith)
            requires
                0 <= k < 256,
                t >= 256,
        ;
    }
    assert(zero_extended(word_bits(k)) =~= word_bits(k));
}

/// `istore1`: H = LV.
#[verifier::rlimit(100)]
proof fn lemma_istore1(s0: Mic1, s1: Mic1, p: i32)
    requires
        holds_microprogram(s0),
        s0.mpc.value() == nat_bits(0x36, 9),
        s0.main_memory.first_reading@.len() == 0,
        s0.main_memory.second_reading@ == seq![(p, ReadState::ReadInitialized)],
        s0.cycle(s1),
    ensures
        holds_microprogram(s1),
        s1.h.value() == s0.lv.value(),
        s1.sp.value() == s0.sp.value(),
        s1.tos.value() == s0.tos.value(),
        s1.main_memory.first_reading@.len() == 0,
        s1.main_memory.second_reading@ == seq![(p, ReadState::ReadInProgress)],
        s1.main_memory.cells@ == s0.main_memory.cells@,
        s1.mpc.value() == nat_bits(0x37, 9),
{
    lemma_two_pow_32();
    lemma_row_at(s0, 0x36);
    assert(s0.control_memory.row(0x36) == stored_row(0x36));
    let row0 = s0.row();
    assert(row0 == micro_row(MicroAsm::istore1));
    assert(b_select(row0) == 5);
    assert(row_alu_controls(row0) == b_control());
    assert(!row0[12] && !row0[13] && !row0[9] && !row0[10] && !row0[11]);
    assert(row0[20] && !row0[22] && !row0[25] && !row0[29] && !row0[30] && !row0[31]);
    assert(s0.b_bus_value() =~= s0.lv.value());
    assert(s0.alu_value() =~= s0.lv.value());
    assert(advanced(s0.main_memory.first_reading@) =~= Seq::<ReadRequest>::empty());
    let q = s0.main_memory.second_reading@;
    assert(q.drop_last() =~= Seq::<ReadRequest>::empty());
    assert(advanced(q.drop_last()) =~= Seq::<ReadRequest>::empty());
    assert(q.last() == (p, ReadState::ReadInitialized));
    assert(advanced(q) =~= seq![(p, ReadState::ReadInProgress)]);
    assert(s1.mpc.value() =~= nat_bits(0x37, 9));
}

/// `istore2`: MAR = MBRU + H.
#[verifier::rlimit(100)]
proof fn lemma_istore2(s1: Mic1, s2: Mic1, p: i32)
    requires
        holds_microprogram(s1),
        s1.mpc.value() == nat_bits(0x37, 9),
        s1.main_memory.first_reading@.len() == 0,
        s1.main_memory.second_reading@ == seq![(p, ReadState::ReadInProgress)],
        0 <= p < 512,
        0 <= s1.main_memory.cells@[p as int] < 256,
        0 <= word_of(s1.h.value()) + s1.main_memory.cells@[p as int] < 512,
        s1.cycle(s2),
    ensures
        holds_microprogram(s2),
        word_of(s2.mar.value()) == word_of(s1.h.value()) + s1.main_memory.cells@[p as int],
        s2.sp.value() == s1.sp.value(),
        s2.tos.value() == s1.tos.value(),
        s2.main_memory.first_reading@.len() == 0,
        s2.main_memory.cells@ == s1.main_memory.cells@,
        s2.mpc.value() == nat_bits(0x38, 9),
{
    lemma_two_pow_32();
    lemma_row_at(s1, 0x37);
    assert(s1.control_memory.row(0x37) == stored_row(0x37));
    let row1 = s1.row();
    assert(row1 == micro_row(MicroAsm::istore2));
    assert(b_select(row1) == 3);
    assert(row_alu_controls(row1) == sum_control());
    assert(!row1[12] && !row1[13] && !row1[9] && !row1[10] && !row1[11]);
    assert(row1[28] && !row1[22] && !row1[25] && !row1[29] && !row1[30] && !row1[31]);
    let q = s1.main_memory.second_reading@;
    assert(q.last() == (p, ReadState::ReadInProgress));
    assert(latched_address(q) == Some(p));
    let k = s1.main_memory.cells@[p as int];
    assert(s1.latched_mbr() == word_bits(k as int));
    lemma_byte_zero_extended(k as int);
    assert(s1.b_bus_value() =~= word_bits(k as int));
    let h = s1.h.value();
    crate::word::lemma_bits_value_bound(h);
    assert((word_of(h) as i32) as int == word_of(h));
    lemma_word_round_trip(word_of(h) as i32, h);
    lemma_alu_laws(word_of(h) as i32, k, sum_control());
    assert(crate::word::wrap32(word_of(h) + k) == word_of(h) + k);
    assert(word_of(s1.alu_value()) == word_of(h) + k);
    assert(advanced(s1.main_memory.first_reading@) =~= Seq::<ReadRequest>::empty());
    assert(s2.mpc.value() =~= nat_bits(0x38, 9));
}

/// `istore3`: MDR = TOS; wr.
#[verifier::rlimit(100)]
proof fn lemma_istore3(s2: Mic1, s3: Mic1)
    requires
        holds_microprogram(s2),
        s2.mpc.value() == nat_bits(0x38, 9),
        s2.main_memory.first_reading@.len() == 0,
        0 <= word_of(s2.mar.value()) < 512,
        s2.cycle(s3),
    ensures
        holds_microprogram(s3),
        s3.sp.value() == s2.sp.value(),
        s3.tos.value() == s2.tos.value(),
        s3.main_memory.first_reading@.len() == 0,
        s3.main_memory.cells@ == s2.main_memory.cells@.update(
            word_of(s2.mar.value()),
            word_of(s2.tos.value()) as i32,
        ),
        s3.mpc.value() == nat_bits(0x39, 9),
{
    lemma_two_pow_32();
    lemma_row_at(s2, 0x38);
    assert(s2.control_memory.row(0x38) == stored_row(0x38));
    let row2 = s2.row();
    assert(row2 == micro_row(MicroAsm::istore3));
    assert(b_select(row2) == 7);
    assert(row_alu_controls(row2) == b_control());
    assert(!row2[12] && !row2[13] && !row2[9] && !row2[10] && !row2[11]);
    assert(row2[27] && row2[29] && !row2[22] && !row2[25] && !row2[28] && !row2[30] && !row2[31]);
    assert(s2.b_bus_value() =~= s2.tos.value());
    assert(s2.alu_value() =~= s2.tos.value());
    assert(advanced(s2.main_memory.first_reading@) =~= Seq::<ReadRequest>::empty());
    assert(s3.mpc.value() =~= nat_bits(0x39, 9));
}

/// `istore4`: MAR = SP = SP - 1; rd.
#[verifier::rlimit(100)]
proof fn lemma_istore4(s3: Mic1, s4: Mic1)
    requires
        holds_microprogram(s3),
        s3.mpc.value() == nat_bits(0x39, 9),
        s3.main_memory.first_reading@.len() == 0,
        1 <= word_of(s3.sp.value()) <= 512,
        s3.cycle(s4),
    ensures
        holds_microprogram(s4),
        word_of(s4.sp.value()) == word_of(s3.sp.value()) - 1,
        s4.main_memory.first_reading@ == seq![
            ((word_of(s3.sp.value()) - 1) as i32, ReadState::ReadInitialized),
        ],
        s4.main_memory.cells@ == s3.main_memory.cells@,
        s4.mpc.value() == nat_bits(0x3a, 9),
{
    lemma_two_pow_32();
    let sp = word_of(s3.sp.value());
    let h = s3.h.value();
    lemma_row_at(s3, 0x39);
    assert(s3.control_memory.row(0x39) == stored_row(0x39));
    let row3 = s3.row();
    assert(row3 == micro_row(MicroAsm::istore4));
    assert(b_select(row3) == 4);
    assert(row_alu_controls(row3) == b_dec_control());
    assert(!row3[12] && !row3[13] && !row3[9] && !row3[10] && !row3[11]);
    assert(row3[25] && row3[28] && row3[30] && !row3[29] && !row3[31]);
    assert(s3.b_bus_value() =~= s3.sp.value());
    crate::word::lemma_bits_value_bound(s3.sp.value());
    crate::word::lemma_bits_value_bound(h);
    assert((sp as i32) as int == sp);
    assert((word_of(h) as i32) as int == word_of(h));
    lemma_word_round_trip(sp as i32, s3.sp.value());
    lemma_word_round_trip(word_of(h) as i32, h);
    lemma_alu_laws(word_of(h) as i32, sp as i32, b_dec_control());
    assert(crate::word::wrap32(sp - 1) == sp - 1);
    assert(word_of(s3.alu_value()) == sp - 1);
    assert(advanced(s3.main_memory.first_reading@) =~= Seq::<ReadRequest>::empty());
    assert(s4.main_memory.first_reading@ =~= seq![((sp - 1) as i32, ReadState::ReadInitialized)]);
    assert(s4.mpc.value() =~= nat_bits(0x3a, 9));
}

/// `istore5`: PC = PC + 1; fetch.
#[verifier::rlimit(100)]
proof fn lemma_istore5(s4: Mic1, s5: Mic1, a: i32)
    requires
        holds_microprogram(s4),
        s4.mpc.value() == nat_bits(0x3a, 9),
        s4.main_memory.first_reading@ == seq![(a, ReadState::ReadInitialized)],
        s4.cycle(s5),
    ensures
        holds_microprogram(s5),
        s5.sp.value() == s4.sp.value(),
        s5.main_memory.first_reading@ == seq![(a, ReadState::ReadInProgress)],
        s5.main_memory.cells@ == s4.main_memory.cells@,
        s5.mpc.value() == nat_bits(0x3b, 9),
{
    lemma_two_pow_32();
    lemma_row_at(s4, 0x3a);
    assert(s4.control_memory.row(0x3a) == stored_row(0x3a));
    let row4 = s4.row();
    assert(row4 == micro_row(MicroAsm::istore5));
    assert(!row4[9] && !row4[10] && !row4[11]);
    assert(row4[26] && row4[31] && !row4[25] && !row4[29] && !row4[30]);
    let q = s4.main_memory.first_reading@;
    assert(q.drop_last() =~= Seq::<ReadRequest>::empty());
    assert(advanced(q.drop_last()) =~= Seq::<ReadRequest>::empty());
    assert(q.last() == (a, ReadState::ReadInitialized));
    assert(advanced(q) =~= seq![(a, ReadState::ReadInProgress)]);
    assert(s5.mpc.value() =~= nat_bits(0x3b, 9));
}

/// `istore6`: TOS = MDR; back to `Main1`.
#[verifier::rlimit(100)]
proof fn lemma_istore6(s5: Mic1, s6: Mic1, a: i32)
    requires
        holds_microprogram(s5),
        s5.mpc.value() == nat_bits(0x3b, 9),
        s5.main_memory.first_reading@ == seq![(a, ReadState::ReadInProgress)],
        0 <= a < 512,
        s5.cycle(s6),
    ensures
        s6.sp.value() == s5.sp.value(),
        s6.tos.value() == word_bits(s5.main_memory.cells@[a as int] as int),
        s6.main_memory.cells@ == s5.main_memory.cells@,
        s6.mpc.value() == nat_bits(1, 9),
{
    lemma_two_pow_32();
    lemma_row_at(s5, 0x3b);
    assert(s5.control_memory.row(0x3b) == stored_row(0x3b));
    let row5 = s5.row();
    assert(row5 == micro_row(MicroAsm::istore6));
    assert(b_select(row5) == 0);
    assert(row_alu_controls(row5) == b_control());
    assert(!row5[12] && !row5[13] && !row5[9] && !row5[10] && !row5[11]);
    assert(row5[22] && !row5[25] && !row5[29] && !row5[30] && !row5[31]);
    let q = s5.main_memory.first_reading@;
    assert(q.last() == (a, ReadState::ReadInProgress));
    assert(latched_address(q) == Some(a));
    assert(s5.latched_mdr() == word_bits(s5.main_memory.cells@[a as int] as int));
    assert(s5.b_bus_value() =~= s5.latched_mdr());
    assert(s5.alu_value() =~= s5.latched_mdr());
    assert(s6.mpc.value() =~= nat_bits(1, 9));
}

/// ISTORE, cycle by cycle: started at `istore1` with no data read pending,
/// the fetch of the index byte (at address `p`) requested in the cycle
/// before, the local slot and the stack inside memory: six micro-cycles later
/// the old TOS is stored in local `LV + index`, SP is one lower, TOS holds
/// the word at the new SP (the stack's top cache agrees with memory), and
/// MPC is back at `Main1`.
pub proof fn lemma_istore(s0: Mic1, s1: Mic1, s2: Mic1, s3: Mic1, s4: Mic1, s5: Mic1, s6: Mic1, p: i32)
    requires
        holds_microprogram(s0),
        s0.mpc.value() == nat_bits(0x36, 9),
        s0.main_memory.first_reading@.len() == 0,
        s0.main_memory.second_reading@ == seq![(p, ReadState::ReadInitialized)],
        0 <= p < 512,
        0 <= s0.main_memory.cells@[p as int] < 256,
        0 <= word_of(s0.lv.value()) + s0.main_memory.cells@[p as int] < 512,
        1 <= word_of(s0.sp.value()) <= 512,
        s0.cycle(s1),
        s1.cycle(s2),
        s2.cycle(s3),
        s3.cycle(s4),
        s4.cycle(s5),
        s5.cycle(s6),
    ensures
        s6.main_memory.cells@ == s0.main_memory.cells@.update(
            word_of(s0.lv.value()) + s0.main_memory.cells@[p as int],
            word_of(s0.tos.value()) as i32,
        ),
        word_of(s6.sp.value()) == word_of(s0.sp.value()) - 1,
        s6.tos.value() == word_bits(s6.main_memory.cells@[word_of(s6.sp.value())] as int),
        s6.mpc.value() == nat_bits(MicroAsm::Main1.spec_address() as nat, 9),
{
    lemma_istore1(s0, s1, p);
    lemma_istore2(s1, s2, p);
    lemma_istore3(s2, s3);
    lemma_istore4(s3, s4);
    let a = (word_of(s0.sp.value()) - 1) as i32;
    lemma_istore5(s4, s5, a);
    lemma_istore6(s5, s6, a);
}

/// `iload1`: H = LV.
#[verifier::rlimit(100)]
proof fn lemma_iload1(s0: Mic1, s1: Mic1, p: i32)
    requires
        holds_microprogram(s0),
        s0.mpc.value() == nat_bits(0x15, 9),
        s0.main_memory.first_reading@.len() == 0,
        s0.main_memory.second_reading@ == seq![(p, ReadState::ReadInitialized)],
        s0.cycle(s1),
    ensures
        holds_microprogram(s1),
        s1.h.value() == s0.lv.value(),
        s1.sp.value() == s0.sp.value(),
        s1.main_memory.first_reading@.len() == 0,
        s1.main_memory.second_reading@ == seq![(p, ReadState::ReadInProgress)],
        s1.main_memory.cells@ == s0.main_memory.cells@,
        s1.mpc.value() == nat_bits(0x16, 9),
{
    lemma_two_pow_32();
    lemma_row_at(s0, 0x15);
    assert(s0.control_memory.row(0x15) == stored_row(0x15));
    let row0 = s0.row();
    assert(row0 == micro_row(MicroAsm::iload1));
    assert(b_select(row0) == 5);
    assert(row_alu_controls(row0) == b_control());
    assert(!row0[12] && !row0[13] && !row0[9] && !row0[10] && !row0[11]);
    assert(row0[20] && !row0[25] && !row0[29] && !row0[30] && !row0[31]);
    assert(s0.b_bus_value() =~= s0.lv.value());
    assert(s0.alu_value() =~= s0.lv.value());
    assert(advanced(s0.main_memory.first_reading@) =~= Seq::<ReadRequest>::empty());
    let q = s0.main_memory.second_reading@;
    assert(q.drop_last() =~= Seq::<ReadRequest>::empty());
    assert(advanced(q.drop_last()) =~= Seq::<ReadRequest>::empty());
    assert(q.last() == (p, ReadState::ReadInitialized));
    assert(advanced(q) =~= seq![(p, ReadState::ReadInProgress)]);
    assert(s1.mpc.value() =~= nat_bits(0x16, 9));
}

/// `iload2`: MAR = MBRU + H; rd.
#[verifier::rlimit(100)]
proof fn lemma_iload2(s1: Mic1, s2: Mic1, p: i32)
    requires
        holds_microprogram(s1),
        s1.mpc.value() == nat_bits(0x16, 9),
        s1.main_memory.first_reading@.len() == 0,
        s1.main_memory.second_reading@ == seq![(p, ReadState::ReadInProgress)],
        0 <= p < 512,
        0 <= s1.main_memory.cells@[p as int] < 256,
        0 <= word_of(s1.h.value()) + s1.main_memory.cells@[p as int] < 512,
        s1.cycle(s2),
    ensures
        holds_microprogram(s2),
        s2.sp.value() == s1.sp.value(),
        s2.main_memory.first_reading@ == seq![
            ((word_of(s1.h.value()) + s1.main_memory.cells@[p as int]) as i32, ReadState::ReadInitialized),
        ],
        s2.main_memory.cells@ == s1.main_memory.cells@,
        s2.mpc.value() == nat_bits(0x17, 9),
{
    lemma_two_pow_32();
    lemma_row_at(s1, 0x16);
    assert(s1.control_memory.row(0x16) == stored_row(0x16));
    let row1 = s1.row();
    assert(row1 == micro_row(MicroAsm::iload2));
    assert(b_select(row1) == 3);
    assert(row_alu_controls(row1) == sum_control());
    assert(!row1[12] && !row1[13] && !row1[9] && !row1[10] && !row1[11]);
    assert(row1[28] && row1[30] && !row1[25] && !row1[29] && !row1[31]);
    let q = s1.main_memory.second_reading@;
    assert(q.last() == (p, ReadState::ReadInProgress));
    assert(latched_address(q) == Some(p));
    let k = s1.main_memory.cells@[p as int];
    assert(s1.latched_mbr() == word_bits(k as int));
    lemma_byte_zero_extended(k as int);
    assert(s1.b_bus_value() =~= word_bits(k as int));
    let h = s1.h.value();
    crate::word::lemma_bits_value_bound(h);
    assert((word_of(h) as i32) as int == word_of(h));
    lemma_word_round_trip(word_of(h) as i32, h);
    lemma_alu_laws(word_of(h) as i32, k, sum_control());
    assert(crate::word::wrap32(word_of(h) + k) == word_of(h) + k);
    assert(word_of(s1.alu_value()) == word_of(h) + k);
    assert(advanced(s1.main_memory.first_reading@) =~= Seq::<ReadRequest>::empty());
    assert(s2.main_memory.first_reading@ =~= seq![
        ((word_of(h) + k) as i32, ReadState::ReadInitialized),
    ]);
    assert(s2.mpc.value() =~= nat_bits(0x17, 9));
}

/// `iload3`: MAR = SP = SP + 1.
#[verifier::rlimit(100)]
proof fn lemma_iload3(s2: Mic1, s3: Mic1, a: i32)
    requires
        holds_microprogram(s2),
        s2.mpc.value() == nat_bits(0x17, 9),
        s2.main_memory.first_reading@ == seq![(a, ReadState::ReadInitialized)],
        -1 <= word_of(s2.sp.value()) <= 510,
        s2.cycle(s3),
    ensures
        holds_microprogram(s3),
        word_of(s3.sp.value()) == word_of(s2.sp.value()) + 1,
        s3.mar.value() == s3.sp.value(),
        s3.main_memory.first_reading@ == seq![(a, ReadState::ReadInProgress)],
        s3.main_memory.cells@ == s2.main_memory.cells@,
        s3.mpc.value() == nat_bits(0x18, 9),
{
    lemma_two_pow_32();
    let sp = word_of(s2.sp.value());
    let h = s2.h.value();
    lemma_row_at(s2, 0x17);
    assert(s2.control_memory.row(0x17) == stored_row(0x17));
    let row2 = s2.row();
    assert(row2 == micro_row(MicroAsm::iload3));
    assert(b_select(row2) == 4);
    assert(row_alu_controls(row2) == b_inc_control());
    assert(!row2[12] && !row2[13] && !row2[9] && !row2[10] && !row2[11]);
    assert(row2[25] && row2[28] && !row2[29] && !row2[30] && !row2[31]);
    assert(s2.b_bus_value() =~= s2.sp.value());
    crate::word::lemma_bits_value_bound(s2.sp.value());
    crate::word::lemma_bits_value_bound(h);
    assert((sp as i32) as int == sp);
    assert((word_of(h) as i32) as int == word_of(h));
    lemma_word_round_trip(sp as i32, s2.sp.value());
    lemma_word_round_trip(word_of(h) as i32, h);
    lemma_alu_laws(word_of(h) as i32, sp as i32, b_inc_control());
    assert(crate::word::wrap32(sp + 1) == sp + 1);
    assert(word_of(s2.alu_value()) == sp + 1);
    let q = s2.main_memory.first_reading@;
    assert(q.drop_last() =~= Seq::<ReadRequest>::empty());
    assert(advanced(q.drop_last()) =~= Seq::<ReadRequest>::empty());
    assert(q.last() == (a, ReadState::ReadInitialized));
    assert(advanced(q) =~= seq![(a, ReadState::ReadInProgress)]);
    assert(s3.mpc.value() =~= nat_bits(0x18, 9));
}

/// `iload4`: PC = PC + 1; fetch; wr (the local is copied to the new top).
#[verifier::rlimit(100)]
proof fn lemma_iload4(s3: Mic1, s4: Mic1, a: i32)
    requires
        holds_microprogram(s3),
        s3.mpc.value() == nat_bits(0x18, 9),
        s3.main_memory.first_reading@ == seq![(a, ReadState::ReadInProgress)],
        0 <= a < 512,
        0 <= word_of(s3.mar.value()) < 512,
        s3.cycle(s4),
    ensures
        holds_microprogram(s4),
        s4.sp.value() == s3.sp.value(),
        s4.mdr.value() == word_bits(s3.main_memory.cells@[a as int] as int),
        s4.main_memory.first_reading@.len() == 0,
        s4.main_memory.cells@ == s3.main_memory.cells@.update(
            word_of(s3.mar.value()),
            s3.main_memory.cells@[a as int],
        ),
        s4.mpc.value() == nat_bits(0x19, 9),
{
    lemma_two_pow_32();
    lemma_row_at(s3, 0x18);
    assert(s3.control_memory.row(0x18) == stored_row(0x18));
    let row3 = s3.row();
    assert(row3 == micro_row(MicroAsm::iload4));
    assert(!row3[9] && !row3[10] && !row3[11]);
    assert(row3[26] && row3[29] && row3[31] && !row3[25] && !row3[27] && !row3[28] && !row3[30]);
    let q = s3.main_memory.first_reading@;
    assert(q.last() == (a, ReadState::ReadInProgress));
    assert(latched_address(q) == Some(a));
    let m = s3.main_memory.cells@[a as int];
    assert(s3.latched_mdr() == word_bits(m as int));
    lemma_word_round_trip(m, word_bits(m as int));
    assert(q.drop_last() =~= Seq::<ReadRequest>::empty());
    assert(advanced(q.drop_last()) =~= Seq::<ReadRequest>::empty());
    assert(advanced(q) =~= Seq::<ReadRequest>::empty());
    assert(s4.mpc.value() =~= nat_bits(0x19, 9));
}

/// `iload5`: TOS = MDR; back to `Main1`.
#[verifier::rlimit(100)]
proof fn lemma_iload5(s4: Mic1, s5: Mic1)
    requires
        holds_microprogram(s4),
        s4.mpc.value() == nat_bits(0x19, 9),
        s4.main_memory.first_reading@.len() == 0,
        s4.cycle(s5),
    ensures
        s5.sp.value() == s4.sp.value(),
        s5.tos.value() == s4.mdr.value(),
        s5.main_memory.cells@ == s4.main_memory.cells@,
        s5.mpc.value() == nat_bits(1, 9),
{
    lemma_two_pow_32();
    lemma_row_at(s4, 0x19);
    assert(s4.control_memory.row(0x19) == stored_row(0x19));
    let row4 = s4.row();
    assert(row4 == micro_row(MicroAsm::iload5));
    assert(b_select(row4) == 0);
    assert(row_alu_controls(row4) == b_control());
    assert(!row4[12] && !row4[13] && !row4[9] && !row4[10] && !row4[11]);
    assert(row4[22] && !row4[25] && !row4[29] && !row4[30] && !row4[31]);
    assert(latched_address(s4.main_memory.first_reading@) is None);
    assert(s4.b_bus_value() =~= s4.mdr.value());
    assert(s4.alu_value() =~= s4.mdr.value());
    assert(s5.mpc.value() =~= nat_bits(1, 9));
}

/// ILOAD, cycle by cycle: started at `iload1` with no data read pending,
/// the fetch of the index byte (at address `p`) requested in the cycle
/// before, the local slot and the new top inside memory: five micro-cycles
/// later SP is one higher, the word there and TOS both hold local
/// `LV + index` (the stack's top cache agrees with memory), memory is
/// otherwise unchanged, and MPC is back at `Main1`.
pub proof fn lemma_iload(s0: Mic1, s1: Mic1, s2: Mic1, s3: Mic1, s4: Mic1, s5: Mic1, p: i32)
    requires
        holds_microprogram(s0),
        s0.mpc.value() == nat_bits(0x15, 9),
        s0.main_memory.first_reading@.len() == 0,
        s0.main_memory.second_reading@ == seq![(p, ReadState::ReadInitialized)],
        0 <= p < 512,
        0 <= s0.main_memory.cells@[p as int] < 256,
        0 <= word_of(s0.lv.value()) + s0.main_memory.cells@[p as int] < 512,
        -1 <= word_of(s0.sp.value()) <= 510,
        s0.cycle(s1),
        s1.cycle(s2),
        s2.cycle(s3),
        s3.cycle(s4),
        s4.cycle(s5),
    ensures
        word_of(s5.sp.value()) == word_of(s0.sp.value()) + 1,
        s5.tos.value() == word_bits(
            s0.main_memory.cells@[word_of(s0.lv.value()) + s0.main_memory.cells@[p as int]] as int,
        ),
        s5.main_memory.cells@ == s0.main_memory.cells@.update(
            word_of(s5.sp.value()),
            s0.main_memory.cells@[word_of(s0.lv.value()) + s0.main_memory.cells@[p as int]],
        ),
        s5.tos.value() == word_bits(s5.main_memory.cells@[word_of(s5.sp.value())] as int),
        s5.mpc.value() == nat_bits(MicroAsm::Main1.spec_address() as nat, 9),
{
    lemma_iload1(s0, s1, p);
    lemma_iload2(s1, s2, p);
    let a = (word_of(s0.lv.value()) + s0.main_memory.cells@[p as int]) as i32;
    lemma_iload3(s2, s3, a);
    lemma_iload4(s3, s4, a);
    lemma_iload5(s4, s5);
}

/// `bipush1`: MAR = SP = SP + 1.
#[verifier::rlimit(100)]
proof fn lemma_bipush1(s0: Mic1, s1: Mic1, p: i32)
    requires
        holds_microprogram(s0),
        s0.mpc.value() == nat_bits(0x10, 9),
        s0.main_memory.second_reading@ == seq![(p, ReadState::ReadInitialized)],
        -1 <= word_of(s0.sp.value()) <= 510,
        s0.cycle(s1),
    ensures
        holds_microprogram(s1),
        word_of(s1.sp.value()) == word_of(s0.sp.value()) + 1,
        s1.mar.value() == s1.sp.value(),
        s1.main_memory.second_reading@ == seq![(p, ReadState::ReadInProgress)],
        s1.main_memory.cells@ == s0.main_memory.cells@,
        s1.mpc.value() == nat_bits(0x11, 9),
{
    lemma_two_pow_32();
    let sp = word_of(s0.sp.value());
    let h = s0.h.value();
    lemma_row_at(s0, 0x10);
    assert(s0.control_memory.row(0x10) == stored_row(0x10));
    let row0 = s0.row();
    assert(row0 == micro_row(MicroAsm::bipush1));
    assert(b_select(row0) == 4);
    assert(row_alu_controls(row0) == b_inc_control());
    assert(!row0[12] && !row0[13] && !row0[9] && !row0[10] && !row0[11]);
    assert(row0[25] && row0[28] && !row0[29] && !row0[30] && !row0[31]);
    assert(s0.b_bus_value() =~= s0.sp.value());
    crate::word::lemma_bits_value_bound(s0.sp.value());
    crate::word::lemma_bits_value_bound(h);
    assert((sp as i32) as int == sp);
    assert((word_of(h) as i32) as int == word_of(h));
    lemma_word_round_trip(sp as i32, s0.sp.value());
    lemma_word_round_trip(word_of(h) as i32, h);
    lemma_alu_laws(word_of(h) as i32, sp as i32, b_inc_control());
    assert(crate::word::wrap32(sp + 1) == sp + 1);
    assert(word_of(s0.alu_value()) == sp + 1);
    let q = s0.main_memory.second_reading@;
    assert(q.drop_last() =~= Seq::<ReadRequest>::empty());
    assert(advanced(q.drop_last()) =~= Seq::<ReadRequest>::empty());
    assert(q.last() == (p, ReadState::ReadInitialized));
    assert(advanced(q) =~= seq![(p, ReadState::ReadInProgress)]);
    assert(s1.mpc.value() =~= nat_bits(0x11, 9));
}

/// `bipush2`: PC = PC + 1; fetch (the immediate byte latches into MBR).
#[verifier::rlimit(100)]
proof fn lemma_bipush2(s1: Mic1, s2: Mic1, p: i32)
    requires
        holds_microprogram(s1),
        s1.mpc.value() == nat_bits(0x11, 9),
        s1.main_memory.second_reading@ == seq![(p, ReadState::ReadInProgress)],
        0 <= p < 512,
        s1.cycle(s2),
    ensures
        holds_microprogram(s2),
        s2.sp.value() == s1.sp.value(),
        s2.mar.value() == s1.mar.value(),
        s2.mbr.value() == word_bits(s1.main_memory.cells@[p as int] as int),
        latched_address(s2.main_memory.second_reading@) is None,
        s2.main_memory.cells@ == s1.main_memory.cells@,
        s2.mpc.value() == nat_bits(0x12, 9),
{
    lemma_two_pow_32();
    lemma_row_at(s1, 0x11);
    assert(s1.control_memory.row(0x11) == stored_row(0x11));
    let row1 = s1.row();
    assert(row1 == micro_row(MicroAsm::bipush2));
    assert(!row1[9] && !row1[10] && !row1[11]);
    assert(row1[26] && row1[31] && !row1[25] && !row1[28] && !row1[29] && !row1[30]);
    let q = s1.main_memory.second_reading@;
    assert(q.last() == (p, ReadState::ReadInProgress));
    assert(latched_address(q) == Some(p));
    assert(q.drop_last() =~= Seq::<ReadRequest>::empty());
    assert(advanced(q.drop_last()) =~= Seq::<ReadRequest>::empty());
    assert(advanced(q) =~= Seq::<ReadRequest>::empty());
    let q2 = s2.main_memory.second_reading@;
    assert(q2.len() == 1 && q2.last().1 == ReadState::ReadInitialized);
    assert(q2.drop_last() =~= Seq::<ReadRequest>::empty());
    assert(latched_address(q2.drop_last()) is None);
    assert(s2.mpc.value() =~= nat_bits(0x12, 9));
}

/// `bipush3`: MDR = TOS = MBR, sign-extended; wr.
#[verifier::rlimit(100)]
proof fn lemma_bipush3(s2: Mic1, s3: Mic1)
    requires
        holds_microprogram(s2),
        s2.mpc.value() == nat_bits(0x12, 9),
        latched_address(s2.main_memory.second_reading@) is None,
        0 <= word_of(s2.mar.value()) < 512,
        s2.cycle(s3),
    ensures
        s3.sp.value() == s2.sp.value(),
        s3.tos.value() == sign_extended(s2.mbr.value()),
        s3.main_memory.cells@ == s2.main_memory.cells@.update(
            word_of(s2.mar.value()),
            word_of(sign_extended(s2.mbr.value())) as i32,
        ),
        s3.mpc.value() == nat_bits(1, 9),
{
    lemma_two_pow_32();
    lemma_row_at(s2, 0x12);
    assert(s2.control_memory.row(0x12) == stored_row(0x12));
    let row2 = s2.row();
    assert(row2 == micro_row(MicroAsm::bipush3));
    assert(b_select(row2) == 2);
    assert(row_alu_controls(row2) == b_control());
    assert(!row2[12] && !row2[13] && !row2[9] && !row2[10] && !row2[11]);
    assert(row2[22] && row2[27] && row2[29] && !row2[25] && !row2[28] && !row2[30] && !row2[31]);
    assert(s2.latched_mbr() == s2.mbr.value());
    assert(s2.b_bus_value() =~= sign_extended(s2.mbr.value()));
    assert(s2.alu_value() =~= sign_extended(s2.mbr.value()));
    assert(s3.mpc.value() =~= nat_bits(1, 9));
}

/// BIPUSH, cycle by cycle: started at `bipush1` with the fetch of the
/// immediate byte (at address `p`) requested in the cycle before and room
/// above the top of the stack: three micro-cycles later SP is one higher,
/// TOS holds the byte sign-extended from its bit 7, the word at the new SP
/// holds it too (the stack's top cache agrees with memory), memory is
/// otherwise unchanged, and MPC is back at `Main1`.
pub proof fn lemma_bipush(s0: Mic1, s1: Mic1, s2: Mic1, s3: Mic1, p: i32)
    requires
        holds_microprogram(s0),
        s0.mpc.value() == nat_bits(0x10, 9),
        s0.main_memory.second_reading@ == seq![(p, ReadState::ReadInitialized)],
        0 <= p < 512,
        -1 <= word_of(s0.sp.value()) <= 510,
        s0.cycle(s1),
        s1.cycle(s2),
        s2.cycle(s3),
    ensures
        word_of(s3.sp.value()) == word_of(s0.sp.value()) + 1,
        s3.tos.value() == sign_extended(word_bits(s0.main_memory.cells@[p as int] as int)),
        s3.main_memory.cells@ == s0.main_memory.cells@.update(
            word_of(s3.sp.value()),
            word_of(s3.tos.value()) as i32,
        ),
        s3.tos.value() == word_bits(s3.main_memory.cells@[word_of(s3.sp.value())] as int),
        s3.mpc.value() == nat_bits(MicroAsm::Main1.spec_address() as nat, 9),
{
    lemma_bipush1(s0, s1, p);
    lemma_bipush2(s1, s2, p);
    lemma_bipush3(s2, s3);
    let t = s3.tos.value();
    lemma_two_pow_32();
    crate::word::lemma_bits_value_bound(t);
    assert((word_of(t) as i32) as int == word_of(t));
    lemma_word_round_trip(word_of(t) as i32, t);
}

/// NOP: started at `nop1`, one micro-cycle later the stack, its top cache
/// and memory are as they were, and MPC is back at `Main1`.
#[verifier::rlimit(100)]
pub proof fn lemma_nop(s0: Mic1, s1: Mic1)
    requires
        holds_microprogram(s0),
        s0.mpc.value() == nat_bits(0x00, 9),
        s0.cycle(s1),
    ensures
        s1.sp.value() == s0.sp.value(),
        s1.tos.value() == s0.tos.value(),
        s1.lv.value() == s0.lv.value(),
        s1.main_memory.cells@ == s0.main_memory.cells@,
        s1.mpc.value() == nat_bits(MicroAsm::Main1.spec_address() as nat, 9),
{
    lemma_two_pow_32();
    lemma_row_at(s0, 0x00);
    assert(s0.control_memory.row(0x00) == stored_row(0x00));
    let row0 = s0.row();
    assert(row0 == micro_row(MicroAsm::nop1));
    assert(!row0[9] && !row0[10] && !row0[11]);
    assert(!row0[22] && !row0[24] && !row0[25] && !row0[29]);
    assert(s1.mpc.value() =~= nat_bits(1, 9));
}

/// The branch target `T` (0x102) differs from `F` (0x002) in bit 8 alone.
proof fn lemma_taken_target()
    ensures
        forall|i: int| 0 <= i < 8 ==> #[trigger] nat_bits(0x102, 9)[i] == word_bits(2)[i],
        nat_bits(0x102, 9)[8],
{
    reveal_with_fuel(crate::word::two_pow, 10);
    assert(crate::word::unsigned_of(2) == 2);
    assert forall|i: int| 0 <= i < 8 implies #[trigger] nat_bits(0x102, 9)[i] == word_bits(2)[i] by {
        if i == 0 {
            assert(crate::word::two_pow(0) == 1);
            assert(nat_bits(0x102, 9)[0] == ((258nat / crate::word::two_pow(0)) % 2 == 1));
            assert(word_bits(2)[0] == ((2nat / crate::word::two_pow(0)) % 2 == 1));
            assert(258nat / 1nat == 258 && 2nat / 1nat == 2);
        } else if i == 1 {
            assert(crate::word::two_pow(1) == 2);
            assert(nat_bits(0x102, 9)[1] == ((258nat / crate::word::two_pow(1)) % 2 == 1));
            assert(word_bits(2)[1] == ((2nat / crate::word::two_pow(1)) % 2 == 1));
            assert(258nat / 2nat == 129 && 2nat / 2nat == 1);
        } else if i == 2 {
            assert(crate::word::two_pow(2) == 4);
            assert(nat_bits(0x102, 9)[2] == ((258nat / crate::word::two_pow(2)) % 2 == 1));
            assert(word_bits(2)[2] == ((2nat / crate::word::two_pow(2)) % 2 == 1));
            assert(258nat / 4nat == 64 && 2nat / 4nat == 0);
        } else if i == 3 {
            assert(crate::word::two_pow(3) == 8);
            assert(nat_bits(0x102, 9)[3] == ((258nat / crate::word::two_pow(3)) % 2 == 1));
            assert(word_bits(2)[3] == ((2nat / crate::word::two_pow(3)) % 2 == 1));
            assert(258nat / 8nat == 32 && 2nat / 8nat == 0);
        } else if i == 4 {
            assert(crate::word::two_pow(4) == 16);
            assert(nat_bits(0x102, 9)[4] == ((258nat / crate::word::two_pow(4)) % 2 == 1));
            assert(word_bits(2)[4] == ((2nat / crate::word::two_pow(4)) % 2 == 1));
            assert(258nat / 16nat == 16 && 2nat / 16nat == 0);
        } else if i == 5 {
            assert(crate::word::two_pow(5) == 32);
            assert(nat_bits(0x102, 9)[5] == ((258nat / crate::word::two_pow(5)) % 2 == 1));
            assert(word_bits(2)[5] == ((2nat / crate::word::two_pow(5)) % 2 == 1));
            assert(258nat / 32nat == 8 && 2nat / 32nat == 0);
        } else if i == 6 {
            assert(crate::word::two_pow(6) == 64);
            assert(nat_bits(0x102, 9)[6] == ((258nat / crate::word::two_pow(6)) % 2 == 1));
            assert(word_bits(2)[6] == ((2nat / crate::word::two_pow(6)) % 2 == 1));
            assert(258nat / 64nat == 4 && 2nat / 64nat == 0);
        } else {
            assert(crate::word::two_pow(7) == 128);
            assert(nat_bits(0x102, 9)[7] == ((258nat / crate::word::two_pow(7)) % 2 == 1));
            assert(word_bits(2)[7] == ((2nat / crate::word::two_pow(7)) % 2 == 1));
            assert(258nat / 128nat == 2 && 2nat / 128nat == 0);
        }
    }
    assert(crate::word::two_pow(8) == 256);
    assert(nat_bits(0x102, 9)[8] == ((258nat / crate::word::two_pow(8)) % 2 == 1));
    assert(258nat / 256nat == 1);
}

/// `iflt1`: MAR = SP = SP - 1; rd.
#[verifier::rlimit(100)]
proof fn lemma_iflt1(s0: Mic1, s1: Mic1)
    requires
        holds_microprogram(s0),
        s0.mpc.value() == nat_bits(0x9b, 9),
        s0.main_memory.first_reading@.len() == 0,
        1 <= word_of(s0.sp.value()) <= 512,
        s0.cycle(s1),
    ensures
        holds_microprogram(s1),
        word_of(s1.sp.value()) == word_of(s0.sp.value()) - 1,
        s1.tos.value() == s0.tos.value(),
        s1.main_memory.first_reading@ == seq![
            ((word_of(s0.sp.value()) - 1) as i32, ReadState::ReadInitialized),
        ],
        s1.main_memory.cells@ == s0.main_memory.cells@,
        s1.mpc.value() == nat_bits(0x9c, 9),
{
    lemma_two_pow_32();
    let sp = word_of(s0.sp.value());
    let h = s0.h.value();
    lemma_row_at(s0, 0x9b);
    assert(s0.control_memory.row(0x9b) == stored_row(0x9b));
    let row0 = s0.row();
    assert(row0 == micro_row(MicroAsm::iflt1));
    assert(b_select(row0) == 4);
    assert(row_alu_controls(row0) == b_dec_control());
    assert(!row0[12] && !row0[13] && !row0[9] && !row0[10] && !row0[11]);
    assert(row0[25] && row0[28] && row0[30] && !row0[22] && !row0[29] && !row0[31]);
    assert(s0.b_bus_value() =~= s0.sp.value());
    crate::word::lemma_bits_value_bound(s0.sp.value());
    crate::word::lemma_bits_value_bound(h);
    assert((sp as i32) as int == sp);
    assert((word_of(h) as i32) as int == word_of(h));
    lemma_word_round_trip(sp as i32, s0.sp.value());
    lemma_word_round_trip(word_of(h) as i32, h);
    lemma_alu_laws(word_of(h) as i32, sp as i32, b_dec_control());
    assert(crate::word::wrap32(sp - 1) == sp - 1);
    assert(word_of(s0.alu_value()) == sp - 1);
    assert(s1.main_memory.first_reading@ =~= seq![((sp - 1) as i32, ReadState::ReadInitialized)]);
    assert(s1.mpc.value() =~= nat_bits(0x9c, 9));
}

/// `iflt2`: OPC = TOS.
#[verifier::rlimit(100)]
proof fn lemma_iflt2(s1: Mic1, s2: Mic1, a: i32)
    requires
        holds_microprogram(s1),
        s1.mpc.value() == nat_bits(0x9c, 9),
        s1.main_memory.first_reading@ == seq![(a, ReadState::ReadInitialized)],
        s1.cycle(s2),
    ensures
        holds_microprogram(s2),
        s2.opc.value() == s1.tos.value(),
        s2.sp.value() == s1.sp.value(),
        s2.main_memory.first_reading@ == seq![(a, ReadState::ReadInProgress)],
        s2.main_memory.cells@ == s1.main_memory.cells@,
        s2.mpc.value() == nat_bits(0x9d, 9),
{
    lemma_two_pow_32();
    lemma_row_at(s1, 0x9c);
    assert(s1.control_memory.row(0x9c) == stored_row(0x9c));
    let row1 = s1.row();
    assert(row1 == micro_row(MicroAsm::iflt2));
    assert(b_select(row1) == 7);
    assert(row_alu_controls(row1) == b_control());
    assert(!row1[12] && !row1[13] && !row1[9] && !row1[10] && !row1[11]);
    assert(row1[21] && !row1[25] && !row1[29] && !row1[30] && !row1[31]);
    assert(s1.b_bus_value() =~= s1.tos.value());
    assert(s1.alu_value() =~= s1.tos.value());
    let q = s1.main_memory.first_reading@;
    assert(q.drop_last() =~= Seq::<ReadRequest>::empty());
    assert(advanced(q.drop_last()) =~= Seq::<ReadRequest>::empty());
    assert(q.last() == (a, ReadState::ReadInitialized));
    assert(advanced(q) =~= seq![(a, ReadState::ReadInProgress)]);
    assert(s2.mpc.value() =~= nat_bits(0x9d, 9));
}

/// `iflt3`: TOS = MDR.
#[verifier::rlimit(100)]
proof fn lemma_iflt3(s2: Mic1, s3: Mic1, a: i32)
    requires
        holds_microprogram(s2),
        s2.mpc.value() == nat_bits(0x9d, 9),
        s2.main_memory.first_reading@ == seq![(a, ReadState::ReadInProgress)],
        0 <= a < 512,
        s2.cycle(s3),
    ensures
        holds_microprogram(s3),
        s3.opc.value() == s2.opc.value(),
        s3.sp.value() == s2.sp.value(),
        s3.tos.value() == word_bits(s2.main_memory.cells@[a as int] as int),
        s3.main_memory.cells@ == s2.main_memory.cells@,
        s3.mpc.value() == nat_bits(0x9e, 9),
{
    lemma_two_pow_32();
    lemma_row_at(s2, 0x9d);
    assert(s2.control_memory.row(0x9d) == stored_row(0x9d));
    let row2 = s2.row();
    assert(row2 == micro_row(MicroAsm::iflt3));
    assert(b_select(row2) == 0);
    assert(row_alu_controls(row2) == b_control());
    assert(!row2[12] && !row2[13] && !row2[9] && !row2[10] && !row2[11]);
    assert(row2[22] && !row2[21] && !row2[25] && !row2[29] && !row2[30] && !row2[31]);
    let q = s2.main_memory.first_reading@;
    assert(q.last() == (a, ReadState::ReadInProgress));
    assert(latched_address(q) == Some(a));
    assert(s2.latched_mdr() == word_bits(s2.main_memory.cells@[a as int] as int));
    assert(s2.b_bus_value() =~= s2.latched_mdr());
    assert(s2.alu_value() =~= s2.latched_mdr());
    assert(s3.mpc.value() =~= nat_bits(0x9e, 9));
}

/// `iflt4`: B = OPC through the ALU; JAMN picks the next step.
#[verifier::rlimit(100)]
proof fn lemma_iflt4(s3: Mic1, s4: Mic1)
    requires
        holds_microprogram(s3),
        s3.mpc.value() == nat_bits(0x9e, 9),
        s3.cycle(s4),
    ensures
        s4.sp.value() == s3.sp.value(),
        s4.tos.value() == s3.tos.value(),
        s4.main_memory.cells@ == s3.main_memory.cells@,
        s4.mpc.value() == nat_bits(
            if word_of(s3.opc.value()) < 0 {
                MicroAsm::T.spec_address() as nat
            } else {
                MicroAsm::F.spec_address() as nat
            },
            9,
        ),
{
    lemma_two_pow_32();
    reveal_with_fuel(crate::word::two_pow, 10);
    lemma_row_at(s3, 0x9e);
    assert(s3.control_memory.row(0x9e) == stored_row(0x9e));
    let row3 = s3.row();
    assert(row3 == micro_row(MicroAsm::iflt4));
    assert(b_select(row3) == 8);
    assert(row_alu_controls(row3) == b_control());
    assert(!row3[12] && !row3[13] && !row3[9] && row3[10] && !row3[21]);
    assert(!row3[10 + 11 - 10]);
    assert(!row3[22] && !row3[25] && !row3[29] && !row3[30] && !row3[31]);
    assert(s3.b_bus_value() =~= s3.opc.value());
    assert(s3.alu_value() =~= s3.opc.value());
    crate::alu::lemma_flags(s3.opc.value());
    if word_of(s3.opc.value()) < 0 {
        lemma_taken_target();
        assert forall|i: int| 0 <= i < 9 implies #[trigger] s4.mpc.value()[i] == nat_bits(0x102, 9)[i] by {
            if i < 8 {
                assert(s4.mpc.value()[i] == row3[i]);
                assert(row3[i] == word_bits(2)[i]);
            }
        }
        assert(s4.mpc.value() =~= nat_bits(0x102, 9));
    } else {
        assert(s4.mpc.value() =~= nat_bits(0x02, 9));
    }
}

/// IFLT, cycle by cycle, up to its decision: started at `iflt1` with no
/// data read pending and a word below the top of the stack, four
/// micro-cycles later the top word is popped (SP is one lower and TOS holds
/// the word at the new SP), memory is unchanged, and MPC is at `T` (the
/// branch) exactly when the popped word is negative, at `F` (fall through) when not.
pub proof fn lemma_iflt(s0: Mic1, s1: Mic1, s2: Mic1, s3: Mic1, s4: Mic1)
    requires
        holds_microprogram(s0),
        s0.mpc.value() == nat_bits(0x9b, 9),
        s0.main_memory.first_reading@.len() == 0,
        1 <= word_of(s0.sp.value()) <= 512,
        s0.cycle(s1),
        s1.cycle(s2),
        s2.cycle(s3),
        s3.cycle(s4),
    ensures
        word_of(s4.sp.value()) == word_of(s0.sp.value()) - 1,
        s4.tos.value() == word_bits(s4.main_memory.cells@[word_of(s4.sp.value())] as int),
        s4.main_memory.cells@ == s0.main_memory.cells@,
        s4.mpc.value() == nat_bits(
            if word_of(s0.tos.value()) < 0 {
                MicroAsm::T.spec_address() as nat
            } else {
                MicroAsm::F.spec_address() as nat
            },
            9,
        ),
{
    let a = (word_of(s0.sp.value()) - 1) as i32;
    lemma_iflt1(s0, s1);
    lemma_iflt2(s1, s2, a);
    lemma_iflt3(s2, s3, a);
    lemma_iflt4(s3, s4);
}

/// `ifeq1`: MAR = SP = SP - 1; rd.
#[verifier::rlimit(100)]
proof fn lemma_ifeq1(s0: Mic1, s1: Mic1)
    requires
        holds_microprogram(s0),
        s0.mpc.value() == nat_bits(0x99, 9),
        s0.main_memory.first_reading@.len() == 0,
        1 <= word_of(s0.sp.value()) <= 512,
        s0.cycle(s1),
    ensures
        holds_microprogram(s1),
        word_of(s1.sp.value()) == word_of(s0.sp.value()) - 1,
        s1.tos.value() == s0.tos.value(),
        s1.main_memory.first_reading@ == seq![
            ((word_of(s0.sp.value()) - 1) as i32, ReadState::ReadInitialized),
        ],
        s1.main_memory.cells@ == s0.main_memory.cells@,
        s1.mpc.value() == nat_bits(0x9a, 9),
{
    lemma_two_pow_32();
    let sp = word_of(s0.sp.value());
    let h = s0.h.value();
    lemma_row_at(s0, 0x99);
    assert(s0.control_memory.row(0x99) == stored_row(0x99));
    let row0 = s0.row();
    assert(row0 == micro_row(MicroAsm::ifeq1));
    assert(b_select(row0) == 4);
    assert(row_alu_controls(row0) == b_dec_control());
    assert(!row0[12] && !row0[13] && !row0[9] && !row0[10] && !row0[11]);
    assert(row0[25] && row0[28] && row0[30] && !row0[22] && !row0[29] && !row0[31]);
    assert(s0.b_bus_value() =~= s0.sp.value());
    crate::word::lemma_bits_value_bound(s0.sp.value());
    crate::word::lemma_bits_value_bound(h);
    assert((sp as i32) as int == sp);
    assert((word_of(h) as i32) as int == word_of(h));
    lemma_word_round_trip(sp as i32, s0.sp.value());
    lemma_word_round_trip(word_of(h) as i32, h);
    lemma_alu_laws(word_of(h) as i32, sp as i32, b_dec_control());
    assert(crate::word::wrap32(sp - 1) == sp - 1);
    assert(word_of(s0.alu_value()) == sp - 1);
    assert(s1.main_memory.first_reading@ =~= seq![((sp - 1) as i32, ReadState::ReadInitialized)]);
    assert(s1.mpc.value() =~= nat_bits(0x9a, 9));
}

/// `ifeq2`: OPC = TOS.
#[verifier::rlimit(100)]
proof fn lemma_ifeq2(s1: Mic1, s2: Mic1, a: i32)
    requires
        holds_microprogram(s1),
        s1.mpc.value() == nat_bits(0x9a, 9),
        s1.main_memory.first_reading@ == seq![(a, ReadState::ReadInitialized)],
        s1.cycle(s2),
    ensures
        holds_microprogram(s2),
        s2.opc.value() == s1.tos.value(),
        s2.sp.value() == s1.sp.value(),
        s2.main_memory.first_reading@ == seq![(a, ReadState::ReadInProgress)],
        s2.main_memory.cells@ == s1.main_memory.cells@,
        s2.mpc.value() == nat_bits(0xa0, 9),
{
    lemma_two_pow_32();
    lemma_row_at(s1, 0x9a);
    assert(s1.control_memory.row(0x9a) == stored_row(0x9a));
    let row1 = s1.row();
    assert(row1 == micro_row(MicroAsm::ifeq2));
    assert(b_select(row1) == 7);
    assert(row_alu_controls(row1) == b_control());
    assert(!row1[12] && !row1[13] && !row1[9] && !row1[10] && !row1[11]);
    assert(row1[21] && !row1[25] && !row1[29] && !row1[30] && !row1[31]);
    assert(s1.b_bus_value() =~= s1.tos.value());
    assert(s1.alu_value() =~= s1.tos.value());
    let q = s1.main_memory.first_reading@;
    assert(q.drop_last() =~= Seq::<ReadRequest>::empty());
    assert(advanced(q.drop_last()) =~= Seq::<ReadRequest>::empty());
    assert(q.last() == (a, ReadState::ReadInitialized));
    assert(advanced(q) =~= seq![(a, ReadState::ReadInProgress)]);
    assert(s2.mpc.value() =~= nat_bits(0xa0, 9));
}

/// `ifeq3`: TOS = MDR.
#[verifier::rlimit(100)]
proof fn lemma_ifeq3(s2: Mic1, s3: Mic1, a: i32)
    requires
        holds_microprogram(s2),
        s2.mpc.value() == nat_bits(0xa0, 9),
        s2.main_memory.first_reading@ == seq![(a, ReadState::ReadInProgress)],
        0 <= a < 512,
        s2.cycle(s3),
    ensures
        holds_microprogram(s3),
        s3.opc.value() == s2.opc.value(),
        s3.sp.value() == s2.sp.value(),
        s3.tos.value() == word_bits(s2.main_memory.cells@[a as int] as int),
        s3.main_memory.cells@ == s2.main_memory.cells@,
        s3.mpc.value() == nat_bits(0xa2, 9),
{
    lemma_two_pow_32();
    lemma_row_at(s2, 0xa0);
    assert(s2.control_memory.row(0xa0) == stored_row(0xa0));
    let row2 = s2.row();
    assert(row2 == micro_row(MicroAsm::ifeq3));
    assert(b_select(row2) == 0);
    assert(row_alu_controls(row2) == b_control());
    assert(!row2[12] && !row2[13] && !row2[9] && !row2[10] && !row2[11]);
    assert(row2[22] && !row2[21] && !row2[25] && !row2[29] && !row2[30] && !row2[31]);
    let q = s2.main_memory.first_reading@;
    assert(q.last() == (a, ReadState::ReadInProgress));
    assert(latched_address(q) == Some(a));
    assert(s2.latched_mdr() == word_bits(s2.main_memory.cells@[a as int] as int));
    assert(s2.b_bus_value() =~= s2.latched_mdr());
    assert(s2.alu_value() =~= s2.latched_mdr());
    assert(s3.mpc.value() =~= nat_bits(0xa2, 9));
}

/// `ifeq4`: B = OPC through the ALU; JAMZ picks the next step.
#[verifier::rlimit(100)]
proof fn lemma_ifeq4(s3: Mic1, s4: Mic1)
    requires
        holds_microprogram(s3),
        s3.mpc.value() == nat_bits(0xa2, 9),
        s3.cycle(s4),
    ensures
        s4.sp.value() == s3.sp.value(),
        s4.tos.value() == s3.tos.value(),
        s4.main_memory.cells@ == s3.main_memory.cells@,
        s4.mpc.value() == nat_bits(
            if word_of(s3.opc.value()) == 0 {
                MicroAsm::T.spec_address() as nat
            } else {
                MicroAsm::F.spec_address() as nat
            },
            9,
        ),
{
    lemma_two_pow_32();
    reveal_with_fuel(crate::word::two_pow, 10);
    lemma_row_at(s3, 0xa2);
    assert(s3.control_memory.row(0xa2) == stored_row(0xa2));
    let row3 = s3.row();
    assert(row3 == micro_row(MicroAsm::ifeq4));
    assert(b_select(row3) == 8);
    assert(row_alu_controls(row3) == b_control());
    assert(!row3[12] && !row3[13] && !row3[9] && row3[11] && !row3[21]);
    assert(!row3[10 + 11 - 11]);
    assert(!row3[22] && !row3[25] && !row3[29] && !row3[30] && !row3[31]);
    assert(s3.b_bus_value() =~= s3.opc.value());
    assert(s3.alu_value() =~= s3.opc.value());
    crate::alu::lemma_flags(s3.opc.value());
    if word_of(s3.opc.value()) == 0 {
        lemma_taken_target();
        assert forall|i: int| 0 <= i < 9 implies #[trigger] s4.mpc.value()[i] == nat_bits(0x102, 9)[i] by {
            if i < 8 {
                assert(s4.mpc.value()[i] == row3[i]);
                assert(row3[i] == word_bits(2)[i]);
            }
        }
        assert(s4.mpc.value() =~= nat_bits(0x102, 9));
    } else {
        assert(s4.mpc.value() =~= nat_bits(0x02, 9));
    }
}

/// IFEQ, cycle by cycle, up to its decision: started at `ifeq1` with no
/// data read pending and a word below the top of the stack, four
/// micro-cycles later the top word is popped (SP is one lower and TOS holds
/// the word at the new SP), memory is unchanged, and MPC is at `T` (the
/// branch) exactly when the popped word is zero, at `F` (fall through) when not.
pub proof fn lemma_ifeq(s0: Mic1, s1: Mic1, s2: Mic1, s3: Mic1, s4: Mic1)
    requires
        holds_microprogram(s0),
        s0.mpc.value() == nat_bits(0x99, 9),
        s0.main_memory.first_reading@.len() == 0,
        1 <= word_of(s0.sp.value()) <= 512,
        s0.cycle(s1),
        s1.cycle(s2),
        s2.cycle(s3),
        s3.cycle(s4),
    ensures
        word_of(s4.sp.value()) == word_of(s0.sp.value()) - 1,
        s4.tos.value() == word_bits(s4.main_memory.cells@[word_of(s4.sp.value())] as int),
        s4.main_memory.cells@ == s0.main_memory.cells@,
        s4.mpc.value() == nat_bits(
            if word_of(s0.tos.value()) == 0 {
                MicroAsm::T.spec_address() as nat
            } else {
                MicroAsm::F.spec_address() as nat
            },
            9,
        ),
{
    let a = (word_of(s0.sp.value()) - 1) as i32;
    lemma_ifeq1(s0, s1);
    lemma_ifeq2(s1, s2, a);
    lemma_ifeq3(s2, s3, a);
    lemma_ifeq4(s3, s4);
}

/// `iinc1`: H = LV.
#[verifier::rlimit(100)]
proof fn lemma_iinc1(s0: Mic1, s1: Mic1, p: i32)
    requires
        holds_microprogram(s0),
        s0.mpc.value() == nat_bits(0x84, 9),
        s0.main_memory.first_reading@.len() == 0,
        s0.main_memory.second_reading@ == seq![(p, ReadState::ReadInitialized)],
        s0.cycle(s1),
    ensures
        holds_microprogram(s1),
        s1.h.value() == s0.lv.value(),
        s1.pc.value() == s0.pc.value(),
        s1.main_memory.first_reading@.len() == 0,
        s1.main_memory.second_reading@ == seq![(p, ReadState::ReadInProgress)],
        s1.main_memory.cells@ == s0.main_memory.cells@,
        s1.mpc.value() == nat_bits(0x85, 9),
{
    lemma_two_pow_32();
    lemma_row_at(s0, 0x84);
    assert(s0.control_memory.row(0x84) == stored_row(0x84));
    let row0 = s0.row();
    assert(row0 == micro_row(MicroAsm::iinc1));
    assert(b_select(row0) == 5);
    assert(row_alu_controls(row0) == b_control());
    assert(!row0[12] && !row0[13] && !row0[9] && !row0[10] && !row0[11]);
    assert(row0[20] && !row0[26] && !row0[29] && !row0[30] && !row0[31]);
    assert(s0.b_bus_value() =~= s0.lv.value());
    assert(s0.alu_value() =~= s0.lv.value());
    assert(advanced(s0.main_memory.first_reading@) =~= Seq::<ReadRequest>::empty());
    let q = s0.main_memory.second_reading@;
    assert(q.drop_last() =~= Seq::<ReadRequest>::empty());
    assert(advanced(q.drop_last()) =~= Seq::<ReadRequest>::empty());
    assert(q.last() == (p, ReadState::ReadInitialized));
    assert(advanced(q) =~= seq![(p, ReadState::ReadInProgress)]);
    assert(s1.mpc.value() =~= nat_bits(0x85, 9));
}

/// `iinc2`: MAR = MBRU + H; rd.
#[verifier::rlimit(100)]
proof fn lemma_iinc2(s1: Mic1, s2: Mic1, p: i32)
    requires
        holds_microprogram(s1),
        s1.mpc.value() == nat_bits(0x85, 9),
        s1.main_memory.first_reading@.len() == 0,
        s1.main_memory.second_reading@ == seq![(p, ReadState::ReadInProgress)],
        0 <= p < 512,
        0 <= s1.main_memory.cells@[p as int] < 256,
        0 <= word_of(s1.h.value()) + s1.main_memory.cells@[p as int] < 512,
        s1.cycle(s2),
    ensures
        holds_microprogram(s2),
        word_of(s2.mar.value()) == word_of(s1.h.value()) + s1.main_memory.cells@[p as int],
        s2.pc.value() == s1.pc.value(),
        s2.main_memory.first_reading@ == seq![
            ((word_of(s1.h.value()) + s1.main_memory.cells@[p as int]) as i32, ReadState::ReadInitialized),
        ],
        s2.main_memory.second_reading@.len() == 0,
        s2.main_memory.cells@ == s1.main_memory.cells@,
        s2.mpc.value() == nat_bits(0x86, 9),
{
    lemma_two_pow_32();
    lemma_row_at(s1, 0x85);
    assert(s1.control_memory.row(0x85) == stored_row(0x85));
    let row1 = s1.row();
    assert(row1 == micro_row(MicroAsm::iinc2));
    assert(b_select(row1) == 3);
    assert(row_alu_controls(row1) == sum_control());
    assert(!row1[12] && !row1[13] && !row1[9] && !row1[10] && !row1[11]);
    assert(row1[28] && row1[30] && !row1[26] && !row1[29] && !row1[31]);
    let q = s1.main_memory.second_reading@;
    assert(q.last() == (p, ReadState::ReadInProgress));
    assert(latched_address(q) == Some(p));
    let k = s1.main_memory.cells@[p as int];
    assert(s1.latched_mbr() == word_bits(k as int));
    lemma_byte_zero_extended(k as int);
    assert(s1.b_bus_value() =~= word_bits(k as int));
    let h = s1.h.value();
    crate::word::lemma_bits_value_bound(h);
    assert((word_of(h) as i32) as int == word_of(h));
    lemma_word_round_trip(word_of(h) as i32, h);
    lemma_alu_laws(word_of(h) as i32, k, sum_control());
    assert(crate::word::wrap32(word_of(h) + k) == word_of(h) + k);
    assert(word_of(s1.alu_value()) == word_of(h) + k);
    assert(advanced(s1.main_memory.first_reading@) =~= Seq::<ReadRequest>::empty());
    assert(s2.main_memory.first_reading@ =~= seq![
        ((word_of(h) + k) as i32, ReadState::ReadInitialized),
    ]);
    assert(q.drop_last() =~= Seq::<ReadRequest>::empty());
    assert(advanced(q.drop_last()) =~= Seq::<ReadRequest>::empty());
    assert(advanced(q) =~= Seq::<ReadRequest>::empty());
    assert(s2.mpc.value() =~= nat_bits(0x86, 9));
}

/// `iinc3`/`iinc5`: PC = PC + 1; fetch.
proof fn lemma_pc_step(s: Mic1)
    requires
        -1 <= word_of(s.pc.value()) <= 510,
        b_select(s.row()) == 1,
        row_alu_controls(s.row()) == b_inc_control(),
    ensures
        word_of(s.alu_value()) == word_of(s.pc.value()) + 1,
{
    lemma_two_pow_32();
    let pc = word_of(s.pc.value());
    let h = s.h.value();
    assert(s.b_bus_value() =~= s.pc.value());
    crate::word::lemma_bits_value_bound(s.pc.value());
    crate::word::lemma_bits_value_bound(h);
    assert((pc as i32) as int == pc);
    assert((word_of(h) as i32) as int == word_of(h));
    lemma_word_round_trip(pc as i32, s.pc.value());
    lemma_word_round_trip(word_of(h) as i32, h);
    lemma_alu_laws(word_of(h) as i32, pc as i32, b_inc_control());
    assert(crate::word::wrap32(pc + 1) == pc + 1);
}

/// `iinc3`: PC = PC + 1; fetch (the constant byte).
#[verifier::rlimit(100)]
proof fn lemma_iinc3(s2: Mic1, s3: Mic1, a: i32)
    requires
        holds_microprogram(s2),
        s2.mpc.value() == nat_bits(0x86, 9),
        s2.main_memory.first_reading@ == seq![(a, ReadState::ReadInitialized)],
        s2.main_memory.second_reading@.len() == 0,
        -1 <= word_of(s2.pc.value()) <= 510,
        s2.cycle(s3),
    ensures
        holds_microprogram(s3),
        word_of(s3.pc.value()) == word_of(s2.pc.value()) + 1,
        s3.mar.value() == s2.mar.value(),
        s3.main_memory.first_reading@ == seq![(a, ReadState::ReadInProgress)],
        s3.main_memory.second_reading@ == seq![
            ((word_of(s2.pc.value()) + 1) as i32, ReadState::ReadInitialized),
        ],
        s3.main_memory.cells@ == s2.main_memory.cells@,
        s3.mpc.value() == nat_bits(0x87, 9),
{
    lemma_two_pow_32();
    lemma_row_at(s2, 0x86);
    assert(s2.control_memory.row(0x86) == stored_row(0x86));
    let row2 = s2.row();
    assert(row2 == micro_row(MicroAsm::iinc3));
    assert(b_select(row2) == 1);
    assert(row_alu_controls(row2) == b_inc_control());
    assert(!row2[12] && !row2[13] && !row2[9] && !row2[10] && !row2[11]);
    assert(row2[26] && row2[31] && !row2[28] && !row2[29] && !row2[30]);
    lemma_pc_step(s2);
    let q = s2.main_memory.first_reading@;
    assert(q.drop_last() =~= Seq::<ReadRequest>::empty());
    assert(advanced(q.drop_last()) =~= Seq::<ReadRequest>::empty());
    assert(q.last() == (a, ReadState::ReadInitialized));
    assert(advanced(q) =~= seq![(a, ReadState::ReadInProgress)]);
    assert(advanced(s2.main_memory.second_reading@) =~= Seq::<ReadRequest>::empty());
    assert(s3.main_memory.second_reading@ =~= seq![
        ((word_of(s2.pc.value()) + 1) as i32, ReadState::ReadInitialized),
    ]);
    assert(s3.mpc.value() =~= nat_bits(0x87, 9));
}

/// `iinc4`: H = MDR (the local).
#[verifier::rlimit(100)]
proof fn lemma_iinc4(s3: Mic1, s4: Mic1, a: i32, f: i32)
    requires
        holds_microprogram(s3),
        s3.mpc.value() == nat_bits(0x87, 9),
        s3.main_memory.first_reading@ == seq![(a, ReadState::ReadInProgress)],
        s3.main_memory.second_reading@ == seq![(f, ReadState::ReadInitialized)],
        0 <= a < 512,
        s3.cycle(s4),
    ensures
        holds_microprogram(s4),
        s4.h.value() == word_bits(s3.main_memory.cells@[a as int] as int),
        s4.pc.value() == s3.pc.value(),
        s4.mar.value() == s3.mar.value(),
        s4.main_memory.first_reading@.len() == 0,
        s4.main_memory.second_reading@ == seq![(f, ReadState::ReadInProgress)],
        s4.main_memory.cells@ == s3.main_memory.cells@,
        s4.mpc.value() == nat_bits(0x88, 9),
{
    lemma_two_pow_32();
    lemma_row_at(s3, 0x87);
    assert(s3.control_memory.row(0x87) == stored_row(0x87));
    let row3 = s3.row();
    assert(row3 == micro_row(MicroAsm::iinc4));
    assert(b_select(row3) == 0);
    assert(row_alu_controls(row3) == b_control());
    assert(!row3[12] && !row3[13] && !row3[9] && !row3[10] && !row3[11]);
    assert(row3[20] && !row3[26] && !row3[28] && !row3[29] && !row3[30] && !row3[31]);
    let q = s3.main_memory.first_reading@;
    assert(q.last() == (a, ReadState::ReadInProgress));
    assert(latched_address(q) == Some(a));
    assert(s3.latched_mdr() == word_bits(s3.main_memory.cells@[a as int] as int));
    assert(s3.b_bus_value() =~= s3.latched_mdr());
    assert(s3.alu_value() =~= s3.latched_mdr());
    assert(q.drop_last() =~= Seq::<ReadRequest>::empty());
    assert(advanced(q.drop_last()) =~= Seq::<ReadRequest>::empty());
    assert(q.last() == (a, ReadState::ReadInProgress));
    assert(advanced(q) =~= Seq::<ReadRequest>::empty());
    let q2 = s3.main_memory.second_reading@;
    assert(q2.drop_last() =~= Seq::<ReadRequest>::empty());
    assert(advanced(q2.drop_last()) =~= Seq::<ReadRequest>::empty());
    assert(q2.last() == (f, ReadState::ReadInitialized));
    assert(advanced(q2) =~= seq![(f, ReadState::ReadInProgress)]);
    assert(s4.mpc.value() =~= nat_bits(0x88, 9));
}

/// `iinc5`: PC = PC + 1; fetch (the constant byte latches into MBR).
#[verifier::rlimit(100)]
proof fn lemma_iinc5(s4: Mic1, s5: Mic1, f: i32)
    requires
        holds_microprogram(s4),
        s4.mpc.value() == nat_bits(0x88, 9),
        s4.main_memory.first_reading@.len() == 0,
        s4.main_memory.second_reading@ == seq![(f, ReadState::ReadInProgress)],
        0 <= f < 512,
        -1 <= word_of(s4.pc.value()) <= 510,
        s4.cycle(s5),
    ensures
        holds_microprogram(s5),
        s5.h.value() == s4.h.value(),
        s5.mar.value() == s4.mar.value(),
        s5.mbr.value() == word_bits(s4.main_memory.cells@[f as int] as int),
        latched_address(s5.main_memory.second_reading@) is None,
        s5.main_memory.cells@ == s4.main_memory.cells@,
        s5.mpc.value() == nat_bits(0x89, 9),
{
    lemma_two_pow_32();
    lemma_row_at(s4, 0x88);
    assert(s4.control_memory.row(0x88) == stored_row(0x88));
    let row4 = s4.row();
    assert(row4 == micro_row(MicroAsm::iinc5));
    assert(b_select(row4) == 1);
    assert(row_alu_controls(row4) == b_inc_control());
    assert(!row4[9] && !row4[10] && !row4[11]);
    assert(row4[26] && row4[31] && !row4[20] && !row4[28] && !row4[29] && !row4[30]);
    let q = s4.main_memory.second_reading@;
    assert(q.last() == (f, ReadState::ReadInProgress));
    assert(latched_address(q) == Some(f));
    assert(q.drop_last() =~= Seq::<ReadRequest>::empty());
    assert(advanced(q.drop_last()) =~= Seq::<ReadRequest>::empty());
    assert(q.last() == (f, ReadState::ReadInProgress));
    assert(advanced(q) =~= Seq::<ReadRequest>::empty());
    let q2 = s5.main_memory.second_reading@;
    assert(q2.len() == 1 && q2.last().1 == ReadState::ReadInitialized);
    assert(q2.drop_last() =~= Seq::<ReadRequest>::empty());
    assert(latched_address(q2.drop_last()) is None);
    assert(s5.mpc.value() =~= nat_bits(0x89, 9));
}

/// `iinc6`: MDR = MBR + H; wr.
#[verifier::rlimit(100)]
proof fn lemma_iinc6(s5: Mic1, s6: Mic1)
    requires
        holds_microprogram(s5),
        s5.mpc.value() == nat_bits(0x89, 9),
        latched_address(s5.main_memory.second_reading@) is None,
        0 <= word_of(s5.mar.value()) < 512,
        s5.cycle(s6),
    ensures
        s6.main_memory.cells@ == s5.main_memory.cells@.update(
            word_of(s5.mar.value()),
            word_of(alu_result(s5.h.value(), sign_extended(s5.mbr.value()), sum_control())) as i32,
        ),
        s6.mpc.value() == nat_bits(1, 9),
{
    lemma_two_pow_32();
    lemma_row_at(s5, 0x89);
    assert(s5.control_memory.row(0x89) == stored_row(0x89));
    let row5 = s5.row();
    assert(row5 == micro_row(MicroAsm::iinc6));
    assert(b_select(row5) == 2);
    assert(row_alu_controls(row5) == sum_control());
    assert(!row5[12] && !row5[13] && !row5[9] && !row5[10] && !row5[11]);
    assert(row5[27] && row5[29] && !row5[28] && !row5[30] && !row5[31]);
    assert(s5.latched_mbr() == s5.mbr.value());
    assert(s5.b_bus_value() =~= sign_extended(s5.mbr.value()));
    assert(s6.mpc.value() =~= nat_bits(1, 9));
}

/// IINC, cycle by cycle: started at `iinc1` just after `Main1` moved PC to
/// the index byte and requested its fetch, with both operand bytes and the
/// local inside memory: six micro-cycles later local `LV + index` holds its
/// old value plus the constant byte sign-extended (wrapping), memory is
/// otherwise unchanged, and MPC is back at `Main1`.
pub proof fn lemma_iinc(s0: Mic1, s1: Mic1, s2: Mic1, s3: Mic1, s4: Mic1, s5: Mic1, s6: Mic1)
    requires
        holds_microprogram(s0),
        s0.mpc.value() == nat_bits(0x84, 9),
        s0.main_memory.first_reading@.len() == 0,
        0 <= word_of(s0.pc.value()) <= 509,
        s0.main_memory.second_reading@ == seq![
            (word_of(s0.pc.value()) as i32, ReadState::ReadInitialized),
        ],
        0 <= s0.main_memory.cells@[word_of(s0.pc.value())] < 256,
        0 <= word_of(s0.lv.value()) + s0.main_memory.cells@[word_of(s0.pc.value())] < 512,
        s0.cycle(s1),
        s1.cycle(s2),
        s2.cycle(s3),
        s3.cycle(s4),
        s4.cycle(s5),
        s5.cycle(s6),
    ensures
        ({
            let pc = word_of(s0.pc.value());
            let slot = word_of(s0.lv.value()) + s0.main_memory.cells@[pc];
            let constant = sign_extended(word_bits(s0.main_memory.cells@[pc + 1] as int));
            s6.main_memory.cells@ == s0.main_memory.cells@.update(
                slot,
                word_of(
                    alu_result(
                        word_bits(s0.main_memory.cells@[slot] as int),
                        constant,
                        sum_control(),
                    ),
                ) as i32,
            )
        }),
        s6.mpc.value() == nat_bits(MicroAsm::Main1.spec_address() as nat, 9),
{
    let p = word_of(s0.pc.value()) as i32;
    lemma_two_pow_32();
    crate::word::lemma_bits_value_bound(s0.pc.value());
    assert(p as int == word_of(s0.pc.value()));
    lemma_iinc1(s0, s1, p);
    lemma_iinc2(s1, s2, p);
    let a = (word_of(s0.lv.value()) + s0.main_memory.cells@[p as int]) as i32;
    lemma_iinc3(s2, s3, a);
    let f = (p + 1) as i32;
    lemma_iinc4(s3, s4, a, f);
    lemma_iinc5(s4, s5, f);
    lemma_iinc6(s5, s6);
}

/// A wrapped difference of two words is zero exactly when they are equal.
proof fn lemma_wrap_difference_zero(x: int, y: int)
    requires
        i32::MIN <= x <= i32::MAX,
        i32::MIN <= y <= i32::MAX,
    ensures
        (crate::word::wrap32(x - y) == 0) == (x == y),
{
    let d = x - y;
    let v = d % 0x1_0000_0000;
    if d >= 0 {
        assert(v == d);
    } else {
        assert(v == d + 0x1_0000_0000);
    }
}

/// `if_icmpeq1`: MAR = SP = SP - 1; rd.
#[verifier::rlimit(100)]
proof fn lemma_icmp1(s0: Mic1, s1: Mic1)
    requires
        holds_microprogram(s0),
        s0.mpc.value() == nat_bits(0x9f, 9),
        s0.main_memory.first_reading@.len() == 0,
        2 <= word_of(s0.sp.value()) <= 512,
        s0.cycle(s1),
    ensures
        holds_microprogram(s1),
        word_of(s1.sp.value()) == word_of(s0.sp.value()) - 1,
        s1.tos.value() == s0.tos.value(),
        s1.main_memory.first_reading@ == seq![
            ((word_of(s0.sp.value()) - 1) as i32, ReadState::ReadInitialized),
        ],
        s1.main_memory.cells@ == s0.main_memory.cells@,
        s1.mpc.value() == nat_bits(0xad, 9),
{
    lemma_two_pow_32();
    let sp = word_of(s0.sp.value());
    let h = s0.h.value();
    lemma_row_at(s0, 0x9f);
    assert(s0.control_memory.row(0x9f) == stored_row(0x9f));
    let row0 = s0.row();
    assert(row0 == micro_row(MicroAsm::if_icmpeq1));
    assert(b_select(row0) == 4);
    assert(row_alu_controls(row0) == b_dec_control());
    assert(!row0[12] && !row0[13] && !row0[9] && !row0[10] && !row0[11]);
    assert(row0[25] && row0[28] && row0[30] && !row0[22] && !row0[29] && !row0[31]);
    assert(s0.b_bus_value() =~= s0.sp.value());
    crate::word::lemma_bits_value_bound(s0.sp.value());
    crate::word::lemma_bits_value_bound(h);
    assert((sp as i32) as int == sp);
    assert((word_of(h) as i32) as int == word_of(h));
    lemma_word_round_trip(sp as i32, s0.sp.value());
    lemma_word_round_trip(word_of(h) as i32, h);
    lemma_alu_laws(word_of(h) as i32, sp as i32, b_dec_control());
    assert(crate::word::wrap32(sp - 1) == sp - 1);
    assert(word_of(s0.alu_value()) == sp - 1);
    assert(s1.main_memory.first_reading@ =~= seq![((sp - 1) as i32, ReadState::ReadInitialized)]);
    assert(s1.mpc.value() =~= nat_bits(0xad, 9));
}

/// `if_icmpeq2`: MAR = SP = SP - 1.
#[verifier::rlimit(100)]
proof fn lemma_icmp2(s1: Mic1, s2: Mic1, a: i32)
    requires
        holds_microprogram(s1),
        s1.mpc.value() == nat_bits(0xad, 9),
        s1.main_memory.first_reading@ == seq![(a, ReadState::ReadInitialized)],
        1 <= word_of(s1.sp.value()) <= 512,
        s1.cycle(s2),
    ensures
        holds_microprogram(s2),
        word_of(s2.sp.value()) == word_of(s1.sp.value()) - 1,
        s2.mar.value() == s2.sp.value(),
        s2.tos.value() == s1.tos.value(),
        s2.main_memory.first_reading@ == seq![(a, ReadState::ReadInProgress)],
        s2.main_memory.cells@ == s1.main_memory.cells@,
        s2.mpc.value() == nat_bits(0xaf, 9),
{
    lemma_two_pow_32();
    let sp = word_of(s1.sp.value());
    let h = s1.h.value();
    lemma_row_at(s1, 0xad);
    assert(s1.control_memory.row(0xad) == stored_row(0xad));
    let row1 = s1.row();
    assert(row1 == micro_row(MicroAsm::if_icmpeq2));
    assert(b_select(row1) == 4);
    assert(row_alu_controls(row1) == b_dec_control());
    assert(!row1[12] && !row1[13] && !row1[9] && !row1[10] && !row1[11]);
    assert(row1[25] && row1[28] && !row1[22] && !row1[29] && !row1[30] && !row1[31]);
    assert(s1.b_bus_value() =~= s1.sp.value());
    crate::word::lemma_bits_value_bound(s1.sp.value());
    crate::word::lemma_bits_value_bound(h);
    assert((sp as i32) as int == sp);
    assert((word_of(h) as i32) as int == word_of(h));
    lemma_word_round_trip(sp as i32, s1.sp.value());
    lemma_word_round_trip(word_of(h) as i32, h);
    lemma_alu_laws(word_of(h) as i32, sp as i32, b_dec_control());
    assert(crate::word::wrap32(sp - 1) == sp - 1);
    assert(word_of(s1.alu_value()) == sp - 1);
    let q = s1.main_memory.first_reading@;
    assert(q.drop_last() =~= Seq::<ReadRequest>::empty());
    assert(advanced(q.drop_last()) =~= Seq::<ReadRequest>::empty());
    assert(q.last() == (a, ReadState::ReadInitialized));
    assert(advanced(q) =~= seq![(a, ReadState::ReadInProgress)]);
    assert(s2.mpc.value() =~= nat_bits(0xaf, 9));
}

/// `if_icmpeq3`: H = MDR (the lower word); rd (the word below it).
#[verifier::rlimit(100)]
proof fn lemma_icmp3(s2: Mic1, s3: Mic1, a: i32)
    requires
        holds_microprogram(s2),
        s2.mpc.value() == nat_bits(0xaf, 9),
        s2.main_memory.first_reading@ == seq![(a, ReadState::ReadInProgress)],
        0 <= a < 512,
        s2.cycle(s3),
    ensures
        holds_microprogram(s3),
        s3.h.value() == word_bits(s2.main_memory.cells@[a as int] as int),
        s3.sp.value() == s2.sp.value(),
        s3.tos.value() == s2.tos.value(),
        s3.main_memory.first_reading@ == seq![
            (word_of(s2.mar.value()) as i32, ReadState::ReadInitialized),
        ],
        s3.main_memory.cells@ == s2.main_memory.cells@,
        s3.mpc.value() == nat_bits(0xb1, 9),
{
    lemma_two_pow_32();
    lemma_row_at(s2, 0xaf);
    assert(s2.control_memory.row(0xaf) == stored_row(0xaf));
    let row2 = s2.row();
    assert(row2 == micro_row(MicroAsm::if_icmpeq3));
    assert(b_select(row2) == 0);
    assert(row_alu_controls(row2) == b_control());
    assert(!row2[12] && !row2[13] && !row2[9] && !row2[10] && !row2[11]);
    assert(row2[20] && row2[30] && !row2[22] && !row2[25] && !row2[28] && !row2[29] && !row2[31]);
    let q = s2.main_memory.first_reading@;
    assert(q.last() == (a, ReadState::ReadInProgress));
    assert(latched_address(q) == Some(a));
    assert(s2.latched_mdr() == word_bits(s2.main_memory.cells@[a as int] as int));
    assert(s2.b_bus_value() =~= s2.latched_mdr());
    assert(s2.alu_value() =~= s2.latched_mdr());
    assert(q.drop_last() =~= Seq::<ReadRequest>::empty());
    assert(advanced(q.drop_last()) =~= Seq::<ReadRequest>::empty());
    assert(q.last() == (a, ReadState::ReadInProgress));
    assert(advanced(q) =~= Seq::<ReadRequest>::empty());
    assert(s3.main_memory.first_reading@ =~= seq![
        (word_of(s2.mar.value()) as i32, ReadState::ReadInitialized),
    ]);
    assert(s3.mpc.value() =~= nat_bits(0xb1, 9));
}

/// `if_icmpeq4`: OPC = TOS.
#[verifier::rlimit(100)]
proof fn lemma_icmp4(s3: Mic1, s4: Mic1, a: i32)
    requires
        holds_microprogram(s3),
        s3.mpc.value() == nat_bits(0xb1, 9),
        s3.main_memory.first_reading@ == seq![(a, ReadState::ReadInitialized)],
        s3.cycle(s4),
    ensures
        holds_microprogram(s4),
        s4.opc.value() == s3.tos.value(),
        s4.h.value() == s3.h.value(),
        s4.sp.value() == s3.sp.value(),
        s4.main_memory.first_reading@ == seq![(a, ReadState::ReadInProgress)],
        s4.main_memory.cells@ == s3.main_memory.cells@,
        s4.mpc.value() == nat_bits(0xb3, 9),
{
    lemma_two_pow_32();
    lemma_row_at(s3, 0xb1);
    assert(s3.control_memory.row(0xb1) == stored_row(0xb1));
    let row3 = s3.row();
    assert(row3 == micro_row(MicroAsm::if_icmpeq4));
    assert(b_select(row3) == 7);
    assert(row_alu_controls(row3) == b_control());
    assert(!row3[12] && !row3[13] && !row3[9] && !row3[10] && !row3[11]);
    assert(row3[21] && !row3[20] && !row3[25] && !row3[29] && !row3[30] && !row3[31]);
    assert(s3.b_bus_value() =~= s3.tos.value());
    assert(s3.alu_value() =~= s3.tos.value());
    let q = s3.main_memory.first_reading@;
    assert(q.drop_last() =~= Seq::<ReadRequest>::empty());
    assert(advanced(q.drop_last()) =~= Seq::<ReadRequest>::empty());
    assert(q.last() == (a, ReadState::ReadInitialized));
    assert(advanced(q) =~= seq![(a, ReadState::ReadInProgress)]);
    assert(s4.mpc.value() =~= nat_bits(0xb3, 9));
}

/// `if_icmpeq5`: TOS = MDR (the new top).
#[verifier::rlimit(100)]
proof fn lemma_icmp5(s4: Mic1, s5: Mic1, a: i32)
    requires
        holds_microprogram(s4),
        s4.mpc.value() == nat_bits(0xb3, 9),
        s4.main_memory.first_reading@ == seq![(a, ReadState::ReadInProgress)],
        0 <= a < 512,
        s4.cycle(s5),
    ensures
        holds_microprogram(s5),
        s5.tos.value() == word_bits(s4.main_memory.cells@[a as int] as int),
        s5.opc.value() == s4.opc.value(),
        s5.h.value() == s4.h.value(),
        s5.sp.value() == s4.sp.value(),
        s5.main_memory.cells@ == s4.main_memory.cells@,
        s5.mpc.value() == nat_bits(0xb5, 9),
{
    lemma_two_pow_32();
    lemma_row_at(s4, 0xb3);
    assert(s4.control_memory.row(0xb3) == stored_row(0xb3));
    let row4 = s4.row();
    assert(row4 == micro_row(MicroAsm::if_icmpeq5));
    assert(b_select(row4) == 0);
    assert(row_alu_controls(row4) == b_control());
    assert(!row4[12] && !row4[13] && !row4[9] && !row4[10] && !row4[11]);
    assert(row4[22] && !row4[20] && !row4[21] && !row4[25] && !row4[29] && !row4[30] && !row4[31]);
    let q = s4.main_memory.first_reading@;
    assert(q.last() == (a, ReadState::ReadInProgress));
    assert(latched_address(q) == Some(a));
    assert(s4.latched_mdr() == word_bits(s4.main_memory.cells@[a as int] as int));
    assert(s4.b_bus_value() =~= s4.latched_mdr());
    assert(s4.alu_value() =~= s4.latched_mdr());
    assert(s5.mpc.value() =~= nat_bits(0xb5, 9));
}

/// `if_icmpeq6`: OPC - H through the ALU; JAMZ picks the next step.
#[verifier::rlimit(100)]
proof fn lemma_icmp6(s5: Mic1, s6: Mic1)
    requires
        holds_microprogram(s5),
        s5.mpc.value() == nat_bits(0xb5, 9),
        s5.cycle(s6),
    ensures
        s6.sp.value() == s5.sp.value(),
        s6.tos.value() == s5.tos.value(),
        s6.main_memory.cells@ == s5.main_memory.cells@,
        s6.mpc.value() == nat_bits(
            if word_of(s5.h.value()) == word_of(s5.opc.value()) {
                MicroAsm::T.spec_address() as nat
            } else {
                MicroAsm::F.spec_address() as nat
            },
            9,
        ),
{
    lemma_two_pow_32();
    lemma_row_at(s5, 0xb5);
    assert(s5.control_memory.row(0xb5) == stored_row(0xb5));
    let row5 = s5.row();
    assert(row5 == micro_row(MicroAsm::if_icmpeq6));
    assert(b_select(row5) == 8);
    assert(row_alu_controls(row5) == sub_control());
    assert(!row5[12] && !row5[13] && !row5[9] && !row5[10] && row5[11]);
    assert(!row5[22] && !row5[25] && !row5[29] && !row5[30] && !row5[31]);
    assert(s5.b_bus_value() =~= s5.opc.value());
    let h = s5.h.value();
    let o = s5.opc.value();
    crate::word::lemma_bits_value_bound(h);
    crate::word::lemma_bits_value_bound(o);
    assert((word_of(h) as i32) as int == word_of(h));
    assert((word_of(o) as i32) as int == word_of(o));
    lemma_word_round_trip(word_of(h) as i32, h);
    lemma_word_round_trip(word_of(o) as i32, o);
    lemma_alu_laws(word_of(h) as i32, word_of(o) as i32, sub_control());
    assert(word_of(s5.alu_value()) == crate::word::wrap32(word_of(o) - word_of(h)));
    lemma_wrap_difference_zero(word_of(o), word_of(h));
    if word_of(h) == word_of(o) {
        lemma_taken_target();
        assert forall|i: int| 0 <= i < 9 implies #[trigger] s6.mpc.value()[i] == nat_bits(0x102, 9)[i] by {
            if i < 8 {
                assert(s6.mpc.value()[i] == row5[i]);
                assert(row5[i] == word_bits(2)[i]);
            }
        }
        assert(s6.mpc.value() =~= nat_bits(0x102, 9));
    } else {
        assert(s6.mpc.value() =~= nat_bits(0x02, 9));
    }
}

/// IF_ICMPEQ, cycle by cycle, up to its decision: started at `if_icmpeq1`
/// with no data read pending and two words on the stack inside memory, six
/// micro-cycles later both are popped (SP is two lower and TOS holds the word
/// at the new SP), memory is unchanged, and MPC is at `T` (the branch)
/// exactly when the two popped words are equal, at `F` when not.
pub proof fn lemma_if_icmpeq(s0: Mic1, s1: Mic1, s2: Mic1, s3: Mic1, s4: Mic1, s5: Mic1, s6: Mic1)
    requires
        holds_microprogram(s0),
        s0.mpc.value() == nat_bits(0x9f, 9),
        s0.main_memory.first_reading@.len() == 0,
        2 <= word_of(s0.sp.value()) <= 512,
        s0.cycle(s1),
        s1.cycle(s2),
        s2.cycle(s3),
        s3.cycle(s4),
        s4.cycle(s5),
        s5.cycle(s6),
    ensures
        word_of(s6.sp.value()) == word_of(s0.sp.value()) - 2,
        s6.tos.value() == word_bits(s6.main_memory.cells@[word_of(s6.sp.value())] as int),
        s6.main_memory.cells@ == s0.main_memory.cells@,
        s6.mpc.value() == nat_bits(
            if s0.main_memory.cells@[word_of(s0.sp.value()) - 1] == word_of(s0.tos.value()) {
                MicroAsm::T.spec_address() as nat
            } else {
                MicroAsm::F.spec_address() as nat
            },
            9,
        ),
{
    let a = (word_of(s0.sp.value()) - 1) as i32;
    let a2 = (word_of(s0.sp.value()) - 2) as i32;
    lemma_icmp1(s0, s1);
    lemma_icmp2(s1, s2, a);
    lemma_icmp3(s2, s3, a);
    lemma_icmp4(s3, s4, a2);
    lemma_icmp5(s4, s5, a2);
    lemma_icmp6(s5, s6);
    let m = s0.main_memory.cells@[a as int];
    lemma_word_round_trip(m, word_bits(m as int));
}

} // verus!
