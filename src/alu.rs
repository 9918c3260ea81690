//! The bit-sliced 32-bit ALU.
use crate::bus::Bus32;
use crate::codec::{fast_decode, fast_encode};
use crate::decoders::decoder_2x4;
use crate::word::{
    bit_value, bits_value, lemma_bits_of_value, lemma_bits_value_bit, lemma_bits_value_bound,
    lemma_bits_value_push, lemma_nat_bits_value, lemma_two_pow_32, lemma_two_pow_pos,
    lemma_word_round_trip, nat_bits, signed_of, two_pow, unsigned_of, word_bits, word_of, wrap32,
};
use vstd::prelude::*;

verus! {

/// The six ALU control lines.
#[derive(Clone, Copy, Debug, PartialEq, Eq, Structural)]
pub struct AluControl {
    pub f0: bool,
    pub f1: bool,
    pub en_a: bool,
    pub en_b: bool,
    pub inv_a: bool,
    pub inc: bool,
}

/// The controls with the given lines set.
pub open spec fn controls(f0: bool, f1: bool, en_a: bool, en_b: bool, inv_a: bool, inc: bool) -> AluControl {
    AluControl { f0, f1, en_a, en_b, inv_a, inc }
}

/// `B - 1`
pub open spec fn b_dec_control() -> AluControl {
    controls(true, true, false, true, true, false)
}

/// `B + 1`
pub open spec fn b_inc_control() -> AluControl {
    controls(true, true, false, true, false, true)
}

/// `A + B`
pub open spec fn sum_control() -> AluControl {
    controls(true, true, true, true, false, false)
}

/// `A + B + 1`
pub open spec fn sum_inc_control() -> AluControl {
    controls(true, true, true, true, false, true)
}

/// `B - A`
pub open spec fn sub_control() -> AluControl {
    controls(true, true, true, true, true, true)
}

/// `A AND B`
pub open spec fn and_control() -> AluControl {
    controls(false, false, true, true, false, false)
}

/// `A OR B`
pub open spec fn or_control() -> AluControl {
    controls(false, true, true, true, false, false)
}

/// `B`
pub open spec fn b_control() -> AluControl {
    controls(false, true, false, true, false, false)
}

/// `A`
pub open spec fn a_control() -> AluControl {
    controls(false, true, true, false, false, false)
}

impl AluControl {
    /// Controls from the six MIR lines `F0, F1, ENA, ENB, INVA, INC`.
    pub fn from(code: [bool; 6]) -> (r: AluControl)
        ensures
            r == controls(code@[0], code@[1], code@[2], code@[3], code@[4], code@[5]),
    {
        AluControl {
            f0: code[0],
            f1: code[1],
            en_a: code[2],
            en_b: code[3],
            inv_a: code[4],
            inc: code[5],
        }
    }

    pub fn alu_b_dec() -> (r: AluControl)
        ensures
            r == b_dec_control(),
    {
        AluControl { f0: true, f1: true, en_a: false, en_b: true, inv_a: true, inc: false }
    }

    pub fn alu_b_inc() -> (r: AluControl)
        ensures
            r == b_inc_control(),
    {
        AluControl { f0: true, f1: true, en_a: false, en_b: true, inv_a: false, inc: true }
    }

    pub fn alu_sum() -> (r: AluControl)
        ensures
            r == sum_control(),
    {
        AluControl { f0: true, f1: true, en_a: true, en_b: true, inv_a: false, inc: false }
    }

    pub fn alu_sum_inc() -> (r: AluControl)
        ensures
            r == sum_inc_control(),
    {
        AluControl { f0: true, f1: true, en_a: true, en_b: true, inv_a: false, inc: true }
    }

    pub fn alu_sub() -> (r: AluControl)
        ensures
            r == sub_control(),
    {
        AluControl { f0: true, f1: true, en_a: true, en_b: true, inv_a: true, inc: true }
    }

    pub fn alu_and() -> (r: AluControl)
        ensures
            r == and_control(),
    {
        AluControl { f0: false, f1: false, en_a: true, en_b: true, inv_a: false, inc: false }
    }

    pub fn alu_or() -> (r: AluControl)
        ensures
            r == or_control(),
    {
        AluControl { f0: false, f1: true, en_a: true, en_b: true, inv_a: false, inc: false }
    }

    pub fn alu_b() -> (r: AluControl)
        ensures
            r == b_control(),
    {
        AluControl { f0: false, f1: true, en_a: false, en_b: true, inv_a: false, inc: false }
    }

    pub fn alu_a() -> (r: AluControl)
        ensures
            r == a_control(),
    {
        AluControl { f0: false, f1: true, en_a: true, en_b: false, inv_a: false, inc: false }
    }
}

/// Line of the A operand after enabling and inversion.
pub open spec fn a_line(a: bool, c: AluControl) -> bool {
    (a && c.en_a) != c.inv_a
}

/// Line of the B operand after enabling.
pub open spec fn b_line(b: bool, c: AluControl) -> bool {
    b && c.en_b
}

pub open spec fn a_operand(a: Seq<bool>, c: AluControl) -> Seq<bool> {
    Seq::new(32, |i: int| a_line(a[i], c))
}

pub open spec fn b_operand(b: Seq<bool>, c: AluControl) -> Seq<bool> {
    Seq::new(32, |i: int| b_line(b[i], c))
}

/// Function select `(F0, F1) = (1, 1)`: the adder.
pub open spec fn is_sum(c: AluControl) -> bool {
    c.f0 && c.f1
}

/// The logic functions: `(0,0)` AND, `(0,1)` OR, `(1,0)` NOT B (as `(F0, F1)`).
pub open spec fn logic_line(x: bool, y: bool, c: AluControl) -> bool {
    if !c.f0 && !c.f1 {
        x && y
    } else if !c.f0 && c.f1 {
        x || y
    } else {
        !y
    }
}

/// What the adder computes: `A' + B' + INC` modulo `2^32`.
pub open spec fn sum_value(a: Seq<bool>, b: Seq<bool>, c: AluControl) -> nat {
    (bits_value(a_operand(a, c)) + bits_value(b_operand(b, c)) + bit_value(c.inc)) % two_pow(32)
}

/// The ALU's 32 result lines.
pub open spec fn alu_result(a: Seq<bool>, b: Seq<bool>, c: AluControl) -> Seq<bool> {
    if is_sum(c) {
        nat_bits(sum_value(a, b, c), 32)
    } else {
        Seq::new(32, |i: int| logic_line(a_line(a[i], c), b_line(b[i], c), c))
    }
}

/// Z: every line low.
pub open spec fn all_low(s: Seq<bool>) -> bool {
    forall|i: int| 0 <= i < 32 ==> !s[i]
}

fn adder(a: bool, b: bool, carry_in: bool) -> (r: (bool, bool))
    ensures
        bit_value(r.0) + 2 * bit_value(r.1) == bit_value(a) + bit_value(b) + bit_value(carry_in),
{
    let (sum1, carry1) = half_adder(a, b);
    let (sum, carry2) = half_adder(sum1, carry_in);
    let carry_out = carry1 || carry2;
    (sum, carry_out)
}

fn half_adder(a: bool, b: bool) -> (r: (bool, bool))
    ensures
        r == (a != b, a && b),
{
    (a != b, a && b)
}

/// One slice of the ALU: result line and carry out.
fn alu_unit(
    a: bool,
    b: bool,
    inv_a: bool,
    en_a: bool,
    en_b: bool,
    carry_in: bool,
    f0: bool,
    f1: bool,
) -> (r: (bool, bool))
    ensures
        ({
            let c = controls(f0, f1, en_a, en_b, inv_a, false);
            let x = a_line(a, c);
            let y = b_line(b, c);
            if is_sum(c) {
                bit_value(r.0) + 2 * bit_value(r.1) == bit_value(x) + bit_value(y) + bit_value(
                    carry_in,
                )
            } else {
                r.0 == logic_line(x, y, c) && !r.1
            }
        }),
{
    let a_enabled = a && en_a;
    let b_signal = b && en_b;
    let a_signal = a_enabled != inv_a;

    // f1 and f0 in this order: the Mic-1 numbers the functions this way
    let allowed = decoder_2x4(f1, f0);

    let a_and_b_res = (a_signal && b_signal) && allowed[0];
    let a_or_b_res = (a_signal || b_signal) && allowed[1];
    let not_b_res = !b_signal && allowed[2];

    let (a_plus_b_res_temp, carry_temp) = adder(a_signal, b_signal, carry_in);
    let a_plus_b_res = a_plus_b_res_temp && allowed[3];
    let carry_out = carry_temp && allowed[3];

    let res = a_and_b_res || a_or_b_res || not_b_res || a_plus_b_res;

    (res, carry_out)
}

/// The ALU: result lines, N (line 31) and Z (every line low).
pub fn alu_32(a: Bus32, b: Bus32, control: AluControl) -> (r: (Bus32, bool, bool))
    ensures
        r.0.data@ == alu_result(a.data@, b.data@, control),
        r.1 == r.0.data@[31],
        r.2 == all_low(r.0.data@),
{
    let ghost av = a_operand(a.data@, control);
    let ghost bv = b_operand(b.data@, control);
    let mut result = [false; 32];

    let mut carry = control.inc;
    let mut i: usize = 0;
    assert(result@.subrange(0, 0) =~= Seq::<bool>::empty());
    assert(av.subrange(0, 0) =~= Seq::<bool>::empty());
    assert(bv.subrange(0, 0) =~= Seq::<bool>::empty());
    assert(two_pow(0) == 1);
    while i < 32
        invariant
            i <= 32,
            av == a_operand(a.data@, control),
            bv == b_operand(b.data@, control),
            !is_sum(control) ==> forall|j: int|
                0 <= j < i ==> result@[j] == logic_line(av[j], bv[j], control),
            is_sum(control) ==> bits_value(result@.subrange(0, i as int)) + bit_value(carry)
                * two_pow(i as nat) == bits_value(av.subrange(0, i as int)) + bits_value(
                bv.subrange(0, i as int),
            ) + bit_value(control.inc),
        decreases 32 - i,
    {
        let ghost prev = result@;
        let ghost c_in = carry;
        let (res, alu_carry) = alu_unit(
            a.data[i],
            b.data[i],
            control.inv_a,
            control.en_a,
            control.en_b,
            carry,
            control.f0,
            control.f1,
        );
        result[i] = res;
        carry = alu_carry;
        proof {
            if is_sum(control) {
                let k = i as int;
                assert(result@.subrange(0, k + 1) =~= prev.subrange(0, k).push(res));
                assert(av.subrange(0, k + 1) =~= av.subrange(0, k).push(av[k]));
                assert(bv.subrange(0, k + 1) =~= bv.subrange(0, k).push(bv[k]));
                lemma_bits_value_push(prev.subrange(0, k), res);
                lemma_bits_value_push(av.subrange(0, k), av[k]);
                lemma_bits_value_push(bv.subrange(0, k), bv[k]);
                let p = two_pow(i as nat);
                assert(two_pow((i + 1) as nat) == 2 * p);
                assert(bit_value(res) + 2 * bit_value(carry) == bit_value(av[k]) + bit_value(bv[k])
                    + bit_value(c_in));
                assert(bit_value(res) * p + bit_value(carry) * (2 * p) == bit_value(av[k]) * p
                    + bit_value(bv[k]) * p + bit_value(c_in) * p) by (nonlinear_arith)
                    requires
                        bit_value(res) + 2 * bit_value(carry) == bit_value(av[k]) + bit_value(
                            bv[k],
                        ) + bit_value(c_in),
                ;
            }
        }
        i += 1;
    }

    let n_bit = result[31];
    let mut any = false;
    let mut j: usize = 0;
    while j < 32
        invariant
            j <= 32,
            any == exists|k: int| 0 <= k < j && result@[k],
        decreases 32 - j,
    {
        any = any || result[j];
        j += 1;
    }
    let z_bit = !any;

    proof {
        if is_sum(control) {
            lemma_two_pow_32();
            assert(result@.subrange(0, 32) =~= result@);
            assert(av.subrange(0, 32) =~= av);
            assert(bv.subrange(0, 32) =~= bv);
            lemma_bits_value_bound(result@);
            let total = bits_value(av) + bits_value(bv) + bit_value(control.inc);
            let vr = bits_value(result@);
            assert(total % 0x1_0000_0000 == vr) by (nonlinear_arith)
                requires
                    total == vr + bit_value(carry) * 0x1_0000_0000,
                    vr < 0x1_0000_0000,
                    bit_value(carry) == 0 || bit_value(carry) == 1,
            ;
            lemma_bits_of_value(result@);
        }
        assert(result@ =~= alu_result(a.data@, b.data@, control));
    }
    (Bus32::from(result), n_bit, z_bit)
}

/// The ALU on signed words.
pub fn alu_32_i(a: i32, b: i32, control: AluControl) -> (r: (i32, bool, bool))
    ensures
        r.0 == word_of(alu_result(word_bits(a as int), word_bits(b as int), control)),
        r.1 == alu_result(word_bits(a as int), word_bits(b as int), control)[31],
        r.2 == all_low(alu_result(word_bits(a as int), word_bits(b as int), control)),
{
    let a_bus = Bus32::from(fast_decode(a));
    let b_bus = Bus32::from(fast_decode(b));

    let (alu_res, n, z) = alu_32(a_bus, b_bus, control);
    (fast_encode(&alu_res.data), n, z)
}

} // verus!

verus! {

/// Every line inverted.
pub open spec fn inverted(s: Seq<bool>) -> Seq<bool> {
    Seq::new(s.len(), |i: int| !s[i])
}

proof fn lemma_inverted_value(s: Seq<bool>)
    ensures
        bits_value(s) + bits_value(inverted(s)) + 1 == two_pow(s.len()),
    decreases s.len(),
{
    if s.len() > 0 {
        assert(inverted(s).drop_first() =~= inverted(s.drop_first()));
        lemma_inverted_value(s.drop_first());
        assert(two_pow(s.len()) == 2 * two_pow((s.len() - 1) as nat));
    } else {
        assert(two_pow(0) == 1);
    }
}

proof fn lemma_word_value(x: i32)
    ensures
        bits_value(word_bits(x as int)) == unsigned_of(x as int),
        word_bits(x as int).len() == 32,
{
    lemma_two_pow_32();
    lemma_nat_bits_value(unsigned_of(x as int), 32);
}

/// The value of the low 32 bits of `v` read as a signed word.
proof fn lemma_word_of_nat_bits(v: nat)
    requires
        v < 0x1_0000_0000,
    ensures
        word_of(nat_bits(v, 32)) == signed_of(v),
{
    lemma_two_pow_32();
    lemma_nat_bits_value(v, 32);
}

/// N is the sign of the result, Z tells that it is zero.
pub proof fn lemma_flags(s: Seq<bool>)
    requires
        s.len() == 32,
    ensures
        s[31] == (word_of(s) < 0),
        all_low(s) == (word_of(s) == 0),
{
    lemma_two_pow_32();
    lemma_bits_value_bound(s);
    lemma_bits_value_bit(s, 31);
    let v = bits_value(s);
    assert((v / 0x8000_0000 == 0 || v / 0x8000_0000 == 1) && ((v / 0x8000_0000 == 1) == (v
        >= 0x8000_0000))) by (nonlinear_arith)
        requires
            v < 0x1_0000_0000,
    ;
    if all_low(s) {
        assert forall|i: int| 0 <= i < 32 implies #[trigger] nat_bits(0, 32)[i] == s[i] by {
            lemma_two_pow_pos(i as nat);
        }
        assert(nat_bits(0, 32) =~= s);
        lemma_nat_bits_value(0, 32);
    }
    if v == 0 {
        assert forall|i: int| 0 <= i < 32 implies !s[i] by {
            lemma_bits_value_bit(s, i);
            lemma_two_pow_pos(i as nat);
        }
    }
}

proof fn lemma_zeros_value()
    ensures
        bits_value(Seq::new(32, |i: int| false)) == 0,
{
    let zeros = Seq::new(32, |i: int| false);
    lemma_two_pow_32();
    lemma_nat_bits_value(0, 32);
    assert forall|i: int| 0 <= i < 32 implies #[trigger] nat_bits(0, 32)[i] == zeros[i] by {
        lemma_two_pow_pos(i as nat);
    }
    assert(nat_bits(0, 32) =~= zeros);
}

/// The adder's result when the operands and carry add up to `z` plus `k` times `2^32`.
proof fn lemma_sum_word(a: Seq<bool>, b: Seq<bool>, c: AluControl, z: int, k: int)
    requires
        is_sum(c),
        bits_value(a_operand(a, c)) + bits_value(b_operand(b, c)) + bit_value(c.inc) == z + k
            * 0x1_0000_0000,
    ensures
        word_of(alu_result(a, b, c)) == wrap32(z),
{
    lemma_two_pow_32();
    let t = bits_value(a_operand(a, c)) + bits_value(b_operand(b, c)) + bit_value(c.inc);
    lemma_word_of_nat_bits(t % 0x1_0000_0000);
    assert(t % 0x1_0000_0000 == z % 0x1_0000_0000) by (nonlinear_arith)
        requires
            t == z + k * 0x1_0000_0000,
    ;
}

spec fn neg(x: i32) -> int {
    if x < 0 {
        1
    } else {
        0
    }
}

proof fn lemma_law_sums(a: i32, b: i32)
    ensures
        word_of(alu_result(word_bits(a as int), word_bits(b as int), sum_control())) == wrap32(
            a + b,
        ),
        word_of(alu_result(word_bits(a as int), word_bits(b as int), sum_inc_control()))
            == wrap32(a + b + 1),
{
    let wa = word_bits(a as int);
    let wb = word_bits(b as int);
    lemma_word_value(a);
    lemma_word_value(b);
    assert(a_operand(wa, sum_control()) =~= wa);
    assert(b_operand(wb, sum_control()) =~= wb);
    lemma_sum_word(wa, wb, sum_control(), a + b, neg(a) + neg(b));
    assert(a_operand(wa, sum_inc_control()) =~= wa);
    assert(b_operand(wb, sum_inc_control()) =~= wb);
    lemma_sum_word(wa, wb, sum_inc_control(), a + b + 1, neg(a) + neg(b));
}

proof fn lemma_law_differences(a: i32, b: i32)
    ensures
        word_of(alu_result(word_bits(a as int), word_bits(b as int), sub_control())) == wrap32(
            b - a,
        ),
        word_of(alu_result(word_bits(a as int), word_bits(b as int), b_inc_control())) == wrap32(
            b + 1,
        ),
        word_of(alu_result(word_bits(a as int), word_bits(b as int), b_dec_control())) == wrap32(
            b - 1,
        ),
{
    let wa = word_bits(a as int);
    let wb = word_bits(b as int);
    let zeros = Seq::new(32, |i: int| false);
    lemma_two_pow_32();
    lemma_word_value(a);
    lemma_word_value(b);
    lemma_zeros_value();
    lemma_inverted_value(wa);
    lemma_inverted_value(zeros);
    assert(a_operand(wa, sub_control()) =~= inverted(wa));
    assert(b_operand(wb, sub_control()) =~= wb);
    lemma_sum_word(wa, wb, sub_control(), b - a, 1 - neg(a) + neg(b));
    assert(a_operand(wa, b_inc_control()) =~= zeros);
    assert(b_operand(wb, b_inc_control()) =~= wb);
    lemma_sum_word(wa, wb, b_inc_control(), b + 1, neg(b));
    assert(a_operand(wa, b_dec_control()) =~= inverted(zeros));
    assert(b_operand(wb, b_dec_control()) =~= wb);
    lemma_sum_word(wa, wb, b_dec_control(), b - 1, 1 + neg(b));
}

/// The named ALU modes on signed words: sums and differences wrap modulo
/// `2^32`; A and B pass an operand through; AND and OR act line by line; and
/// for every control, N is the sign of the result and Z tells that it is zero.
pub proof fn lemma_alu_laws(a: i32, b: i32, c: AluControl)
    ensures
        word_of(alu_result(word_bits(a as int), word_bits(b as int), sum_control())) == wrap32(
            a + b,
        ),
        word_of(alu_result(word_bits(a as int), word_bits(b as int), sum_inc_control()))
            == wrap32(a + b + 1),
        word_of(alu_result(word_bits(a as int), word_bits(b as int), sub_control())) == wrap32(
            b - a,
        ),
        word_of(alu_result(word_bits(a as int), word_bits(b as int), b_inc_control())) == wrap32(
            b + 1,
        ),
        word_of(alu_result(word_bits(a as int), word_bits(b as int), b_dec_control())) == wrap32(
            b - 1,
        ),
        word_of(alu_result(word_bits(a as int), word_bits(b as int), a_control())) == a,
        word_of(alu_result(word_bits(a as int), word_bits(b as int), b_control())) == b,
        alu_result(word_bits(a as int), word_bits(b as int), and_control()) == Seq::new(
            32,
            |i: int| word_bits(a as int)[i] && word_bits(b as int)[i],
        ),
        alu_result(word_bits(a as int), word_bits(b as int), or_control()) == Seq::new(
            32,
            |i: int| word_bits(a as int)[i] || word_bits(b as int)[i],
        ),
        alu_result(word_bits(a as int), word_bits(b as int), c)[31] == (word_of(
            alu_result(word_bits(a as int), word_bits(b as int), c),
        ) < 0),
        all_low(alu_result(word_bits(a as int), word_bits(b as int), c)) == (word_of(
            alu_result(word_bits(a as int), word_bits(b as int), c),
        ) == 0),
{
    let wa = word_bits(a as int);
    let wb = word_bits(b as int);
    lemma_law_sums(a, b);
    lemma_law_differences(a, b);
    assert(alu_result(wa, wb, a_control()) =~= wa);
    assert(alu_result(wa, wb, b_control()) =~= wb);
    lemma_word_round_trip(a, wa);
    lemma_word_round_trip(b, wb);
    assert(alu_result(wa, wb, and_control()) =~= Seq::new(32, |i: int| wa[i] && wb[i]));
    assert(alu_result(wa, wb, or_control()) =~= Seq::new(32, |i: int| wa[i] || wb[i]));
    if is_sum(c) {
        lemma_two_pow_32();
        lemma_nat_bits_value(sum_value(wa, wb, c), 32);
    }
    lemma_flags(alu_result(wa, wb, c));
}

} // verus!
