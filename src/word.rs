//! The mathematical model of a machine word: a little-endian sequence of bits,
//! its unsigned value, and its two's-complement value.
use vstd::arithmetic::div_mod::{lemma_div_denominator, lemma_mod_breakdown};
use vstd::prelude::*;

verus! {

/// Two to the power `n`.
pub open spec fn two_pow(n: nat) -> nat
    decreases n,
{
    if n == 0 {
        1
    } else {
        2 * two_pow((n - 1) as nat)
    }
}

/// 0 or 1.
pub open spec fn bit_value(b: bool) -> nat {
    if b {
        1
    } else {
        0
    }
}

/// Unsigned value of a bit sequence, least significant bit first.
pub open spec fn bits_value(s: Seq<bool>) -> nat
    decreases s.len(),
{
    if s.len() == 0 {
        0
    } else {
        bit_value(s[0]) + 2 * bits_value(s.drop_first())
    }
}

/// The low `k` bits of `n`, least significant first.
pub open spec fn nat_bits(n: nat, k: nat) -> Seq<bool> {
    Seq::new(k, |i: int| (n / two_pow(i as nat)) % 2 == 1)
}

/// The 32-bit unsigned pattern of a signed word.
pub open spec fn unsigned_of(x: int) -> nat {
    if x < 0 {
        (x + 0x1_0000_0000) as nat
    } else {
        x as nat
    }
}

/// The signed value of a 32-bit unsigned pattern.
pub open spec fn signed_of(v: nat) -> int {
    if v >= 0x8000_0000 {
        v - 0x1_0000_0000
    } else {
        v as int
    }
}

/// The 32 bits of a signed word.
pub open spec fn word_bits(x: int) -> Seq<bool> {
    nat_bits(unsigned_of(x), 32)
}

/// The signed word that 32 bits hold.
pub open spec fn word_of(s: Seq<bool>) -> int {
    signed_of(bits_value(s))
}

/// A 32-bit integer wrapped to the range of `i32`.
pub open spec fn wrap32(x: int) -> int {
    signed_of((x % 0x1_0000_0000) as nat)
}

pub proof fn lemma_two_pow_32()
    ensures
        two_pow(32) == 0x1_0000_0000,
        two_pow(31) == 0x8000_0000,
        two_pow(8) == 256,
        two_pow(9) == 512,
{
    reveal_with_fuel(two_pow, 33);
}

pub proof fn lemma_two_pow_pos(n: nat)
    ensures
        two_pow(n) > 0,
    decreases n,
{
    if n > 0 {
        lemma_two_pow_pos((n - 1) as nat);
    }
}

pub proof fn lemma_two_pow_mono(a: nat, b: nat)
    requires
        a <= b,
    ensures
        two_pow(a) <= two_pow(b),
    decreases b,
{
    if a < b {
        lemma_two_pow_mono(a, (b - 1) as nat);
    }
}

pub proof fn lemma_bits_value_bound(s: Seq<bool>)
    ensures
        bits_value(s) < two_pow(s.len()),
    decreases s.len(),
{
    if s.len() > 0 {
        lemma_bits_value_bound(s.drop_first());
    }
}

/// Appending a most significant bit adds its weight.
pub proof fn lemma_bits_value_push(s: Seq<bool>, b: bool)
    ensures
        bits_value(s.push(b)) == bits_value(s) + bit_value(b) * two_pow(s.len()),
    decreases s.len(),
{
    if s.len() == 0 {
        assert(s.push(b).drop_first() =~= Seq::<bool>::empty());
        assert(two_pow(0) == 1);
        assert(s.push(b)[0] == b);
        assert(bits_value(s.push(b)) == bit_value(b) + 2 * bits_value(s.push(b).drop_first()));
    } else {
        assert(s.push(b).drop_first() =~= s.drop_first().push(b));
        lemma_bits_value_push(s.drop_first(), b);
        assert(s.push(b)[0] == s[0]);
        assert(bits_value(s.push(b)) == bit_value(s[0]) + 2 * bits_value(s.push(b).drop_first()));
        assert(two_pow(s.len()) == 2 * two_pow((s.len() - 1) as nat));
        assert(bit_value(b) * two_pow(s.len()) == 2 * (bit_value(b) * two_pow(
            (s.len() - 1) as nat,
        ))) by (nonlinear_arith)
            requires
                two_pow(s.len()) == 2 * two_pow((s.len() - 1) as nat),
        ;
    }
}

/// The value of the low `k` bits of `n` is `n` modulo `2^k`.
pub proof fn lemma_nat_bits_value(n: nat, k: nat)
    ensures
        bits_value(nat_bits(n, k)) == n % two_pow(k),
    decreases k,
{
    if k == 0 {
        assert(nat_bits(n, k).len() == 0);
        assert(two_pow(0) == 1);
    } else {
        let s = nat_bits(n, k);
        let k1 = (k - 1) as nat;
        lemma_two_pow_pos(k1);
        assert forall|i: int| 0 <= i < k1 implies #[trigger] s.drop_first()[i] == nat_bits(
            n / 2,
            k1,
        )[i] by {
            lemma_two_pow_pos(i as nat);
            lemma_div_denominator(n as int, 2, two_pow(i as nat) as int);
        }
        assert(s.drop_first() =~= nat_bits(n / 2, k1));
        lemma_nat_bits_value(n / 2, k1);
        assert(two_pow(0) == 1);
        assert(s[0] == ((n / two_pow(0nat)) % 2 == 1));
        assert(n / 1 == n);
        assert(s[0] == (n % 2 == 1));
        assert(bit_value(s[0]) == n % 2);
        lemma_mod_breakdown(n as int, 2, two_pow(k1) as int);
        assert(two_pow(k) == 2 * two_pow(k1));
        assert(bits_value(s) == bit_value(s[0]) + 2 * bits_value(s.drop_first()));
    }
}

/// Bit `i` of a sequence is recovered from its value.
pub proof fn lemma_bits_value_bit(s: Seq<bool>, i: int)
    requires
        0 <= i < s.len(),
    ensures
        s[i] == ((bits_value(s) / two_pow(i as nat)) % 2 == 1),
    decreases i,
{
    let r = bits_value(s.drop_first());
    let b = bit_value(s[0]);
    assert(bits_value(s) == b + 2 * r);
    assert((b + 2 * r) / 2 == r && (b + 2 * r) % 2 == b) by (nonlinear_arith)
        requires
            b == 0 || b == 1,
    ;
    if i > 0 {
        lemma_bits_value_bit(s.drop_first(), i - 1);
        lemma_two_pow_pos((i - 1) as nat);
        lemma_div_denominator(bits_value(s) as int, 2, two_pow((i - 1) as nat) as int);
        assert(two_pow(i as nat) == 2 * two_pow((i - 1) as nat));
        assert(bits_value(s) / two_pow(i as nat) == r / two_pow((i - 1) as nat));
        assert(s.drop_first()[i - 1] == s[i]);
    } else {
        assert(two_pow(0) == 1);
        assert(bits_value(s) / 1 == bits_value(s));
    }
}

/// A bit sequence is determined by its length and value.
pub proof fn lemma_bits_of_value(s: Seq<bool>)
    ensures
        nat_bits(bits_value(s), s.len()) == s,
{
    assert forall|i: int| 0 <= i < s.len() implies #[trigger] nat_bits(bits_value(s), s.len())[i]
        == s[i] by {
        lemma_bits_value_bit(s, i);
    }
    assert(nat_bits(bits_value(s), s.len()) =~= s);
}

/// Word round trip: the bits of a word hold that word, and a 32-bit
/// sequence is the bits of the word it holds.
pub proof fn lemma_word_round_trip(x: i32, v: Seq<bool>)
    requires
        v.len() == 32,
    ensures
        word_of(word_bits(x as int)) == x,
        word_bits(word_of(v)) == v,
{
    lemma_two_pow_32();
    lemma_nat_bits_value(unsigned_of(x as int), 32);
    lemma_bits_value_bound(v);
    lemma_bits_of_value(v);
}

} // verus!
