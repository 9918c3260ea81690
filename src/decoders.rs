//! One-hot decoders.
use crate::word::{bit_value, bits_value};
use vstd::prelude::*;

verus! {

/// A one-hot vector of length `n` with line `k` set.
pub open spec fn one_hot(n: nat, k: int) -> Seq<bool> {
    Seq::new(n, |i: int| i == k)
}

/// The index that a 2-to-4 decoder selects: `f0 | (f1 << 1)`.
pub open spec fn index2(f0: bool, f1: bool) -> int {
    (bit_value(f0) + 2 * bit_value(f1)) as int
}

pub fn decoder_2x4(f0: bool, f1: bool) -> (r: [bool; 4])
    ensures
        r@ == one_hot(4, index2(f0, f1)),
{
    let r = [!f0 && !f1, f0 && !f1, !f0 && f1, f0 && f1];
    assert(r@ =~= one_hot(4, index2(f0, f1)));
    r
}

/// The index that a 4-to-16 decoder selects.
pub open spec fn index4(f0: bool, f1: bool, f2: bool, f3: bool) -> int {
    index2(f0, f1) + 4 * index2(f2, f3)
}

/// Line `i * 4 + k` is enabled by `f2, f3` selecting `i` and `f0, f1` selecting `k`.
pub fn decoder_4x16(f0: bool, f1: bool, f2: bool, f3: bool) -> (r: [bool; 16])
    ensures
        r@ == one_hot(16, index4(f0, f1, f2, f3)),
{
    let mut res = [false; 16];
    let en = decoder_2x4(f2, f3);
    let s = decoder_2x4(f0, f1);
    let mut m: usize = 0;
    while m < 16
        invariant
            m <= 16,
            en@ == one_hot(4, index2(f2, f3)),
            s@ == one_hot(4, index2(f0, f1)),
            forall|j: int| 0 <= j < m ==> res@[j] == (j == index4(f0, f1, f2, f3)),
        decreases 16 - m,
    {
        res[m] = en[m / 4] && s[m % 4];
        m += 1;
    }
    assert(res@ =~= one_hot(16, index4(f0, f1, f2, f3)));
    res
}

/// The B-bus selector: a 4-bit code to one of nine lines (codes 9..15 select none).
pub fn decoder_4x9(input: [bool; 4]) -> (r: [bool; 9])
    ensures
        r@ == one_hot(9, index4(input@[0], input@[1], input@[2], input@[3])),
{
    let mut dest = [false; 9];
    let res = decoder_4x16(input[0], input[1], input[2], input[3]);
    let mut i: usize = 0;
    while i < 9
        invariant
            i <= 9,
            res@ == one_hot(16, index4(input@[0], input@[1], input@[2], input@[3])),
            forall|j: int| 0 <= j < i ==> dest@[j] == res@[j],
        decreases 9 - i,
    {
        dest[i] = res[i];
        i += 1;
    }
    assert(dest@ =~= one_hot(9, index4(input@[0], input@[1], input@[2], input@[3])));
    dest
}

/// The micro-address decoder: line `i` is set exactly when the nine input bits
/// encode `i`.
pub fn decoder_9x512(input: [bool; 9]) -> (r: [bool; 512])
    ensures
        r@ == one_hot(512, bits_value(input@) as int),
{
    let mut res = [false; 512];
    let first_part = decoder_4x16(input[0], input[1], input[2], input[3]);
    let second_part = decoder_4x16(input[4], input[5], input[6], input[7]);
    let ghost lo = index4(input@[0], input@[1], input@[2], input@[3]);
    let ghost mid = index4(input@[4], input@[5], input@[6], input@[7]);
    let ghost idx = lo + 16 * mid + 256 * bit_value(input@[8]);
    let mut m: usize = 0;
    while m < 512
        invariant
            m <= 512,
            first_part@ == one_hot(16, lo),
            second_part@ == one_hot(16, mid),
            idx == lo + 16 * mid + 256 * bit_value(input@[8]),
            0 <= lo < 16,
            0 <= mid < 16,
            forall|j: int| 0 <= j < m ==> res@[j] == (j == idx),
        decreases 512 - m,
    {
        let gate = if m < 256 {
            !input[8]
        } else {
            input[8]
        };
        res[m] = first_part[m % 16] && second_part[(m / 16) % 16] && gate;
        m += 1;
    }
    proof {
        reveal_with_fuel(bits_value, 10);
        assert(bits_value(input@) == idx);
    }
    assert(res@ =~= one_hot(512, bits_value(input@) as int));
    res
}

/// Exactly one line of the micro-address decoder is set.
pub proof fn lemma_decoder_one_hot(input: Seq<bool>)
    requires
        input.len() == 9,
    ensures
        bits_value(input) < 512,
        one_hot(512, bits_value(input) as int)[bits_value(input) as int],
        forall|j: int|
            0 <= j < 512 && #[trigger] one_hot(512, bits_value(input) as int)[j] ==> j
                == bits_value(input),
{
    reveal_with_fuel(bits_value, 10);
}

} // verus!
