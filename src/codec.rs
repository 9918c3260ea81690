//! Conversion between a signed 32-bit word and its 32 bits.
use crate::word::{lemma_two_pow_32, lemma_two_pow_mono, lemma_two_pow_pos, two_pow, bits_value, unsigned_of, word_bits, word_of};
use vstd::arithmetic::div_mod::lemma_div_denominator;
use vstd::prelude::*;

verus! {

/// The 32 bits of `number`, least significant first.
pub fn fast_decode(number: i32) -> (r: [bool; 32])
    ensures
        r@ == word_bits(number as int),
{
    proof {
        lemma_two_pow_32();
    }
    let ghost n = unsigned_of(number as int);
    let mut u: u32 = if number < 0 {
        (number as i64 + 0x1_0000_0000i64) as u32
    } else {
        number as u32
    };
    assert(two_pow(0) == 1 && n / 1 == n);
    let mut res = [false; 32];
    let mut i: usize = 0;
    while i < 32
        invariant
            i <= 32,
            n < 0x1_0000_0000,
            u as nat == n / two_pow(i as nat),
            forall|j: int| 0 <= j < i ==> res@[j] == ((n / two_pow(j as nat)) % 2 == 1),
        decreases 32 - i,
    {
        res[i] = u % 2 == 1;
        proof {
            lemma_two_pow_pos(i as nat);
            lemma_div_denominator(n as int, two_pow(i as nat) as int, 2);
            assert(two_pow((i + 1) as nat) == two_pow(i as nat) * 2);
        }
        u = u / 2;
        i += 1;
    }
    assert(res@ =~= word_bits(number as int));
    res
}

/// The signed word that `data` holds, least significant bit first.
pub fn fast_encode(data: &[bool; 32]) -> (r: i32)
    ensures
        r == word_of(data@),
{
    proof {
        lemma_two_pow_32();
    }
    let mut res: u64 = 0;
    let mut i: usize = 32;
    assert(two_pow(0) == 1);
    while i > 0
        invariant
            i <= 32,
            res as nat == bits_value(data@.subrange(i as int, 32)),
            res < two_pow((32 - i) as nat),
        decreases i,
    {
        let ghost tail = data@.subrange(i as int, 32);
        let ghost next = data@.subrange(i - 1, 32);
        assert(next.drop_first() =~= tail);
        assert(next[0] == data@[i - 1]);
        proof {
            lemma_two_pow_32();
            assert(two_pow((32 - i + 1) as nat) == 2 * two_pow((32 - i) as nat));
            assert(two_pow((32 - i) as nat) <= two_pow(31)) by {
                lemma_two_pow_mono((32 - i) as nat, 31);
            }
            assert(res < 0x8000_0000);
        }
        res = 2 * res + if data[i - 1] {
            1
        } else {
            0
        };
        i -= 1;
    }
    assert(data@.subrange(0, 32) =~= data@);
    if res >= 0x8000_0000 {
        (res as i64 - 0x1_0000_0000i64) as i32
    } else {
        res as i32
    }
}

} // verus!
