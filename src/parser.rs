//! Byte-code listings: opcode mnemonics and hexadecimal words separated by
//! spaces and newlines.
use crate::ijvm::IjvmCommand;
use crate::text::{all_digits, digits_value, split, split_tokens, views};
use vstd::prelude::*;
use vstd::string::StringSliceAdditionalSpecFns;

verus! {

/// `t` with every leading `0x` removed.
pub open spec fn strip_hex_prefix(t: Seq<u8>) -> Seq<u8>
    decreases t.len(),
{
    if t.len() >= 2 && t[0] == 48 && t[1] == 120 {
        strip_hex_prefix(t.subrange(2, t.len() as int))
    } else {
        t
    }
}

/// `t` is some opcode's mnemonic.
pub open spec fn is_mnemonic(t: Seq<u8>) -> bool {
    exists|c: IjvmCommand| #[trigger] c.mnemonic() == t
}

/// `t` is a word of a listing: a mnemonic, or hexadecimal digits after any
/// `0x` prefixes, at most `i32::MAX`.
pub open spec fn is_listing_word(t: Seq<u8>) -> bool {
    is_mnemonic(t) || (strip_hex_prefix(t).len() > 0 && all_digits(strip_hex_prefix(t), 16)
        && digits_value(strip_hex_prefix(t), 16) <= i32::MAX)
}

/// `w` is what the listing word `t` stands for.
pub open spec fn listing_value(t: Seq<u8>, w: i32) -> bool {
    if is_mnemonic(t) {
        exists|c: IjvmCommand| #[trigger] c.mnemonic() == t && w == c.spec_opcode()
    } else {
        w == digits_value(strip_hex_prefix(t), 16)
    }
}

fn strip_prefix(t: &Vec<u8>) -> (r: Vec<u8>)
    ensures
        r@ == strip_hex_prefix(t@),
{
    let mut start: usize = 0;
    assert(t@.subrange(0, t@.len() as int) =~= t@);
    while t.len() - start >= 2 && t[start] == 48 && t[start + 1] == 120
        invariant
            start <= t@.len(),
            strip_hex_prefix(t@) == strip_hex_prefix(t@.subrange(start as int, t@.len() as int)),
        decreases t@.len() - start,
    {
        proof {
            let rest = t@.subrange(start as int, t@.len() as int);
            assert(rest.subrange(2, rest.len() as int) =~= t@.subrange(start + 2, t@.len() as int));
        }
        start += 2;
    }
    let mut r: Vec<u8> = Vec::new();
    let mut i: usize = start;
    while i < t.len()
        invariant
            start <= i <= t@.len(),
            r@ == t@.subrange(start as int, i as int),
        decreases t@.len() - i,
    {
        r.push(t[i]);
        assert(r@ =~= t@.subrange(start as int, i + 1));
        i += 1;
    }
    r
}

/// The words of a listing; `None` when some word is neither a mnemonic nor a
/// hexadecimal number.
pub fn parse(program: &str) -> (r: Option<Vec<i32>>)
    ensures
        ({
            let tokens = split_tokens(program.spec_bytes(), true);
            &&& r is Some <==> forall|i: int| 0 <= i < tokens.len() ==> is_listing_word(#[trigger] tokens[i])
            &&& r matches Some(v) ==> v@.len() == tokens.len() && forall|i: int|
                0 <= i < tokens.len() ==> listing_value(#[trigger] tokens[i], v@[i])
        }),
{
    let bytes = program.as_bytes();
    let tokens = split(bytes, true);
    let ghost toks = views(tokens@);
    assert(toks == split_tokens(program.spec_bytes(), true));
    let mut res: Vec<i32> = Vec::new();
    let mut i: usize = 0;
    while i < tokens.len()
        invariant
            i <= tokens@.len(),
            toks == views(tokens@),
            toks == split_tokens(program.spec_bytes(), true),
            toks.len() == tokens@.len(),
            res@.len() == i,
            forall|j: int| 0 <= j < i ==> is_listing_word(#[trigger] toks[j]),
            forall|j: int| 0 <= j < i ==> listing_value(#[trigger] toks[j], res@[j]),
        decreases tokens@.len() - i,
    {
        let ghost old_res = res@;
        let command = &tokens[i];
        assert(toks[i as int] == command@);
        match IjvmCommand::parse_bytes(command.as_slice()) {
            Some(t) => {
                assert(is_mnemonic(toks[i as int]));
                res.push(t.opcode());
                assert(listing_value(toks[i as int], res@[i as int]));
            },
            None => {
                let digits = strip_prefix(command);
                match crate::text::parse_radix(digits.as_slice(), 16) {
                    Some(v) => {
                        assert(!is_mnemonic(toks[i as int]));
                        res.push(v);
                        assert(listing_value(toks[i as int], res@[i as int]));
                    },
                    None => {
                        assert(!is_listing_word(toks[i as int]));
                        return None;
                    },
                }
            },
        }
        assert(forall|j: int| 0 <= j < i ==> res@[j] == old_res[j]);
        i += 1;
    }
    assert(toks == split_tokens(program.spec_bytes(), true));
    Some(res)
}

} // verus!
