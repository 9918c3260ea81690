//! Source text as bytes: splitting into tokens, and reading numbers.
use vstd::prelude::*;

verus! {

/// The finished tokens of `s`, and the token still open at its end.
pub open spec fn scan(s: Seq<u8>, listing: bool) -> (Seq<Seq<u8>>, Seq<u8>)
    decreases s.len(),
{
    if s.len() == 0 {
        (Seq::empty(), Seq::empty())
    } else {
        let (done, open) = scan(s.drop_last(), listing);
        if separates(listing, s.last()) {
            if open.len() > 0 {
                (done.push(open), Seq::empty())
            } else {
                (done, open)
            }
        } else if is_punct(listing, s.last()) {
            if open.len() > 0 {
                (done.push(open).push(seq![s.last()]), Seq::empty())
            } else {
                (done.push(seq![s.last()]), Seq::empty())
            }
        } else {
            (done, open.push(s.last()))
        }
    }
}

/// The maximal runs of bytes of `s` that are neither separators nor
/// punctuation, and each punctuation byte on its own, in order.
pub open spec fn split_tokens(s: Seq<u8>, listing: bool) -> Seq<Seq<u8>> {
    let (done, open) = scan(s, listing);
    if open.len() > 0 {
        done.push(open)
    } else {
        done
    }
}

/// The byte strings that a vector of byte vectors holds.
pub open spec fn views(v: Seq<Vec<u8>>) -> Seq<Seq<u8>> {
    Seq::new(v.len(), |i: int| v[i]@)
}

/// Space or newline: what separates the words of a byte-code listing.
pub open spec fn is_listing_sep(c: u8) -> bool {
    c == 32 || c == 10
}

/// Space, tab, newline or carriage return.
pub open spec fn is_blank(c: u8) -> bool {
    c == 32 || c == 9 || c == 10 || c == 13
}

/// The separators of a listing, or of assembly source.
pub open spec fn separates(listing: bool, c: u8) -> bool {
    if listing {
        is_listing_sep(c)
    } else {
        is_blank(c)
    }
}

/// In assembly source, `(`, `)` and `,` stand alone as tokens.
pub open spec fn is_punct(listing: bool, c: u8) -> bool {
    !listing && (c == 40 || c == 41 || c == 44)
}

fn punct(listing: bool, c: u8) -> (r: bool)
    ensures
        r == is_punct(listing, c),
{
    !listing && (c == 40 || c == 41 || c == 44)
}

fn listing_sep(c: u8) -> (r: bool)
    ensures
        r == is_listing_sep(c),
{
    c == 32 || c == 10
}

fn blank(c: u8) -> (r: bool)
    ensures
        r == is_blank(c),
{
    c == 32 || c == 9 || c == 10 || c == 13
}

/// The tokens of `s`: separated by spaces and newlines when `listing`; by
/// any blank otherwise, with `(`, `)` and `,` as tokens of their own.
pub fn split(s: &[u8], listing: bool) -> (r: Vec<Vec<u8>>)
    ensures
        views(r@) == split_tokens(s@, listing),
{
    let mut done: Vec<Vec<u8>> = Vec::new();
    let mut open: Vec<u8> = Vec::new();
    let mut i: usize = 0;
    assert(s@.subrange(0, 0) =~= Seq::<u8>::empty());
    assert(views(done@) =~= Seq::<Seq<u8>>::empty());
    while i < s.len()
        invariant
            i <= s@.len(),
            (views(done@), open@) == scan(s@.subrange(0, i as int), listing),
        decreases s@.len() - i,
    {
        let c = s[i];
        assert(s@.subrange(0, i + 1).drop_last() =~= s@.subrange(0, i as int));
        let sep = if listing {
            listing_sep(c)
        } else {
            blank(c)
        };
        assert(s@.subrange(0, i + 1).last() == c);
        assert(separates(listing, c) == sep);
        let ghost prev = scan(s@.subrange(0, i as int), listing);
        if sep {
            if open.len() > 0 {
                let ghost before = views(done@);
                done.push(open);
                assert(views(done@) =~= before.push(open@));
                open = Vec::new();
            }
        } else if punct(listing, c) {
            let ghost before = views(done@);
            if open.len() > 0 {
                done.push(open);
            }
            let mut single: Vec<u8> = Vec::new();
            single.push(c);
            assert(single@ =~= seq![c]);
            done.push(single);
            proof {
                if prev.1.len() > 0 {
                    assert(views(done@) =~= before.push(prev.1).push(seq![c]));
                } else {
                    assert(views(done@) =~= before.push(seq![c]));
                }
            }
            open = Vec::new();
        } else {
            open.push(c);
        }
        assert(scan(s@.subrange(0, i + 1), listing) == if sep {
            if prev.1.len() > 0 {
                (prev.0.push(prev.1), Seq::empty())
            } else {
                prev
            }
        } else if is_punct(listing, c) {
            if prev.1.len() > 0 {
                (prev.0.push(prev.1).push(seq![c]), Seq::<u8>::empty())
            } else {
                (prev.0.push(seq![c]), Seq::<u8>::empty())
            }
        } else {
            (prev.0, prev.1.push(c))
        });
        i += 1;
    }
    assert(s@.subrange(0, s@.len() as int) =~= s@);
    if open.len() > 0 {
        let ghost before = views(done@);
        done.push(open);
        assert(views(done@) =~= before.push(open@));
    }
    done
}

/// The value of an ASCII digit (0-9, a-f, A-F); 16 for any other byte.
pub open spec fn digit_value(c: u8) -> int {
    if 48 <= c <= 57 {
        c - 48
    } else if 97 <= c <= 102 {
        c - 87
    } else if 65 <= c <= 70 {
        c - 55
    } else {
        16
    }
}

/// The number that the digits of `s` write in base `radix`.
pub open spec fn digits_value(s: Seq<u8>, radix: int) -> int
    decreases s.len(),
{
    if s.len() == 0 {
        0
    } else {
        digits_value(s.drop_last(), radix) * radix + digit_value(s.last())
    }
}

/// Every byte of `s` is a digit of base `radix`.
pub open spec fn all_digits(s: Seq<u8>, radix: int) -> bool {
    forall|i: int| 0 <= i < s.len() ==> #[trigger] digit_value(s[i]) < radix
}

fn digit(c: u8) -> (r: u32)
    ensures
        r == digit_value(c),
{
    if 48 <= c && c <= 57 {
        (c - 48) as u32
    } else if 97 <= c && c <= 102 {
        (c - 87) as u32
    } else if 65 <= c && c <= 70 {
        (c - 55) as u32
    } else {
        16
    }
}

proof fn lemma_digits_value_monotone(s: Seq<u8>, i: int, radix: int)
    requires
        0 <= i <= s.len(),
        1 <= radix,
        all_digits(s, radix),
    ensures
        0 <= digits_value(s.subrange(0, i), radix) <= digits_value(s, radix),
    decreases s.len(),
{
    if s.len() > 0 {
        let t = s.drop_last();
        assert(all_digits(t, radix));
        if i < s.len() {
            assert(t.subrange(0, i) =~= s.subrange(0, i));
            lemma_digits_value_monotone(t, i, radix);
        } else {
            assert(s.subrange(0, i) =~= s);
            lemma_digits_value_monotone(t, i - 1, radix);
        }
        lemma_digits_value_monotone(t, t.len() as int, radix);
        assert(t.subrange(0, t.len() as int) =~= t);
        let v = digits_value(t, radix);
        let d = digit_value(s.last());
        assert(d >= 0);
        assert(v * radix + d >= v) by (nonlinear_arith)
            requires
                v >= 0,
                radix >= 1,
                d >= 0,
        ;
    } else {
        assert(s.subrange(0, i) =~= s);
    }
}

/// A digit string has a non-negative value.
pub proof fn lemma_digits_value_nonneg(s: Seq<u8>, radix: int)
    requires
        radix >= 1,
    ensures
        digits_value(s, radix) >= 0,
    decreases s.len(),
{
    if s.len() > 0 {
        lemma_digits_value_nonneg(s.drop_last(), radix);
        let v = digits_value(s.drop_last(), radix);
        assert(v * radix >= 0) by (nonlinear_arith)
            requires
                v >= 0,
                radix >= 1,
        ;
        assert(digit_value(s.last()) >= 0);
    }
}

/// The digits of `s` read in base `radix`: `None` when `s` is empty, holds a
/// byte that is no such digit, or writes a number above `i32::MAX`.
pub fn parse_radix(s: &[u8], radix: u32) -> (r: Option<i32>)
    requires
        2 <= radix <= 16,
    ensures
        r is Some <==> s@.len() > 0 && all_digits(s@, radix as int) && digits_value(
            s@,
            radix as int,
        ) <= i32::MAX,
        r matches Some(v) ==> v == digits_value(s@, radix as int) && v >= 0,
{
    if s.len() == 0 {
        return None;
    }
    let mut acc: i64 = 0;
    let mut i: usize = 0;
    assert(s@.subrange(0, 0) =~= Seq::<u8>::empty());
    while i < s.len()
        invariant
            2 <= radix <= 16,
            i <= s@.len(),
            all_digits(s@.subrange(0, i as int), radix as int),
            acc == digits_value(s@.subrange(0, i as int), radix as int),
            0 <= acc <= i32::MAX,
        decreases s@.len() - i,
    {
        let d = digit(s[i]);
        assert(s@.subrange(0, i + 1).drop_last() =~= s@.subrange(0, i as int));
        if d >= radix {
            assert(!all_digits(s@, radix as int)) by {
                assert(digit_value(s@[i as int]) >= radix);
            }
            return None;
        }
        assert(acc * radix <= 0x7fff_ffff * 16) by (nonlinear_arith)
            requires
                0 <= acc <= 0x7fff_ffff,
                radix <= 16,
        ;
        acc = acc * (radix as i64) + (d as i64);
        assert(all_digits(s@.subrange(0, i + 1), radix as int)) by {
            assert forall|j: int| 0 <= j < i + 1 implies #[trigger] digit_value(
                s@.subrange(0, i + 1)[j],
            ) < radix by {
                if j < i {
                    assert(s@.subrange(0, i + 1)[j] == s@.subrange(0, i as int)[j]);
                }
            }
        }
        if acc > 0x7fff_ffff {
            proof {
                if all_digits(s@, radix as int) {
                    lemma_digits_value_monotone(s@, i + 1, radix as int);
                }
            }
            return None;
        }
        i += 1;
    }
    assert(s@.subrange(0, s@.len() as int) =~= s@);
    Some(acc as i32)
}

} // verus!

verus! {

/// The bytes of `t` from `start` on.
pub fn tail_bytes(t: &Vec<u8>, start: usize) -> (r: Vec<u8>)
    requires
        start <= t@.len(),
    ensures
        r@ == t@.subrange(start as int, t@.len() as int),
{
    let mut r: Vec<u8> = Vec::new();
    let mut i: usize = start;
    while i < t.len()
        invariant
            start <= i <= t@.len(),
            r@ == t@.subrange(start as int, i as int),
        decreases t@.len() - i,
    {
        r.push(t[i]);
        assert(r@ =~= t@.subrange(start as int, i + 1));
        i += 1;
    }
    r
}

/// A copy of `t`.
pub fn copy_bytes(t: &Vec<u8>) -> (r: Vec<u8>)
    ensures
        r@ == t@,
{
    let r = tail_bytes(t, 0);
    assert(t@.subrange(0, t@.len() as int) =~= t@);
    r
}

} // verus!
