//! The shifter between the ALU and the C bus.
use crate::bus::Bus32;
use vstd::prelude::*;

verus! {

/// `d` shifted left by `k` lines: the low `k` lines become low.
pub open spec fn shifted_left(d: Seq<bool>, k: int) -> Seq<bool> {
    Seq::new(32, |i: int| i >= k && d[i - k])
}

/// `d` shifted right by one line, the top line kept (arithmetic shift).
pub open spec fn shifted_right_arith(d: Seq<bool>) -> Seq<bool> {
    Seq::new(32, |i: int| if i < 31 { d[i + 1] } else { d[31] })
}

/// One shift stage: each output line takes its neighbour when enabled, and
/// its own input when not.
fn shift(data: Bus32, left: bool, enabled: bool) -> (r: Bus32)
    ensures
        r.data@ == Seq::new(
            32,
            |i: int|
                if !enabled {
                    data.data@[i]
                } else if left {
                    i > 0 && data.data@[i - 1]
                } else {
                    i < 31 && data.data@[i + 1]
                },
        ),
{
    let mut res = Bus32::new();
    let mut i: usize = 0;
    while i < 32
        invariant
            i <= 32,
            forall|j: int|
                0 <= j < i ==> res.data@[j] == if !enabled {
                    data.data@[j]
                } else if left {
                    j > 0 && data.data@[j - 1]
                } else {
                    j < 31 && data.data@[j + 1]
                },
        decreases 32 - i,
    {
        let from_right = i > 0 && data.data[i - 1];
        let from_left = i < 31 && data.data[i + 1];
        res.data[i] = (left && from_right || !left && from_left) && enabled || !enabled
            && data.data[i];
        i += 1;
    }
    assert(res.data@ =~= Seq::new(
        32,
        |i: int|
            if !enabled {
                data.data@[i]
            } else if left {
                i > 0 && data.data@[i - 1]
            } else {
                i < 31 && data.data@[i + 1]
            },
    ));
    res
}

/// Shift left by 8 when enabled; pass through when not.
pub fn sll8(data: Bus32, enabled: bool) -> (r: Bus32)
    ensures
        r.data@ == if enabled {
            shifted_left(data.data@, 8)
        } else {
            data.data@
        },
{
    let ghost d = data.data@;
    let mut res: Bus32 = data;
    let mut k: usize = 0;
    assert(res.data@ =~= if enabled { shifted_left(d, 0) } else { d });
    while k < 8
        invariant
            k <= 8,
            d.len() == 32,
            res.data@ == if enabled {
                shifted_left(d, k as int)
            } else {
                d
            },
        decreases 8 - k,
    {
        res = shift(res, true, enabled);
        assert(res.data@ =~= if enabled { shifted_left(d, k + 1) } else { d });
        k += 1;
    }
    res
}

/// Arithmetic shift right by 1 when enabled (the top line is replicated);
/// pass through when not.
pub fn sra1(data: Bus32, enabled: bool) -> (r: Bus32)
    ensures
        r.data@ == if enabled {
            shifted_right_arith(data.data@)
        } else {
            data.data@
        },
{
    let top = data.data[31];
    let mut res = shift(data, false, enabled);
    if enabled {
        res.data[31] = top;
    }
    assert(res.data@ =~= if enabled { shifted_right_arith(data.data@) } else { data.data@ });
    res
}

} // verus!
