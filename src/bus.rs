//! Wire bundles. Sources are OR-merged onto a bus.
use vstd::prelude::*;

verus! {

/// A 36-line bus: carries a micro-instruction.
pub struct Bus36 {
    pub data: [bool; 36],
}

impl Bus36 {
    pub fn from(data: [bool; 36]) -> (r: Bus36)
        ensures
            r.data@ == data@,
    {
        Bus36 { data }
    }
}

/// A 32-line bus: carries a word.
pub struct Bus32 {
    pub data: [bool; 32],
}

impl Bus32 {
    /// A bus with every line low.
    pub fn new() -> (r: Bus32)
        ensures
            r.data@ == Seq::new(32, |i: int| false),
    {
        let r = Bus32 { data: [false; 32] };
        assert(r.data@ =~= Seq::new(32, |i: int| false));
        r
    }

    pub fn from(data: [bool; 32]) -> (r: Bus32)
        ensures
            r.data@ == data@,
    {
        Bus32 { data }
    }

    /// Wired-OR: each line becomes high where it or the source line is high.
    pub fn connect(&mut self, lines: [bool; 32])
        ensures
            final(self).data@ == Seq::new(32, |i: int| old(self).data@[i] || lines@[i]),
    {
        self.data = or_lines(self.data, lines);
    }
}

/// Line-wise OR of two 32-line bundles.
pub fn or_lines(a: [bool; 32], b: [bool; 32]) -> (r: [bool; 32])
    ensures
        r@ == Seq::new(32, |i: int| a@[i] || b@[i]),
{
    let mut d = a;
    let mut i: usize = 0;
    while i < 32
        invariant
            i <= 32,
            forall|j: int| 0 <= j < i ==> d@[j] == (a@[j] || b@[j]),
            forall|j: int| i <= j < 32 ==> d@[j] == a@[j],
        decreases 32 - i,
    {
        d[i] = d[i] || b[i];
        i += 1;
    }
    assert(d@ =~= Seq::new(32, |k: int| a@[k] || b@[k]));
    d
}

/// A 9-line bus: carries a micro-address.
pub struct Bus9 {
    pub data: [bool; 9],
}

impl Bus9 {
    pub fn from(data: [bool; 9]) -> (r: Bus9)
        ensures
            r.data@ == data@,
    {
        Bus9 { data }
    }
}

} // verus!
