//! Latches built from NOR gates.
use vstd::prelude::*;

verus! {

fn nor(a: bool, b: bool) -> (r: bool)
    ensures
        r == !(a || b),
{
    !(a || b)
}

/// A set/reset latch.
pub struct SrLatch {
    pub res: bool,
}

impl SrLatch {
    pub fn new() -> (r: SrLatch)
        ensures
            !r.res,
    {
        SrLatch { res: false }
    }

    /// Set wins over hold; reset wins over both.
    pub fn update(&mut self, setting: bool, resetting: bool)
        ensures
            final(self).res == ((setting || old(self).res) && !resetting),
    {
        let not_res = nor(setting, self.res);
        self.res = nor(not_res, resetting);
    }
}

/// A data latch made of two NOR gates.
pub struct DLatch {
    pub res: bool,
}

impl DLatch {
    pub fn new() -> (r: DLatch)
        ensures
            !r.res,
    {
        DLatch { res: false }
    }

    /// The latch takes the data line.
    pub fn update(&mut self, d: bool)
        ensures
            final(self).res == d,
    {
        let not_res = nor(d, self.res);
        self.res = nor(not_res, !d);
    }
}

} // verus!
