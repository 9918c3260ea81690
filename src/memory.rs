//! Edge-triggered registers and the control store.
use crate::bus::{Bus32, Bus36, Bus9};
use crate::decoders::{decoder_9x512, one_hot};
use crate::word::bits_value;
use vstd::prelude::*;

verus! {

/// One stored bit, written when its enable line is high.
#[derive(Clone, Copy)]
pub struct DLatch {
    pub state: bool,
}

impl DLatch {
    pub fn new() -> (r: DLatch)
        ensures
            !r.state,
    {
        DLatch { state: false }
    }

    pub fn update(&mut self, d: bool, update: bool)
        ensures
            final(self).state == if update {
                d
            } else {
                old(self).state
            },
    {
        if !update {
            return ;
        }
        self.state = d
    }
}

/// The bits that an array of latches holds.
pub open spec fn latch_bits<const N: usize>(l: [DLatch; N]) -> Seq<bool> {
    Seq::new(N as nat, |i: int| l@[i].state)
}

/// Every latch of `l` takes its line of `data` when `enabled`.
fn latch_all<const N: usize>(l: [DLatch; N], data: [bool; N], enabled: bool) -> (r: [DLatch; N])
    ensures
        latch_bits(r) == if enabled {
            data@
        } else {
            latch_bits(l)
        },
{
    let mut res = l;
    let mut i: usize = 0;
    while i < N
        invariant
            i <= N,
            res@.len() == N,
            forall|j: int| 0 <= j < i ==> res@[j].state == if enabled { data@[j] } else { l@[j].state },
            forall|j: int| i <= j < N ==> res@[j] == l@[j],
        decreases N - i,
    {
        let mut latch = res[i];
        latch.update(data[i], enabled);
        res[i] = latch;
        i += 1;
    }
    assert(latch_bits(res) =~= if enabled { data@ } else { latch_bits(l) });
    res
}

/// The stored bits, each ANDed with `enabled`.
fn gated_bits<const N: usize>(l: [DLatch; N], enabled: bool) -> (r: [bool; N])
    ensures
        r@ == Seq::new(N as nat, |i: int| l@[i].state && enabled),
{
    let mut res = [false; N];
    let mut i: usize = 0;
    while i < N
        invariant
            i <= N,
            res@.len() == N,
            forall|j: int| 0 <= j < i ==> res@[j] == (l@[j].state && enabled),
        decreases N - i,
    {
        res[i] = l[i].state && enabled;
        i += 1;
    }
    assert(res@ =~= Seq::new(N as nat, |i: int| l@[i].state && enabled));
    res
}

/// A 36-bit register: holds a micro-instruction.
#[derive(Clone, Copy)]
pub struct Register36 {
    pub registers: [DLatch; 36],
}

impl Register36 {
    pub open spec fn value(&self) -> Seq<bool> {
        latch_bits(self.registers)
    }

    pub fn new() -> (r: Register36)
        ensures
            r.value() == Seq::new(36, |i: int| false),
    {
        let r = Register36 { registers: [DLatch::new();36] };
        assert(r.value() =~= Seq::new(36, |i: int| false));
        r
    }

    pub fn update_from_bus(&mut self, input: &Bus36, enabled: bool)
        ensures
            final(self).value() == if enabled {
                input.data@
            } else {
                old(self).value()
            },
    {
        self.registers = latch_all(self.registers, input.data, enabled);
    }

    pub fn get(self) -> (r: [bool; 36])
        ensures
            r@ == self.value(),
    {
        let r = gated_bits(self.registers, true);
        assert(r@ =~= self.value());
        r
    }

    pub fn read(self, enabled: bool) -> (r: [bool; 36])
        ensures
            r@ == Seq::new(36, |i: int| self.value()[i] && enabled),
    {
        gated_bits(self.registers, enabled)
    }
}

/// A 32-bit register: holds a word.
#[derive(Clone, Copy)]
pub struct Register32 {
    pub registers: [DLatch; 32],
}

impl Register32 {
    pub open spec fn value(&self) -> Seq<bool> {
        latch_bits(self.registers)
    }

    pub fn new() -> (r: Register32)
        ensures
            r.value() == Seq::new(32, |i: int| false),
    {
        let r = Register32 { registers: [DLatch::new();32] };
        assert(r.value() =~= Seq::new(32, |i: int| false));
        r
    }

    pub fn update_from_bus(&mut self, input: &Bus32, enabled: bool)
        ensures
            final(self).value() == if enabled {
                input.data@
            } else {
                old(self).value()
            },
    {
        self.registers = latch_all(self.registers, input.data, enabled);
    }

    pub fn get(self) -> (r: [bool; 32])
        ensures
            r@ == self.value(),
    {
        let r = gated_bits(self.registers, true);
        assert(r@ =~= self.value());
        r
    }

    /// The stored word when `enabled`, all lines low when not.
    pub fn read(self, enabled: bool) -> (r: [bool; 32])
        ensures
            r@ == Seq::new(32, |i: int| self.value()[i] && enabled),
    {
        gated_bits(self.registers, enabled)
    }
}

/// A 9-bit register: holds a micro-address.
#[derive(Clone, Copy)]
pub struct Register9 {
    pub registers: [DLatch; 9],
}

impl Register9 {
    pub open spec fn value(&self) -> Seq<bool> {
        latch_bits(self.registers)
    }

    pub fn new() -> (r: Register9)
        ensures
            r.value() == Seq::new(9, |i: int| false),
    {
        let r = Register9 { registers: [DLatch::new();9] };
        assert(r.value() =~= Seq::new(9, |i: int| false));
        r
    }

    pub fn update(&mut self, data: [bool; 9], enabled: bool)
        ensures
            final(self).value() == if enabled {
                data@
            } else {
                old(self).value()
            },
    {
        self.registers = latch_all(self.registers, data, enabled);
    }

    pub fn get(self) -> (r: [bool; 9])
        ensures
            r@ == self.value(),
    {
        let r = gated_bits(self.registers, true);
        assert(r@ =~= self.value());
        r
    }

    pub fn to_bus(self) -> (r: Bus9)
        ensures
            r.data@ == self.value(),
    {
        Bus9::from(self.get())
    }
}

/// The control store: 512 rows of 36 bits.
pub struct Memory512x36 {
    pub cells: [Register36; 512],
}

impl Memory512x36 {
    /// Row `i`.
    pub open spec fn row(&self, i: int) -> Seq<bool> {
        self.cells@[i].value()
    }

    pub fn new() -> (r: Memory512x36)
        ensures
            forall|i: int| 0 <= i < 512 ==> #[trigger] r.row(i) == Seq::new(36, |k: int| false),
    {
        let z = Register36::new();
        let r = Memory512x36 { cells: [z;512] };
        r
    }

    /// Stores `data` in row `address`.
    pub fn write_data(&mut self, data: [bool; 36], address: usize)
        requires
            address < 512,
        ensures
            forall|i: int|
                0 <= i < 512 ==> #[trigger] final(self).row(i) == if i == address {
                    data@
                } else {
                    old(self).row(i)
                },
    {
        let mut cell = self.cells[address];
        cell.update_from_bus(&Bus36::from(data), true);
        self.cells[address] = cell;
    }

    /// The row that the address selects: the decoder picks one row, and the
    /// rows are OR-merged onto the output.
    pub fn get(&self, address: Bus9) -> (r: Bus36)
        ensures
            r.data@ == self.row(bits_value(address.data@) as int),
    {
        let decoded_address = decoder_9x512(address.data);
        let ghost a = bits_value(address.data@) as int;
        proof {
            crate::decoders::lemma_decoder_one_hot(address.data@);
        }
        let mut res_array = [false; 36];
        let mut i: usize = 0;
        while i < 512
            invariant
                i <= 512,
                0 <= a < 512,
                decoded_address@ == one_hot(512, a),
                forall|k: int| 0 <= k < 36 ==> res_array@[k] == (a < i && self.row(a)[k]),
            decreases 512 - i,
        {
            let row = self.cells[i].registers;
            let mut k: usize = 0;
            while k < 36
                invariant
                    i < 512,
                    k <= 36,
                    0 <= a < 512,
                    row == self.cells@[i as int].registers,
                    decoded_address@ == one_hot(512, a),
                    forall|j: int| 0 <= j < k ==> res_array@[j] == (a <= i && self.row(a)[j]),
                    forall|j: int| k <= j < 36 ==> res_array@[j] == (a < i && self.row(a)[j]),
                decreases 36 - k,
            {
                res_array[k] = res_array[k] || row[k].state && decoded_address[i];
                k += 1;
            }
            i += 1;
        }
        assert(res_array@ =~= self.row(a));
        Bus36 { data: res_array }
    }
}

} // verus!
