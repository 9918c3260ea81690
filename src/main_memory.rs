//! Main memory: 512 words, with two pipelined read ports.
use crate::codec::{fast_decode, fast_encode};
use crate::word::{word_bits, word_of};
use vstd::prelude::*;

verus! {

/// Number of words of main memory.
pub const MEMORY_SIZE: usize = 512;

/// Where a read request stands.
#[derive(Clone, Copy, Debug, PartialEq, Eq, Structural)]
pub enum ReadState {
    /// Requested this cycle.
    ReadInitialized,
    /// One cycle has elapsed.
    ReadInProgress,
    /// Retired.
    NoRead,
}

/// A pending read: address and state.
pub type ReadRequest = (i32, ReadState);

/// The queue after one cycle: requests in progress retire, fresh ones move to
/// in progress, retired ones are dropped; order is kept.
pub open spec fn advanced(q: Seq<ReadRequest>) -> Seq<ReadRequest>
    decreases q.len(),
{
    if q.len() == 0 {
        Seq::empty()
    } else {
        let rest = advanced(q.drop_last());
        if q.last().1 == ReadState::ReadInitialized {
            rest.push((q.last().0, ReadState::ReadInProgress))
        } else {
            rest
        }
    }
}

/// The address whose word a cycle latches: the last request in progress.
pub open spec fn latched_address(q: Seq<ReadRequest>) -> Option<i32>
    decreases q.len(),
{
    if q.len() == 0 {
        None
    } else if q.last().1 == ReadState::ReadInProgress {
        Some(q.last().0)
    } else {
        latched_address(q.drop_last())
    }
}

/// Every queued address lies in memory.
pub open spec fn queue_in_range(q: Seq<ReadRequest>) -> bool {
    forall|i: int| 0 <= i < q.len() ==> 0 <= #[trigger] q[i].0 < 512
}

/// What a read port puts on its register: the word at the latched address,
/// all low when nothing is latched.
pub open spec fn port_output(cells: Seq<i32>, q: Seq<ReadRequest>) -> Seq<bool> {
    match latched_address(q) {
        Some(a) => word_bits(cells[a as int] as int),
        None => Seq::new(32, |i: int| false),
    }
}

proof fn lemma_advanced_in_range(q: Seq<ReadRequest>)
    requires
        queue_in_range(q),
    ensures
        queue_in_range(advanced(q)),
        latched_address(q) matches Some(a) ==> 0 <= a < 512,
    decreases q.len(),
{
    if q.len() > 0 {
        assert(queue_in_range(q.drop_last()));
        lemma_advanced_in_range(q.drop_last());
    }
}

/// One cycle of a read port over `q`: the new queue, the latched word and
/// whether a word was latched.
fn advance_port(cells: &[i32; 512], q: &Vec<ReadRequest>) -> (r: (Vec<ReadRequest>, [bool; 32], bool))
    requires
        queue_in_range(q@),
    ensures
        r.0@ == advanced(q@),
        r.1@ == port_output(cells@, q@),
        r.2 == latched_address(q@) is Some,
{
    let mut kept: Vec<ReadRequest> = Vec::new();
    let mut res = [false; 32];
    let mut enabled = false;
    let mut i: usize = 0;
    assert(q@.subrange(0, 0) =~= Seq::<ReadRequest>::empty());
    assert(res@ =~= Seq::new(32, |i: int| false));
    while i < q.len()
        invariant
            i <= q@.len(),
            queue_in_range(q@),
            kept@ == advanced(q@.subrange(0, i as int)),
            res@ == port_output(cells@, q@.subrange(0, i as int)),
            enabled == latched_address(q@.subrange(0, i as int)) is Some,
        decreases q@.len() - i,
    {
        let (addr, state) = q[i];
        let ghost before = q@.subrange(0, i as int);
        assert(q@.subrange(0, i + 1).drop_last() =~= before);
        if state == ReadState::ReadInProgress {
            res = fast_decode(cells[addr as usize]);
            enabled = true;
        } else if state == ReadState::ReadInitialized {
            kept.push((addr, ReadState::ReadInProgress));
        }
        i += 1;
    }
    assert(q@.subrange(0, q@.len() as int) =~= q@);
    (kept, res, enabled)
}

pub struct MainMemory {
    pub cells: [i32; 512],
    /// Data reads (MAR to MDR).
    pub first_reading: Vec<ReadRequest>,
    /// Instruction fetches (PC to MBR).
    pub second_reading: Vec<ReadRequest>,
}

impl MainMemory {
    /// Every pending request addresses a word of memory.
    pub open spec fn wf(&self) -> bool {
        queue_in_range(self.first_reading@) && queue_in_range(self.second_reading@)
    }

    /// Zeroed memory, nothing pending.
    pub fn initialize() -> (r: MainMemory)
        ensures
            r.wf(),
            r.cells@ == Seq::new(512, |i: int| 0i32),
            r.first_reading@.len() == 0,
            r.second_reading@.len() == 0,
    {
        let r = MainMemory { cells: [0;512], first_reading: Vec::new(), second_reading: Vec::new() };
        assert(r.cells@ =~= Seq::new(512, |i: int| 0i32));
        r
    }

    pub fn write_data(&mut self, data: i32, addr: usize)
        requires
            addr < 512,
        ensures
            final(self).cells@ == old(self).cells@.update(addr as int, data),
            final(self).first_reading == old(self).first_reading,
            final(self).second_reading == old(self).second_reading,
    {
        self.cells[addr] = data
    }

    pub fn read_number(&self, addr: usize) -> (r: i32)
        requires
            addr < 512,
        ensures
            r == self.cells@[addr as int],
    {
        self.cells[addr]
    }

    /// Writes the word `data` at the address that `addr` holds, when enabled.
    pub fn write(&mut self, data: [bool; 32], addr: [bool; 32], enabled: bool)
        requires
            enabled ==> 0 <= word_of(addr@) < 512,
        ensures
            final(self).cells@ == if enabled {
                old(self).cells@.update(word_of(addr@), word_of(data@) as i32)
            } else {
                old(self).cells@
            },
            final(self).first_reading == old(self).first_reading,
            final(self).second_reading == old(self).second_reading,
    {
        if !enabled {
            return ;
        }
        let a = fast_encode(&addr);
        let d = fast_encode(&data);
        self.cells[a as usize] = d;
    }

    /// The word at the address that `addr` holds.
    pub fn read(&self, addr: [bool; 32]) -> (r: [bool; 32])
        requires
            0 <= word_of(addr@) < 512,
        ensures
            r@ == word_bits(self.cells@[word_of(addr@)] as int),
    {
        let i_addr = fast_encode(&addr);
        fast_decode(self.cells[i_addr as usize])
    }

    /// Queues a data read of the address that `addr` holds, when enabled.
    pub fn request_first_read(&mut self, addr: [bool; 32], enabled: bool)
        requires
            old(self).wf(),
            enabled ==> 0 <= word_of(addr@) < 512,
        ensures
            final(self).wf(),
            final(self).cells == old(self).cells,
            final(self).second_reading == old(self).second_reading,
            final(self).first_reading@ == if enabled {
                old(self).first_reading@.push((word_of(addr@) as i32, ReadState::ReadInitialized))
            } else {
                old(self).first_reading@
            },
    {
        if !enabled {
            return ;
        }
        let a = fast_encode(&addr);
        self.first_reading.push((a, ReadState::ReadInitialized));
    }

    /// Queues an instruction fetch of the address that `addr` holds, when enabled.
    pub fn request_second_read(&mut self, addr: [bool; 32], enabled: bool)
        requires
            old(self).wf(),
            enabled ==> 0 <= word_of(addr@) < 512,
        ensures
            final(self).wf(),
            final(self).cells == old(self).cells,
            final(self).first_reading == old(self).first_reading,
            final(self).second_reading@ == if enabled {
                old(self).second_reading@.push((word_of(addr@) as i32, ReadState::ReadInitialized))
            } else {
                old(self).second_reading@
            },
    {
        if !enabled {
            return ;
        }
        let a = fast_encode(&addr);
        self.second_reading.push((a, ReadState::ReadInitialized));
    }

    /// Advances the data reads by one cycle; returns the latched word and
    /// whether one was latched.
    pub fn check_first_read(&mut self) -> (r: ([bool; 32], bool))
        requires
            old(self).wf(),
        ensures
            final(self).wf(),
            final(self).cells == old(self).cells,
            final(self).second_reading == old(self).second_reading,
            final(self).first_reading@ == advanced(old(self).first_reading@),
            r.0@ == port_output(old(self).cells@, old(self).first_reading@),
            r.1 == latched_address(old(self).first_reading@) is Some,
    {
        proof {
            lemma_advanced_in_range(self.first_reading@);
        }
        let (kept, res, enabled) = advance_port(&self.cells, &self.first_reading);
        self.first_reading = kept;
        (res, enabled)
    }

    /// Advances the instruction fetches by one cycle; returns the latched
    /// word and whether one was latched.
    pub fn check_second_read(&mut self) -> (r: ([bool; 32], bool))
        requires
            old(self).wf(),
        ensures
            final(self).wf(),
            final(self).cells == old(self).cells,
            final(self).first_reading == old(self).first_reading,
            final(self).second_reading@ == advanced(old(self).second_reading@),
            r.0@ == port_output(old(self).cells@, old(self).second_reading@),
            r.1 == latched_address(old(self).second_reading@) is Some,
    {
        proof {
            lemma_advanced_in_range(self.second_reading@);
        }
        let (kept, res, enabled) = advance_port(&self.cells, &self.second_reading);
        self.second_reading = kept;
        (res, enabled)
    }
}

} // verus!
